use crate::guard::{Guards, SharedGuard};
use crate::service::HttpNewService;
use vstd::prelude::*;

verus! {

/// A service together with the guards that a request has to pass to reach it.
#[verifier::reject_recursive_types(P)]
pub struct Route<P> {
    guards: Guards,
    service: HttpNewService<P>,
}

/// What a [`Route`] holds.
#[verifier::ext_equal]
#[verifier::reject_recursive_types(P)]
pub struct RouteView<P> {
    pub guards: Seq<SharedGuard>,
    pub service: HttpNewService<P>,
}

impl<P> View for Route<P> {
    type V = RouteView<P>;

    closed spec fn view(&self) -> RouteView<P> {
        RouteView { guards: self.guards@, service: self.service }
    }
}

impl<P> Route<P> {
    /// Creates a route to a service, with no guards.
    pub fn new(service: HttpNewService<P>) -> (route: Self)
        ensures
            route@ == (RouteView { guards: Seq::empty(), service }),
    {
        Route { guards: Vec::new(), service }
    }

    /// Adds a guard behind those that the route has.
    pub fn guard(self, guard: SharedGuard) -> (route: Self)
        ensures
            route@ == (RouteView { guards: self@.guards.push(guard), ..self@ }),
    {
        let mut guards = self.guards;
        guards.push(guard);
        Route { guards, service: self.service }
    }

    /// Takes the guards off the route, which is left with none.
    pub fn take_guards(&mut self) -> (guards: Guards)
        ensures
            guards@ == old(self)@.guards,
            final(self)@ == (RouteView { guards: Seq::empty(), ..old(self)@ }),
    {
        let mut guards: Guards = Vec::new();
        std::mem::swap(&mut guards, &mut self.guards);
        guards
    }

    /// Takes the route apart.
    pub fn into_parts(self) -> (parts: (Guards, HttpNewService<P>))
        ensures
            parts.0@ == self@.guards,
            parts.1 == self@.service,
    {
        (self.guards, self.service)
    }
}

} // verus!
