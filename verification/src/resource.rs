use crate::config::{Registration, RegistrationView, ServiceConfig, ServiceConfigView};
use crate::factory::HttpServiceFactory;
use crate::guard::{guard_with, guarded, Guards, SharedGuard};
use crate::route::{Route, RouteView};
use vstd::prelude::*;

verus! {

/// The routes of one path.
#[verifier::reject_recursive_types(P)]
pub struct Resource<P> {
    path: String,
    guards: Guards,
    routes: Vec<Route<P>>,
}

/// What a [`Resource`] holds.
#[verifier::ext_equal]
#[verifier::reject_recursive_types(P)]
pub struct ResourceView<P> {
    pub path: Seq<char>,
    pub guards: Seq<SharedGuard>,
    pub routes: Seq<RouteView<P>>,
}

impl<P> View for Resource<P> {
    type V = ResourceView<P>;

    closed spec fn view(&self) -> ResourceView<P> {
        ResourceView {
            path: self.path@,
            guards: self.guards@,
            routes: self.routes@.map_values(|r: Route<P>| r@),
        }
    }
}

impl<P> ResourceView<P> {
    /// A resource at a path, with no guards and no routes.
    pub open spec fn empty(path: Seq<char>) -> Self {
        ResourceView { path, guards: Seq::empty(), routes: Seq::empty() }
    }

    /// How one route of the resource is mounted: at the path of the resource, behind the
    /// guards of the resource and then its own.
    pub open spec fn mounted(self, route: RouteView<P>) -> RegistrationView<P> {
        RegistrationView {
            rdef: self.path,
            service: route.service,
            guards: guarded(
                self.guards,
                if route.guards.len() == 0 {
                    None
                } else {
                    Some(route.guards)
                },
            ),
            nested: None,
        }
    }

    /// The registrations of the resource, one for each route.
    pub open spec fn registrations(self) -> Seq<RegistrationView<P>> {
        self.routes.map_values(|route: RouteView<P>| self.mounted(route))
    }
}

impl<P> Resource<P> {
    /// Creates a resource at a path, with no guards and no routes.
    pub fn new(path: &str) -> (resource: Self)
        ensures
            resource@ == ResourceView::<P>::empty(path@),
    {
        let resource = Resource { path: path.to_owned(), guards: Vec::new(), routes: Vec::new() };
        assert(resource@.routes == Seq::<RouteView<P>>::empty());
        resource
    }

    /// Adds guards behind those that the resource has.
    pub fn add_guards(self, guards: Guards) -> (resource: Self)
        ensures
            resource@ == (ResourceView { guards: self@.guards + guards@, ..self@ }),
    {
        let mut added = guards;
        let mut guards = self.guards;
        guards.append(&mut added);
        Resource { path: self.path, guards, routes: self.routes }
    }

    /// Adds a route behind those that the resource has.
    pub fn route(self, route: Route<P>) -> (resource: Self)
        ensures
            resource@ == (ResourceView { routes: self@.routes.push(route@), ..self@ }),
    {
        let mut routes = self.routes;
        routes.push(route);
        let resource = Resource { path: self.path, guards: self.guards, routes };
        assert(resource@.routes == self@.routes.push(route@));
        resource
    }
}

impl<P> HttpServiceFactory<P> for Resource<P> {
    open spec fn registers(
        self,
        before: ServiceConfigView<P>,
        after: ServiceConfigView<P>,
    ) -> bool {
        after == before.extended(self@.registrations())
    }

    fn register(self, config: &mut ServiceConfig<P>) {
        let ghost resource = self@;
        let ghost before = config@;
        let path = self.path;
        let guards = self.guards;
        let ghost routes = self.routes@;
        assert(before.extended(resource.registrations().take(0)) == before);
        for route in iter: self.routes
            invariant
                iter.seq() == routes,
                resource.path == path@,
                resource.guards == guards@,
                resource.routes == routes.map_values(|r: Route<P>| r@),
                config@ == before.extended(resource.registrations().take(iter.index() as int)),
        {
            let ghost view = route@;
            let (own, service) = route.into_parts();
            let own = if own.is_empty() {
                None
            } else {
                Some(own)
            };
            let registration = Registration {
                rdef: path.clone(),
                service,
                guards: guard_with(&guards, own),
                nested: None,
            };
            assert(registration@ == resource.mounted(view));
            config.register_service(registration);
            proof {
                let all = resource.registrations();
                let n = iter.index() as int;
                assert(all.take(n + 1) == all.take(n).push(all[n]));
                assert(before.extended(all.take(n)).extended(seq![all[n]]) == before.extended(all.take(n + 1)));
            }
        }
        assert(resource.registrations().take(routes.len() as int) == resource.registrations());
    }
}

} // verus!
