use crate::config::{views, Registration, RegistrationView, ServiceConfig, ServiceConfigView};
use crate::factory::HttpServiceFactory;
use crate::guard::{guard_with, guarded, Guards, SharedGuard};
use crate::resource::{Resource, ResourceView};
use crate::route::{Route, RouteView};
use crate::service::HttpNewService;
use std::rc::Rc;
use vstd::prelude::*;

verus! {

/// A member of a group.
#[verifier::reject_recursive_types(P)]
pub enum Member<P, F> {
    /// A factory handed to [`Group::service`].
    Service(F),
    /// The resource that [`Group::route`] made.
    Resource(Resource<P>),
}

impl<P, F: HttpServiceFactory<P>> HttpServiceFactory<P> for Member<P, F> {
    open spec fn registers(
        self,
        before: ServiceConfigView<P>,
        after: ServiceConfigView<P>,
    ) -> bool {
        match self {
            Member::Service(factory) => factory.registers(before, after),
            Member::Resource(resource) => resource.registers(before, after),
        }
    }

    fn register(self, config: &mut ServiceConfig<P>) {
        match self {
            Member::Service(factory) => factory.register(config),
            Member::Resource(resource) => resource.register(config),
        }
    }
}

/// Whether a list of configurations is what the members of a group make of the first one:
/// each member leads from one configuration to the next.
pub open spec fn registration_steps<P, F: HttpServiceFactory<P>>(
    members: Seq<Member<P, F>>,
    steps: Seq<ServiceConfigView<P>>,
) -> bool {
    &&& steps.len() == members.len() + 1
    &&& forall|i: int|
        #![trigger members[i]]
        0 <= i < members.len() ==> members[i].registers(steps[i], steps[i + 1])
}

/// Whether the members of a group, registering one after another, may lead from one
/// configuration to another.
pub open spec fn members_register<P, F: HttpServiceFactory<P>>(
    members: Seq<Member<P, F>>,
    before: ServiceConfigView<P>,
    after: ServiceConfigView<P>,
) -> bool {
    exists|steps: Seq<ServiceConfigView<P>>| #[trigger]
        registration_steps(members, steps) && steps.first() == before && steps.last() == after
}

/// Whether a list of services is what middlewares make of the first one: each middleware
/// wraps one service and gives the next.
pub open spec fn layers<P, M: Fn(HttpNewService<P>) -> HttpNewService<P>>(
    middlewares: Seq<Rc<M>>,
    steps: Seq<HttpNewService<P>>,
) -> bool {
    &&& steps.len() == middlewares.len() + 1
    &&& forall|i: int|
        #![trigger middlewares[i]]
        0 <= i < middlewares.len() ==> call_ensures(*middlewares[i], (steps[i],), steps[i + 1])
}

/// Whether middlewares, the first one innermost, may wrap one service into another.
pub open spec fn layered<P, M: Fn(HttpNewService<P>) -> HttpNewService<P>>(
    middlewares: Seq<Rc<M>>,
    inner: HttpNewService<P>,
    outer: HttpNewService<P>,
) -> bool {
    exists|steps: Seq<HttpNewService<P>>| #[trigger]
        layers(middlewares, steps) && steps.first() == inner && steps.last() == outer
}

/// A call that adds something to a group.
#[verifier::reject_recursive_types(P)]
pub enum Call<P, M, F> {
    /// [`Group::guard`].
    Guard(SharedGuard),
    /// [`Group::service`].
    Service(F),
    /// [`Group::route`], with the path and what the route holds.
    Route(Seq<char>, RouteView<P>),
    /// [`Group::wrap`].
    Wrap(M),
    /// [`Group::wrap_fn`].
    WrapFn(M),
}

/// Services that share guards and middlewares.
///
/// `P` is the payload of requests, `M` a function that wraps one service into another, and `F`
/// the type of the factories that can be added as services. One group holds factories of one
/// type, besides its routes; for a group of mixed factories that type is an
/// [`Either`](crate::factory::Either).
#[verifier::reject_recursive_types(P)]
#[verifier::reject_recursive_types(M)]
pub struct Group<P, M, F> where M: Fn(HttpNewService<P>) -> HttpNewService<P> {
    services: Vec<Member<P, F>>,
    guards: Guards,
    middlewares: Vec<Rc<M>>,
}

impl<P, M, F> Group<P, M, F> where M: Fn(HttpNewService<P>) -> HttpNewService<P> {
    /// Every middleware can wrap any service.
    #[verifier::type_invariant]
    spec fn inv(self) -> bool {
        forall|i: int, srv: HttpNewService<P>|
            0 <= i < self.middlewares@.len() ==> #[trigger] call_requires(
                *self.middlewares@[i],
                (srv,),
            )
    }

    /// The members, in the order in which they were added.
    pub closed spec fn services(self) -> Seq<Member<P, F>> {
        self.services@
    }

    /// The guards of the group, in the order in which they were added.
    pub closed spec fn guards(self) -> Seq<SharedGuard> {
        self.guards@
    }

    /// The middlewares of the group, the innermost one first.
    pub closed spec fn middlewares(self) -> Seq<Rc<M>> {
        self.middlewares@
    }
}

impl<P, M, F> Group<P, M, F> where M: Fn(HttpNewService<P>) -> HttpNewService<P> {
    /// Whether the group may mount a service of one of its members as another: at the same
    /// paths, behind the guards of the group and then its own, wrapped in the middlewares of
    /// the group.
    pub open spec fn mounts(self, own: RegistrationView<P>, mounted: RegistrationView<P>) -> bool {
        &&& mounted.rdef == own.rdef
        &&& mounted.guards == guarded(self.guards(), own.guards)
        &&& mounted.nested == own.nested
        &&& layered(self.middlewares(), own.service, mounted.service)
    }

    /// Whether the group may mount a list of services, one by one, as another list.
    pub open spec fn mounts_all(
        self,
        own: Seq<RegistrationView<P>>,
        mounted: Seq<RegistrationView<P>>,
    ) -> bool {
        &&& mounted.len() == own.len()
        &&& forall|i: int|
            #![trigger mounted[i]]
            0 <= i < own.len() ==> self.mounts(own[i], mounted[i])
    }

    /// Whether a builder call may make one group of another: what it adds stands last in its
    /// list, and the other lists stay as they are.
    pub open spec fn called(self, call: Call<P, M, F>, group: Self) -> bool {
        match call {
            Call::Guard(guard) => {
                &&& group.guards() == self.guards().push(guard)
                &&& group.services() == self.services()
                &&& group.middlewares() == self.middlewares()
            },
            Call::Service(factory) => {
                &&& group.services() == self.services().push(Member::Service(factory))
                &&& group.guards() == self.guards()
                &&& group.middlewares() == self.middlewares()
            },
            Call::Route(path, route) => {
                &&& group.services().len() == self.services().len() + 1
                &&& group.services().drop_last() == self.services()
                &&& group.services().last() matches Member::Resource(resource) && resource@
                    == single_route(path, route)
                &&& group.guards() == self.guards()
                &&& group.middlewares() == self.middlewares()
            },
            Call::Wrap(mw) | Call::WrapFn(mw) => {
                &&& group.middlewares().len() == self.middlewares().len() + 1
                &&& group.middlewares().drop_last() == self.middlewares()
                &&& *group.middlewares().last() == mw
                &&& group.services() == self.services()
                &&& group.guards() == self.guards()
            },
        }
    }

    /// Creates an empty group.
    pub fn new() -> (group: Self)
        ensures
            group.services() == Seq::<Member<P, F>>::empty(),
            group.guards() == Seq::<SharedGuard>::empty(),
            group.middlewares() == Seq::<Rc<M>>::empty(),
    {
        Group { services: Vec::new(), guards: Vec::new(), middlewares: Vec::new() }
    }

    /// Adds a match guard to the group. A request reaches a service of the group only if
    /// every guard of the group accepts it.
    pub fn guard(self, guard: SharedGuard) -> (group: Self)
        ensures
            group.guards() == self.guards().push(guard),
            group.services() == self.services(),
            group.middlewares() == self.middlewares(),
            self.called(Call::Guard(guard), group),
    {
        proof {
            use_type_invariant(&self);
        }
        let mut guards = self.guards;
        guards.push(guard);
        Group { services: self.services, guards, middlewares: self.middlewares }
    }

    /// Adds a service to the group. `F` may be a resource, another group or any other factory,
    /// but it is the same for all services of the group: to mix them, let it be an
    /// [`Either`](crate::factory::Either).
    pub fn service(self, factory: F) -> (group: Self)
        ensures
            group.services() == self.services().push(Member::Service(factory)),
            group.guards() == self.guards(),
            group.middlewares() == self.middlewares(),
            self.called(Call::Service(factory), group),
    {
        self.add(Member::Service(factory))
    }

    /// Adds a route for a path.
    ///
    /// The guards of the route become those of the resource at the path. Adding several routes
    /// for one path adds several resources with one route each.
    pub fn route(self, path: &str, route: Route<P>) -> (group: Self)
        ensures
            group.services().len() == self.services().len() + 1,
            group.services().drop_last() == self.services(),
            group.services().last() matches Member::Resource(resource) && resource@
                == single_route(path@, route@),
            group.guards() == self.guards(),
            group.middlewares() == self.middlewares(),
            self.called(Call::Route(path@, route@), group),
    {
        let ghost view = route@;
        let mut route = route;
        let guards = route.take_guards();
        let resource = Resource::new(path).add_guards(guards).route(route);
        assert(resource@ == single_route(path@, view));
        self.add(Member::Resource(resource))
    }

    /// Adds a middleware to the group. It is wrapped around every service of the group, outside
    /// of the middlewares that were added before it.
    pub fn wrap(self, mw: M) -> (group: Self)
        requires
            forall|srv: HttpNewService<P>| call_requires(mw, (srv,)),
        ensures
            group.middlewares().len() == self.middlewares().len() + 1,
            group.middlewares().drop_last() == self.middlewares(),
            *group.middlewares().last() == mw,
            group.services() == self.services(),
            group.guards() == self.guards(),
            self.called(Call::Wrap(mw), group),
    {
        proof {
            use_type_invariant(&self);
        }
        let mut middlewares = self.middlewares;
        middlewares.push(Rc::new(mw));
        Group { services: self.services, guards: self.guards, middlewares }
    }

    /// Adds a middleware function to the group, as [`Group::wrap`] does.
    pub fn wrap_fn(self, mw: M) -> (group: Self)
        requires
            forall|srv: HttpNewService<P>| call_requires(mw, (srv,)),
        ensures
            group.middlewares().len() == self.middlewares().len() + 1,
            group.middlewares().drop_last() == self.middlewares(),
            *group.middlewares().last() == mw,
            group.services() == self.services(),
            group.guards() == self.guards(),
            self.called(Call::WrapFn(mw), group),
    {
        self.wrap(mw)
    }

    /// Adds a member to the group.
    fn add(self, member: Member<P, F>) -> (group: Self)
        ensures
            group.services() == self.services().push(member),
            group.guards() == self.guards(),
            group.middlewares() == self.middlewares(),
    {
        proof {
            use_type_invariant(&self);
        }
        let mut services = self.services;
        services.push(member);
        Group { services, guards: self.guards, middlewares: self.middlewares }
    }
}

/// The resource at a path that has a single route. It takes over the guards of the route.
pub open spec fn single_route<P>(path: Seq<char>, route: RouteView<P>) -> ResourceView<P> {
    ResourceView {
        path,
        guards: route.guards,
        routes: seq![RouteView { guards: Seq::empty(), service: route.service }],
    }
}

/// Wraps a service in middlewares, the first one innermost.
fn apply<P, M>(middlewares: &Vec<Rc<M>>, service: HttpNewService<P>) -> (wrapped: HttpNewService<P>)
    where M: Fn(HttpNewService<P>) -> HttpNewService<P>
    requires
        forall|i: int, srv: HttpNewService<P>|
            0 <= i < middlewares@.len() ==> #[trigger] call_requires(*middlewares@[i], (srv,)),
    ensures
        layered(middlewares@, service, wrapped),
{
    let mut wrapped = service;
    let mut i: usize = 0;
    let ghost mut steps: Seq<HttpNewService<P>> = seq![service];
    while i < middlewares.len()
        invariant
            forall|i: int, srv: HttpNewService<P>|
                0 <= i < middlewares@.len() ==> #[trigger] call_requires(*middlewares@[i], (srv,)),
            i <= middlewares.len(),
            layers(middlewares@.take(i as int), steps),
            steps.first() == service,
            steps.last() == wrapped,
        decreases middlewares.len() - i,
    {
        let middleware = &*middlewares[i];
        wrapped = middleware(wrapped);
        proof {
            steps = steps.push(wrapped);
        }
        i += 1;
    }
    assert(middlewares@.take(middlewares.len() as int) == middlewares@);
    wrapped
}

impl<P, M, F> Group<P, M, F> where
    M: Fn(HttpNewService<P>) -> HttpNewService<P>,
    F: HttpServiceFactory<P>,
 {
    /// Whether registering the group may lead from one configuration to another. The members
    /// register in a configuration of their own; the group mounts what they registered behind
    /// the services that were there before.
    pub open spec fn registers_members(
        self,
        before: ServiceConfigView<P>,
        after: ServiceConfigView<P>,
    ) -> bool {
        exists|own: ServiceConfigView<P>, mounted: Seq<RegistrationView<P>>|
            #![trigger self.mounts_all(own.services, mounted)]
            {
                &&& members_register(self.services(), before.child(), own)
                &&& self.mounts_all(own.services, mounted)
                &&& after == before.extended(mounted)
            }
    }
}

impl<P, M, F> HttpServiceFactory<P> for Group<P, M, F> where
    M: Fn(HttpNewService<P>) -> HttpNewService<P>,
    F: HttpServiceFactory<P>,
 {
    open spec fn registers(
        self,
        before: ServiceConfigView<P>,
        after: ServiceConfigView<P>,
    ) -> bool {
        self.registers_members(before, after)
    }

    fn register(self, config: &mut ServiceConfig<P>)
        ensures
            self.registers_members(old(config)@, final(config)@),
    {
        proof {
            use_type_invariant(&self);
        }
        let ghost group = self;
        let ghost before = config@;
        let ghost members = self.services@;
        let guards = self.guards;
        let middlewares = self.middlewares;

        let mut cfg = config.clone_config();
        let ghost mut steps: Seq<ServiceConfigView<P>> = seq![cfg@];
        for member in iter: self.services
            invariant
                iter.seq() == members,
                registration_steps(members.take(iter.index() as int), steps),
                steps.first() == before.child(),
                steps.last() == cfg@,
        {
            member.register(&mut cfg);
            proof {
                steps = steps.push(cfg@);
            }
        }
        assert(members.take(members.len() as int) == members);
        let ghost own = cfg@;
        let services = cfg.into_services();
        let ghost registrations = services@;
        let ghost mut mounted: Seq<RegistrationView<P>> = Seq::empty();
        for registration in iter: services
            invariant
                iter.seq() == registrations,
                views(registrations) == own.services,
                forall|i: int, srv: HttpNewService<P>|
                    0 <= i < middlewares@.len() ==> #[trigger] call_requires(
                        *middlewares@[i],
                        (srv,),
                    ),
                guards@ == group.guards(),
                middlewares@ == group.middlewares(),
                group.mounts_all(own.services.take(iter.index() as int), mounted),
                config@ == before.extended(mounted),
        {
            let wrapped = Registration {
                rdef: registration.rdef,
                service: apply(&middlewares, registration.service),
                guards: guard_with(&guards, registration.guards),
                nested: registration.nested,
            };
            proof {
                mounted = mounted.push(wrapped@);
            }
            config.register_service(wrapped);
        }
        assert(own.services.take(registrations.len() as int) == own.services);
        assert(group.mounts_all(own.services, mounted));
    }
}

} // verus!
