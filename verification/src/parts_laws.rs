//! What holds of the parts of a group: what each of them adds to a configuration, item by item.

use crate::config::{views, Registration, RegistrationView, ServiceConfigView};
use crate::factory::{Either, HttpServiceFactory};
use crate::group::{
    layered, layers, members_register, registration_steps, single_route, Group, Member,
};
use crate::guard::{guarded, guards_view, Guards, SharedGuard};
use crate::header::ascii_bytes;
use crate::laws::{
    all_accept, law_enclosing_guards_add_up, law_middlewares_compose, law_routes_register_in_order,
    mounted_services, resource_registrations, takes,
};
use crate::middleware::labelled;
use crate::resource::{Resource, ResourceView};
use crate::route::RouteView;
use crate::service::HttpNewService;
use std::rc::Rc;
use vstd::prelude::*;

verus! {

/// Whether exactly the guards of a list, in its order, stand in front of a service.
pub open spec fn stand_in_front(
    guards: Option<Seq<SharedGuard>>,
    expected: Seq<SharedGuard>,
) -> bool {
    &&& guards is None <==> expected.len() == 0
    &&& guards matches Some(list) ==> list.len() == expected.len() && forall|i: int|
        0 <= i < list.len() ==> list[i] == #[trigger] expected[i]
}

/// The guards in front of a service are the enclosing ones and then its own, none left out and
/// none added; without enclosing guards nothing changes at all.
pub proof fn law_enclosing_guards_come_first(
    enclosing: Seq<SharedGuard>,
    own: Option<Seq<SharedGuard>>,
)
    ensures
        enclosing.len() == 0 ==> guarded(enclosing, own) == own,
        enclosing.len() > 0 && own is None ==> guarded(enclosing, own) == Some(enclosing),
        enclosing.len() > 0 && own is Some ==> {
            &&& guarded(enclosing, own) is Some
            &&& guarded(enclosing, own)->0.len() == enclosing.len() + own->0.len()
            &&& forall|i: int|
                0 <= i < enclosing.len() ==> #[trigger] guarded(enclosing, own)->0[i]
                    == enclosing[i]
            &&& forall|i: int|
                0 <= i < own->0.len() ==> guarded(enclosing, own)->0[enclosing.len() + i]
                    == #[trigger] own->0[i]
        },
{
}

/// What a registration and its guards are taken for is what their fields hold.
pub proof fn law_registrations_are_their_fields<P>(
    registrations: Seq<Registration<P>>,
    i: int,
    guards: Guards,
)
    requires
        0 <= i < registrations.len(),
    ensures
        views(registrations).len() == registrations.len(),
        views(registrations)[i].rdef == registrations[i].rdef@,
        views(registrations)[i].service == registrations[i].service,
        views(registrations)[i].nested == registrations[i].nested,
        registrations[i].guards is None ==> views(registrations)[i].guards is None,
        registrations[i].guards matches Some(list) ==> views(registrations)[i].guards == Some(
            list@,
        ),
        guards_view(None) is None,
        guards_view(Some(guards)) == Some(guards@),
{
}

/// A configuration that is extended holds what it held, and then what was added; a child of it
/// holds nothing. Neither has another default service.
pub proof fn law_configurations_grow_at_the_end<P>(
    config: ServiceConfigView<P>,
    added: Seq<RegistrationView<P>>,
)
    ensures
        config.extended(added).default == config.default,
        config.extended(added).services.len() == config.services.len() + added.len(),
        forall|i: int|
            0 <= i < config.services.len() ==> #[trigger] config.extended(added).services[i]
                == config.services[i],
        forall|i: int|
            0 <= i < added.len() ==> config.extended(added).services[config.services.len() + i]
                == #[trigger] added[i],
        config.child().default == config.default,
        config.child().services.len() == 0,
{
}

/// A new resource has its path and nothing else.
pub proof fn law_new_resource_is_bare<P>(path: Seq<char>)
    ensures
        ResourceView::<P>::empty(path).path == path,
        ResourceView::<P>::empty(path).guards.len() == 0,
        ResourceView::<P>::empty(path).routes.len() == 0,
{
}

/// A route of a resource is mounted at the path of the resource, with the service of that very
/// route, behind all guards of the resource and then all guards of the route: a request reaches
/// the service exactly when every one of them accepts it.
pub proof fn law_mounted_route<P>(
    resource: ResourceView<P>,
    route: RouteView<P>,
    accepts: spec_fn(SharedGuard) -> bool,
)
    ensures
        resource.mounted(route).rdef == resource.path,
        resource.mounted(route).service == route.service,
        resource.mounted(route).nested is None,
        resource.guards.len() + route.guards.len() == 0 ==> resource.mounted(route).guards is None,
        resource.guards.len() + route.guards.len() > 0 ==> resource.mounted(route).guards == Some(
            resource.guards + route.guards,
        ),
        stand_in_front(resource.mounted(route).guards, resource.guards + route.guards),
        takes(resource.mounted(route).guards, accepts) <==> all_accept(resource.guards, accepts)
            && all_accept(route.guards, accepts),
{
    let both = resource.guards + route.guards;
    assert(route.guards.len() == 0 ==> both == resource.guards);
    assert(resource.guards.len() == 0 ==> both == route.guards);
    if all_accept(both, accepts) {
        assert forall|i: int| 0 <= i < resource.guards.len() implies #[trigger] accepts(
            resource.guards[i],
        ) by {
            assert(accepts(both[i]));
        }
        assert forall|i: int| 0 <= i < route.guards.len() implies #[trigger] accepts(
            route.guards[i],
        ) by {
            assert(accepts(both[resource.guards.len() + i]));
        }
    }
}

/// A resource has one registration for each of its routes, in their order: the one at an index
/// belongs to the route at that index, with the service and the guards of that route.
pub proof fn law_resource_mounts_each_route<P>(
    resource: ResourceView<P>,
    i: int,
    accepts: spec_fn(SharedGuard) -> bool,
)
    requires
        0 <= i < resource.routes.len(),
    ensures
        resource.registrations().len() == resource.routes.len(),
        resource.registrations()[i].rdef == resource.path,
        resource.registrations()[i].service == resource.routes[i].service,
        resource.registrations()[i].nested is None,
        stand_in_front(
            resource.registrations()[i].guards,
            resource.guards + resource.routes[i].guards,
        ),
        takes(resource.registrations()[i].guards, accepts) <==> all_accept(
            resource.guards,
            accepts,
        ) && all_accept(resource.routes[i].guards, accepts),
{
    law_mounted_route(resource, resource.routes[i], accepts);
}

/// Registering a resource leaves what was there in front and adds one registration for each
/// route, in order, which serves the path of the resource with the service of that route, behind
/// the guards of the resource and of that route.
pub proof fn law_resource_registers_its_routes<P>(
    resource: Resource<P>,
    before: ServiceConfigView<P>,
    after: ServiceConfigView<P>,
)
    requires
        resource.registers(before, after),
    ensures
        after.default == before.default,
        after.services.len() == before.services.len() + resource@.routes.len(),
        forall|i: int|
            0 <= i < before.services.len() ==> #[trigger] after.services[i] == before.services[i],
        forall|i: int|
            #![trigger resource@.routes[i]]
            0 <= i < resource@.routes.len() ==> {
                let added = after.services[before.services.len() + i];
                &&& added.rdef == resource@.path
                &&& added.service == resource@.routes[i].service
                &&& added.nested is None
                &&& stand_in_front(added.guards, resource@.guards + resource@.routes[i].guards)
            },
{
    assert forall|i: int|
        #![trigger resource@.routes[i]]
        0 <= i < resource@.routes.len() implies {
        let added = after.services[before.services.len() + i];
        &&& added.rdef == resource@.path
        &&& added.service == resource@.routes[i].service
        &&& added.nested is None
        &&& stand_in_front(added.guards, resource@.guards + resource@.routes[i].guards)
    } by {
        law_resource_mounts_each_route(resource@, i, |guard: SharedGuard| true);
    }
}

/// What registering a resource leads to is determined: there are no two outcomes.
pub proof fn law_resource_has_one_outcome<P>(
    resource: Resource<P>,
    before: ServiceConfigView<P>,
    left: ServiceConfigView<P>,
    right: ServiceConfigView<P>,
)
    requires
        resource.registers(before, left),
    ensures
        resource.registers(before, right) <==> right == left,
{
}

/// The resource of a route has the path, the guards of the route, and one route to the same
/// service that has no guards left.
pub proof fn law_resource_of_a_route<P>(path: Seq<char>, route: RouteView<P>)
    ensures
        single_route(path, route).path == path,
        single_route(path, route).guards == route.guards,
        single_route(path, route).routes.len() == 1,
        single_route(path, route).routes[0].service == route.service,
        single_route(path, route).routes[0].guards.len() == 0,
{
}

/// A member that was added as a service does exactly what its factory does.
pub proof fn law_service_member_is_its_factory<P, F: HttpServiceFactory<P>>(
    factory: F,
    before: ServiceConfigView<P>,
    after: ServiceConfigView<P>,
)
    ensures
        Member::<P, F>::Service(factory).registers(before, after) <==> factory.registers(
            before,
            after,
        ),
{
}

/// A member that was added as a route does exactly what its resource does.
pub proof fn law_route_member_is_its_resource<P, F: HttpServiceFactory<P>>(
    resource: Resource<P>,
    before: ServiceConfigView<P>,
    after: ServiceConfigView<P>,
)
    ensures
        Member::<P, F>::Resource(resource).registers(before, after) <==> resource.registers(
            before,
            after,
        ),
{
}

/// One of two kinds of factories does exactly what the factory that it holds does.
pub proof fn law_either_is_what_it_holds<
    P,
    A: HttpServiceFactory<P>,
    B: HttpServiceFactory<P>,
>(left: A, right: B, before: ServiceConfigView<P>, after: ServiceConfigView<P>)
    ensures
        HttpServiceFactory::<P>::registers(Either::<A, B>::Left(left), before, after)
            <==> left.registers(before, after),
        HttpServiceFactory::<P>::registers(Either::<A, B>::Right(right), before, after)
            <==> right.registers(before, after),
{
}

/// Two resources that register one after another, each as one of two kinds of factories, add the
/// services of all routes of the first one and then those of all routes of the second one.
pub proof fn law_mixed_resources_register_all_routes<P>(
    first: Resource<P>,
    second: Resource<P>,
    before: ServiceConfigView<P>,
    between: ServiceConfigView<P>,
    after: ServiceConfigView<P>,
)
    requires
        HttpServiceFactory::<P>::registers(
            Either::<Resource<P>, Resource<P>>::Left(first),
            before,
            between,
        ),
        HttpServiceFactory::<P>::registers(
            Either::<Resource<P>, Resource<P>>::Right(second),
            between,
            after,
        ),
    ensures
        after == before.extended(first@.registrations() + second@.registrations()),
        after.services.len() == before.services.len() + first@.routes.len()
            + second@.routes.len(),
        forall|i: int|
            #![trigger first@.routes[i]]
            0 <= i < first@.routes.len() ==> {
                let added = after.services[before.services.len() + i];
                added.rdef == first@.path && added.service == first@.routes[i].service
            },
        forall|i: int|
            #![trigger second@.routes[i]]
            0 <= i < second@.routes.len() ==> {
                let added = after.services[before.services.len() + first@.routes.len() + i];
                added.rdef == second@.path && added.service == second@.routes[i].service
            },
{
    law_resource_registers_its_routes(first, before, between);
    law_resource_registers_its_routes(second, between, after);
    assert(after.services == before.services + (first@.registrations()
        + second@.registrations()));
}

/// Members register one after another, each once: none of them changes nothing, and a member
/// more goes on from where the others ended.
pub proof fn law_members_register_one_by_one<P, F: HttpServiceFactory<P>>(
    members: Seq<Member<P, F>>,
    last: Member<P, F>,
    before: ServiceConfigView<P>,
    after: ServiceConfigView<P>,
)
    ensures
        members_register(Seq::<Member<P, F>>::empty(), before, after) <==> after == before,
        members_register(members.push(last), before, after) <==> exists|
            between: ServiceConfigView<P>,
        | #[trigger]
            members_register(members, before, between) && last.registers(between, after),
{
    let none = Seq::<Member<P, F>>::empty();
    if after == before {
        assert(registration_steps(none, seq![before]));
    }
    let all = members.push(last);
    let n = members.len() as int;
    if members_register(all, before, after) {
        let steps = choose|steps: Seq<ServiceConfigView<P>>| #[trigger]
            registration_steps(all, steps) && steps.first() == before && steps.last() == after;
        let low = steps.drop_last();
        assert(registration_steps(members, low)) by {
            assert forall|i: int| #![trigger members[i]] 0 <= i < members.len() implies members[
                i
            ].registers(low[i], low[i + 1]) by {
                assert(all[i] == members[i]);
            }
        }
        assert(low.first() == before && low.last() == steps[n]);
        assert(members_register(members, before, steps[n]));
        assert(all[n].registers(steps[n], steps[n + 1]));
    }
    if exists|between: ServiceConfigView<P>| #[trigger]
        members_register(members, before, between) && last.registers(between, after) {
        let between = choose|between: ServiceConfigView<P>| #[trigger]
            members_register(members, before, between) && last.registers(between, after);
        let low = choose|steps: Seq<ServiceConfigView<P>>| #[trigger]
            registration_steps(members, steps) && steps.first() == before && steps.last()
                == between;
        let steps = low.push(after);
        assert(registration_steps(all, steps)) by {
            assert forall|i: int| #![trigger all[i]] 0 <= i < all.len() implies all[i].registers(
                steps[i],
                steps[i + 1],
            ) by {
                if i < n {
                    assert(all[i] == members[i]);
                }
            }
        }
        assert(steps.first() == before && steps.last() == after);
    }
}

/// A group mounts a service at its own paths, with its own nested resources, behind the guards of
/// the group and then its own, and as its middlewares make it, each wrapping what the one before
/// it made.
pub proof fn law_mounting<P, M, F>(
    group: Group<P, M, F>,
    own: RegistrationView<P>,
    mounted: RegistrationView<P>,
) where M: Fn(HttpNewService<P>) -> HttpNewService<P>
    requires
        group.mounts(own, mounted),
    ensures
        mounted.rdef == own.rdef,
        mounted.nested == own.nested,
        group.guards().len() == 0 ==> mounted.guards == own.guards,
        group.guards().len() > 0 && own.guards is None ==> mounted.guards == Some(group.guards()),
        group.guards().len() > 0 && own.guards is Some ==> mounted.guards == Some(
            group.guards() + own.guards->0,
        ),
        exists|steps: Seq<HttpNewService<P>>|
            #![trigger steps.first()]
            {
                &&& steps.len() == group.middlewares().len() + 1
                &&& steps.first() == own.service
                &&& steps.last() == mounted.service
                &&& forall|i: int|
                    #![trigger group.middlewares()[i]]
                    0 <= i < group.middlewares().len() ==> call_ensures(
                        *group.middlewares()[i],
                        (steps[i],),
                        steps[i + 1],
                    )
            },
{
    let steps = choose|steps: Seq<HttpNewService<P>>| #[trigger]
        layers(group.middlewares(), steps) && steps.first() == own.service && steps.last()
            == mounted.service;
    assert(layers(group.middlewares(), steps));
}

/// Whether the members of a group are routes, one for each path and route of two lists.
pub open spec fn are_routes<P, F>(
    members: Seq<Member<P, F>>,
    paths: Seq<Seq<char>>,
    routes: Seq<RouteView<P>>,
) -> bool {
    &&& members.len() == paths.len()
    &&& members.len() == routes.len()
    &&& forall|i: int|
        #![trigger members[i]]
        0 <= i < members.len() ==> (members[i] matches Member::Resource(resource) && resource@
            == single_route(paths[i], routes[i]))
}

/// The registrations of routes are one for each, with its path, its service and its guards.
proof fn registrations_of_routes<P, F>(
    members: Seq<Member<P, F>>,
    paths: Seq<Seq<char>>,
    routes: Seq<RouteView<P>>,
)
    requires
        are_routes(members, paths, routes),
    ensures
        resource_registrations(members).len() == members.len(),
        forall|i: int|
            0 <= i < members.len() ==> {
                let added = #[trigger] resource_registrations(members)[i];
                &&& added.rdef == paths[i]
                &&& added.service == routes[i].service
                &&& added.nested is None
                &&& added.guards == guarded(routes[i].guards, None)
            },
    decreases members.len(),
{
    if members.len() > 0 {
        let n = members.len() - 1;
        assert forall|i: int|
            #![trigger members.drop_last()[i]]
            0 <= i < n implies (members.drop_last()[i] matches Member::Resource(resource)
            && resource@ == single_route(paths.drop_last()[i], routes.drop_last()[i])) by {
            assert(members[i] == members.drop_last()[i]);
        }
        registrations_of_routes(members.drop_last(), paths.drop_last(), routes.drop_last());
        assert(members[n] == members.last());
        let last = members.last()->Resource_0@.registrations();
        assert(last.len() == 1);
        assert forall|i: int| 0 <= i < members.len() implies {
            let added = #[trigger] resource_registrations(members)[i];
            &&& added.rdef == paths[i]
            &&& added.service == routes[i].service
            &&& added.nested is None
            &&& added.guards == guarded(routes[i].guards, None)
        } by {
            if i < n {
                assert(resource_registrations(members)[i] == resource_registrations(
                    members.drop_last(),
                )[i]);
            } else {
                assert(resource_registrations(members)[i] == last[0]);
            }
        }
    }
}

/// Whether a registration serves a route: at its path, with its service inside of middlewares,
/// behind guards.
pub open spec fn serves_route<P, M>(
    added: RegistrationView<P>,
    path: Seq<char>,
    route: RouteView<P>,
    guards: Seq<SharedGuard>,
    middlewares: Seq<Rc<M>>,
) -> bool where M: Fn(HttpNewService<P>) -> HttpNewService<P> {
    &&& added.rdef == path
    &&& added.nested is None
    &&& stand_in_front(added.guards, guards)
    &&& layered(middlewares, route.service, added.service)
}

/// A group of routes adds one service for each route, in order: at the path of the route, with
/// the service of the route inside of the middlewares of the group, behind the guards of the
/// group and then those of the route.
pub proof fn law_group_of_routes<P, M, F>(
    group: Group<P, M, F>,
    paths: Seq<Seq<char>>,
    routes: Seq<RouteView<P>>,
    before: ServiceConfigView<P>,
    after: ServiceConfigView<P>,
) where M: Fn(HttpNewService<P>) -> HttpNewService<P>, F: HttpServiceFactory<P>
    requires
        are_routes(group.services(), paths, routes),
        group.registers(before, after),
    ensures
        after.default == before.default,
        after.services.len() == before.services.len() + routes.len(),
        forall|i: int|
            0 <= i < before.services.len() ==> #[trigger] after.services[i] == before.services[i],
        forall|i: int|
            #![trigger routes[i]]
            0 <= i < routes.len() ==> serves_route(
                after.services[before.services.len() + i],
                paths[i],
                routes[i],
                group.guards() + routes[i].guards,
                group.middlewares(),
            ),
{
    let members = group.services();
    let (own, mounted) = mounted_services(group, before, after);
    assert forall|i: int| 0 <= i < members.len() implies (#[trigger] members[i]) is Resource by {}
    law_routes_register_in_order(members, before.child(), own);
    registrations_of_routes(members, paths, routes);
    assert(own.services == resource_registrations(members));
    assert forall|i: int| #![trigger routes[i]] 0 <= i < routes.len() implies serves_route(
        after.services[before.services.len() + i],
        paths[i],
        routes[i],
        group.guards() + routes[i].guards,
        group.middlewares(),
    ) by {
        assert(group.mounts(own.services[i], mounted[i]));
        assert(own.services[i] == resource_registrations(members)[i]);
        law_enclosing_guards_add_up(group.guards(), routes[i].guards, None);
    }
}

/// A group of routes inside of another group, which may hold it directly or as one of several
/// kinds of factories, adds one service for each route, in order: at the path of the route,
/// behind the guards of the outer group, the inner group and the route, and inside of the
/// middlewares of the inner group and then those of the outer one.
pub proof fn law_nested_group_of_routes<P, M, F, G>(
    outer: Group<P, M, F>,
    factory: F,
    inner: Group<P, M, G>,
    paths: Seq<Seq<char>>,
    routes: Seq<RouteView<P>>,
    before: ServiceConfigView<P>,
    after: ServiceConfigView<P>,
) where
    M: Fn(HttpNewService<P>) -> HttpNewService<P>,
    F: HttpServiceFactory<P>,
    G: HttpServiceFactory<P>,

    requires
        outer.services() == seq![Member::<P, F>::Service(factory)],
        forall|b: ServiceConfigView<P>, a: ServiceConfigView<P>| #[trigger]
            factory.registers(b, a) ==> inner.registers(b, a),
        are_routes(inner.services(), paths, routes),
        outer.registers(before, after),
    ensures
        after.default == before.default,
        after.services.len() == before.services.len() + routes.len(),
        forall|i: int|
            0 <= i < before.services.len() ==> #[trigger] after.services[i] == before.services[i],
        forall|i: int|
            #![trigger routes[i]]
            0 <= i < routes.len() ==> serves_route(
                after.services[before.services.len() + i],
                paths[i],
                routes[i],
                outer.guards() + inner.guards() + routes[i].guards,
                inner.middlewares() + outer.middlewares(),
            ),
{
    let child = before.child();
    let (own, mounted) = mounted_services(outer, before, after);
    let steps = choose|steps: Seq<ServiceConfigView<P>>| #[trigger]
        registration_steps(outer.services(), steps) && steps.first() == child && steps.last()
            == own;
    assert(outer.services()[0].registers(steps[0], steps[1]));
    assert(factory.registers(child, own));
    law_group_of_routes(inner, paths, routes, child, own);
    assert forall|i: int| #![trigger routes[i]] 0 <= i < routes.len() implies serves_route(
        after.services[before.services.len() + i],
        paths[i],
        routes[i],
        outer.guards() + inner.guards() + routes[i].guards,
        inner.middlewares() + outer.middlewares(),
    ) by {
        let middle = own.services[child.services.len() + i];
        assert(outer.mounts(own.services[i], mounted[i]));
        assert(stand_in_front(middle.guards, inner.guards() + routes[i].guards));
        let front = inner.guards() + routes[i].guards;
        assert(middle.guards matches Some(list) ==> list == front);
        assert(outer.guards() + front == outer.guards() + inner.guards() + routes[i].guards);
        law_middlewares_compose(
            inner.middlewares(),
            outer.middlewares(),
            routes[i].service,
            mounted[i].service,
        );
    }
}

/// The label of a response is the text `0001`, byte for byte, and the bytes of a text are those
/// of its characters.
pub proof fn law_label_is_exact(
    headers: Map<Seq<char>, Seq<Seq<u8>>>,
    text: Seq<char>,
)
    ensures
        labelled(headers).dom() == headers.dom().insert("content-type"@),
        labelled(headers)["content-type"@] == seq![seq![48u8, 48u8, 48u8, 49u8]],
        forall|name: Seq<char>|
            name != "content-type"@ ==> #[trigger] labelled(headers)[name] == headers[name],
        ascii_bytes(text).len() == text.len(),
        forall|i: int| 0 <= i < text.len() ==> #[trigger] ascii_bytes(text)[i] == text[i] as u8,
{
    reveal_strlit("0001");
    assert(ascii_bytes("0001"@) == seq![48u8, 48u8, 48u8, 49u8]);
}

} // verus!
