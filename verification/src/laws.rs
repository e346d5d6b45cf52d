//! What holds of groups as a whole, whatever they are made of.

use crate::config::{RegistrationView, ServiceConfigView};
use crate::factory::HttpServiceFactory;
use crate::group::{
    layered, layers, members_register, registration_steps, single_route, Call, Group, Member,
};
use crate::guard::{guarded, SharedGuard};
use crate::header::ascii_bytes;
use crate::middleware::labelled;
use crate::resource::Resource;
use crate::route::RouteView;
use crate::service::HttpNewService;
use std::rc::Rc;
use vstd::prelude::*;

verus! {

/// Whether all guards of a list accept a request, given which guards accept it.
pub open spec fn all_accept(
    guards: Seq<SharedGuard>,
    accepts: spec_fn(SharedGuard) -> bool,
) -> bool {
    forall|i: int| 0 <= i < guards.len() ==> #[trigger] accepts(guards[i])
}

/// Whether a service takes a request, given which guards accept it.
pub open spec fn takes(
    guards: Option<Seq<SharedGuard>>,
    accepts: spec_fn(SharedGuard) -> bool,
) -> bool {
    match guards {
        Some(guards) => all_accept(guards, accepts),
        None => true,
    }
}

/// A service takes a request exactly when the guards in front of it and its own all accept it.
pub proof fn law_enclosing_guards_are_checked_too(
    enclosing: Seq<SharedGuard>,
    own: Option<Seq<SharedGuard>>,
    accepts: spec_fn(SharedGuard) -> bool,
)
    ensures
        takes(guarded(enclosing, own), accepts) <==> all_accept(enclosing, accepts) && takes(
            own,
            accepts,
        ),
{
    if enclosing.len() > 0 {
        if let Some(own) = own {
            let both = enclosing + own;
            if all_accept(both, accepts) {
                assert forall|i: int| 0 <= i < enclosing.len() implies #[trigger] accepts(
                    enclosing[i],
                ) by {
                    assert(accepts(both[i]));
                }
                assert forall|i: int| 0 <= i < own.len() implies #[trigger] accepts(own[i]) by {
                    assert(accepts(both[enclosing.len() + i]));
                }
            }
        }
    }
}

/// Guards in front of guards are the guards of both, the outer ones first.
pub proof fn law_enclosing_guards_add_up(
    outer: Seq<SharedGuard>,
    inner: Seq<SharedGuard>,
    own: Option<Seq<SharedGuard>>,
)
    ensures
        guarded(outer, guarded(inner, own)) == guarded(outer + inner, own),
{
    if outer.len() == 0 {
        assert(outer + inner == inner);
    } else if inner.len() == 0 {
        assert(outer + inner == outer);
    } else if let Some(own) = own {
        assert(outer + (inner + own) == outer + inner + own);
    }
}

/// A request reaches a service of a group exactly when every guard of the group accepts it and
/// the service takes it.
pub proof fn law_group_guards_gate_every_service<P, M, F>(
    group: Group<P, M, F>,
    own: RegistrationView<P>,
    mounted: RegistrationView<P>,
    accepts: spec_fn(SharedGuard) -> bool,
) where M: Fn(HttpNewService<P>) -> HttpNewService<P>
    requires
        group.mounts(own, mounted),
    ensures
        takes(mounted.guards, accepts) <==> all_accept(group.guards(), accepts) && takes(
            own.guards,
            accepts,
        ),
{
    law_enclosing_guards_are_checked_too(group.guards(), own.guards, accepts);
}

/// With no middlewares a service stays what it is.
pub proof fn law_no_middleware_changes_nothing<P, M>(
    inner: HttpNewService<P>,
    outer: HttpNewService<P>,
) where M: Fn(HttpNewService<P>) -> HttpNewService<P>
    ensures
        layered(Seq::<Rc<M>>::empty(), inner, outer) <==> outer == inner,
{
    if outer == inner {
        assert(layers(Seq::<Rc<M>>::empty(), seq![inner]));
    }
}

/// Middlewares are wrapped in the order of the list: the first part of the list stands inside
/// of the rest.
pub proof fn law_middlewares_compose<P, M>(
    first: Seq<Rc<M>>,
    rest: Seq<Rc<M>>,
    inner: HttpNewService<P>,
    outer: HttpNewService<P>,
) where M: Fn(HttpNewService<P>) -> HttpNewService<P>
    ensures
        layered(first + rest, inner, outer) <==> exists|between: HttpNewService<P>| #[trigger]
            layered(first, inner, between) && layered(rest, between, outer),
{
    let all = first + rest;
    let n = first.len() as int;
    if layered(all, inner, outer) {
        let steps = choose|steps: Seq<HttpNewService<P>>| #[trigger]
            layers(all, steps) && steps.first() == inner && steps.last() == outer;
        let between = steps[n];
        let low = steps.take(n + 1);
        let high = steps.skip(n);
        assert(layers(first, low)) by {
            assert forall|i: int| #![trigger first[i]] 0 <= i < first.len() implies call_ensures(
                *first[i],
                (low[i],),
                low[i + 1],
            ) by {
                assert(all[i] == first[i]);
            }
        }
        assert(layers(rest, high)) by {
            assert forall|i: int| #![trigger rest[i]] 0 <= i < rest.len() implies call_ensures(
                *rest[i],
                (high[i],),
                high[i + 1],
            ) by {
                assert(all[n + i] == rest[i]);
            }
        }
        assert(low.first() == inner && low.last() == between);
        assert(high.first() == between && high.last() == outer);
        assert(layered(first, inner, between));
    }
    if exists|between: HttpNewService<P>| #[trigger]
        layered(first, inner, between) && layered(rest, between, outer) {
        let between = choose|between: HttpNewService<P>| #[trigger]
            layered(first, inner, between) && layered(rest, between, outer);
        let low = choose|steps: Seq<HttpNewService<P>>| #[trigger]
            layers(first, steps) && steps.first() == inner && steps.last() == between;
        let high = choose|steps: Seq<HttpNewService<P>>| #[trigger]
            layers(rest, steps) && steps.first() == between && steps.last() == outer;
        let steps = low + high.skip(1);
        assert(layers(all, steps)) by {
            assert forall|i: int| #![trigger all[i]] 0 <= i < all.len() implies call_ensures(
                *all[i],
                (steps[i],),
                steps[i + 1],
            ) by {
                if i < n {
                    assert(all[i] == first[i]);
                } else {
                    assert(all[i] == rest[i - n]);
                    assert(steps[i] == high[i - n]);
                }
            }
        }
        assert(steps.first() == inner && steps.last() == outer);
    }
}

/// The middleware that was added last is the outermost one: it wraps what the others made.
pub proof fn law_last_middleware_is_outermost<P, M>(
    middlewares: Seq<Rc<M>>,
    last: Rc<M>,
    inner: HttpNewService<P>,
    outer: HttpNewService<P>,
) where M: Fn(HttpNewService<P>) -> HttpNewService<P>
    ensures
        layered(middlewares.push(last), inner, outer) <==> exists|between: HttpNewService<P>|
            #[trigger] layered(middlewares, inner, between) && call_ensures(
                *last,
                (between,),
                outer,
            ),
{
    let one = seq![last];
    assert(middlewares.push(last) == middlewares + one);
    law_middlewares_compose(middlewares, one, inner, outer);
    assert forall|between: HttpNewService<P>| #[trigger]
        layered(middlewares, inner, between) implies (layered(one, between, outer)
        <==> call_ensures(*last, (between,), outer)) by {
        if layered(one, between, outer) {
            let steps = choose|steps: Seq<HttpNewService<P>>| #[trigger]
                layers(one, steps) && steps.first() == between && steps.last() == outer;
            assert(one[0] == last);
        }
        if call_ensures(*last, (between,), outer) {
            assert(layers(one, seq![between, outer]));
        }
    }
}

/// The configuration that the members of a group registered in, and what the group made of its
/// services.
pub(crate) proof fn mounted_services<P, M, F>(
    group: Group<P, M, F>,
    before: ServiceConfigView<P>,
    after: ServiceConfigView<P>,
) -> (parts: (ServiceConfigView<P>, Seq<RegistrationView<P>>)) where
    M: Fn(HttpNewService<P>) -> HttpNewService<P>,
    F: HttpServiceFactory<P>,

    requires
        group.registers(before, after),
    ensures
        members_register(group.services(), before.child(), parts.0),
        group.mounts_all(parts.0.services, parts.1),
        after == before.extended(parts.1),
{
    choose|own: ServiceConfigView<P>, mounted: Seq<RegistrationView<P>>|
        #![trigger group.mounts_all(own.services, mounted)]
        {
            &&& members_register(group.services(), before.child(), own)
            &&& group.mounts_all(own.services, mounted)
            &&& after == before.extended(mounted)
        }
}

/// A group mounts every service that its members register, in their order, behind the services
/// that were there before.
pub proof fn law_group_mounts_every_service<P, M, F>(
    group: Group<P, M, F>,
    before: ServiceConfigView<P>,
    after: ServiceConfigView<P>,
) where M: Fn(HttpNewService<P>) -> HttpNewService<P>, F: HttpServiceFactory<P>
    requires
        group.registers(before, after),
    ensures
        exists|own: ServiceConfigView<P>| #[trigger]
            members_register(group.services(), before.child(), own) && after.services.len()
                == before.services.len() + own.services.len() && (forall|i: int|
                #![trigger own.services[i]]
                0 <= i < own.services.len() ==> group.mounts(
                    own.services[i],
                    after.services[before.services.len() + i],
                )),
{
    let (own, mounted) = mounted_services(group, before, after);
    assert forall|i: int| #![trigger own.services[i]] 0 <= i < own.services.len() implies group.mounts(
        own.services[i],
        after.services[before.services.len() + i],
    ) by {
        assert(group.mounts(own.services[i], mounted[i]));
    }
}

/// Whether two lists of members do the same, one by one.
pub open spec fn same_members<P, F: HttpServiceFactory<P>, G: HttpServiceFactory<P>>(
    left: Seq<Member<P, F>>,
    right: Seq<Member<P, G>>,
) -> bool {
    &&& left.len() == right.len()
    &&& forall|i: int, before: ServiceConfigView<P>, after: ServiceConfigView<P>|
        0 <= i < left.len() ==> (#[trigger] left[i].registers(before, after)
            <==> #[trigger] right[i].registers(before, after))
}

/// Members that do the same lead to the same configurations.
proof fn same_members_register_alike<P, F: HttpServiceFactory<P>, G: HttpServiceFactory<P>>(
    left: Seq<Member<P, F>>,
    right: Seq<Member<P, G>>,
    before: ServiceConfigView<P>,
    after: ServiceConfigView<P>,
)
    requires
        same_members(left, right),
    ensures
        members_register(left, before, after) <==> members_register(right, before, after),
{
    assert forall|steps: Seq<ServiceConfigView<P>>|
        registration_steps(left, steps) == registration_steps(right, steps) by {
        if registration_steps(left, steps) {
            assert forall|i: int| #![trigger right[i]] 0 <= i < right.len() implies right[
                i
            ].registers(steps[i], steps[i + 1]) by {
                assert(left[i].registers(steps[i], steps[i + 1]));
            }
        }
        if registration_steps(right, steps) {
            assert forall|i: int| #![trigger left[i]] 0 <= i < left.len() implies left[
                i
            ].registers(steps[i], steps[i + 1]) by {
                assert(right[i].registers(steps[i], steps[i + 1]));
            }
        }
    }
}

/// What a group registers depends on what its members do, on its guards and on its middlewares
/// alone. So a guard or a middleware concerns every service and route of the group, whether it
/// was added before or after them.
pub proof fn law_group_is_its_parts<P, M, F, G>(
    left: Group<P, M, F>,
    right: Group<P, M, G>,
    before: ServiceConfigView<P>,
    after: ServiceConfigView<P>,
) where
    M: Fn(HttpNewService<P>) -> HttpNewService<P>,
    F: HttpServiceFactory<P>,
    G: HttpServiceFactory<P>,

    requires
        same_members(left.services(), right.services()),
        left.guards() == right.guards(),
        left.middlewares() == right.middlewares(),
    ensures
        left.registers(before, after) <==> right.registers(before, after),
{
    if left.registers(before, after) {
        let (own, mounted) = mounted_services(left, before, after);
        same_members_register_alike(left.services(), right.services(), before.child(), own);
        assert(right.mounts_all(own.services, mounted));
    }
    if right.registers(before, after) {
        let (own, mounted) = mounted_services(right, before, after);
        same_members_register_alike(left.services(), right.services(), before.child(), own);
        assert(left.mounts_all(own.services, mounted));
    }
}

/// Adding a route and then a guard or a middleware, or the other way round, makes groups that
/// register the same.
pub proof fn law_routes_commute_with_guards_and_middlewares<P, M, F>(
    group: Group<P, M, F>,
    path: Seq<char>,
    route: RouteView<P>,
    call: Call<P, M, F>,
    routed: Group<P, M, F>,
    left: Group<P, M, F>,
    first: Group<P, M, F>,
    right: Group<P, M, F>,
    before: ServiceConfigView<P>,
    after: ServiceConfigView<P>,
) where M: Fn(HttpNewService<P>) -> HttpNewService<P>, F: HttpServiceFactory<P>
    requires
        call is Guard || call is Wrap || call is WrapFn,
        group.called(Call::Route(path, route), routed),
        routed.called(call, left),
        group.called(call, first),
        first.called(Call::Route(path, route), right),
    ensures
        left.registers(before, after) <==> right.registers(before, after),
{
    let n = group.services().len() as int;
    let (l, r) = (left.services(), right.services());
    assert forall|i: int, b: ServiceConfigView<P>, a: ServiceConfigView<P>|
        0 <= i < l.len() implies (#[trigger] l[i].registers(b, a)
        <==> #[trigger] r[i].registers(b, a)) by {
        if i < n {
            assert(l[i] == l.drop_last()[i]);
            assert(r[i] == r.drop_last()[i]);
        } else {
            assert(l[i] == l.last() && r[i] == r.last());
        }
    }
    assert(same_members(l, r));
    if call is Wrap || call is WrapFn {
        let (x, y) = (left.middlewares(), right.middlewares());
        assert(x == x.drop_last().push(x.last()));
        assert(y == y.drop_last().push(y.last()));
    }
    law_group_is_its_parts(left, right, before, after);
}

/// Registering a group takes nothing away: the services that were there stay in front, and
/// the default service stays the same.
pub proof fn law_registration_keeps_what_was_there<P, M, F>(
    group: Group<P, M, F>,
    before: ServiceConfigView<P>,
    after: ServiceConfigView<P>,
) where M: Fn(HttpNewService<P>) -> HttpNewService<P>, F: HttpServiceFactory<P>
    requires
        group.registers(before, after),
    ensures
        before.services.is_prefix_of(after.services),
        after.default == before.default,
{
}

/// A group with no members registers nothing.
pub proof fn law_empty_group_registers_nothing<P, M, F>(
    group: Group<P, M, F>,
    before: ServiceConfigView<P>,
    after: ServiceConfigView<P>,
) where M: Fn(HttpNewService<P>) -> HttpNewService<P>, F: HttpServiceFactory<P>
    requires
        group.services().len() == 0,
        group.registers(before, after),
    ensures
        after == before,
{
}

/// A group with neither guards nor middlewares registers what its members register, as it is.
pub proof fn law_plain_group_is_transparent<P, M, F>(
    group: Group<P, M, F>,
    before: ServiceConfigView<P>,
    after: ServiceConfigView<P>,
) where M: Fn(HttpNewService<P>) -> HttpNewService<P>, F: HttpServiceFactory<P>
    requires
        group.guards().len() == 0,
        group.middlewares().len() == 0,
    ensures
        group.registers(before, after) <==> exists|own: ServiceConfigView<P>| #[trigger]
            members_register(group.services(), before.child(), own) && after == before.extended(
                own.services,
            ),
{
    assert(group.middlewares() == Seq::<Rc<M>>::empty());
    assert forall|own: RegistrationView<P>, mounted: RegistrationView<P>| #[trigger]
        group.mounts(own, mounted) <==> mounted == own by {
        law_no_middleware_changes_nothing::<P, M>(own.service, mounted.service);
    }
    if group.registers(before, after) {
        let (own, mounted) = mounted_services(group, before, after);
        assert(mounted == own.services);
    }
    if exists|own: ServiceConfigView<P>| #[trigger]
        members_register(group.services(), before.child(), own) && after == before.extended(
            own.services,
        ) {
        let own = choose|own: ServiceConfigView<P>| #[trigger]
            members_register(group.services(), before.child(), own) && after == before.extended(
                own.services,
            );
        assert(group.mounts_all(own.services, own.services));
    }
}

/// Whether a service that goes through two groups may be mounted as another: behind the guards of
/// the outer group, those of the inner one and its own, and inside of the middlewares of the
/// inner group, which stand inside of those of the outer one.
pub open spec fn mounts_through<P, M, F, G>(
    outer: Group<P, M, F>,
    inner: Group<P, M, G>,
    own: RegistrationView<P>,
    mounted: RegistrationView<P>,
) -> bool where M: Fn(HttpNewService<P>) -> HttpNewService<P> {
    &&& mounted.rdef == own.rdef
    &&& mounted.nested == own.nested
    &&& mounted.guards == guarded(outer.guards() + inner.guards(), own.guards)
    &&& layered(inner.middlewares() + outer.middlewares(), own.service, mounted.service)
}

/// What an outer group makes of a service that an inner group has mounted, both groups together
/// make of the service itself.
pub proof fn law_nested_groups_mount_as_one<P, M, F, G>(
    outer: Group<P, M, F>,
    inner: Group<P, M, G>,
    own: RegistrationView<P>,
    between: RegistrationView<P>,
    mounted: RegistrationView<P>,
) where M: Fn(HttpNewService<P>) -> HttpNewService<P>
    requires
        inner.mounts(own, between),
        outer.mounts(between, mounted),
    ensures
        mounts_through(outer, inner, own, mounted),
{
    law_enclosing_guards_add_up(outer.guards(), inner.guards(), own.guards);
    law_middlewares_compose(
        inner.middlewares(),
        outer.middlewares(),
        own.service,
        mounted.service,
    );
}

/// Whether a factory adds services and changes nothing else: those that were there stay in
/// front, and the default service stays the same.
pub open spec fn only_adds<P, F: HttpServiceFactory<P>>(factory: F) -> bool {
    forall|before: ServiceConfigView<P>, after: ServiceConfigView<P>| #[trigger]
        factory.registers(before, after) ==> before.services.is_prefix_of(after.services)
            && after.default == before.default
}

/// Groups add services and change nothing else.
pub proof fn law_groups_only_add<P, M, F>(group: Group<P, M, F>) where
    M: Fn(HttpNewService<P>) -> HttpNewService<P>,
    F: HttpServiceFactory<P>,

    ensures
        only_adds::<P, Group<P, M, F>>(group),
{
    assert forall|before: ServiceConfigView<P>, after: ServiceConfigView<P>| #[trigger]
        group.registers(before, after) implies before.services.is_prefix_of(after.services)
        && after.default == before.default by {
        law_registration_keeps_what_was_there(group, before, after);
    }
}

/// Resources add services and change nothing else.
pub proof fn law_resources_only_add<P>(resource: Resource<P>)
    ensures
        only_adds::<P, Resource<P>>(resource),
{
}

/// While members that only add services register, what was there stays, and each of them sees
/// the default service of the application.
pub proof fn law_members_see_the_default<P, F: HttpServiceFactory<P>>(
    members: Seq<Member<P, F>>,
    steps: Seq<ServiceConfigView<P>>,
    i: int,
)
    requires
        forall|j: int|
            0 <= j < members.len() ==> only_adds::<P, Member<P, F>>(#[trigger] members[j]),
        registration_steps(members, steps),
        0 <= i < steps.len(),
    ensures
        steps.first().services.is_prefix_of(steps[i].services),
        steps[i].default == steps.first().default,
    decreases i,
{
    if i > 0 {
        law_members_see_the_default(members, steps, i - 1);
        assert(only_adds::<P, Member<P, F>>(members[i - 1]));
        assert(members[i - 1].registers(steps[i - 1], steps[i]));
    }
}

/// How the services of an inner group are mounted that is the member at an index of an outer one.
///
/// The members of the outer group that come before it lead to `low`; the members of the inner
/// group lead to `own`, of which the inner group makes `between`; the members that come after it
/// lead on to `all`, and the outer group mounts what is registered there. So the services of the
/// inner group stand, in order, right behind those of the members before it, and those of the
/// members after it stand behind them.
pub open spec fn mounted_at<P, M, F, G>(
    outer: Group<P, M, F>,
    inner: Group<P, M, G>,
    index: int,
    before: ServiceConfigView<P>,
    after: ServiceConfigView<P>,
    low: ServiceConfigView<P>,
    own: ServiceConfigView<P>,
    between: Seq<RegistrationView<P>>,
    all: ServiceConfigView<P>,
) -> bool where
    M: Fn(HttpNewService<P>) -> HttpNewService<P>,
    F: HttpServiceFactory<P>,
    G: HttpServiceFactory<P>,
 {
    let start = before.services.len() as int;
    &&& members_register(outer.services().take(index), before.child(), low)
    &&& members_register(inner.services(), low.child(), own)
    &&& inner.mounts_all(own.services, between)
    &&& members_register(outer.services().skip(index + 1), low.extended(between), all)
    &&& (low.services + between).is_prefix_of(all.services)
    &&& before.services.is_prefix_of(after.services)
    &&& after.services.len() == start + all.services.len()
    &&& forall|i: int|
        #![trigger all.services[i]]
        0 <= i < all.services.len() ==> outer.mounts(all.services[i], after.services[start + i])
    &&& forall|i: int|
        #![trigger own.services[i]]
        0 <= i < own.services.len() ==> mounts_through(
            outer,
            inner,
            own.services[i],
            after.services[start + low.services.len() + i],
        )
}

/// A group inside of a group, at any position, registers every service of the inner group there,
/// in order, as both groups together mount it: behind the services of the members before it, and
/// in front of those of the members after it. The members after it must not take away what is
/// registered.
pub proof fn law_nested_group_registers_its_services<P, M, F, G>(
    outer: Group<P, M, F>,
    inner: Group<P, M, G>,
    index: int,
    before: ServiceConfigView<P>,
    after: ServiceConfigView<P>,
) where
    M: Fn(HttpNewService<P>) -> HttpNewService<P>,
    F: HttpServiceFactory<P>,
    G: HttpServiceFactory<P>,

    requires
        0 <= index < outer.services().len(),
        forall|b: ServiceConfigView<P>, a: ServiceConfigView<P>| #[trigger]
            outer.services()[index].registers(b, a) ==> inner.registers(b, a),
        forall|j: int|
            index < j < outer.services().len() ==> only_adds::<P, Member<P, F>>(
                #[trigger] outer.services()[j],
            ),
        outer.registers(before, after),
    ensures
        exists|
            low: ServiceConfigView<P>,
            own: ServiceConfigView<P>,
            between: Seq<RegistrationView<P>>,
            all: ServiceConfigView<P>,
        | #[trigger]
            mounted_at(outer, inner, index, before, after, low, own, between, all),
{
    let members = outer.services();
    let start = before.services.len() as int;
    let (all, mounted) = mounted_services(outer, before, after);
    let steps = choose|steps: Seq<ServiceConfigView<P>>| #[trigger]
        registration_steps(members, steps) && steps.first() == before.child() && steps.last()
            == all;
    let low = steps[index];
    let high = steps[index + 1];
    assert(members[index].registers(low, high));
    let (own, between) = mounted_services(inner, low, high);

    let front = members.take(index);
    let front_steps = steps.take(index + 1);
    assert(registration_steps(front, front_steps)) by {
        assert forall|i: int| #![trigger front[i]] 0 <= i < front.len() implies front[
            i
        ].registers(front_steps[i], front_steps[i + 1]) by {
            assert(front[i] == members[i]);
        }
    }
    assert(front_steps.first() == before.child() && front_steps.last() == low);

    let back = members.skip(index + 1);
    let back_steps = steps.skip(index + 1);
    assert(registration_steps(back, back_steps)) by {
        assert forall|i: int| #![trigger back[i]] 0 <= i < back.len() implies back[i].registers(
            back_steps[i],
            back_steps[i + 1],
        ) by {
            assert(back[i] == members[index + 1 + i]);
        }
    }
    assert(back_steps.first() == high && back_steps.last() == all);
    assert forall|j: int| 0 <= j < back.len() implies only_adds::<P, Member<P, F>>(
        #[trigger] back[j],
    ) by {
        assert(back[j] == members[index + 1 + j]);
    }
    law_members_see_the_default(back, back_steps, back.len() as int);
    assert(high.services == low.services + between);

    assert forall|i: int| #![trigger all.services[i]] 0 <= i < all.services.len() implies outer.mounts(
        all.services[i],
        after.services[start + i],
    ) by {
        assert(outer.mounts(all.services[i], mounted[i]));
    }
    assert forall|i: int|
        #![trigger own.services[i]]
        0 <= i < own.services.len() implies mounts_through(
        outer,
        inner,
        own.services[i],
        after.services[start + low.services.len() + i],
    ) by {
        let at = low.services.len() + i;
        assert(inner.mounts(own.services[i], between[i]));
        assert(all.services[at] == high.services[at]);
        assert(outer.mounts(all.services[at], mounted[at]));
        law_nested_groups_mount_as_one(
            outer,
            inner,
            own.services[i],
            between[i],
            mounted[at],
        );
    }
    assert(mounted_at(outer, inner, index, before, after, low, own, between, all));
}

/// A route registers one service at its path, behind the guards of the route.
pub proof fn law_route_registers_its_service<P>(path: Seq<char>, route: RouteView<P>)
    ensures
        single_route(path, route).registrations() == seq![
            RegistrationView {
                rdef: path,
                service: route.service,
                guards: if route.guards.len() == 0 {
                    None
                } else {
                    Some(route.guards)
                },
                nested: None,
            },
        ],
{
}

/// Adding a route makes a group that registers what it registers when the resource of the route
/// is added as a service, whatever type of factory the group takes: the factory only has to
/// register what the resource does.
pub proof fn law_route_is_a_service<P, M, F>(
    group: Group<P, M, F>,
    path: Seq<char>,
    route: RouteView<P>,
    resource: Resource<P>,
    factory: F,
    routed: Group<P, M, F>,
    served: Group<P, M, F>,
    before: ServiceConfigView<P>,
    after: ServiceConfigView<P>,
) where M: Fn(HttpNewService<P>) -> HttpNewService<P>, F: HttpServiceFactory<P>
    requires
        resource@ == single_route(path, route),
        forall|b: ServiceConfigView<P>, a: ServiceConfigView<P>| #[trigger]
            factory.registers(b, a) <==> resource.registers(b, a),
        group.called(Call::Route(path, route), routed),
        group.called(Call::Service(factory), served),
    ensures
        routed.registers(before, after) <==> served.registers(before, after),
{
    let n = group.services().len() as int;
    let (l, r) = (routed.services(), served.services());
    assert forall|i: int, b: ServiceConfigView<P>, a: ServiceConfigView<P>|
        0 <= i < l.len() implies (#[trigger] l[i].registers(b, a)
        <==> #[trigger] r[i].registers(b, a)) by {
        if i < n {
            assert(l[i] == l.drop_last()[i]);
        } else {
            assert(l[i] == l.last());
            assert(factory.registers(b, a) <==> resource.registers(b, a));
        }
    }
    assert(same_members(l, r));
    law_group_is_its_parts(routed, served, before, after);
}

/// The registrations of a list of members that are all resources, one resource after another.
pub open spec fn resource_registrations<P, F>(members: Seq<Member<P, F>>) -> Seq<
    RegistrationView<P>,
>
    decreases members.len(),
{
    if members.len() == 0 {
        Seq::empty()
    } else {
        resource_registrations(members.drop_last())
            + members.last()->Resource_0@.registrations()
    }
}

/// Routes register in the order in which they were added, each for itself: several routes for
/// one path stay several registrations.
pub proof fn law_routes_register_in_order<P, F: HttpServiceFactory<P>>(
    members: Seq<Member<P, F>>,
    before: ServiceConfigView<P>,
    after: ServiceConfigView<P>,
)
    requires
        forall|i: int| 0 <= i < members.len() ==> (#[trigger] members[i]) is Resource,
        members_register(members, before, after),
    ensures
        after == before.extended(resource_registrations(members)),
    decreases members.len(),
{
    let steps = choose|steps: Seq<ServiceConfigView<P>>| #[trigger]
        registration_steps(members, steps) && steps.first() == before && steps.last() == after;
    if members.len() > 0 {
        let front = members.drop_last();
        let low = steps.drop_last();
        assert(registration_steps(front, low)) by {
            assert forall|i: int| #![trigger front[i]] 0 <= i < front.len() implies front[
                i
            ].registers(low[i], low[i + 1]) by {
                assert(front[i] == members[i]);
            }
        }
        assert(low.first() == before);
        assert forall|i: int| 0 <= i < front.len() implies (#[trigger] front[i]) is Resource by {
            assert(front[i] == members[i]);
        }
        law_routes_register_in_order(front, before, low.last());
        assert(members[members.len() - 1].registers(
            steps[members.len() - 1],
            steps[members.len() as int],
        ));
        let last = members.last()->Resource_0@.registrations();
        assert(low.last().extended(last).services == before.services + (
        resource_registrations(front) + last));
    } else {
        assert(before.services + resource_registrations(members) == before.services);
    }
}

/// Whether a list of groups is what a chain of builder calls makes, one call after another, of an
/// empty group.
pub open spec fn built<P, M, F>(calls: Seq<Call<P, M, F>>, groups: Seq<Group<P, M, F>>) -> bool where
    M: Fn(HttpNewService<P>) -> HttpNewService<P>,
 {
    &&& groups.len() == calls.len() + 1
    &&& groups.first().services() == Seq::<Member<P, F>>::empty()
    &&& groups.first().guards() == Seq::<SharedGuard>::empty()
    &&& groups.first().middlewares() == Seq::<Rc<M>>::empty()
    &&& forall|i: int|
        #![trigger calls[i]]
        0 <= i < calls.len() ==> groups[i].called(calls[i], groups[i + 1])
}

/// The calls of a chain that add a guard.
pub open spec fn guard_calls<P, M, F>(calls: Seq<Call<P, M, F>>) -> Seq<Call<P, M, F>> {
    calls.filter(|call: Call<P, M, F>| call is Guard)
}

/// The calls of a chain that add a member.
pub open spec fn member_calls<P, M, F>(calls: Seq<Call<P, M, F>>) -> Seq<Call<P, M, F>> {
    calls.filter(|call: Call<P, M, F>| call is Service || call is Route)
}

/// The calls of a chain that add a middleware.
pub open spec fn middleware_calls<P, M, F>(calls: Seq<Call<P, M, F>>) -> Seq<Call<P, M, F>> {
    calls.filter(|call: Call<P, M, F>| call is Wrap || call is WrapFn)
}

/// Whether a member is what a call adds.
pub open spec fn is_member_of<P, M, F>(member: Member<P, F>, call: Call<P, M, F>) -> bool {
    match call {
        Call::Service(factory) => member == Member::<P, F>::Service(factory),
        Call::Route(path, route) => member matches Member::Resource(resource) && resource@
            == single_route(path, route),
        _ => false,
    }
}

/// Whether a middleware is what a call adds.
pub open spec fn is_middleware_of<P, M, F>(middleware: M, call: Call<P, M, F>) -> bool {
    match call {
        Call::Wrap(mw) => middleware == mw,
        Call::WrapFn(mw) => middleware == mw,
        _ => false,
    }
}

/// A group that any chain of builder calls made of an empty one has one guard for each call that
/// adds a guard, one member for each call that adds a service or a route, and one middleware for
/// each call that adds a middleware, each list in the order of the calls.
pub proof fn law_builder_calls_add_up<P, M, F>(
    calls: Seq<Call<P, M, F>>,
    groups: Seq<Group<P, M, F>>,
) where M: Fn(HttpNewService<P>) -> HttpNewService<P>
    requires
        built(calls, groups),
    ensures
        groups.last().guards().len() == guard_calls(calls).len(),
        forall|i: int|
            0 <= i < guard_calls(calls).len() ==> #[trigger] guard_calls(calls)[i]
                == Call::<P, M, F>::Guard(groups.last().guards()[i]),
        groups.last().services().len() == member_calls(calls).len(),
        forall|i: int|
            0 <= i < member_calls(calls).len() ==> is_member_of(
                groups.last().services()[i],
                #[trigger] member_calls(calls)[i],
            ),
        groups.last().middlewares().len() == middleware_calls(calls).len(),
        forall|i: int|
            0 <= i < middleware_calls(calls).len() ==> is_middleware_of(
                *groups.last().middlewares()[i],
                #[trigger] middleware_calls(calls)[i],
            ),
    decreases calls.len(),
{
    reveal(Seq::filter);
    if calls.len() > 0 {
        let front = calls.drop_last();
        let front_groups = groups.drop_last();
        let call = calls.last();
        assert(built(front, front_groups)) by {
            assert forall|i: int| #![trigger front[i]] 0 <= i < front.len() implies front_groups[
                i
            ].called(front[i], front_groups[i + 1]) by {
                assert(front[i] == calls[i]);
            }
        }
        law_builder_calls_add_up(front, front_groups);
        let old_group = front_groups.last();
        let group = groups.last();
        assert(calls[calls.len() - 1] == call);
        assert(old_group.called(call, group));
        assert(guard_calls(calls) == if call is Guard {
            guard_calls(front).push(call)
        } else {
            guard_calls(front)
        });
        assert(member_calls(calls) == if call is Service || call is Route {
            member_calls(front).push(call)
        } else {
            member_calls(front)
        });
        assert(middleware_calls(calls) == if call is Wrap || call is WrapFn {
            middleware_calls(front).push(call)
        } else {
            middleware_calls(front)
        });
        assert forall|i: int| 0 <= i < member_calls(calls).len() implies is_member_of(
            group.services()[i],
            #[trigger] member_calls(calls)[i],
        ) by {
            if i < old_group.services().len() {
                assert(member_calls(calls)[i] == member_calls(front)[i]);
                if call is Route {
                    assert(group.services()[i] == group.services().drop_last()[i]);
                }
            }
        }
        assert forall|i: int| 0 <= i < middleware_calls(calls).len() implies is_middleware_of(
            *group.middlewares()[i],
            #[trigger] middleware_calls(calls)[i],
        ) by {
            if i < old_group.middlewares().len() {
                assert(middleware_calls(calls)[i] == middleware_calls(front)[i]);
                if call is Wrap || call is WrapFn {
                    assert(group.middlewares()[i] == group.middlewares().drop_last()[i]);
                }
            }
        }
        assert forall|i: int| 0 <= i < guard_calls(calls).len() implies #[trigger] guard_calls(
            calls,
        )[i] == Call::<P, M, F>::Guard(group.guards()[i]) by {
            if i < old_group.guards().len() {
                assert(guard_calls(calls)[i] == guard_calls(front)[i]);
            }
        }
    }
}

/// Labelling a response sets its content type and touches no other header; doing it again
/// changes nothing.
pub proof fn law_labelling(headers: Map<Seq<char>, Seq<Seq<u8>>>, name: Seq<char>)
    ensures
        labelled(headers)["content-type"@] == seq![ascii_bytes("0001"@)],
        name != "content-type"@ ==> (labelled(headers).contains_key(name) <==> headers.contains_key(
            name,
        )) && labelled(headers)[name] == headers[name],
        labelled(labelled(headers)) == labelled(headers),
{
}

} // verus!
