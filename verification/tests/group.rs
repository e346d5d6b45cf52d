use std::rc::Rc;

use actix_http::http::HeaderMap;
use actix_http::{Error, RequestHead};
use actix_service::boxed::{self, BoxedService};
use actix_service::{apply_transform, fn_service, fn_transform, NewService, Service};
use futures::Future;

use route_group::config::{Registration, ResourceMap, ServiceConfig};
use route_group::factory::{Either, HttpServiceFactory};
use route_group::group::Group;
use route_group::guard::{Guard, SharedGuard};
use route_group::middleware::label_response;
use route_group::resource::Resource;
use route_group::route::Route;
use route_group::service::{HttpNewService, ServiceRequest, ServiceResponse};

type Srv = HttpNewService<()>;
type Mw = Box<dyn Fn(Srv) -> Srv>;
type Boxed = BoxedService<ServiceRequest<()>, ServiceResponse<Vec<u8>>, Error>;

fn endpoint(text: &'static str) -> Srv {
    boxed::new_service(fn_service(
        move |req: ServiceRequest<()>| -> Result<ServiceResponse<Vec<u8>>, Error> {
            Ok(ServiceResponse {
                request: req.head,
                status: 200,
                headers: HeaderMap::new(),
                body: text.as_bytes().to_vec(),
            })
        },
    ))
}

fn respond(service: &Srv) -> ServiceResponse<Vec<u8>> {
    let request = ServiceRequest { head: RequestHead::default(), payload: () };
    let mut service = match service.new_service(&()).wait() {
        Ok(service) => service,
        Err(()) => panic!("the service was not created"),
    };
    match service.call(request).wait() {
        Ok(response) => response,
        Err(_) => panic!("the service failed"),
    }
}

fn answer(service: &Srv) -> String {
    String::from_utf8(respond(service).body).unwrap()
}

/// A middleware that puts a mark around the body of every response.
fn mark(left: &'static str, right: &'static str) -> Mw {
    Box::new(move |service: Srv| {
        let transform = fn_transform(move |req: ServiceRequest<()>, srv: &mut Boxed| {
            srv.call(req).map(move |mut res| {
                let mut body = left.as_bytes().to_vec();
                body.extend_from_slice(&res.body);
                body.extend_from_slice(right.as_bytes());
                res.body = body;
                res
            })
        });
        boxed::new_service(apply_transform(transform, service))
    })
}

struct Always(bool);

impl Guard for Always {
    fn check(&self, _: &RequestHead) -> bool {
        self.0
    }
}

struct HasHeader(&'static str);

impl Guard for HasHeader {
    fn check(&self, request: &RequestHead) -> bool {
        request.headers.contains_key(self.0)
    }
}

fn guard() -> SharedGuard {
    Rc::new(Box::new(Always(true)))
}

fn config() -> ServiceConfig<()> {
    ServiceConfig::new(Rc::new(endpoint("default")))
}

fn group() -> Group<(), Mw, Resource<()>> {
    Group::new()
}

fn register<F: HttpServiceFactory<()>>(factory: F) -> Vec<Registration<()>> {
    let mut config = config();
    factory.register(&mut config);
    config.into_services()
}

fn paths(services: &Vec<Registration<()>>) -> Vec<&str> {
    services.iter().map(|r| r.rdef.as_str()).collect()
}

fn is_guarded_by(registration: &Registration<()>, expected: &[&SharedGuard]) -> bool {
    match &registration.guards {
        Some(guards) => {
            guards.len() == expected.len()
                && guards.iter().zip(expected).all(|(a, b)| Rc::ptr_eq(a, b))
        }
        None => false,
    }
}

#[test]
fn empty_group_registers_nothing() {
    let first = guard();
    let services = register(group().guard(first).wrap(mark("<", ">")));
    assert_eq!(services.len(), 0);
}

#[test]
fn services_register_in_order() {
    let services = register(
        group()
            .service(Resource::new("/a").route(Route::new(endpoint("a"))))
            .service(Resource::new("/b").route(Route::new(endpoint("b"))))
            .service(Resource::new("/c").route(Route::new(endpoint("c")))),
    );
    assert_eq!(paths(&services), vec!["/a", "/b", "/c"]);
    let bodies: Vec<String> = services.iter().map(|r| answer(&r.service)).collect();
    assert_eq!(bodies, vec!["a", "b", "c"]);
    assert!(services.iter().all(|r| r.guards.is_none() && r.nested.is_none()));
}

#[test]
fn registration_keeps_what_was_there() {
    let default = Rc::new(endpoint("default"));
    let mut config = ServiceConfig::new(default.clone());
    Resource::new("/first").route(Route::new(endpoint("first"))).register(&mut config);
    group().route("/second", Route::new(endpoint("second"))).register(&mut config);
    assert!(Rc::ptr_eq(&config.default_service(), &default));
    let services = config.into_services();
    assert_eq!(paths(&services), vec!["/first", "/second"]);
    assert_eq!(answer(&services[0].service), "first");
    assert_eq!(answer(&services[1].service), "second");
}

#[test]
fn route_hands_its_guards_to_the_resource() {
    let first = guard();
    let second = guard();
    let route = Route::new(endpoint("x")).guard(first.clone()).guard(second.clone());
    let services = register(group().route("/test1", route));
    assert_eq!(services.len(), 1);
    assert_eq!(services[0].rdef, "/test1");
    assert!(is_guarded_by(&services[0], &[&first, &second]));
    assert_eq!(answer(&services[0].service), "x");
}

#[test]
fn route_is_a_simplified_service() {
    let by_route = register(group().route("/x", Route::new(endpoint("x"))));
    let by_service = register(group().service(Resource::new("/x").route(Route::new(endpoint("x")))));
    assert_eq!(paths(&by_route), paths(&by_service));
    assert_eq!(answer(&by_route[0].service), answer(&by_service[0].service));
    assert!(by_route[0].guards.is_none());
    assert!(by_service[0].guards.is_none());
}

#[test]
fn several_routes_for_one_path() {
    let services = register(
        group()
            .route("/x", Route::new(endpoint("get")))
            .route("/x", Route::new(endpoint("post"))),
    );
    assert_eq!(paths(&services), vec!["/x", "/x"]);
    assert_eq!(answer(&services[0].service), "get");
    assert_eq!(answer(&services[1].service), "post");
}

#[test]
fn group_guards_stand_in_front_of_every_service() {
    let outer = guard();
    let own = guard();
    let services = register(
        group()
            .route("/before", Route::new(endpoint("1")).guard(own.clone()))
            .guard(outer.clone())
            .route("/after", Route::new(endpoint("2"))),
    );
    assert!(is_guarded_by(&services[0], &[&outer, &own]));
    assert!(is_guarded_by(&services[1], &[&outer]));
}

#[test]
fn group_guards_decide_on_requests() {
    let content_type: SharedGuard = Rc::new(Box::new(HasHeader("content-type")));
    let own: SharedGuard = Rc::new(Box::new(Always(true)));
    let never: SharedGuard = Rc::new(Box::new(Always(false)));
    let services = register(
        group()
            .guard(content_type)
            .route("/test1", Route::new(endpoint("1")).guard(own))
            .route("/test2", Route::new(endpoint("2")).guard(never)),
    );
    let takes = |registration: &Registration<()>, head: &RequestHead| match &registration.guards {
        Some(guards) => guards.iter().all(|guard| guard.check(head)),
        None => true,
    };
    let plain = RequestHead::default();
    let mut typed = RequestHead::default();
    typed.headers.insert(
        actix_http::http::header::CONTENT_TYPE,
        actix_http::http::HeaderValue::from_static("text/plain"),
    );
    assert!(!takes(&services[0], &plain));
    assert!(takes(&services[0], &typed));
    assert!(!takes(&services[1], &plain));
    assert!(!takes(&services[1], &typed));
}

#[test]
fn last_middleware_is_outermost() {
    let services = register(
        group()
            .wrap(mark("(", ")"))
            .route("/a", Route::new(endpoint("a")))
            .wrap(mark("[", "]"))
            .route("/b", Route::new(endpoint("b"))),
    );
    assert_eq!(answer(&services[0].service), "[(a)]");
    assert_eq!(answer(&services[1].service), "[(b)]");
}

#[test]
fn wrap_fn_adds_a_middleware() {
    let services =
        register(group().wrap_fn(mark("(", ")")).wrap(mark("[", "]")).route("/a", Route::new(endpoint("a"))));
    assert_eq!(answer(&services[0].service), "[(a)]");
}

#[test]
fn group_without_guards_and_middlewares_is_transparent() {
    let own = guard();
    let services = register(
        group()
            .route("/a", Route::new(endpoint("a")))
            .route("/b", Route::new(endpoint("b")).guard(own.clone())),
    );
    assert!(services[0].guards.is_none());
    assert!(is_guarded_by(&services[1], &[&own]));
    assert_eq!(answer(&services[0].service), "a");
    assert_eq!(answer(&services[1].service), "b");
}

#[test]
fn nested_groups_mount_as_one() {
    let outer = guard();
    let inner = guard();
    let own = guard();
    let v1 = group()
        .guard(inner.clone())
        .wrap(mark("(", ")"))
        .service(Resource::new("/test1").route(Route::new(endpoint("index")).guard(own.clone())))
        .route("/test2", Route::new(endpoint("other")));
    let app: Group<(), Mw, Group<(), Mw, Resource<()>>> = Group::new();
    let services = register(
        app.guard(outer.clone())
            .wrap(mark("[", "]"))
            .route("/top", Route::new(endpoint("top")))
            .service(v1),
    );
    assert_eq!(paths(&services), vec!["/top", "/test1", "/test2"]);
    assert!(is_guarded_by(&services[0], &[&outer]));
    assert!(is_guarded_by(&services[1], &[&outer, &inner, &own]));
    assert!(is_guarded_by(&services[2], &[&outer, &inner]));
    assert_eq!(answer(&services[0].service), "[top]");
    assert_eq!(answer(&services[1].service), "[(index)]");
    assert_eq!(answer(&services[2].service), "[(other)]");
}

/// Mounts the default service of the application at a path, and a resource map with it.
struct Fallback {
    expected: Rc<Srv>,
    map: Rc<ResourceMap>,
}

impl HttpServiceFactory<()> for Fallback {
    fn register(self, config: &mut ServiceConfig<()>) {
        assert!(Rc::ptr_eq(&self.expected, &config.default_service()));
        config.register_service(Registration {
            rdef: "/fallback".to_string(),
            service: endpoint("fallback"),
            guards: Some(Vec::new()),
            nested: Some(self.map),
        });
    }
}

#[test]
fn factories_of_any_kind_can_be_members() {
    let default = Rc::new(endpoint("default"));
    let map = Rc::new(ResourceMap { patterns: vec!["/fallback/{id}".to_string()] });
    let mut config = ServiceConfig::new(default.clone());
    let group: Group<(), Mw, Fallback> = Group::new();
    group
        .wrap(mark("<", ">"))
        .service(Fallback { expected: default, map: map.clone() })
        .register(&mut config);
    let services = config.into_services();
    assert_eq!(services.len(), 1);
    assert_eq!(services[0].rdef, "/fallback");
    assert_eq!(answer(&services[0].service), "<fallback>");
    assert!(is_guarded_by(&services[0], &[]));
    match &services[0].nested {
        Some(nested) => assert!(Rc::ptr_eq(nested, &map)),
        None => panic!("the resource map is gone"),
    }
}

#[test]
fn labelling_middleware_labels_every_service() {
    let label: Mw = Box::new(|service: Srv| {
        let transform = fn_transform(|req: ServiceRequest<()>, srv: &mut Boxed| {
            srv.call(req).map(label_response)
        });
        boxed::new_service(apply_transform(transform, service))
    });
    let services = register(
        group()
            .wrap_fn(label)
            .route("/a", Route::new(endpoint("a")))
            .route("/b", Route::new(endpoint("b"))),
    );
    for registration in &services {
        let response = respond(&registration.service);
        assert_eq!(response.headers.get("content-type").unwrap(), "0001");
    }
    assert_eq!(answer(&services[1].service), "b");
}

#[test]
fn patterns_are_those_of_the_router() {
    let services = register(
        group()
            .guard(guard())
            .wrap(mark("<", ">"))
            .route("/user/{name}", Route::new(endpoint("user"))),
    );
    let rdef = actix_router::ResourceDef::new(&services[0].rdef);
    assert!(rdef.is_match("/user/profile"));
    assert!(!rdef.is_match("/user/profile/more"));
    assert!(!rdef.is_match("/index.html"));
}

#[test]
fn one_group_can_mix_factories() {
    let default = Rc::new(endpoint("default"));
    let map = Rc::new(ResourceMap { patterns: Vec::new() });
    let inner = guard();
    let v1 = group().guard(inner.clone()).wrap(mark("(", ")")).route("/v1", Route::new(endpoint("v1")));
    type Mixed = Either<Resource<()>, Either<Group<(), Mw, Resource<()>>, Fallback>>;
    let app: Group<(), Mw, Mixed> = Group::new();
    let mut config = ServiceConfig::new(default.clone());
    app.wrap(mark("[", "]"))
        .service(Either::Left(Resource::new("/first").route(Route::new(endpoint("first")))))
        .service(Either::Right(Either::Left(v1)))
        .route("/middle", Route::new(endpoint("middle")))
        .service(Either::Right(Either::Right(Fallback { expected: default, map })))
        .register(&mut config);
    let services = config.into_services();
    assert_eq!(paths(&services), vec!["/first", "/v1", "/middle", "/fallback"]);
    let bodies: Vec<String> = services.iter().map(|r| answer(&r.service)).collect();
    assert_eq!(bodies, vec!["[first]", "[(v1)]", "[middle]", "[fallback]"]);
    assert!(services[0].guards.is_none());
    assert!(is_guarded_by(&services[1], &[&inner]));
    assert!(services[2].guards.is_none());
}

#[test]
fn nested_group_stands_at_its_position() {
    let inner = group()
        .wrap(mark("(", ")"))
        .route("/b", Route::new(endpoint("b")))
        .route("/c", Route::new(endpoint("c")));
    let app: Group<(), Mw, Group<(), Mw, Resource<()>>> = Group::new();
    let services = register(
        app.route("/a", Route::new(endpoint("a")))
            .service(inner)
            .wrap(mark("[", "]"))
            .route("/d", Route::new(endpoint("d"))),
    );
    assert_eq!(paths(&services), vec!["/a", "/b", "/c", "/d"]);
    let bodies: Vec<String> = services.iter().map(|r| answer(&r.service)).collect();
    assert_eq!(bodies, vec!["[a]", "[(b)]", "[(c)]", "[d]"]);
}

#[test]
fn order_of_routes_and_guards_does_not_matter() {
    let outer = guard();
    let own = guard();
    let route = || Route::new(endpoint("x")).guard(own.clone());
    let late = register(group().route("/x", route()).guard(outer.clone()).wrap(mark("<", ">")));
    let early = register(group().wrap(mark("<", ">")).guard(outer.clone()).route("/x", route()));
    for services in [&late, &early] {
        assert_eq!(paths(services), vec!["/x"]);
        assert!(is_guarded_by(&services[0], &[&outer, &own]));
        assert_eq!(answer(&services[0].service), "<x>");
    }
}

#[test]
fn chains_of_calls_add_up() {
    let (first, second) = (guard(), guard());
    let services = register(
        group()
            .route("/1", Route::new(endpoint("1")))
            .guard(first.clone())
            .service(Resource::new("/2").route(Route::new(endpoint("2"))))
            .wrap(mark("a", ""))
            .route("/3", Route::new(endpoint("3")))
            .wrap_fn(mark("b", ""))
            .guard(second.clone())
            .wrap(mark("c", ""))
            .service(Resource::new("/4").route(Route::new(endpoint("4")))),
    );
    assert_eq!(paths(&services), vec!["/1", "/2", "/3", "/4"]);
    let bodies: Vec<String> = services.iter().map(|r| answer(&r.service)).collect();
    assert_eq!(bodies, vec!["cba1", "cba2", "cba3", "cba4"]);
    assert!(services.iter().all(|r| is_guarded_by(r, &[&first, &second])));
}

#[test]
fn route_is_a_simplified_service_of_mixed_groups() {
    type Mixed = Either<Resource<()>, Group<(), Mw, Resource<()>>>;
    let (outer, own) = (guard(), guard());
    let mixed = || -> Group<(), Mw, Mixed> {
        Group::new().guard(outer.clone()).wrap(mark("<", ">"))
    };
    let by_route = register(mixed().route("/x", Route::new(endpoint("x")).guard(own.clone())));
    let resource =
        Resource::new("/x").add_guards(vec![own.clone()]).route(Route::new(endpoint("x")));
    let by_service = register(mixed().service(Either::Left(resource)));
    for services in [&by_route, &by_service] {
        assert_eq!(paths(services), vec!["/x"]);
        assert!(is_guarded_by(&services[0], &[&outer, &own]));
        assert_eq!(answer(&services[0].service), "<x>");
    }
}
