use std::rc::Rc;

use actix_http::http::header::{CONTENT_LENGTH, CONTENT_TYPE};
use actix_http::http::{HeaderMap, HeaderValue};
use actix_http::{Error, RequestHead};
use actix_service::boxed;
use actix_service::fn_service;

use route_group::config::{Registration, ServiceConfig};
use route_group::factory::{Either, HttpServiceFactory};
use route_group::guard::{guard_with, Guard, SharedGuard};
use route_group::middleware::label_response;
use route_group::resource::Resource;
use route_group::route::Route;
use route_group::service::{HttpNewService, ServiceRequest, ServiceResponse};

struct Yes;

impl Guard for Yes {
    fn check(&self, _: &RequestHead) -> bool {
        true
    }
}

fn guard() -> SharedGuard {
    Rc::new(Box::new(Yes))
}

fn endpoint() -> HttpNewService<()> {
    boxed::new_service(fn_service(
        |_: ServiceRequest<()>| -> Result<ServiceResponse<Vec<u8>>, Error> {
            Ok(response(HeaderMap::new()))
        },
    ))
}

fn response(headers: HeaderMap) -> ServiceResponse<Vec<u8>> {
    ServiceResponse {
        request: RequestHead::default(),
        status: 404,
        headers,
        body: vec![1, 2, 3],
    }
}

fn same(a: &[SharedGuard], b: &[&SharedGuard]) -> bool {
    a.len() == b.len() && a.iter().zip(b).all(|(x, y)| Rc::ptr_eq(x, y))
}

fn content_types(headers: &HeaderMap) -> Vec<String> {
    headers.get_all("content-type").map(|v| v.to_str().unwrap().to_string()).collect()
}

#[test]
fn label_sets_the_content_type() {
    let labelled = label_response(response(HeaderMap::new()));
    assert_eq!(content_types(&labelled.headers), vec!["0001"]);
    assert_eq!(labelled.headers.len(), 1);
    assert_eq!(labelled.status, 404);
    assert_eq!(labelled.body, vec![1, 2, 3]);
}

#[test]
fn label_replaces_every_content_type() {
    let mut headers = HeaderMap::new();
    headers.append(CONTENT_TYPE, HeaderValue::from_static("text/plain"));
    headers.append(CONTENT_TYPE, HeaderValue::from_static("text/html"));
    headers.insert(CONTENT_LENGTH, HeaderValue::from_static("3"));
    let labelled = label_response(response(headers));
    assert_eq!(content_types(&labelled.headers), vec!["0001"]);
    assert_eq!(labelled.headers.get(CONTENT_LENGTH).unwrap(), "3");
    assert_eq!(labelled.headers.len(), 2);
}

#[test]
fn label_is_idempotent() {
    let labelled = label_response(label_response(response(HeaderMap::new())));
    assert_eq!(content_types(&labelled.headers), vec!["0001"]);
    assert_eq!(labelled.headers.len(), 1);
}

#[test]
fn label_keeps_any_body() {
    let labelled = label_response(ServiceResponse {
        request: RequestHead::default(),
        status: 200,
        headers: HeaderMap::new(),
        body: "text".to_string(),
    });
    assert_eq!(labelled.body, "text");
}

#[test]
fn taking_guards_leaves_none() {
    let (first, second) = (guard(), guard());
    let mut route = Route::new(endpoint()).guard(first.clone()).guard(second.clone());
    assert!(same(&route.take_guards(), &[&first, &second]));
    assert!(route.take_guards().is_empty());
    assert!(route.into_parts().0.is_empty());
}

#[test]
fn enclosing_guards_come_first() {
    let (first, second, third) = (guard(), guard(), guard());
    let none: Vec<SharedGuard> = Vec::new();
    let enclosing = vec![first.clone(), second.clone()];
    assert!(guard_with(&none, None).is_none());
    assert!(same(&guard_with(&none, Some(Vec::new())).unwrap(), &[]));
    assert!(same(&guard_with(&none, Some(vec![third.clone()])).unwrap(), &[&third]));
    assert!(same(&guard_with(&enclosing, None).unwrap(), &[&first, &second]));
    assert!(same(
        &guard_with(&enclosing, Some(vec![third.clone()])).unwrap(),
        &[&first, &second, &third],
    ));
}

#[test]
fn resource_mounts_each_route_behind_its_guards() {
    let (of_resource, of_route) = (guard(), guard());
    let mut config = ServiceConfig::new(Rc::new(endpoint()));
    Resource::new("/x")
        .route(Route::new(endpoint()))
        .add_guards(vec![of_resource.clone()])
        .route(Route::new(endpoint()).guard(of_route.clone()))
        .register(&mut config);
    let services = config.into_services();
    assert_eq!(services.len(), 2);
    assert!(services.iter().all(|r| r.rdef == "/x" && r.nested.is_none()));
    assert!(same(services[0].guards.as_ref().unwrap(), &[&of_resource]));
    assert!(same(services[1].guards.as_ref().unwrap(), &[&of_resource, &of_route]));
}

#[test]
fn resource_without_routes_registers_nothing() {
    let mut config: ServiceConfig<()> = ServiceConfig::new(Rc::new(endpoint()));
    Resource::new("/x").add_guards(vec![guard()]).register(&mut config);
    assert!(config.into_services().is_empty());
}

#[test]
fn child_configuration_starts_empty_with_the_same_default() {
    let default = Rc::new(endpoint());
    let mut config = ServiceConfig::new(default.clone());
    config.register_service(Registration {
        rdef: "/x".to_string(),
        service: endpoint(),
        guards: None,
        nested: None,
    });
    let child = config.clone_config();
    assert!(Rc::ptr_eq(&child.default_service(), &default));
    assert!(child.into_services().is_empty());
    assert_eq!(config.into_services().len(), 1);
}

#[test]
fn label_keeps_the_request() {
    let mut request = RequestHead::default();
    request.headers.insert(CONTENT_LENGTH, HeaderValue::from_static("7"));
    let labelled = label_response(ServiceResponse {
        request,
        status: 200,
        headers: HeaderMap::new(),
        body: (),
    });
    assert_eq!(labelled.request.headers.get(CONTENT_LENGTH).unwrap(), "7");
    assert!(!labelled.request.headers.contains_key(CONTENT_TYPE));
}

#[test]
fn either_factory_registers_what_it_holds() {
    let mut config = ServiceConfig::new(Rc::new(endpoint()));
    let left: Either<Resource<()>, Resource<()>> =
        Either::Left(Resource::new("/left").route(Route::new(endpoint())));
    let right: Either<Resource<()>, Resource<()>> =
        Either::Right(Resource::new("/right").route(Route::new(endpoint())));
    right.register(&mut config);
    left.register(&mut config);
    let services = config.into_services();
    let paths: Vec<&str> = services.iter().map(|r| r.rdef.as_str()).collect();
    assert_eq!(paths, vec!["/right", "/left"]);
}
