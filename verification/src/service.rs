use actix_http::http::HeaderMap;
use actix_http::RequestHead;
use actix_service::boxed::BoxedNewService;
use vstd::prelude::*;

verus! {

/// The error of a service that failed to answer. It is carried through unread.
#[verifier::external_type_specification]
#[verifier::external_body]
pub struct ExError(actix_http::Error);

/// A factory of services, boxed so that factories of different services can stand in one
/// list. It is carried through unread.
#[verifier::external_type_specification]
#[verifier::external_body]
#[verifier::reject_recursive_types(C)]
#[verifier::reject_recursive_types(Req)]
#[verifier::reject_recursive_types(Res)]
#[verifier::reject_recursive_types(E)]
#[verifier::reject_recursive_types(InitE)]
pub struct ExBoxedNewService<C, Req, Res, E, InitE>(BoxedNewService<C, Req, Res, E, InitE>);

/// A request on its way to a service.
pub struct ServiceRequest<P> {
    pub head: RequestHead,
    pub payload: P,
}

/// The answer of a service, together with the head of the request that it answers.
pub struct ServiceResponse<B> {
    pub request: RequestHead,
    pub status: u16,
    pub headers: HeaderMap,
    pub body: B,
}

/// The factory of a service that answers HTTP requests.
pub type HttpNewService<P> = BoxedNewService<
    (),
    ServiceRequest<P>,
    ServiceResponse<Vec<u8>>,
    actix_http::Error,
    (),
>;

} // verus!
