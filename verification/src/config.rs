use crate::guard::{guards_view, Guards, SharedGuard};
use crate::service::HttpNewService;
use std::rc::Rc;
use vstd::prelude::*;

verus! {

/// The resource patterns found below a registered service.
pub struct ResourceMap {
    pub patterns: Vec<String>,
}

/// A service as an application mounts it.
#[verifier::reject_recursive_types(P)]
pub struct Registration<P> {
    /// The pattern of the paths that the service answers.
    pub rdef: String,
    pub service: HttpNewService<P>,
    /// The guards that all have to accept a request before the service takes it.
    pub guards: Option<Guards>,
    pub nested: Option<Rc<ResourceMap>>,
}

/// What a [`Registration`] holds.
#[verifier::ext_equal]
#[verifier::reject_recursive_types(P)]
pub struct RegistrationView<P> {
    pub rdef: Seq<char>,
    pub service: HttpNewService<P>,
    pub guards: Option<Seq<SharedGuard>>,
    pub nested: Option<Rc<ResourceMap>>,
}

impl<P> View for Registration<P> {
    type V = RegistrationView<P>;

    open spec fn view(&self) -> RegistrationView<P> {
        RegistrationView {
            rdef: self.rdef@,
            service: self.service,
            guards: guards_view(self.guards),
            nested: self.nested,
        }
    }
}

/// The list of services under construction.
#[verifier::reject_recursive_types(P)]
pub struct ServiceConfig<P> {
    default: Rc<HttpNewService<P>>,
    services: Vec<Registration<P>>,
}

/// What a [`ServiceConfig`] holds.
#[verifier::ext_equal]
#[verifier::reject_recursive_types(P)]
pub struct ServiceConfigView<P> {
    pub default: Rc<HttpNewService<P>>,
    pub services: Seq<RegistrationView<P>>,
}

impl<P> View for ServiceConfig<P> {
    type V = ServiceConfigView<P>;

    closed spec fn view(&self) -> ServiceConfigView<P> {
        ServiceConfigView { default: self.default, services: views(self.services@) }
    }
}

/// What each of a list of registrations holds.
pub open spec fn views<P>(registrations: Seq<Registration<P>>) -> Seq<RegistrationView<P>> {
    registrations.map_values(|r: Registration<P>| r@)
}

impl<P> ServiceConfigView<P> {
    /// The configuration with more services, behind those that it has.
    pub open spec fn extended(self, added: Seq<RegistrationView<P>>) -> Self {
        ServiceConfigView { default: self.default, services: self.services + added }
    }

    /// The configuration for services nested one level down: nothing is registered, and
    /// requests that nothing answers still go to the same default service.
    pub open spec fn child(self) -> Self {
        ServiceConfigView { default: self.default, services: Seq::empty() }
    }
}

impl<P> ServiceConfig<P> {
    /// Creates a configuration with no services.
    pub fn new(default: Rc<HttpNewService<P>>) -> (config: Self)
        ensures
            config@ == (ServiceConfigView { default, services: Seq::empty() }),
    {
        ServiceConfig { default, services: Vec::new() }
    }

    /// The service for requests that no registered service takes.
    pub fn default_service(&self) -> (default: Rc<HttpNewService<P>>)
        ensures
            default == self@.default,
    {
        self.default.clone()
    }

    /// Creates the configuration for services nested one level down.
    pub fn clone_config(&self) -> (config: Self)
        ensures
            config@ == self@.child(),
    {
        ServiceConfig { default: self.default.clone(), services: Vec::new() }
    }

    /// Takes the registered services out, in the order of their registration.
    pub fn into_services(self) -> (services: Vec<Registration<P>>)
        ensures
            views(services@) == self@.services,
    {
        self.services
    }

    /// Registers a service behind those that are already there.
    pub fn register_service(&mut self, registration: Registration<P>)
        ensures
            final(self)@ == old(self)@.extended(seq![registration@]),
    {
        self.services.push(registration);
        assert(views(self.services@) == old(self)@.services + seq![registration@]);
    }
}

} // verus!
