use crate::config::{ServiceConfig, ServiceConfigView};
use vstd::prelude::*;

verus! {

/// Something that can be mounted in an application: it registers the services that it
/// consists of.
pub trait HttpServiceFactory<P>: Sized {
    /// Whether registration may lead from one configuration to another. Of a factory that does
    /// not say, nothing is known.
    open spec fn registers(
        self,
        before: ServiceConfigView<P>,
        after: ServiceConfigView<P>,
    ) -> bool {
        true
    }

    /// Registers the services.
    fn register(self, config: &mut ServiceConfig<P>)
        ensures
            self.registers(old(config)@, final(config)@),
    ;
}

/// One of two kinds of factories. A group whose factories are of this type takes services of
/// both kinds, and of more when it is nested.
pub enum Either<A, B> {
    Left(A),
    Right(B),
}

impl<P, A: HttpServiceFactory<P>, B: HttpServiceFactory<P>> HttpServiceFactory<P> for Either<A, B> {
    open spec fn registers(
        self,
        before: ServiceConfigView<P>,
        after: ServiceConfigView<P>,
    ) -> bool {
        match self {
            Either::Left(factory) => factory.registers(before, after),
            Either::Right(factory) => factory.registers(before, after),
        }
    }

    fn register(self, config: &mut ServiceConfig<P>) {
        match self {
            Either::Left(factory) => factory.register(config),
            Either::Right(factory) => factory.register(config),
        }
    }
}

} // verus!
