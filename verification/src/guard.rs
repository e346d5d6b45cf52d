use actix_http::RequestHead;
use std::rc::Rc;
use vstd::prelude::*;

verus! {

/// The head of a request: its method, URI and headers. Guards look at it; this library only
/// hands it on.
#[verifier::external_type_specification]
#[verifier::external_body]
pub struct ExRequestHead(RequestHead);

/// Decides whether a registered service may take a request.
pub trait Guard {
    /// Checks the head of a request.
    fn check(&self, request: &RequestHead) -> bool;
}

/// A guard that stands in front of several services at once.
pub type SharedGuard = Rc<Box<dyn Guard>>;

/// Guards of which every one has to accept a request.
pub type Guards = Vec<SharedGuard>;

/// The guards that a service has, if it has any.
pub open spec fn guards_view(guards: Option<Guards>) -> Option<Seq<SharedGuard>> {
    match guards {
        Some(guards) => Some(guards@),
        None => None,
    }
}

/// The guards in front of a service: those of whatever encloses it, then its own. Without
/// enclosing guards the service keeps exactly what it had.
pub open spec fn guarded(
    enclosing: Seq<SharedGuard>,
    own: Option<Seq<SharedGuard>>,
) -> Option<Seq<SharedGuard>> {
    if enclosing.len() == 0 {
        own
    } else {
        match own {
            Some(own) => Some(enclosing + own),
            None => Some(enclosing),
        }
    }
}

/// Copies a list of guards; the guards themselves are shared.
fn share_guards(guards: &Guards) -> (copy: Guards)
    ensures
        copy@ == guards@,
{
    let mut copy: Guards = Vec::new();
    let mut i: usize = 0;
    while i < guards.len()
        invariant
            i <= guards.len(),
            copy@ == guards@.take(i as int),
        decreases guards.len() - i,
    {
        copy.push(guards[i].clone());
        i += 1;
        assert(guards@.take(i as int) == guards@.take(i - 1).push(guards@[i - 1]));
    }
    assert(guards@.take(guards.len() as int) == guards@);
    copy
}

/// Puts guards in front of those that a service has of its own.
pub fn guard_with(enclosing: &Guards, own: Option<Guards>) -> (guards: Option<Guards>)
    ensures
        guards_view(guards) == guarded(enclosing@, guards_view(own)),
{
    if enclosing.is_empty() {
        return own;
    }
    let mut guards = share_guards(enclosing);
    if let Some(own) = own {
        let mut own = own;
        guards.append(&mut own);
    }
    Some(guards)
}

} // verus!
