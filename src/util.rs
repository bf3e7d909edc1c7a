//! A deferred closure: held now, run once later.

use vstd::prelude::*;

verus! {

/// A closure held to be run once, later.
#[verifier::reject_recursive_types(R)]
pub struct Defer<F: FnOnce() -> R, R> {
    f: Option<F>,
}

impl<F: FnOnce() -> R, R> Defer<F, R> {
    #[verifier::type_invariant]
    closed spec fn inv(self) -> bool {
        self.f is Some ==> call_requires(self.f->Some_0, ())
    }

    /// The closure still to run, if any.
    pub closed spec fn pending(self) -> Option<F> {
        self.f
    }

    /// Runs the held closure, if any, and returns what it returned.
    pub fn run(self) -> (r: Option<R>)
        ensures
            match self.pending() {
                Some(f) => r is Some && call_ensures(f, (), r->Some_0),
                None => r is None,
            },
    {
        proof {
            use_type_invariant(&self);
        }
        let Defer { f } = self;
        match f {
            Some(f) => Some(f()),
            None => None,
        }
    }
}

/// Holds `f`, to be run later by `Defer::run`.
pub fn defer<F: FnOnce() -> R, R>(f: F) -> (r: Defer<F, R>)
    requires
        call_requires(f, ()),
    ensures
        r.pending() == Some(f),
{
    Defer { f: Some(f) }
}

} // verus!
