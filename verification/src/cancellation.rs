//! Stopping an execution from outside.

use vstd::prelude::*;

use crate::error::CancellationError;

verus! {

/// The answers that a cancellation flag gives, one per check. `of(n, at)` is the answer to the
/// `n`-th check, made at `at`: to go on, or to stop, with the place that the error then names.
pub struct Answers {
    pub asked: nat,
    pub of: spec_fn(nat, Seq<char>) -> Option<Seq<char>>,
}

impl Answers {
    /// The answer to the next check, if it is made at `at`.
    pub open spec fn next(self, at: Seq<char>) -> Option<Seq<char>> {
        (self.of)(self.asked, at)
    }

    /// What is left after the next check.
    pub open spec fn rest(self) -> Answers {
        Answers { asked: self.asked + 1, ..self }
    }
}

/// Tells, each time it is checked, whether the execution is to stop.
///
/// Nothing is assumed of the answers: they may depend on the time or on another thread. They are
/// only given names, so that contracts can tell what happens for each of them.
pub trait CancellationFlag: Sized {
    /// The answers that this flag still gives.
    spec fn answers(&self) -> Answers;

    fn check(&mut self, at: &str) -> (r: Result<(), CancellationError>)
        ensures
            final(self).answers() == old(self).answers().rest(),
            (match r {
                Ok(()) => None,
                Err(e) => Some(e.0@),
            }) == old(self).answers().next(at@),
    ;
}

/// A flag that never stops the execution.
pub struct NoCancellation {
    asked: Ghost<nat>,
}

impl NoCancellation {
    pub fn new() -> (r: NoCancellation)
        ensures
            r.answers().asked == 0,
            forall|n: nat, at: Seq<char>| (#[trigger] (r.answers().of)(n, at)) is None,
    {
        NoCancellation { asked: Ghost(0) }
    }
}

impl CancellationFlag for NoCancellation {
    closed spec fn answers(&self) -> Answers {
        Answers { asked: self.asked@, of: |n: nat, at: Seq<char>| None }
    }

    fn check(&mut self, at: &str) -> (r: Result<(), CancellationError>) {
        self.asked = Ghost((self.asked@ + 1) as nat);
        assert(self.answers().of =~= old(self).answers().of);
        Ok(())
    }
}

} // verus!
