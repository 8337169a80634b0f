use vstd::prelude::*;

use crate::encode::Step;

verus! {

/// A digital output line that can be driven high or low. Either call may
/// fail; the driver ignores such failures, since a frame cannot be resumed
/// partway and there is nothing a caller could do about one.
pub trait Line {
    type Error;

    fn set_high(&mut self) -> Result<(), Self::Error>;

    fn set_low(&mut self) -> Result<(), Self::Error>;
}

/// Relies on std::hint::black_box: the identity, hidden from the optimiser,
/// so that the busy-wait keeps one real iteration per loop.
#[verifier::external_body]
fn opaque(x: u64) -> (r: u64)
    ensures
        r == x,
{
    std::hint::black_box(x)
}

/// A line together with the history of what was done on it: every level it
/// was driven to and every busy-wait, in order. Only the three methods that
/// perform an action extend the history, each by that action.
pub struct Traced<L> {
    line: L,
    history: Ghost<Seq<Step>>,
}

impl<L: Line> Traced<L> {
    /// Everything done on the line so far, oldest first.
    pub closed spec fn trace(&self) -> Seq<Step> {
        self.history@
    }

    /// A line on which nothing has been done yet.
    pub fn new(line: L) -> (r: Traced<L>)
        ensures
            r.trace() == Seq::<Step>::empty(),
    {
        Traced { line, history: Ghost(Seq::empty()) }
    }

    /// The line itself.
    pub fn line(&self) -> &L {
        &self.line
    }

    /// Drives the line high; a failure is ignored.
    pub fn set_high(&mut self)
        ensures
            final(self).trace() == old(self).trace().push(Step::High),
    {
        let _ = self.line.set_high();
        self.history = Ghost(self.history@.push(Step::High));
    }

    /// Drives the line low; a failure is ignored.
    pub fn set_low(&mut self)
        ensures
            final(self).trace() == old(self).trace().push(Step::Low),
    {
        let _ = self.line.set_low();
        self.history = Ghost(self.history@.push(Step::Low));
    }

    /// Busy-waits for `loops` iterations, leaving the line as it is.
    pub fn wait(&mut self, loops: u64)
        ensures
            final(self).trace() == old(self).trace().push(Step::Wait(loops)),
    {
        let mut left: u64 = loops;
        while left > 0
            decreases left,
        {
            left = opaque(left) - 1;
        }
        self.history = Ghost(self.history@.push(Step::Wait(loops)));
    }
}

} // verus!
