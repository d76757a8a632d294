//! Counting through the stages of a multi-stage operation.

use vstd::prelude::*;
use crate::text::{dec, push_decimal, string_from};

verus! {

/// Progress through a fixed number of named stages, shown as
/// `[current/total]`.
pub struct StageProgress {
    current: usize,
    total: usize,
}

impl StageProgress {
    /// The number of stages started or skipped so far.
    pub closed spec fn stage(&self) -> nat {
        self.current as nat
    }

    /// The number of stages in all.
    pub closed spec fn stages(&self) -> nat {
        self.total as nat
    }

    /// A tracker of `total` stages, none of them started.
    pub fn new(total: usize) -> (p: StageProgress)
        ensures
            p.stage() == 0,
            p.stages() == total,
    {
        StageProgress { current: 0, total }
    }

    /// Moves on to the next stage, whether it is run or skipped.
    pub fn advance(&mut self)
        requires
            old(self).stage() < usize::MAX,
        ensures
            final(self).stage() == old(self).stage() + 1,
            final(self).stages() == old(self).stages(),
    {
        self.current = self.current + 1;
    }

    /// The current stage number, counting from one once a stage has begun.
    pub fn current(&self) -> (n: usize)
        ensures
            n == self.stage(),
    {
        self.current
    }

    /// The number of stages in all.
    pub fn total(&self) -> (n: usize)
        ensures
            n == self.stages(),
    {
        self.total
    }

    /// Whether every stage has been reached.
    pub fn is_complete(&self) -> (b: bool)
        ensures
            b == (self.stage() >= self.stages()),
    {
        self.current >= self.total
    }

    /// The `[current/total]` marker shown before a stage's name.
    pub fn counter(&self) -> (r: String)
        ensures
            r@ == seq!['['] + dec(self.stage()) + seq!['/'] + dec(self.stages()) + seq![']'],
    {
        let mut out: Vec<char> = Vec::new();
        out.push('[');
        push_decimal(&mut out, self.current as u64);
        out.push('/');
        push_decimal(&mut out, self.total as u64);
        out.push(']');
        assert(out@ =~= seq!['['] + dec(self.stage()) + seq!['/'] + dec(self.stages()) + seq![']']);
        string_from(&out)
    }
}

} // verus!
