//! Per-frame gas accounting.

use vstd::prelude::*;

verus! {

/// Gas balance of one frame: the balance when the frame was opened and the
/// balance when it was closed.
#[derive(Clone, Copy, Debug, PartialEq, Eq, Default)]
pub struct GasInfo {
    start_balance: u64,
    end_balance: u64,
}

impl GasInfo {
    /// Balance when the frame was opened.
    pub closed spec fn start(&self) -> u64 {
        self.start_balance
    }

    /// Balance when the frame was closed (zero while it is open).
    pub closed spec fn end(&self) -> u64 {
        self.end_balance
    }

    /// Gas consumed by the frame.
    pub open spec fn used(&self) -> int {
        self.start() - self.end()
    }

    /// The gas record of a frame opened at `start_balance`.
    pub closed spec fn spec_make(start_balance: u64) -> GasInfo {
        GasInfo { start_balance, end_balance: 0 }
    }

    /// The gas record after closing at `end_balance`.
    pub closed spec fn spec_closed(self, end_balance: u64) -> GasInfo {
        GasInfo { end_balance, ..self }
    }

    /// Opens a frame with the given starting balance.
    pub fn make_frame(start_balance: u64) -> (r: Self)
        ensures
            r == Self::spec_make(start_balance),
            r.start() == start_balance,
            r.end() == 0,
    {
        Self { start_balance, end_balance: 0 }
    }

    /// Closes the frame at `end_balance`. A second call overwrites the end
    /// balance set by the first: the last call is authoritative.
    pub fn close_frame(&mut self, end_balance: u64)
        ensures
            *final(self) == old(self).spec_closed(end_balance),
            final(self).start() == old(self).start(),
            final(self).end() == end_balance,
    {
        self.end_balance = end_balance;
    }

    /// Gas consumed between opening and closing the frame.
    pub fn gas_used(&self) -> (r: u64)
        requires
            self.end() <= self.start(),
        ensures
            r == self.used(),
    {
        self.start_balance - self.end_balance
    }

    /// Balance when the frame was opened.
    pub fn start_balance(&self) -> (r: u64)
        ensures
            r == self.start(),
    {
        self.start_balance
    }

    /// Balance when the frame was closed.
    pub fn end_balance(&self) -> (r: u64)
        ensures
            r == self.end(),
    {
        self.end_balance
    }
}

/// Closing a frame twice keeps the second end balance and the start balance;
/// nothing is accumulated or averaged.
pub proof fn lemma_close_twice_keeps_last(g: GasInfo, first: u64, second: u64)
    ensures
        g.spec_closed(first).spec_closed(second) == g.spec_closed(second),
        g.spec_closed(first).spec_closed(second).end() == second,
        g.spec_closed(first).spec_closed(second).start() == g.start(),
{
    reveal(GasInfo::spec_closed);
    reveal(GasInfo::start);
    reveal(GasInfo::end);
}

/// Opening at `start` and closing at `end <= start` uses exactly
/// `start - end` gas.
pub proof fn lemma_make_close_used(start: u64, end: u64)
    requires
        end <= start,
    ensures
        GasInfo::spec_make(start).spec_closed(end).used() == start - end,
{
    reveal(GasInfo::spec_make);
    reveal(GasInfo::spec_closed);
    reveal(GasInfo::start);
    reveal(GasInfo::end);
}

} // verus!
