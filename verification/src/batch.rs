//! Adaptive batch sizing for the historical backfill worker.
//!
//! The worker scans the chain in windows of `current` blocks.  The window
//! starts at a configured width, is halved (with a floor of one block)
//! whenever the RPC provider reports that a range matched too many logs,
//! and is reset to the configured width after any successful range.

use vstd::prelude::*;

verus! {

/// Default width of a backfill window, in blocks.
pub const LOGS_BATCH_SIZE: u64 = 100;

/// What halving does to a window width: divide by two, floored at one block.
pub open spec fn spec_halve(c: u64) -> u64 {
    if c / 2 < 1 {
        1u64
    } else {
        (c / 2) as u64
    }
}

/// The width after `k` successive halvings of `c`.
pub open spec fn halve_iter(c: u64, k: nat) -> u64
    decreases k,
{
    if k == 0 {
        c
    } else {
        spec_halve(halve_iter(c, (k - 1) as nat))
    }
}

/// The adaptive window width: `original` is fixed at construction,
/// `current` moves between 1 and `original`.
pub struct BatchSizer {
    pub original: u64,
    pub current: u64,
}

impl BatchSizer {
    /// The sizer never proposes an empty window and never exceeds the
    /// configured width.
    pub open spec fn wf(&self) -> bool {
        1 <= self.current <= self.original
    }

    pub fn new(original: u64) -> (r: Self)
        requires
            original >= 1,
        ensures
            r.wf(),
            r.original == original,
            r.current == original,
    {
        BatchSizer { original, current: original }
    }

    /// Halve the window, flooring at one block.
    pub fn halve(&mut self)
        requires
            old(self).wf(),
        ensures
            final(self).wf(),
            final(self).original == old(self).original,
            final(self).current == spec_halve(old(self).current),
            old(self).current > 1 ==> final(self).current < old(self).current,
    {
        let h = self.current / 2;
        self.current = if h < 1 { 1 } else { h };
    }

    /// Restore the configured window width.
    pub fn reset(&mut self)
        requires
            old(self).wf(),
        ensures
            final(self).wf(),
            final(self).original == old(self).original,
            final(self).current == old(self).original,
    {
        self.current = self.original;
    }

    /// True when the window cannot shrink any further.
    pub fn is_min(&self) -> (r: bool)
        ensures
            r == (self.current <= 1),
    {
        self.current <= 1
    }
}

/// Unfolding `halve_iter` from the front: one more halving of `c` is one
/// halving applied before the remaining `k`.
proof fn lemma_halve_iter_shift(c: u64, k: nat)
    ensures
        halve_iter(c, k + 1) == halve_iter(spec_halve(c), k),
    decreases k,
{
    assert(halve_iter(c, 0) == c);
    assert(halve_iter(spec_halve(c), 0) == spec_halve(c));
    if k == 0 {
        assert(halve_iter(c, 1) == spec_halve(halve_iter(c, 0)));
    } else {
        lemma_halve_iter_shift(c, (k - 1) as nat);
        assert(halve_iter(c, k + 1) == spec_halve(halve_iter(c, k)));
        assert(halve_iter(spec_halve(c), k) == spec_halve(halve_iter(spec_halve(c), (k - 1) as nat)));
    }
}

/// Under repeated overload responses the window width always reaches its
/// floor of one block after finitely many halvings.
pub proof fn lemma_halving_reaches_floor(c: u64)
    ensures
        exists|k: nat| halve_iter(c, k) == 1,
    decreases c,
{
    if c <= 1 {
        if c == 1 {
            assert(halve_iter(c, 0) == 1);
        } else {
            assert(halve_iter(c, 0) == c);
            assert(halve_iter(c, 1) == spec_halve(halve_iter(c, 0)));
            assert(halve_iter(c, 1) == 1);
        }
    } else {
        lemma_halving_reaches_floor(spec_halve(c));
        let k0 = choose|k: nat| halve_iter(spec_halve(c), k) == 1;
        lemma_halve_iter_shift(c, k0);
        assert(halve_iter(c, k0 + 1) == 1);
    }
}

} // verus!
