//! The kernel's logical clock.

use vstd::prelude::*;

verus! {

/// Number of distinct values of one 32-bit half of the counter.
pub open spec fn half_range() -> int {
    0x1_0000_0000
}

/// Number of distinct values of the whole 64-bit counter.
pub open spec fn full_range() -> int {
    0x1_0000_0000_0000_0000
}

/// A 64-bit tick count kept as two 32-bit halves.
///
/// The low half is incremented once per tick; when it rolls over from
/// `0xFFFF_FFFF` to `0`, the carry is propagated into the high half.
pub struct TickCounter {
    lsb: u32,
    msb: u32,
}

impl View for TickCounter {
    type V = int;

    /// The number of ticks counted so far, modulo 2^64.
    closed spec fn view(&self) -> int {
        self.msb as int * half_range() + self.lsb as int
    }
}

impl TickCounter {
    /// The low 32 bits of the count.
    pub closed spec fn low(&self) -> int {
        self.lsb as int
    }

    /// The high 32 bits of the count.
    pub closed spec fn high(&self) -> int {
        self.msb as int
    }

    /// The counter after one more tick.
    pub closed spec fn ticked(self) -> TickCounter {
        if self.lsb == u32::MAX {
            TickCounter { lsb: 0, msb: if self.msb == u32::MAX { 0 } else { (self.msb + 1) as u32 } }
        } else {
            TickCounter { lsb: (self.lsb + 1) as u32, msb: self.msb }
        }
    }

    /// The count is the two halves put together, and fits in 64 bits.
    pub proof fn lemma_view_halves(self)
        ensures
            self@ == self.high() * half_range() + self.low(),
            0 <= self.low() < half_range(),
            0 <= self.high() < half_range(),
            0 <= self@ < full_range(),
    {
    }

    /// One tick adds one to the count, modulo 2^64.
    pub proof fn lemma_ticked_view(self)
        ensures
            self.ticked()@ == (self@ + 1) % full_range(),
            self.ticked().low() == (self.low() + 1) % half_range(),
    {
    }

    /// A counter that reads zero.
    pub fn new() -> (t: Self)
        ensures
            t@ == 0,
            t.low() == 0,
            t.high() == 0,
    {
        TickCounter { lsb: 0, msb: 0 }
    }

    /// A counter that reads `ticks`.
    pub fn from_ticks(ticks: u64) -> (t: Self)
        ensures
            t@ == ticks,
            t.low() == ticks % 0x1_0000_0000,
            t.high() == ticks / 0x1_0000_0000,
    {
        let lsb: u32 = (ticks & 0xFFFF_FFFF) as u32;
        let msb: u32 = (ticks >> 32) as u32;
        assert(ticks & 0xFFFF_FFFF == ticks % 0x1_0000_0000 && ticks >> 32 == ticks / 0x1_0000_0000
            && (ticks >> 32) <= 0xFFFF_FFFF) by (bit_vector);
        TickCounter { lsb, msb }
    }

    /// Counts one tick.
    ///
    /// The count goes up by one; only at `u64::MAX` does it wrap to zero.
    pub fn inc(&mut self)
        ensures
            *final(self) == old(self).ticked(),
            final(self)@ == (old(self)@ + 1) % full_range(),
    {
        let old_lsb: u32 = self.lsb;
        self.lsb = old_lsb.wrapping_add(1);
        // The low half went backwards: it rolled over, so carry into the high half.
        if self.lsb < old_lsb {
            self.msb = self.msb.wrapping_add(1);
        }
    }

    /// Reads the count as one 64-bit number.
    pub fn get(&self) -> (ticks: u64)
        ensures
            ticks == self@,
    {
        let lsb: u32 = self.lsb;
        let msb: u32 = self.msb;
        assert((((msb as u64) << 32) | (lsb as u64)) == (msb as u64) * 0x1_0000_0000 + (lsb as u64))
            by (bit_vector);
        ((msb as u64) << 32) | (lsb as u64)
    }
}

/// A tick never makes the clock read less: below `u64::MAX` the count grows
/// by exactly one.
pub proof fn lemma_inc_non_decreasing(t: TickCounter)
    requires
        t@ < u64::MAX,
    ensures
        t.ticked()@ == t@ + 1,
        t.ticked()@ > t@,
{
    t.lemma_view_halves();
}

/// Rollover of the low half: from `0xFFFF_FFFF` the next tick sets the low
/// half to zero and adds exactly one to the high half, so the count as a
/// whole still grows by one.
pub proof fn lemma_inc_carries(t: TickCounter)
    requires
        t.low() == 0xFFFF_FFFF,
        t.high() < 0xFFFF_FFFF,
    ensures
        t.ticked().low() == 0,
        t.ticked().high() == t.high() + 1,
        t.ticked()@ == t@ + 1,
{
}

/// Away from the rollover the high half is left alone.
pub proof fn lemma_inc_keeps_high(t: TickCounter)
    requires
        t.low() < 0xFFFF_FFFF,
    ensures
        t.ticked().low() == t.low() + 1,
        t.ticked().high() == t.high(),
{
}

} // verus!
