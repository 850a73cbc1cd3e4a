//! One size-class of the allocator: a fixed slot size and a bitmask whose
//! width (1, 8, 16, 32 or 64 bits) bounds the slot count. Bit `i` set means
//! slot `i` is allocated; a claim reserves the lowest free slot.

use vstd::prelude::*;

use crate::bits::bit64;
use crate::bits::claim_once;
use crate::bits::clear_bit;
use crate::bits::count_free;
use crate::bits::claim_n;
use crate::bits::lemma_claim_fails_iff_full;
use crate::bits::lemma_claim_release_roundtrip;
use crate::bits::lemma_claims_exhaust;
use crate::bits::lemma_count_free_clear;
use crate::bits::lemma_count_free_set;
use crate::bits::lemma_lowest_clear_is;
use crate::bits::lemma_lowest_clear_range;
use crate::bits::lemma_lowest_clear_none;
use crate::bits::lowest_clear;
use crate::bits::set_bit;

verus! {

/// Possible widths of a section's occupancy bitmask, each carrying the mask
/// itself. The width fixes how many slots the section manages.
#[derive(Clone, Copy)]
pub enum Atomics {
    /// One slot.
    Bool(bool),
    /// 8 slots.
    U8(u8),
    /// 16 slots.
    U16(u16),
    /// 32 slots.
    U32(u32),
    /// 64 slots.
    U64(u64),
}

/// The occupancy bitmask held by `a`, widened to 64 bits.
pub open spec fn atomics_mask(a: Atomics) -> u64 {
    match a {
        Atomics::Bool(b) => if b {
            1u64
        } else {
            0u64
        },
        Atomics::U8(v) => v as u64,
        Atomics::U16(v) => v as u64,
        Atomics::U32(v) => v as u64,
        Atomics::U64(v) => v,
    }
}

/// How many slots the bitmask of `a` tracks.
pub open spec fn atomics_width(a: Atomics) -> u32 {
    match a {
        Atomics::Bool(_) => 1,
        Atomics::U8(_) => 8,
        Atomics::U16(_) => 16,
        Atomics::U32(_) => 32,
        Atomics::U64(_) => 64,
    }
}

/// The largest mask value a width-`w` variant can hold: `w` one bits.
pub open spec fn width_limit(w: u32) -> u64 {
    if w == 64 {
        u64::MAX
    } else {
        ((1u64 << w) - 1) as u64
    }
}

/// Error of a claim on a section whose slots are all allocated.
#[derive(Debug, Clone, Copy)]
pub struct SectionFull;

/// Error of a release whose slot index holds no allocation: the bit is
/// already clear, or the index lies beyond the section's width.
#[derive(Debug, Clone, Copy)]
pub struct InvalidSlot;

/// A section: every slot in it is `size` bytes, and the bitmask in
/// `allocated` records which slots are taken.
#[derive(Clone, Copy)]
pub struct Section {
    /// The byte size of each slot.
    pub size: usize,
    pub(crate) allocated: Atomics,
}

impl Section {
    /// The byte size of each slot, as contracts speak of it.
    pub open(crate) spec fn slot_size(self) -> usize {
        self.size
    }

    /// The section's occupancy bitmask, widened to 64 bits.
    pub open(crate) spec fn mask(self) -> u64 {
        atomics_mask(self.allocated)
    }

    /// The number of slots the section manages: the width of its bitmask.
    pub open(crate) spec fn width(self) -> u32 {
        atomics_width(self.allocated)
    }

    /// How many slots are free.
    pub open spec fn free_count(self) -> nat {
        count_free(self.mask(), self.width())
    }

    /// Constructor: `size` is the byte size of each slot, and the variant of
    /// `quantity` fixes the slot count, its value the starting occupancy.
    pub fn new(size: usize, quantity: Atomics) -> (s: Section)
        ensures
            s.slot_size() == size,
            s.mask() == atomics_mask(quantity),
            s.width() == atomics_width(quantity),
    {
        Section { size, allocated: quantity }
    }

    /// The current bitmask as a `u64`, together with the knowledge that it
    /// fits the section's width.
    fn mask_bits(&self) -> (m: u64)
        ensures
            m == self.mask(),
            m <= width_limit(self.width()),
    {
        proof {
            assert((1u64 << 1) - 1 == 1 && (1u64 << 8) - 1 == 0xff && (1u64 << 16) - 1 == 0xffff
                && (1u64 << 32) - 1 == 0xffff_ffff) by (bit_vector);
        }
        match self.allocated {
            Atomics::Bool(b) => if b {
                1
            } else {
                0
            },
            Atomics::U8(v) => v as u64,
            Atomics::U16(v) => v as u64,
            Atomics::U32(v) => v as u64,
            Atomics::U64(v) => v,
        }
    }

    /// Store a new bitmask. The width never changes, so the value must fit
    /// the variant already held.
    fn set_mask(&mut self, v: u64)
        requires
            v <= width_limit(old(self).width()),
        ensures
            final(self).slot_size() == old(self).slot_size(),
            final(self).width() == old(self).width(),
            final(self).mask() == v,
    {
        proof {
            assert((1u64 << 1) - 1 == 1 && (1u64 << 8) - 1 == 0xff && (1u64 << 16) - 1 == 0xffff
                && (1u64 << 32) - 1 == 0xffff_ffff) by (bit_vector);
        }
        match self.allocated {
            Atomics::Bool(_) => {
                self.allocated = Atomics::Bool(v == 1);
            },
            Atomics::U8(_) => {
                self.allocated = Atomics::U8(v as u8);
            },
            Atomics::U16(_) => {
                self.allocated = Atomics::U16(v as u16);
            },
            Atomics::U32(_) => {
                self.allocated = Atomics::U32(v as u32);
            },
            Atomics::U64(_) => {
                self.allocated = Atomics::U64(v);
            },
        }
    }

    /// Reserve the lowest-index free slot: set its bit and return its index.
    /// Fails with `SectionFull`, leaving the section as it was, exactly when
    /// every slot is taken.
    pub fn allocate(&mut self) -> (r: Result<u32, SectionFull>)
        ensures
            final(self).slot_size() == old(self).slot_size(),
            final(self).width() == old(self).width(),
            match r {
                Ok(i) => {
                    &&& old(self).free_count() > 0
                    &&& i as int == lowest_clear(old(self).mask(), old(self).width())
                    &&& i < old(self).width()
                    &&& !bit64(old(self).mask(), i)
                    &&& forall|j: u32| j < i ==> bit64(old(self).mask(), j)
                    &&& final(self).mask() == claim_once(old(self).mask(), old(self).width())
                    &&& final(self).mask() == set_bit(old(self).mask(), i)
                    &&& final(self).free_count() == old(self).free_count() - 1
                },
                Err(_) => {
                    &&& old(self).free_count() == 0
                    &&& *final(self) == *old(self)
                },
            },
    {
        let w = self.total_slots();
        let m = self.mask_bits();
        let mut i: u32 = 0;
        while i < w
            invariant
                i <= w,
                w == self.width() <= 64,
                m == self.mask(),
                m <= width_limit(self.width()),
                self == old(self),
                forall|j: u32| j < i ==> bit64(m, j),
            decreases w - i,
        {
            if m & (1u64 << i) == 0 {
                let v = m | (1u64 << i);
                proof {
                    lemma_lowest_clear_is(m, w, i);
                    lemma_claim_fails_iff_full(m, w);
                    lemma_count_free_set(m, i, w);
                    assert(m | (1u64 << i) <= width_limit(w)) by (bit_vector)
                        requires
                            i < w <= 64,
                            m <= width_limit(w),
                    ;
                }
                self.set_mask(v);
                return Ok(i);
            }
            i += 1;
        }
        proof {
            lemma_lowest_clear_none(m, w);
            lemma_claim_fails_iff_full(m, w);
        }
        Err(SectionFull)
    }

    /// Release the slot at `index`: clear its bit. Fails with `InvalidSlot`,
    /// leaving the section as it was, exactly when the bit is already clear
    /// or the index lies beyond the section's width.
    pub fn deallocate(&mut self, index: u32) -> (r: Result<(), InvalidSlot>)
        ensures
            final(self).slot_size() == old(self).slot_size(),
            final(self).width() == old(self).width(),
            match r {
                Ok(_) => {
                    &&& index < old(self).width()
                    &&& bit64(old(self).mask(), index)
                    &&& final(self).mask() == clear_bit(old(self).mask(), index)
                    &&& final(self).free_count() == old(self).free_count() + 1
                },
                Err(_) => {
                    &&& index >= old(self).width() || !bit64(old(self).mask(), index)
                    &&& *final(self) == *old(self)
                },
            },
    {
        let w = self.total_slots();
        if index >= w {
            return Err(InvalidSlot);
        }
        let m = self.mask_bits();
        if m & (1u64 << index) == 0 {
            return Err(InvalidSlot);
        }
        let v = m & !(1u64 << index);
        proof {
            assert(m & !(1u64 << index) <= m) by (bit_vector);
            lemma_count_free_clear(m, index, w);
        }
        self.set_mask(v);
        Ok(())
    }

    /// The number of slots not currently allocated.
    pub fn free_slots(&self) -> (r: u32)
        ensures
            r as nat == self.free_count(),
            r <= self.width(),
    {
        let w = self.total_slots();
        let m = self.mask_bits();
        let mut count: u32 = 0;
        let mut i: u32 = 0;
        while i < w
            invariant
                i <= w,
                w == self.width() <= 64,
                m == self.mask(),
                count as nat == count_free(m, i),
                count <= i,
            decreases w - i,
        {
            if m & (1u64 << i) == 0 {
                count += 1;
            }
            i += 1;
        }
        count
    }

    /// The total number of slots, fixed by the bitmask's width.
    pub fn total_slots(&self) -> (r: u32)
        ensures
            r == self.width(),
    {
        match self.allocated {
            Atomics::Bool(_) => 1,
            Atomics::U8(_) => 8,
            Atomics::U16(_) => 16,
            Atomics::U32(_) => 32,
            Atomics::U64(_) => 64,
        }
    }
}

/// With no concurrent release, a section with `f` free slots grants exactly
/// `f` consecutive claims: each of the first `f` finds a free slot, and the
/// claim after the `f`-th fails. A fresh section (cleared mask) has `f`
/// equal to its full width.
pub proof fn lemma_section_claims_exhaust(s: Section, n: nat)
    requires
        n <= s.free_count(),
    ensures
        count_free(claim_n(s.mask(), s.width(), n), s.width()) == s.free_count() - n,
        n < s.free_count() ==> lowest_clear(claim_n(s.mask(), s.width(), n), s.width()) >= 0,
        n == s.free_count() ==> lowest_clear(claim_n(s.mask(), s.width(), n), s.width()) == -1,
{
    lemma_claims_exhaust(s.mask(), s.width(), n);
}

/// Round trip: releasing the slot that a successful claim on `s` just
/// reserved restores the mask exactly, so the free-slot count after the
/// release equals the free-slot count before the claim.
pub proof fn lemma_section_claim_release_roundtrip(s: Section)
    requires
        s.free_count() > 0,
    ensures
        clear_bit(
            claim_once(s.mask(), s.width()),
            lowest_clear(s.mask(), s.width()) as u32,
        ) == s.mask(),
        count_free(
            clear_bit(
                claim_once(s.mask(), s.width()),
                lowest_clear(s.mask(), s.width()) as u32,
            ),
            s.width(),
        ) == s.free_count(),
{
    lemma_claim_fails_iff_full(s.mask(), s.width());
    lemma_lowest_clear_range(s.mask(), s.width());
    lemma_claim_release_roundtrip(s.mask(), s.width());
}

} // verus!
