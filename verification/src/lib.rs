//! A slab allocator that partitions a caller-supplied byte buffer into
//! fixed-size-class sections, each tracking its slots with a bitmask. The
//! allocator hands out byte ranges of the buffer (as offset pairs) and takes
//! them back; every operation is specified against the bitmask model in
//! [`bits`] and the per-size-class state machine in [`section`].

use vstd::prelude::*;

pub mod bits;
pub mod section;

pub use section::Atomics;
pub use section::InvalidSlot;
pub use section::Section;
pub use section::SectionFull;

use crate::bits::bit64;
use crate::bits::claim_once;
use crate::bits::clear_bit;
use crate::bits::lowest_clear;
use vstd::arithmetic::div_mod::lemma_multiply_divide_lt;
use vstd::arithmetic::mul::lemma_mul_inequality;
use vstd::arithmetic::mul::lemma_mul_is_commutative;
use vstd::arithmetic::mul::lemma_mul_is_distributive_add;
use vstd::arithmetic::mul::lemma_mul_nonnegative;

verus! {

/// Error returned during creation of a [`SlabAllocator`] if the buffer
/// passed is too small for the sections declared.
#[derive(Debug, Clone, Copy)]
pub struct BufTooSmall;

/// Error of an allocation request that no section can serve: every section
/// is either too small for the padded size or out of free slots.
#[derive(Debug, Clone, Copy)]
pub struct NoFit;

/// The bytes a section needs from the buffer: one slot for each bit of its
/// mask.
pub open spec fn section_bytes(s: Section) -> int {
    s.slot_size() * s.width()
}

/// The bytes the first `k` sections take together; section `k` 's slice
/// starts at this offset.
pub open spec fn prefix_bytes(secs: Seq<Section>, k: int) -> int
    decreases k,
{
    if k <= 0 {
        0
    } else {
        prefix_bytes(secs, k - 1) + section_bytes(secs[k - 1])
    }
}

/// Whether a section can serve a request of `p` padded bytes: its slots are
/// large enough and one of them is free.
pub open spec fn fits(s: Section, p: int) -> bool {
    s.slot_size() >= p && s.free_count() > 0
}

/// The first section, scanning from index `k` in declaration order, that can
/// serve `p` padded bytes; -1 if none can.
pub open spec fn find_fit_from(secs: Seq<Section>, p: int, k: int) -> int
    decreases secs.len() - k,
{
    if k < 0 || k >= secs.len() {
        -1
    } else if fits(secs[k], p) {
        k
    } else {
        find_fit_from(secs, p, k + 1)
    }
}

/// The first section in declaration order that can serve `p` padded bytes,
/// or -1 if none can: first fit, not best fit.
pub open spec fn find_fit(secs: Seq<Section>, p: int) -> int {
    find_fit_from(secs, p, 0)
}

/// The requested size rounded up to the next multiple of the alignment.
pub open spec fn padded_size(size: int, align: int) -> int {
    if size % align == 0 {
        size
    } else {
        (size / align + 1) * align
    }
}

/// A section never needs a negative number of bytes.
pub proof fn lemma_section_bytes_nonneg(s: Section)
    ensures
        section_bytes(s) >= 0,
{
    lemma_mul_nonnegative(s.slot_size() as int, s.width() as int);
}

/// Prefix sums of section byte requirements grow with the prefix.
pub proof fn lemma_prefix_bytes_mono(secs: Seq<Section>, a: int, b: int)
    requires
        0 <= a <= b,
    ensures
        prefix_bytes(secs, a) <= prefix_bytes(secs, b),
    decreases b - a,
{
    if a < b {
        lemma_prefix_bytes_mono(secs, a, b - 1);
        lemma_section_bytes_nonneg(secs[b - 1]);
    }
}

/// Prefix sums depend only on the sections' slot sizes and widths, not on
/// their occupancy.
proof fn lemma_prefix_bytes_congruent(a: Seq<Section>, b: Seq<Section>, k: int)
    requires
        a.len() == b.len(),
        forall|j: int|
            0 <= j < a.len() ==> (#[trigger] a[j]).slot_size() == b[j].slot_size() && a[j].width()
                == b[j].width(),
        k <= a.len(),
    ensures
        prefix_bytes(a, k) == prefix_bytes(b, k),
    decreases k,
{
    if k > 0 {
        lemma_prefix_bytes_congruent(a, b, k - 1);
    }
}

/// The scan comes back empty exactly when no section can serve the request.
pub proof fn lemma_find_fit_none(secs: Seq<Section>, p: int)
    ensures
        find_fit(secs, p) == -1 <==> forall|j: int| 0 <= j < secs.len() ==> !fits(
            #[trigger] secs[j],
            p,
        ),
{
    lemma_find_fit_from_none(secs, p, 0);
}

proof fn lemma_find_fit_from_none(secs: Seq<Section>, p: int, k: int)
    requires
        k >= 0,
    ensures
        find_fit_from(secs, p, k) == -1 <==> forall|j: int| k <= j < secs.len() ==> !fits(
            #[trigger] secs[j],
            p,
        ),
    decreases secs.len() - k,
{
    if k < secs.len() {
        lemma_find_fit_from_none(secs, p, k + 1);
    }
}

/// A section that can serve the request, with none before it able to, is
/// the one the scan settles on.
pub proof fn lemma_find_fit_is(secs: Seq<Section>, p: int, k: int)
    requires
        0 <= k < secs.len(),
        fits(secs[k], p),
        forall|j: int| 0 <= j < k ==> !fits(#[trigger] secs[j], p),
    ensures
        find_fit(secs, p) == k,
{
    lemma_find_fit_from_is(secs, p, 0, k);
}

proof fn lemma_find_fit_from_is(secs: Seq<Section>, p: int, k0: int, k: int)
    requires
        0 <= k0 <= k < secs.len(),
        fits(secs[k], p),
        forall|j: int| k0 <= j < k ==> !fits(#[trigger] secs[j], p),
    ensures
        find_fit_from(secs, p, k0) == k,
    decreases k - k0,
{
    if k0 < k {
        lemma_find_fit_from_is(secs, p, k0 + 1, k);
    }
}

/// The requested size rounded up to the next multiple of the alignment, or
/// `None` when the rounded size does not fit a `usize` (and so fits no
/// section either).
fn padded_request(size: usize, align: usize) -> (r: Option<usize>)
    requires
        align >= 1,
    ensures
        match r {
            Some(p) => p as int == padded_size(size as int, align as int),
            None => padded_size(size as int, align as int) > usize::MAX,
        },
{
    if size % align == 0 {
        return Some(size);
    }
    let q = size / align;
    if q == usize::MAX {
        proof {
            lemma_mul_inequality(1, align as int, usize::MAX as int + 1);
            lemma_mul_is_commutative(usize::MAX as int + 1, align as int);
        }
        return None;
    }
    match (q + 1).checked_mul(align) {
        Some(p) => Some(p),
        None => None,
    }
}

/// The main struct which encapsulates the allocator: the sections in
/// declaration order, and for each the offset where its slice of the backing
/// buffer begins. The slices partition a prefix of the buffer with no gaps
/// and no overlaps; the buffer itself stays with the caller, and the
/// allocator only ever speaks of offsets into it.
pub struct SlabAllocator {
    pub(crate) blocks: Vec<Section>,
    pub(crate) starts: Vec<usize>,
    pub(crate) buf_len: usize,
}

impl SlabAllocator {
    /// The sections, in declaration order.
    pub closed spec fn sections(self) -> Seq<Section> {
        self.blocks@
    }

    /// The offset of section `k` 's slice in the backing buffer.
    pub closed spec fn section_start(self, k: int) -> int {
        self.starts@[k] as int
    }

    /// The length of the backing buffer the allocator was built over.
    pub closed spec fn buffer_len(self) -> int {
        self.buf_len as int
    }

    /// Well-formed: each section's slice starts where the previous one ends,
    /// beginning at offset zero, and the whole partition fits the buffer.
    pub closed spec fn wf(self) -> bool {
        &&& self.starts@.len() == self.blocks@.len()
        &&& forall|k: int|
            0 <= k < self.blocks@.len() ==> #[trigger] self.starts@[k] as int == prefix_bytes(
                self.blocks@,
                k,
            )
        &&& prefix_bytes(self.blocks@, self.blocks@.len() as int) <= self.buf_len
    }

    /// Constructor: walks the sections in declaration order, carving each
    /// one's bytes off the front of what is left of `buf`, and fails with
    /// `BufTooSmall` at the first section whose requirement exceeds what is
    /// left. Because no requirement is negative, this order-sensitive walk
    /// succeeds exactly when the buffer holds the bytes the sections need
    /// together, which is what the contract states.
    pub fn new(blocks: Vec<Section>, buf: &[u8]) -> (r: Result<SlabAllocator, BufTooSmall>)
        ensures
            match r {
                Ok(a) => {
                    &&& prefix_bytes(blocks@, blocks@.len() as int) <= buf@.len()
                    &&& a.wf()
                    &&& a.sections() == blocks@
                    &&& a.buffer_len() == buf@.len()
                    &&& forall|k: int|
                        0 <= k < blocks@.len() ==> #[trigger] a.section_start(k) == prefix_bytes(
                            blocks@,
                            k,
                        )
                },
                Err(_) => prefix_bytes(blocks@, blocks@.len() as int) > buf@.len(),
            },
    {
        let buf_len = buf.len();
        let n = blocks.len();
        let mut starts: Vec<usize> = Vec::new();
        let mut offset: usize = 0;
        let mut k: usize = 0;
        while k < n
            invariant
                k <= n,
                n == blocks@.len(),
                starts@.len() == k,
                forall|j: int|
                    0 <= j < k ==> #[trigger] starts@[j] as int == prefix_bytes(blocks@, j),
                offset as int == prefix_bytes(blocks@, k as int),
                offset <= buf_len,
                buf_len == buf@.len(),
            decreases n - k,
        {
            let sec = blocks[k];
            let w = sec.total_slots();
            let required = match sec.size.checked_mul(w as usize) {
                Some(v) => v,
                None => {
                    proof {
                        assert(section_bytes(blocks@[k as int]) > usize::MAX);
                        lemma_prefix_bytes_mono(blocks@, k as int + 1, n as int);
                    }
                    return Err(BufTooSmall);
                },
            };
            if required > buf_len - offset {
                proof {
                    lemma_prefix_bytes_mono(blocks@, k as int + 1, n as int);
                }
                return Err(BufTooSmall);
            }
            starts.push(offset);
            offset = offset + required;
            k = k + 1;
        }
        Ok(SlabAllocator { blocks, starts, buf_len })
    }

    /// How many sections the allocator manages.
    pub fn section_count(&self) -> (n: usize)
        ensures
            n == self.sections().len(),
    {
        self.blocks.len()
    }

    /// The section at index `k`, for occupancy reporting.
    pub fn section(&self, k: usize) -> (s: &Section)
        requires
            k < self.sections().len(),
        ensures
            *s == self.sections()[k as int],
    {
        &self.blocks[k]
    }

    /// Serve a request of `size` bytes with alignment `align`: pad the size
    /// up to the alignment, scan the sections in declaration order for the
    /// first whose slots are large enough and not all taken, claim that
    /// section's lowest free slot, and return the byte range
    /// `[start, start + slot size)` of the slot within the backing buffer.
    /// Fails with `NoFit`, changing nothing, exactly when no section both
    /// fits the padded size and has a free slot.
    pub fn allocate(&mut self, size: usize, align: usize) -> (r: Result<(usize, usize), NoFit>)
        requires
            old(self).wf(),
            align >= 1,
        ensures
            final(self).wf(),
            ({
                let p = padded_size(size as int, align as int);
                let k = find_fit(old(self).sections(), p);
                match r {
                    Ok(range) => {
                        let sec = old(self).sections()[k];
                        let i = lowest_clear(sec.mask(), sec.width());
                        &&& 0 <= k < old(self).sections().len()
                        &&& fits(sec, p)
                        &&& forall|j: int|
                            0 <= j < k ==> !fits(#[trigger] old(self).sections()[j], p)
                        &&& 0 <= i < sec.width()
                        &&& range.0 == old(self).section_start(k) + i * sec.slot_size()
                        &&& range.1 == range.0 + sec.slot_size()
                        &&& range.1 <= old(self).buffer_len()
                        &&& final(self).sections().len() == old(self).sections().len()
                        &&& final(self).sections()[k].slot_size() == sec.slot_size()
                        &&& final(self).sections()[k].width() == sec.width()
                        &&& final(self).sections()[k].mask() == claim_once(sec.mask(), sec.width())
                        &&& final(self).sections()[k].free_count() == sec.free_count() - 1
                        &&& forall|j: int|
                            0 <= j < old(self).sections().len() && j != k
                                ==> final(self).sections()[j] == old(self).sections()[j]
                    },
                    Err(_) => {
                        &&& k == -1
                        &&& final(self).sections() == old(self).sections()
                    },
                }
            }),
            final(self).sections().len() == old(self).sections().len(),
            forall|j: int|
                0 <= j < old(self).sections().len() ==> #[trigger] final(self).section_start(j)
                    == old(self).section_start(j),
            final(self).buffer_len() == old(self).buffer_len(),
    {
        let ghost p_spec = padded_size(size as int, align as int);
        // Pad the size up to the alignment; a padded size beyond what a
        // usize can hold fits no section either.
        let p = match padded_request(size, align) {
            Some(p) => p,
            None => {
                proof {
                    assert forall|j: int| 0 <= j < old(self).sections().len() implies !fits(
                        #[trigger] old(self).sections()[j],
                        p_spec,
                    ) by {
                        assert(old(self).sections()[j].slot_size() <= usize::MAX);
                    }
                    lemma_find_fit_none(old(self).sections(), p_spec);
                }
                return Err(NoFit);
            },
        };
        let n = self.blocks.len();
        let mut k: usize = 0;
        while k < n
            invariant
                k <= n,
                n == self.sections().len(),
                self == old(self),
                self.wf(),
                align >= 1,
                p as int == padded_size(size as int, align as int),
                forall|j: int| 0 <= j < k ==> !fits(#[trigger] self.sections()[j], p as int),
            decreases n - k,
        {
            let fits_here = self.blocks[k].size >= p && self.blocks[k].free_slots() > 0;
            if fits_here {
                proof {
                    lemma_find_fit_is(self.sections(), p as int, k as int);
                }
                let sec_size = self.blocks[k].size;
                let start = self.starts[k];
                let secref = &mut self.blocks[k];
                let ghost old_sec = *secref;
                let idx = match secref.allocate() {
                    Ok(i) => i,
                    Err(_) => {
                        proof {
                            assert(false);
                        }
                        0
                    },
                };
                proof {
                    let ghost gk = k as int;
                    let secs_old = old(self).sections();
                    let secs_new = self.sections();
                    assert(secs_new == secs_old.update(gk, secs_new[gk]));
                    assert forall|j: int| 0 <= j <= secs_old.len() implies #[trigger] prefix_bytes(
                        secs_new,
                        j,
                    ) == prefix_bytes(secs_old, j) by {
                        lemma_prefix_bytes_congruent(secs_new, secs_old, j);
                    }
                    // The claimed slot's bytes lie inside section k's slice.
                    lemma_prefix_bytes_mono(secs_old, 0, gk);
                    lemma_prefix_bytes_mono(secs_old, gk + 1, secs_old.len() as int);
                    let ss = old_sec.slot_size() as int;
                    let ww = old_sec.width() as int;
                    let ii = idx as int;
                    lemma_mul_inequality(ii + 1, ww, ss);
                    lemma_mul_is_commutative(ii + 1, ss);
                    lemma_mul_is_distributive_add(ss, ii, 1);
                    lemma_mul_is_commutative(ss, ii);
                    lemma_mul_is_commutative(ww, ss);
                    lemma_mul_nonnegative(ii, ss);
                }
                let addr = start + idx as usize * sec_size;
                return Ok((addr, addr + sec_size));
            }
            k = k + 1;
        }
        proof {
            lemma_find_fit_none(self.sections(), p as int);
        }
        Err(NoFit)
    }

    /// Give the slot that owns `address` back: find the section whose slice
    /// contains the address, derive the slot index from the byte offset, and
    /// clear its bit. Fails with `InvalidSlot`, changing nothing, exactly
    /// when no section's slice contains the address or the slot's bit is
    /// already clear (a foreign address, or a double free).
    pub fn deallocate(&mut self, address: usize) -> (r: Result<(), InvalidSlot>)
        requires
            old(self).wf(),
        ensures
            final(self).wf(),
            ({
                let k = old(self).owner(address as int);
                match r {
                    Ok(_) => {
                        let sec = old(self).sections()[k];
                        let i = (address - old(self).section_start(k)) / sec.slot_size() as int;
                        &&& 0 <= k < old(self).sections().len()
                        &&& 0 <= i < sec.width()
                        &&& bit64(sec.mask(), i as u32)
                        &&& final(self).sections().len() == old(self).sections().len()
                        &&& final(self).sections()[k].slot_size() == sec.slot_size()
                        &&& final(self).sections()[k].width() == sec.width()
                        &&& final(self).sections()[k].mask() == clear_bit(sec.mask(), i as u32)
                        &&& final(self).sections()[k].free_count() == sec.free_count() + 1
                        &&& forall|j: int|
                            0 <= j < old(self).sections().len() && j != k
                                ==> final(self).sections()[j] == old(self).sections()[j]
                    },
                    Err(_) => {
                        &&& final(self).sections() == old(self).sections()
                        &&& (k == -1 || !bit64(
                            old(self).sections()[k].mask(),
                            ((address - old(self).section_start(k))
                                / old(self).sections()[k].slot_size() as int) as u32,
                        ))
                    },
                }
            }),
            final(self).sections().len() == old(self).sections().len(),
            forall|j: int|
                0 <= j < old(self).sections().len() ==> #[trigger] final(self).section_start(j)
                    == old(self).section_start(j),
            final(self).buffer_len() == old(self).buffer_len(),
    {
        let n = self.blocks.len();
        let mut k: usize = 0;
        while k < n
            invariant
                k <= n,
                n == self.sections().len(),
                self == old(self),
                self.wf(),
                forall|j: int| 0 <= j < k ==> !self.contains_address(j, address as int),
            decreases n - k,
        {
            let start = self.starts[k];
            let sec = self.blocks[k];
            let w = sec.total_slots();
            proof {
                lemma_prefix_bytes_mono(self.sections(), 0, k as int);
                lemma_prefix_bytes_mono(self.sections(), k as int + 1, n as int);
                lemma_mul_nonnegative(sec.slot_size() as int, sec.width() as int);
            }
            let bytes = sec.size * (w as usize);
            if start <= address && address - start < bytes {
                proof {
                    self.lemma_owner_is(address as int, k as int);
                }
                let off = address - start;
                proof {
                    if sec.slot_size() == 0 {
                        assert(section_bytes(self.sections()[k as int]) == 0);
                    }
                    lemma_multiply_divide_lt(off as int, sec.slot_size() as int, sec.width() as int);
                }
                let i = (off / sec.size) as u32;
                let secref = &mut self.blocks[k];
                let res = secref.deallocate(i);
                proof {
                    let gk = k as int;
                    let secs_old = old(self).sections();
                    let secs_new = self.sections();
                    assert(secs_new == secs_old.update(gk, secs_new[gk]));
                    assert forall|j: int| 0 <= j <= secs_old.len() implies #[trigger] prefix_bytes(
                        secs_new,
                        j,
                    ) == prefix_bytes(secs_old, j) by {
                        lemma_prefix_bytes_congruent(secs_new, secs_old, j);
                    }
                    if res is Err {
                        assert(secs_new =~= secs_old);
                    }
                }
                return match res {
                    Ok(_) => Ok(()),
                    Err(e) => Err(e),
                };
            }
            k = k + 1;
        }
        proof {
            self.lemma_owner_none(address as int);
        }
        Err(InvalidSlot)
    }

    /// Whether section `k` 's slice of the buffer contains the byte at
    /// `address`.
    pub open spec fn contains_address(self, k: int, address: int) -> bool {
        self.section_start(k) <= address < self.section_start(k) + section_bytes(
            self.sections()[k],
        )
    }

    /// The section whose slice contains `address`, scanning from `k` in
    /// declaration order; -1 if none does.
    pub open spec fn owner_from(self, address: int, k: int) -> int
        decreases self.sections().len() - k,
    {
        if k < 0 || k >= self.sections().len() {
            -1
        } else if self.contains_address(k, address) {
            k
        } else {
            self.owner_from(address, k + 1)
        }
    }

    /// The section whose slice contains `address`, or -1 if none does.
    pub open spec fn owner(self, address: int) -> int {
        self.owner_from(address, 0)
    }

    proof fn lemma_owner_is(self, address: int, k: int)
        requires
            0 <= k < self.sections().len(),
            self.contains_address(k, address),
            forall|j: int| 0 <= j < k ==> !self.contains_address(j, address),
        ensures
            self.owner(address) == k,
    {
        self.lemma_owner_from_is(address, 0, k);
    }

    proof fn lemma_owner_from_is(self, address: int, k0: int, k: int)
        requires
            0 <= k0 <= k < self.sections().len(),
            self.contains_address(k, address),
            forall|j: int| k0 <= j < k ==> !self.contains_address(j, address),
        ensures
            self.owner_from(address, k0) == k,
        decreases k - k0,
    {
        if k0 < k {
            self.lemma_owner_from_is(address, k0 + 1, k);
        }
    }

    proof fn lemma_owner_none(self, address: int)
        requires
            forall|j: int| 0 <= j < self.sections().len() ==> !self.contains_address(j, address),
        ensures
            self.owner(address) == -1,
    {
        self.lemma_owner_from_none(address, 0);
    }

    proof fn lemma_owner_from_none(self, address: int, k: int)
        requires
            k >= 0,
            forall|j: int| k <= j < self.sections().len() ==> !self.contains_address(j, address),
        ensures
            self.owner_from(address, k) == -1,
        decreases self.sections().len() - k,
    {
        if k < self.sections().len() {
            self.lemma_owner_from_none(address, k + 1);
        }
    }
}

} // verus!
