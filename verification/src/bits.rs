//! The mathematical model of a section's occupancy bitmask: which bits are
//! set, how many slots below the width are free, and which free slot a claim
//! reserves. Claims always take the lowest free index; releases clear one bit.

use vstd::prelude::*;

verus! {

/// True when bit `i` of `m` is set. Indices at or above 64 hold no bit.
pub open spec fn bit64(m: u64, i: u32) -> bool {
    i < 64 && m & (1u64 << i) != 0
}

/// The value of `m` with bit `i` set.
pub open spec fn set_bit(m: u64, i: u32) -> u64 {
    m | (1u64 << i)
}

/// The value of `m` with bit `i` cleared.
pub open spec fn clear_bit(m: u64, i: u32) -> u64 {
    m & !(1u64 << i)
}

/// How many of the bits of `m` below `w` are clear, that is, how many of the
/// `w` slots of a section with mask `m` are free.
pub open spec fn count_free(m: u64, w: u32) -> nat
    decreases w,
{
    if w == 0 {
        0
    } else {
        count_free(m, (w - 1) as u32) + if bit64(m, (w - 1) as u32) {
            0nat
        } else {
            1nat
        }
    }
}

/// The lowest clear bit of `m` at an index in `[i, w)`, or -1 if every such
/// bit is set.
pub open spec fn lowest_clear_from(m: u64, i: u32, w: u32) -> int
    decreases w - i,
{
    if i >= w {
        -1
    } else if !bit64(m, i) {
        i as int
    } else {
        lowest_clear_from(m, (i + 1) as u32, w)
    }
}

/// The index a claim on mask `m` of width `w` reserves: the lowest clear bit
/// below `w`, or -1 when the mask is saturated and the claim fails.
pub open spec fn lowest_clear(m: u64, w: u32) -> int {
    lowest_clear_from(m, 0, w)
}

/// The mask after one claim: the lowest free bit is set; a saturated mask is
/// left as it is (the claim fails).
pub open spec fn claim_once(m: u64, w: u32) -> u64 {
    if lowest_clear(m, w) >= 0 {
        set_bit(m, lowest_clear(m, w) as u32)
    } else {
        m
    }
}

/// The mask after `n` consecutive claims.
pub open spec fn claim_n(m: u64, w: u32, n: nat) -> u64
    decreases n,
{
    if n == 0 {
        m
    } else {
        claim_once(claim_n(m, w, (n - 1) as nat), w)
    }
}

/// Setting bit `i` touches no other bit.
pub proof fn lemma_set_bit(m: u64, i: u32)
    by (bit_vector)
    requires
        i < 64,
    ensures
        bit64(set_bit(m, i), i),
        forall|j: u32| j < 64 && j != i ==> bit64(set_bit(m, i), j) == bit64(m, j),
{
}

/// Clearing bit `i` touches no other bit.
pub proof fn lemma_clear_bit(m: u64, i: u32)
    by (bit_vector)
    requires
        i < 64,
    ensures
        !bit64(clear_bit(m, i), i),
        forall|j: u32| j < 64 && j != i ==> bit64(clear_bit(m, i), j) == bit64(m, j),
{
}

/// Masks that agree bit for bit below `w` have the same free count below `w`.
pub proof fn lemma_count_free_agrees(m1: u64, m2: u64, w: u32)
    requires
        forall|j: u32| j < w ==> bit64(m1, j) == bit64(m2, j),
    ensures
        count_free(m1, w) == count_free(m2, w),
    decreases w,
{
    if w > 0 {
        lemma_count_free_agrees(m1, m2, (w - 1) as u32);
    }
}

/// Setting a clear bit below the width takes exactly one slot away.
pub proof fn lemma_count_free_set(m: u64, i: u32, w: u32)
    requires
        i < w <= 64,
        !bit64(m, i),
    ensures
        count_free(set_bit(m, i), w) == count_free(m, w) - 1,
    decreases w,
{
    lemma_set_bit(m, i);
    if i == w - 1 {
        lemma_count_free_agrees(set_bit(m, i), m, (w - 1) as u32);
    } else {
        lemma_count_free_set(m, i, (w - 1) as u32);
    }
}

/// Clearing a set bit below the width gives exactly one slot back.
pub proof fn lemma_count_free_clear(m: u64, i: u32, w: u32)
    requires
        i < w <= 64,
        bit64(m, i),
    ensures
        count_free(clear_bit(m, i), w) == count_free(m, w) + 1,
    decreases w,
{
    lemma_clear_bit(m, i);
    if i == w - 1 {
        lemma_count_free_agrees(clear_bit(m, i), m, (w - 1) as u32);
    } else {
        lemma_count_free_clear(m, i, (w - 1) as u32);
    }
}

/// The lowest clear bit is either absent (-1) or an index below the width.
pub proof fn lemma_lowest_clear_range(m: u64, w: u32)
    ensures
        lowest_clear(m, w) == -1 || 0 <= lowest_clear(m, w) < w,
{
    lemma_lowest_clear_from_range(m, 0, w);
}

proof fn lemma_lowest_clear_from_range(m: u64, i: u32, w: u32)
    ensures
        lowest_clear_from(m, i, w) == -1 || i <= lowest_clear_from(m, i, w) < w,
    decreases w - i,
{
    if i < w && bit64(m, i) {
        lemma_lowest_clear_from_range(m, (i + 1) as u32, w);
    }
}

/// A claim fails exactly when every bit below the width is set.
pub proof fn lemma_lowest_clear_none(m: u64, w: u32)
    ensures
        lowest_clear(m, w) == -1 <==> forall|j: u32| j < w ==> bit64(m, j),
{
    lemma_lowest_clear_from_none(m, 0, w);
}

/// A mask has no clear bit in `[i, w)` exactly when all those bits are set.
proof fn lemma_lowest_clear_from_none(m: u64, i: u32, w: u32)
    ensures
        lowest_clear_from(m, i, w) == -1 <==> forall|j: u32| i <= j < w ==> bit64(m, j),
    decreases w - i,
{
    if i < w {
        lemma_lowest_clear_from_none(m, (i + 1) as u32, w);
    }
}

/// Every bit below `w` is set exactly when no slot is free.
proof fn lemma_count_free_zero(m: u64, w: u32)
    ensures
        count_free(m, w) == 0 <==> forall|j: u32| j < w ==> bit64(m, j),
    decreases w,
{
    if w > 0 {
        lemma_count_free_zero(m, (w - 1) as u32);
    }
}

/// A claim fails exactly when no slot is free.
pub proof fn lemma_claim_fails_iff_full(m: u64, w: u32)
    ensures
        lowest_clear(m, w) == -1 <==> count_free(m, w) == 0,
{
    lemma_lowest_clear_from_none(m, 0, w);
    lemma_count_free_zero(m, w);
}

/// What the lowest clear bit is: clear itself, with every lower bit set.
pub proof fn lemma_lowest_clear_props(m: u64, w: u32)
    requires
        lowest_clear(m, w) >= 0,
    ensures
        lowest_clear(m, w) < w,
        !bit64(m, lowest_clear(m, w) as u32),
        forall|j: u32| j < lowest_clear(m, w) ==> bit64(m, j),
{
    lemma_lowest_clear_from_props(m, 0, w);
}

proof fn lemma_lowest_clear_from_props(m: u64, i: u32, w: u32)
    requires
        lowest_clear_from(m, i, w) >= 0,
    ensures
        i <= lowest_clear_from(m, i, w) < w,
        !bit64(m, lowest_clear_from(m, i, w) as u32),
        forall|j: u32| i <= j < lowest_clear_from(m, i, w) ==> bit64(m, j),
    decreases w - i,
{
    if i < w && bit64(m, i) {
        lemma_lowest_clear_from_props(m, (i + 1) as u32, w);
    }
}

/// A clear bit below `w` whose lower bits are all set is the lowest clear bit.
pub proof fn lemma_lowest_clear_is(m: u64, w: u32, i: u32)
    requires
        i < w,
        !bit64(m, i),
        forall|j: u32| j < i ==> bit64(m, j),
    ensures
        lowest_clear(m, w) == i,
{
    lemma_lowest_clear_from_is(m, 0, w, i);
}

proof fn lemma_lowest_clear_from_is(m: u64, i0: u32, w: u32, i: u32)
    requires
        i0 <= i < w,
        !bit64(m, i),
        forall|j: u32| i0 <= j < i ==> bit64(m, j),
    ensures
        lowest_clear_from(m, i0, w) == i,
    decreases w - i0,
{
    if i0 < i {
        lemma_lowest_clear_from_is(m, (i0 + 1) as u32, w, i);
    }
}

/// A cleared mask has every one of its `w` slots free.
pub proof fn lemma_count_free_empty(w: u32)
    requires
        w <= 64,
    ensures
        count_free(0u64, w) == w,
    decreases w,
{
    if w > 0 {
        lemma_count_free_empty((w - 1) as u32);
        let j = (w - 1) as u32;
        assert(0u64 & (1u64 << j) == 0) by (bit_vector);
    }
}

/// One claim on a mask with a free slot takes exactly that slot: the free
/// count goes down by one.
pub proof fn lemma_claim_once_count(m: u64, w: u32)
    requires
        w <= 64,
        count_free(m, w) > 0,
    ensures
        count_free(claim_once(m, w), w) == count_free(m, w) - 1,
{
    lemma_claim_fails_iff_full(m, w);
    lemma_lowest_clear_range(m, w);
    lemma_lowest_clear_props(m, w);
    lemma_count_free_set(m, lowest_clear(m, w) as u32, w);
}

/// With no concurrent release, a mask of width `w` with `f` free slots grants
/// exactly `f` further claims: after `n <= f` claims, `f - n` slots are left,
/// every claim up to the `f`-th finds a free slot, and the claim after the
/// `f`-th fails.
pub proof fn lemma_claims_exhaust(m: u64, w: u32, n: nat)
    requires
        w <= 64,
        n <= count_free(m, w),
    ensures
        count_free(claim_n(m, w, n), w) == count_free(m, w) - n,
        n < count_free(m, w) ==> lowest_clear(claim_n(m, w, n), w) >= 0,
        n == count_free(m, w) ==> lowest_clear(claim_n(m, w, n), w) == -1,
    decreases n,
{
    if n > 0 {
        lemma_claims_exhaust(m, w, (n - 1) as nat);
        lemma_claim_once_count(claim_n(m, w, (n - 1) as nat), w);
    }
    lemma_claim_fails_iff_full(claim_n(m, w, n), w);
    lemma_lowest_clear_range(claim_n(m, w, n), w);
}

/// A freshly cleared mask of width `w` admits exactly `w` consecutive claims,
/// and the claim after those fails.
pub proof fn lemma_fresh_mask_claims(w: u32, n: nat)
    requires
        w <= 64,
    ensures
        n < w ==> lowest_clear(claim_n(0u64, w, n), w) >= 0,
        lowest_clear(claim_n(0u64, w, w as nat), w) == -1,
{
    lemma_count_free_empty(w);
    if n < w {
        lemma_claims_exhaust(0u64, w, n);
    }
    lemma_claims_exhaust(0u64, w, w as nat);
}

/// Round trip: releasing the slot that a successful claim just reserved
/// restores the mask exactly, and with it the free-slot count.
pub proof fn lemma_claim_release_roundtrip(m: u64, w: u32)
    requires
        w <= 64,
        lowest_clear(m, w) >= 0,
    ensures
        clear_bit(claim_once(m, w), lowest_clear(m, w) as u32) == m,
        count_free(clear_bit(claim_once(m, w), lowest_clear(m, w) as u32), w) == count_free(m, w),
{
    lemma_lowest_clear_props(m, w);
    let i = lowest_clear(m, w) as u32;
    assert((m | (1u64 << i)) & !(1u64 << i) == m) by (bit_vector)
        requires
            i < 64,
            m & (1u64 << i) == 0,
    ;
}

} // verus!
