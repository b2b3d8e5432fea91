use vstd::prelude::*;

verus! {

/// The mask owned by the component type at registration position `i`: the
/// single bit at position `i`.
pub open spec fn bit_mask(i: int) -> u128 {
    1u128 << i
}

/// Whether bit `i` is set in the bitmask `m`.
pub open spec fn mask_has(m: u128, i: int) -> bool {
    m & bit_mask(i) != 0
}

/// An entity bitmask `m` satisfies a query mask `q` when every bit of `q` is
/// also set in `m`: the entity owns all requested component types.
pub open spec fn entity_matches(m: u128, q: u128) -> bool {
    m & q == q
}

/// For a single-bit mask, the submask test and the bit test agree.
pub proof fn lemma_single_bit_test(m: u128, i: int)
    requires
        0 <= i < 128,
    ensures
        (m & bit_mask(i) == bit_mask(i)) <==> mask_has(m, i),
        entity_matches(m, bit_mask(i)) <==> mask_has(m, i),
{
    let iu = i as u128;
    assert(iu < 128 ==> ((m & (1u128 << iu) == (1u128 << iu)) <==> (m & (1u128 << iu) != 0)))
        by (bit_vector);
}

/// Component masks are non-zero, and distinct registration positions give
/// distinct masks: each registered type owns its own bit.
pub proof fn lemma_masks_distinct(i: int, j: int)
    requires
        0 <= i < 128,
        0 <= j < 128,
    ensures
        bit_mask(i) != 0,
        i != j ==> bit_mask(i) != bit_mask(j),
{
    let iu = i as u128;
    let ju = j as u128;
    assert(iu < 128 ==> (1u128 << iu) != 0) by (bit_vector);
    assert(iu < 128 && ju < 128 && iu != ju ==> (1u128 << iu) != (1u128 << ju)) by (bit_vector);
}

/// Setting bit `i` leaves exactly the bits of `m` plus bit `i` set.
pub proof fn lemma_or_bit(m: u128, i: int, j: int)
    requires
        0 <= i < 128,
        0 <= j < 128,
    ensures
        mask_has(m | bit_mask(i), j) <==> (mask_has(m, j) || i == j),
{
    let iu = i as u128;
    let ju = j as u128;
    assert(iu < 128 && ju < 128 ==> (((m | (1u128 << iu)) & (1u128 << ju) != 0) <==> ((m & (1u128
        << ju) != 0) || iu == ju))) by (bit_vector);
}

/// Setting a bit that is already set leaves the mask unchanged.
pub proof fn lemma_or_absorb(m: u128, i: int)
    requires
        0 <= i < 128,
        mask_has(m, i),
    ensures
        m | bit_mask(i) == m,
{
    let iu = i as u128;
    assert(iu < 128 && m & (1u128 << iu) != 0 ==> (m | (1u128 << iu)) == m) by (bit_vector);
}

/// Clearing bit `i` leaves exactly the bits of `m` other than bit `i` set.
pub proof fn lemma_clear_bit(m: u128, i: int, j: int)
    requires
        0 <= i < 128,
        0 <= j < 128,
    ensures
        mask_has(m & !bit_mask(i), j) <==> (mask_has(m, j) && i != j),
{
    let iu = i as u128;
    let ju = j as u128;
    assert(iu < 128 && ju < 128 ==> (((m & !(1u128 << iu)) & (1u128 << ju) != 0) <==> ((m & (1u128
        << ju) != 0) && iu != ju))) by (bit_vector);
}

/// Toggling a set bit is the same as clearing it, and clearing an unset bit
/// does nothing.
pub proof fn lemma_detach_mask(m: u128, i: int)
    requires
        0 <= i < 128,
    ensures
        mask_has(m, i) ==> m ^ bit_mask(i) == m & !bit_mask(i),
        !mask_has(m, i) ==> m & !bit_mask(i) == m,
{
    let iu = i as u128;
    assert(iu < 128 && m & (1u128 << iu) != 0 ==> (m ^ (1u128 << iu)) == (m & !(1u128 << iu)))
        by (bit_vector);
    assert(iu < 128 && m & (1u128 << iu) == 0 ==> (m & !(1u128 << iu)) == m) by (bit_vector);
}

/// The all-zero bitmask has no bit set: a fresh or removed entity owns no
/// component at all.
pub proof fn lemma_zero_mask(j: int)
    requires
        0 <= j < 128,
    ensures
        !mask_has(0, j),
{
    let ju = j as u128;
    assert(ju < 128 ==> 0u128 & (1u128 << ju) == 0) by (bit_vector);
}

/// A matching entity has every bit of the query mask set.
pub proof fn lemma_matches_bit(m: u128, q: u128, i: int)
    requires
        0 <= i < 128,
        entity_matches(m, q),
        mask_has(q, i),
    ensures
        mask_has(m, i),
{
    let iu = i as u128;
    assert(iu < 128 && m & q == q && q & (1u128 << iu) != 0 ==> m & (1u128 << iu) != 0)
        by (bit_vector);
}

/// Matching the union of two query masks is matching both.
pub proof fn lemma_matches_or(m: u128, q1: u128, q2: u128)
    ensures
        entity_matches(m, q1 | q2) <==> (entity_matches(m, q1) && entity_matches(m, q2)),
{
    assert((m & (q1 | q2) == (q1 | q2)) <==> (m & q1 == q1 && m & q2 == q2)) by (bit_vector);
}

/// Every entity matches the empty query mask.
pub proof fn lemma_matches_empty(m: u128)
    ensures
        entity_matches(m, 0),
{
    assert(m & 0 == 0) by (bit_vector);
}

/// A query mask grown by one more bit still has every bit it had before,
/// and has the new bit.
pub proof fn lemma_grow_query_mask(q: u128, i: int, j: int)
    requires
        0 <= i < 128,
        0 <= j < 128,
    ensures
        mask_has(q, j) ==> mask_has(q | bit_mask(i), j),
        mask_has(q | bit_mask(i), i),
{
    lemma_or_bit(q, i, j);
    lemma_or_bit(q, i, i);
}

/// Clearing one component's bit decides query membership: a query mask that
/// requires the cleared bit no longer matches, while a query mask without it
/// matches exactly as before.
pub proof fn lemma_clear_bit_queries(m: u128, i: int, q: u128)
    requires
        0 <= i < 128,
    ensures
        mask_has(q, i) ==> !entity_matches(m & !bit_mask(i), q),
        !mask_has(q, i) ==> (entity_matches(m & !bit_mask(i), q) <==> entity_matches(m, q)),
{
    let iu = i as u128;
    assert(iu < 128 && q & (1u128 << iu) != 0 ==> (m & !(1u128 << iu)) & q != q) by (bit_vector);
    assert(iu < 128 && q & (1u128 << iu) == 0 ==> (((m & !(1u128 << iu)) & q == q) <==> (m & q
        == q))) by (bit_vector);
}

} // verus!
