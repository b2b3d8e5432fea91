use vstd::prelude::*;

use crate::bits::bit_mask;
use crate::bits::entity_matches;
use crate::bits::lemma_clear_bit;
use crate::bits::lemma_clear_bit_queries;
use crate::bits::lemma_masks_distinct;
use crate::bits::lemma_or_bit;
use crate::bits::lemma_zero_mask;
use crate::bits::mask_has;

verus! {

/// No key occurs twice in `s`: component type keys are never reused across
/// types, so a key identifies at most one registration position.
pub open spec fn distinct_keys(s: Seq<u64>) -> bool {
    forall|i: int, j: int| 0 <= i < j < s.len() ==> s[i] != s[j]
}

/// With distinct keys, `index_of` returns the one position that holds `key`.
pub proof fn lemma_key_position(s: Seq<u64>, i: int, key: u64)
    requires
        distinct_keys(s),
        0 <= i < s.len(),
        s[i] == key,
    ensures
        s.contains(key),
        s.index_of(key) == i,
{
    assert(s.contains(key));
    let j = s.index_of(key);
    assert(0 <= j < s.len() && s[j] == key);
}

/// The mathematical state of an entity/component store.
///
/// `registered` lists the component type keys in registration order; the type
/// at position `i` owns mask bit `i` and the slot row `slots[i]`. `masks`
/// holds one bitmask per entity, and `slots[i][e]` is the slot of entity `e`
/// for the type at position `i`. `cursor` and `free` model entity
/// construction and slot reuse: `cursor == 0` means the entity being built is
/// the most recently appended one, any other value names a reclaimed index.
#[verifier::ext_equal]
#[verifier::reject_recursive_types(T)]
pub struct WorldModel<T> {
    pub registered: Seq<u64>,
    pub slots: Seq<Seq<Option<T>>>,
    pub masks: Seq<u128>,
    pub cursor: usize,
    pub free: Seq<usize>,
}

impl<T> WorldModel<T> {
    /// How many component types are registered.
    pub open spec fn n_types(self) -> int {
        self.registered.len() as int
    }

    /// How many entity slots the table holds, live or removed.
    pub open spec fn n_entities(self) -> int {
        self.masks.len() as int
    }

    /// Whether `key` was registered.
    pub open spec fn is_registered(self, key: u64) -> bool {
        self.registered.contains(key)
    }

    /// The registration position of `key`.
    pub open spec fn key_index(self, key: u64) -> int {
        self.registered.index_of(key)
    }

    /// The mask bit owned by the type registered under `key`.
    pub open spec fn mask_of(self, key: u64) -> u128 {
        bit_mask(self.key_index(key))
    }

    /// The slot of entity `e` for the type registered under `key`.
    pub open spec fn slot_of(self, key: u64, e: int) -> Option<T> {
        self.slots[self.key_index(key)][e]
    }

    /// The index of the entity currently under construction.
    pub open spec fn current(self) -> int {
        if self.cursor != 0 {
            self.cursor as int
        } else {
            self.n_entities() - 1
        }
    }

    /// Well-formedness: the bijection between mask bits and registered types,
    /// index-aligned slot rows, a valid construction cursor, a free list of
    /// reclaimable (never index 0, never out-of-range) entity indices, and
    /// the central storage invariant: a set mask bit marks a filled slot.
    pub open spec fn wf(self) -> bool {
        &&& self.registered.len() <= 128
        &&& distinct_keys(self.registered)
        &&& self.slots.len() == self.registered.len()
        &&& (forall|i: int|
            0 <= i < self.slots.len() ==> (#[trigger] self.slots[i]).len() == self.masks.len())
        &&& (self.cursor == 0 || self.cursor < self.masks.len())
        &&& (forall|f: int|
            0 <= f < self.free.len() ==> 0 < #[trigger] self.free[f] && self.free[f]
                < self.masks.len())
        &&& (forall|e: int, i: int|
            0 <= e < self.masks.len() && 0 <= i < self.slots.len() && #[trigger] mask_has(
                self.masks[e],
                i,
            ) ==> self.slots[i][e] is Some)
        &&& (forall|e: int, i: int|
            0 <= e < self.masks.len() && self.slots.len() <= i < 128 ==> !#[trigger] mask_has(
                self.masks[e],
                i,
            ))
    }

    /// Registration: the key is appended, its mask bit is the next free one,
    /// and it receives an empty, entity-index-aligned slot row.
    pub open spec fn register(self, key: u64) -> WorldModel<T> {
        WorldModel {
            registered: self.registered.push(key),
            slots: self.slots.push(Seq::new(self.masks.len(), |e: int| None)),
            ..self
        }
    }

    /// Entity creation: a non-empty free list yields its most recently freed
    /// index, whose bitmask is reset to zero while its stale slots stay in
    /// place; otherwise a fresh zero-bitmask entry is appended to the table
    /// and one empty slot to every type's row. Index 0 never enters the free
    /// list, so a cursor of 0 always means "the appended entity".
    pub open spec fn create(self) -> WorldModel<T> {
        if self.free.len() > 0 {
            WorldModel {
                cursor: self.free.last(),
                free: self.free.drop_last(),
                masks: self.masks.update(self.free.last() as int, 0),
                ..self
            }
        } else {
            WorldModel {
                cursor: 0,
                masks: self.masks.push(0),
                slots: Seq::new(self.slots.len(), |i: int| self.slots[i].push(None)),
                ..self
            }
        }
    }

    /// Attachment: the slot of entity `e` for `key`'s type is overwritten
    /// with `data` and the type's bit is set in the entity's bitmask.
    pub open spec fn attach_at(self, key: u64, data: T, e: int) -> WorldModel<T> {
        let i = self.key_index(key);
        WorldModel {
            masks: self.masks.update(e, self.masks[e] | self.mask_of(key)),
            slots: self.slots.update(i, self.slots[i].update(e, Some(data))),
            ..self
        }
    }

    /// Attachment to the entity currently under construction.
    pub open spec fn attach(self, key: u64, data: T) -> WorldModel<T> {
        self.attach_at(key, data, self.current())
    }

    /// Detachment: the type's bit is cleared from the entity's bitmask. The
    /// slot itself keeps its stale value until the next attachment.
    pub open spec fn detach(self, key: u64, e: int) -> WorldModel<T> {
        WorldModel {
            masks: self.masks.update(e, self.masks[e] & !self.mask_of(key)),
            ..self
        }
    }

    /// Entity removal: the bitmask is zeroed and the index becomes
    /// reclaimable, except for the reserved sentinel index 0.
    pub open spec fn remove_entity(self, e: int) -> WorldModel<T> {
        WorldModel {
            masks: self.masks.update(e, 0),
            free: if e != 0 {
                self.free.push(e as usize)
            } else {
                self.free
            },
            ..self
        }
    }
}

/// Registration preserves well-formedness and assigns the next mask bit.
pub proof fn lemma_register_wf<T>(m: WorldModel<T>, key: u64)
    requires
        m.wf(),
        !m.is_registered(key),
        m.n_types() < 128,
    ensures
        m.register(key).wf(),
        m.register(key).is_registered(key),
        m.register(key).key_index(key) == m.n_types(),
        m.register(key).n_entities() == m.n_entities(),
{
    let m2 = m.register(key);
    assert forall|i: int, j: int| 0 <= i < j < m2.registered.len() implies m2.registered[i]
        != m2.registered[j] by {
        if j < m.registered.len() {
        } else {
            assert(m.registered[i] != key) by {
                if m.registered[i] == key {
                    assert(m.registered.contains(key));
                }
            }
        }
    }
    lemma_key_position(m2.registered, m.registered.len() as int, key);
    assert forall|e: int, i: int|
        0 <= e < m2.masks.len() && 0 <= i < m2.slots.len() && #[trigger] mask_has(
        m2.masks[e],
        i,
    ) implies m2.slots[i][e] is Some by {
        assert(m2.masks[e] == m.masks[e]);
        if i < m.slots.len() {
            assert(m.slots[i][e] is Some);
        } else {
            assert(!mask_has(m.masks[e], i));
        }
    }
}

/// Entity creation preserves well-formedness; the entity under construction
/// is in range and starts with the all-zero bitmask.
pub proof fn lemma_create_wf<T>(m: WorldModel<T>)
    requires
        m.wf(),
    ensures
        m.create().wf(),
        m.create().registered == m.registered,
        m.create().n_entities() >= m.n_entities(),
        0 <= m.create().current() < m.create().n_entities(),
        m.create().masks[m.create().current()] == 0,
        forall|e: int|
            0 <= e < m.create().n_entities() && e != m.create().current()
                ==> m.create().masks[e] == if e < m.n_entities() {
                m.masks[e]
            } else {
                0u128
            },
{
    let m2 = m.create();
    if m.free.len() > 0 {
        assert(m.free[m.free.len() - 1] == m.free.last());
        assert(0 < m.free.last() < m.masks.len());
        assert forall|e: int, i: int|
            0 <= e < m2.masks.len() && 0 <= i < m2.slots.len() && #[trigger] mask_has(
            m2.masks[e],
            i,
        ) implies m2.slots[i][e] is Some by {
            if e == m.free.last() as int {
                lemma_zero_mask(i);
            } else {
                assert(mask_has(m.masks[e], i));
            }
        }
        assert forall|e: int, i: int|
            0 <= e < m2.masks.len() && m2.slots.len() <= i < 128 implies !#[trigger] mask_has(
            m2.masks[e],
            i,
        ) by {
            if e == m.free.last() as int {
                lemma_zero_mask(i);
            } else {
                assert(!mask_has(m.masks[e], i));
            }
        }
    } else {
        assert forall|i: int| 0 <= i < m2.slots.len() implies (#[trigger] m2.slots[i]).len()
            == m2.masks.len() by {
            assert(m2.slots[i] == m.slots[i].push(None));
        }
        assert forall|e: int, i: int|
            0 <= e < m2.masks.len() && 0 <= i < m2.slots.len() && #[trigger] mask_has(
            m2.masks[e],
            i,
        ) implies m2.slots[i][e] is Some by {
            assert(m2.slots[i] == m.slots[i].push(None));
            if e < m.masks.len() {
                assert(mask_has(m.masks[e], i));
                assert(m2.slots[i][e] == m.slots[i][e]);
            } else {
                lemma_zero_mask(i);
            }
        }
        assert forall|e: int, i: int|
            0 <= e < m2.masks.len() && m2.slots.len() <= i < 128 implies !#[trigger] mask_has(
            m2.masks[e],
            i,
        ) by {
            if e < m.masks.len() {
                assert(!mask_has(m.masks[e], i));
            } else {
                lemma_zero_mask(i);
            }
        }
    }
}

/// Attachment preserves well-formedness; the entity's bitmask gains exactly
/// the attached type's bit, and only the one slot changes.
pub proof fn lemma_attach_at_wf<T>(m: WorldModel<T>, key: u64, data: T, e: int)
    requires
        m.wf(),
        m.is_registered(key),
        0 <= e < m.n_entities(),
    ensures
        m.attach_at(key, data, e).wf(),
        m.attach_at(key, data, e).registered == m.registered,
        m.attach_at(key, data, e).n_entities() == m.n_entities(),
        m.attach_at(key, data, e).slot_of(key, e) == Some(data),
        forall|j: int|
            0 <= j < 128 ==> (mask_has(m.attach_at(key, data, e).masks[e], j) <==> (mask_has(
                m.masks[e],
                j,
            ) || j == m.key_index(key))),
        forall|e2: int|
            0 <= e2 < m.n_entities() && e2 != e ==> m.attach_at(key, data, e).masks[e2]
                == m.masks[e2],
{
    let i = m.key_index(key);
    assert(0 <= i < m.registered.len() && m.registered[i] == key);
    let m2 = m.attach_at(key, data, e);
    assert forall|j: int| 0 <= j < 128 implies (mask_has(m2.masks[e], j) <==> (mask_has(
        m.masks[e],
        j,
    ) || j == i)) by {
        lemma_or_bit(m.masks[e], i, j);
    }
    assert forall|i2: int| 0 <= i2 < m2.slots.len() implies (#[trigger] m2.slots[i2]).len()
        == m2.masks.len() by {
        if i2 == i {
            assert(m2.slots[i2] == m.slots[i].update(e, Some(data)));
        }
    }
    assert forall|e2: int, i2: int|
        0 <= e2 < m2.masks.len() && 0 <= i2 < m2.slots.len() && #[trigger] mask_has(
        m2.masks[e2],
        i2,
    ) implies m2.slots[i2][e2] is Some by {
        if e2 == e && i2 == i {
        } else if e2 == e {
            lemma_or_bit(m.masks[e], i, i2);
            assert(mask_has(m.masks[e], i2));
            assert(m2.slots[i2][e2] == m.slots[i2][e2]);
        } else {
            assert(mask_has(m.masks[e2], i2));
            if i2 == i {
                assert(m2.slots[i2][e2] == m.slots[i][e2]);
            }
        }
    }
    assert forall|e2: int, i2: int|
        0 <= e2 < m2.masks.len() && m2.slots.len() <= i2 < 128 implies !#[trigger] mask_has(
        m2.masks[e2],
        i2,
    ) by {
        if e2 == e {
            lemma_or_bit(m.masks[e], i, i2);
            assert(!mask_has(m.masks[e], i2));
        } else {
            assert(!mask_has(m.masks[e2], i2));
        }
    }
}

/// Detachment preserves well-formedness; the entity's bitmask loses exactly
/// the detached type's bit, and no slot changes at all.
pub proof fn lemma_detach_wf<T>(m: WorldModel<T>, key: u64, e: int)
    requires
        m.wf(),
        m.is_registered(key),
        0 <= e < m.n_entities(),
    ensures
        m.detach(key, e).wf(),
        m.detach(key, e).registered == m.registered,
        m.detach(key, e).slots == m.slots,
        m.detach(key, e).n_entities() == m.n_entities(),
        forall|j: int|
            0 <= j < 128 ==> (mask_has(m.detach(key, e).masks[e], j) <==> (mask_has(m.masks[e], j)
                && j != m.key_index(key))),
        forall|e2: int|
            0 <= e2 < m.n_entities() && e2 != e ==> m.detach(key, e).masks[e2] == m.masks[e2],
{
    let i = m.key_index(key);
    assert(0 <= i < m.registered.len() && m.registered[i] == key);
    let m2 = m.detach(key, e);
    assert forall|j: int| 0 <= j < 128 implies (mask_has(m2.masks[e], j) <==> (mask_has(
        m.masks[e],
        j,
    ) && j != i)) by {
        lemma_clear_bit(m.masks[e], i, j);
    }
    assert forall|e2: int, i2: int|
        0 <= e2 < m2.masks.len() && 0 <= i2 < m2.slots.len() && #[trigger] mask_has(
        m2.masks[e2],
        i2,
    ) implies m2.slots[i2][e2] is Some by {
        if e2 == e {
            lemma_clear_bit(m.masks[e], i, i2);
        }
        assert(mask_has(m.masks[e2], i2));
    }
    assert forall|e2: int, i2: int|
        0 <= e2 < m2.masks.len() && m2.slots.len() <= i2 < 128 implies !#[trigger] mask_has(
        m2.masks[e2],
        i2,
    ) by {
        if e2 == e {
            lemma_clear_bit(m.masks[e], i, i2);
        }
        assert(!mask_has(m.masks[e2], i2));
    }
}

/// Entity removal preserves well-formedness; the bitmask is zeroed and every
/// other entity is untouched.
pub proof fn lemma_remove_entity_wf<T>(m: WorldModel<T>, e: int)
    requires
        m.wf(),
        0 <= e < m.n_entities(),
        e <= usize::MAX,
    ensures
        m.remove_entity(e).wf(),
        m.remove_entity(e).registered == m.registered,
        m.remove_entity(e).slots == m.slots,
        m.remove_entity(e).n_entities() == m.n_entities(),
        m.remove_entity(e).masks[e] == 0,
        forall|e2: int|
            0 <= e2 < m.n_entities() && e2 != e ==> m.remove_entity(e).masks[e2] == m.masks[e2],
{
    let m2 = m.remove_entity(e);
    assert forall|f: int| 0 <= f < m2.free.len() implies 0 < #[trigger] m2.free[f] && m2.free[f]
        < m2.masks.len() by {
        if e != 0 && f == m2.free.len() - 1 {
            assert(m2.free[f] == e as usize);
        } else {
            assert(m2.free[f] == m.free[f]);
        }
    }
    assert forall|e2: int, i2: int|
        0 <= e2 < m2.masks.len() && 0 <= i2 < m2.slots.len() && #[trigger] mask_has(
        m2.masks[e2],
        i2,
    ) implies m2.slots[i2][e2] is Some by {
        if e2 == e {
            lemma_zero_mask(i2);
        }
        assert(mask_has(m.masks[e2], i2));
    }
    assert forall|e2: int, i2: int|
        0 <= e2 < m2.masks.len() && m2.slots.len() <= i2 < 128 implies !#[trigger] mask_has(
        m2.masks[e2],
        i2,
    ) by {
        if e2 == e {
            lemma_zero_mask(i2);
        } else {
            assert(!mask_has(m.masks[e2], i2));
        }
    }
}

/// What a query hands back: `s` holds exactly the entity indices whose
/// bitmask satisfies the query mask `q`, in strictly ascending index order.
pub open spec fn is_match_list(masks: Seq<u128>, q: u128, s: Seq<usize>) -> bool {
    &&& (forall|a: int, b: int| 0 <= a < b < s.len() ==> s[a] < s[b])
    &&& (forall|a: int|
        0 <= a < s.len() ==> (#[trigger] s[a]) < masks.len() && entity_matches(
            masks[s[a] as int],
            q,
        ))
    &&& (forall|e: int|
        0 <= e < masks.len() && #[trigger] entity_matches(masks[e], q) ==> s.contains(e as usize))
}

/// When exactly one entity satisfies the query mask, the match list is the
/// one-element sequence holding it: a query for that combination returns
/// exactly that entity.
pub proof fn lemma_match_list_singleton(masks: Seq<u128>, q: u128, s: Seq<usize>, c: int)
    requires
        is_match_list(masks, q, s),
        0 <= c < masks.len(),
        forall|e: int| 0 <= e < masks.len() ==> (#[trigger] entity_matches(masks[e], q) <==> e == c),
    ensures
        s == seq![c as usize],
{
    assert(entity_matches(masks[c], q));
    assert(s.contains(c as usize));
    let w = choose|w: int| 0 <= w < s.len() && s[w] == c as usize;
    assert(s.len() >= 1);
    assert forall|a: int| 0 <= a < s.len() implies s[a] == c as usize by {
        assert(entity_matches(masks[s[a] as int], q));
    }
    if s.len() >= 2 {
        assert(s[0] < s[1]);
        assert(false);
    }
    assert(s =~= seq![c as usize]);
}

/// The mask assigned to the `i`-th registered component type is the single
/// bit at position `i`, in registration order; masks are never zero and no
/// two registered types share a mask.
pub proof fn lemma_mask_assignment<T>(m: WorldModel<T>, i: int, j: int)
    requires
        m.wf(),
        0 <= i < m.n_types(),
        0 <= j < m.n_types(),
    ensures
        m.is_registered(m.registered[i]),
        m.mask_of(m.registered[i]) == bit_mask(i),
        m.mask_of(m.registered[i]) != 0,
        i != j ==> m.mask_of(m.registered[i]) != m.mask_of(m.registered[j]),
{
    lemma_key_position(m.registered, i, m.registered[i]);
    lemma_key_position(m.registered, j, m.registered[j]);
    lemma_masks_distinct(i, j);
}

/// Building an entity and attaching two registered component types gives it
/// the bitmask `mask(A) | mask(B)` and both attached values; and when no
/// other entity owns both types, a query requiring `{A, B}` returns exactly
/// that entity.
pub proof fn lemma_build_entity<T>(m: WorldModel<T>, ka: u64, va: T, kb: u64, vb: T)
    requires
        m.wf(),
        m.is_registered(ka),
        m.is_registered(kb),
        ka != kb,
        m.n_entities() <= usize::MAX,
    ensures
        ({
            let m1 = m.create();
            let e = m1.current();
            let m3 = m1.attach(ka, va).attach(kb, vb);
            let qm = m.mask_of(ka) | m.mask_of(kb);
            &&& m3.wf()
            &&& m3.n_entities() == m1.n_entities()
            &&& 0 <= e < m3.n_entities()
            &&& m3.masks[e] == qm
            &&& entity_matches(m3.masks[e], qm)
            &&& entity_matches(m3.masks[e], m.mask_of(ka))
            &&& entity_matches(m3.masks[e], m.mask_of(kb))
            &&& m3.slot_of(ka, e) == Some(va)
            &&& m3.slot_of(kb, e) == Some(vb)
            &&& ((forall|e2: int|
                0 <= e2 < m.n_entities() && e2 != e ==> !entity_matches(m.masks[e2], qm)) ==> (
            forall|s: Seq<usize>|
                #[trigger] is_match_list(m3.masks, qm, s) ==> s == seq![e as usize]))
        }),
{
    let m1 = m.create();
    let e = m1.current();
    let m2 = m1.attach(ka, va);
    let m3 = m2.attach(kb, vb);
    let ia = m.key_index(ka);
    let ib = m.key_index(kb);
    let ma = m.mask_of(ka);
    let mb = m.mask_of(kb);
    let qm = ma | mb;
    lemma_create_wf(m);
    lemma_attach_at_wf(m1, ka, va, e);
    assert(m2.registered == m.registered);
    assert(m2.cursor == m1.cursor && m2.masks.len() == m1.masks.len());
    assert(m2.current() == e);
    lemma_attach_at_wf(m2, kb, vb, e);
    assert(m1.masks[e] == 0);
    assert(m2.masks[e] == 0u128 | ma);
    assert(0u128 | ma == ma) by (bit_vector);
    assert(m3.masks[e] == ma | mb);
    assert(entity_matches(qm, qm)) by {
        assert(qm & qm == qm) by (bit_vector);
    }
    crate::bits::lemma_matches_or(m3.masks[e], ma, mb);
    assert(m3.slot_of(kb, e) == Some(vb));
    assert(ia != ib) by {
        lemma_key_position(m.registered, m.registered.index_of(ka), ka);
        if ia == ib {
            assert(m.registered[ia] == ka && m.registered[ib] == kb);
        }
    }
    assert(m3.slot_of(ka, e) == Some(va));
    if forall|e2: int| 0 <= e2 < m.n_entities() && e2 != e ==> !entity_matches(m.masks[e2], qm) {
        assert forall|e2: int| 0 <= e2 < m3.masks.len() implies (#[trigger] entity_matches(
            m3.masks[e2],
            qm,
        ) <==> e2 == e) by {
            if e2 != e {
                assert(m3.masks[e2] == m1.masks[e2]);
                if e2 < m.n_entities() {
                    assert(m1.masks[e2] == m.masks[e2]);
                    assert(!entity_matches(m.masks[e2], qm));
                }
            }
        }
        assert forall|s: Seq<usize>| #[trigger] is_match_list(m3.masks, qm, s) implies s == seq![
            e as usize,
        ] by {
            lemma_match_list_singleton(m3.masks, qm, s, e);
        }
    }
}

/// Detaching a component clears only its bit: a query that requires the
/// detached type now excludes the entity, a query without it decides the
/// entity exactly as before, and every other entity is untouched.
pub proof fn lemma_detach_query_effect<T>(m: WorldModel<T>, key: u64, e: int, q: u128)
    requires
        m.wf(),
        m.is_registered(key),
        0 <= e < m.n_entities(),
    ensures
        ({
            let m2 = m.detach(key, e);
            let i = m.key_index(key);
            &&& m2.wf()
            &&& !mask_has(m2.masks[e], i)
            &&& (forall|j: int|
                0 <= j < 128 && j != i ==> mask_has(m2.masks[e], j) == mask_has(m.masks[e], j))
            &&& (mask_has(q, i) ==> !entity_matches(m2.masks[e], q))
            &&& (!mask_has(q, i) ==> (entity_matches(m2.masks[e], q) <==> entity_matches(
                m.masks[e],
                q,
            )))
            &&& (forall|e2: int| 0 <= e2 < m.n_entities() && e2 != e ==> m2.masks[e2] == m.masks[e2])
        }),
{
    lemma_detach_wf(m, key, e);
    let i = m.key_index(key);
    lemma_key_position(m.registered, m.registered.index_of(key), key);
    lemma_clear_bit_queries(m.masks[e], i, q);
    lemma_clear_bit(m.masks[e], i, i);
}

/// Removing an entity (other than the reserved sentinel index 0) zeroes its
/// bitmask and makes its index the one the next creation reuses; the reused
/// entity starts over with the all-zero bitmask.
pub proof fn lemma_remove_then_create<T>(m: WorldModel<T>, e: int)
    requires
        m.wf(),
        0 < e < m.n_entities(),
        e <= usize::MAX,
    ensures
        ({
            let m2 = m.remove_entity(e).create();
            &&& m.remove_entity(e).masks[e] == 0
            &&& m2.current() == e
            &&& m2.masks[e] == 0
            &&& m2.n_entities() == m.n_entities()
            &&& m2.wf()
        }),
{
    lemma_remove_entity_wf(m, e);
    let mr = m.remove_entity(e);
    lemma_create_wf(mr);
    assert(mr.free.last() == e as usize);
}

} // verus!
