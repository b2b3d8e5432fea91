use vstd::prelude::*;

use crate::bits::entity_matches;
use crate::bits::lemma_grow_query_mask;
use crate::bits::lemma_matches_bit;
use crate::bits::mask_has;
use crate::error::EcsError;
use crate::model::is_match_list;
use crate::model::lemma_key_position;
use crate::model::WorldModel;
use crate::query_entity::QueryEntity;
use crate::World;

verus! {

/// The combined mask of a request list: the union of the mask bits of the
/// requested component types, in request order.
pub open spec fn accum_mask<T>(m: WorldModel<T>, keys: Seq<u64>) -> u128
    decreases keys.len(),
{
    if keys.len() == 0 {
        0
    } else {
        accum_mask(m, keys.drop_last()) | m.mask_of(keys.last())
    }
}

/// A query under construction against one store: the requested component
/// types in request order, and their combined mask. An entity matches when
/// its bitmask has every bit of the combined mask, so a matching entity owns
/// all requested types.
pub struct Query<'a, T> {
    /// The store the query reads from.
    pub world: &'a World<T>,
    /// The union of the requested types' mask bits.
    pub map: u128,
    /// The requested component type keys, in request order. This order
    /// governs the output column order of [`Query::run`].
    pub type_ids: Vec<u64>,
}

impl<'a, T> Query<'a, T> {
    /// Validity: every requested key is registered, and `map` is exactly the
    /// union of the requested types' bits.
    pub open spec fn wf(self) -> bool {
        &&& self.world.wf()
        &&& (forall|t: int|
            0 <= t < self.type_ids@.len() ==> self.world.model().is_registered(
                #[trigger] self.type_ids@[t],
            ))
        &&& self.map == accum_mask(self.world.model(), self.type_ids@)
        &&& (forall|t: int|
            0 <= t < self.type_ids@.len() ==> mask_has(
                self.map,
                self.world.model().key_index(#[trigger] self.type_ids@[t]),
            ))
    }

    /// An empty query against `world`: no requested types, the all-zero
    /// mask, so every entity matches.
    pub fn new(world: &'a World<T>) -> (q: Query<'a, T>)
        requires
            world.wf(),
        ensures
            q.wf(),
            q.world == world,
            q.map == 0,
            q.type_ids@.len() == 0,
    {
        Query { world, map: 0, type_ids: Vec::new() }
    }

    /// Requests the component type registered under `key`: its mask bit is
    /// OR-ed into the combined mask and the key appended to the request
    /// list. Fails if `key` was never registered.
    pub fn with_component(&mut self, key: u64) -> (r: Result<&mut Self, EcsError>)
        requires
            old(self).wf(),
        ensures
            (match r {
                Ok(q) => old(self).world.model().is_registered(key) && (*q).wf() && (*q).world
                    == old(self).world && (*q).type_ids@ == old(self).type_ids@.push(key) && (
                *q).map == (old(self).map | old(self).world.model().mask_of(key)) && *final(self)
                    == *final(q),
                Err(EcsError::ComponentNotRegistered) => !old(self).world.model().is_registered(
                    key,
                ) && *final(self) == *old(self),
                Err(_) => false,
            }),
    {
        let i = match self.world.find_key(key) {
            Some(i) => i,
            None => {
                return Err(EcsError::ComponentNotRegistered);
            },
        };
        proof {
            lemma_key_position(self.world.registered@, i as int, key);
        }
        let mask: u128 = 1u128 << i;
        self.map = self.map | mask;
        self.type_ids.push(key);
        proof {
            let wm = self.world.model();
            assert(self.type_ids@.drop_last() =~= old(self).type_ids@);
            assert(self.type_ids@.last() == key);
            assert(self.map == accum_mask(wm, self.type_ids@));
            assert forall|t: int| 0 <= t < self.type_ids@.len() implies wm.is_registered(
                #[trigger] self.type_ids@[t],
            ) by {
                if t < old(self).type_ids@.len() {
                    assert(old(self).type_ids@[t] == self.type_ids@[t]);
                }
            }
            assert forall|t: int| 0 <= t < self.type_ids@.len() implies mask_has(
                self.map,
                wm.key_index(#[trigger] self.type_ids@[t]),
            ) by {
                let bi = wm.key_index(self.type_ids@[t]);
                if t < old(self).type_ids@.len() {
                    assert(mask_has(old(self).map, bi));
                    lemma_grow_query_mask(old(self).map, i as int, bi);
                } else {
                    lemma_grow_query_mask(old(self).map, i as int, i as int);
                }
            }
        }
        Ok(self)
    }

    /// The matching entity indices, in ascending index order: exactly those
    /// entities whose bitmask has every bit of the combined mask.
    fn matching_indexes(&self) -> (indexes: Vec<usize>)
        requires
            self.wf(),
        ensures
            is_match_list(self.world.model().masks, self.map, indexes@),
    {
        let ghost wm = self.world.model();
        let n = self.world.bit_maps.len();
        let mut indexes: Vec<usize> = Vec::new();
        let mut e: usize = 0;
        while e < n
            invariant
                self.wf(),
                wm == self.world.model(),
                n == wm.masks.len(),
                e <= n,
                forall|a: int, b: int| 0 <= a < b < indexes@.len() ==> indexes@[a] < indexes@[b],
                forall|a: int|
                    0 <= a < indexes@.len() ==> (#[trigger] indexes@[a]) < e && entity_matches(
                        wm.masks[indexes@[a] as int],
                        self.map,
                    ),
                forall|e2: int|
                    0 <= e2 < e && #[trigger] entity_matches(wm.masks[e2], self.map)
                        ==> indexes@.contains(e2 as usize),
            decreases n - e,
        {
            let ghost pre = indexes@;
            if self.world.bit_maps[e] & self.map == self.map {
                indexes.push(e);
            }
            proof {
                assert forall|e2: int|
                    0 <= e2 < e + 1 && #[trigger] entity_matches(wm.masks[e2], self.map) implies
                    indexes@.contains(e2 as usize) by {
                    if e2 < e {
                        let a = choose|a: int| 0 <= a < pre.len() && pre[a] == e2 as usize;
                        assert(indexes@[a] == e2 as usize);
                    } else {
                        assert(indexes@[indexes@.len() - 1] == e as usize);
                    }
                }
            }
            e += 1;
        }
        indexes
    }

    /// Runs the query columnar: the matching entity indices in ascending
    /// order, and one component column per requested type, in request order.
    /// Columns align positionally: for every requested type `t`, the `k`-th
    /// entry of column `t` is the component attached to the `k`-th matched
    /// entity.
    pub fn run(&self) -> (r: (Vec<usize>, Vec<Vec<T>>)) where T: Copy
        requires
            self.wf(),
        ensures
            is_match_list(self.world.model().masks, self.map, r.0@),
            r.1@.len() == self.type_ids@.len(),
            forall|t: int| 0 <= t < r.1@.len() ==> (#[trigger] r.1@[t])@.len() == r.0@.len(),
            forall|t: int, k: int|
                0 <= t < r.1@.len() && 0 <= k < r.0@.len() ==> self.world.model().slot_of(
                    self.type_ids@[t],
                    r.0@[k] as int,
                ) == Some(#[trigger] r.1@[t]@[k]),
    {
        let ghost wm = self.world.model();
        let indexes = self.matching_indexes();
        let mut result: Vec<Vec<T>> = Vec::new();
        let nt = self.type_ids.len();
        let mut t: usize = 0;
        while t < nt
            invariant
                self.wf(),
                wm == self.world.model(),
                is_match_list(wm.masks, self.map, indexes@),
                nt == self.type_ids@.len(),
                t <= nt,
                result@.len() == t,
                forall|t2: int|
                    0 <= t2 < t ==> (#[trigger] result@[t2])@.len() == indexes@.len(),
                forall|t2: int, k: int|
                    0 <= t2 < t && 0 <= k < indexes@.len() ==> wm.slot_of(
                        self.type_ids@[t2],
                        indexes@[k] as int,
                    ) == Some(#[trigger] result@[t2]@[k]),
            decreases nt - t,
        {
            let key = self.type_ids[t];
            let i = match self.world.find_key(key) {
                Some(i) => i,
                None => {
                    proof {
                        assert(self.world.model().is_registered(self.type_ids@[t as int]));
                        assert(false);
                    }
                    0
                },
            };
            proof {
                lemma_key_position(self.world.registered@, i as int, key);
            }
            let mut col: Vec<T> = Vec::new();
            let m = indexes.len();
            let mut k: usize = 0;
            while k < m
                invariant
                    self.wf(),
                    wm == self.world.model(),
                    is_match_list(wm.masks, self.map, indexes@),
                    m == indexes@.len(),
                    k <= m,
                    col@.len() == k,
                    i < self.world.registered@.len(),
                    i as int == wm.key_index(key),
                    key == self.type_ids@[t as int],
                    t < self.type_ids@.len(),
                    forall|k2: int|
                        0 <= k2 < k ==> wm.slot_of(key, indexes@[k2] as int) == Some(
                            #[trigger] col@[k2],
                        ),
                decreases m - k,
            {
                let eidx = indexes[k];
                proof {
                    assert(entity_matches(wm.masks[eidx as int], self.map));
                    assert(mask_has(self.map, wm.key_index(self.type_ids@[t as int])));
                    lemma_matches_bit(wm.masks[eidx as int], self.map, i as int);
                    assert(mask_has(wm.masks[eidx as int], i as int));
                    assert(wm.slots[i as int][eidx as int] is Some);
                    assert(wm.slots[i as int] == self.world.components@.map_values(
                        |row: Vec<Option<T>>| row@,
                    )[i as int]);
                }
                match &self.world.components[i][eidx] {
                    Some(v) => {
                        col.push(*v);
                    },
                    None => {
                        proof {
                            assert(false);
                        }
                    },
                }
                k += 1;
            }
            result.push(col);
            t += 1;
        }
        (indexes, result)
    }

    /// Runs the query and hands back one [`QueryEntity`] accessor per
    /// matching entity, in ascending index order. Each accessor can resolve
    /// any registered type on demand against the store, not just the
    /// requested ones.
    pub fn run_entity(&self) -> (r: Vec<QueryEntity>)
        requires
            self.wf(),
        ensures
            is_match_list(
                self.world.model().masks,
                self.map,
                r@.map_values(|qe: QueryEntity| qe.id),
            ),
    {
        let indexes = self.matching_indexes();
        let n = indexes.len();
        let mut r: Vec<QueryEntity> = Vec::new();
        let mut k: usize = 0;
        while k < n
            invariant
                n == indexes@.len(),
                k <= n,
                r@.len() == k,
                forall|a: int| 0 <= a < k ==> (#[trigger] r@[a]).id == indexes@[a],
            decreases n - k,
        {
            r.push(QueryEntity::new(indexes[k]));
            k += 1;
        }
        proof {
            assert(r@.map_values(|qe: QueryEntity| qe.id) =~= indexes@);
        }
        r
    }
}

} // verus!
