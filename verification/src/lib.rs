pub mod bits;
pub mod error;
pub mod model;
pub mod query;
pub mod query_entity;
pub mod resource;
pub mod system;

pub use error::EcsError;
pub use query::Query;
pub use query_entity::QueryEntity;
pub use resource::Resource;
pub use system::System;
pub use system::Systems;

use vstd::prelude::*;

use crate::bits::entity_matches;
use crate::model::lemma_key_position;
use crate::model::lemma_register_wf;
use crate::model::WorldModel;

verus! {

/// An entity/component store.
///
/// Component types are identified by caller-chosen `u64` keys, registered
/// once each. The type registered at position `i` owns bit `i` of every
/// entity's bitmask and row `i` of the slot table, so a query can decide
/// membership from bitmasks alone. `T` is the uniform component value type;
/// a caller with several component shapes wraps them in one enum.
///
/// The store also carries a [`Resource`] side table of singleton values,
/// independent of entities.
pub struct World<T> {
    /// Component type keys in registration order.
    pub registered: Vec<u64>,
    /// One slot row per registered type, each row index-aligned with the
    /// entity table.
    pub components: Vec<Vec<Option<T>>>,
    /// One bitmask per entity: bit `i` is set iff the entity currently owns
    /// an instance of the `i`-th registered component type.
    pub bit_maps: Vec<u128>,
    /// The entity under construction: 0 for the most recently appended
    /// entity, any other value for a reclaimed index.
    pub creature_id: usize,
    /// Entity indices eligible for reuse. Index 0 is reserved as the "no
    /// free slot" sentinel and never enters this list.
    pub free_spots: Vec<usize>,
    /// The singleton-value side table.
    pub resources: Resource<T>,
}

impl<T> World<T> {
    /// The mathematical state of the entity/component part of the store.
    pub open spec fn model(self) -> WorldModel<T> {
        WorldModel {
            registered: self.registered@,
            slots: self.components@.map_values(|row: Vec<Option<T>>| row@),
            masks: self.bit_maps@,
            cursor: self.creature_id,
            free: self.free_spots@,
        }
    }

    /// Validity of the whole store.
    pub open spec fn wf(self) -> bool {
        self.model().wf() && self.resources.wf()
    }

    /// An empty store: no component types, no entities, no resources.
    pub fn new() -> (w: World<T>)
        ensures
            w.wf(),
            w.model().n_types() == 0,
            w.model().n_entities() == 0,
            w.model().cursor == 0,
            w.model().free.len() == 0,
            w.resources.keys@.len() == 0,
    {
        World {
            registered: Vec::new(),
            components: Vec::new(),
            bit_maps: Vec::new(),
            creature_id: 0,
            free_spots: Vec::new(),
            resources: Resource { keys: Vec::new(), vals: Vec::new() },
        }
    }

    /// The registration position of `key`, if any.
    pub(crate) fn find_key(&self, key: u64) -> (r: Option<usize>)
        ensures
            (match r {
                Some(i) => i < self.registered@.len() && self.registered@[i as int] == key,
                None => !self.registered@.contains(key),
            }),
    {
        let n = self.registered.len();
        let mut i: usize = 0;
        while i < n
            invariant
                n == self.registered@.len(),
                i <= n,
                forall|j: int| 0 <= j < i ==> self.registered@[j] != key,
            decreases n - i,
        {
            if self.registered[i] == key {
                return Some(i);
            }
            i += 1;
        }
        None
    }

    /// Registers a new component type under `key`: the type receives the
    /// next free mask bit and an empty, entity-index-aligned slot row.
    /// Double registration and running out of mask bits are rejected.
    pub fn register_component(&mut self, key: u64) -> (r: Result<(), EcsError>)
        requires
            old(self).wf(),
        ensures
            final(self).wf(),
            final(self).resources == old(self).resources,
            (match r {
                Ok(()) => !old(self).model().is_registered(key) && old(self).model().n_types()
                    < 128 && final(self).model() == old(self).model().register(key),
                Err(EcsError::ComponentAlreadyRegistered) => old(self).model().is_registered(key)
                    && *final(self) == *old(self),
                Err(EcsError::TooManyComponentTypes) => !old(self).model().is_registered(key)
                    && old(self).model().n_types() == 128 && *final(self) == *old(self),
                Err(_) => false,
            }),
    {
        if let Some(_i) = self.find_key(key) {
            return Err(EcsError::ComponentAlreadyRegistered);
        }
        if self.registered.len() >= 128 {
            return Err(EcsError::TooManyComponentTypes);
        }
        let n_entities = self.bit_maps.len();
        let mut row: Vec<Option<T>> = Vec::new();
        let mut e: usize = 0;
        while e < n_entities
            invariant
                e <= n_entities,
                row@ =~= Seq::new(e as nat, |k: int| None::<T>),
            decreases n_entities - e,
        {
            row.push(None);
            assert(row@ =~= Seq::new((e + 1) as nat, |k: int| None::<T>));
            e += 1;
        }
        self.registered.push(key);
        self.components.push(row);
        proof {
            lemma_register_wf(old(self).model(), key);
            assert(self.model() =~~= old(self).model().register(key));
        }
        Ok(())
    }

    /// The mask bit owned by the component type registered under `key`: the
    /// `i`-th registered type owns the single-bit mask `1 << i`.
    pub fn component_mask(&self, key: u64) -> (r: Result<u128, EcsError>)
        requires
            self.wf(),
        ensures
            (match r {
                Ok(m) => self.model().is_registered(key) && m == self.model().mask_of(key),
                Err(EcsError::ComponentNotRegistered) => !self.model().is_registered(key),
                Err(_) => false,
            }),
    {
        match self.find_key(key) {
            Some(i) => {
                proof {
                    lemma_key_position(self.registered@, i as int, key);
                }
                Ok(1u128 << i)
            },
            None => Err(EcsError::ComponentNotRegistered),
        }
    }

    /// Whether the entity at `index` owns every component type of `mask`.
    pub fn has_component(&self, index: usize, mask: u128) -> (r: bool)
        requires
            self.wf(),
            index < self.model().n_entities(),
        ensures
            r == entity_matches(self.model().masks[index as int], mask),
    {
        self.bit_maps[index] & mask == mask
    }

    /// Starts building an entity: a non-empty free list yields its most
    /// recently freed index, whose bitmask is reset to zero while its stale
    /// slots stay in place; otherwise a fresh zero-bitmask entry is appended
    /// to the table and one empty slot to every type's row. Index 0 never
    /// enters the free list (it is the "no free slot" sentinel), so it is
    /// never reused. The handle handed back is for chaining
    /// [`World::with_component`] calls.
    pub fn create_entity(&mut self) -> (r: &mut Self)
        requires
            old(self).wf(),
        ensures
            (*r).wf(),
            (*r).model() == old(self).model().create(),
            (*r).resources == old(self).resources,
            *final(self) == *final(r),
    {
        proof {
            crate::model::lemma_create_wf(old(self).model());
        }
        let nfree = self.free_spots.len();
        if nfree > 0 {
            let free_index = self.free_spots[nfree - 1];
            self.creature_id = free_index;
            self.free_spots.pop();
            let slot = &mut self.bit_maps[free_index];
            *slot = 0;
            proof {
                assert(self.free_spots@ =~= old(self).free_spots@.drop_last());
                assert(self.model() =~~= old(self).model().create());
            }
            return self;
        }
        self.creature_id = 0;
        let k = self.components.len();
        let mut i: usize = 0;
        while i < k
            invariant
                k == self.components@.len(),
                i <= k,
                self.registered@ == old(self).registered@,
                self.bit_maps@ == old(self).bit_maps@,
                self.creature_id == 0,
                self.free_spots@ == old(self).free_spots@,
                self.resources == old(self).resources,
                forall|j: int|
                    0 <= j < i ==> (#[trigger] self.components@[j])@ == old(
                        self,
                    ).components@[j]@.push(None::<T>),
                forall|j: int| i <= j < k ==> self.components@[j] == old(self).components@[j],
            decreases k - i,
        {
            let row = &mut self.components[i];
            row.push(None);
            i += 1;
        }
        self.bit_maps.push(0);
        proof {
            assert(self.model() =~~= old(self).model().create());
        }
        self
    }

    /// Attaches `data` under `key` to the entity currently under
    /// construction: its slot is filled and the type's bit OR-ed into the
    /// entity's bitmask, overwriting any previous value without warning.
    /// To be called only while an entity is under construction, right after
    /// [`World::create_entity`]. Fails if `key` was never registered.
    pub fn with_component(&mut self, key: u64, data: T) -> (r: Result<&mut Self, EcsError>)
        requires
            old(self).wf(),
            old(self).model().n_entities() > 0,
        ensures
            (match r {
                Ok(w) => old(self).model().is_registered(key) && (*w).wf() && (*w).model() == old(
                    self,
                ).model().attach(key, data) && (*w).resources == old(self).resources && *final(self)
                    == *final(w),
                Err(EcsError::ComponentNotRegistered) => !old(self).model().is_registered(key)
                    && *final(self) == *old(self),
                Err(_) => false,
            }),
    {
        let i = match self.find_key(key) {
            Some(i) => i,
            None => {
                return Err(EcsError::ComponentNotRegistered);
            },
        };
        proof {
            lemma_key_position(self.registered@, i as int, key);
            crate::model::lemma_attach_at_wf(
                old(self).model(),
                key,
                data,
                old(self).model().current(),
            );
        }
        let e = if self.creature_id != 0 {
            self.creature_id
        } else {
            self.bit_maps.len() - 1
        };
        proof {
            assert(e as int == old(self).model().current());
            assert(self.model().slots[i as int].len() == self.model().masks.len());
            assert(i < self.components@.len() && self.components@[i as int]@.len()
                == self.bit_maps@.len());
        }
        let mask: u128 = 1u128 << i;
        let cur = self.bit_maps[e];
        let bm = &mut self.bit_maps[e];
        *bm = cur | mask;
        let slot = &mut self.components[i][e];
        *slot = Some(data);
        proof {
            assert(self.model() =~~= old(self).model().attach(key, data));
        }
        Ok(self)
    }

    /// Attaches `data` under `key` to the entity at `index` directly: its
    /// slot is filled and the type's bit OR-ed into the entity's bitmask,
    /// overwriting any previous value without warning. Fails if `key` was
    /// never registered or `index` is out of range.
    pub fn add_component(&mut self, key: u64, data: T, index: usize) -> (r: Result<(), EcsError>)
        requires
            old(self).wf(),
        ensures
            final(self).wf(),
            final(self).resources == old(self).resources,
            (match r {
                Ok(()) => old(self).model().is_registered(key) && index < old(
                    self,
                ).model().n_entities() && final(self).model() == old(self).model().attach_at(
                    key,
                    data,
                    index as int,
                ),
                Err(EcsError::ComponentNotRegistered) => !old(self).model().is_registered(key)
                    && *final(self) == *old(self),
                Err(EcsError::EntityOutOfRange) => old(self).model().is_registered(key) && index
                    >= old(self).model().n_entities() && *final(self) == *old(self),
                Err(_) => false,
            }),
    {
        let i = match self.find_key(key) {
            Some(i) => i,
            None => {
                return Err(EcsError::ComponentNotRegistered);
            },
        };
        if index >= self.bit_maps.len() {
            return Err(EcsError::EntityOutOfRange);
        }
        proof {
            lemma_key_position(self.registered@, i as int, key);
            crate::model::lemma_attach_at_wf(old(self).model(), key, data, index as int);
            assert(self.model().slots[i as int].len() == self.model().masks.len());
            assert(i < self.components@.len() && self.components@[i as int]@.len()
                == self.bit_maps@.len());
        }
        let mask: u128 = 1u128 << i;
        let cur = self.bit_maps[index];
        let bm = &mut self.bit_maps[index];
        *bm = cur | mask;
        let slot = &mut self.components[i][index];
        *slot = Some(data);
        proof {
            assert(self.model() =~~= old(self).model().attach_at(key, data, index as int));
        }
        Ok(())
    }

    /// Detaches the component registered under `key` from the entity at
    /// `index`: the type's bit is cleared from the entity's bitmask if
    /// currently set (a no-op otherwise). The slot itself keeps its stale
    /// value, unreachable to queries, until the next attachment. Fails if
    /// `key` was never registered or `index` is out of range.
    pub fn remove_component(&mut self, key: u64, index: usize) -> (r: Result<(), EcsError>)
        requires
            old(self).wf(),
        ensures
            final(self).wf(),
            final(self).resources == old(self).resources,
            (match r {
                Ok(()) => old(self).model().is_registered(key) && index < old(
                    self,
                ).model().n_entities() && final(self).model() == old(self).model().detach(
                    key,
                    index as int,
                ),
                Err(EcsError::ComponentNotRegistered) => !old(self).model().is_registered(key)
                    && *final(self) == *old(self),
                Err(EcsError::EntityOutOfRange) => old(self).model().is_registered(key) && index
                    >= old(self).model().n_entities() && *final(self) == *old(self),
                Err(_) => false,
            }),
    {
        let i = match self.find_key(key) {
            Some(i) => i,
            None => {
                return Err(EcsError::ComponentNotRegistered);
            },
        };
        if index >= self.bit_maps.len() {
            return Err(EcsError::EntityOutOfRange);
        }
        proof {
            lemma_key_position(self.registered@, i as int, key);
            crate::model::lemma_detach_wf(old(self).model(), key, index as int);
            crate::bits::lemma_detach_mask(self.bit_maps@[index as int], i as int);
            crate::bits::lemma_single_bit_test(self.bit_maps@[index as int], i as int);
        }
        let mask: u128 = 1u128 << i;
        if self.bit_maps[index] & mask == mask {
            let cur = self.bit_maps[index];
            let bm = &mut self.bit_maps[index];
            *bm = cur ^ mask;
        } else {
            proof {
                assert(old(self).bit_maps@.update(
                    index as int,
                    old(self).bit_maps@[index as int],
                ) =~= old(self).bit_maps@);
            }
        }
        proof {
            assert(self.model() =~~= old(self).model().detach(key, index as int));
        }
        Ok(())
    }

    /// Removes the entity at `index`: its bitmask is zeroed and, except for
    /// the reserved sentinel index 0, the index becomes eligible for reuse
    /// by the next [`World::create_entity`]. Per-type slots are not cleared.
    /// Fails if `index` is out of range.
    pub fn remove_entity(&mut self, index: usize) -> (r: Result<(), EcsError>)
        requires
            old(self).wf(),
        ensures
            final(self).wf(),
            final(self).resources == old(self).resources,
            (match r {
                Ok(()) => index < old(self).model().n_entities() && final(self).model() == old(
                    self,
                ).model().remove_entity(index as int),
                Err(EcsError::EntityOutOfRange) => index >= old(self).model().n_entities()
                    && *final(self) == *old(self),
                Err(_) => false,
            }),
    {
        if index >= self.bit_maps.len() {
            return Err(EcsError::EntityOutOfRange);
        }
        proof {
            crate::model::lemma_remove_entity_wf(old(self).model(), index as int);
        }
        let bm = &mut self.bit_maps[index];
        *bm = 0;
        if index != 0 {
            self.free_spots.push(index);
        }
        proof {
            assert(self.model() =~~= old(self).model().remove_entity(index as int));
        }
        Ok(())
    }

    /// Starts a query against this store: no requested types yet, so every
    /// entity matches until [`Query::with_component`] narrows it.
    pub fn query(&self) -> (q: Query<'_, T>)
        requires
            self.wf(),
        ensures
            q.wf(),
            q.world == self,
            q.map == 0,
            q.type_ids@.len() == 0,
    {
        Query::new(self)
    }

    /// Stores `data` as the resource under `key`, replacing any previous
    /// value for that key; entities and components are untouched.
    pub fn add_resource(&mut self, key: u64, data: T)
        requires
            old(self).wf(),
        ensures
            final(self).wf(),
            final(self).model() == old(self).model(),
            final(self).resources.spec_contains(key),
            final(self).resources.spec_get(key) == data,
            final(self).resources.others_preserved(old(self).resources, key),
    {
        self.resources.add(key, data);
    }

    /// A shared reference to the resource stored under `key`, if any.
    pub fn get_resource(&self, key: u64) -> (r: Option<&T>)
        requires
            self.wf(),
        ensures
            (match r {
                Some(v) => self.resources.spec_contains(key) && *v == self.resources.spec_get(key),
                None => !self.resources.spec_contains(key),
            }),
    {
        self.resources.get_ref(key)
    }

    /// An exclusive reference to the resource stored under `key`, if any:
    /// the caller's writes through it land on that one value and nothing
    /// else changes.
    pub fn get_resource_mut(&mut self, key: u64) -> (r: Option<&mut T>)
        requires
            old(self).wf(),
        ensures
            (match r {
                Some(p) => old(self).resources.spec_contains(key) && *p == old(
                    self,
                ).resources.spec_get(key) && final(self).model() == old(self).model()
                    && final(self).resources.wf() && final(self).resources.keys@ == old(
                    self,
                ).resources.keys@ && final(self).resources.vals@ == old(self).resources.vals@.update(
                    old(self).resources.keys@.index_of(key),
                    *final(p),
                ),
                None => !old(self).resources.spec_contains(key) && *final(self) == *old(self),
            }),
    {
        self.resources.get_mut(key)
    }

    /// Removes the resource stored under `key`, if any; entities, components
    /// and every other resource are untouched.
    pub fn remove_resource(&mut self, key: u64)
        requires
            old(self).wf(),
        ensures
            final(self).wf(),
            final(self).model() == old(self).model(),
            !final(self).resources.spec_contains(key),
            final(self).resources.others_preserved(old(self).resources, key),
    {
        self.resources.remove(key);
    }
}

} // verus!


