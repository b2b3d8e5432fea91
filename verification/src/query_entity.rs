use vstd::prelude::*;

use crate::bits::mask_has;
use crate::error::EcsError;
use crate::model::lemma_key_position;
use crate::World;

verus! {

/// A handle to one matched entity, as handed out by a query. It carries only
/// the entity's index; each retrieval names the store it reads from, so
/// shared reads and exclusive writes go through Rust's own borrow rules.
pub struct QueryEntity {
    /// The entity's index in the entity table.
    pub id: usize,
}

impl QueryEntity {
    /// A handle for the entity at `id`.
    pub fn new(id: usize) -> (q: QueryEntity)
        ensures
            q.id == id,
    {
        QueryEntity { id }
    }

    /// A shared reference to this entity's component of the type registered
    /// under `key`. Fails if `key` was never registered, if the entity index
    /// is out of range, or if the entity's bitmask does not mark that
    /// component as attached.
    pub fn get_component<'w, T>(&self, world: &'w World<T>, key: u64) -> (r: Result<
        &'w T,
        EcsError,
    >)
        requires
            world.wf(),
        ensures
            (match r {
                Ok(v) => world.model().is_registered(key) && self.id < world.model().n_entities()
                    && mask_has(world.model().masks[self.id as int], world.model().key_index(key))
                    && world.model().slot_of(key, self.id as int) == Some(*v),
                Err(EcsError::ComponentNotRegistered) => !world.model().is_registered(key),
                Err(EcsError::EntityOutOfRange) => world.model().is_registered(key) && self.id
                    >= world.model().n_entities(),
                Err(EcsError::ComponentNotPresent) => world.model().is_registered(key) && self.id
                    < world.model().n_entities() && !mask_has(
                    world.model().masks[self.id as int],
                    world.model().key_index(key),
                ),
                Err(_) => false,
            }),
    {
        let i = match world.find_key(key) {
            Some(i) => i,
            None => {
                return Err(EcsError::ComponentNotRegistered);
            },
        };
        proof {
            lemma_key_position(world.registered@, i as int, key);
        }
        if self.id >= world.bit_maps.len() {
            return Err(EcsError::EntityOutOfRange);
        }
        let mask: u128 = 1u128 << i;
        if world.bit_maps[self.id] & mask != mask {
            proof {
                crate::bits::lemma_single_bit_test(world.bit_maps@[self.id as int], i as int);
            }
            return Err(EcsError::ComponentNotPresent);
        }
        proof {
            crate::bits::lemma_single_bit_test(world.bit_maps@[self.id as int], i as int);
            assert(world.model().slots[i as int] == world.components@.map_values(
                |row: Vec<Option<T>>| row@,
            )[i as int]);
        }
        match &world.components[i][self.id] {
            Some(v) => Ok(v),
            None => {
                proof {
                    assert(false);
                }
                Err(EcsError::ComponentNotPresent)
            },
        }
    }

    /// An exclusive reference to this entity's component of the type
    /// registered under `key`, failing as [`QueryEntity::get_component`]
    /// does. The caller's writes through it land on that one slot: the store
    /// afterwards is the old store with the written value re-attached.
    pub fn get_component_mut<'w, T>(&self, world: &'w mut World<T>, key: u64) -> (r: Result<
        &'w mut T,
        EcsError,
    >)
        requires
            old(world).wf(),
        ensures
            (match r {
                Ok(p) => old(world).model().is_registered(key) && self.id < old(world)
                    .model()
                    .n_entities() && mask_has(
                    old(world).model().masks[self.id as int],
                    old(world).model().key_index(key),
                ) && old(world).model().slot_of(key, self.id as int) == Some(*p) && (final(world)
                    .model() =~~= old(world).model().attach_at(key, *final(p), self.id as int))
                    && old(world).model().attach_at(key, *final(p), self.id as int).wf()
                    && final(world).resources == old(world).resources,
                Err(EcsError::ComponentNotRegistered) => !old(world).model().is_registered(key)
                    && *final(world) == *old(world),
                Err(EcsError::EntityOutOfRange) => old(world).model().is_registered(key) && self.id
                    >= old(world).model().n_entities() && *final(world) == *old(world),
                Err(EcsError::ComponentNotPresent) => old(world).model().is_registered(key)
                    && self.id < old(world).model().n_entities() && !mask_has(
                    old(world).model().masks[self.id as int],
                    old(world).model().key_index(key),
                ) && *final(world) == *old(world),
                Err(_) => false,
            }),
    {
        let i = match world.find_key(key) {
            Some(i) => i,
            None => {
                return Err(EcsError::ComponentNotRegistered);
            },
        };
        proof {
            lemma_key_position(world.registered@, i as int, key);
        }
        if self.id >= world.bit_maps.len() {
            return Err(EcsError::EntityOutOfRange);
        }
        let mask: u128 = 1u128 << i;
        if world.bit_maps[self.id] & mask != mask {
            proof {
                crate::bits::lemma_single_bit_test(world.bit_maps@[self.id as int], i as int);
            }
            return Err(EcsError::ComponentNotPresent);
        }
        proof {
            crate::bits::lemma_single_bit_test(world.bit_maps@[self.id as int], i as int);
            crate::bits::lemma_or_absorb(world.bit_maps@[self.id as int], i as int);
            assert(world.model().slots[i as int] == world.components@.map_values(
                |row: Vec<Option<T>>| row@,
            )[i as int]);
            assert(world.components@[i as int]@[self.id as int] is Some);
            assert forall|d: T|
                (#[trigger] world.model().attach_at(key, d, self.id as int)).wf()
                    && world.model().attach_at(key, d, self.id as int).masks == world.model().masks
                    && world.model().attach_at(key, d, self.id as int).slots
                    == world.model().slots.update(
                    i as int,
                    world.model().slots[i as int].update(self.id as int, Some(d)),
                ) by {
                crate::model::lemma_attach_at_wf(world.model(), key, d, self.id as int);
                assert(world.model().attach_at(key, d, self.id as int).masks
                    =~= world.model().masks);
            }
        }
        let slot = &mut world.components[i][self.id];
        match slot {
            Some(p) => Ok(p),
            None => {
                proof {
                    assert(false);
                }
                Err(EcsError::ComponentNotPresent)
            },
        }
    }
}

} // verus!
