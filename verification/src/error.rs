use vstd::prelude::*;

verus! {

/// The failure conditions of the store, one variant per condition.
///
/// Every fallible operation reports its failure through this type; none of the
/// verified operations panic. A short human-readable description of each
/// condition is available through [`EcsError::message`].
#[derive(Debug, Clone, Copy, PartialEq, Eq, Structural)]
pub enum EcsError {
    /// A component type key was used that was never registered.
    ComponentNotRegistered,
    /// A component type key was registered a second time.
    ComponentAlreadyRegistered,
    /// More component types were registered than fit in the bitmask word.
    TooManyComponentTypes,
    /// An entity index beyond the entity table's bounds was used.
    EntityOutOfRange,
    /// The entity's bitmask does not mark the requested component as attached.
    ComponentNotPresent,
}

impl EcsError {
    /// The description of `self`, as a sequence of characters.
    pub open spec fn message_spec(self) -> Seq<char> {
        match self {
            EcsError::ComponentNotRegistered => "component type was not registered"@,
            EcsError::ComponentAlreadyRegistered => "component type was already registered"@,
            EcsError::TooManyComponentTypes => "no mask bits are left for another component type"@,
            EcsError::EntityOutOfRange => "entity index is outside the entity table"@,
            EcsError::ComponentNotPresent => "entity does not have that component"@,
        }
    }

    /// A short, static, human-readable description of the failure.
    pub fn message(&self) -> (m: &'static str)
        ensures
            m@ == self.message_spec(),
    {
        match self {
            EcsError::ComponentNotRegistered => "component type was not registered",
            EcsError::ComponentAlreadyRegistered => "component type was already registered",
            EcsError::TooManyComponentTypes => "no mask bits are left for another component type",
            EcsError::EntityOutOfRange => "entity index is outside the entity table",
            EcsError::ComponentNotPresent => "entity does not have that component",
        }
    }
}

} // verus!
