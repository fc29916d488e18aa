//! The small index and handle types shared by every part of the store.

use crate::sentinel::{null_i32, null_u32};
use vstd::prelude::*;

verus! {

/// Position of a row inside one table. Rows grow monotonically between
/// compactions; the largest `u32` is reserved as "no row".
#[derive(Debug, Clone, Copy, Default, Hash, PartialEq, Eq, PartialOrd, Ord, Structural)]
pub struct Row(pub u32);

impl Row {
    /// The row as a position in a vector.
    pub open spec fn spec_index(&self) -> usize {
        self.0 as usize
    }

    /// The row as a position in a vector.
    #[verifier::when_used_as_spec(spec_index)]
    pub fn index(&self) -> (r: usize)
        ensures
            r == self.0 as usize,
    {
        self.0 as usize
    }

    /// Whether this is the reserved value.
    pub open spec fn spec_is_null(&self) -> bool {
        self.0 == u32::MAX
    }

    /// The reserved "no row" value.
    pub fn null() -> (r: Self)
        ensures
            r.0 == u32::MAX,
            r.is_null(),
    {
        Row(null_u32())
    }

    /// Whether this is the reserved value.
    #[verifier::when_used_as_spec(spec_is_null)]
    pub fn is_null(&self) -> (r: bool)
        ensures
            r == (self.0 == u32::MAX),
    {
        self.0 == null_u32()
    }
}

/// Position of an archetype in the world's archetype array. The smallest
/// `i32` is reserved as "no archetype".
#[derive(Debug, Clone, Copy, Default, Hash, PartialEq, Eq, PartialOrd, Ord, Structural)]
pub struct ArchetypeWorldIndex(pub i32);

/// The name under which tables and columns refer to an archetype's index.
pub type ArchetypeIndex = ArchetypeWorldIndex;

impl ArchetypeWorldIndex {
    /// The index as a position in a vector; a negative index wraps.
    pub open spec fn spec_index(&self) -> usize {
        self.0 as usize
    }

    /// The index as a position in a vector. A negative index, the reserved
    /// value among them, wraps as the cast does.
    #[verifier::when_used_as_spec(spec_index)]
    pub fn index(&self) -> (r: usize)
        ensures
            r == self.0 as usize,
            self.0 >= 0 ==> r == self.0,
    {
        #[verifier::truncate]
        (self.0 as usize)
    }

    /// Whether this is the reserved value.
    pub open spec fn spec_is_null(&self) -> bool {
        self.0 == i32::MIN
    }

    /// The reserved "no archetype" value.
    pub fn null() -> (r: Self)
        ensures
            r.0 == i32::MIN,
            r.is_null(),
    {
        ArchetypeWorldIndex(null_i32())
    }

    /// Whether this is the reserved value.
    #[verifier::when_used_as_spec(spec_is_null)]
    pub fn is_null(&self) -> (r: bool)
        ensures
            r == (self.0 == i32::MIN),
    {
        self.0 == null_i32()
    }
}

/// Dense index that the world assigns to a component type when it is first
/// registered. The largest `u32` is reserved as "not registered".
#[derive(Debug, Clone, Copy, Default, Hash, PartialEq, Eq, PartialOrd, Ord, Structural)]
pub struct ComponentIndex(pub u32);

impl ComponentIndex {
    /// The index as a position in a vector.
    pub open spec fn spec_index(&self) -> usize {
        self.0 as usize
    }

    /// The index as a position in a vector.
    #[verifier::when_used_as_spec(spec_index)]
    pub fn index(&self) -> (r: usize)
        ensures
            r == self.0 as usize,
    {
        self.0 as usize
    }

    /// Whether this is the reserved value.
    pub open spec fn spec_is_null(&self) -> bool {
        self.0 == u32::MAX
    }

    /// The reserved "not registered" value.
    pub fn null() -> (r: Self)
        ensures
            r.0 == u32::MAX,
            r.is_null(),
    {
        ComponentIndex(null_u32())
    }

    /// Whether this is the reserved value.
    #[verifier::when_used_as_spec(spec_is_null)]
    pub fn is_null(&self) -> (r: bool)
        ensures
            r == (self.0 == u32::MAX),
    {
        self.0 == null_u32()
    }
}

/// Logical time, advanced once per scheduling epoch. `0` means "never
/// written"; the largest `u32` is reserved.
#[derive(Debug, Clone, Copy, Default, Hash, PartialEq, Eq, PartialOrd, Ord, Structural)]
pub struct Tick(pub u32);

impl Tick {
    /// Whether this is the reserved value.
    pub open spec fn spec_is_null(&self) -> bool {
        self.0 == u32::MAX
    }

    /// The reserved tick.
    pub fn null() -> (r: Self)
        ensures
            r.0 == u32::MAX,
            r.is_null(),
    {
        Tick(null_u32())
    }

    /// Whether this is the reserved value.
    #[verifier::when_used_as_spec(spec_is_null)]
    pub fn is_null(&self) -> (r: bool)
        ensures
            r == (self.0 == u32::MAX),
    {
        self.0 == null_u32()
    }
}

/// Handle of an entity: the slot it occupies in the world's entity registry
/// and the generation of that slot when the entity was created.
#[derive(Debug, Clone, Copy, Hash, PartialEq, Eq, Structural)]
pub struct Entity {
    pub generation: u32,
    pub slot: u32,
}

impl Entity {
    /// Whether this is the reserved value.
    pub open spec fn spec_is_null(&self) -> bool {
        self.generation == u32::MAX && self.slot == u32::MAX
    }

    /// The handle of the entity in the slot at the generation.
    pub fn new(generation: u32, slot: u32) -> (r: Self)
        ensures
            r.generation == generation,
            r.slot == slot,
    {
        Entity { generation, slot }
    }

    /// The value that marks a row as removed or not yet published.
    pub fn null() -> (r: Self)
        ensures
            r.generation == u32::MAX,
            r.slot == u32::MAX,
            r.is_null(),
    {
        Entity { generation: null_u32(), slot: null_u32() }
    }

    /// Whether this is the reserved value.
    #[verifier::when_used_as_spec(spec_is_null)]
    pub fn is_null(&self) -> (r: bool)
        ensures
            r == (self.generation == u32::MAX && self.slot == u32::MAX),
    {
        self.generation == null_u32() && self.slot == null_u32()
    }
}

impl From<u32> for Row {
    fn from(index: u32) -> (r: Self) {
        Row(index)
    }
}

impl vstd::std_specs::convert::FromSpecImpl<u32> for Row {
    open spec fn obeys_from_spec() -> bool {
        true
    }

    open spec fn from_spec(index: u32) -> Self {
        Row(index)
    }
}

impl From<usize> for Row {
    /// The row of the position, cut to 32 bits.
    fn from(index: usize) -> (r: Self) {
        Row(
            #[verifier::truncate]
            (index as u32),
        )
    }
}

impl vstd::std_specs::convert::FromSpecImpl<usize> for Row {
    open spec fn obeys_from_spec() -> bool {
        true
    }

    open spec fn from_spec(index: usize) -> Self {
        Row(index as u32)
    }
}

impl From<u32> for ArchetypeWorldIndex {
    /// The index of the position, its bits taken as signed.
    fn from(index: u32) -> (r: Self) {
        ArchetypeWorldIndex(
            #[verifier::truncate]
            (index as i32),
        )
    }
}

impl vstd::std_specs::convert::FromSpecImpl<u32> for ArchetypeWorldIndex {
    open spec fn obeys_from_spec() -> bool {
        true
    }

    open spec fn from_spec(index: u32) -> Self {
        ArchetypeWorldIndex(index as i32)
    }
}

impl From<usize> for ArchetypeWorldIndex {
    /// The index of the position, cut to 32 bits and taken as signed.
    fn from(index: usize) -> (r: Self) {
        ArchetypeWorldIndex(
            #[verifier::truncate]
            (index as i32),
        )
    }
}

impl vstd::std_specs::convert::FromSpecImpl<usize> for ArchetypeWorldIndex {
    open spec fn obeys_from_spec() -> bool {
        true
    }

    open spec fn from_spec(index: usize) -> Self {
        ArchetypeWorldIndex(index as i32)
    }
}

} // verus!
