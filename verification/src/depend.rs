//! What a system's access to an archetype depends on: the flags that the
//! scheduler orders systems by, and the archetypes that a structural change
//! may lead to.

use crate::archetype::{type_ids, Archetype};
use crate::component::{xor_ids, ComponentInfo};
use crate::ids::ComponentIndex;
use crate::world::World;
use pi_share::Share;
use vstd::prelude::*;

verus! {

/// Excludes an archetype or a component.
pub const WITHOUT: u32 = 0b000000001;

/// Optional; goes with reading or writing.
pub const OPTION: u32 = 0b000000010;

/// Reads a component or a resource.
pub const READ: u32 = 0b000000100;

/// Writes a component or a resource.
pub const WRITE: u32 = 0b000001000;

/// A component that a structural change does not touch moves to the new
/// archetype.
pub const MOVE: u32 = 0b000010000;

/// Creates and destroys entities, adds and removes components, reads and
/// writes them.
pub const ENTITY_EDIT: u32 = 0b000100000;

/// Writes a resource that is shared between several.
pub const SHARE_WRITE: u32 = 0b001000000;

/// Reads the world.
pub const WORLD_READ: u32 = 0b010000000;

/// Writes the world.
pub const WORLD_WRITE: u32 = 0b100000000;

/// Every flag that there is.
pub const ALL_FLAGS: u32 = 0b111111111;

/// A set of access flags.
#[derive(Debug, Clone, Copy, PartialEq, Eq, Hash, Structural)]
pub struct Flags {
    pub bits: u32,
}

impl Flags {
    /// The flags as bits.
    pub open spec fn spec_bits(&self) -> u32 {
        self.bits
    }

    /// Whether every flag of `other` is in the set.
    pub open spec fn spec_contains(&self, other: Flags) -> bool {
        self.spec_bits() & other.spec_bits() == other.spec_bits()
    }

    /// No flag.
    pub fn empty() -> (r: Self)
        ensures
            r.spec_bits() == 0,
    {
        Flags { bits: 0 }
    }

    /// The flags of the bits; bits that stand for no flag are dropped.
    pub fn from_bits_truncate(bits: u32) -> (r: Self)
        ensures
            r.spec_bits() == bits & ALL_FLAGS,
    {
        Flags { bits: bits & ALL_FLAGS }
    }

    /// The flags as bits.
    #[verifier::when_used_as_spec(spec_bits)]
    pub fn bits(&self) -> (r: u32)
        ensures
            r == self.spec_bits(),
    {
        self.bits
    }

    /// Whether there is no flag in the set.
    pub fn is_empty(&self) -> (r: bool)
        ensures
            r == (self.spec_bits() == 0),
    {
        self.bits == 0
    }

    /// Whether every flag of `other` is in the set.
    #[verifier::when_used_as_spec(spec_contains)]
    pub fn contains(&self, other: Flags) -> (r: bool)
        ensures
            r == self.spec_contains(other),
    {
        self.bits & other.bits == other.bits
    }

    /// Adds the flags of `other` to the set.
    pub fn insert(&mut self, other: Flags)
        ensures
            final(self).spec_bits() == old(self).spec_bits() | other.spec_bits(),
    {
        self.bits = self.bits | other.bits;
    }
}

/// One thing that the access of a system to an archetype depends on.
pub enum ArchetypeDepend {
    /// Access flags.
    Flag(Flags),
    /// An archetype that a structural change leads to: its id, its name,
    /// and its component types.
    Alter((u128, String, Vec<Share<ComponentInfo>>)),
}

/// Everything that the access of a system to an archetype depends on.
pub struct ArchetypeDependResult {
    pub flag: Flags,
    pub reads: Vec<ComponentIndex>,
    pub writes: Vec<ComponentIndex>,
    pub alters: Vec<(u128, String, Vec<Share<ComponentInfo>>)>,
}

impl ArchetypeDependResult {
    /// Nothing depended on.
    pub fn new() -> (r: Self)
        ensures
            r.flag.spec_bits() == 0,
            r.reads@.len() == 0,
            r.writes@.len() == 0,
            r.alters@.len() == 0,
    {
        ArchetypeDependResult {
            flag: Flags::empty(),
            reads: Vec::new(),
            writes: Vec::new(),
            alters: Vec::new(),
        }
    }

    /// Takes one dependency in: flags join the flags; an archetype that a
    /// structural change leads to joins the list, unless the archetype is
    /// excluded.
    pub fn merge(&mut self, depend: ArchetypeDepend)
        ensures
            final(self).reads@ == old(self).reads@,
            final(self).writes@ == old(self).writes@,
            match depend {
                ArchetypeDepend::Flag(f) => final(self).flag.spec_bits() == old(self).flag.spec_bits() | f.spec_bits() && final(self).alters@ == old(self).alters@,
                ArchetypeDepend::Alter(t) => final(self).flag == old(self).flag && final(self).alters@ == if old(self).flag.spec_contains(Flags::from_bits(WITHOUT)) {
                    old(self).alters@
                } else {
                    old(self).alters@.push(t)
                },
            },
    {
        match depend {
            ArchetypeDepend::Flag(f) => {
                self.flag.insert(f);
            },
            ArchetypeDepend::Alter(t) => {
                if !self.flag.contains(Flags::of(WITHOUT)) {
                    self.alters.push(t);
                }
            },
        }
    }

    /// Where the components are exactly those of the archetype, by their
    /// id, the system writes the archetype: the write flag is set, and the
    /// index of each component joins the written ones.
    pub fn insert(&mut self, ar: &Archetype, world: &World, components: Vec<ComponentInfo>)
        requires
            world.columns_wf(),
        ensures
            final(self).reads@ == old(self).reads@,
            final(self).alters@ == old(self).alters@,
            if xor_ids(type_ids(components@)) == ar.spec_id() {
                &&& final(self).flag.spec_bits() == old(self).flag.spec_bits() | WRITE
                &&& final(self).writes@.len() == old(self).writes@.len() + components@.len()
                &&& final(self).writes@.take(old(self).writes@.len() as int) == old(self).writes@
                &&& forall|i: int|
                    old(self).writes@.len() <= i < final(self).writes@.len() ==> {
                        let index = #[trigger] final(self).writes@[i];
                        let component = components@[i - old(self).writes@.len()];
                        if index.is_null() {
                            forall|c: int|
                                0 <= c < world.columns().len() ==> (#[trigger] world.columns()[c]).meta().type_id
                                    != component.type_id
                        } else {
                            index.0 < world.columns().len() && world.columns()[index.0 as int].meta().type_id
                                == component.type_id
                        }
                    }
            } else {
                final(self).flag == old(self).flag && final(self).writes@ == old(self).writes@
            },
    {
        let id = ComponentInfo::calc_id(&components);
        proof {
            assert(components@.map_values(|c: ComponentInfo| c.type_id) == type_ids(components@));
        }
        if id != *ar.id() {
            return ;
        }
        self.merge(ArchetypeDepend::Flag(Flags::of(WRITE)));
        proof {
            assert(0b000001000u32 & 0b111111111u32 == 0b000001000u32) by (bit_vector);
        }
        let ghost start = old(self).writes@.len() as int;
        let mut k: usize = 0;
        while k < components.len()
            invariant
                k <= components@.len(),
                world.columns_wf(),
                start == old(self).writes@.len(),
                self.flag.spec_bits() == old(self).flag.spec_bits() | WRITE,
                self.reads@ == old(self).reads@,
                self.alters@ == old(self).alters@,
                self.writes@.len() == start + k,
                self.writes@.take(start) == old(self).writes@,
                forall|i: int|
                    start <= i < start + k ==> {
                        let index = #[trigger] self.writes@[i];
                        let component = components@[i - start];
                        if index.is_null() {
                            forall|c: int|
                                0 <= c < world.columns().len() ==> (#[trigger] world.columns()[c]).meta().type_id
                                    != component.type_id
                        } else {
                            index.0 < world.columns().len() && world.columns()[index.0 as int].meta().type_id
                                == component.type_id
                        }
                    },
            decreases components@.len() - k,
        {
            let index = world.get_component_index(components[k].type_id());
            let ghost before = self.writes@;
            self.writes.push(index);
            proof {
                assert(self.writes@.take(start) =~= before.take(start));
                assert forall|i: int| start <= i < start + k implies #[trigger] self.writes@[i]
                    == before[i] by {}
            }
            k += 1;
        }
    }

    /// Forgets everything.
    pub fn clear(&mut self)
        ensures
            final(self).flag.spec_bits() == 0,
            final(self).reads@.len() == 0,
            final(self).writes@.len() == 0,
            final(self).alters@.len() == 0,
    {
        self.flag = Flags::empty();
        self.reads.clear();
        self.writes.clear();
        self.alters.clear();
    }
}

impl Flags {
    /// The set of the flags that the bits stand for.
    pub open spec fn from_bits(bits: u32) -> Flags {
        Flags { bits: bits & ALL_FLAGS }
    }

    /// The set of the flags that the bits stand for.
    #[verifier::when_used_as_spec(from_bits)]
    pub fn of(bits: u32) -> (r: Self)
        ensures
            r == Flags::from_bits(bits),
    {
        Flags { bits: bits & ALL_FLAGS }
    }
}

} // verus!
