//! Type metadata of a component and the identity derived from it.

use crate::ids::ComponentIndex;
use vstd::prelude::*;

verus! {

/// The column records a tick for every row.
pub const COMPONENT_TICK: u8 = 1;

/// Writes to the column are tracked as changes.
pub const COMPONENT_CHANGED: u8 = 2;

/// Insertions into the column are tracked.
pub const COMPONENT_ADDED: u8 = 4;

/// Removals from the column are tracked.
pub const COMPONENT_REMOVED: u8 = 8;

/// Identity and layout of one component type: what the type-erased storage
/// has to know about the values it holds.
#[derive(Debug)]
pub struct ComponentInfo {
    /// 128-bit identity of the type.
    pub type_id: u128,
    pub name: String,
    /// Whether a value of the type has a destructor to run when it leaves
    /// the store.
    pub needs_drop: bool,
    /// The bytes of the type's default value, where it has one.
    pub default_value: Option<Vec<u8>>,
    /// Index of the type in the world; null until it is registered.
    pub index: ComponentIndex,
    /// Size in bytes of one value.
    pub mem_size: u32,
    /// Bit set of `COMPONENT_TICK`, `COMPONENT_CHANGED`, `COMPONENT_ADDED`
    /// and `COMPONENT_REMOVED`.
    pub tick_info: u8,
}

/// XOR of a sequence of 128-bit ids, `0` for the empty sequence.
pub open spec fn xor_ids(ids: Seq<u128>) -> u128
    decreases ids.len(),
{
    if ids.len() == 0 {
        0
    } else {
        xor_ids(ids.drop_last()) ^ ids.last()
    }
}

impl ComponentInfo {
    /// A default value, where there is one, has exactly the type's size.
    pub open spec fn wf(&self) -> bool {
        self.default_value matches Some(v) ==> v@.len() == self.mem_size
    }

    /// The bytes that initialise a fresh cell: the default value, or zeroes
    /// where the type has none.
    pub open spec fn default_bytes(&self) -> Seq<u8> {
        match self.default_value {
            Some(v) => v@,
            None => Seq::new(self.mem_size as nat, |i: int| 0u8),
        }
    }

    /// The metadata of a component type that is not registered yet: its index
    /// is null.
    pub fn create(
        type_id: u128,
        name: String,
        needs_drop: bool,
        default_value: Option<Vec<u8>>,
        mem_size: u32,
        tick_info: u8,
    ) -> (r: Self)
        requires
            default_value matches Some(v) ==> v@.len() == mem_size,
        ensures
            r.wf(),
            r.type_id == type_id,
            r.name == name,
            r.needs_drop == needs_drop,
            r.default_value == default_value,
            r.mem_size == mem_size,
            r.tick_info == tick_info,
            r.index.is_null(),
    {
        ComponentInfo {
            type_id,
            name,
            needs_drop,
            default_value,
            index: ComponentIndex::null(),
            mem_size,
            tick_info,
        }
    }

    /// The bytes that initialise a fresh cell: see `default_bytes`.
    pub fn default_vec(&self) -> (r: Vec<u8>)
        requires
            self.wf(),
        ensures
            r@ == self.default_bytes(),
            r@.len() == self.mem_size,
    {
        match &self.default_value {
            Some(v) => v.clone(),
            None => {
                let mut out: Vec<u8> = Vec::new();
                let n: usize = self.mem_size as usize;
                while out.len() < n
                    invariant
                        out@.len() <= n,
                        forall|i: int| 0 <= i < out@.len() ==> out@[i] == 0u8,
                    decreases n - out@.len(),
                {
                    out.push(0u8);
                }
                proof {
                    assert(out@ =~= self.default_bytes());
                }
                out
            },
        }
    }

    /// The 128-bit identity of the type.
    pub fn type_id(&self) -> (r: u128)
        ensures
            r == self.type_id,
    {
        self.type_id
    }

    /// The name of the type, for diagnostics.
    pub fn name(&self) -> (r: &String)
        ensures
            r == self.name,
    {
        &self.name
    }

    /// Size in bytes of one value.
    pub open spec fn spec_size(&self) -> usize {
        self.mem_size as usize
    }

    /// Size in bytes of one value.
    #[verifier::when_used_as_spec(spec_size)]
    pub fn size(&self) -> (r: usize)
        ensures
            r == self.mem_size as usize,
    {
        self.mem_size as usize
    }

    /// The 128-bit id that archetype identities are built from.
    pub fn id(&self) -> (r: u128)
        ensures
            r == self.type_id,
    {
        self.type_id
    }

    /// Whether the column keeps a tick per row.
    pub open spec fn spec_is_tick(&self) -> bool {
        self.tick_info & COMPONENT_TICK != 0
    }

    /// Whether the column keeps a tick per row.
    #[verifier::when_used_as_spec(spec_is_tick)]
    pub fn is_tick(&self) -> (r: bool)
        ensures
            r == (self.tick_info & COMPONENT_TICK != 0),
    {
        self.tick_info & COMPONENT_TICK != 0
    }

    /// Whether writes to the column are tracked as changes.
    pub open spec fn spec_is_changed(&self) -> bool {
        self.tick_info & COMPONENT_CHANGED != 0
    }

    /// Whether writes to the column are tracked as changes.
    #[verifier::when_used_as_spec(spec_is_changed)]
    pub fn is_changed(&self) -> (r: bool)
        ensures
            r == (self.tick_info & COMPONENT_CHANGED != 0),
    {
        self.tick_info & COMPONENT_CHANGED != 0
    }

    /// XOR of the ids of `vec`, in any order the same.
    pub fn calc_id(vec: &Vec<ComponentInfo>) -> (r: u128)
        ensures
            r == xor_ids(vec@.map_values(|c: ComponentInfo| c.type_id)),
    {
        let mut id: u128 = 0;
        let ghost ids = vec@.map_values(|c: ComponentInfo| c.type_id);
        let mut i: usize = 0;
        while i < vec.len()
            invariant
                i <= vec.len(),
                ids == vec@.map_values(|c: ComponentInfo| c.type_id),
                id == xor_ids(ids.take(i as int)),
            decreases vec.len() - i,
        {
            proof {
                assert(ids.take(i + 1).drop_last() =~= ids.take(i as int));
            }
            id = id ^ vec[i].id();
            i += 1;
        }
        proof {
            assert(ids.take(i as int) =~= ids);
        }
        id
    }
}

} // verus!
