//! The world: the registry of component types, archetypes, entities and the
//! listeners on the creation of archetypes.

use crate::archetype::{
    comes_from, effective, lemma_records_of, lemma_slots_concat, lemma_slots_of_records,
    listened_slots, listens_on, op_adds, op_removes, plan_adding, plan_moving,
    plan_removing, plan_result, record_of, records_of, slots_with_key, sorted_ops, type_ids,
    Archetype,
    ArchetypeInfo, Record,
};
use crate::bitset::bitset_with_capacity;
use crate::column::{
    lemma_len_fits_rows, lemma_same_but_slots, row_fits, slot_same, source_of, store_extends, Column,
    MAX_BLOB_BYTES,
};
use crate::component::{xor_ids, ComponentInfo};
use crate::ids::{ArchetypeWorldIndex, ComponentIndex, Entity, Row, Tick};
use crate::listener::Listener;
use crate::compaction::{is_compaction, lemma_compaction_source};
use crate::structural::{
    cells_ready, drop_cells, in_list, init_cells, lemma_cells_composed, lemma_plan_lists,
    lemma_plan_same, move_cells,
};
use crate::table::{has_component, infos_of, live_values, sorted_infos, Table};
use pi_share::Share;
use vstd::prelude::*;

verus! {

pub use crate::ids::ArchetypeIndex;

/// Why an operation on an entity or a query could not be carried out.
#[derive(Debug, Clone, Copy, PartialEq, Eq, Structural)]
pub enum QueryError {
    /// The query does not read the requested component.
    MissingReadAccess,
    /// The query does not write the requested component.
    MissingWriteAccess,
    /// The entity does not have the requested component.
    MissingComponent,
    /// The entity is not in the world.
    NoSuchEntity,
    /// The entity is in the world, but in an archetype that the query does
    /// not match.
    NoSuchArchetype,
}

/// What the registry records of one entity slot.
#[derive(Debug, Clone, Copy, PartialEq, Eq, Structural)]
pub struct EntityAddr {
    /// The generation of the entity that the slot holds, or will hold next.
    pub generation: u32,
    /// The archetype of the entity.
    pub index: ArchetypeWorldIndex,
    /// The row of the entity in the table of its archetype.
    pub row: Row,
    /// Whether the slot holds an entity.
    pub live: bool,
    /// The tick at which the entity took its row: when it was inserted, or
    /// last moved between archetypes.
    pub tick: Tick,
}

/// The registry of component types, archetypes and entities.
pub struct World {
    pub(crate) columns: Vec<Column>,
    pub(crate) archetypes: Vec<Archetype>,
    slots: Vec<EntityAddr>,
    free: Vec<u32>,
    tick: Tick,
    listeners: Vec<Listener>,
}

/// The listener slots that a listener with the key gets in an archetype
/// with the columns: one for each listened component that the archetype
/// has, in their order; none where the listener's query rejects the
/// archetype.
pub open spec fn records_for(columns: Seq<ComponentInfo>, key: usize, listener: Listener) -> Seq<
    Record,
> {
    if listener.wanted(columns) {
        records_of(columns, key, listener.listened@, listener.listened@.len())
    } else {
        Seq::empty()
    }
}

/// The listener slots that the first `n` listeners get in an archetype with
/// the columns: those of each listener, under its position as the key, in
/// the order the listeners were registered.
pub open spec fn all_records(columns: Seq<ComponentInfo>, listeners: Seq<Listener>, n: nat) -> Seq<
    Record,
>
    decreases n,
{
    if n == 0 || n > listeners.len() {
        Seq::empty()
    } else {
        all_records(columns, listeners, (n - 1) as nat) + records_for(
            columns,
            (n - 1) as usize,
            listeners[n - 1],
        )
    }
}

impl World {
    /// The column of each component type, by component index.
    pub closed spec fn columns(&self) -> Seq<Column> {
        self.columns@
    }

    /// The archetypes, by archetype index.
    pub closed spec fn archetypes(&self) -> Seq<Archetype> {
        self.archetypes@
    }

    /// The entity slots.
    pub closed spec fn slots(&self) -> Seq<EntityAddr> {
        self.slots@
    }

    /// The slots that hold no entity and wait to be used again.
    pub closed spec fn free(&self) -> Seq<u32> {
        self.free@
    }

    /// The current tick.
    pub closed spec fn spec_tick(&self) -> Tick {
        self.tick
    }

    /// The listeners on the creation of archetypes: what each listens on,
    /// in the order they were registered.
    pub closed spec fn listeners(&self) -> Seq<Listener> {
        self.listeners@
    }

    /// The registry of listeners has a length that the machine can hold.
    pub proof fn lemma_listeners_len(&self)
        ensures
            self.listeners().len() <= usize::MAX,
    {
        assert(self.listeners.len() == self.listeners@.len());
    }

    /// The table of the archetype at `index`.
    pub open spec fn table(&self, index: int) -> Table {
        self.archetypes()[index].table_view()
    }

    /// Where the entity is: its archetype and row, if the entity is in the
    /// world.
    pub open spec fn located(&self, e: Entity) -> Option<(ArchetypeWorldIndex, Row)> {
        if e.slot < self.slots().len() && self.slots()[e.slot as int].live && self.slots()[e.slot as int].generation
            == e.generation {
            Some((self.slots()[e.slot as int].index, self.slots()[e.slot as int].row))
        } else {
            None
        }
    }

    /// The tick at which the entity took its row; the reserved tick for an
    /// entity that is not in the world.
    pub open spec fn placed_at(&self, e: Entity) -> Tick {
        if self.located(e).is_some() {
            self.slots()[e.slot as int].tick
        } else {
            Tick(u32::MAX)
        }
    }

    /// Every column is registered under its index, with well-formed
    /// metadata, and no two columns are of the same type.
    pub open spec fn columns_wf(&self) -> bool {
        &&& self.columns().len() < u32::MAX
        &&& forall|c: int|
            0 <= c < self.columns().len() ==> (#[trigger] self.columns()[c]).meta().index.0 == c
                && self.columns()[c].meta().wf()
        &&& forall|c: int, d: int|
            0 <= c < d < self.columns().len() ==> (#[trigger] self.columns()[c]).meta().type_id != (
            #[trigger] self.columns()[d]).meta().type_id
    }

    /// Every archetype is well formed, placed at its index, backed by the
    /// columns of the world, and holds null in exactly the rows queued for
    /// removal; no two archetypes have the same component set.
    pub open spec fn archetypes_wf(&self) -> bool {
        &&& self.archetypes().len() <= i32::MAX
        &&& forall|a: int|
            0 <= a < self.archetypes().len() ==> {
                &&& (#[trigger] self.archetypes()[a]).wf()
                &&& self.table(a).ar_index().0 == a
                &&& self.table(a).backed_by(self.columns())
                &&& self.table(a).marked()
            }
        &&& forall|a: int, b: int|
            0 <= a < b < self.archetypes().len() ==> (#[trigger] self.table(a)).columns() != (
            #[trigger] self.table(b)).columns()
    }

    /// Every entity that a slot holds stands in the row that the slot
    /// records, and every entity in a row is held by the slot that records
    /// that row.
    pub open spec fn entities_wf(&self) -> bool {
        &&& self.slots().len() < u32::MAX
        &&& forall|s: int|
            0 <= s < self.slots().len() && (#[trigger] self.slots()[s]).live ==> {
                let addr = self.slots()[s];
                &&& 0 <= addr.index.0 < self.archetypes().len()
                &&& addr.row.0 < self.table(addr.index.0 as int).entities().len()
                &&& self.table(addr.index.0 as int).entities()[addr.row.0 as int] == Entity {
                    generation: addr.generation,
                    slot: s as u32,
                }
            }
        &&& forall|a: int, r: int|
            0 <= a < self.archetypes().len() && 0 <= r < self.table(a).entities().len() && !(
            #[trigger] self.table(a).entities()[r]).is_null() ==> {
                let e = self.table(a).entities()[r];
                self.located(e) == Some((ArchetypeWorldIndex(a as i32), Row(r as u32)))
            }
        &&& self.free().no_duplicates()
        &&& forall|i: int|
            0 <= i < self.free().len() ==> (#[trigger] self.free()[i]) < self.slots().len()
                && !self.slots()[self.free()[i] as int].live
    }

    /// Every archetype has the listener slots of every listener, in the
    /// order the listeners were registered: a listener that was there when
    /// the archetype was created got them then, before anything was
    /// written, and one that came later when it was registered.
    pub open spec fn listeners_wf(&self) -> bool {
        forall|a: int|
            0 <= a < self.archetypes().len() ==> (#[trigger] self.archetypes()[a]).spec_records()
                == all_records(self.table(a).columns(), self.listeners(), self.listeners().len())
    }

    /// The invariant of the world at every quiescent point.
    pub open spec fn wf(&self) -> bool {
        &&& self.columns_wf()
        &&& self.archetypes_wf()
        &&& self.entities_wf()
        &&& self.listeners_wf()
    }

    /// The listener slots are as they should be where neither they nor the
    /// listeners nor the component sets changed.
    pub proof fn lemma_records_kept(&self, before: &World)
        requires
            before.listeners_wf(),
            self.listeners() == before.listeners(),
            self.archetypes().len() == before.archetypes().len(),
            forall|a: int|
                0 <= a < before.archetypes().len() ==> (#[trigger] self.archetypes()[a]).spec_records()
                    == before.archetypes()[a].spec_records() && self.table(a).columns()
                    == before.table(a).columns(),
        ensures
            self.listeners_wf(),
    {
        assert forall|a: int| 0 <= a < self.archetypes().len() implies (
        #[trigger] self.archetypes()[a]).spec_records() == all_records(
            self.table(a).columns(),
            self.listeners(),
            self.listeners().len(),
        ) by {
            assert(before.archetypes()[a].spec_records() == all_records(
                before.table(a).columns(),
                before.listeners(),
                before.listeners().len(),
            ));
        }
    }

    /// A world without component types and entities, with the archetype of
    /// the empty component set at index zero.
    pub fn new() -> (w: Self)
        ensures
            w.wf(),
            w.columns().len() == 0,
            w.archetypes().len() == 1,
            w.table(0).columns().len() == 0,
            w.table(0).entities().len() == 0,
            w.slots().len() == 0,
            w.spec_tick() == Tick(1),
            w.listeners().len() == 0,
    {
        let mut columns: Vec<Column> = Vec::new();
        let info = ArchetypeInfo::new(Vec::new());
        let mut ar = Archetype::new(info);
        ar.set_index(ArchetypeWorldIndex(0));
        ar.table().init_blobs(&mut columns);
        let mut archetypes: Vec<Archetype> = Vec::new();
        proof {
            assert(ar.spec_records() =~= all_records(ar.table_view().columns(), Seq::empty(), 0));
        }
        archetypes.push(ar);
        World {
            columns,
            archetypes,
            slots: Vec::new(),
            free: Vec::new(),
            tick: Tick(1),
            listeners: Vec::new(),
        }
    }

    /// The current tick.
    pub fn tick(&self) -> (r: Tick)
        ensures
            r == self.spec_tick(),
    {
        self.tick
    }

    /// Advances the tick by one, for a new epoch. The reserved tick is
    /// skipped: after the largest tick comes `1`.
    pub fn increment_tick(&mut self) -> (r: Tick)
        ensures
            r == final(self).spec_tick(),
            r.0 == if old(self).spec_tick().0 >= u32::MAX - 1 {
                1
            } else {
                old(self).spec_tick().0 + 1
            },
            final(self).columns() == old(self).columns(),
            final(self).archetypes() == old(self).archetypes(),
            final(self).slots() == old(self).slots(),
            final(self).free() == old(self).free(),
            final(self).listeners() == old(self).listeners(),
    {
        if self.tick.0 >= u32::MAX - 1 {
            self.tick = Tick(1);
        } else {
            self.tick = Tick(self.tick.0 + 1);
        }
        self.tick
    }

    /// The tick at which the entity took its row: when it was inserted, or
    /// last moved between archetypes. The reserved tick for an entity that
    /// is not in the world.
    pub fn entity_tick(&self, e: Entity) -> (r: Tick)
        ensures
            r == self.placed_at(e),
    {
        if (e.slot as usize) < self.slots.len() {
            let addr = self.slots[e.slot as usize];
            if addr.live && addr.generation == e.generation {
                return addr.tick;
            }
        }
        Tick::null()
    }

    /// The index of the component type with the id, null if none is
    /// registered.
    pub fn get_component_index(&self, type_id: u128) -> (r: ComponentIndex)
        requires
            self.columns_wf(),
        ensures
            !r.is_null() ==> r.0 < self.columns().len() && self.columns()[r.0 as int].meta().type_id
                == type_id,
            r.is_null() ==> forall|c: int|
                0 <= c < self.columns().len() ==> (#[trigger] self.columns()[c]).meta().type_id
                    != type_id,
    {
        let mut c: usize = 0;
        while c < self.columns.len()
            invariant
                c <= self.columns().len(),
                self.columns_wf(),
                forall|d: int|
                    0 <= d < c ==> (#[trigger] self.columns()[d]).meta().type_id != type_id,
            decreases self.columns().len() - c,
        {
            if self.columns[c].info().type_id() == type_id {
                return ComponentIndex(c as u32);
            }
            c += 1;
        }
        ComponentIndex::null()
    }

    /// The column of the component type, if it is registered.
    pub fn get_column(&self, index: ComponentIndex) -> (r: Option<&Column>)
        ensures
            match r {
                Some(c) => index.0 < self.columns().len() && *c == self.columns()[index.0 as int],
                None => index.0 >= self.columns().len(),
            },
    {
        if index.index() < self.columns.len() {
            Some(&self.columns[index.index()])
        } else {
            None
        }
    }

    /// Where the entity is: its archetype and row. An entity that is not in
    /// the world, or no longer, gives `NoSuchEntity`.
    pub fn lookup(&self, e: Entity) -> (r: Result<(ArchetypeWorldIndex, Row), QueryError>)
        ensures
            match r {
                Ok(addr) => self.located(e) == Some(addr),
                Err(err) => err == QueryError::NoSuchEntity && self.located(e).is_none(),
            },
    {
        if (e.slot as usize) < self.slots.len() {
            let addr = self.slots[e.slot as usize];
            if addr.live && addr.generation == e.generation {
                return Ok((addr.index, addr.row));
            }
        }
        Err(QueryError::NoSuchEntity)
    }

    /// Whether every component type of the list is the one registered in
    /// the world under its index.
    pub open spec fn registered(&self, infos: Seq<ComponentInfo>) -> bool {
        forall|k: int|
            0 <= k < infos.len() ==> (#[trigger] infos[k]).index.0 < self.columns().len()
                && self.columns()[infos[k].index.0 as int].meta() == infos[k]
    }

    /// Registers a component type and returns its index. A type that is
    /// registered already keeps its index, and nothing changes.
    pub fn add_component_info(&mut self, info: ComponentInfo) -> (r: ComponentIndex)
        requires
            old(self).wf(),
            info.wf(),
            old(self).columns().len() < u32::MAX - 1,
        ensures
            final(self).wf(),
            r.0 < final(self).columns().len(),
            final(self).columns()[r.0 as int].meta().type_id == info.type_id,
            final(self).archetypes() == old(self).archetypes(),
            final(self).slots() == old(self).slots(),
            final(self).free() == old(self).free(),
            final(self).listeners() == old(self).listeners(),
            final(self).spec_tick() == old(self).spec_tick(),
            final(self).columns().len() >= old(self).columns().len(),
            forall|c: int|
                0 <= c < old(self).columns().len() ==> #[trigger] final(self).columns()[c] == old(self).columns()[c],
            (exists|c: int|
                0 <= c < old(self).columns().len() && (#[trigger] old(self).columns()[c]).meta().type_id
                    == info.type_id) ==> final(self).columns() == old(self).columns(),
            (forall|c: int|
                0 <= c < old(self).columns().len() ==> (#[trigger] old(self).columns()[c]).meta().type_id
                    != info.type_id) ==> {
                &&& r.0 == old(self).columns().len()
                &&& final(self).columns().len() == old(self).columns().len() + 1
                &&& final(self).columns()[r.0 as int].meta() == (ComponentInfo { index: r, ..info })
                &&& final(self).columns()[r.0 as int].slots().len() == 0
            },
    {
        let found = self.get_component_index(info.type_id);
        if !found.is_null() {
            return found;
        }
        let index = ComponentIndex(self.columns.len() as u32);
        let mut info = info;
        info.index = index;
        self.columns.push(Column::new(info));
        proof {
            assert forall|a: int| 0 <= a < self.archetypes().len() implies self.table(a).backed_by(
                self.columns(),
            ) by {
                assert(old(self).table(a).backed_by(old(self).columns()));
                assert forall|k: int| 0 <= k < self.table(a).columns().len() implies {
                    &&& (#[trigger] self.table(a).columns()[k]).index.0 < self.columns().len()
                    &&& self.columns()[self.table(a).columns()[k].index.0 as int].meta()
                        == self.table(a).columns()[k]
                    &&& self.columns()[self.table(a).columns()[k].index.0 as int].has_slot(
                        self.table(a).ar_index(),
                    )
                } by {
                    let c = self.table(a).columns()[k].index.0 as int;
                    assert(self.columns()[c] == old(self).columns()[c]);
                }
            }
        }
        index
    }

    /// The bytes of a component of an entity. An entity that is not in the
    /// world gives `NoSuchEntity`, one that lacks the component
    /// `MissingComponent`.
    pub open spec fn component(&self, e: Entity, index: ComponentIndex) -> Result<
        Seq<u8>,
        QueryError,
    > {
        match self.located(e) {
            None => Err(QueryError::NoSuchEntity),
            Some(addr) => if has_component(self.table(addr.0.0 as int).columns(), index) {
                Ok(self.columns()[index.0 as int].cell(addr.0, addr.1))
            } else {
                Err(QueryError::MissingComponent)
            },
        }
    }

    /// The tick of a component of an entity, zero where none was recorded.
    /// An entity that is not in the world gives `NoSuchEntity`, one that
    /// lacks the component `MissingComponent`.
    pub open spec fn tick_of(&self, e: Entity, index: ComponentIndex) -> Result<Tick, QueryError> {
        match self.located(e) {
            None => Err(QueryError::NoSuchEntity),
            Some(addr) => if has_component(self.table(addr.0.0 as int).columns(), index) {
                Ok(self.columns()[index.0 as int].tick(addr.0, addr.1))
            } else {
                Err(QueryError::MissingComponent)
            },
        }
    }

    /// The bytes of a component of an entity: see `component`.
    pub fn get_component(&self, e: Entity, index: ComponentIndex) -> (r: Result<Vec<u8>, QueryError>)
        requires
            self.wf(),
        ensures
            match r {
                Ok(bytes) => self.component(e, index) == Ok::<Seq<u8>, QueryError>(bytes@),
                Err(err) => self.component(e, index) == Err::<Seq<u8>, QueryError>(err),
            },
    {
        let addr = match self.lookup(e) {
            Ok(addr) => addr,
            Err(err) => {
                return Err(err);
            },
        };
        let table = self.archetypes[addr.0.index()].table();
        match table.column_position(index) {
            Some(k) => Ok(table.read_column(&self.columns, k, addr.1)),
            None => Err(QueryError::MissingComponent),
        }
    }

    /// The tick of a component of an entity, zero where none was recorded.
    pub fn get_tick(&self, e: Entity, index: ComponentIndex) -> (r: Result<Tick, QueryError>)
        requires
            self.wf(),
        ensures
            r == self.tick_of(e, index),
    {
        let addr = match self.lookup(e) {
            Ok(addr) => addr,
            Err(err) => {
                return Err(err);
            },
        };
        let table = self.archetypes[addr.0.index()].table();
        match table.column_position(index) {
            Some(k) => Ok(table.read_tick(&self.columns, k, addr.1)),
            None => Err(QueryError::MissingComponent),
        }
    }

    /// The archetype at the index.
    pub fn get_archetype(&self, index: ArchetypeWorldIndex) -> (r: Option<&Archetype>)
        ensures
            match r {
                Some(ar) => 0 <= index.0 < self.archetypes().len() && *ar == self.archetypes()[index.0 as int],
                None => !(0 <= index.0 < self.archetypes().len()),
            },
    {
        if index.0 >= 0 && index.index() < self.archetypes.len() {
            Some(&self.archetypes[index.index()])
        } else {
            None
        }
    }

    /// The archetype at a position that the world has.
    pub fn archetype_at(&self, a: usize) -> (r: &Archetype)
        requires
            a < self.archetypes().len(),
        ensures
            *r == self.archetypes()[a as int],
    {
        &self.archetypes[a]
    }

    /// The column of each component type, by component index.
    pub fn get_columns(&self) -> (r: &Vec<Column>)
        ensures
            r@ == self.columns(),
    {
        &self.columns
    }

    /// Whether one more row fits the table of the archetype, and a slot
    /// can be had for one more entity: what an insertion needs.
    pub fn can_insert(&self, index: ArchetypeWorldIndex) -> (r: bool)
        requires
            self.wf(),
        ensures
            r == (0 <= index.0 < self.archetypes().len() && self.table(index.0 as int).has_room()
                && self.has_slot_left()),
    {
        if index.0 < 0 || index.index() >= self.archetypes.len() {
            return false;
        }
        proof {
            assert(self.archetypes()[index.0 as int].wf());
        }
        if !self.archetypes[index.index()].table().check_room() {
            return false;
        }
        self.free.len() > 0 || self.slots.len() < (u32::MAX - 1) as usize
    }

    /// Whether every table has room for one more row, and a value of every
    /// component type fits a blob: what a structural change needs.
    pub fn is_roomy(&self) -> (r: bool)
        requires
            self.wf(),
        ensures
            r == self.roomy(),
    {
        let mut a: usize = 0;
        while a < self.archetypes.len()
            invariant
                a <= self.archetypes().len(),
                self.wf(),
                forall|b: int| 0 <= b < a ==> (#[trigger] self.table(b)).has_room(),
            decreases self.archetypes().len() - a,
        {
            proof {
                assert(self.archetypes()[a as int].wf());
            }
            if !self.archetypes[a].table().check_room() {
                return false;
            }
            a += 1;
        }
        let mut c: usize = 0;
        while c < self.columns.len()
            invariant
                c <= self.columns().len(),
                forall|d: int| 0 <= d < c ==> (#[trigger] self.columns()[d]).size() <= MAX_BLOB_BYTES,
            decreases self.columns().len() - c,
        {
            if self.columns[c].info().size() > MAX_BLOB_BYTES {
                return false;
            }
            c += 1;
        }
        true
    }

    /// The index of the archetype of the component types with the
    /// indices, which ascend strictly and are registered; the archetype is
    /// created where the world has none yet. `None`, and nothing changes,
    /// where an index is not registered, the indices do not ascend
    /// strictly, or the world cannot take another archetype.
    pub fn archetype_of(&mut self, indices: &Vec<ComponentIndex>) -> (r: Option<ArchetypeWorldIndex>)
        requires
            old(self).wf(),
        ensures
            final(self).wf(),
            final(self).slots() == old(self).slots(),
            final(self).free() == old(self).free(),
            final(self).listeners() == old(self).listeners(),
            final(self).spec_tick() == old(self).spec_tick(),
            old(self).same_store(final(self)),
            forall|a: int|
                0 <= a < old(self).archetypes().len() ==> #[trigger] final(self).archetypes()[a]
                    == old(self).archetypes()[a],
            match r {
                Some(index) => {
                    &&& 0 <= index.0 < final(self).archetypes().len()
                    &&& final(self).table(index.0 as int).columns().len() == indices@.len()
                    &&& forall|k: int|
                        0 <= k < indices@.len() ==> (#[trigger] final(self).table(
                            index.0 as int,
                        ).columns()[k]).index == indices@[k]
                    &&& final(self).archetypes().len() <= old(self).archetypes().len() + 1
                    &&& index.0 >= old(self).archetypes().len() ==> final(self).table(
                        index.0 as int,
                    ).entities().len() == 0
                },
                None => {
                    &&& final(self).archetypes() == old(self).archetypes()
                    &&& final(self).columns() == old(self).columns()
                    &&& (old(self).archetypes().len() >= i32::MAX || exists|k: int|
                        0 <= k < indices@.len() && ((#[trigger] indices@[k]).0 >= old(self).columns().len() || (k > 0 && indices@[k - 1].0 >= indices@[k].0)))
                },
            },
    {
        if self.archetypes.len() >= i32::MAX as usize {
            return None;
        }
        let mut infos: Vec<Share<ComponentInfo>> = Vec::new();
        let mut k: usize = 0;
        while k < indices.len()
            invariant
                k <= indices@.len(),
                *self == *old(self),
                self.wf(),
                infos@.len() == k,
                forall|j: int|
                    0 <= j < k ==> (#[trigger] indices@[j]).0 < self.columns().len() && infos_of(
                        infos@,
                    )[j] == self.columns()[indices@[j].0 as int].meta(),
                forall|i: int, j: int|
                    0 <= i < j < k ==> (#[trigger] indices@[i]).0 < (#[trigger] indices@[j]).0,
            decreases indices@.len() - k,
        {
            let index = indices[k];
            if index.index() >= self.columns.len() {
                return None;
            }
            if k > 0 && indices[k - 1].0 >= index.0 {
                return None;
            }
            let ghost before = infos@;
            infos.push(self.columns[index.index()].share_info());
            proof {
                assert forall|j: int| 0 <= j < k + 1 implies (#[trigger] indices@[j]).0
                    < self.columns().len() && infos_of(infos@)[j] == self.columns()[indices@[j].0 as int].meta() by {
                    if j < k {
                        assert(infos_of(infos@)[j] == infos_of(before)[j]);
                    }
                }
                assert forall|i: int, j: int| 0 <= i < j < k + 1 implies (#[trigger] indices@[i]).0 < (
                #[trigger] indices@[j]).0 by {
                    if j == k && i < k - 1 {
                        assert(indices@[i].0 < indices@[k - 1].0);
                    }
                }
            }
            k += 1;
        }
        let info = ArchetypeInfo::new(infos);
        proof {
            let listed = info.components();
            assert forall|j: int| 0 <= j < listed.len() implies (#[trigger] listed[j]).wf()
                && !listed[j].index.is_null() by {
                assert(listed[j] == self.columns()[indices@[j].0 as int].meta());
            }
            assert forall|i: int, j: int| 0 <= i < j < listed.len() implies (#[trigger] listed[i]).index.0
                < (#[trigger] listed[j]).index.0 by {
                assert(listed[i] == self.columns()[indices@[i].0 as int].meta());
                assert(listed[j] == self.columns()[indices@[j].0 as int].meta());
                assert(indices@[i].0 < indices@[j].0);
            }
            assert forall|j: int| 0 <= j < listed.len() implies (#[trigger] listed[j]).index.0
                < self.columns().len() && self.columns()[listed[j].index.0 as int].meta()
                == listed[j] by {
                assert(listed[j] == self.columns()[indices@[j].0 as int].meta());
            }
        }
        let ghost listed = info.components();
        let index = self.find_archetype(info);
        proof {
            assert forall|j: int| 0 <= j < indices@.len() implies (#[trigger] self.table(
                index.0 as int,
            ).columns()[j]).index == indices@[j] by {
                assert(listed[j] == old(self).columns()[indices@[j].0 as int].meta());
            }
        }
        Some(index)
    }

    /// The number of values of a component in an archetype whose
    /// destructor is owed.
    pub fn released_len(&self, component: ComponentIndex, index: ArchetypeWorldIndex) -> (r: usize)
        ensures
            r == if component.0 < self.columns().len() {
                self.columns()[component.0 as int].released(index).len()
            } else {
                0
            },
    {
        if component.index() < self.columns.len() {
            self.columns[component.index()].released_len(index)
        } else {
            0
        }
    }

    /// Takes the released values of a component in an archetype out,
    /// oldest first, for their destructors to run. Nothing else changes.
    pub fn take_released(&mut self, component: ComponentIndex, index: ArchetypeWorldIndex) -> (r: Vec<
        Vec<u8>,
    >)
        requires
            old(self).wf(),
        ensures
            final(self).wf(),
            final(self).archetypes() == old(self).archetypes(),
            final(self).slots() == old(self).slots(),
            final(self).free() == old(self).free(),
            final(self).listeners() == old(self).listeners(),
            final(self).spec_tick() == old(self).spec_tick(),
            store_extends(old(self).columns(), final(self).columns()),
            r@.map_values(|v: Vec<u8>| v@) == if component.0 < old(self).columns().len() {
                old(self).columns()[component.0 as int].released(index)
            } else {
                Seq::empty()
            },
            forall|e: Entity, c: ComponentIndex| #[trigger]
                final(self).component(e, c) == old(self).component(e, c),
    {
        if component.index() >= self.columns.len() {
            let out: Vec<Vec<u8>> = Vec::new();
            proof {
                assert(out@.map_values(|v: Vec<u8>| v@) =~= Seq::<Seq<u8>>::empty());
            }
            return out;
        }
        let out = self.columns[component.index()].take_released(index);
        proof {
            self.lemma_records_kept(old(self));
            self.lemma_store_changed(old(self));
            let before = old(self).columns();
            let now = self.columns();
            lemma_same_but_slots(before[component.0 as int], now[component.0 as int], index);
            assert forall|e: Entity, c: ComponentIndex| #[trigger]
                self.component(e, c) == old(self).component(e, c) by {
                if old(self).located(e).is_some() {
                    let addr = old(self).located(e).unwrap();
                    assert(old(self).slots()[e.slot as int].live);
                    assert(old(self).table(addr.0.0 as int).backed_by(before));
                    if has_component(old(self).table(addr.0.0 as int).columns(), c) {
                        let k = choose|k: int|
                            0 <= k < old(self).table(addr.0.0 as int).columns().len() && (
                            #[trigger] old(self).table(addr.0.0 as int).columns()[k]).index == c;
                        if c.0 == component.0 {
                            if addr.0 != index {
                                assert(slot_same(before[c.0 as int], now[c.0 as int], addr.0));
                            }
                        } else {
                            assert(now[c.0 as int] == before[c.0 as int]);
                        }
                    }
                }
            }
        }
        out
    }

    /// The number of archetypes.
    pub fn archetype_len(&self) -> (r: usize)
        ensures
            r == self.archetypes().len(),
    {
        self.archetypes.len()
    }

    /// Whether the world before and after differ only in storage that was
    /// set up: every column keeps its metadata, and every observation of
    /// what it stores.
    pub open spec fn same_store(&self, after: &World) -> bool {
        &&& store_extends(self.columns(), after.columns())
        &&& forall|c: int, other: ArchetypeWorldIndex|
            0 <= c < self.columns().len() ==> #[trigger] slot_same(
                self.columns()[c],
                after.columns()[c],
                other,
            )
    }

    /// A world whose archetypes changed in nothing but their listener slots
    /// keeps its columns, its archetypes and its entities well formed.
    proof fn lemma_tables_kept(&self, before: &World)
        requires
            before.wf(),
            self.columns() == before.columns(),
            self.slots() == before.slots(),
            self.free() == before.free(),
            self.archetypes().len() == before.archetypes().len(),
            forall|a: int|
                0 <= a < before.archetypes().len() ==> (#[trigger] self.archetypes()[a]).wf()
                    && self.table(a) == before.table(a),
        ensures
            self.columns_wf(),
            self.archetypes_wf(),
            self.entities_wf(),
            forall|e: Entity| #[trigger] self.located(e) == before.located(e),
            forall|e: Entity, c: ComponentIndex| #[trigger]
                self.component(e, c) == before.component(e, c),
    {
        assert forall|a: int| 0 <= a < self.archetypes().len() implies {
            &&& (#[trigger] self.archetypes()[a]).wf()
            &&& self.table(a).ar_index().0 == a
            &&& self.table(a).backed_by(self.columns())
            &&& self.table(a).marked()
        } by {
            assert(before.archetypes()[a].wf());
            assert(before.table(a).backed_by(before.columns()));
            assert(before.table(a).marked());
        }
        assert forall|x: int, y: int| 0 <= x < y < self.archetypes().len() implies (
        #[trigger] self.table(x)).columns() != (#[trigger] self.table(y)).columns() by {
            assert(before.table(x).columns() != before.table(y).columns());
        }
        assert forall|s: int| 0 <= s < self.slots().len() && (#[trigger] self.slots()[s]).live implies {
            let addr = self.slots()[s];
            &&& 0 <= addr.index.0 < self.archetypes().len()
            &&& addr.row.0 < self.table(addr.index.0 as int).entities().len()
            &&& self.table(addr.index.0 as int).entities()[addr.row.0 as int] == Entity {
                generation: addr.generation,
                slot: s as u32,
            }
        } by {
            assert(before.slots()[s].live);
        }
        assert forall|a: int, r: int|
            0 <= a < self.archetypes().len() && 0 <= r < self.table(a).entities().len() && !(
            #[trigger] self.table(a).entities()[r]).is_null() implies {
            let x = self.table(a).entities()[r];
            self.located(x) == Some((ArchetypeWorldIndex(a as i32), Row(r as u32)))
        } by {
            let x = self.table(a).entities()[r];
            assert(before.table(a).entities()[r] == x);
            assert(before.located(x) == Some((ArchetypeWorldIndex(a as i32), Row(r as u32))));
        }
    }

    /// Registers a listener on the creation of archetypes: a query that
    /// listens on components, with the rule by which it rejects
    /// archetypes. Every archetype that there is and that the query does
    /// not reject gets the listener's slots now, every such archetype to
    /// come when it is created. Returns the key of the listener. Nothing
    /// else changes.
    pub fn register_listener(&mut self, listener: Listener) -> (key: usize)
        requires
            old(self).wf(),
        ensures
            final(self).wf(),
            key == old(self).listeners().len(),
            final(self).listeners() == old(self).listeners().push(listener),
            final(self).columns() == old(self).columns(),
            final(self).slots() == old(self).slots(),
            final(self).free() == old(self).free(),
            final(self).spec_tick() == old(self).spec_tick(),
            final(self).archetypes().len() == old(self).archetypes().len(),
            forall|a: int|
                0 <= a < old(self).archetypes().len() ==> {
                    &&& (#[trigger] final(self).table(a)) == old(self).table(a)
                    &&& final(self).archetypes()[a].spec_id() == old(self).archetypes()[a].spec_id()
                    &&& final(self).archetypes()[a].spec_ready() == old(self).archetypes()[a].spec_ready()
                    &&& final(self).archetypes()[a].spec_records() == old(self).archetypes()[a].spec_records() + records_for(
                        old(self).table(a).columns(),
                        key,
                        listener,
                    )
                },
            forall|e: Entity| #[trigger] final(self).located(e) == old(self).located(e),
            forall|e: Entity, c: ComponentIndex| #[trigger]
                final(self).component(e, c) == old(self).component(e, c),
    {
        let key = self.listeners.len();
        let n = self.archetypes.len();
        let mut a: usize = 0;
        while a < n
            invariant
                a <= n,
                n == old(self).archetypes().len(),
                key == old(self).listeners().len(),
                old(self).wf(),
                self.columns == old(self).columns,
                self.slots == old(self).slots,
                self.free == old(self).free,
                self.tick == old(self).tick,
                self.listeners == old(self).listeners,
                self.archetypes().len() == n,
                forall|b: int| a <= b < n ==> #[trigger] self.archetypes()[b] == old(self).archetypes()[b],
                forall|b: int|
                    0 <= b < a ==> {
                        &&& (#[trigger] self.archetypes()[b]).wf()
                        &&& self.table(b) == old(self).table(b)
                        &&& self.archetypes()[b].spec_id() == old(self).archetypes()[b].spec_id()
                        &&& self.archetypes()[b].spec_ready() == old(self).archetypes()[b].spec_ready()
                        &&& self.archetypes()[b].spec_records() == old(self).archetypes()[b].spec_records() + records_for(
                            old(self).table(b).columns(),
                            key,
                            listener,
                        )
                    },
            decreases n - a,
        {
            proof {
                assert(old(self).archetypes()[a as int].wf());
            }
            let rejected = listener.rejects.eval(self.archetypes[a].table());
            if !rejected {
                self.archetypes[a].add_records(key, &listener.listened);
            } else {
                proof {
                    let records = self.archetypes()[a as int].spec_records();
                    assert(records + Seq::<Record>::empty() =~= records);
                }
            }
            a += 1;
        }
        self.listeners.push(listener);
        proof {
            assert(self.listeners() =~= old(self).listeners().push(listener));
            assert forall|b: int| 0 <= b < n implies (#[trigger] self.archetypes()[b]).wf()
                && self.table(b) == old(self).table(b) by {}
            self.lemma_tables_kept(old(self));
            assert forall|b: int| 0 <= b < self.archetypes().len() implies (
            #[trigger] self.archetypes()[b]).spec_records() == all_records(
                self.table(b).columns(),
                self.listeners(),
                self.listeners().len(),
            ) by {
                let columns = old(self).table(b).columns();
                assert(old(self).archetypes()[b].spec_records() == all_records(
                    columns,
                    old(self).listeners(),
                    old(self).listeners().len(),
                ));
                lemma_all_records_prefix(columns, old(self).listeners(), listener, key as nat);
                assert(self.listeners()[key as int] == listener);
            }
        }
        key
    }

    /// The index of the archetype of the component set, which is created,
    /// without entities, where the world has none yet. Created, it is
    /// placed after the archetypes there are, gets its storage in each of
    /// its columns before anything is written to it, and is ready.
    pub fn find_archetype(&mut self, info: ArchetypeInfo) -> (r: ArchetypeWorldIndex)
        requires
            old(self).wf(),
            info.wf(),
            sorted_infos(info.components()),
            old(self).registered(info.components()),
            old(self).archetypes().len() < i32::MAX,
        ensures
            final(self).wf(),
            0 <= r.0 < final(self).archetypes().len(),
            final(self).table(r.0 as int).columns() == info.components(),
            final(self).slots() == old(self).slots(),
            final(self).free() == old(self).free(),
            final(self).listeners() == old(self).listeners(),
            final(self).spec_tick() == old(self).spec_tick(),
            old(self).same_store(final(self)),
            forall|a: int|
                0 <= a < old(self).archetypes().len() ==> #[trigger] final(self).archetypes()[a]
                    == old(self).archetypes()[a],
            r.0 < old(self).archetypes().len() ==> final(self).archetypes() == old(self).archetypes()
                && final(self).columns() == old(self).columns(),
            r.0 >= old(self).archetypes().len() ==> {
                &&& r.0 == old(self).archetypes().len()
                &&& final(self).archetypes().len() == old(self).archetypes().len() + 1
                &&& final(self).table(r.0 as int).entities().len() == 0
                &&& final(self).archetypes()[r.0 as int].spec_ready()
                &&& forall|a: int|
                    0 <= a < old(self).archetypes().len() ==> (#[trigger] old(self).table(
                        a,
                    )).columns() != info.components()
            },
    {
        let n = self.archetypes.len();
        let mut a: usize = 0;
        while a < n
            invariant
                a <= n,
                n == self.archetypes().len(),
                *self == *old(self),
                self.wf(),
                info.wf(),
                self.registered(info.components()),
                forall|b: int| 0 <= b < a ==> (#[trigger] self.table(b)).columns() != info.components(),
            decreases n - a,
        {
            let ar = &self.archetypes[a];
            if *ar.id() == info.get_id() && same_indices(ar.table().get_columns(), info.get_components()) {
                proof {
                    let have = self.table(a as int).columns();
                    let want = info.components();
                    assert(self.table(a as int).backed_by(self.columns()));
                    assert(have.len() == want.len());
                    assert forall|k: int| 0 <= k < have.len() implies have[k] == want[k] by {
                        assert(self.columns()[have[k].index.0 as int].meta() == have[k]);
                        assert(self.columns()[want[k].index.0 as int].meta() == want[k]);
                        assert(have[k].index == want[k].index);
                    }
                    assert(have =~= want);
                }
                return ArchetypeWorldIndex(a as i32);
            }
            proof {
                let have = self.table(a as int).columns();
                let want = info.components();
                assert(self.archetypes()[a as int].wf());
                if have == want {
                    assert(self.archetypes()[a as int].spec_id() == info.id());
                    assert(forall|k: int|
                        0 <= k < have.len() ==> (#[trigger] have[k]).index == want[k].index);
                }
            }
            a += 1;
        }
        let index = ArchetypeWorldIndex(n as i32);
        let mut ar = Archetype::new(info);
        ar.set_index(index);
        // Every listener gets its slots before anything is written.
        let ghost fresh = ar;
        let mut k: usize = 0;
        proof {
            assert(ar.spec_records() =~= all_records(ar.table_view().columns(), self.listeners(), 0));
        }
        while k < self.listeners.len()
            invariant
                k <= self.listeners().len(),
                *self == *old(self),
                ar.wf(),
                ar.table_view() == fresh.table_view(),
                ar.spec_id() == fresh.spec_id(),
                ar.spec_name() == fresh.spec_name(),
                ar.spec_ready() == fresh.spec_ready(),
                ar.spec_records() == all_records(ar.table_view().columns(), self.listeners(), k as nat),
            decreases self.listeners().len() - k,
        {
            let rejected = self.listeners[k].rejects.eval(ar.table());
            if !rejected {
                ar.add_records(k, &self.listeners[k].listened);
            } else {
                proof {
                    assert(ar.spec_records() + Seq::<Record>::empty() =~= ar.spec_records());
                }
            }
            k += 1;
        }
        ar.table().init_blobs(&mut self.columns);
        ar.set_ready(true);
        self.archetypes.push(ar);
        proof {
            let before = old(self).columns();
            let now = self.columns();
            assert forall|b: int| 0 <= b < self.archetypes().len() implies (
            #[trigger] self.archetypes()[b]).spec_records() == all_records(
                self.table(b).columns(),
                self.listeners(),
                self.listeners().len(),
            ) by {
                if b < n {
                    assert(old(self).archetypes()[b].spec_records() == all_records(
                        old(self).table(b).columns(),
                        old(self).listeners(),
                        old(self).listeners().len(),
                    ));
                }
            }
            assert forall|b: int| 0 <= b < old(self).archetypes().len() implies self.table(
                b,
            ).backed_by(now) by {
                assert(old(self).table(b).backed_by(before));
                assert forall|k: int| 0 <= k < self.table(b).columns().len() implies {
                    &&& (#[trigger] self.table(b).columns()[k]).index.0 < now.len()
                    &&& now[self.table(b).columns()[k].index.0 as int].meta() == self.table(
                        b,
                    ).columns()[k]
                    &&& now[self.table(b).columns()[k].index.0 as int].has_slot(
                        self.table(b).ar_index(),
                    )
                } by {
                    let c = self.table(b).columns()[k].index.0 as int;
                    assert(now[c].meta() == before[c].meta());
                    assert(before[c].has_slot(self.table(b).ar_index()));
                }
            }
            assert forall|c: int| 0 <= c < now.len() implies (#[trigger] now[c]).meta().index.0 == c
                && now[c].meta().wf() by {
                assert(now[c].meta() == before[c].meta());
            }
            assert forall|c: int, d: int| 0 <= c < d < now.len() implies (#[trigger] now[c]).meta().type_id
                != (#[trigger] now[d]).meta().type_id by {
                assert(now[c].meta() == before[c].meta());
                assert(now[d].meta() == before[d].meta());
            }
            assert(self.table(n as int).marked());
            assert forall|x: int, y: int| 0 <= x < y < self.archetypes().len() implies (
            #[trigger] self.table(x)).columns() != (#[trigger] self.table(y)).columns() by {
                if y < n {
                    assert(old(self).table(x).columns() != old(self).table(y).columns());
                }
            }
            assert(self.entities_wf()) by {
                assert forall|s: int|
                    0 <= s < self.slots().len() && (#[trigger] self.slots()[s]).live implies {
                    let addr = self.slots()[s];
                    &&& 0 <= addr.index.0 < self.archetypes().len()
                    &&& addr.row.0 < self.table(addr.index.0 as int).entities().len()
                    &&& self.table(addr.index.0 as int).entities()[addr.row.0 as int] == Entity {
                        generation: addr.generation,
                        slot: s as u32,
                    }
                } by {
                    assert(old(self).slots()[s].live);
                }
            }
        }
        index
    }

    /// Whether a slot can be had for one more entity.
    pub open spec fn has_slot_left(&self) -> bool {
        self.free().len() > 0 || self.slots().len() < u32::MAX - 1
    }

    /// What an insertion leaves: `e`, a handle that was not in use, is in
    /// the archetype at the row that was the end of its table, with the
    /// given bytes as its components; every other entity is where it was
    /// and has the components it had.
    pub open spec fn inserted(
        &self,
        after: &World,
        index: ArchetypeWorldIndex,
        values: Seq<Seq<u8>>,
        e: Entity,
    ) -> bool {
        let row = Row(self.table(index.0 as int).entities().len() as u32);
        &&& after.wf()
        &&& after.listeners() == self.listeners()
        &&& !e.is_null()
        &&& self.located(e).is_none()
        &&& after.located(e) == Some((index, row))
        &&& after.placed_at(e) == self.spec_tick()
        &&& forall|other: Entity|
            other != e ==> #[trigger] after.located(other) == self.located(other) && after.placed_at(
                other,
            ) == self.placed_at(other)
        &&& after.archetypes().len() == self.archetypes().len()
        &&& forall|a: int|
            0 <= a < self.archetypes().len() ==> (#[trigger] after.table(a)).columns()
                == self.table(a).columns() && after.table(a).removes() == self.table(a).removes()
        &&& after.table(index.0 as int).entities() == self.table(index.0 as int).entities().push(e)
        &&& forall|a: int|
            0 <= a < self.archetypes().len() && a != index.0 ==> (#[trigger] after.table(
                a,
            )).entities() == self.table(a).entities()
        &&& store_extends(self.columns(), after.columns())
        &&& forall|k: int|
            0 <= k < values.len() ==> after.columns()[(#[trigger] self.table(
                index.0 as int,
            ).columns()[k]).index.0 as int].cell(index, row) == values[k]
        &&& forall|c: int, a: ArchetypeWorldIndex, r: Row|
            0 <= c < self.columns().len() && !(a == index && r == row) ==> #[trigger] after.columns()[c].cell(
                a,
                r,
            ) == self.columns()[c].cell(a, r)
        &&& forall|k: int|
            0 <= k < values.len() ==> {
                let info = #[trigger] self.table(index.0 as int).columns()[k];
                after.columns()[info.index.0 as int].tick(index, row) == if info.is_tick() {
                    self.spec_tick()
                } else {
                    self.columns()[info.index.0 as int].tick(index, row)
                }
            }
        &&& forall|c: int, a: ArchetypeWorldIndex, r: Row|
            0 <= c < self.columns().len() && !(a == index && r == row) ==> #[trigger] after.columns()[c].tick(
                a,
                r,
            ) == self.columns()[c].tick(a, r)
    }

    /// Inserts an entity into the archetype: reserves a row, writes the
    /// bytes of each component, in the order of the archetype's columns,
    /// records the current tick as the tick at which they were added, and
    /// publishes the entity last. See `inserted`.
    #[verifier::rlimit(60)]
    pub fn insert(&mut self, index: ArchetypeWorldIndex, values: &Vec<Vec<u8>>) -> (e: Entity)
        requires
            old(self).wf(),
            0 <= index.0 < old(self).archetypes().len(),
            old(self).table(index.0 as int).has_room(),
            old(self).has_slot_left(),
            values@.len() == old(self).table(index.0 as int).columns().len(),
            forall|k: int|
                0 <= k < values@.len() ==> (#[trigger] values@[k])@.len() == old(self).table(
                    index.0 as int,
                ).columns()[k].size(),
        ensures
            old(self).inserted(final(self), index, values@.map_values(|v: Vec<u8>| v@), e),
            final(self).spec_tick() == old(self).spec_tick(),
    {
        let a: usize = index.index();
        let tick = self.tick;
        // The slot of the entity: one that is free, or a new one.
        let slot: u32 = if self.free.len() > 0 {
            let s = self.free.pop().unwrap();
            proof {
                assert(old(self).free()[old(self).free().len() - 1] == s);
            }
            s
        } else {
            let s = self.slots.len() as u32;
            self.slots.push(
                EntityAddr {
                    generation: 0,
                    index: ArchetypeWorldIndex::null(),
                    row: Row::null(),
                    live: false,
                    tick: Tick(0),
                },
            );
            s
        };
        let generation: u32 = self.slots[slot as usize].generation;
        let e = Entity::new(generation, slot);
        let ghost table0 = old(self).table(a as int);
        let ghost slots1 = self.slots@;
        let ghost free1 = self.free@;
        proof {
            assert(!slots1[slot as int].live);
            assert(free1.no_duplicates());
            assert forall|i: int| 0 <= i < free1.len() implies (#[trigger] free1[i]) != slot
                && old(self).free().contains(free1[i]) by {
                if old(self).free().len() > 0 {
                    assert(old(self).free()[i] == free1[i]);
                    assert(old(self).free()[old(self).free().len() - 1] == slot);
                }
            }
        }
        let row = self.archetypes[a].table_mut().alloc_row();
        let ghost ars1 = self.archetypes@;
        let n = values.len();
        let mut k: usize = 0;
        while k < n
            invariant
                k <= n,
                n == values@.len(),
                a == index.0,
                0 <= index.0 < old(self).archetypes().len(),
                old(self).wf(),
                self.archetypes@ == ars1,
                self.slots@ == slots1,
                self.free@ == free1,
                self.listeners@ == old(self).listeners@,
                slot < slots1.len(),
                self.tick == tick,
                ars1.len() == old(self).archetypes().len(),
                ars1[a as int].table_view().wf(),
                ars1[a as int].table_view().columns() == table0.columns(),
                ars1[a as int].table_view().ar_index() == index,
                ars1[a as int].table_view().entities().len() == row.0 + 1,
                row.0 == table0.entities().len(),
                ars1[a as int].table_view().backed_by(self.columns@),
                table0 == old(self).table(a as int),
                values@.len() == table0.columns().len(),
                forall|j: int|
                    0 <= j < values@.len() ==> (#[trigger] values@[j])@.len()
                        == table0.columns()[j].size(),
                store_extends(old(self).columns(), self.columns@),
                forall|j: int|
                    0 <= j < k ==> self.columns@[(#[trigger] table0.columns()[j]).index.0 as int].cell(
                        index,
                        row,
                    ) == values@[j]@,
                forall|c: int, x: ArchetypeWorldIndex, r: Row|
                    0 <= c < self.columns@.len() && !(x == index && r == row)
                        ==> #[trigger] self.columns@[c].cell(x, r) == old(self).columns()[c].cell(
                        x,
                        r,
                    ),
                forall|j: int|
                    0 <= j < n ==> {
                        let info = #[trigger] table0.columns()[j];
                        self.columns@[info.index.0 as int].tick(index, row) == if j < k && info.is_tick() {
                            tick
                        } else {
                            old(self).columns()[info.index.0 as int].tick(index, row)
                        }
                    },
                forall|c: int, x: ArchetypeWorldIndex, r: Row|
                    0 <= c < self.columns@.len() && !(x == index && r == row)
                        ==> #[trigger] self.columns@[c].tick(x, r) == old(self).columns()[c].tick(
                        x,
                        r,
                    ),
            decreases n - k,
        {
            let ghost cur = self.columns@;
            let ghost info = table0.columns()[k as int];
            self.archetypes[a].table().write_column(&mut self.columns, k, row, &values[k], e, tick);
            proof {
                let now = self.columns@;
                let ci = info.index.0 as int;
                assert(ars1[a as int].table_view().store_frame(cur, now));
                assert(store_extends(old(self).columns(), now)) by {
                    assert forall|c: int| 0 <= c < now.len() implies (#[trigger] now[c]).meta() == old(self).columns()[c].meta() && now[c].slots().len() >= old(self).columns()[c].slots().len() by {
                        assert(cur[c].meta() == old(self).columns()[c].meta());
                        assert(now[c].meta() == cur[c].meta());
                    }
                }
                assert forall|j: int| 0 <= j < k + 1 implies now[(
                #[trigger] table0.columns()[j]).index.0 as int].cell(index, row) == values@[j]@ by {
                    if j < k {
                        assert(table0.columns()[j].index.0 < table0.columns()[k as int].index.0);
                        assert(now[table0.columns()[j].index.0 as int] == cur[table0.columns()[j].index.0 as int]);
                    }
                }
                assert forall|c: int, x: ArchetypeWorldIndex, r: Row|
                    0 <= c < now.len() && !(x == index && r == row) implies #[trigger] now[c].cell(
                    x,
                    r,
                ) == old(self).columns()[c].cell(x, r) by {
                    assert(cur[c].cell(x, r) == old(self).columns()[c].cell(x, r));
                    if c != ci {
                        assert(now[c] == cur[c]);
                    } else if x != index {
                        assert(slot_same(cur[c], now[c], x));
                    }
                }
                assert forall|c: int, x: ArchetypeWorldIndex, r: Row|
                    0 <= c < now.len() && !(x == index && r == row) implies #[trigger] now[c].tick(
                    x,
                    r,
                ) == old(self).columns()[c].tick(x, r) by {
                    assert(cur[c].tick(x, r) == old(self).columns()[c].tick(x, r));
                    if c != ci {
                        assert(now[c] == cur[c]);
                    } else if x != index {
                        assert(slot_same(cur[c], now[c], x));
                    }
                }
                assert forall|j: int| 0 <= j < n implies {
                    let other = #[trigger] table0.columns()[j];
                    now[other.index.0 as int].tick(index, row) == if j < k + 1 && other.is_tick() {
                        tick
                    } else {
                        old(self).columns()[other.index.0 as int].tick(index, row)
                    }
                } by {
                    let other = table0.columns()[j];
                    if j < k {
                        assert(other.index.0 < table0.columns()[k as int].index.0);
                        assert(now[other.index.0 as int] == cur[other.index.0 as int]);
                    } else if j > k {
                        assert(table0.columns()[k as int].index.0 < other.index.0);
                        assert(now[other.index.0 as int] == cur[other.index.0 as int]);
                    }
                }
            }
            k += 1;
        }
        self.archetypes[a].table_mut().set(row, e);
        self.slots.set(slot as usize, EntityAddr { generation, index, row, live: true, tick });
        proof {
            assert(self.table(index.0 as int).entities() =~= old(self).table(
                index.0 as int,
            ).entities().push(e));
            self.lemma_records_kept(old(self));
            self.lemma_inserted(old(self), index, row, e);
            assert forall|j: int| 0 <= j < values@.len() implies self.columns()[(
            #[trigger] old(self).table(index.0 as int).columns()[j]).index.0 as int].cell(index, row)
                == values@.map_values(|v: Vec<u8>| v@)[j] by {}
        }
        e
    }

    /// The world is well formed after an entity took a fresh row and a
    /// slot that was not in use.
    proof fn lemma_inserted(&self, before: &World, index: ArchetypeWorldIndex, row: Row, e: Entity)
        requires
            self.listeners_wf(),
            before.wf(),
            0 <= index.0 < before.archetypes().len(),
            row.0 == before.table(index.0 as int).entities().len(),
            row.0 < crate::column::MAX_ROWS,
            self.archetypes().len() == before.archetypes().len(),
            forall|a: int|
                0 <= a < before.archetypes().len() && a != index.0 ==> #[trigger] self.archetypes()[a]
                    == before.archetypes()[a],
            self.archetypes()[index.0 as int].spec_id() == before.archetypes()[index.0 as int].spec_id(),
            self.archetypes()[index.0 as int].spec_name()
                == before.archetypes()[index.0 as int].spec_name(),
            self.table(index.0 as int).wf(),
            self.table(index.0 as int).columns() == before.table(index.0 as int).columns(),
            self.table(index.0 as int).removes() == before.table(index.0 as int).removes(),
            self.table(index.0 as int).ar_index() == index,
            self.table(index.0 as int).entities() == before.table(index.0 as int).entities().push(e),
            store_extends(before.columns(), self.columns()),
            e.slot < self.slots().len(),
            self.slots().len() < u32::MAX,
            self.slots()[e.slot as int] == (EntityAddr {
                generation: e.generation,
                index,
                row,
                live: true,
                tick: self.slots()[e.slot as int].tick,
            }),
            // The slot was free before, or is new.
            e.slot < before.slots().len() ==> !before.slots()[e.slot as int].live
                && self.slots().len() == before.slots().len(),
            e.slot >= before.slots().len() ==> self.slots().len() == before.slots().len() + 1
                && e.slot == before.slots().len(),
            forall|s: int|
                0 <= s < before.slots().len() && s != e.slot ==> #[trigger] self.slots()[s]
                    == before.slots()[s],
            self.free().no_duplicates(),
            forall|i: int|
                0 <= i < self.free().len() ==> (#[trigger] self.free()[i]) != e.slot
                    && before.free().contains(self.free()[i]),
        ensures
            self.wf(),
            !e.is_null(),
            before.located(e).is_none(),
            self.located(e) == Some((index, row)),
            forall|other: Entity| other != e ==> #[trigger] self.located(other) == before.located(other),
    {
        let now = self.columns();
        let old_columns = before.columns();
        assert forall|c: int| 0 <= c < now.len() implies (#[trigger] now[c]).meta().index.0 == c
            && now[c].meta().wf() by {
            assert(now[c].meta() == old_columns[c].meta());
        }
        assert forall|c: int, d: int| 0 <= c < d < now.len() implies (#[trigger] now[c]).meta().type_id
            != (#[trigger] now[d]).meta().type_id by {
            assert(now[c].meta() == old_columns[c].meta());
            assert(now[d].meta() == old_columns[d].meta());
        }
        assert forall|a: int| 0 <= a < self.archetypes().len() implies {
            &&& (#[trigger] self.archetypes()[a]).wf()
            &&& self.table(a).ar_index().0 == a
            &&& self.table(a).backed_by(self.columns())
            &&& self.table(a).marked()
        } by {
            assert(before.archetypes()[a].wf());
            assert(before.table(a).backed_by(old_columns));
            assert(before.table(a).marked());
            assert forall|k: int| 0 <= k < self.table(a).columns().len() implies {
                &&& (#[trigger] self.table(a).columns()[k]).index.0 < now.len()
                &&& now[self.table(a).columns()[k].index.0 as int].meta() == self.table(a).columns()[k]
                &&& now[self.table(a).columns()[k].index.0 as int].has_slot(self.table(a).ar_index())
            } by {
                let c = self.table(a).columns()[k].index.0 as int;
                assert(before.table(a).columns()[k].index.0 == c);
                assert(now[c].meta() == old_columns[c].meta());
                assert(old_columns[c].has_slot(before.table(a).ar_index()));
            }
            if a == index.0 {
                let t = self.table(a);
                let t0 = before.table(a);
                assert forall|r: Row| r.0 < t.entities().len() implies (t.removes().contains(r) <==> (
                #[trigger] t.entities()[r.0 as int]).is_null()) by {
                    if r.0 < t0.entities().len() {
                        assert(t.entities()[r.0 as int] == t0.entities()[r.0 as int]);
                    } else {
                        if t0.removes().contains(r) {
                            let i = choose|i: int| 0 <= i < t0.removes().len() && t0.removes()[i] == r;
                            assert(t0.removes()[i].0 < t0.entities().len());
                        }
                    }
                }
            }
        }
        assert forall|x: int, y: int| 0 <= x < y < self.archetypes().len() implies (
        #[trigger] self.table(x)).columns() != (#[trigger] self.table(y)).columns() by {
            assert(before.table(x).columns() != before.table(y).columns());
        }
        assert forall|s: int| 0 <= s < self.slots().len() && (#[trigger] self.slots()[s]).live implies {
            let addr = self.slots()[s];
            &&& 0 <= addr.index.0 < self.archetypes().len()
            &&& addr.row.0 < self.table(addr.index.0 as int).entities().len()
            &&& self.table(addr.index.0 as int).entities()[addr.row.0 as int] == Entity {
                generation: addr.generation,
                slot: s as u32,
            }
        } by {
            if s != e.slot {
                assert(before.slots()[s].live);
            }
        }
        assert forall|a: int, r: int|
            0 <= a < self.archetypes().len() && 0 <= r < self.table(a).entities().len() && !(
            #[trigger] self.table(a).entities()[r]).is_null() implies {
            let x = self.table(a).entities()[r];
            self.located(x) == Some((ArchetypeWorldIndex(a as i32), Row(r as u32)))
        } by {
            let x = self.table(a).entities()[r];
            if a == index.0 && r == row.0 {
            } else {
                assert(before.table(a).entities()[r] == x);
                assert(before.located(x) == Some((ArchetypeWorldIndex(a as i32), Row(r as u32))));
            }
        }
        assert forall|i: int| 0 <= i < self.free().len() implies (#[trigger] self.free()[i])
            < self.slots().len() && !self.slots()[self.free()[i] as int].live by {
            let f = self.free()[i];
            assert(before.free().contains(f));
            let j = choose|j: int| 0 <= j < before.free().len() && before.free()[j] == f;
            assert(before.free()[j] < before.slots().len());
        }
    }

    /// What the destruction of `e` leaves: the entity is no longer in the
    /// world, its row holds null and is queued for removal, and every
    /// other entity is where it was. Nothing that a column stores changes,
    /// but for the values of `e` that joined the released values of their
    /// columns.
    pub open spec fn destroyed(&self, after: &World, e: Entity) -> bool {
        let index = self.located(e).unwrap().0;
        let row = self.located(e).unwrap().1;
        let a = index.0 as int;
        &&& after.wf()
        &&& after.listeners() == self.listeners()
        &&& self.located(e).is_some()
        &&& after.located(e).is_none()
        &&& forall|other: Entity|
            other != e ==> #[trigger] after.located(other) == self.located(other) && after.placed_at(
                other,
            ) == self.placed_at(other)
        &&& after.archetypes().len() == self.archetypes().len()
        &&& forall|b: int|
            0 <= b < self.archetypes().len() ==> (#[trigger] after.table(b)).columns()
                == self.table(b).columns()
        &&& after.table(a).entities() == self.table(a).entities().update(
            row.0 as int,
            Entity { generation: u32::MAX, slot: u32::MAX },
        )
        &&& after.table(a).removes() == self.table(a).removes().push(row)
        &&& forall|b: int|
            0 <= b < self.archetypes().len() && b != a ==> (#[trigger] after.table(b)).entities()
                == self.table(b).entities() && after.table(b).removes() == self.table(b).removes()
        &&& store_extends(self.columns(), after.columns())
        &&& forall|c: int, x: ArchetypeWorldIndex, r: Row|
            0 <= c < self.columns().len() ==> #[trigger] after.columns()[c].cell(x, r)
                == self.columns()[c].cell(x, r)
        &&& forall|c: int, x: ArchetypeWorldIndex, r: Row|
            0 <= c < self.columns().len() ==> #[trigger] after.columns()[c].tick(x, r)
                == self.columns()[c].tick(x, r)
        &&& forall|c: int, x: ArchetypeWorldIndex|
            0 <= c < self.columns().len() ==> #[trigger] after.columns()[c].released(x) == if x == index
                && has_component(self.table(a).columns(), ComponentIndex(c as u32))
                && self.columns()[c].meta().needs_drop {
                self.columns()[c].released(x).push(self.columns()[c].cell(index, row))
            } else {
                self.columns()[c].released(x)
            }
    }

    /// Destroys an entity: releases its components, nulls its row and
    /// queues the row for removal, and frees its slot: see `destroyed`. An
    /// entity that is not in the world gives `NoSuchEntity`, and nothing
    /// changes.
    pub fn destroy(&mut self, e: Entity) -> (r: Result<(), QueryError>)
        requires
            old(self).wf(),
        ensures
            final(self).spec_tick() == old(self).spec_tick(),
            match r {
                Ok(_) => old(self).destroyed(final(self), e),
                Err(err) => {
                    &&& err == QueryError::NoSuchEntity
                    &&& old(self).located(e).is_none()
                    &&& final(self).columns() == old(self).columns()
                    &&& final(self).archetypes() == old(self).archetypes()
                    &&& final(self).slots() == old(self).slots()
                    &&& final(self).free() == old(self).free()
                    &&& final(self).listeners() == old(self).listeners()
                },
            },
    {
        let addr = match self.lookup(e) {
            Ok(addr) => addr,
            Err(err) => {
                return Err(err);
            },
        };
        let a: usize = addr.0.index();
        let row = addr.1;
        let ghost table0 = old(self).table(a as int);
        proof {
            assert(old(self).slots()[e.slot as int].live);
            assert(table0.entities()[row.0 as int] == e);
        }
        let removed = self.archetypes[a].table_mut().destroy(&mut self.columns, row);
        let generation: u32 = e.generation.wrapping_add(1);
        self.slots.set(
            e.slot as usize,
            EntityAddr {
                generation,
                index: ArchetypeWorldIndex::null(),
                row: Row::null(),
                live: false,
                tick: Tick(0),
            },
        );
        self.free.push(e.slot);
        proof {
            assert(removed == e);
            self.lemma_records_kept(old(self));
            self.lemma_destroyed(old(self), e);
            let index = addr.0;
            let t = self.table(a as int);
            let before = old(self).columns();
            let now = self.columns();
            assert(t.store_frame(before, now));
            assert forall|c: int, x: ArchetypeWorldIndex|
                0 <= c < before.len() implies slot_same(before[c], now[c], x) || (x == index
                && t.is_column(c)) by {}
            assert forall|c: int, x: ArchetypeWorldIndex, r: Row| 0 <= c < before.len() implies #[trigger]
                now[c].cell(x, r) == before[c].cell(x, r) by {
                if x == index && t.is_column(c) {
                    let k = choose|k: int|
                        0 <= k < t.columns().len() && (#[trigger] t.columns()[k]).index.0 == c;
                    assert(table0.columns()[k].index.0 == c);
                } else {
                    assert(slot_same(before[c], now[c], x));
                }
            }
            assert forall|c: int, x: ArchetypeWorldIndex, r: Row| 0 <= c < before.len() implies #[trigger]
                now[c].tick(x, r) == before[c].tick(x, r) by {
                if x == index && t.is_column(c) {
                    let k = choose|k: int|
                        0 <= k < t.columns().len() && (#[trigger] t.columns()[k]).index.0 == c;
                    assert(table0.columns()[k].index.0 == c);
                } else {
                    assert(slot_same(before[c], now[c], x));
                }
            }
            assert forall|c: int, x: ArchetypeWorldIndex| 0 <= c < before.len() implies #[trigger]
                now[c].released(x) == if x == index && has_component(
                table0.columns(),
                ComponentIndex(c as u32),
            ) && before[c].meta().needs_drop {
                before[c].released(x).push(before[c].cell(index, row))
            } else {
                before[c].released(x)
            } by {
                if x == index && t.is_column(c) {
                    let k = choose|k: int|
                        0 <= k < t.columns().len() && (#[trigger] t.columns()[k]).index.0 == c;
                    assert(table0.columns()[k].index.0 == c);
                    assert(table0.columns()[k].index == ComponentIndex(c as u32));
                    assert(before[c].meta() == table0.columns()[k]);
                } else {
                    assert(slot_same(before[c], now[c], x));
                    if x == index && has_component(table0.columns(), ComponentIndex(c as u32)) {
                        let k = choose|k: int|
                            0 <= k < table0.columns().len() && (#[trigger] table0.columns()[k]).index
                                == ComponentIndex(c as u32);
                        assert(t.columns()[k].index.0 == c);
                    }
                }
            }
        }
        Ok(())
    }

    /// The world is well formed after an entity left its row and its slot.
    proof fn lemma_destroyed(&self, before: &World, e: Entity)
        requires
            self.listeners_wf(),
            before.wf(),
            before.located(e).is_some(),
            !e.is_null(),
            self.archetypes().len() == before.archetypes().len(),
            ({
                let index = before.located(e).unwrap().0;
                let row = before.located(e).unwrap().1;
                let a = index.0 as int;
                let t = self.table(a);
                let t0 = before.table(a);
                &&& forall|b: int|
                    0 <= b < before.archetypes().len() && b != a ==> #[trigger] self.archetypes()[b]
                        == before.archetypes()[b]
                &&& self.archetypes()[a].spec_id() == before.archetypes()[a].spec_id()
                &&& self.archetypes()[a].spec_name() == before.archetypes()[a].spec_name()
                &&& t.wf()
                &&& t.marked()
                &&& t.backed_by(self.columns())
                &&& t.columns() == t0.columns()
                &&& t.ar_index() == t0.ar_index()
                &&& t.store_frame(before.columns(), self.columns())
                &&& t.entities() == t0.entities().update(
                    row.0 as int,
                    Entity { generation: u32::MAX, slot: u32::MAX },
                )
                &&& t.removes() == t0.removes().push(row)
            }),
            self.slots().len() == before.slots().len(),
            !self.slots()[e.slot as int].live,
            forall|s: int|
                0 <= s < before.slots().len() && s != e.slot ==> #[trigger] self.slots()[s]
                    == before.slots()[s],
            self.free() == before.free().push(e.slot),
        ensures
            self.wf(),
            self.located(e).is_none(),
            forall|other: Entity| other != e ==> #[trigger] self.located(other) == before.located(other),
    {
        let index = before.located(e).unwrap().0;
        let row = before.located(e).unwrap().1;
        let now = self.columns();
        let old_columns = before.columns();
        assert forall|c: int| 0 <= c < now.len() implies (#[trigger] now[c]).meta().index.0 == c
            && now[c].meta().wf() by {
            assert(now[c].meta() == old_columns[c].meta());
        }
        assert forall|c: int, d: int| 0 <= c < d < now.len() implies (#[trigger] now[c]).meta().type_id
            != (#[trigger] now[d]).meta().type_id by {
            assert(now[c].meta() == old_columns[c].meta());
            assert(now[d].meta() == old_columns[d].meta());
        }
        assert forall|a: int| 0 <= a < self.archetypes().len() implies {
            &&& (#[trigger] self.archetypes()[a]).wf()
            &&& self.table(a).ar_index().0 == a
            &&& self.table(a).backed_by(self.columns())
            &&& self.table(a).marked()
        } by {
            assert(before.archetypes()[a].wf());
            assert(before.table(a).backed_by(old_columns));
            assert(before.table(a).marked());
            if a != index.0 {
                assert forall|k: int| 0 <= k < self.table(a).columns().len() implies {
                    &&& (#[trigger] self.table(a).columns()[k]).index.0 < now.len()
                    &&& now[self.table(a).columns()[k].index.0 as int].meta() == self.table(
                        a,
                    ).columns()[k]
                    &&& now[self.table(a).columns()[k].index.0 as int].has_slot(
                        self.table(a).ar_index(),
                    )
                } by {
                    let c = self.table(a).columns()[k].index.0 as int;
                    assert(now[c].meta() == old_columns[c].meta());
                    assert(old_columns[c].has_slot(before.table(a).ar_index()));
                }
            }
        }
        assert forall|x: int, y: int| 0 <= x < y < self.archetypes().len() implies (
        #[trigger] self.table(x)).columns() != (#[trigger] self.table(y)).columns() by {
            assert(before.table(x).columns() != before.table(y).columns());
        }
        assert forall|s: int| 0 <= s < self.slots().len() && (#[trigger] self.slots()[s]).live implies {
            let addr = self.slots()[s];
            &&& 0 <= addr.index.0 < self.archetypes().len()
            &&& addr.row.0 < self.table(addr.index.0 as int).entities().len()
            &&& self.table(addr.index.0 as int).entities()[addr.row.0 as int] == Entity {
                generation: addr.generation,
                slot: s as u32,
            }
        } by {
            assert(before.slots()[s].live);
            let addr = before.slots()[s];
            if addr.index == index && addr.row == row {
                assert(before.table(index.0 as int).entities()[row.0 as int] == e);
            }
        }
        assert forall|a: int, r: int|
            0 <= a < self.archetypes().len() && 0 <= r < self.table(a).entities().len() && !(
            #[trigger] self.table(a).entities()[r]).is_null() implies {
            let x = self.table(a).entities()[r];
            self.located(x) == Some((ArchetypeWorldIndex(a as i32), Row(r as u32)))
        } by {
            let x = self.table(a).entities()[r];
            assert(before.table(a).entities()[r] == x);
            assert(before.located(x) == Some((ArchetypeWorldIndex(a as i32), Row(r as u32))));
        }
        assert(self.free().no_duplicates()) by {
            assert forall|i: int, j: int|
                0 <= i < self.free().len() && 0 <= j < self.free().len() && i != j implies self.free()[i]
                != self.free()[j] by {
                if i < before.free().len() && j < before.free().len() {
                } else if i < before.free().len() {
                    assert(!before.slots()[before.free()[i] as int].live);
                } else {
                    assert(!before.slots()[before.free()[j] as int].live);
                }
            }
        }
        assert forall|i: int| 0 <= i < self.free().len() implies (#[trigger] self.free()[i])
            < self.slots().len() && !self.slots()[self.free()[i] as int].live by {
            if i < before.free().len() {
                assert(before.free()[i] < before.slots().len());
            }
        }
    }

    /// The state between the compaction of the table of the archetype `a`
    /// and the end of recording the moved entities' rows, against the world
    /// `before` the compaction.
    pub open spec fn remap_state(&self, before: &World, a: int, moves: Seq<(Row, Row)>, k: nat) -> bool {
        &&& before.wf()
        &&& 0 <= a < before.archetypes().len()
        &&& k <= moves.len()
        &&& self.archetypes().len() == before.archetypes().len()
        &&& forall|b: int|
            0 <= b < before.archetypes().len() && b != a ==> #[trigger] self.archetypes()[b]
                == before.archetypes()[b]
        &&& self.archetypes()[a].wf()
        &&& self.table(a).settled_from(before.table(a), before.columns(), self.columns(), moves)
        &&& self.slots().len() == before.slots().len()
        &&& self.free() == before.free()
        &&& self.listeners_wf()
        &&& forall|s: int|
            0 <= s < before.slots().len() ==> #[trigger] self.slots()[s] == remapped(
                before.slots()[s],
                a,
                moves,
                k,
            )
    }

    /// Once every move is recorded the world is well formed again, every
    /// entity is in the archetype it was in, and has the components it
    /// had.
    proof fn lemma_remapped(&self, before: &World, a: int, moves: Seq<(Row, Row)>)
        requires
            self.remap_state(before, a, moves, moves.len()),
        ensures
            self.wf(),
            forall|e: Entity| #[trigger]
                self.located(e).is_some() == before.located(e).is_some() && (self.located(
                    e,
                ).is_some() ==> self.located(e).unwrap().0 == before.located(e).unwrap().0),
            forall|e: Entity| #[trigger] self.placed_at(e) == before.placed_at(e),
            forall|e: Entity, c: ComponentIndex| #[trigger]
                self.component(e, c) == before.component(e, c),
            forall|e: Entity, c: ComponentIndex|
                c.0 < before.columns().len() && before.columns()[c.0 as int].meta().is_tick()
                    ==> #[trigger] self.tick_of(e, c) == before.tick_of(e, c),
            before.table(a).removes().len() == 0 ==> self.slots() == before.slots()
                && self.table(a).entities() == before.table(a).entities(),
    {
        let now = self.columns();
        let old_columns = before.columns();
        let t = self.table(a);
        let t0 = before.table(a);
        let index = t0.ar_index();
        let m = moves.len();
        assert(before.archetypes()[a].wf());
        assert(t0.marked());
        assert(t.store_frame(old_columns, now));
        assert forall|c: int| 0 <= c < now.len() implies (#[trigger] now[c]).meta().index.0 == c
            && now[c].meta().wf() by {
            assert(now[c].meta() == old_columns[c].meta());
        }
        assert forall|c: int, d: int| 0 <= c < d < now.len() implies (#[trigger] now[c]).meta().type_id
            != (#[trigger] now[d]).meta().type_id by {
            assert(now[c].meta() == old_columns[c].meta());
            assert(now[d].meta() == old_columns[d].meta());
        }
        assert forall|b: int| 0 <= b < self.archetypes().len() implies {
            &&& (#[trigger] self.archetypes()[b]).wf()
            &&& self.table(b).ar_index().0 == b
            &&& self.table(b).backed_by(self.columns())
            &&& self.table(b).marked()
        } by {
            assert(before.archetypes()[b].wf());
            assert(before.table(b).backed_by(old_columns));
            assert(before.table(b).marked());
            if b != a {
                assert forall|k: int| 0 <= k < self.table(b).columns().len() implies {
                    &&& (#[trigger] self.table(b).columns()[k]).index.0 < now.len()
                    &&& now[self.table(b).columns()[k].index.0 as int].meta() == self.table(
                        b,
                    ).columns()[k]
                    &&& now[self.table(b).columns()[k].index.0 as int].has_slot(
                        self.table(b).ar_index(),
                    )
                } by {
                    let c = self.table(b).columns()[k].index.0 as int;
                    assert(now[c].meta() == old_columns[c].meta());
                    assert(old_columns[c].has_slot(before.table(b).ar_index()));
                }
            }
        }
        assert forall|x: int, y: int| 0 <= x < y < self.archetypes().len() implies (
        #[trigger] self.table(x)).columns() != (#[trigger] self.table(y)).columns() by {
            assert(before.table(x).columns() != before.table(y).columns());
        }
        // Where each live entity of the archetype stands now.
        assert forall|s: int| 0 <= s < self.slots().len() && (#[trigger] self.slots()[s]).live implies {
            let addr = self.slots()[s];
            &&& 0 <= addr.index.0 < self.archetypes().len()
            &&& addr.row.0 < self.table(addr.index.0 as int).entities().len()
            &&& self.table(addr.index.0 as int).entities()[addr.row.0 as int] == Entity {
                generation: addr.generation,
                slot: s as u32,
            }
        } by {
            let addr0 = before.slots()[s];
            assert(self.slots()[s] == remapped(addr0, a, moves, m));
            assert(addr0.live);
            if addr0.index.0 == a {
                self.lemma_row_after(before, a, moves, addr0.row);
            }
        }
        assert forall|b: int, r: int|
            0 <= b < self.archetypes().len() && 0 <= r < self.table(b).entities().len() && !(
            #[trigger] self.table(b).entities()[r]).is_null() implies {
            let x = self.table(b).entities()[r];
            self.located(x) == Some((ArchetypeWorldIndex(b as i32), Row(r as u32)))
        } by {
            let x = self.table(b).entities()[r];
            if b != a {
                assert(before.table(b).entities()[r] == x);
                assert(before.located(x) == Some((ArchetypeWorldIndex(b as i32), Row(r as u32))));
                assert(self.slots()[x.slot as int] == remapped(before.slots()[x.slot as int], a, moves, m));
            } else {
                let row = Row(r as u32);
                let from = source_of(moves, m, row);
                lemma_compaction_source(
                    t0.removes(),
                    t0.entities().len() as int,
                    t.entities().len() as int,
                    moves,
                    m,
                    row,
                );
                assert(t.entities()[row.0 as int] == t0.entities()[from.0 as int]);
                if exists|j: int| 0 <= j < m && (#[trigger] moves[j]).1 == row {
                    let j = choose|j: int| 0 <= j < m && (#[trigger] moves[j]).1 == row;
                    assert(from == moves[j].0);
                    assert(from.0 < t0.entities().len());
                } else {
                    assert(from == row);
                }
                assert(before.located(x) == Some((ArchetypeWorldIndex(a as i32), from)));
                assert(self.slots()[x.slot as int] == remapped(before.slots()[x.slot as int], a, moves, m));
                lemma_target(
                    t0.removes(),
                    t0.entities().len() as int,
                    t.entities().len() as int,
                    moves,
                    m,
                    from,
                );
                if exists|j: int| 0 <= j < m && (#[trigger] moves[j]).1 == row {
                    let j = choose|j: int| 0 <= j < m && (#[trigger] moves[j]).1 == row;
                    assert(moves[j].0 == from);
                } else {
                    assert forall|j: int| 0 <= j < m implies (#[trigger] moves[j]).0 != row by {
                        assert(moves[j].0.0 >= t.entities().len());
                    }
                }
            }
        }
        assert forall|i: int| 0 <= i < self.free().len() implies (#[trigger] self.free()[i])
            < self.slots().len() && !self.slots()[self.free()[i] as int].live by {
            let f = self.free()[i];
            assert(before.free()[i] < before.slots().len());
            assert(self.slots()[f as int] == remapped(before.slots()[f as int], a, moves, m));
        }
        assert forall|e: Entity| #[trigger]
            self.located(e).is_some() == before.located(e).is_some() && (self.located(e).is_some()
                ==> self.located(e).unwrap().0 == before.located(e).unwrap().0) by {
            if e.slot < before.slots().len() {
                assert(self.slots()[e.slot as int] == remapped(before.slots()[e.slot as int], a, moves, m));
            }
        }
        assert forall|e: Entity| #[trigger] self.placed_at(e) == before.placed_at(e) by {
            if e.slot < before.slots().len() {
                assert(self.slots()[e.slot as int] == remapped(before.slots()[e.slot as int], a, moves, m));
            }
        }
        assert forall|e: Entity, c: ComponentIndex| #[trigger]
            self.component(e, c) == before.component(e, c) by {
            if e.slot < before.slots().len() {
                assert(self.slots()[e.slot as int] == remapped(before.slots()[e.slot as int], a, moves, m));
            }
            if before.located(e).is_some() {
                let addr0 = before.located(e).unwrap();
                let addr1 = self.located(e).unwrap();
                let b = addr0.0.0 as int;
                assert(before.slots()[e.slot as int].live);
                assert(self.table(b).columns() == before.table(b).columns());
                if has_component(before.table(b).columns(), c) {
                    let k = choose|k: int|
                        0 <= k < before.table(b).columns().len() && (
                        #[trigger] before.table(b).columns()[k]).index == c;
                    assert(before.table(b).backed_by(old_columns));
                    assert(c.0 < old_columns.len());
                    if b != a {
                        assert(addr1 == addr0);
                        assert(slot_same(old_columns[c.0 as int], now[c.0 as int], addr0.0));
                    } else {
                        self.lemma_row_after(before, a, moves, addr0.1);
                        if t0.removes().len() == 0 {
                            assert(moves.len() == 0) by {
                                if moves.len() > 0 {
                                    assert(t0.removes().contains(moves[0].1));
                                }
                            }
                        } else {
                            assert(t.column_settled(
                                old_columns[t0.columns()[k].index.0 as int],
                                now[t0.columns()[k].index.0 as int],
                                t.entities().len() as usize,
                                moves,
                            ));
                        }
                    }
                }
            }
        }
        assert forall|e: Entity, c: ComponentIndex|
            c.0 < before.columns().len() && before.columns()[c.0 as int].meta().is_tick() implies #[trigger]
            self.tick_of(e, c) == before.tick_of(e, c) by {
            if e.slot < before.slots().len() {
                assert(self.slots()[e.slot as int] == remapped(before.slots()[e.slot as int], a, moves, m));
            }
            if before.located(e).is_some() {
                let addr0 = before.located(e).unwrap();
                let addr1 = self.located(e).unwrap();
                let b = addr0.0.0 as int;
                assert(before.slots()[e.slot as int].live);
                assert(self.table(b).columns() == before.table(b).columns());
                if has_component(before.table(b).columns(), c) {
                    let k = choose|k: int|
                        0 <= k < before.table(b).columns().len() && (
                        #[trigger] before.table(b).columns()[k]).index == c;
                    assert(before.table(b).backed_by(old_columns));
                    assert(c.0 < old_columns.len());
                    if b != a {
                        assert(addr1 == addr0);
                        assert(slot_same(old_columns[c.0 as int], now[c.0 as int], addr0.0));
                    } else {
                        self.lemma_row_after(before, a, moves, addr0.1);
                        if t0.removes().len() == 0 {
                            assert(moves.len() == 0) by {
                                if moves.len() > 0 {
                                    assert(t0.removes().contains(moves[0].1));
                                }
                            }
                        } else {
                            assert(t.column_settled(
                                old_columns[t0.columns()[k].index.0 as int],
                                now[t0.columns()[k].index.0 as int],
                                t.entities().len() as usize,
                                moves,
                            ));
                        }
                    }
                }
            }
        }
        if t0.removes().len() == 0 {
            assert(moves.len() == 0) by {
                if moves.len() > 0 {
                    assert(t0.removes().contains(moves[0].1));
                }
            }
            assert(self.slots() =~= before.slots());
            assert(t.entities() =~= t0.entities());
        }
    }

    /// Where a live entity of the compacted archetype stands: in the row
    /// that its old row moved to, which holds the entity.
    proof fn lemma_row_after(&self, before: &World, a: int, moves: Seq<(Row, Row)>, row: Row)
        requires
            self.remap_state(before, a, moves, moves.len()),
            row.0 < before.table(a).entities().len(),
            !before.table(a).entities()[row.0 as int].is_null(),
        ensures
            target_of(moves, moves.len(), row).0 < self.table(a).entities().len(),
            self.table(a).entities()[target_of(moves, moves.len(), row).0 as int] == before.table(
                a,
            ).entities()[row.0 as int],
            source_of(moves, moves.len(), target_of(moves, moves.len(), row)) == row,
    {
        let t = self.table(a);
        let t0 = before.table(a);
        let m = moves.len();
        assert(before.archetypes()[a].wf());
        assert(t0.marked());
        assert(!t0.removes().contains(row));
        lemma_target(t0.removes(), t0.entities().len() as int, t.entities().len() as int, moves, m, row);
        let to = target_of(moves, m, row);
        if exists|j: int| 0 <= j < m && (#[trigger] moves[j]).0 == row {
            let j = choose|j: int| 0 <= j < m && (#[trigger] moves[j]).0 == row;
            assert(to == moves[j].1);
        } else {
            assert(to == row);
            if row.0 >= t.entities().len() {
                let j = choose|j: int| 0 <= j < m && (#[trigger] moves[j]).0 == row;
            }
        }
        lemma_compaction_source(
            t0.removes(),
            t0.entities().len() as int,
            t.entities().len() as int,
            moves,
            m,
            to,
        );
        if exists|j: int| 0 <= j < m && (#[trigger] moves[j]).0 == row {
            let j = choose|j: int| 0 <= j < m && (#[trigger] moves[j]).0 == row;
            assert(moves[j].1 == to);
        } else {
            assert forall|j: int| 0 <= j < m implies (#[trigger] moves[j]).1 != row by {
                assert(t0.removes().contains(moves[j].1));
            }
        }
        assert(t.entities()[to.0 as int] == t0.entities()[source_of(moves, m, to).0 as int]);
    }

    /// Records `row` as the row of the entity in the slot of `e`.
    pub(crate) fn replace_row(&mut self, e: Entity, row: Row)
        requires
            e.slot < old(self).slots().len(),
        ensures
            final(self).slots() == old(self).slots().update(
                e.slot as int,
                EntityAddr { row, ..old(self).slots()[e.slot as int] },
            ),
            final(self).columns() == old(self).columns(),
            final(self).archetypes() == old(self).archetypes(),
            final(self).free() == old(self).free(),
            final(self).listeners() == old(self).listeners(),
            final(self).spec_tick() == old(self).spec_tick(),
    {
        let addr = self.slots[e.slot as usize];
        self.slots.set(
            e.slot as usize,
            EntityAddr {
                generation: addr.generation,
                index: addr.index,
                row,
                live: addr.live,
                tick: addr.tick,
            },
        );
    }

    /// What compaction leaves: no table has a row queued for removal or a
    /// row that holds the null entity; every entity is in the archetype it
    /// was in and has the components it had; and a world without queued
    /// rows is left exactly as it was.
    pub open spec fn settled(&self, after: &World) -> bool {
        &&& after.wf()
        &&& after.archetypes().len() == self.archetypes().len()
        &&& after.free() == self.free()
        &&& after.listeners() == self.listeners()
        &&& forall|a: int|
            0 <= a < self.archetypes().len() ==> {
                &&& (#[trigger] after.table(a)).columns() == self.table(a).columns()
                &&& after.table(a).removes().len() == 0
                &&& after.table(a).entities().len() == self.table(a).entities().len() - self.table(
                    a,
                ).removes().len()
                &&& forall|r: int|
                    0 <= r < after.table(a).entities().len() ==> !(#[trigger] after.table(
                        a,
                    ).entities()[r]).is_null()
            }
        &&& forall|e: Entity| #[trigger]
            after.located(e).is_some() == self.located(e).is_some() && (after.located(e).is_some()
                ==> after.located(e).unwrap().0 == self.located(e).unwrap().0)
        &&& forall|e: Entity| #[trigger] after.placed_at(e) == self.placed_at(e)
        &&& forall|e: Entity, c: ComponentIndex| #[trigger]
            after.component(e, c) == self.component(e, c)
        &&& forall|e: Entity, c: ComponentIndex|
            c.0 < self.columns().len() && self.columns()[c.0 as int].meta().is_tick()
                ==> #[trigger] after.tick_of(e, c) == self.tick_of(e, c)
        &&& (forall|a: int|
            0 <= a < self.archetypes().len() ==> (#[trigger] self.table(a)).removes().len() == 0) ==> {
            &&& after.columns() == self.columns()
            &&& after.slots() == self.slots()
            &&& forall|a: int|
                0 <= a < self.archetypes().len() ==> (#[trigger] after.table(a)).entities()
                    == self.table(a).entities()
        }
    }

    /// Compacts every table, between epochs: fills the rows queued for
    /// removal from the tail, shortens the tables, and gives every moved
    /// entity its new row. See `settled`.
    #[verifier::rlimit(60)]
    pub fn settle(&mut self)
        requires
            old(self).wf(),
        ensures
            old(self).settled(final(self)),
            final(self).spec_tick() == old(self).spec_tick(),
    {
        let mut action: Vec<(Row, Row)> = Vec::new();
        let mut set = bitset_with_capacity(0);
        let n = self.archetypes.len();
        let mut a: usize = 0;
        while a < n
            invariant
                a <= n,
                n == old(self).archetypes().len(),
                old(self).wf(),
                self.wf(),
                self.tick == old(self).tick,
                self.archetypes().len() == n,
                self.free() == old(self).free(),
                self.listeners() == old(self).listeners(),
                forall|b: int| a <= b < n ==> #[trigger] self.archetypes()[b] == old(self).archetypes()[b],
                forall|b: int|
                    0 <= b < n ==> (#[trigger] self.table(b)).columns() == old(self).table(b).columns(),
                forall|b: int|
                    0 <= b < a ==> {
                        &&& (#[trigger] self.table(b)).removes().len() == 0
                        &&& self.table(b).entities().len() == old(self).table(b).entities().len() - old(self).table(b).removes().len()
                    },
                forall|e: Entity| #[trigger]
                    self.located(e).is_some() == old(self).located(e).is_some() && (self.located(
                        e,
                    ).is_some() ==> self.located(e).unwrap().0 == old(self).located(e).unwrap().0),
                forall|e: Entity| #[trigger] self.placed_at(e) == old(self).placed_at(e),
                forall|e: Entity, c: ComponentIndex| #[trigger]
                    self.component(e, c) == old(self).component(e, c),
                forall|e: Entity, c: ComponentIndex|
                    c.0 < old(self).columns().len() && old(self).columns()[c.0 as int].meta().is_tick()
                        ==> #[trigger] self.tick_of(e, c) == old(self).tick_of(e, c),
                store_extends(old(self).columns(), self.columns()),
                (forall|b: int| 0 <= b < a ==> (#[trigger] old(self).table(b)).removes().len() == 0) ==> {
                    &&& self.columns() == old(self).columns()
                    &&& self.slots() == old(self).slots()
                    &&& forall|b: int|
                        0 <= b < a ==> (#[trigger] self.table(b)).entities() == old(self).table(
                            b,
                        ).entities()
                },
            decreases n - a,
        {
            let ghost before = *self;
            let queued = self.archetypes[a].table().get_removes().len();
            self.archetypes[a].settle(&mut self.columns, &mut action, &mut set);
            // Where no row was queued no move was made, and what the buffer
            // holds are the moves of another table.
            let ghost moves = before.table(a as int).moves_made(action@);
            let m = if queued == 0 {
                0
            } else {
                action.len()
            };
            let mut k: usize = 0;
            proof {
                assert forall|s: int| 0 <= s < before.slots().len() implies #[trigger] self.slots()[s]
                    == remapped(before.slots()[s], a as int, moves, 0) by {}
                self.lemma_records_kept(&before);
            }
            while k < m
                invariant
                    k <= m,
                    m == moves.len(),
                    m > 0 ==> action@ == moves,
                    a < n,
                    self.tick == old(self).tick,
                    self.listeners() == before.listeners(),
                    self.remap_state(&before, a as int, moves, k as nat),
                decreases m - k,
            {
                let dst: Row = action[k].1;
                let ghost t = self.table(a as int);
                let ghost t0 = before.table(a as int);
                proof {
                    lemma_compaction_source(
                        t0.removes(),
                        t0.entities().len() as int,
                        t.entities().len() as int,
                        moves,
                        moves.len(),
                        dst,
                    );
                    assert(moves[k as int].1 == dst);
                    assert(source_of(moves, moves.len(), dst) == moves[k as int].0);
                }
                let e = self.archetypes[a].table().get(dst);
                proof {
                    let src = moves[k as int].0;
                    assert(e == t0.entities()[src.0 as int]);
                    assert(!e.is_null());
                    assert(before.located(e) == Some((ArchetypeWorldIndex(a as i32), src)));
                }
                let ghost cur = self.slots();
                self.replace_row(e, dst);
                proof {
                    let src = moves[k as int].0;
                    assert forall|s: int| 0 <= s < before.slots().len() implies #[trigger] self.slots()[s]
                        == remapped(before.slots()[s], a as int, moves, (k + 1) as nat) by {
                        let addr0 = before.slots()[s];
                        assert(cur[s] == remapped(addr0, a as int, moves, k as nat));
                        if s == e.slot {
                        } else if addr0.live && addr0.index.0 == a {
                            assert(t0.entities()[addr0.row.0 as int] == Entity {
                                generation: addr0.generation,
                                slot: s as u32,
                            });
                            assert(addr0.row != src);
                        }
                    }
                }
                k += 1;
            }
            proof {
                self.lemma_remapped(&before, a as int, moves);
                assert forall|e: Entity| #[trigger]
                    self.located(e).is_some() == old(self).located(e).is_some() && (self.located(
                        e,
                    ).is_some() ==> self.located(e).unwrap().0 == old(self).located(e).unwrap().0) by {
                    assert(before.located(e).is_some() == old(self).located(e).is_some());
                }
                assert forall|e: Entity, c: ComponentIndex| #[trigger]
                    self.component(e, c) == old(self).component(e, c) by {
                    assert(before.component(e, c) == old(self).component(e, c));
                }
                assert forall|e: Entity| #[trigger] self.placed_at(e) == old(self).placed_at(e) by {
                    assert(before.placed_at(e) == old(self).placed_at(e));
                }
                assert forall|e: Entity, c: ComponentIndex|
                    c.0 < old(self).columns().len() && old(self).columns()[c.0 as int].meta().is_tick() implies #[trigger]
                    self.tick_of(e, c) == old(self).tick_of(e, c) by {
                    assert(before.columns()[c.0 as int].meta() == old(self).columns()[c.0 as int].meta());
                    assert(before.tick_of(e, c) == old(self).tick_of(e, c));
                }
                assert(store_extends(old(self).columns(), self.columns())) by {
                    assert(self.table(a as int).store_frame(before.columns(), self.columns()));
                    assert forall|c: int| 0 <= c < self.columns().len() implies (
                    #[trigger] self.columns()[c]).meta() == old(self).columns()[c].meta()
                        && self.columns()[c].slots().len() >= old(self).columns()[c].slots().len() by {
                        assert(before.columns()[c].meta() == old(self).columns()[c].meta());
                        assert(self.columns()[c].meta() == before.columns()[c].meta());
                    }
                }
                assert forall|b: int| 0 <= b < a + 1 implies {
                    &&& (#[trigger] self.table(b)).removes().len() == 0
                    &&& self.table(b).entities().len() == old(self).table(b).entities().len() - old(self).table(b).removes().len()
                } by {
                    if b < a {
                        assert(self.archetypes()[b] == before.archetypes()[b]);
                        assert(before.table(b).removes().len() == 0);
                    }
                }
                assert forall|b: int| 0 <= b < n implies (#[trigger] self.table(b)).columns() == old(self).table(b).columns() by {
                    assert(before.table(b).columns() == old(self).table(b).columns());
                    if b != a {
                        assert(self.archetypes()[b] == before.archetypes()[b]);
                    }
                }
                if forall|b: int| 0 <= b < a + 1 ==> (#[trigger] old(self).table(b)).removes().len() == 0 {
                    assert(old(self).table(a as int).removes().len() == 0);
                    assert(before.table(a as int) == old(self).table(a as int));
                    assert forall|b: int| 0 <= b < a + 1 implies (#[trigger] self.table(b)).entities()
                        == old(self).table(b).entities() by {
                        if b < a {
                            assert(self.archetypes()[b] == before.archetypes()[b]);
                            assert(before.table(b).entities() == old(self).table(b).entities());
                        }
                    }
                }
            }
            a += 1;
        }
        proof {
            assert forall|b: int, r: int|
                0 <= b < n && 0 <= r < self.table(b).entities().len() implies !(#[trigger] self.table(
                b,
            ).entities()[r]).is_null() by {
                assert(self.archetypes()[b].wf());
                assert(self.table(b).marked());
                assert(self.table(b).removes().len() == 0);
                let row = Row(r as u32);
                assert(row.0 as int == r);
                assert(!self.table(b).removes().contains(row));
                assert(!self.table(b).entities()[row.0 as int].is_null());
            }
        }
    }

    /// A world whose columns changed in what they store, and in nothing
    /// else, is well formed as it was, and every entity is where it was.
    pub proof fn lemma_store_changed(&self, before: &World)
        requires
            self.listeners_wf(),
            before.wf(),
            self.archetypes() == before.archetypes(),
            self.slots() == before.slots(),
            self.free() == before.free(),
            store_extends(before.columns(), self.columns()),
        ensures
            self.wf(),
            forall|e: Entity| #[trigger] self.located(e) == before.located(e),
    {
        let now = self.columns();
        let old_columns = before.columns();
        assert forall|c: int| 0 <= c < now.len() implies (#[trigger] now[c]).meta().index.0 == c
            && now[c].meta().wf() by {
            assert(now[c].meta() == old_columns[c].meta());
        }
        assert forall|c: int, d: int| 0 <= c < d < now.len() implies (#[trigger] now[c]).meta().type_id
            != (#[trigger] now[d]).meta().type_id by {
            assert(now[c].meta() == old_columns[c].meta());
            assert(now[d].meta() == old_columns[d].meta());
        }
        assert forall|a: int| 0 <= a < self.archetypes().len() implies (#[trigger] self.table(
            a,
        )).backed_by(now) by {
            assert(before.table(a).backed_by(old_columns));
            assert forall|k: int| 0 <= k < self.table(a).columns().len() implies {
                &&& (#[trigger] self.table(a).columns()[k]).index.0 < now.len()
                &&& now[self.table(a).columns()[k].index.0 as int].meta() == self.table(a).columns()[k]
                &&& now[self.table(a).columns()[k].index.0 as int].has_slot(self.table(a).ar_index())
            } by {
                let c = self.table(a).columns()[k].index.0 as int;
                assert(now[c].meta() == old_columns[c].meta());
                assert(old_columns[c].has_slot(before.table(a).ar_index()));
            }
        }
        assert forall|a: int| 0 <= a < self.archetypes().len() implies {
            &&& (#[trigger] self.archetypes()[a]).wf()
            &&& self.table(a).ar_index().0 == a
            &&& self.table(a).backed_by(self.columns())
            &&& self.table(a).marked()
        } by {
            assert(before.archetypes()[a].wf());
            assert(self.table(a).backed_by(now));
        }
    }

    /// What a write to a component of an entity leaves: the component
    /// holds the bytes, its tick is the current tick where the column
    /// tracks ticks and the recorded tick is older, and nothing else
    /// changes.
    pub open spec fn written(&self, after: &World, e: Entity, index: ComponentIndex, data: Seq<u8>) -> bool {
        let addr = self.located(e).unwrap();
        let c = index.0 as int;
        &&& after.wf()
        &&& self.component(e, index).is_ok()
        &&& after.archetypes() == self.archetypes()
        &&& after.slots() == self.slots()
        &&& after.free() == self.free()
        &&& after.listeners() == self.listeners()
        &&& store_extends(self.columns(), after.columns())
        &&& after.component(e, index) == Ok::<Seq<u8>, QueryError>(data)
        &&& forall|d: int, x: ArchetypeWorldIndex, r: Row|
            0 <= d < self.columns().len() && !(d == c && x == addr.0 && r == addr.1)
                ==> #[trigger] after.columns()[d].cell(x, r) == self.columns()[d].cell(x, r)
        &&& forall|d: int, x: ArchetypeWorldIndex, r: Row|
            0 <= d < self.columns().len() && !(d == c && x == addr.0 && r == addr.1)
                ==> #[trigger] after.columns()[d].tick(x, r) == self.columns()[d].tick(x, r)
        &&& after.columns()[c].tick(addr.0, addr.1) == if self.columns()[c].meta().is_tick()
            && self.columns()[c].tick(addr.0, addr.1).0 < self.spec_tick().0 {
            self.spec_tick()
        } else {
            self.columns()[c].tick(addr.0, addr.1)
        }
        &&& after.columns()[c].log(addr.0) == if self.columns()[c].meta().is_tick()
            && self.columns()[c].tick(addr.0, addr.1).0 < self.spec_tick().0 {
            self.columns()[c].log(addr.0).push((e, self.spec_tick()))
        } else {
            self.columns()[c].log(addr.0)
        }
    }

    /// Overwrites a component of an entity with the bytes of one value and
    /// records the current tick as the tick of the change: see `written`.
    /// An entity that is not in the world gives `NoSuchEntity`, one that
    /// lacks the component `MissingComponent`; then nothing changes.
    pub fn set_component(&mut self, e: Entity, index: ComponentIndex, data: &Vec<u8>) -> (r: Result<
        (),
        QueryError,
    >)
        requires
            old(self).wf(),
            index.0 < old(self).columns().len() ==> data@.len() == old(self).columns()[index.0 as int].size(),
        ensures
            final(self).spec_tick() == old(self).spec_tick(),
            match r {
                Ok(_) => old(self).written(final(self), e, index, data@),
                Err(err) => {
                    &&& old(self).component(e, index) == Err::<Seq<u8>, QueryError>(err)
                    &&& final(self).columns() == old(self).columns()
                    &&& final(self).archetypes() == old(self).archetypes()
                    &&& final(self).slots() == old(self).slots()
                    &&& final(self).free() == old(self).free()
                    &&& final(self).listeners() == old(self).listeners()
                },
            },
    {
        let addr = match self.lookup(e) {
            Ok(addr) => addr,
            Err(err) => {
                return Err(err);
            },
        };
        let a: usize = addr.0.index();
        let tick = self.tick;
        let k = match self.archetypes[a].table().column_position(index) {
            Some(k) => k,
            None => {
                return Err(QueryError::MissingComponent);
            },
        };
        proof {
            assert(old(self).slots()[e.slot as int].live);
            assert(old(self).table(a as int).backed_by(old(self).columns()));
            assert(old(self).table(a as int).columns()[k as int].index == index);
        }
        self.archetypes[a].table().store_column(&mut self.columns, k, addr.1, data, e, tick, false);
        proof {
            self.lemma_records_kept(old(self));
            self.lemma_store_changed(old(self));
            let t = self.table(a as int);
            let before = old(self).columns();
            let now = self.columns();
            let c = index.0 as int;
            assert(t.store_frame(before, now));
            assert forall|d: int, x: ArchetypeWorldIndex, r: Row|
                0 <= d < before.len() && !(d == c && x == addr.0 && r == addr.1) implies #[trigger]
                now[d].cell(x, r) == before[d].cell(x, r) by {
                if d != c {
                    assert(now[d] == before[d]);
                } else if x != addr.0 {
                    assert(slot_same(before[d], now[d], x));
                }
            }
            assert forall|d: int, x: ArchetypeWorldIndex, r: Row|
                0 <= d < before.len() && !(d == c && x == addr.0 && r == addr.1) implies #[trigger]
                now[d].tick(x, r) == before[d].tick(x, r) by {
                if d != c {
                    assert(now[d] == before[d]);
                } else if x != addr.0 {
                    assert(slot_same(before[d], now[d], x));
                }
            }
        }
        Ok(())
    }

    /// What the move of `e` to the archetype `dst` leaves: the entity is at
    /// the row that was the end of the table of `dst`, and the row it left
    /// holds null and is queued for removal; every other entity is where
    /// it was. Of the columns of `dst`, those in `moving` hold for `e` what
    /// they held for it before, those in `adding` the default value of
    /// their type. No other cell of any column changes, and nothing is
    /// released but the values of `e` in the columns in `removing`.
    pub open spec fn moved(
        &self,
        after: &World,
        e: Entity,
        dst: ArchetypeWorldIndex,
        adding: Seq<ComponentInfo>,
        moving: Seq<ComponentInfo>,
        removing: Seq<ComponentInfo>,
    ) -> bool {
        let src = self.located(e).unwrap().0;
        let row = self.located(e).unwrap().1;
        let new_row = Row(self.table(dst.0 as int).entities().len() as u32);
        &&& after.wf()
        &&& after.listeners() == self.listeners()
        &&& self.located(e).is_some()
        &&& after.located(e) == Some((dst, new_row))
        &&& after.placed_at(e) == self.spec_tick()
        &&& forall|other: Entity|
            other != e ==> #[trigger] after.located(other) == self.located(other) && after.placed_at(
                other,
            ) == self.placed_at(other)
        &&& after.archetypes().len() == self.archetypes().len()
        &&& forall|b: int|
            0 <= b < self.archetypes().len() ==> (#[trigger] after.table(b)).columns()
                == self.table(b).columns()
        &&& after.table(src.0 as int).entities() == self.table(src.0 as int).entities().update(
            row.0 as int,
            Entity { generation: u32::MAX, slot: u32::MAX },
        )
        &&& after.table(src.0 as int).removes() == self.table(src.0 as int).removes().push(row)
        &&& after.table(dst.0 as int).entities() == self.table(dst.0 as int).entities().push(e)
        &&& after.table(dst.0 as int).removes() == self.table(dst.0 as int).removes()
        &&& forall|b: int|
            0 <= b < self.archetypes().len() && b != src.0 && b != dst.0 ==> (#[trigger] after.table(
                b,
            )).entities() == self.table(b).entities() && after.table(b).removes() == self.table(
                b,
            ).removes()
        &&& store_extends(self.columns(), after.columns())
        &&& forall|c: int, x: ArchetypeWorldIndex, r: Row|
            0 <= c < self.columns().len() && !(x == dst && r == new_row) ==> #[trigger] after.columns()[c].cell(
                x,
                r,
            ) == self.columns()[c].cell(x, r)
        &&& forall|c: int, x: ArchetypeWorldIndex, r: Row|
            0 <= c < self.columns().len() && !(x == dst && r == new_row) ==> #[trigger] after.columns()[c].tick(
                x,
                r,
            ) == self.columns()[c].tick(x, r)
        &&& forall|c: int|
            0 <= c < self.columns().len() && in_list(moving, c) ==> (#[trigger] after.columns()[c]).cell(
                dst,
                new_row,
            ) == self.columns()[c].cell(src, row) && after.columns()[c].tick(dst, new_row)
                == self.columns()[c].tick(src, row)
        &&& forall|c: int|
            0 <= c < self.columns().len() && in_list(adding, c) ==> (#[trigger] after.columns()[c]).cell(
                dst,
                new_row,
            ) == self.columns()[c].meta().default_bytes()
        &&& forall|c: int, x: ArchetypeWorldIndex|
            0 <= c < self.columns().len() ==> #[trigger] after.columns()[c].released(x) == if x == src
                && in_list(removing, c) && self.columns()[c].meta().needs_drop {
                self.columns()[c].released(x).push(self.columns()[c].cell(src, row))
            } else {
                self.columns()[c].released(x)
            }
    }

    /// Whether the lists say, for a move from the archetype `src` to the
    /// archetype `dst`, what happens to each column: the moved columns are
    /// in both archetypes, the initialised ones in `dst`, the dropped ones
    /// in `src`; no column is in two lists, and every column of `dst` is
    /// moved or initialised.
    pub open spec fn move_plan(
        &self,
        src: int,
        dst: int,
        adding: Seq<ComponentInfo>,
        moving: Seq<ComponentInfo>,
        removing: Seq<ComponentInfo>,
    ) -> bool {
        &&& forall|i: int, j: int|
            0 <= i < j < adding.len() ==> (#[trigger] adding[i]).index.0 < (#[trigger] adding[j]).index.0
        &&& forall|i: int, j: int|
            0 <= i < j < moving.len() ==> (#[trigger] moving[i]).index.0 < (#[trigger] moving[j]).index.0
        &&& forall|i: int, j: int|
            0 <= i < j < removing.len() ==> (#[trigger] removing[i]).index.0 < (
            #[trigger] removing[j]).index.0
        &&& forall|k: int|
            0 <= k < moving.len() ==> self.table(src).is_column((#[trigger] moving[k]).index.0 as int)
                && self.table(dst).is_column(moving[k].index.0 as int)
        &&& forall|k: int|
            0 <= k < adding.len() ==> self.table(dst).is_column((#[trigger] adding[k]).index.0 as int)
                && !in_list(moving, adding[k].index.0 as int)
        &&& forall|k: int|
            0 <= k < removing.len() ==> self.table(src).is_column(
                (#[trigger] removing[k]).index.0 as int,
            ) && !in_list(moving, removing[k].index.0 as int) && !in_list(
                adding,
                removing[k].index.0 as int,
            )
        &&& forall|c: int| #[trigger]
            self.table(dst).is_column(c) ==> in_list(moving, c) || in_list(adding, c)
    }

    /// Moves an entity to another archetype: reserves a row there, moves
    /// the values of the columns in `moving` to it, initialises the columns
    /// in `adding`, releases the values of the columns in `removing`,
    /// queues the row that the entity leaves for removal, and publishes the
    /// entity in its new row last. See `moved`.
    #[verifier::rlimit(60)]
    pub(crate) fn move_entity(
        &mut self,
        e: Entity,
        dst: ArchetypeWorldIndex,
        adding: &Vec<Share<ComponentInfo>>,
        moving: &Vec<Share<ComponentInfo>>,
        removing: &Vec<Share<ComponentInfo>>,
    ) -> (new_row: Row)
        requires
            old(self).wf(),
            old(self).located(e).is_some(),
            0 <= dst.0 < old(self).archetypes().len(),
            old(self).located(e).unwrap().0 != dst,
            old(self).table(dst.0 as int).has_room(),
            old(self).move_plan(
                old(self).located(e).unwrap().0.0 as int,
                dst.0 as int,
                infos_of(adding@),
                infos_of(moving@),
                infos_of(removing@),
            ),
        ensures
            old(self).moved(final(self), e, dst, infos_of(adding@), infos_of(moving@), infos_of(removing@)),
            new_row.0 == old(self).table(dst.0 as int).entities().len(),
            final(self).spec_tick() == old(self).spec_tick(),
    {
        let addr = self.slots[e.slot as usize];
        let src = addr.index;
        let row = addr.row;
        let tick = self.tick;
        let ghost s0 = self.columns@;
        let ghost t_src = old(self).table(src.0 as int);
        let ghost t_dst = old(self).table(dst.0 as int);
        let ghost g_add = infos_of(adding@);
        let ghost g_mov = infos_of(moving@);
        let ghost g_rem = infos_of(removing@);
        proof {
            assert(old(self).slots()[e.slot as int].live);
            assert(old(self).archetypes()[src.0 as int].wf());
            assert(old(self).archetypes()[dst.0 as int].wf());
            assert(t_src.backed_by(s0));
            assert(t_dst.backed_by(s0));
            assert(t_src.entities()[row.0 as int] == e);
        }
        let new_row = self.archetypes[dst.index()].table_mut().alloc_row();
        proof {
            assert(cells_ready(g_mov, s0, src, row) && cells_ready(g_mov, s0, dst, new_row)) by {
                assert forall|k: int| 0 <= k < g_mov.len() implies {
                    let c = (#[trigger] g_mov[k]).index.0 as int;
                    &&& c < s0.len()
                    &&& s0[c].meta().wf()
                    &&& s0[c].has_slot(src)
                    &&& s0[c].has_slot(dst)
                    &&& row_fits(row, s0[c].size())
                    &&& row_fits(new_row, s0[c].size())
                } by {
                    let c = g_mov[k].index.0 as int;
                    old(self).lemma_column_rows(src.0 as int, c, row);
                    old(self).lemma_column_room(dst.0 as int, c);
                }
            }
            assert(cells_ready(g_add, s0, dst, new_row)) by {
                assert forall|k: int| 0 <= k < g_add.len() implies {
                    let c = (#[trigger] g_add[k]).index.0 as int;
                    &&& c < s0.len()
                    &&& s0[c].meta().wf()
                    &&& s0[c].has_slot(dst)
                    &&& row_fits(new_row, s0[c].size())
                } by {
                    let c = g_add[k].index.0 as int;
                    old(self).lemma_column_room(dst.0 as int, c);
                }
            }
            assert(cells_ready(g_rem, s0, src, row)) by {
                assert forall|k: int| 0 <= k < g_rem.len() implies {
                    let c = (#[trigger] g_rem[k]).index.0 as int;
                    &&& c < s0.len()
                    &&& s0[c].meta().wf()
                    &&& s0[c].has_slot(src)
                    &&& row_fits(row, s0[c].size())
                } by {
                    let c = g_rem[k].index.0 as int;
                    old(self).lemma_column_rows(src.0 as int, c, row);
                }
            }
        }
        move_cells(&mut self.columns, moving, src, row, dst, new_row, e);
        let ghost s1 = self.columns@;
        proof {
            assert(cells_ready(g_add, s1, dst, new_row)) by {
                assert forall|k: int| 0 <= k < g_add.len() implies {
                    let c = (#[trigger] g_add[k]).index.0 as int;
                    &&& c < s1.len()
                    &&& s1[c].meta().wf()
                    &&& s1[c].has_slot(dst)
                    &&& row_fits(new_row, s1[c].size())
                } by {
                    let c = g_add[k].index.0 as int;
                    assert(!in_list(g_mov, c));
                    assert(s1[c] == s0[c]);
                }
            }
        }
        init_cells(&mut self.columns, adding, dst, new_row, e, tick);
        let ghost s2 = self.columns@;
        proof {
            assert(cells_ready(g_rem, s2, src, row)) by {
                assert forall|k: int| 0 <= k < g_rem.len() implies {
                    let c = (#[trigger] g_rem[k]).index.0 as int;
                    &&& c < s2.len()
                    &&& s2[c].meta().wf()
                    &&& s2[c].has_slot(src)
                    &&& row_fits(row, s2[c].size())
                } by {
                    let c = g_rem[k].index.0 as int;
                    assert(!in_list(g_mov, c));
                    assert(!in_list(g_add, c));
                    assert(s1[c] == s0[c]);
                    assert(s2[c] == s1[c]);
                }
            }
        }
        drop_cells(&mut self.columns, removing, src, row);
        let ghost s3 = self.columns@;
        let removed = self.archetypes[src.index()].mark_remove(row);
        self.archetypes[dst.index()].table_mut().set(new_row, e);
        self.slots.set(
            e.slot as usize,
            EntityAddr { generation: addr.generation, index: dst, row: new_row, live: true, tick },
        );
        proof {
            assert(removed == e);
            assert(self.table(dst.0 as int).entities() =~= t_dst.entities().push(e));
            lemma_cells_composed(s0, s1, s2, s3, g_add, g_mov, g_rem, src, row, dst, new_row, e, tick);
            self.lemma_records_kept(old(self));
            self.lemma_moved(old(self), e, dst, new_row);
        }
        new_row
    }

    /// A row of a table fits the storage of each of its columns.
    proof fn lemma_column_rows(&self, a: int, c: int, row: Row)
        requires
            self.wf(),
            0 <= a < self.archetypes().len(),
            self.table(a).is_column(c),
            row.0 < self.table(a).entities().len(),
        ensures
            0 <= c < self.columns().len(),
            self.columns()[c].meta().wf(),
            self.columns()[c].has_slot(ArchetypeWorldIndex(a as i32)),
            row_fits(row, self.columns()[c].size()),
    {
        let t = self.table(a);
        assert(self.archetypes()[a].wf());
        assert(t.backed_by(self.columns()));
        let k = choose|k: int| 0 <= k < t.columns().len() && (#[trigger] t.columns()[k]).index.0 == c;
        assert(self.columns()[c].meta() == t.columns()[k]);
        lemma_len_fits_rows(t.entities().len() as usize, t.columns()[k].size(), row);
    }

    /// The row past the end of a table with room fits the storage of each
    /// of its columns.
    proof fn lemma_column_room(&self, a: int, c: int)
        requires
            self.wf(),
            0 <= a < self.archetypes().len(),
            self.table(a).is_column(c),
            self.table(a).has_room(),
        ensures
            0 <= c < self.columns().len(),
            self.columns()[c].meta().wf(),
            self.columns()[c].has_slot(ArchetypeWorldIndex(a as i32)),
            row_fits(Row(self.table(a).entities().len() as u32), self.columns()[c].size()),
    {
        let t = self.table(a);
        assert(self.archetypes()[a].wf());
        assert(t.backed_by(self.columns()));
        let k = choose|k: int| 0 <= k < t.columns().len() && (#[trigger] t.columns()[k]).index.0 == c;
        assert(self.columns()[c].meta() == t.columns()[k]);
        lemma_len_fits_rows(
            (t.entities().len() + 1) as usize,
            t.columns()[k].size(),
            Row(t.entities().len() as u32),
        );
    }

    /// The world is well formed after an entity moved from its row to a
    /// fresh row of another archetype.
    proof fn lemma_moved(&self, before: &World, e: Entity, dst: ArchetypeWorldIndex, new_row: Row)
        requires
            self.listeners_wf(),
            before.wf(),
            before.located(e).is_some(),
            0 <= dst.0 < before.archetypes().len(),
            before.located(e).unwrap().0 != dst,
            new_row.0 == before.table(dst.0 as int).entities().len(),
            new_row.0 < crate::column::MAX_ROWS,
            self.archetypes().len() == before.archetypes().len(),
            store_extends(before.columns(), self.columns()),
            ({
                let src = before.located(e).unwrap().0.0 as int;
                let row = before.located(e).unwrap().1;
                let d = dst.0 as int;
                &&& forall|b: int|
                    0 <= b < before.archetypes().len() && b != src && b != d ==> #[trigger] self.archetypes()[b]
                        == before.archetypes()[b]
                &&& self.archetypes()[src].spec_id() == before.archetypes()[src].spec_id()
                &&& self.archetypes()[src].spec_name() == before.archetypes()[src].spec_name()
                &&& self.archetypes()[d].spec_id() == before.archetypes()[d].spec_id()
                &&& self.archetypes()[d].spec_name() == before.archetypes()[d].spec_name()
                &&& self.table(src).wf()
                &&& self.table(src).marked()
                &&& self.table(src).columns() == before.table(src).columns()
                &&& self.table(src).ar_index() == before.table(src).ar_index()
                &&& self.table(src).entities() == before.table(src).entities().update(
                    row.0 as int,
                    Entity { generation: u32::MAX, slot: u32::MAX },
                )
                &&& self.table(src).removes() == before.table(src).removes().push(row)
                &&& self.table(d).wf()
                &&& self.table(d).columns() == before.table(d).columns()
                &&& self.table(d).ar_index() == before.table(d).ar_index()
                &&& self.table(d).entities() == before.table(d).entities().push(e)
                &&& self.table(d).removes() == before.table(d).removes()
            }),
            self.slots().len() == before.slots().len(),
            self.slots()[e.slot as int] == (EntityAddr {
                generation: e.generation,
                index: dst,
                row: new_row,
                live: true,
                tick: self.slots()[e.slot as int].tick,
            }),
            forall|s: int|
                0 <= s < before.slots().len() && s != e.slot ==> #[trigger] self.slots()[s]
                    == before.slots()[s],
            self.free() == before.free(),
        ensures
            self.wf(),
            self.located(e) == Some((dst, new_row)),
            forall|other: Entity| other != e ==> #[trigger] self.located(other) == before.located(other),
    {
        let src = before.located(e).unwrap().0.0 as int;
        let row = before.located(e).unwrap().1;
        let d = dst.0 as int;
        let now = self.columns();
        let old_columns = before.columns();
        assert(before.slots()[e.slot as int].live);
        assert(before.table(src).entities()[row.0 as int] == e);
        assert forall|c: int| 0 <= c < now.len() implies (#[trigger] now[c]).meta().index.0 == c
            && now[c].meta().wf() by {
            assert(now[c].meta() == old_columns[c].meta());
        }
        assert forall|c: int, x: int| 0 <= c < x < now.len() implies (#[trigger] now[c]).meta().type_id
            != (#[trigger] now[x]).meta().type_id by {
            assert(now[c].meta() == old_columns[c].meta());
            assert(now[x].meta() == old_columns[x].meta());
        }
        assert forall|a: int| 0 <= a < self.archetypes().len() implies {
            &&& (#[trigger] self.archetypes()[a]).wf()
            &&& self.table(a).ar_index().0 == a
            &&& self.table(a).backed_by(self.columns())
            &&& self.table(a).marked()
        } by {
            assert(before.archetypes()[a].wf());
            assert(before.table(a).backed_by(old_columns));
            assert(before.table(a).marked());
            assert forall|k: int| 0 <= k < self.table(a).columns().len() implies {
                &&& (#[trigger] self.table(a).columns()[k]).index.0 < now.len()
                &&& now[self.table(a).columns()[k].index.0 as int].meta() == self.table(a).columns()[k]
                &&& now[self.table(a).columns()[k].index.0 as int].has_slot(self.table(a).ar_index())
            } by {
                let c = self.table(a).columns()[k].index.0 as int;
                assert(before.table(a).columns()[k].index.0 == c);
                assert(now[c].meta() == old_columns[c].meta());
                assert(old_columns[c].has_slot(before.table(a).ar_index()));
            }
            if a == d {
                let t = self.table(a);
                let t0 = before.table(a);
                assert forall|r: Row| r.0 < t.entities().len() implies (t.removes().contains(r) <==> (
                #[trigger] t.entities()[r.0 as int]).is_null()) by {
                    if r.0 < t0.entities().len() {
                        assert(t.entities()[r.0 as int] == t0.entities()[r.0 as int]);
                    } else {
                        if t0.removes().contains(r) {
                            let i = choose|i: int| 0 <= i < t0.removes().len() && t0.removes()[i] == r;
                            assert(t0.removes()[i].0 < t0.entities().len());
                        }
                    }
                }
            }
        }
        assert forall|x: int, y: int| 0 <= x < y < self.archetypes().len() implies (
        #[trigger] self.table(x)).columns() != (#[trigger] self.table(y)).columns() by {
            assert(before.table(x).columns() != before.table(y).columns());
        }
        assert forall|s: int| 0 <= s < self.slots().len() && (#[trigger] self.slots()[s]).live implies {
            let addr = self.slots()[s];
            &&& 0 <= addr.index.0 < self.archetypes().len()
            &&& addr.row.0 < self.table(addr.index.0 as int).entities().len()
            &&& self.table(addr.index.0 as int).entities()[addr.row.0 as int] == Entity {
                generation: addr.generation,
                slot: s as u32,
            }
        } by {
            if s != e.slot {
                assert(before.slots()[s].live);
                let addr = before.slots()[s];
                if addr.index.0 == src && addr.row == row {
                    assert(before.table(src).entities()[row.0 as int] == e);
                }
            }
        }
        assert forall|a: int, r: int|
            0 <= a < self.archetypes().len() && 0 <= r < self.table(a).entities().len() && !(
            #[trigger] self.table(a).entities()[r]).is_null() implies {
            let x = self.table(a).entities()[r];
            self.located(x) == Some((ArchetypeWorldIndex(a as i32), Row(r as u32)))
        } by {
            let x = self.table(a).entities()[r];
            if a == d && r == new_row.0 {
            } else {
                assert(before.table(a).entities()[r] == x);
                assert(before.located(x) == Some((ArchetypeWorldIndex(a as i32), Row(r as u32))));
            }
        }
        assert forall|i: int| 0 <= i < self.free().len() implies (#[trigger] self.free()[i])
            < self.slots().len() && !self.slots()[self.free()[i] as int].live by {
            assert(before.free()[i] < before.slots().len());
            assert(!before.slots()[before.free()[i] as int].live);
        }
    }

    /// Whether every table has room for one more row, and a value of every
    /// component type fits a blob.
    pub open spec fn roomy(&self) -> bool {
        &&& forall|a: int| 0 <= a < self.archetypes().len() ==> (#[trigger] self.table(a)).has_room()
        &&& forall|c: int|
            0 <= c < self.columns().len() ==> (#[trigger] self.columns()[c]).size() <= MAX_BLOB_BYTES
    }

    /// What a structural change of `e` leaves: the entity is in the
    /// archetype of the component set that the operations make of its own;
    /// it has the components it keeps as they were, and the components it
    /// gains with the default value of their type; every other entity is
    /// where it was, with the components it had. Where the component set
    /// does not change, nothing does.
    pub open spec fn altered(&self, after: &World, e: Entity, ops: Seq<(ComponentIndex, bool)>) -> bool {
        let src = self.located(e).unwrap().0;
        let columns = self.table(src.0 as int).columns();
        let dst = after.located(e).unwrap().0;
        &&& after.wf()
        &&& after.listeners() == self.listeners()
        &&& store_extends(self.columns(), after.columns())
        &&& self.located(e).is_some()
        &&& after.located(e).is_some()
        &&& 0 <= dst.0 < after.archetypes().len()
        &&& after.archetypes().len() >= self.archetypes().len()
        &&& forall|b: int|
            0 <= b < self.archetypes().len() ==> (#[trigger] after.table(b)).columns()
                == self.table(b).columns()
        &&& forall|c: ComponentIndex| #[trigger]
            has_component(after.table(dst.0 as int).columns(), c) <==> plan_result(columns, ops, c)
        &&& forall|other: Entity|
            other != e ==> #[trigger] after.located(other) == self.located(other) && after.placed_at(
                other,
            ) == self.placed_at(other)
        &&& after.placed_at(e) == if dst == src {
            self.placed_at(e)
        } else {
            self.spec_tick()
        }
        &&& forall|c: ComponentIndex|
            plan_moving(columns, ops, true, c) ==> #[trigger] after.component(e, c) == self.component(
                e,
                c,
            )
        &&& forall|c: ComponentIndex|
            plan_adding(columns, ops, true, c) ==> #[trigger] after.component(e, c) == Ok::<
                Seq<u8>,
                QueryError,
            >(self.columns()[c.0 as int].meta().default_bytes())
        &&& forall|other: Entity, c: ComponentIndex|
            other != e ==> #[trigger] after.component(other, c) == self.component(other, c)
        &&& forall|c: ComponentIndex|
            plan_moving(columns, ops, true, c) ==> #[trigger] after.tick_of(e, c) == self.tick_of(e, c)
        &&& forall|other: Entity, c: ComponentIndex|
            other != e ==> #[trigger] after.tick_of(other, c) == self.tick_of(other, c)
        &&& forall|c: ComponentIndex, x: ArchetypeWorldIndex|
            c.0 < self.columns().len() ==> #[trigger] after.columns()[c.0 as int].released(x) == if x
                == src && plan_removing(columns, ops, c) && self.columns()[c.0 as int].meta().needs_drop {
                self.columns()[c.0 as int].released(x).push(
                    self.columns()[c.0 as int].cell(src, self.located(e).unwrap().1),
                )
            } else {
                self.columns()[c.0 as int].released(x)
            }
        &&& dst == src ==> after.columns() == self.columns() && after.archetypes() == self.archetypes()
            && after.slots() == self.slots() && after.free() == self.free()
    }

    /// Changes the component set of an entity. The operations, sorted by
    /// component index, each add (`true`) or remove (`false`) a component
    /// type; of several on one type the first counts, and an added type
    /// that the entity has stays as it is. The entity moves to the
    /// archetype of its new component set, which is created where the world
    /// has none: see `altered`. Returns the archetype and the row of the
    /// entity. An entity that is not in the world gives `NoSuchEntity`, and
    /// nothing changes. A type that is added to an entity that lacks it
    /// must be registered.
    #[verifier::rlimit(60)]
    pub fn alter(&mut self, e: Entity, sorted_add_removes: &[(ComponentIndex, bool)]) -> (r: Result<
        (ArchetypeWorldIndex, Row),
        QueryError,
    >)
        requires
            old(self).wf(),
            old(self).roomy(),
            old(self).archetypes().len() < i32::MAX,
            sorted_ops(sorted_add_removes@),
            forall|u: int|
                #[trigger] effective(sorted_add_removes@, u) && sorted_add_removes@[u].1 && old(self).located(e).is_some() && !has_component(
                    old(self).table(old(self).located(e).unwrap().0.0 as int).columns(),
                    sorted_add_removes@[u].0,
                ) ==> sorted_add_removes@[u].0.0 < old(self).columns().len(),
        ensures
            final(self).spec_tick() == old(self).spec_tick(),
            match r {
                Ok(addr) => old(self).altered(final(self), e, sorted_add_removes@) && final(self).located(e) == Some(addr),
                Err(err) => {
                    &&& err == QueryError::NoSuchEntity
                    &&& old(self).located(e).is_none()
                    &&& final(self).columns() == old(self).columns()
                    &&& final(self).archetypes() == old(self).archetypes()
                    &&& final(self).slots() == old(self).slots()
                    &&& final(self).free() == old(self).free()
                    &&& final(self).listeners() == old(self).listeners()
                },
            },
    {
        let addr = match self.lookup(e) {
            Ok(addr) => addr,
            Err(err) => {
                return Err(err);
            },
        };
        let src = addr.0;
        let ghost ops = sorted_add_removes@;
        let ghost columns = old(self).table(src.0 as int).columns();
        proof {
            assert(old(self).slots()[e.slot as int].live);
            assert(old(self).archetypes()[src.0 as int].wf());
            assert(old(self).table(src.0 as int).backed_by(old(self).columns()));
        }
        let mut adding: Vec<Share<ComponentInfo>> = Vec::new();
        let mut moving: Vec<Share<ComponentInfo>> = Vec::new();
        let mut removing: Vec<Share<ComponentInfo>> = Vec::new();
        let info = self.archetypes[src.index()].alter1(
            &*self,
            sorted_add_removes,
            &mut adding,
            &mut moving,
            &mut removing,
            true,
        );
        let ghost g_add = infos_of(adding@);
        let ghost g_mov = infos_of(moving@);
        let ghost g_rem = infos_of(removing@);
        let ghost g_res = info.components();
        proof {
            assert(adding@.skip(0) =~= adding@);
            assert(moving@.skip(0) =~= moving@);
            assert(removing@.skip(0) =~= removing@);
            assert forall|k: int| 0 <= k < g_res.len() implies (#[trigger] g_res[k]).index.0 < old(self).columns().len() && old(self).columns()[g_res[k].index.0 as int].meta() == g_res[k] by {
                assert(comes_from(g_res[k], columns, old(self).columns()));
            }
        }
        let dst = self.find_archetype(info);
        if dst.0 == src.0 {
            proof {
                lemma_plan_same(columns, ops, g_add, g_mov, g_rem, g_res, old(self).columns());
                assert forall|c: ComponentIndex, x: ArchetypeWorldIndex|
                    c.0 < old(self).columns().len() implies #[trigger] self.columns()[c.0 as int].released(
                    x,
                ) == old(self).columns()[c.0 as int].released(x) by {}
                assert forall|c: ComponentIndex|
                    plan_adding(columns, ops, true, c) implies #[trigger] self.component(e, c) == Ok::<
                    Seq<u8>,
                    QueryError,
                >(old(self).columns()[c.0 as int].meta().default_bytes()) by {
                    assert(plan_result(columns, ops, c));
                    assert(has_component(columns, c));
                }
            }
            return Ok(addr);
        }
        let ghost w1 = *self;
        proof {
            lemma_plan_lists(columns, ops, g_add, g_mov, g_rem, g_res, old(self).columns());
            assert(w1.table(src.0 as int) == old(self).table(src.0 as int));
            assert(w1.table(dst.0 as int).has_room()) by {
                if dst.0 < old(self).archetypes().len() {
                    assert(w1.archetypes()[dst.0 as int] == old(self).archetypes()[dst.0 as int]);
                } else {
                    let t = w1.table(dst.0 as int);
                    assert(w1.archetypes()[dst.0 as int].wf());
                    assert(t.backed_by(w1.columns()));
                    assert forall|k: int| 0 <= k < t.columns().len() implies crate::column::len_fits(
                        (t.entities().len() + 1) as usize,
                        (#[trigger] t.columns()[k]).size(),
                    ) by {
                        let c = t.columns()[k].index.0 as int;
                        assert(w1.columns()[c].meta() == t.columns()[k]);
                        assert(w1.columns()[c].meta() == old(self).columns()[c].meta());
                        assert(old(self).columns()[c].size() <= MAX_BLOB_BYTES);
                        assert(1 * t.columns()[k].size() == t.columns()[k].size());
                    }
                }
            }
            assert(w1.move_plan(src.0 as int, dst.0 as int, g_add, g_mov, g_rem)) by {
                let t_src = w1.table(src.0 as int);
                let t_dst = w1.table(dst.0 as int);
                assert forall|c: int| #[trigger] t_dst.is_column(c) implies in_list(g_mov, c)
                    || in_list(g_add, c) by {
                    let k = choose|k: int|
                        0 <= k < t_dst.columns().len() && (#[trigger] t_dst.columns()[k]).index.0 == c;
                    let ci = t_dst.columns()[k].index;
                    assert(g_res[k].index == ci);
                }
            }
        }
        let new_row = self.move_entity(e, dst, &adding, &moving, &removing);
        proof {
            self.lemma_altered(old(self), &w1, e, ops, dst, new_row, g_add, g_mov, g_rem);
        }
        Ok((dst, new_row))
    }

    /// A move along the lists of a plan is the structural change that the
    /// plan describes.
    proof fn lemma_altered(
        &self,
        before: &World,
        mid: &World,
        e: Entity,
        ops: Seq<(ComponentIndex, bool)>,
        dst: ArchetypeWorldIndex,
        new_row: Row,
        adding: Seq<ComponentInfo>,
        moving: Seq<ComponentInfo>,
        removing: Seq<ComponentInfo>,
    )
        requires
            before.wf(),
            mid.wf(),
            before.located(e).is_some(),
            mid.slots() == before.slots(),
            mid.free() == before.free(),
            mid.listeners() == before.listeners(),
            mid.spec_tick() == before.spec_tick(),
            before.same_store(mid),
            mid.archetypes().len() >= before.archetypes().len(),
            forall|a: int|
                0 <= a < before.archetypes().len() ==> #[trigger] mid.archetypes()[a]
                    == before.archetypes()[a],
            0 <= dst.0 < mid.archetypes().len(),
            dst != before.located(e).unwrap().0,
            new_row.0 == mid.table(dst.0 as int).entities().len(),
            mid.moved(self, e, dst, adding, moving, removing),
            ({
                let columns = before.table(before.located(e).unwrap().0.0 as int).columns();
                &&& forall|c: ComponentIndex| #[trigger]
                    has_component(mid.table(dst.0 as int).columns(), c) <==> plan_result(columns, ops, c)
                &&& forall|c: ComponentIndex| #[trigger]
                    plan_moving(columns, ops, true, c) ==> in_list(moving, c.0 as int)
                &&& forall|c: ComponentIndex| #[trigger]
                    plan_adding(columns, ops, true, c) ==> in_list(adding, c.0 as int)
                &&& forall|c: ComponentIndex| #[trigger]
                    plan_removing(columns, ops, c) <==> in_list(removing, c.0 as int)
            }),
        ensures
            before.altered(self, e, ops),
    {
        let src = before.located(e).unwrap().0;
        let row = before.located(e).unwrap().1;
        let columns = before.table(src.0 as int).columns();
        assert(before.slots()[e.slot as int].live);
        assert(mid.located(e) == before.located(e));
        assert(before.archetypes()[src.0 as int].wf());
        assert(before.table(src.0 as int).backed_by(before.columns()));
        assert(mid.archetypes()[dst.0 as int].wf());
        assert(mid.table(dst.0 as int).backed_by(mid.columns()));
        assert forall|b: int| 0 <= b < before.archetypes().len() implies (#[trigger] self.table(
            b,
        )).columns() == before.table(b).columns() by {
            assert(mid.archetypes()[b] == before.archetypes()[b]);
            assert(self.table(b).columns() == mid.table(b).columns());
        }
        assert forall|other: Entity| other != e implies #[trigger] self.located(other)
            == before.located(other) && self.placed_at(other) == before.placed_at(other) by {
            assert(self.located(other) == mid.located(other));
            assert(self.placed_at(other) == mid.placed_at(other));
            assert(mid.placed_at(other) == before.placed_at(other));
        }
        assert(mid.spec_tick() == before.spec_tick());
        assert forall|c: ComponentIndex| #[trigger]
            has_component(self.table(dst.0 as int).columns(), c) <==> plan_result(columns, ops, c) by {
            assert(self.table(dst.0 as int).columns() == mid.table(dst.0 as int).columns());
        }
        assert forall|c: ComponentIndex| plan_moving(columns, ops, true, c) implies #[trigger]
            self.component(e, c) == before.component(e, c) by {
            assert(in_list(moving, c.0 as int));
            assert(plan_result(columns, ops, c));
            assert(has_component(mid.table(dst.0 as int).columns(), c));
            assert(has_component(columns, c));
            let k = choose|k: int| 0 <= k < columns.len() && (#[trigger] columns[k]).index == c;
            assert(c.0 < before.columns().len());
            assert(slot_same(before.columns()[c.0 as int], mid.columns()[c.0 as int], src));
        }
        assert forall|c: ComponentIndex| plan_adding(columns, ops, true, c) implies #[trigger]
            self.component(e, c) == Ok::<Seq<u8>, QueryError>(
            before.columns()[c.0 as int].meta().default_bytes(),
        ) by {
            assert(in_list(adding, c.0 as int));
            assert(plan_result(columns, ops, c));
            assert(has_component(mid.table(dst.0 as int).columns(), c));
            let k = choose|k: int|
                0 <= k < mid.table(dst.0 as int).columns().len() && (#[trigger] mid.table(
                    dst.0 as int,
                ).columns()[k]).index == c;
            assert(c.0 < mid.columns().len());
            assert(mid.columns()[c.0 as int].meta() == before.columns()[c.0 as int].meta());
        }
        assert forall|c: ComponentIndex| plan_moving(columns, ops, true, c) implies #[trigger]
            self.tick_of(e, c) == before.tick_of(e, c) by {
            assert(in_list(moving, c.0 as int));
            assert(plan_result(columns, ops, c));
            assert(has_component(mid.table(dst.0 as int).columns(), c));
            assert(has_component(columns, c));
            let k = choose|k: int| 0 <= k < columns.len() && (#[trigger] columns[k]).index == c;
            assert(c.0 < before.columns().len());
            assert(slot_same(before.columns()[c.0 as int], mid.columns()[c.0 as int], src));
        }
        assert forall|other: Entity, c: ComponentIndex| other != e implies #[trigger] self.tick_of(
            other,
            c,
        ) == before.tick_of(other, c) by {
            assert(self.located(other) == mid.located(other));
            if before.located(other).is_some() {
                let addr = before.located(other).unwrap();
                let b = addr.0.0 as int;
                assert(before.slots()[other.slot as int].live);
                assert(mid.archetypes()[b] == before.archetypes()[b]);
                assert(self.table(b).columns() == mid.table(b).columns());
                assert(before.archetypes()[b].wf());
                assert(before.table(b).backed_by(before.columns()));
                if has_component(before.table(b).columns(), c) {
                    let k = choose|k: int|
                        0 <= k < before.table(b).columns().len() && (
                        #[trigger] before.table(b).columns()[k]).index == c;
                    assert(c.0 < before.columns().len());
                    assert(slot_same(before.columns()[c.0 as int], mid.columns()[c.0 as int], addr.0));
                    assert(!(addr.0 == dst && addr.1 == new_row)) by {
                        if addr.0 == dst {
                            assert(addr.1.0 < before.table(b).entities().len());
                        }
                    }
                }
            }
        }
        assert forall|c: ComponentIndex, x: ArchetypeWorldIndex|
            c.0 < before.columns().len() implies #[trigger] self.columns()[c.0 as int].released(x)
            == if x == src && plan_removing(columns, ops, c) && before.columns()[c.0 as int].meta().needs_drop {
            before.columns()[c.0 as int].released(x).push(before.columns()[c.0 as int].cell(src, row))
        } else {
            before.columns()[c.0 as int].released(x)
        } by {
            assert(slot_same(before.columns()[c.0 as int], mid.columns()[c.0 as int], x));
            assert(slot_same(before.columns()[c.0 as int], mid.columns()[c.0 as int], src));
            assert(mid.columns()[c.0 as int].meta() == before.columns()[c.0 as int].meta());
        }
        assert forall|other: Entity, c: ComponentIndex| other != e implies #[trigger] self.component(
            other,
            c,
        ) == before.component(other, c) by {
            assert(self.located(other) == mid.located(other));
            if before.located(other).is_some() {
                let addr = before.located(other).unwrap();
                let b = addr.0.0 as int;
                assert(before.slots()[other.slot as int].live);
                assert(mid.archetypes()[b] == before.archetypes()[b]);
                assert(self.table(b).columns() == mid.table(b).columns());
                assert(before.archetypes()[b].wf());
                assert(before.table(b).backed_by(before.columns()));
                if has_component(before.table(b).columns(), c) {
                    let k = choose|k: int|
                        0 <= k < before.table(b).columns().len() && (
                        #[trigger] before.table(b).columns()[k]).index == c;
                    assert(c.0 < before.columns().len());
                    assert(slot_same(before.columns()[c.0 as int], mid.columns()[c.0 as int], addr.0));
                    assert(!(addr.0 == dst && addr.1 == new_row)) by {
                        if addr.0 == dst {
                            assert(addr.1.0 < before.table(b).entities().len());
                        }
                    }
                }
            }
        }
    }

    /// An entity that is in the world stands in the row that the registry
    /// records for it, and in no other row of any table.
    pub proof fn lemma_located(&self, e: Entity)
        requires
            self.wf(),
            self.located(e).is_some(),
        ensures
            !e.is_null(),
            0 <= self.located(e).unwrap().0.0 < self.archetypes().len(),
            self.located(e).unwrap().1.0 < self.table(
                self.located(e).unwrap().0.0 as int,
            ).entities().len(),
            self.table(self.located(e).unwrap().0.0 as int).entities()[self.located(
                e,
            ).unwrap().1.0 as int] == e,
            forall|a: int, r: int|
                0 <= a < self.archetypes().len() && 0 <= r < self.table(a).entities().len()
                    && #[trigger] self.table(a).entities()[r] == e ==> self.located(e) == Some(
                    (ArchetypeWorldIndex(a as i32), Row(r as u32)),
                ),
    {
        assert(self.slots()[e.slot as int].live);
    }

    /// The entity of a row is null, or an entity that is in the world at
    /// that row.
    pub proof fn lemma_row(&self, a: int, r: int)
        requires
            self.wf(),
            0 <= a < self.archetypes().len(),
            0 <= r < self.table(a).entities().len(),
        ensures
            self.table(a).entities()[r].is_null() || self.located(self.table(a).entities()[r]) == Some(
                (ArchetypeWorldIndex(a as i32), Row(r as u32)),
            ),
    {
    }

    /// The columns of every archetype ascend strictly by component index,
    /// its membership bits agree with them, and its id is the XOR of the
    /// ids of its component types.
    pub proof fn lemma_archetype(&self, a: int)
        requires
            self.wf(),
            0 <= a < self.archetypes().len(),
        ensures
            sorted_infos(self.table(a).columns()),
            self.table(a).bits_match(),
            self.archetypes()[a].spec_id() == xor_ids(type_ids(self.table(a).columns())),
            forall|b: int|
                0 <= b < self.archetypes().len() && b != a ==> (#[trigger] self.table(b)).columns()
                    != self.table(a).columns(),
    {
        assert(self.archetypes()[a].wf());
        assert forall|b: int| 0 <= b < self.archetypes().len() && b != a implies (#[trigger] self.table(
            b,
        )).columns() != self.table(a).columns() by {
            if b < a {
                assert(self.table(b).columns() != self.table(a).columns());
            } else {
                assert(self.table(a).columns() != self.table(b).columns());
            }
        }
    }

    /// What is inserted is what is read: after an insertion the entity has
    /// each component with the bytes that were given for it.
    pub proof fn lemma_insert_get(
        &self,
        after: &World,
        index: ArchetypeWorldIndex,
        values: Seq<Seq<u8>>,
        e: Entity,
        k: int,
    )
        requires
            self.wf(),
            0 <= index.0 < self.archetypes().len(),
            values.len() == self.table(index.0 as int).columns().len(),
            self.inserted(after, index, values, e),
            0 <= k < values.len(),
        ensures
            after.component(e, self.table(index.0 as int).columns()[k].index) == Ok::<
                Seq<u8>,
                QueryError,
            >(values[k]),
    {
        let c = self.table(index.0 as int).columns()[k].index;
        assert(after.table(index.0 as int).columns()[k].index == c);
    }

    /// Adding and removing one component type at once, the addition first,
    /// leaves every component that the entity has as it is, and leaves the
    /// entity with the components it had and the added one.
    pub proof fn lemma_alter_add_remove(&self, after: &World, e: Entity, c: ComponentIndex)
        requires
            self.wf(),
            self.located(e).is_some(),
            self.altered(after, e, seq![(c, true), (c, false)]),
        ensures
            forall|d: ComponentIndex|
                has_component(self.table(self.located(e).unwrap().0.0 as int).columns(), d)
                    ==> #[trigger] after.component(e, d) == self.component(e, d),
            forall|d: ComponentIndex| #[trigger]
                has_component(after.table(after.located(e).unwrap().0.0 as int).columns(), d)
                    <==> has_component(self.table(self.located(e).unwrap().0.0 as int).columns(), d)
                    || d == c,
    {
        let ops = seq![(c, true), (c, false)];
        let columns = self.table(self.located(e).unwrap().0.0 as int).columns();
        assert(effective(ops, 0) && ops[0].0 == c && ops[0].1);
        assert(op_adds(ops, c));
        assert forall|d: ComponentIndex| !op_removes(ops, d) by {
            if op_removes(ops, d) {
                let u = choose|u: int| #[trigger] effective(ops, u) && ops[u].0 == d && !ops[u].1;
                assert(u == 1);
            }
        }
        assert forall|d: ComponentIndex| op_adds(ops, d) <==> d == c by {
            if op_adds(ops, d) {
                let u = choose|u: int| #[trigger] effective(ops, u) && ops[u].0 == d && ops[u].1;
            }
        }
        assert forall|d: ComponentIndex| has_component(columns, d) implies #[trigger] after.component(
            e,
            d,
        ) == self.component(e, d) by {
            assert(plan_moving(columns, ops, true, d));
        }
        assert forall|d: ComponentIndex| #[trigger]
            has_component(after.table(after.located(e).unwrap().0.0 as int).columns(), d)
                <==> has_component(columns, d) || d == c by {
            assert(plan_result(columns, ops, d) <==> has_component(columns, d) || d == c);
        }
    }

    /// An entity that was destroyed is not in the world, and compaction
    /// does not bring it back.
    pub proof fn lemma_destroy_settle(&self, destroyed: &World, settled: &World, e: Entity)
        requires
            self.destroyed(destroyed, e),
            destroyed.settled(settled),
        ensures
            settled.located(e).is_none(),
    {
        assert(settled.located(e).is_some() == destroyed.located(e).is_some());
    }

    /// Compaction of a compacted world changes nothing.
    pub proof fn lemma_settle_twice(&self, once: &World, twice: &World)
        requires
            self.settled(once),
            once.settled(twice),
        ensures
            twice.columns() == once.columns(),
            twice.slots() == once.slots(),
            twice.free() == once.free(),
            forall|a: int|
                0 <= a < once.archetypes().len() ==> (#[trigger] twice.table(a)).entities()
                    == once.table(a).entities() && twice.table(a).removes() =~= once.table(a).removes(),
    {
        assert forall|a: int| 0 <= a < once.archetypes().len() implies (#[trigger] once.table(
            a,
        )).removes().len() == 0 by {}
    }

    /// Adding a component type that the entity lacks, and removing it at
    /// once, the addition first, takes the entity to an archetype whose id
    /// is the id of its own XOR the id of the type: another id, unless the
    /// id of the type is zero.
    pub proof fn lemma_alter_add_absent(&self, after: &World, e: Entity, c: ComponentIndex)
        requires
            self.wf(),
            self.located(e).is_some(),
            c.0 < self.columns().len(),
            !has_component(self.table(self.located(e).unwrap().0.0 as int).columns(), c),
            self.altered(after, e, seq![(c, true), (c, false)]),
        ensures
            after.archetypes()[after.located(e).unwrap().0.0 as int].spec_id()
                == self.archetypes()[self.located(e).unwrap().0.0 as int].spec_id()
                ^ self.columns()[c.0 as int].meta().type_id,
            after.archetypes()[after.located(e).unwrap().0.0 as int].spec_id()
                != self.archetypes()[self.located(e).unwrap().0.0 as int].spec_id()
                <==> self.columns()[c.0 as int].meta().type_id != 0,
    {
        let a = self.located(e).unwrap().0.0 as int;
        let b = after.located(e).unwrap().0.0 as int;
        let src = self.table(a).columns();
        let dst = after.table(b).columns();
        let x = self.columns()[c.0 as int].meta();
        self.lemma_alter_add_remove(after, e, c);
        assert(self.slots()[e.slot as int].live);
        assert(self.archetypes()[a].wf());
        assert(after.archetypes()[b].wf());
        assert(self.table(a).backed_by(self.columns()));
        assert(after.table(b).backed_by(after.columns()));
        assert(x.index == c);
        assert forall|k: int| 0 <= k < dst.len() && (#[trigger] dst[k]).index == x.index implies dst[k]
            == x by {
            assert(after.columns()[c.0 as int].meta() == dst[k]);
        }
        assert(agree(dst, src)) by {
            assert forall|k: int, t: int|
                0 <= k < dst.len() && 0 <= t < src.len() && (#[trigger] dst[k]).index == (
                #[trigger] src[t]).index implies dst[k] == src[t] by {
                let i = src[t].index.0 as int;
                assert(self.columns()[i].meta() == src[t]);
                assert(after.columns()[i].meta() == dst[k]);
            }
        }
        lemma_sorted_insert(src, dst, x);
        let i = choose|i: int| 0 <= i <= src.len() && dst == #[trigger] src.insert(i, x);
        assert(type_ids(dst) =~= type_ids(src).insert(i, x.type_id));
        lemma_xor_insert(type_ids(src), i, x.type_id);
        let before = xor_ids(type_ids(src));
        let id = x.type_id;
        assert((before ^ id != before) <==> id != 0) by (bit_vector);
    }

    /// No archetype is without the slots of a registered listener whose
    /// query accepts it, and none holds a slot of a listener whose query
    /// rejects it: each listener slot belongs to a registered listener
    /// whose query does not reject the archetype, and stands at a column
    /// whose component that listener listens on; and where such a listener
    /// listens on a component of the archetype, the archetype holds a slot
    /// of it.
    pub proof fn lemma_listener_slots(&self, a: int)
        requires
            self.wf(),
            0 <= a < self.archetypes().len(),
        ensures
            forall|i: int|
                0 <= i < self.archetypes()[a].spec_records().len() ==> {
                    let record = #[trigger] self.archetypes()[a].spec_records()[i];
                    &&& record.key < self.listeners().len()
                    &&& self.listeners()[record.key as int].wanted(self.table(a).columns())
                    &&& record_of(
                        record,
                        self.table(a).columns(),
                        record.key,
                        self.listeners()[record.key as int].listened@,
                    )
                },
            forall|key: int|
                0 <= key < self.listeners().len() && self.listeners()[key].wanted(
                    self.table(a).columns(),
                ) && #[trigger] listens_on(self.table(a).columns(), self.listeners()[key].listened@)
                    ==> exists|i: int|
                    0 <= i < self.archetypes()[a].spec_records().len() && (
                    #[trigger] self.archetypes()[a].spec_records()[i]).key == key,
    {
        self.lemma_listeners_len();
        assert(self.archetypes()[a].wf());
        lemma_all_records(self.table(a).columns(), self.listeners(), self.listeners().len());
    }

    /// Releases what the world still holds, as it is given up: of every
    /// column whose type has a destructor, the value of every row of every
    /// archetype that holds an entity joins the released values of that
    /// archetype, in ascending order of the rows. Nothing else changes.
    pub fn release_all(&mut self)
        requires
            old(self).wf(),
        ensures
            final(self).wf(),
            final(self).archetypes() == old(self).archetypes(),
            final(self).slots() == old(self).slots(),
            final(self).free() == old(self).free(),
            final(self).listeners() == old(self).listeners(),
            final(self).spec_tick() == old(self).spec_tick(),
            store_extends(old(self).columns(), final(self).columns()),
            forall|c: int, x: ArchetypeWorldIndex, r: Row|
                0 <= c < old(self).columns().len() ==> #[trigger] final(self).columns()[c].cell(x, r)
                    == old(self).columns()[c].cell(x, r),
            forall|c: int, x: ArchetypeWorldIndex|
                0 <= c < old(self).columns().len() ==> #[trigger] final(self).columns()[c].released(x)
                    == if 0 <= x.0 < old(self).archetypes().len() && old(self).table(
                    x.0 as int,
                ).is_column(c) && old(self).columns()[c].meta().needs_drop {
                    old(self).columns()[c].released(x) + live_values(
                        old(self).columns()[c],
                        x,
                        old(self).table(x.0 as int).entities(),
                        old(self).table(x.0 as int).entities().len(),
                    )
                } else {
                    old(self).columns()[c].released(x)
                },
    {
        let n = self.archetypes.len();
        let mut a: usize = 0;
        while a < n
            invariant
                a <= n,
                n == old(self).archetypes().len(),
                old(self).wf(),
                self.wf(),
                self.archetypes() == old(self).archetypes(),
                self.slots() == old(self).slots(),
                self.free() == old(self).free(),
                self.listeners() == old(self).listeners(),
                self.tick == old(self).tick,
                store_extends(old(self).columns(), self.columns()),
                forall|c: int, x: ArchetypeWorldIndex, r: Row|
                    0 <= c < old(self).columns().len() ==> #[trigger] self.columns()[c].cell(x, r)
                        == old(self).columns()[c].cell(x, r),
                forall|c: int, x: ArchetypeWorldIndex|
                    0 <= c < old(self).columns().len() ==> #[trigger] self.columns()[c].released(x)
                        == if 0 <= x.0 < a && old(self).table(x.0 as int).is_column(c) && old(self).columns()[c].meta().needs_drop {
                        old(self).columns()[c].released(x) + live_values(
                            old(self).columns()[c],
                            x,
                            old(self).table(x.0 as int).entities(),
                            old(self).table(x.0 as int).entities().len(),
                        )
                    } else {
                        old(self).columns()[c].released(x)
                    },
            decreases n - a,
        {
            let ghost before = *self;
            proof {
                assert(self.archetypes()[a as int].wf());
            }
            self.archetypes[a].table().release_rows(&mut self.columns);
            proof {
                self.lemma_records_kept(&before);
                self.lemma_store_changed(&before);
                let t = self.table(a as int);
                let index = t.ar_index();
                let first = old(self).columns();
                let mid = before.columns();
                let now = self.columns();
                assert(t.store_frame(mid, now));
                assert(t.backed_by(mid));
                assert(store_extends(first, now)) by {
                    assert forall|c: int| 0 <= c < now.len() implies (#[trigger] now[c]).meta()
                        == first[c].meta() && now[c].slots().len() >= first[c].slots().len() by {
                        assert(mid[c].meta() == first[c].meta());
                    }
                }
                assert forall|c: int, x: ArchetypeWorldIndex, r: Row| 0 <= c < first.len() implies #[trigger]
                    now[c].cell(x, r) == first[c].cell(x, r) by {
                    assert(mid[c].cell(x, r) == first[c].cell(x, r));
                    if x == index && t.is_column(c) {
                        let k = choose|k: int|
                            0 <= k < t.columns().len() && (#[trigger] t.columns()[k]).index.0 == c;
                    } else {
                        assert(slot_same(mid[c], now[c], x));
                    }
                }
                assert forall|c: int, x: ArchetypeWorldIndex| 0 <= c < first.len() implies #[trigger]
                    now[c].released(x) == if 0 <= x.0 < a + 1 && old(self).table(x.0 as int).is_column(c)
                    && first[c].meta().needs_drop {
                    first[c].released(x) + live_values(
                        first[c],
                        x,
                        old(self).table(x.0 as int).entities(),
                        old(self).table(x.0 as int).entities().len(),
                    )
                } else {
                    first[c].released(x)
                } by {
                    if x == index && t.is_column(c) {
                        let k = choose|k: int|
                            0 <= k < t.columns().len() && (#[trigger] t.columns()[k]).index.0 == c;
                        assert(mid[c].meta() == t.columns()[k]);
                        assert(mid[c].meta() == first[c].meta());
                        assert(mid[c].released(x) == first[c].released(x));
                        lemma_live_values_same(
                            mid[c],
                            first[c],
                            x,
                            t.entities(),
                            t.entities().len(),
                        );
                    } else {
                        assert(slot_same(mid[c], now[c], x));
                    }
                }
            }
            a += 1;
        }
    }
}

/// The row that the content of `row` stands in after the first `k` moves.
pub open spec fn target_of(moves: Seq<(Row, Row)>, k: nat, row: Row) -> Row
    decreases k,
{
    if k == 0 || k > moves.len() {
        row
    } else if moves[k - 1].0 == row {
        moves[k - 1].1
    } else {
        target_of(moves, (k - 1) as nat, row)
    }
}

/// Where no row is emptied twice, a row that a move empties ends in the
/// row that the move fills, every other row where it is.
proof fn lemma_target_of(moves: Seq<(Row, Row)>, k: nat, row: Row)
    requires
        k <= moves.len(),
        forall|i: int, j: int|
            0 <= i < j < moves.len() ==> (#[trigger] moves[i]).0 != (#[trigger] moves[j]).0,
    ensures
        (forall|j: int| 0 <= j < k ==> (#[trigger] moves[j]).0 != row) ==> target_of(moves, k, row)
            == row,
        forall|j: int| 0 <= j < k && (#[trigger] moves[j]).0 == row ==> target_of(moves, k, row)
            == moves[j].1,
    decreases k,
{
    if k > 0 {
        lemma_target_of(moves, (k - 1) as nat, row);
    }
}

/// In a compaction a row that a move empties ends in the row that the move
/// fills, every other row where it is.
proof fn lemma_target(
    removes: Seq<Row>,
    entity_len: int,
    new_len: int,
    moves: Seq<(Row, Row)>,
    k: nat,
    row: Row,
)
    requires
        is_compaction(removes, entity_len, new_len, moves),
        k <= moves.len(),
    ensures
        (forall|j: int| 0 <= j < k ==> (#[trigger] moves[j]).0 != row) ==> target_of(moves, k, row)
            == row,
        forall|j: int| 0 <= j < k && (#[trigger] moves[j]).0 == row ==> target_of(moves, k, row)
            == moves[j].1,
{
    assert forall|i: int, j: int| 0 <= i < j < moves.len() implies (#[trigger] moves[i]).0 != (
    #[trigger] moves[j]).0 by {
        assert(moves[i].0.0 > moves[j].0.0);
    }
    lemma_target_of(moves, k, row);
}

/// What the registry records of a slot while the entities that a
/// compaction of the archetype `a` moved are given their new rows: the
/// first `k` moves are recorded.
pub open spec fn remapped(addr: EntityAddr, a: int, moves: Seq<(Row, Row)>, k: nat) -> EntityAddr {
    if addr.live && addr.index.0 == a {
        EntityAddr { row: target_of(moves, k, addr.row), ..addr }
    } else {
        addr
    }
}

/// Whether two lists of component types have the same indices in the same
/// order.
fn same_indices(a: &Vec<Share<ComponentInfo>>, b: &Vec<Share<ComponentInfo>>) -> (r: bool)
    ensures
        r == (a@.len() == b@.len() && forall|k: int|
            0 <= k < a@.len() ==> (#[trigger] infos_of(a@)[k]).index == infos_of(b@)[k].index),
{
    if a.len() != b.len() {
        return false;
    }
    let mut k: usize = 0;
    while k < a.len()
        invariant
            k <= a@.len(),
            a@.len() == b@.len(),
            forall|j: int| 0 <= j < k ==> (#[trigger] infos_of(a@)[j]).index == infos_of(b@)[j].index,
        decreases a@.len() - k,
    {
        if a[k].index.0 != b[k].index.0 {
            assert(infos_of(a@)[k as int].index != infos_of(b@)[k as int].index);
            return false;
        }
        k += 1;
    }
    true
}

/// Columns that hold the same cells hold the same values for the rows
/// that hold an entity.
proof fn lemma_live_values_same(
    one: Column,
    other: Column,
    index: ArchetypeWorldIndex,
    entities: Seq<Entity>,
    n: nat,
)
    requires
        forall|r: Row| #[trigger] one.cell(index, r) == other.cell(index, r),
    ensures
        live_values(one, index, entities, n) == live_values(other, index, entities, n),
    decreases n,
{
    if n > 0 && n <= entities.len() {
        lemma_live_values_same(one, other, index, entities, (n - 1) as nat);
    }
}

/// The listener slots of the first listeners do not depend on a listener
/// that is registered after them.
pub proof fn lemma_all_records_prefix(
    columns: Seq<ComponentInfo>,
    listeners: Seq<Listener>,
    next: Listener,
    n: nat,
)
    requires
        n <= listeners.len(),
    ensures
        all_records(columns, listeners.push(next), n) == all_records(columns, listeners, n),
    decreases n,
{
    if n > 0 {
        lemma_all_records_prefix(columns, listeners, next, (n - 1) as nat);
        assert(listeners.push(next)[n - 1] == listeners[n - 1]);
    }
}

/// The listener slots of an archetype are those of the listeners whose
/// query does not reject it, each on the listened components that the
/// archetype has; and such a listener that listens on a component of the
/// archetype has a slot.
pub proof fn lemma_all_records(columns: Seq<ComponentInfo>, listeners: Seq<Listener>, n: nat)
    requires
        sorted_infos(columns),
        n <= listeners.len(),
        listeners.len() <= usize::MAX,
    ensures
        forall|i: int|
            0 <= i < all_records(columns, listeners, n).len() ==> {
                let record = #[trigger] all_records(columns, listeners, n)[i];
                &&& record.key < n
                &&& listeners[record.key as int].wanted(columns)
                &&& record_of(record, columns, record.key, listeners[record.key as int].listened@)
            },
        forall|key: int|
            0 <= key < n && listeners[key].wanted(columns) && #[trigger] listens_on(
                columns,
                listeners[key].listened@,
            ) ==> exists|i: int|
                0 <= i < all_records(columns, listeners, n).len() && (#[trigger] all_records(
                    columns,
                    listeners,
                    n,
                )[i]).key == key,
    decreases n,
{
    if n > 0 {
        lemma_all_records(columns, listeners, (n - 1) as nat);
        let last = listeners[n - 1].listened@;
        lemma_records_of(columns, (n - 1) as usize, last, last.len());
        let rest = all_records(columns, listeners, (n - 1) as nat);
        let more = records_for(columns, (n - 1) as usize, listeners[n - 1]);
        let all = all_records(columns, listeners, n);
        assert(all == rest + more);
        assert forall|i: int| 0 <= i < all.len() implies {
            let record = #[trigger] all[i];
            &&& record.key < n
            &&& listeners[record.key as int].wanted(columns)
            &&& record_of(record, columns, record.key, listeners[record.key as int].listened@)
        } by {
            if i < rest.len() {
                assert(all[i] == rest[i]);
            } else {
                assert(all[i] == more[i - rest.len()]);
                assert(record_of(more[i - rest.len()], columns, (n - 1) as usize, last));
            }
        }
        assert forall|key: int|
            0 <= key < n && listeners[key].wanted(columns) && #[trigger] listens_on(
                columns,
                listeners[key].listened@,
            ) implies exists|i: int| 0 <= i < all.len() && (#[trigger] all[i]).key == key by {
            if key < n - 1 {
                let i = choose|i: int| 0 <= i < rest.len() && (#[trigger] rest[i]).key == key;
                assert(all[i] == rest[i]);
            } else {
                assert(more.len() > 0);
                assert(record_of(more[0], columns, (n - 1) as usize, last));
                assert(all[rest.len() as int] == more[0]);
            }
        }
    }
}

/// The positions that a registered listener finds among the listener slots
/// of an archetype are those of its listened components that the archetype
/// has, in the order they are listened on; none where its query rejects
/// the archetype.
pub proof fn lemma_slots_all(columns: Seq<ComponentInfo>, listeners: Seq<Listener>, n: nat, key: usize)
    requires
        n <= listeners.len(),
        listeners.len() <= usize::MAX,
    ensures
        ({
            let records = all_records(columns, listeners, n);
            slots_with_key(records, key, records.len()) == if key < n && listeners[key as int].wanted(
                columns,
            ) {
                listened_slots(
                    columns,
                    listeners[key as int].listened@,
                    listeners[key as int].listened@.len(),
                )
            } else {
                Seq::<u32>::empty()
            }
        }),
    decreases n,
{
    if n > 0 {
        lemma_slots_all(columns, listeners, (n - 1) as nat, key);
        let last = listeners[n - 1].listened@;
        let rest = all_records(columns, listeners, (n - 1) as nat);
        let more = records_for(columns, (n - 1) as usize, listeners[n - 1]);
        lemma_slots_of_records(columns, (n - 1) as usize, last, last.len(), key);
        lemma_slots_concat(rest, more, key, more.len());
        assert(all_records(columns, listeners, n) == rest + more);
        let found = slots_with_key(rest, key, rest.len());
        let fresh = slots_with_key(more, key, more.len());
        if key == n - 1 {
            assert(found + fresh =~= fresh);
        } else {
            assert(found + fresh =~= found);
        }
    }
}

/// XOR of ids does not depend on the place at which an id stands: with one
/// more id anywhere, it is the XOR of the others and that id.
pub proof fn lemma_xor_insert(ids: Seq<u128>, i: int, x: u128)
    requires
        0 <= i <= ids.len(),
    ensures
        xor_ids(ids.insert(i, x)) == xor_ids(ids) ^ x,
    decreases ids.len() - i,
{
    let more = ids.insert(i, x);
    if i == ids.len() {
        assert(more.drop_last() =~= ids);
        assert(more.last() == x);
    } else {
        let last = ids.last();
        lemma_xor_insert(ids.drop_last(), i, x);
        assert(more.drop_last() =~= ids.drop_last().insert(i, x));
        assert(more.last() == last);
        let rest = xor_ids(ids.drop_last());
        assert((rest ^ x) ^ last == (rest ^ last) ^ x) by (bit_vector);
    }
}

/// Whether the component types of the two lists that have the same index
/// are the same.
pub open spec fn agree(one: Seq<ComponentInfo>, other: Seq<ComponentInfo>) -> bool {
    forall|k: int, t: int|
        0 <= k < one.len() && 0 <= t < other.len() && (#[trigger] one[k]).index == (
        #[trigger] other[t]).index ==> one[k] == other[t]
}

/// A sorted component set that has one type more than another, and
/// otherwise the same, is the other with that type put in at its place.
pub proof fn lemma_sorted_insert(src: Seq<ComponentInfo>, dst: Seq<ComponentInfo>, x: ComponentInfo)
    requires
        sorted_infos(src),
        sorted_infos(dst),
        agree(dst, src),
        !has_component(src, x.index),
        forall|d: ComponentIndex| #[trigger]
            has_component(dst, d) <==> has_component(src, d) || d == x.index,
        forall|k: int| 0 <= k < dst.len() && (#[trigger] dst[k]).index == x.index ==> dst[k] == x,
    ensures
        exists|i: int| 0 <= i <= src.len() && dst == #[trigger] src.insert(i, x),
    decreases dst.len(),
{
    assert(has_component(dst, x.index));
    let at = choose|k: int| 0 <= k < dst.len() && (#[trigger] dst[k]).index == x.index;
    if at == dst.len() - 1 {
        // Every other type of the destination is one of the source, in the
        // same order: position by position they are the same.
        let fewer = dst.drop_last();
        assert forall|d: ComponentIndex| #[trigger]
            has_component(fewer, d) <==> has_component(src, d) by {
            if has_component(fewer, d) {
                let k = choose|k: int| 0 <= k < fewer.len() && (#[trigger] fewer[k]).index == d;
                assert(dst[k].index == d);
                assert(dst[k].index.0 < dst[at].index.0);
                assert(has_component(dst, d));
            }
            if has_component(src, d) {
                assert(has_component(dst, d));
                let k = choose|k: int| 0 <= k < dst.len() && (#[trigger] dst[k]).index == d;
                assert(k != at);
                assert(fewer[k].index == d);
            }
        }
        assert(agree(fewer, src)) by {
            assert forall|k: int, u: int|
                0 <= k < fewer.len() && 0 <= u < src.len() && (#[trigger] fewer[k]).index == (
                #[trigger] src[u]).index implies fewer[k] == src[u] by {
                assert(dst[k].index == src[u].index);
            }
        }
        assert forall|j: int, k: int| 0 <= j < k < fewer.len() implies (#[trigger] fewer[j]).index.0 < (
        #[trigger] fewer[k]).index.0 by {
            assert(fewer[j] == dst[j] && fewer[k] == dst[k]);
        }
        lemma_sorted_same(src, fewer);
        assert(dst[at] == x);
        assert(dst =~= src.insert(src.len() as int, x));
    } else {
        let last = dst.last();
        assert(dst[at].index.0 < last.index.0);
        assert(has_component(dst, last.index));
        assert(has_component(src, last.index));
        let t = choose|t: int| 0 <= t < src.len() && (#[trigger] src[t]).index == last.index;
        assert(t == src.len() - 1) by {
            if t < src.len() - 1 {
                let above = src[src.len() - 1];
                assert(src[t].index.0 < above.index.0);
                assert(has_component(src, above.index));
                assert(has_component(dst, above.index));
                let k = choose|k: int| 0 <= k < dst.len() && (#[trigger] dst[k]).index == above.index;
                if k < dst.len() - 1 {
                    assert(dst[k].index.0 < last.index.0);
                }
            }
        }
        assert(dst[dst.len() - 1] == src[t]);
        let less = src.drop_last();
        let fewer = dst.drop_last();
        assert forall|d: ComponentIndex| #[trigger]
            has_component(fewer, d) <==> has_component(less, d) || d == x.index by {
            if has_component(fewer, d) {
                let k = choose|k: int| 0 <= k < fewer.len() && (#[trigger] fewer[k]).index == d;
                assert(dst[k].index == d);
                assert(dst[k].index.0 < last.index.0);
                assert(has_component(dst, d));
                if d != x.index {
                    let u = choose|u: int| 0 <= u < src.len() && (#[trigger] src[u]).index == d;
                    assert(u < src.len() - 1);
                    assert(less[u].index == d);
                }
            }
            if has_component(less, d) {
                let u = choose|u: int| 0 <= u < less.len() && (#[trigger] less[u]).index == d;
                assert(src[u].index == d);
                assert(src[u].index.0 < src[t].index.0);
                assert(has_component(src, d));
                assert(has_component(dst, d));
                let k = choose|k: int| 0 <= k < dst.len() && (#[trigger] dst[k]).index == d;
                assert(k < dst.len() - 1);
                assert(fewer[k].index == d);
            }
            if d == x.index {
                assert(fewer[at].index == d);
            }
        }
        assert(!has_component(less, x.index)) by {
            if has_component(less, x.index) {
                let u = choose|u: int| 0 <= u < less.len() && (#[trigger] less[u]).index == x.index;
                assert(src[u].index == x.index);
            }
        }
        assert(agree(fewer, less)) by {
            assert forall|k: int, u: int|
                0 <= k < fewer.len() && 0 <= u < less.len() && (#[trigger] fewer[k]).index == (
                #[trigger] less[u]).index implies fewer[k] == less[u] by {
                assert(dst[k].index == src[u].index);
            }
        }
        assert forall|k: int| 0 <= k < fewer.len() && (#[trigger] fewer[k]).index == x.index implies fewer[k]
            == x by {
            assert(dst[k].index == x.index);
        }
        assert(sorted_infos(less)) by {
            assert forall|k: int| 0 <= k < less.len() implies (#[trigger] less[k]).wf()
                && !less[k].index.is_null() by {
                assert(less[k] == src[k]);
            }
            assert forall|j: int, k: int| 0 <= j < k < less.len() implies (#[trigger] less[j]).index.0 < (
            #[trigger] less[k]).index.0 by {
                assert(less[j] == src[j] && less[k] == src[k]);
            }
        }
        assert(sorted_infos(fewer)) by {
            assert forall|k: int| 0 <= k < fewer.len() implies (#[trigger] fewer[k]).wf()
                && !fewer[k].index.is_null() by {
                assert(fewer[k] == dst[k]);
            }
            assert forall|j: int, k: int| 0 <= j < k < fewer.len() implies (
            #[trigger] fewer[j]).index.0 < (#[trigger] fewer[k]).index.0 by {
                assert(fewer[j] == dst[j] && fewer[k] == dst[k]);
            }
        }
        lemma_sorted_insert(less, fewer, x);
        let i = choose|i: int| 0 <= i <= less.len() && fewer == #[trigger] less.insert(i, x);
        assert(dst =~= src.insert(i, x)) by {
            assert(dst =~= fewer.push(last));
            assert(src =~= less.push(last));
        }
    }
}

/// Two sorted component sets with the same indices, whose types of the
/// same index are the same, are the same.
pub proof fn lemma_sorted_same(src: Seq<ComponentInfo>, dst: Seq<ComponentInfo>)
    requires
        sorted_infos(src),
        forall|j: int, k: int|
            0 <= j < k < dst.len() ==> (#[trigger] dst[j]).index.0 < (#[trigger] dst[k]).index.0,
        agree(dst, src),
        forall|d: ComponentIndex| #[trigger] has_component(dst, d) <==> has_component(src, d),
    ensures
        dst == src,
    decreases dst.len(),
{
    if dst.len() == 0 {
        if src.len() > 0 {
            assert(has_component(src, src[0].index));
            assert(has_component(dst, src[0].index));
        }
        assert(dst =~= src);
    } else {
        let last = dst.last();
        assert(has_component(dst, last.index));
        let t = choose|t: int| 0 <= t < src.len() && (#[trigger] src[t]).index == last.index;
        assert(t == src.len() - 1) by {
            if t < src.len() - 1 {
                let above = src[src.len() - 1];
                assert(src[t].index.0 < above.index.0);
                assert(has_component(src, above.index));
                assert(has_component(dst, above.index));
                let k = choose|k: int| 0 <= k < dst.len() && (#[trigger] dst[k]).index == above.index;
                if k < dst.len() - 1 {
                    assert(dst[k].index.0 < last.index.0);
                }
            }
        }
        assert(dst[dst.len() - 1] == src[t]);
        let less = src.drop_last();
        let fewer = dst.drop_last();
        assert forall|d: ComponentIndex| #[trigger]
            has_component(fewer, d) <==> has_component(less, d) by {
            if has_component(fewer, d) {
                let k = choose|k: int| 0 <= k < fewer.len() && (#[trigger] fewer[k]).index == d;
                assert(dst[k].index == d);
                assert(dst[k].index.0 < last.index.0);
                assert(has_component(dst, d));
                let u = choose|u: int| 0 <= u < src.len() && (#[trigger] src[u]).index == d;
                assert(u < src.len() - 1);
                assert(less[u].index == d);
            }
            if has_component(less, d) {
                let u = choose|u: int| 0 <= u < less.len() && (#[trigger] less[u]).index == d;
                assert(src[u].index == d);
                assert(src[u].index.0 < src[t].index.0);
                assert(has_component(src, d));
                assert(has_component(dst, d));
                let k = choose|k: int| 0 <= k < dst.len() && (#[trigger] dst[k]).index == d;
                assert(k < dst.len() - 1);
                assert(fewer[k].index == d);
            }
        }
        assert(agree(fewer, less)) by {
            assert forall|k: int, u: int|
                0 <= k < fewer.len() && 0 <= u < less.len() && (#[trigger] fewer[k]).index == (
                #[trigger] less[u]).index implies fewer[k] == less[u] by {
                assert(dst[k].index == src[u].index);
            }
        }
        assert(sorted_infos(less)) by {
            assert forall|k: int| 0 <= k < less.len() implies (#[trigger] less[k]).wf()
                && !less[k].index.is_null() by {
                assert(less[k] == src[k]);
            }
            assert forall|j: int, k: int| 0 <= j < k < less.len() implies (#[trigger] less[j]).index.0 < (
            #[trigger] less[k]).index.0 by {
                assert(less[j] == src[j] && less[k] == src[k]);
            }
        }
        assert forall|j: int, k: int| 0 <= j < k < fewer.len() implies (#[trigger] fewer[j]).index.0 < (
        #[trigger] fewer[k]).index.0 by {
            assert(fewer[j] == dst[j] && fewer[k] == dst[k]);
        }
        lemma_sorted_same(less, fewer);
        assert(dst =~= fewer.push(last));
        assert(src =~= less.push(last));
    }
}

} // verus!
