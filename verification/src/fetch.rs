//! Fetches: what a query reads of each row it yields.
//!
//! Component values are type-erased: a fetch hands out the bytes of a
//! value, and a write goes back through the world, which records the tick
//! of the change.

use crate::archetype::Archetype;
use crate::component::ComponentInfo;
use crate::filter::ReadWrite;
use crate::ids::{ArchetypeWorldIndex, ComponentIndex, Entity, Row, Tick};
use crate::listener::Reject;
use crate::table::has_component;
use crate::world::{QueryError, World};
use vstd::prelude::*;

verus! {

/// What a query fetches of a row.
pub trait FetchComponents {
    /// What is handed out for a row.
    type Item;

    /// What is resolved once for each matched archetype: where the fetched
    /// columns stand in it.
    type State;

    /// The cursor over the rows of one matched archetype in one run.
    type Fetch;

    /// Whether the cursor is one that `init_fetch` makes.
    spec fn cursor_ok(&self, fetch: Self::Fetch) -> bool;

    /// The archetype that the cursor is over.
    spec fn cursor_index(&self, fetch: Self::Fetch) -> ArchetypeWorldIndex;

    /// The tick of the run that the cursor is of.
    spec fn cursor_tick(&self, fetch: Self::Fetch) -> Tick;

    /// Whether the fetch rejects an archetype with the component set,
    /// because a component that it needs is missing.
    spec fn rejects(&self, columns: Seq<ComponentInfo>) -> bool;

    /// The components that the fetch reads.
    spec fn reads(&self) -> Seq<ComponentIndex>;

    /// The components that the fetch writes.
    spec fn writes(&self) -> Seq<ComponentIndex>;

    /// Whether `state` is the state of the fetch for an archetype with the
    /// component set.
    spec fn state_for(&self, columns: Seq<ComponentInfo>, state: Self::State) -> bool;

    /// Whether `item` is what the fetch hands out for the row.
    spec fn is_item(
        &self,
        world: World,
        index: ArchetypeWorldIndex,
        row: Row,
        e: Entity,
        item: Self::Item,
    ) -> bool;

    /// Declares what the fetch reads and writes.
    fn init_read_write(&self, rw: &mut ReadWrite)
        ensures
            final(rw).reads@ == old(rw).reads@ + self.reads(),
            final(rw).writes@ == old(rw).writes@ + self.writes(),
            final(rw).withouts@ == old(rw).withouts@,
            final(rw).listeners@ == old(rw).listeners@,
    ;

    /// Whether the fetch rejects the archetype.
    fn archetype_filter(&self, archetype: &Archetype) -> (r: bool)
        requires
            archetype.wf(),
        ensures
            r == self.rejects(archetype.table_view().columns()),
    ;

    /// The rule by which the fetch rejects archetypes, for the world to
    /// keep with the query's registration as a listener.
    fn rejection(&self) -> (r: Reject)
        ensures
            forall|columns: Seq<ComponentInfo>| #[trigger] r.holds(columns) == self.rejects(columns),
    ;

    /// Resolves the state of the fetch for the archetype.
    fn init_state(&self, world: &World, archetype: &Archetype) -> (state: Self::State)
        requires
            archetype.wf(),
        ensures
            self.state_for(archetype.table_view().columns(), state),
    ;

    /// The cursor over the rows of the archetype at `index` in a run at
    /// `tick`.
    fn init_fetch(
        &self,
        world: &World,
        index: ArchetypeWorldIndex,
        state: &Self::State,
        tick: Tick,
    ) -> (fetch: Self::Fetch)
        ensures
            self.cursor_ok(fetch),
            self.cursor_index(fetch) == index,
            self.cursor_tick(fetch) == tick,
    ;

    /// Hands out the item of a row of the matched archetype that the
    /// cursor is over.
    fn fetch(
        &self,
        world: &World,
        fetch: &Self::Fetch,
        state: &Self::State,
        row: Row,
        e: Entity,
    ) -> (item: Self::Item)
        requires
            world.wf(),
            self.cursor_ok(*fetch),
            0 <= self.cursor_index(*fetch).0 < world.archetypes().len(),
            row.0 < world.table(self.cursor_index(*fetch).0 as int).entities().len(),
            !self.rejects(world.table(self.cursor_index(*fetch).0 as int).columns()),
            self.state_for(world.table(self.cursor_index(*fetch).0 as int).columns(), *state),
        ensures
            self.is_item(*world, self.cursor_index(*fetch), row, e, item),
    ;
}

/// The cursor of a fetch of one component, or of none: the archetype it is
/// over and the tick of the run.
#[derive(Debug, Clone, Copy)]
pub struct Cursor {
    /// The archetype.
    pub index: ArchetypeWorldIndex,
    /// The tick of the run.
    pub tick: Tick,
}

/// Fetches the entity of the row.
#[derive(Debug, Clone, Copy)]
pub struct EntityFetch;

/// Fetches the bytes of a component that the archetype must have.
#[derive(Debug, Clone, Copy)]
pub struct Ref(pub ComponentIndex);

/// Fetches a component that the archetype must have, for writing.
#[derive(Debug, Clone, Copy)]
pub struct RefMut(pub ComponentIndex);

/// Fetches whether the archetype has the component.
#[derive(Debug, Clone, Copy)]
pub struct Has(pub ComponentIndex);

/// A component of an entity taken out for writing: the bytes of the
/// value, to change, and where to store them back.
#[derive(Debug)]
pub struct Mut {
    /// The bytes of the value.
    pub value: Vec<u8>,
    /// The row of the entity.
    pub row: Row,
    /// The archetype of the entity.
    pub archetype: ArchetypeWorldIndex,
    /// The component.
    pub index: ComponentIndex,
    /// The entity.
    pub entity: Entity,
}

impl Mut {
    /// Stores the bytes back as the component of the entity, and records
    /// the tick of the change: see `World::set_component`.
    pub fn store(&self, world: &mut World) -> (r: Result<(), QueryError>)
        requires
            old(world).wf(),
            self.index.0 < old(world).columns().len() ==> self.value@.len() == old(world).columns()[self.index.0 as int].size(),
        ensures
            final(world).spec_tick() == old(world).spec_tick(),
            match r {
                Ok(_) => old(world).written(final(world), self.entity, self.index, self.value@),
                Err(err) => {
                    &&& old(world).component(self.entity, self.index) == Err::<Seq<u8>, QueryError>(
                        err,
                    )
                    &&& final(world).columns() == old(world).columns()
                    &&& final(world).archetypes() == old(world).archetypes()
                    &&& final(world).slots() == old(world).slots()
                    &&& final(world).free() == old(world).free()
                    &&& final(world).listeners() == old(world).listeners()
                },
            },
    {
        world.set_component(self.entity, self.index, &self.value)
    }
}

/// Whether `k` is the position of the component among the columns.
pub open spec fn position_of(columns: Seq<ComponentInfo>, index: ComponentIndex, k: usize) -> bool {
    k < columns.len() && columns[k as int].index == index
}

impl FetchComponents for EntityFetch {
    type Item = Entity;

    type State = ();

    type Fetch = Cursor;

    open spec fn cursor_ok(&self, fetch: Cursor) -> bool {
        true
    }

    open spec fn cursor_index(&self, fetch: Cursor) -> ArchetypeWorldIndex {
        fetch.index
    }

    open spec fn cursor_tick(&self, fetch: Cursor) -> Tick {
        fetch.tick
    }

    open spec fn rejects(&self, columns: Seq<ComponentInfo>) -> bool {
        false
    }

    open spec fn reads(&self) -> Seq<ComponentIndex> {
        Seq::empty()
    }

    open spec fn writes(&self) -> Seq<ComponentIndex> {
        Seq::empty()
    }

    open spec fn state_for(&self, columns: Seq<ComponentInfo>, state: ()) -> bool {
        true
    }

    open spec fn is_item(
        &self,
        world: World,
        index: ArchetypeWorldIndex,
        row: Row,
        e: Entity,
        item: Entity,
    ) -> bool {
        item == e
    }

    fn init_read_write(&self, rw: &mut ReadWrite) {
        proof {
            assert(rw.reads@ + Seq::<ComponentIndex>::empty() =~= rw.reads@);
            assert(rw.writes@ + Seq::<ComponentIndex>::empty() =~= rw.writes@);
        }
    }

    fn rejection(&self) -> (r: Reject) {
        Reject::Never
    }

    fn archetype_filter(&self, archetype: &Archetype) -> (r: bool) {
        false
    }

    fn init_state(&self, world: &World, archetype: &Archetype) -> (state: ()) {
    }

    fn init_fetch(
        &self,
        world: &World,
        index: ArchetypeWorldIndex,
        state: &(),
        tick: Tick,
    ) -> (fetch: Cursor) {
        Cursor { index, tick }
    }

    fn fetch(
        &self,
        world: &World,
        fetch: &Cursor,
        state: &(),
        row: Row,
        e: Entity,
    ) -> (item: Entity) {
        let index = fetch.index;
        e
    }
}

impl FetchComponents for Ref {
    type Item = Vec<u8>;

    type State = usize;

    type Fetch = Cursor;

    open spec fn cursor_ok(&self, fetch: Cursor) -> bool {
        true
    }

    open spec fn cursor_index(&self, fetch: Cursor) -> ArchetypeWorldIndex {
        fetch.index
    }

    open spec fn cursor_tick(&self, fetch: Cursor) -> Tick {
        fetch.tick
    }

    open spec fn rejects(&self, columns: Seq<ComponentInfo>) -> bool {
        !has_component(columns, self.0)
    }

    open spec fn reads(&self) -> Seq<ComponentIndex> {
        seq![self.0]
    }

    open spec fn writes(&self) -> Seq<ComponentIndex> {
        Seq::empty()
    }

    open spec fn state_for(&self, columns: Seq<ComponentInfo>, state: usize) -> bool {
        has_component(columns, self.0) ==> position_of(columns, self.0, state)
    }

    open spec fn is_item(
        &self,
        world: World,
        index: ArchetypeWorldIndex,
        row: Row,
        e: Entity,
        item: Vec<u8>,
    ) -> bool {
        item@ == world.columns()[self.0.0 as int].cell(index, row)
    }

    fn init_read_write(&self, rw: &mut ReadWrite) {
        rw.reads.push(self.0);
        proof {
            assert(rw.reads@ =~= old(rw).reads@ + seq![self.0]);
            assert(rw.writes@ + Seq::<ComponentIndex>::empty() =~= rw.writes@);
        }
    }

    fn rejection(&self) -> (r: Reject) {
        Reject::Lacks(self.0)
    }

    fn archetype_filter(&self, archetype: &Archetype) -> (r: bool) {
        !archetype.table().contains(self.0)
    }

    fn init_state(&self, world: &World, archetype: &Archetype) -> (state: usize) {
        match archetype.table().column_position(self.0) {
            Some(k) => k,
            None => 0,
        }
    }

    fn init_fetch(
        &self,
        world: &World,
        index: ArchetypeWorldIndex,
        state: &usize,
        tick: Tick,
    ) -> (fetch: Cursor) {
        Cursor { index, tick }
    }

    fn fetch(
        &self,
        world: &World,
        fetch: &Cursor,
        state: &usize,
        row: Row,
        e: Entity,
    ) -> (item: Vec<u8>) {
        let index = fetch.index;
        match world.get_archetype(index) {
            Some(archetype) => archetype.table().read_column(world.get_columns(), *state, row),
            None => Vec::new(),
        }
    }
}

impl FetchComponents for RefMut {
    type Item = Mut;

    type State = usize;

    type Fetch = Cursor;

    open spec fn cursor_ok(&self, fetch: Cursor) -> bool {
        true
    }

    open spec fn cursor_index(&self, fetch: Cursor) -> ArchetypeWorldIndex {
        fetch.index
    }

    open spec fn cursor_tick(&self, fetch: Cursor) -> Tick {
        fetch.tick
    }

    open spec fn rejects(&self, columns: Seq<ComponentInfo>) -> bool {
        !has_component(columns, self.0)
    }

    open spec fn reads(&self) -> Seq<ComponentIndex> {
        Seq::empty()
    }

    open spec fn writes(&self) -> Seq<ComponentIndex> {
        seq![self.0]
    }

    open spec fn state_for(&self, columns: Seq<ComponentInfo>, state: usize) -> bool {
        has_component(columns, self.0) ==> position_of(columns, self.0, state)
    }

    open spec fn is_item(
        &self,
        world: World,
        index: ArchetypeWorldIndex,
        row: Row,
        e: Entity,
        item: Mut,
    ) -> bool {
        &&& item.value@ == world.columns()[self.0.0 as int].cell(index, row)
        &&& item.row == row
        &&& item.archetype == index
        &&& item.index == self.0
        &&& item.entity == e
    }

    fn init_read_write(&self, rw: &mut ReadWrite) {
        rw.writes.push(self.0);
        proof {
            assert(rw.writes@ =~= old(rw).writes@ + seq![self.0]);
            assert(rw.reads@ + Seq::<ComponentIndex>::empty() =~= rw.reads@);
        }
    }

    fn rejection(&self) -> (r: Reject) {
        Reject::Lacks(self.0)
    }

    fn archetype_filter(&self, archetype: &Archetype) -> (r: bool) {
        !archetype.table().contains(self.0)
    }

    fn init_state(&self, world: &World, archetype: &Archetype) -> (state: usize) {
        match archetype.table().column_position(self.0) {
            Some(k) => k,
            None => 0,
        }
    }

    fn init_fetch(
        &self,
        world: &World,
        index: ArchetypeWorldIndex,
        state: &usize,
        tick: Tick,
    ) -> (fetch: Cursor) {
        Cursor { index, tick }
    }

    fn fetch(
        &self,
        world: &World,
        fetch: &Cursor,
        state: &usize,
        row: Row,
        e: Entity,
    ) -> (item: Mut) {
        let index = fetch.index;
        let value = match world.get_archetype(index) {
            Some(archetype) => archetype.table().read_column(world.get_columns(), *state, row),
            None => Vec::new(),
        };
        Mut { value, row, archetype: index, index: self.0, entity: e }
    }
}

impl FetchComponents for Option<Ref> {
    type Item = Option<Vec<u8>>;

    type State = Option<usize>;

    type Fetch = Cursor;

    open spec fn cursor_ok(&self, fetch: Cursor) -> bool {
        true
    }

    open spec fn cursor_index(&self, fetch: Cursor) -> ArchetypeWorldIndex {
        fetch.index
    }

    open spec fn cursor_tick(&self, fetch: Cursor) -> Tick {
        fetch.tick
    }

    open spec fn rejects(&self, columns: Seq<ComponentInfo>) -> bool {
        false
    }

    open spec fn reads(&self) -> Seq<ComponentIndex> {
        match self {
            Some(r) => seq![r.0],
            None => Seq::empty(),
        }
    }

    open spec fn writes(&self) -> Seq<ComponentIndex> {
        Seq::empty()
    }

    open spec fn state_for(&self, columns: Seq<ComponentInfo>, state: Option<usize>) -> bool {
        match (self, state) {
            (Some(r), Some(k)) => position_of(columns, r.0, k),
            (Some(r), None) => !has_component(columns, r.0),
            (None, _) => state.is_none(),
        }
    }

    open spec fn is_item(
        &self,
        world: World,
        index: ArchetypeWorldIndex,
        row: Row,
        e: Entity,
        item: Option<Vec<u8>>,
    ) -> bool {
        match self {
            Some(r) => match item {
                Some(bytes) => has_component(world.table(index.0 as int).columns(), r.0) && bytes@
                    == world.columns()[r.0.0 as int].cell(index, row),
                None => !has_component(world.table(index.0 as int).columns(), r.0),
            },
            None => item.is_none(),
        }
    }

    fn init_read_write(&self, rw: &mut ReadWrite) {
        match self {
            Some(r) => {
                rw.reads.push(r.0);
                proof {
                    assert(rw.reads@ =~= old(rw).reads@ + seq![r.0]);
                }
            },
            None => {
                proof {
                    assert(rw.reads@ + Seq::<ComponentIndex>::empty() =~= rw.reads@);
                }
            },
        }
        proof {
            assert(rw.writes@ + Seq::<ComponentIndex>::empty() =~= rw.writes@);
        }
    }

    fn rejection(&self) -> (r: Reject) {
        Reject::Never
    }

    fn archetype_filter(&self, archetype: &Archetype) -> (r: bool) {
        false
    }

    fn init_state(&self, world: &World, archetype: &Archetype) -> (state: Option<usize>) {
        match self {
            Some(r) => archetype.table().column_position(r.0),
            None => None,
        }
    }

    fn init_fetch(
        &self,
        world: &World,
        index: ArchetypeWorldIndex,
        state: &Option<usize>,
        tick: Tick,
    ) -> (fetch: Cursor) {
        Cursor { index, tick }
    }

    fn fetch(
        &self,
        world: &World,
        fetch: &Cursor,
        state: &Option<usize>,
        row: Row,
        e: Entity,
    ) -> (item: Option<Vec<u8>>) {
        let index = fetch.index;
        match (world.get_archetype(index), state) {
            (Some(archetype), Some(k)) => {
                proof {
                    let columns = world.table(index.0 as int).columns();
                    assert(columns[*k as int].index == self.unwrap().0);
                }
                Some(archetype.table().read_column(world.get_columns(), *k, row))
            },
            _ => None,
        }
    }
}

/// Fetches, for writing, a component that the archetype may lack: `None`
/// where it lacks it.
impl FetchComponents for Option<RefMut> {
    type Item = Option<Mut>;

    type State = Option<usize>;

    type Fetch = Cursor;

    open spec fn cursor_ok(&self, fetch: Cursor) -> bool {
        true
    }

    open spec fn cursor_index(&self, fetch: Cursor) -> ArchetypeWorldIndex {
        fetch.index
    }

    open spec fn cursor_tick(&self, fetch: Cursor) -> Tick {
        fetch.tick
    }

    open spec fn rejects(&self, columns: Seq<ComponentInfo>) -> bool {
        false
    }

    open spec fn reads(&self) -> Seq<ComponentIndex> {
        Seq::empty()
    }

    open spec fn writes(&self) -> Seq<ComponentIndex> {
        match self {
            Some(r) => seq![r.0],
            None => Seq::empty(),
        }
    }

    open spec fn state_for(&self, columns: Seq<ComponentInfo>, state: Option<usize>) -> bool {
        match (self, state) {
            (Some(r), Some(k)) => position_of(columns, r.0, k),
            (Some(r), None) => !has_component(columns, r.0),
            (None, _) => state.is_none(),
        }
    }

    open spec fn is_item(
        &self,
        world: World,
        index: ArchetypeWorldIndex,
        row: Row,
        e: Entity,
        item: Option<Mut>,
    ) -> bool {
        match self {
            Some(r) => match item {
                Some(taken) => {
                    &&& has_component(world.table(index.0 as int).columns(), r.0)
                    &&& taken.value@ == world.columns()[r.0.0 as int].cell(index, row)
                    &&& taken.row == row
                    &&& taken.archetype == index
                    &&& taken.index == r.0
                    &&& taken.entity == e
                },
                None => !has_component(world.table(index.0 as int).columns(), r.0),
            },
            None => item.is_none(),
        }
    }

    fn init_read_write(&self, rw: &mut ReadWrite) {
        match self {
            Some(r) => {
                rw.writes.push(r.0);
                proof {
                    assert(rw.writes@ =~= old(rw).writes@ + seq![r.0]);
                }
            },
            None => {
                proof {
                    assert(rw.writes@ + Seq::<ComponentIndex>::empty() =~= rw.writes@);
                }
            },
        }
        proof {
            assert(rw.reads@ + Seq::<ComponentIndex>::empty() =~= rw.reads@);
        }
    }

    fn rejection(&self) -> (r: Reject) {
        Reject::Never
    }

    fn archetype_filter(&self, archetype: &Archetype) -> (r: bool) {
        false
    }

    fn init_state(&self, world: &World, archetype: &Archetype) -> (state: Option<usize>) {
        match self {
            Some(r) => archetype.table().column_position(r.0),
            None => None,
        }
    }

    fn init_fetch(
        &self,
        world: &World,
        index: ArchetypeWorldIndex,
        state: &Option<usize>,
        tick: Tick,
    ) -> (fetch: Cursor) {
        Cursor { index, tick }
    }

    fn fetch(
        &self,
        world: &World,
        fetch: &Cursor,
        state: &Option<usize>,
        row: Row,
        e: Entity,
    ) -> (item: Option<Mut>) {
        let index = fetch.index;
        match (self, world.get_archetype(index), state) {
            (Some(r), Some(archetype), Some(k)) => {
                proof {
                    let columns = world.table(index.0 as int).columns();
                    assert(columns[*k as int].index == r.0);
                }
                let value = archetype.table().read_column(world.get_columns(), *k, row);
                Some(Mut { value, row, archetype: index, index: r.0, entity: e })
            },
            _ => None,
        }
    }
}

impl FetchComponents for Has {
    type Item = bool;

    type State = bool;

    type Fetch = Cursor;

    open spec fn cursor_ok(&self, fetch: Cursor) -> bool {
        true
    }

    open spec fn cursor_index(&self, fetch: Cursor) -> ArchetypeWorldIndex {
        fetch.index
    }

    open spec fn cursor_tick(&self, fetch: Cursor) -> Tick {
        fetch.tick
    }

    open spec fn rejects(&self, columns: Seq<ComponentInfo>) -> bool {
        false
    }

    open spec fn reads(&self) -> Seq<ComponentIndex> {
        Seq::empty()
    }

    open spec fn writes(&self) -> Seq<ComponentIndex> {
        Seq::empty()
    }

    open spec fn state_for(&self, columns: Seq<ComponentInfo>, state: bool) -> bool {
        state == has_component(columns, self.0)
    }

    open spec fn is_item(
        &self,
        world: World,
        index: ArchetypeWorldIndex,
        row: Row,
        e: Entity,
        item: bool,
    ) -> bool {
        item == has_component(world.table(index.0 as int).columns(), self.0)
    }

    fn init_read_write(&self, rw: &mut ReadWrite) {
        proof {
            assert(rw.reads@ + Seq::<ComponentIndex>::empty() =~= rw.reads@);
            assert(rw.writes@ + Seq::<ComponentIndex>::empty() =~= rw.writes@);
        }
    }

    fn rejection(&self) -> (r: Reject) {
        Reject::Never
    }

    fn archetype_filter(&self, archetype: &Archetype) -> (r: bool) {
        false
    }

    fn init_state(&self, world: &World, archetype: &Archetype) -> (state: bool) {
        archetype.table().contains(self.0)
    }

    fn init_fetch(
        &self,
        world: &World,
        index: ArchetypeWorldIndex,
        state: &bool,
        tick: Tick,
    ) -> (fetch: Cursor) {
        Cursor { index, tick }
    }

    fn fetch(
        &self,
        world: &World,
        fetch: &Cursor,
        state: &bool,
        row: Row,
        e: Entity,
    ) -> (item: bool) {
        let index = fetch.index;
        *state
    }
}

} // verus!
