//! Fetches in tuples: the fetches of a tuple together hand out the tuple of
//! their items.

use crate::archetype::Archetype;
use crate::component::ComponentInfo;
use crate::fetch::{Cursor, FetchComponents};
use crate::filter::ReadWrite;
use crate::ids::{ArchetypeWorldIndex, ComponentIndex, Entity, Row, Tick};
use crate::listener::Reject;
use crate::world::World;
use vstd::prelude::*;

verus! {

/// The fetch of nothing: hands out the unit for every row.
impl FetchComponents for () {
    type Item = ();

    type State = ();

    type Fetch = Cursor;

    open spec fn cursor_ok(&self, fetch: Cursor) -> bool {
        true
    }

    open spec fn cursor_index(&self, fetch: Cursor) -> ArchetypeWorldIndex {
        fetch.index
    }

    open spec fn cursor_tick(&self, fetch: Cursor) -> Tick {
        fetch.tick
    }

    open spec fn rejects(&self, columns: Seq<ComponentInfo>) -> bool {
        false
    }

    open spec fn reads(&self) -> Seq<ComponentIndex> {
        Seq::empty()
    }

    open spec fn writes(&self) -> Seq<ComponentIndex> {
        Seq::empty()
    }

    open spec fn state_for(&self, columns: Seq<ComponentInfo>, state: ()) -> bool {
        true
    }

    open spec fn is_item(
        &self,
        world: World,
        index: ArchetypeWorldIndex,
        row: Row,
        e: Entity,
        item: (),
    ) -> bool {
        true
    }

    fn init_read_write(&self, rw: &mut ReadWrite) {
        proof {
            assert(rw.reads@ + Seq::<ComponentIndex>::empty() =~= rw.reads@);
            assert(rw.writes@ + Seq::<ComponentIndex>::empty() =~= rw.writes@);
        }
    }

    fn rejection(&self) -> (r: Reject) {
        Reject::Never
    }

    fn archetype_filter(&self, archetype: &Archetype) -> (r: bool) {
        false
    }

    fn init_state(&self, world: &World, archetype: &Archetype) -> (state: ()) {
        ()
    }

    fn init_fetch(
        &self,
        world: &World,
        index: ArchetypeWorldIndex,
        state: &(),
        tick: Tick,
    ) -> (fetch: Cursor) {
        Cursor { index, tick }
    }

    fn fetch(
        &self,
        world: &World,
        fetch: &Cursor,
        state: &(),
        row: Row,
        e: Entity,
    ) -> (item: ()) {
        ()
    }
}

/// A fetch alone in a tuple hands out its item in a tuple.
impl<A: FetchComponents> FetchComponents for (A,) {
    type Item = (A::Item,);

    type State = (A::State,);

    type Fetch = (A::Fetch,);

    open spec fn cursor_ok(&self, fetch: (A::Fetch,)) -> bool {
        self.0.cursor_ok(fetch.0)
    }

    open spec fn cursor_index(&self, fetch: (A::Fetch,)) -> ArchetypeWorldIndex {
        self.0.cursor_index(fetch.0)
    }

    open spec fn cursor_tick(&self, fetch: (A::Fetch,)) -> Tick {
        self.0.cursor_tick(fetch.0)
    }

    open spec fn rejects(&self, columns: Seq<ComponentInfo>) -> bool {
        self.0.rejects(columns)
    }

    open spec fn reads(&self) -> Seq<ComponentIndex> {
        self.0.reads()
    }

    open spec fn writes(&self) -> Seq<ComponentIndex> {
        self.0.writes()
    }

    open spec fn state_for(&self, columns: Seq<ComponentInfo>, state: (A::State,)) -> bool {
        self.0.state_for(columns, state.0)
    }

    open spec fn is_item(
        &self,
        world: World,
        index: ArchetypeWorldIndex,
        row: Row,
        e: Entity,
        item: (A::Item,),
    ) -> bool {
        self.0.is_item(world, index, row, e, item.0)
    }

    fn init_read_write(&self, rw: &mut ReadWrite) {
        self.0.init_read_write(rw);
    }

    fn rejection(&self) -> (r: Reject) {
        self.0.rejection()
    }

    fn archetype_filter(&self, archetype: &Archetype) -> (r: bool) {
        self.0.archetype_filter(archetype)
    }

    fn init_state(&self, world: &World, archetype: &Archetype) -> (state: (A::State,)) {
        (self.0.init_state(world, archetype),)
    }

    fn init_fetch(
        &self,
        world: &World,
        index: ArchetypeWorldIndex,
        state: &(A::State,),
        tick: Tick,
    ) -> (fetch: (A::Fetch,)) {
        (
            self.0.init_fetch(world, index, &state.0, tick),
        )
    }

    fn fetch(
        &self,
        world: &World,
        fetch: &(A::Fetch,),
        state: &(A::State,),
        row: Row,
        e: Entity,
    ) -> (item: (A::Item,)) {
        (
            self.0.fetch(world, &fetch.0, &state.0, row, e),
        )
    }
}

/// 2 fetches together hand out their items together, and reject what
/// one of them rejects.
impl<A: FetchComponents, B: FetchComponents> FetchComponents for (A, B) {
    type Item = (A::Item, B::Item);

    type State = (A::State, B::State);

    type Fetch = (A::Fetch, B::Fetch);

    open spec fn cursor_ok(&self, fetch: (A::Fetch, B::Fetch)) -> bool {
        self.0.cursor_ok(fetch.0)
            && self.1.cursor_ok(fetch.1)
            && self.1.cursor_index(fetch.1) == self.0.cursor_index(fetch.0)
            && self.1.cursor_tick(fetch.1) == self.0.cursor_tick(fetch.0)
    }

    open spec fn cursor_index(&self, fetch: (A::Fetch, B::Fetch)) -> ArchetypeWorldIndex {
        self.0.cursor_index(fetch.0)
    }

    open spec fn cursor_tick(&self, fetch: (A::Fetch, B::Fetch)) -> Tick {
        self.0.cursor_tick(fetch.0)
    }

    open spec fn rejects(&self, columns: Seq<ComponentInfo>) -> bool {
        self.0.rejects(columns)
            || self.1.rejects(columns)
    }

    open spec fn reads(&self) -> Seq<ComponentIndex> {
        self.0.reads()
            + self.1.reads()
    }

    open spec fn writes(&self) -> Seq<ComponentIndex> {
        self.0.writes()
            + self.1.writes()
    }

    open spec fn state_for(&self, columns: Seq<ComponentInfo>, state: (A::State, B::State)) -> bool {
        self.0.state_for(columns, state.0)
            && self.1.state_for(columns, state.1)
    }

    open spec fn is_item(
        &self,
        world: World,
        index: ArchetypeWorldIndex,
        row: Row,
        e: Entity,
        item: (A::Item, B::Item),
    ) -> bool {
        self.0.is_item(world, index, row, e, item.0)
            && self.1.is_item(world, index, row, e, item.1)
    }

    fn init_read_write(&self, rw: &mut ReadWrite) {
        self.0.init_read_write(rw);
        self.1.init_read_write(rw);
        proof {
            assert(rw.reads@ =~= old(rw).reads@ + (self.0.reads() + self.1.reads()));
            assert(rw.writes@ =~= old(rw).writes@ + (self.0.writes() + self.1.writes()));
        }
    }

    fn rejection(&self) -> (r: Reject) {
        let r0 = self.0.rejection();
        let x1 = self.1.rejection();
        let ghost g0 = r0;
        let ghost h1 = x1;
        let r1 = Reject::Either(Box::new(r0), Box::new(x1));
        proof {
            assert forall|columns: Seq<ComponentInfo>| #[trigger]
                r1.holds(columns) == (self.0.rejects(columns) || self.1.rejects(columns)) by {
                assert(r1.holds(columns) == (g0.holds(columns) || h1.holds(columns)));
            }
        }
        r1
    }

    fn archetype_filter(&self, archetype: &Archetype) -> (r: bool) {
        if self.0.archetype_filter(archetype) {
            return true;
        }
        self.1.archetype_filter(archetype)
    }

    fn init_state(&self, world: &World, archetype: &Archetype) -> (state: (A::State, B::State)) {
        (self.0.init_state(world, archetype), self.1.init_state(world, archetype))
    }

    fn init_fetch(
        &self,
        world: &World,
        index: ArchetypeWorldIndex,
        state: &(A::State, B::State),
        tick: Tick,
    ) -> (fetch: (A::Fetch, B::Fetch)) {
        (
            self.0.init_fetch(world, index, &state.0, tick),
            self.1.init_fetch(world, index, &state.1, tick),
        )
    }

    fn fetch(
        &self,
        world: &World,
        fetch: &(A::Fetch, B::Fetch),
        state: &(A::State, B::State),
        row: Row,
        e: Entity,
    ) -> (item: (A::Item, B::Item)) {
        (
            self.0.fetch(world, &fetch.0, &state.0, row, e),
            self.1.fetch(world, &fetch.1, &state.1, row, e),
        )
    }
}

/// 3 fetches together hand out their items together, and reject what
/// one of them rejects.
impl<A: FetchComponents, B: FetchComponents, C: FetchComponents> FetchComponents for (A, B, C) {
    type Item = (A::Item, B::Item, C::Item);

    type State = (A::State, B::State, C::State);

    type Fetch = (A::Fetch, B::Fetch, C::Fetch);

    open spec fn cursor_ok(&self, fetch: (A::Fetch, B::Fetch, C::Fetch)) -> bool {
        self.0.cursor_ok(fetch.0)
            && self.1.cursor_ok(fetch.1)
            && self.2.cursor_ok(fetch.2)
            && self.1.cursor_index(fetch.1) == self.0.cursor_index(fetch.0)
            && self.2.cursor_index(fetch.2) == self.0.cursor_index(fetch.0)
            && self.1.cursor_tick(fetch.1) == self.0.cursor_tick(fetch.0)
            && self.2.cursor_tick(fetch.2) == self.0.cursor_tick(fetch.0)
    }

    open spec fn cursor_index(&self, fetch: (A::Fetch, B::Fetch, C::Fetch)) -> ArchetypeWorldIndex {
        self.0.cursor_index(fetch.0)
    }

    open spec fn cursor_tick(&self, fetch: (A::Fetch, B::Fetch, C::Fetch)) -> Tick {
        self.0.cursor_tick(fetch.0)
    }

    open spec fn rejects(&self, columns: Seq<ComponentInfo>) -> bool {
        self.0.rejects(columns)
            || self.1.rejects(columns)
            || self.2.rejects(columns)
    }

    open spec fn reads(&self) -> Seq<ComponentIndex> {
        self.0.reads()
            + self.1.reads()
            + self.2.reads()
    }

    open spec fn writes(&self) -> Seq<ComponentIndex> {
        self.0.writes()
            + self.1.writes()
            + self.2.writes()
    }

    open spec fn state_for(&self, columns: Seq<ComponentInfo>, state: (A::State, B::State, C::State)) -> bool {
        self.0.state_for(columns, state.0)
            && self.1.state_for(columns, state.1)
            && self.2.state_for(columns, state.2)
    }

    open spec fn is_item(
        &self,
        world: World,
        index: ArchetypeWorldIndex,
        row: Row,
        e: Entity,
        item: (A::Item, B::Item, C::Item),
    ) -> bool {
        self.0.is_item(world, index, row, e, item.0)
            && self.1.is_item(world, index, row, e, item.1)
            && self.2.is_item(world, index, row, e, item.2)
    }

    fn init_read_write(&self, rw: &mut ReadWrite) {
        self.0.init_read_write(rw);
        self.1.init_read_write(rw);
        proof {
            assert(rw.reads@ =~= old(rw).reads@ + (self.0.reads() + self.1.reads()));
            assert(rw.writes@ =~= old(rw).writes@ + (self.0.writes() + self.1.writes()));
        }
        self.2.init_read_write(rw);
        proof {
            assert(rw.reads@ =~= old(rw).reads@ + (self.0.reads() + self.1.reads() + self.2.reads()));
            assert(rw.writes@ =~= old(rw).writes@ + (self.0.writes() + self.1.writes() + self.2.writes()));
        }
    }

    fn rejection(&self) -> (r: Reject) {
        let r0 = self.0.rejection();
        let x1 = self.1.rejection();
        let ghost g0 = r0;
        let ghost h1 = x1;
        let r1 = Reject::Either(Box::new(r0), Box::new(x1));
        proof {
            assert forall|columns: Seq<ComponentInfo>| #[trigger]
                r1.holds(columns) == (self.0.rejects(columns) || self.1.rejects(columns)) by {
                assert(r1.holds(columns) == (g0.holds(columns) || h1.holds(columns)));
            }
        }
        let x2 = self.2.rejection();
        let ghost g1 = r1;
        let ghost h2 = x2;
        let r2 = Reject::Either(Box::new(r1), Box::new(x2));
        proof {
            assert forall|columns: Seq<ComponentInfo>| #[trigger]
                r2.holds(columns) == (self.0.rejects(columns) || self.1.rejects(columns) || self.2.rejects(columns)) by {
                assert(r2.holds(columns) == (g1.holds(columns) || h2.holds(columns)));
            }
        }
        r2
    }

    fn archetype_filter(&self, archetype: &Archetype) -> (r: bool) {
        if self.0.archetype_filter(archetype) {
            return true;
        }
        if self.1.archetype_filter(archetype) {
            return true;
        }
        self.2.archetype_filter(archetype)
    }

    fn init_state(&self, world: &World, archetype: &Archetype) -> (state: (A::State, B::State, C::State)) {
        (self.0.init_state(world, archetype), self.1.init_state(world, archetype), self.2.init_state(world, archetype))
    }

    fn init_fetch(
        &self,
        world: &World,
        index: ArchetypeWorldIndex,
        state: &(A::State, B::State, C::State),
        tick: Tick,
    ) -> (fetch: (A::Fetch, B::Fetch, C::Fetch)) {
        (
            self.0.init_fetch(world, index, &state.0, tick),
            self.1.init_fetch(world, index, &state.1, tick),
            self.2.init_fetch(world, index, &state.2, tick),
        )
    }

    fn fetch(
        &self,
        world: &World,
        fetch: &(A::Fetch, B::Fetch, C::Fetch),
        state: &(A::State, B::State, C::State),
        row: Row,
        e: Entity,
    ) -> (item: (A::Item, B::Item, C::Item)) {
        (
            self.0.fetch(world, &fetch.0, &state.0, row, e),
            self.1.fetch(world, &fetch.1, &state.1, row, e),
            self.2.fetch(world, &fetch.2, &state.2, row, e),
        )
    }
}

/// 4 fetches together hand out their items together, and reject what
/// one of them rejects.
impl<A: FetchComponents, B: FetchComponents, C: FetchComponents, D: FetchComponents> FetchComponents for (A, B, C, D) {
    type Item = (A::Item, B::Item, C::Item, D::Item);

    type State = (A::State, B::State, C::State, D::State);

    type Fetch = (A::Fetch, B::Fetch, C::Fetch, D::Fetch);

    open spec fn cursor_ok(&self, fetch: (A::Fetch, B::Fetch, C::Fetch, D::Fetch)) -> bool {
        self.0.cursor_ok(fetch.0)
            && self.1.cursor_ok(fetch.1)
            && self.2.cursor_ok(fetch.2)
            && self.3.cursor_ok(fetch.3)
            && self.1.cursor_index(fetch.1) == self.0.cursor_index(fetch.0)
            && self.2.cursor_index(fetch.2) == self.0.cursor_index(fetch.0)
            && self.3.cursor_index(fetch.3) == self.0.cursor_index(fetch.0)
            && self.1.cursor_tick(fetch.1) == self.0.cursor_tick(fetch.0)
            && self.2.cursor_tick(fetch.2) == self.0.cursor_tick(fetch.0)
            && self.3.cursor_tick(fetch.3) == self.0.cursor_tick(fetch.0)
    }

    open spec fn cursor_index(&self, fetch: (A::Fetch, B::Fetch, C::Fetch, D::Fetch)) -> ArchetypeWorldIndex {
        self.0.cursor_index(fetch.0)
    }

    open spec fn cursor_tick(&self, fetch: (A::Fetch, B::Fetch, C::Fetch, D::Fetch)) -> Tick {
        self.0.cursor_tick(fetch.0)
    }

    open spec fn rejects(&self, columns: Seq<ComponentInfo>) -> bool {
        self.0.rejects(columns)
            || self.1.rejects(columns)
            || self.2.rejects(columns)
            || self.3.rejects(columns)
    }

    open spec fn reads(&self) -> Seq<ComponentIndex> {
        self.0.reads()
            + self.1.reads()
            + self.2.reads()
            + self.3.reads()
    }

    open spec fn writes(&self) -> Seq<ComponentIndex> {
        self.0.writes()
            + self.1.writes()
            + self.2.writes()
            + self.3.writes()
    }

    open spec fn state_for(&self, columns: Seq<ComponentInfo>, state: (A::State, B::State, C::State, D::State)) -> bool {
        self.0.state_for(columns, state.0)
            && self.1.state_for(columns, state.1)
            && self.2.state_for(columns, state.2)
            && self.3.state_for(columns, state.3)
    }

    open spec fn is_item(
        &self,
        world: World,
        index: ArchetypeWorldIndex,
        row: Row,
        e: Entity,
        item: (A::Item, B::Item, C::Item, D::Item),
    ) -> bool {
        self.0.is_item(world, index, row, e, item.0)
            && self.1.is_item(world, index, row, e, item.1)
            && self.2.is_item(world, index, row, e, item.2)
            && self.3.is_item(world, index, row, e, item.3)
    }

    fn init_read_write(&self, rw: &mut ReadWrite) {
        self.0.init_read_write(rw);
        self.1.init_read_write(rw);
        proof {
            assert(rw.reads@ =~= old(rw).reads@ + (self.0.reads() + self.1.reads()));
            assert(rw.writes@ =~= old(rw).writes@ + (self.0.writes() + self.1.writes()));
        }
        self.2.init_read_write(rw);
        proof {
            assert(rw.reads@ =~= old(rw).reads@ + (self.0.reads() + self.1.reads() + self.2.reads()));
            assert(rw.writes@ =~= old(rw).writes@ + (self.0.writes() + self.1.writes() + self.2.writes()));
        }
        self.3.init_read_write(rw);
        proof {
            assert(rw.reads@ =~= old(rw).reads@ + (self.0.reads() + self.1.reads() + self.2.reads() + self.3.reads()));
            assert(rw.writes@ =~= old(rw).writes@ + (self.0.writes() + self.1.writes() + self.2.writes() + self.3.writes()));
        }
    }

    fn rejection(&self) -> (r: Reject) {
        let r0 = self.0.rejection();
        let x1 = self.1.rejection();
        let ghost g0 = r0;
        let ghost h1 = x1;
        let r1 = Reject::Either(Box::new(r0), Box::new(x1));
        proof {
            assert forall|columns: Seq<ComponentInfo>| #[trigger]
                r1.holds(columns) == (self.0.rejects(columns) || self.1.rejects(columns)) by {
                assert(r1.holds(columns) == (g0.holds(columns) || h1.holds(columns)));
            }
        }
        let x2 = self.2.rejection();
        let ghost g1 = r1;
        let ghost h2 = x2;
        let r2 = Reject::Either(Box::new(r1), Box::new(x2));
        proof {
            assert forall|columns: Seq<ComponentInfo>| #[trigger]
                r2.holds(columns) == (self.0.rejects(columns) || self.1.rejects(columns) || self.2.rejects(columns)) by {
                assert(r2.holds(columns) == (g1.holds(columns) || h2.holds(columns)));
            }
        }
        let x3 = self.3.rejection();
        let ghost g2 = r2;
        let ghost h3 = x3;
        let r3 = Reject::Either(Box::new(r2), Box::new(x3));
        proof {
            assert forall|columns: Seq<ComponentInfo>| #[trigger]
                r3.holds(columns) == (self.0.rejects(columns) || self.1.rejects(columns) || self.2.rejects(columns) || self.3.rejects(columns)) by {
                assert(r3.holds(columns) == (g2.holds(columns) || h3.holds(columns)));
            }
        }
        r3
    }

    fn archetype_filter(&self, archetype: &Archetype) -> (r: bool) {
        if self.0.archetype_filter(archetype) {
            return true;
        }
        if self.1.archetype_filter(archetype) {
            return true;
        }
        if self.2.archetype_filter(archetype) {
            return true;
        }
        self.3.archetype_filter(archetype)
    }

    fn init_state(&self, world: &World, archetype: &Archetype) -> (state: (A::State, B::State, C::State, D::State)) {
        (self.0.init_state(world, archetype), self.1.init_state(world, archetype), self.2.init_state(world, archetype), self.3.init_state(world, archetype))
    }

    fn init_fetch(
        &self,
        world: &World,
        index: ArchetypeWorldIndex,
        state: &(A::State, B::State, C::State, D::State),
        tick: Tick,
    ) -> (fetch: (A::Fetch, B::Fetch, C::Fetch, D::Fetch)) {
        (
            self.0.init_fetch(world, index, &state.0, tick),
            self.1.init_fetch(world, index, &state.1, tick),
            self.2.init_fetch(world, index, &state.2, tick),
            self.3.init_fetch(world, index, &state.3, tick),
        )
    }

    fn fetch(
        &self,
        world: &World,
        fetch: &(A::Fetch, B::Fetch, C::Fetch, D::Fetch),
        state: &(A::State, B::State, C::State, D::State),
        row: Row,
        e: Entity,
    ) -> (item: (A::Item, B::Item, C::Item, D::Item)) {
        (
            self.0.fetch(world, &fetch.0, &state.0, row, e),
            self.1.fetch(world, &fetch.1, &state.1, row, e),
            self.2.fetch(world, &fetch.2, &state.2, row, e),
            self.3.fetch(world, &fetch.3, &state.3, row, e),
        )
    }
}

/// 5 fetches together hand out their items together, and reject what
/// one of them rejects.
impl<A: FetchComponents, B: FetchComponents, C: FetchComponents, D: FetchComponents, E: FetchComponents> FetchComponents for (A, B, C, D, E) {
    type Item = (A::Item, B::Item, C::Item, D::Item, E::Item);

    type State = (A::State, B::State, C::State, D::State, E::State);

    type Fetch = (A::Fetch, B::Fetch, C::Fetch, D::Fetch, E::Fetch);

    open spec fn cursor_ok(&self, fetch: (A::Fetch, B::Fetch, C::Fetch, D::Fetch, E::Fetch)) -> bool {
        self.0.cursor_ok(fetch.0)
            && self.1.cursor_ok(fetch.1)
            && self.2.cursor_ok(fetch.2)
            && self.3.cursor_ok(fetch.3)
            && self.4.cursor_ok(fetch.4)
            && self.1.cursor_index(fetch.1) == self.0.cursor_index(fetch.0)
            && self.2.cursor_index(fetch.2) == self.0.cursor_index(fetch.0)
            && self.3.cursor_index(fetch.3) == self.0.cursor_index(fetch.0)
            && self.4.cursor_index(fetch.4) == self.0.cursor_index(fetch.0)
            && self.1.cursor_tick(fetch.1) == self.0.cursor_tick(fetch.0)
            && self.2.cursor_tick(fetch.2) == self.0.cursor_tick(fetch.0)
            && self.3.cursor_tick(fetch.3) == self.0.cursor_tick(fetch.0)
            && self.4.cursor_tick(fetch.4) == self.0.cursor_tick(fetch.0)
    }

    open spec fn cursor_index(&self, fetch: (A::Fetch, B::Fetch, C::Fetch, D::Fetch, E::Fetch)) -> ArchetypeWorldIndex {
        self.0.cursor_index(fetch.0)
    }

    open spec fn cursor_tick(&self, fetch: (A::Fetch, B::Fetch, C::Fetch, D::Fetch, E::Fetch)) -> Tick {
        self.0.cursor_tick(fetch.0)
    }

    open spec fn rejects(&self, columns: Seq<ComponentInfo>) -> bool {
        self.0.rejects(columns)
            || self.1.rejects(columns)
            || self.2.rejects(columns)
            || self.3.rejects(columns)
            || self.4.rejects(columns)
    }

    open spec fn reads(&self) -> Seq<ComponentIndex> {
        self.0.reads()
            + self.1.reads()
            + self.2.reads()
            + self.3.reads()
            + self.4.reads()
    }

    open spec fn writes(&self) -> Seq<ComponentIndex> {
        self.0.writes()
            + self.1.writes()
            + self.2.writes()
            + self.3.writes()
            + self.4.writes()
    }

    open spec fn state_for(&self, columns: Seq<ComponentInfo>, state: (A::State, B::State, C::State, D::State, E::State)) -> bool {
        self.0.state_for(columns, state.0)
            && self.1.state_for(columns, state.1)
            && self.2.state_for(columns, state.2)
            && self.3.state_for(columns, state.3)
            && self.4.state_for(columns, state.4)
    }

    open spec fn is_item(
        &self,
        world: World,
        index: ArchetypeWorldIndex,
        row: Row,
        e: Entity,
        item: (A::Item, B::Item, C::Item, D::Item, E::Item),
    ) -> bool {
        self.0.is_item(world, index, row, e, item.0)
            && self.1.is_item(world, index, row, e, item.1)
            && self.2.is_item(world, index, row, e, item.2)
            && self.3.is_item(world, index, row, e, item.3)
            && self.4.is_item(world, index, row, e, item.4)
    }

    fn init_read_write(&self, rw: &mut ReadWrite) {
        self.0.init_read_write(rw);
        self.1.init_read_write(rw);
        proof {
            assert(rw.reads@ =~= old(rw).reads@ + (self.0.reads() + self.1.reads()));
            assert(rw.writes@ =~= old(rw).writes@ + (self.0.writes() + self.1.writes()));
        }
        self.2.init_read_write(rw);
        proof {
            assert(rw.reads@ =~= old(rw).reads@ + (self.0.reads() + self.1.reads() + self.2.reads()));
            assert(rw.writes@ =~= old(rw).writes@ + (self.0.writes() + self.1.writes() + self.2.writes()));
        }
        self.3.init_read_write(rw);
        proof {
            assert(rw.reads@ =~= old(rw).reads@ + (self.0.reads() + self.1.reads() + self.2.reads() + self.3.reads()));
            assert(rw.writes@ =~= old(rw).writes@ + (self.0.writes() + self.1.writes() + self.2.writes() + self.3.writes()));
        }
        self.4.init_read_write(rw);
        proof {
            assert(rw.reads@ =~= old(rw).reads@ + (self.0.reads() + self.1.reads() + self.2.reads() + self.3.reads() + self.4.reads()));
            assert(rw.writes@ =~= old(rw).writes@ + (self.0.writes() + self.1.writes() + self.2.writes() + self.3.writes() + self.4.writes()));
        }
    }

    fn rejection(&self) -> (r: Reject) {
        let r0 = self.0.rejection();
        let x1 = self.1.rejection();
        let ghost g0 = r0;
        let ghost h1 = x1;
        let r1 = Reject::Either(Box::new(r0), Box::new(x1));
        proof {
            assert forall|columns: Seq<ComponentInfo>| #[trigger]
                r1.holds(columns) == (self.0.rejects(columns) || self.1.rejects(columns)) by {
                assert(r1.holds(columns) == (g0.holds(columns) || h1.holds(columns)));
            }
        }
        let x2 = self.2.rejection();
        let ghost g1 = r1;
        let ghost h2 = x2;
        let r2 = Reject::Either(Box::new(r1), Box::new(x2));
        proof {
            assert forall|columns: Seq<ComponentInfo>| #[trigger]
                r2.holds(columns) == (self.0.rejects(columns) || self.1.rejects(columns) || self.2.rejects(columns)) by {
                assert(r2.holds(columns) == (g1.holds(columns) || h2.holds(columns)));
            }
        }
        let x3 = self.3.rejection();
        let ghost g2 = r2;
        let ghost h3 = x3;
        let r3 = Reject::Either(Box::new(r2), Box::new(x3));
        proof {
            assert forall|columns: Seq<ComponentInfo>| #[trigger]
                r3.holds(columns) == (self.0.rejects(columns) || self.1.rejects(columns) || self.2.rejects(columns) || self.3.rejects(columns)) by {
                assert(r3.holds(columns) == (g2.holds(columns) || h3.holds(columns)));
            }
        }
        let x4 = self.4.rejection();
        let ghost g3 = r3;
        let ghost h4 = x4;
        let r4 = Reject::Either(Box::new(r3), Box::new(x4));
        proof {
            assert forall|columns: Seq<ComponentInfo>| #[trigger]
                r4.holds(columns) == (self.0.rejects(columns) || self.1.rejects(columns) || self.2.rejects(columns) || self.3.rejects(columns) || self.4.rejects(columns)) by {
                assert(r4.holds(columns) == (g3.holds(columns) || h4.holds(columns)));
            }
        }
        r4
    }

    fn archetype_filter(&self, archetype: &Archetype) -> (r: bool) {
        if self.0.archetype_filter(archetype) {
            return true;
        }
        if self.1.archetype_filter(archetype) {
            return true;
        }
        if self.2.archetype_filter(archetype) {
            return true;
        }
        if self.3.archetype_filter(archetype) {
            return true;
        }
        self.4.archetype_filter(archetype)
    }

    fn init_state(&self, world: &World, archetype: &Archetype) -> (state: (A::State, B::State, C::State, D::State, E::State)) {
        (self.0.init_state(world, archetype), self.1.init_state(world, archetype), self.2.init_state(world, archetype), self.3.init_state(world, archetype), self.4.init_state(world, archetype))
    }

    fn init_fetch(
        &self,
        world: &World,
        index: ArchetypeWorldIndex,
        state: &(A::State, B::State, C::State, D::State, E::State),
        tick: Tick,
    ) -> (fetch: (A::Fetch, B::Fetch, C::Fetch, D::Fetch, E::Fetch)) {
        (
            self.0.init_fetch(world, index, &state.0, tick),
            self.1.init_fetch(world, index, &state.1, tick),
            self.2.init_fetch(world, index, &state.2, tick),
            self.3.init_fetch(world, index, &state.3, tick),
            self.4.init_fetch(world, index, &state.4, tick),
        )
    }

    fn fetch(
        &self,
        world: &World,
        fetch: &(A::Fetch, B::Fetch, C::Fetch, D::Fetch, E::Fetch),
        state: &(A::State, B::State, C::State, D::State, E::State),
        row: Row,
        e: Entity,
    ) -> (item: (A::Item, B::Item, C::Item, D::Item, E::Item)) {
        (
            self.0.fetch(world, &fetch.0, &state.0, row, e),
            self.1.fetch(world, &fetch.1, &state.1, row, e),
            self.2.fetch(world, &fetch.2, &state.2, row, e),
            self.3.fetch(world, &fetch.3, &state.3, row, e),
            self.4.fetch(world, &fetch.4, &state.4, row, e),
        )
    }
}

/// 6 fetches together hand out their items together, and reject what
/// one of them rejects.
impl<A: FetchComponents, B: FetchComponents, C: FetchComponents, D: FetchComponents, E: FetchComponents, F: FetchComponents> FetchComponents for (A, B, C, D, E, F) {
    type Item = (A::Item, B::Item, C::Item, D::Item, E::Item, F::Item);

    type State = (A::State, B::State, C::State, D::State, E::State, F::State);

    type Fetch = (A::Fetch, B::Fetch, C::Fetch, D::Fetch, E::Fetch, F::Fetch);

    open spec fn cursor_ok(&self, fetch: (A::Fetch, B::Fetch, C::Fetch, D::Fetch, E::Fetch, F::Fetch)) -> bool {
        self.0.cursor_ok(fetch.0)
            && self.1.cursor_ok(fetch.1)
            && self.2.cursor_ok(fetch.2)
            && self.3.cursor_ok(fetch.3)
            && self.4.cursor_ok(fetch.4)
            && self.5.cursor_ok(fetch.5)
            && self.1.cursor_index(fetch.1) == self.0.cursor_index(fetch.0)
            && self.2.cursor_index(fetch.2) == self.0.cursor_index(fetch.0)
            && self.3.cursor_index(fetch.3) == self.0.cursor_index(fetch.0)
            && self.4.cursor_index(fetch.4) == self.0.cursor_index(fetch.0)
            && self.5.cursor_index(fetch.5) == self.0.cursor_index(fetch.0)
            && self.1.cursor_tick(fetch.1) == self.0.cursor_tick(fetch.0)
            && self.2.cursor_tick(fetch.2) == self.0.cursor_tick(fetch.0)
            && self.3.cursor_tick(fetch.3) == self.0.cursor_tick(fetch.0)
            && self.4.cursor_tick(fetch.4) == self.0.cursor_tick(fetch.0)
            && self.5.cursor_tick(fetch.5) == self.0.cursor_tick(fetch.0)
    }

    open spec fn cursor_index(&self, fetch: (A::Fetch, B::Fetch, C::Fetch, D::Fetch, E::Fetch, F::Fetch)) -> ArchetypeWorldIndex {
        self.0.cursor_index(fetch.0)
    }

    open spec fn cursor_tick(&self, fetch: (A::Fetch, B::Fetch, C::Fetch, D::Fetch, E::Fetch, F::Fetch)) -> Tick {
        self.0.cursor_tick(fetch.0)
    }

    open spec fn rejects(&self, columns: Seq<ComponentInfo>) -> bool {
        self.0.rejects(columns)
            || self.1.rejects(columns)
            || self.2.rejects(columns)
            || self.3.rejects(columns)
            || self.4.rejects(columns)
            || self.5.rejects(columns)
    }

    open spec fn reads(&self) -> Seq<ComponentIndex> {
        self.0.reads()
            + self.1.reads()
            + self.2.reads()
            + self.3.reads()
            + self.4.reads()
            + self.5.reads()
    }

    open spec fn writes(&self) -> Seq<ComponentIndex> {
        self.0.writes()
            + self.1.writes()
            + self.2.writes()
            + self.3.writes()
            + self.4.writes()
            + self.5.writes()
    }

    open spec fn state_for(&self, columns: Seq<ComponentInfo>, state: (A::State, B::State, C::State, D::State, E::State, F::State)) -> bool {
        self.0.state_for(columns, state.0)
            && self.1.state_for(columns, state.1)
            && self.2.state_for(columns, state.2)
            && self.3.state_for(columns, state.3)
            && self.4.state_for(columns, state.4)
            && self.5.state_for(columns, state.5)
    }

    open spec fn is_item(
        &self,
        world: World,
        index: ArchetypeWorldIndex,
        row: Row,
        e: Entity,
        item: (A::Item, B::Item, C::Item, D::Item, E::Item, F::Item),
    ) -> bool {
        self.0.is_item(world, index, row, e, item.0)
            && self.1.is_item(world, index, row, e, item.1)
            && self.2.is_item(world, index, row, e, item.2)
            && self.3.is_item(world, index, row, e, item.3)
            && self.4.is_item(world, index, row, e, item.4)
            && self.5.is_item(world, index, row, e, item.5)
    }

    fn init_read_write(&self, rw: &mut ReadWrite) {
        self.0.init_read_write(rw);
        self.1.init_read_write(rw);
        proof {
            assert(rw.reads@ =~= old(rw).reads@ + (self.0.reads() + self.1.reads()));
            assert(rw.writes@ =~= old(rw).writes@ + (self.0.writes() + self.1.writes()));
        }
        self.2.init_read_write(rw);
        proof {
            assert(rw.reads@ =~= old(rw).reads@ + (self.0.reads() + self.1.reads() + self.2.reads()));
            assert(rw.writes@ =~= old(rw).writes@ + (self.0.writes() + self.1.writes() + self.2.writes()));
        }
        self.3.init_read_write(rw);
        proof {
            assert(rw.reads@ =~= old(rw).reads@ + (self.0.reads() + self.1.reads() + self.2.reads() + self.3.reads()));
            assert(rw.writes@ =~= old(rw).writes@ + (self.0.writes() + self.1.writes() + self.2.writes() + self.3.writes()));
        }
        self.4.init_read_write(rw);
        proof {
            assert(rw.reads@ =~= old(rw).reads@ + (self.0.reads() + self.1.reads() + self.2.reads() + self.3.reads() + self.4.reads()));
            assert(rw.writes@ =~= old(rw).writes@ + (self.0.writes() + self.1.writes() + self.2.writes() + self.3.writes() + self.4.writes()));
        }
        self.5.init_read_write(rw);
        proof {
            assert(rw.reads@ =~= old(rw).reads@ + (self.0.reads() + self.1.reads() + self.2.reads() + self.3.reads() + self.4.reads() + self.5.reads()));
            assert(rw.writes@ =~= old(rw).writes@ + (self.0.writes() + self.1.writes() + self.2.writes() + self.3.writes() + self.4.writes() + self.5.writes()));
        }
    }

    fn rejection(&self) -> (r: Reject) {
        let r0 = self.0.rejection();
        let x1 = self.1.rejection();
        let ghost g0 = r0;
        let ghost h1 = x1;
        let r1 = Reject::Either(Box::new(r0), Box::new(x1));
        proof {
            assert forall|columns: Seq<ComponentInfo>| #[trigger]
                r1.holds(columns) == (self.0.rejects(columns) || self.1.rejects(columns)) by {
                assert(r1.holds(columns) == (g0.holds(columns) || h1.holds(columns)));
            }
        }
        let x2 = self.2.rejection();
        let ghost g1 = r1;
        let ghost h2 = x2;
        let r2 = Reject::Either(Box::new(r1), Box::new(x2));
        proof {
            assert forall|columns: Seq<ComponentInfo>| #[trigger]
                r2.holds(columns) == (self.0.rejects(columns) || self.1.rejects(columns) || self.2.rejects(columns)) by {
                assert(r2.holds(columns) == (g1.holds(columns) || h2.holds(columns)));
            }
        }
        let x3 = self.3.rejection();
        let ghost g2 = r2;
        let ghost h3 = x3;
        let r3 = Reject::Either(Box::new(r2), Box::new(x3));
        proof {
            assert forall|columns: Seq<ComponentInfo>| #[trigger]
                r3.holds(columns) == (self.0.rejects(columns) || self.1.rejects(columns) || self.2.rejects(columns) || self.3.rejects(columns)) by {
                assert(r3.holds(columns) == (g2.holds(columns) || h3.holds(columns)));
            }
        }
        let x4 = self.4.rejection();
        let ghost g3 = r3;
        let ghost h4 = x4;
        let r4 = Reject::Either(Box::new(r3), Box::new(x4));
        proof {
            assert forall|columns: Seq<ComponentInfo>| #[trigger]
                r4.holds(columns) == (self.0.rejects(columns) || self.1.rejects(columns) || self.2.rejects(columns) || self.3.rejects(columns) || self.4.rejects(columns)) by {
                assert(r4.holds(columns) == (g3.holds(columns) || h4.holds(columns)));
            }
        }
        let x5 = self.5.rejection();
        let ghost g4 = r4;
        let ghost h5 = x5;
        let r5 = Reject::Either(Box::new(r4), Box::new(x5));
        proof {
            assert forall|columns: Seq<ComponentInfo>| #[trigger]
                r5.holds(columns) == (self.0.rejects(columns) || self.1.rejects(columns) || self.2.rejects(columns) || self.3.rejects(columns) || self.4.rejects(columns) || self.5.rejects(columns)) by {
                assert(r5.holds(columns) == (g4.holds(columns) || h5.holds(columns)));
            }
        }
        r5
    }

    fn archetype_filter(&self, archetype: &Archetype) -> (r: bool) {
        if self.0.archetype_filter(archetype) {
            return true;
        }
        if self.1.archetype_filter(archetype) {
            return true;
        }
        if self.2.archetype_filter(archetype) {
            return true;
        }
        if self.3.archetype_filter(archetype) {
            return true;
        }
        if self.4.archetype_filter(archetype) {
            return true;
        }
        self.5.archetype_filter(archetype)
    }

    fn init_state(&self, world: &World, archetype: &Archetype) -> (state: (A::State, B::State, C::State, D::State, E::State, F::State)) {
        (self.0.init_state(world, archetype), self.1.init_state(world, archetype), self.2.init_state(world, archetype), self.3.init_state(world, archetype), self.4.init_state(world, archetype), self.5.init_state(world, archetype))
    }

    fn init_fetch(
        &self,
        world: &World,
        index: ArchetypeWorldIndex,
        state: &(A::State, B::State, C::State, D::State, E::State, F::State),
        tick: Tick,
    ) -> (fetch: (A::Fetch, B::Fetch, C::Fetch, D::Fetch, E::Fetch, F::Fetch)) {
        (
            self.0.init_fetch(world, index, &state.0, tick),
            self.1.init_fetch(world, index, &state.1, tick),
            self.2.init_fetch(world, index, &state.2, tick),
            self.3.init_fetch(world, index, &state.3, tick),
            self.4.init_fetch(world, index, &state.4, tick),
            self.5.init_fetch(world, index, &state.5, tick),
        )
    }

    fn fetch(
        &self,
        world: &World,
        fetch: &(A::Fetch, B::Fetch, C::Fetch, D::Fetch, E::Fetch, F::Fetch),
        state: &(A::State, B::State, C::State, D::State, E::State, F::State),
        row: Row,
        e: Entity,
    ) -> (item: (A::Item, B::Item, C::Item, D::Item, E::Item, F::Item)) {
        (
            self.0.fetch(world, &fetch.0, &state.0, row, e),
            self.1.fetch(world, &fetch.1, &state.1, row, e),
            self.2.fetch(world, &fetch.2, &state.2, row, e),
            self.3.fetch(world, &fetch.3, &state.3, row, e),
            self.4.fetch(world, &fetch.4, &state.4, row, e),
            self.5.fetch(world, &fetch.5, &state.5, row, e),
        )
    }
}

/// 7 fetches together hand out their items together, and reject what
/// one of them rejects.
impl<A: FetchComponents, B: FetchComponents, C: FetchComponents, D: FetchComponents, E: FetchComponents, F: FetchComponents, G: FetchComponents> FetchComponents for (A, B, C, D, E, F, G) {
    type Item = (A::Item, B::Item, C::Item, D::Item, E::Item, F::Item, G::Item);

    type State = (A::State, B::State, C::State, D::State, E::State, F::State, G::State);

    type Fetch = (A::Fetch, B::Fetch, C::Fetch, D::Fetch, E::Fetch, F::Fetch, G::Fetch);

    open spec fn cursor_ok(&self, fetch: (A::Fetch, B::Fetch, C::Fetch, D::Fetch, E::Fetch, F::Fetch, G::Fetch)) -> bool {
        self.0.cursor_ok(fetch.0)
            && self.1.cursor_ok(fetch.1)
            && self.2.cursor_ok(fetch.2)
            && self.3.cursor_ok(fetch.3)
            && self.4.cursor_ok(fetch.4)
            && self.5.cursor_ok(fetch.5)
            && self.6.cursor_ok(fetch.6)
            && self.1.cursor_index(fetch.1) == self.0.cursor_index(fetch.0)
            && self.2.cursor_index(fetch.2) == self.0.cursor_index(fetch.0)
            && self.3.cursor_index(fetch.3) == self.0.cursor_index(fetch.0)
            && self.4.cursor_index(fetch.4) == self.0.cursor_index(fetch.0)
            && self.5.cursor_index(fetch.5) == self.0.cursor_index(fetch.0)
            && self.6.cursor_index(fetch.6) == self.0.cursor_index(fetch.0)
            && self.1.cursor_tick(fetch.1) == self.0.cursor_tick(fetch.0)
            && self.2.cursor_tick(fetch.2) == self.0.cursor_tick(fetch.0)
            && self.3.cursor_tick(fetch.3) == self.0.cursor_tick(fetch.0)
            && self.4.cursor_tick(fetch.4) == self.0.cursor_tick(fetch.0)
            && self.5.cursor_tick(fetch.5) == self.0.cursor_tick(fetch.0)
            && self.6.cursor_tick(fetch.6) == self.0.cursor_tick(fetch.0)
    }

    open spec fn cursor_index(&self, fetch: (A::Fetch, B::Fetch, C::Fetch, D::Fetch, E::Fetch, F::Fetch, G::Fetch)) -> ArchetypeWorldIndex {
        self.0.cursor_index(fetch.0)
    }

    open spec fn cursor_tick(&self, fetch: (A::Fetch, B::Fetch, C::Fetch, D::Fetch, E::Fetch, F::Fetch, G::Fetch)) -> Tick {
        self.0.cursor_tick(fetch.0)
    }

    open spec fn rejects(&self, columns: Seq<ComponentInfo>) -> bool {
        self.0.rejects(columns)
            || self.1.rejects(columns)
            || self.2.rejects(columns)
            || self.3.rejects(columns)
            || self.4.rejects(columns)
            || self.5.rejects(columns)
            || self.6.rejects(columns)
    }

    open spec fn reads(&self) -> Seq<ComponentIndex> {
        self.0.reads()
            + self.1.reads()
            + self.2.reads()
            + self.3.reads()
            + self.4.reads()
            + self.5.reads()
            + self.6.reads()
    }

    open spec fn writes(&self) -> Seq<ComponentIndex> {
        self.0.writes()
            + self.1.writes()
            + self.2.writes()
            + self.3.writes()
            + self.4.writes()
            + self.5.writes()
            + self.6.writes()
    }

    open spec fn state_for(&self, columns: Seq<ComponentInfo>, state: (A::State, B::State, C::State, D::State, E::State, F::State, G::State)) -> bool {
        self.0.state_for(columns, state.0)
            && self.1.state_for(columns, state.1)
            && self.2.state_for(columns, state.2)
            && self.3.state_for(columns, state.3)
            && self.4.state_for(columns, state.4)
            && self.5.state_for(columns, state.5)
            && self.6.state_for(columns, state.6)
    }

    open spec fn is_item(
        &self,
        world: World,
        index: ArchetypeWorldIndex,
        row: Row,
        e: Entity,
        item: (A::Item, B::Item, C::Item, D::Item, E::Item, F::Item, G::Item),
    ) -> bool {
        self.0.is_item(world, index, row, e, item.0)
            && self.1.is_item(world, index, row, e, item.1)
            && self.2.is_item(world, index, row, e, item.2)
            && self.3.is_item(world, index, row, e, item.3)
            && self.4.is_item(world, index, row, e, item.4)
            && self.5.is_item(world, index, row, e, item.5)
            && self.6.is_item(world, index, row, e, item.6)
    }

    fn init_read_write(&self, rw: &mut ReadWrite) {
        self.0.init_read_write(rw);
        self.1.init_read_write(rw);
        proof {
            assert(rw.reads@ =~= old(rw).reads@ + (self.0.reads() + self.1.reads()));
            assert(rw.writes@ =~= old(rw).writes@ + (self.0.writes() + self.1.writes()));
        }
        self.2.init_read_write(rw);
        proof {
            assert(rw.reads@ =~= old(rw).reads@ + (self.0.reads() + self.1.reads() + self.2.reads()));
            assert(rw.writes@ =~= old(rw).writes@ + (self.0.writes() + self.1.writes() + self.2.writes()));
        }
        self.3.init_read_write(rw);
        proof {
            assert(rw.reads@ =~= old(rw).reads@ + (self.0.reads() + self.1.reads() + self.2.reads() + self.3.reads()));
            assert(rw.writes@ =~= old(rw).writes@ + (self.0.writes() + self.1.writes() + self.2.writes() + self.3.writes()));
        }
        self.4.init_read_write(rw);
        proof {
            assert(rw.reads@ =~= old(rw).reads@ + (self.0.reads() + self.1.reads() + self.2.reads() + self.3.reads() + self.4.reads()));
            assert(rw.writes@ =~= old(rw).writes@ + (self.0.writes() + self.1.writes() + self.2.writes() + self.3.writes() + self.4.writes()));
        }
        self.5.init_read_write(rw);
        proof {
            assert(rw.reads@ =~= old(rw).reads@ + (self.0.reads() + self.1.reads() + self.2.reads() + self.3.reads() + self.4.reads() + self.5.reads()));
            assert(rw.writes@ =~= old(rw).writes@ + (self.0.writes() + self.1.writes() + self.2.writes() + self.3.writes() + self.4.writes() + self.5.writes()));
        }
        self.6.init_read_write(rw);
        proof {
            assert(rw.reads@ =~= old(rw).reads@ + (self.0.reads() + self.1.reads() + self.2.reads() + self.3.reads() + self.4.reads() + self.5.reads() + self.6.reads()));
            assert(rw.writes@ =~= old(rw).writes@ + (self.0.writes() + self.1.writes() + self.2.writes() + self.3.writes() + self.4.writes() + self.5.writes() + self.6.writes()));
        }
    }

    fn rejection(&self) -> (r: Reject) {
        let r0 = self.0.rejection();
        let x1 = self.1.rejection();
        let ghost g0 = r0;
        let ghost h1 = x1;
        let r1 = Reject::Either(Box::new(r0), Box::new(x1));
        proof {
            assert forall|columns: Seq<ComponentInfo>| #[trigger]
                r1.holds(columns) == (self.0.rejects(columns) || self.1.rejects(columns)) by {
                assert(r1.holds(columns) == (g0.holds(columns) || h1.holds(columns)));
            }
        }
        let x2 = self.2.rejection();
        let ghost g1 = r1;
        let ghost h2 = x2;
        let r2 = Reject::Either(Box::new(r1), Box::new(x2));
        proof {
            assert forall|columns: Seq<ComponentInfo>| #[trigger]
                r2.holds(columns) == (self.0.rejects(columns) || self.1.rejects(columns) || self.2.rejects(columns)) by {
                assert(r2.holds(columns) == (g1.holds(columns) || h2.holds(columns)));
            }
        }
        let x3 = self.3.rejection();
        let ghost g2 = r2;
        let ghost h3 = x3;
        let r3 = Reject::Either(Box::new(r2), Box::new(x3));
        proof {
            assert forall|columns: Seq<ComponentInfo>| #[trigger]
                r3.holds(columns) == (self.0.rejects(columns) || self.1.rejects(columns) || self.2.rejects(columns) || self.3.rejects(columns)) by {
                assert(r3.holds(columns) == (g2.holds(columns) || h3.holds(columns)));
            }
        }
        let x4 = self.4.rejection();
        let ghost g3 = r3;
        let ghost h4 = x4;
        let r4 = Reject::Either(Box::new(r3), Box::new(x4));
        proof {
            assert forall|columns: Seq<ComponentInfo>| #[trigger]
                r4.holds(columns) == (self.0.rejects(columns) || self.1.rejects(columns) || self.2.rejects(columns) || self.3.rejects(columns) || self.4.rejects(columns)) by {
                assert(r4.holds(columns) == (g3.holds(columns) || h4.holds(columns)));
            }
        }
        let x5 = self.5.rejection();
        let ghost g4 = r4;
        let ghost h5 = x5;
        let r5 = Reject::Either(Box::new(r4), Box::new(x5));
        proof {
            assert forall|columns: Seq<ComponentInfo>| #[trigger]
                r5.holds(columns) == (self.0.rejects(columns) || self.1.rejects(columns) || self.2.rejects(columns) || self.3.rejects(columns) || self.4.rejects(columns) || self.5.rejects(columns)) by {
                assert(r5.holds(columns) == (g4.holds(columns) || h5.holds(columns)));
            }
        }
        let x6 = self.6.rejection();
        let ghost g5 = r5;
        let ghost h6 = x6;
        let r6 = Reject::Either(Box::new(r5), Box::new(x6));
        proof {
            assert forall|columns: Seq<ComponentInfo>| #[trigger]
                r6.holds(columns) == (self.0.rejects(columns) || self.1.rejects(columns) || self.2.rejects(columns) || self.3.rejects(columns) || self.4.rejects(columns) || self.5.rejects(columns) || self.6.rejects(columns)) by {
                assert(r6.holds(columns) == (g5.holds(columns) || h6.holds(columns)));
            }
        }
        r6
    }

    fn archetype_filter(&self, archetype: &Archetype) -> (r: bool) {
        if self.0.archetype_filter(archetype) {
            return true;
        }
        if self.1.archetype_filter(archetype) {
            return true;
        }
        if self.2.archetype_filter(archetype) {
            return true;
        }
        if self.3.archetype_filter(archetype) {
            return true;
        }
        if self.4.archetype_filter(archetype) {
            return true;
        }
        if self.5.archetype_filter(archetype) {
            return true;
        }
        self.6.archetype_filter(archetype)
    }

    fn init_state(&self, world: &World, archetype: &Archetype) -> (state: (A::State, B::State, C::State, D::State, E::State, F::State, G::State)) {
        (self.0.init_state(world, archetype), self.1.init_state(world, archetype), self.2.init_state(world, archetype), self.3.init_state(world, archetype), self.4.init_state(world, archetype), self.5.init_state(world, archetype), self.6.init_state(world, archetype))
    }

    fn init_fetch(
        &self,
        world: &World,
        index: ArchetypeWorldIndex,
        state: &(A::State, B::State, C::State, D::State, E::State, F::State, G::State),
        tick: Tick,
    ) -> (fetch: (A::Fetch, B::Fetch, C::Fetch, D::Fetch, E::Fetch, F::Fetch, G::Fetch)) {
        (
            self.0.init_fetch(world, index, &state.0, tick),
            self.1.init_fetch(world, index, &state.1, tick),
            self.2.init_fetch(world, index, &state.2, tick),
            self.3.init_fetch(world, index, &state.3, tick),
            self.4.init_fetch(world, index, &state.4, tick),
            self.5.init_fetch(world, index, &state.5, tick),
            self.6.init_fetch(world, index, &state.6, tick),
        )
    }

    fn fetch(
        &self,
        world: &World,
        fetch: &(A::Fetch, B::Fetch, C::Fetch, D::Fetch, E::Fetch, F::Fetch, G::Fetch),
        state: &(A::State, B::State, C::State, D::State, E::State, F::State, G::State),
        row: Row,
        e: Entity,
    ) -> (item: (A::Item, B::Item, C::Item, D::Item, E::Item, F::Item, G::Item)) {
        (
            self.0.fetch(world, &fetch.0, &state.0, row, e),
            self.1.fetch(world, &fetch.1, &state.1, row, e),
            self.2.fetch(world, &fetch.2, &state.2, row, e),
            self.3.fetch(world, &fetch.3, &state.3, row, e),
            self.4.fetch(world, &fetch.4, &state.4, row, e),
            self.5.fetch(world, &fetch.5, &state.5, row, e),
            self.6.fetch(world, &fetch.6, &state.6, row, e),
        )
    }
}

/// 8 fetches together hand out their items together, and reject what
/// one of them rejects.
impl<A: FetchComponents, B: FetchComponents, C: FetchComponents, D: FetchComponents, E: FetchComponents, F: FetchComponents, G: FetchComponents, H: FetchComponents> FetchComponents for (A, B, C, D, E, F, G, H) {
    type Item = (A::Item, B::Item, C::Item, D::Item, E::Item, F::Item, G::Item, H::Item);

    type State = (A::State, B::State, C::State, D::State, E::State, F::State, G::State, H::State);

    type Fetch = (A::Fetch, B::Fetch, C::Fetch, D::Fetch, E::Fetch, F::Fetch, G::Fetch, H::Fetch);

    open spec fn cursor_ok(&self, fetch: (A::Fetch, B::Fetch, C::Fetch, D::Fetch, E::Fetch, F::Fetch, G::Fetch, H::Fetch)) -> bool {
        self.0.cursor_ok(fetch.0)
            && self.1.cursor_ok(fetch.1)
            && self.2.cursor_ok(fetch.2)
            && self.3.cursor_ok(fetch.3)
            && self.4.cursor_ok(fetch.4)
            && self.5.cursor_ok(fetch.5)
            && self.6.cursor_ok(fetch.6)
            && self.7.cursor_ok(fetch.7)
            && self.1.cursor_index(fetch.1) == self.0.cursor_index(fetch.0)
            && self.2.cursor_index(fetch.2) == self.0.cursor_index(fetch.0)
            && self.3.cursor_index(fetch.3) == self.0.cursor_index(fetch.0)
            && self.4.cursor_index(fetch.4) == self.0.cursor_index(fetch.0)
            && self.5.cursor_index(fetch.5) == self.0.cursor_index(fetch.0)
            && self.6.cursor_index(fetch.6) == self.0.cursor_index(fetch.0)
            && self.7.cursor_index(fetch.7) == self.0.cursor_index(fetch.0)
            && self.1.cursor_tick(fetch.1) == self.0.cursor_tick(fetch.0)
            && self.2.cursor_tick(fetch.2) == self.0.cursor_tick(fetch.0)
            && self.3.cursor_tick(fetch.3) == self.0.cursor_tick(fetch.0)
            && self.4.cursor_tick(fetch.4) == self.0.cursor_tick(fetch.0)
            && self.5.cursor_tick(fetch.5) == self.0.cursor_tick(fetch.0)
            && self.6.cursor_tick(fetch.6) == self.0.cursor_tick(fetch.0)
            && self.7.cursor_tick(fetch.7) == self.0.cursor_tick(fetch.0)
    }

    open spec fn cursor_index(&self, fetch: (A::Fetch, B::Fetch, C::Fetch, D::Fetch, E::Fetch, F::Fetch, G::Fetch, H::Fetch)) -> ArchetypeWorldIndex {
        self.0.cursor_index(fetch.0)
    }

    open spec fn cursor_tick(&self, fetch: (A::Fetch, B::Fetch, C::Fetch, D::Fetch, E::Fetch, F::Fetch, G::Fetch, H::Fetch)) -> Tick {
        self.0.cursor_tick(fetch.0)
    }

    open spec fn rejects(&self, columns: Seq<ComponentInfo>) -> bool {
        self.0.rejects(columns)
            || self.1.rejects(columns)
            || self.2.rejects(columns)
            || self.3.rejects(columns)
            || self.4.rejects(columns)
            || self.5.rejects(columns)
            || self.6.rejects(columns)
            || self.7.rejects(columns)
    }

    open spec fn reads(&self) -> Seq<ComponentIndex> {
        self.0.reads()
            + self.1.reads()
            + self.2.reads()
            + self.3.reads()
            + self.4.reads()
            + self.5.reads()
            + self.6.reads()
            + self.7.reads()
    }

    open spec fn writes(&self) -> Seq<ComponentIndex> {
        self.0.writes()
            + self.1.writes()
            + self.2.writes()
            + self.3.writes()
            + self.4.writes()
            + self.5.writes()
            + self.6.writes()
            + self.7.writes()
    }

    open spec fn state_for(&self, columns: Seq<ComponentInfo>, state: (A::State, B::State, C::State, D::State, E::State, F::State, G::State, H::State)) -> bool {
        self.0.state_for(columns, state.0)
            && self.1.state_for(columns, state.1)
            && self.2.state_for(columns, state.2)
            && self.3.state_for(columns, state.3)
            && self.4.state_for(columns, state.4)
            && self.5.state_for(columns, state.5)
            && self.6.state_for(columns, state.6)
            && self.7.state_for(columns, state.7)
    }

    open spec fn is_item(
        &self,
        world: World,
        index: ArchetypeWorldIndex,
        row: Row,
        e: Entity,
        item: (A::Item, B::Item, C::Item, D::Item, E::Item, F::Item, G::Item, H::Item),
    ) -> bool {
        self.0.is_item(world, index, row, e, item.0)
            && self.1.is_item(world, index, row, e, item.1)
            && self.2.is_item(world, index, row, e, item.2)
            && self.3.is_item(world, index, row, e, item.3)
            && self.4.is_item(world, index, row, e, item.4)
            && self.5.is_item(world, index, row, e, item.5)
            && self.6.is_item(world, index, row, e, item.6)
            && self.7.is_item(world, index, row, e, item.7)
    }

    fn init_read_write(&self, rw: &mut ReadWrite) {
        self.0.init_read_write(rw);
        self.1.init_read_write(rw);
        proof {
            assert(rw.reads@ =~= old(rw).reads@ + (self.0.reads() + self.1.reads()));
            assert(rw.writes@ =~= old(rw).writes@ + (self.0.writes() + self.1.writes()));
        }
        self.2.init_read_write(rw);
        proof {
            assert(rw.reads@ =~= old(rw).reads@ + (self.0.reads() + self.1.reads() + self.2.reads()));
            assert(rw.writes@ =~= old(rw).writes@ + (self.0.writes() + self.1.writes() + self.2.writes()));
        }
        self.3.init_read_write(rw);
        proof {
            assert(rw.reads@ =~= old(rw).reads@ + (self.0.reads() + self.1.reads() + self.2.reads() + self.3.reads()));
            assert(rw.writes@ =~= old(rw).writes@ + (self.0.writes() + self.1.writes() + self.2.writes() + self.3.writes()));
        }
        self.4.init_read_write(rw);
        proof {
            assert(rw.reads@ =~= old(rw).reads@ + (self.0.reads() + self.1.reads() + self.2.reads() + self.3.reads() + self.4.reads()));
            assert(rw.writes@ =~= old(rw).writes@ + (self.0.writes() + self.1.writes() + self.2.writes() + self.3.writes() + self.4.writes()));
        }
        self.5.init_read_write(rw);
        proof {
            assert(rw.reads@ =~= old(rw).reads@ + (self.0.reads() + self.1.reads() + self.2.reads() + self.3.reads() + self.4.reads() + self.5.reads()));
            assert(rw.writes@ =~= old(rw).writes@ + (self.0.writes() + self.1.writes() + self.2.writes() + self.3.writes() + self.4.writes() + self.5.writes()));
        }
        self.6.init_read_write(rw);
        proof {
            assert(rw.reads@ =~= old(rw).reads@ + (self.0.reads() + self.1.reads() + self.2.reads() + self.3.reads() + self.4.reads() + self.5.reads() + self.6.reads()));
            assert(rw.writes@ =~= old(rw).writes@ + (self.0.writes() + self.1.writes() + self.2.writes() + self.3.writes() + self.4.writes() + self.5.writes() + self.6.writes()));
        }
        self.7.init_read_write(rw);
        proof {
            assert(rw.reads@ =~= old(rw).reads@ + (self.0.reads() + self.1.reads() + self.2.reads() + self.3.reads() + self.4.reads() + self.5.reads() + self.6.reads() + self.7.reads()));
            assert(rw.writes@ =~= old(rw).writes@ + (self.0.writes() + self.1.writes() + self.2.writes() + self.3.writes() + self.4.writes() + self.5.writes() + self.6.writes() + self.7.writes()));
        }
    }

    fn rejection(&self) -> (r: Reject) {
        let r0 = self.0.rejection();
        let x1 = self.1.rejection();
        let ghost g0 = r0;
        let ghost h1 = x1;
        let r1 = Reject::Either(Box::new(r0), Box::new(x1));
        proof {
            assert forall|columns: Seq<ComponentInfo>| #[trigger]
                r1.holds(columns) == (self.0.rejects(columns) || self.1.rejects(columns)) by {
                assert(r1.holds(columns) == (g0.holds(columns) || h1.holds(columns)));
            }
        }
        let x2 = self.2.rejection();
        let ghost g1 = r1;
        let ghost h2 = x2;
        let r2 = Reject::Either(Box::new(r1), Box::new(x2));
        proof {
            assert forall|columns: Seq<ComponentInfo>| #[trigger]
                r2.holds(columns) == (self.0.rejects(columns) || self.1.rejects(columns) || self.2.rejects(columns)) by {
                assert(r2.holds(columns) == (g1.holds(columns) || h2.holds(columns)));
            }
        }
        let x3 = self.3.rejection();
        let ghost g2 = r2;
        let ghost h3 = x3;
        let r3 = Reject::Either(Box::new(r2), Box::new(x3));
        proof {
            assert forall|columns: Seq<ComponentInfo>| #[trigger]
                r3.holds(columns) == (self.0.rejects(columns) || self.1.rejects(columns) || self.2.rejects(columns) || self.3.rejects(columns)) by {
                assert(r3.holds(columns) == (g2.holds(columns) || h3.holds(columns)));
            }
        }
        let x4 = self.4.rejection();
        let ghost g3 = r3;
        let ghost h4 = x4;
        let r4 = Reject::Either(Box::new(r3), Box::new(x4));
        proof {
            assert forall|columns: Seq<ComponentInfo>| #[trigger]
                r4.holds(columns) == (self.0.rejects(columns) || self.1.rejects(columns) || self.2.rejects(columns) || self.3.rejects(columns) || self.4.rejects(columns)) by {
                assert(r4.holds(columns) == (g3.holds(columns) || h4.holds(columns)));
            }
        }
        let x5 = self.5.rejection();
        let ghost g4 = r4;
        let ghost h5 = x5;
        let r5 = Reject::Either(Box::new(r4), Box::new(x5));
        proof {
            assert forall|columns: Seq<ComponentInfo>| #[trigger]
                r5.holds(columns) == (self.0.rejects(columns) || self.1.rejects(columns) || self.2.rejects(columns) || self.3.rejects(columns) || self.4.rejects(columns) || self.5.rejects(columns)) by {
                assert(r5.holds(columns) == (g4.holds(columns) || h5.holds(columns)));
            }
        }
        let x6 = self.6.rejection();
        let ghost g5 = r5;
        let ghost h6 = x6;
        let r6 = Reject::Either(Box::new(r5), Box::new(x6));
        proof {
            assert forall|columns: Seq<ComponentInfo>| #[trigger]
                r6.holds(columns) == (self.0.rejects(columns) || self.1.rejects(columns) || self.2.rejects(columns) || self.3.rejects(columns) || self.4.rejects(columns) || self.5.rejects(columns) || self.6.rejects(columns)) by {
                assert(r6.holds(columns) == (g5.holds(columns) || h6.holds(columns)));
            }
        }
        let x7 = self.7.rejection();
        let ghost g6 = r6;
        let ghost h7 = x7;
        let r7 = Reject::Either(Box::new(r6), Box::new(x7));
        proof {
            assert forall|columns: Seq<ComponentInfo>| #[trigger]
                r7.holds(columns) == (self.0.rejects(columns) || self.1.rejects(columns) || self.2.rejects(columns) || self.3.rejects(columns) || self.4.rejects(columns) || self.5.rejects(columns) || self.6.rejects(columns) || self.7.rejects(columns)) by {
                assert(r7.holds(columns) == (g6.holds(columns) || h7.holds(columns)));
            }
        }
        r7
    }

    fn archetype_filter(&self, archetype: &Archetype) -> (r: bool) {
        if self.0.archetype_filter(archetype) {
            return true;
        }
        if self.1.archetype_filter(archetype) {
            return true;
        }
        if self.2.archetype_filter(archetype) {
            return true;
        }
        if self.3.archetype_filter(archetype) {
            return true;
        }
        if self.4.archetype_filter(archetype) {
            return true;
        }
        if self.5.archetype_filter(archetype) {
            return true;
        }
        if self.6.archetype_filter(archetype) {
            return true;
        }
        self.7.archetype_filter(archetype)
    }

    fn init_state(&self, world: &World, archetype: &Archetype) -> (state: (A::State, B::State, C::State, D::State, E::State, F::State, G::State, H::State)) {
        (self.0.init_state(world, archetype), self.1.init_state(world, archetype), self.2.init_state(world, archetype), self.3.init_state(world, archetype), self.4.init_state(world, archetype), self.5.init_state(world, archetype), self.6.init_state(world, archetype), self.7.init_state(world, archetype))
    }

    fn init_fetch(
        &self,
        world: &World,
        index: ArchetypeWorldIndex,
        state: &(A::State, B::State, C::State, D::State, E::State, F::State, G::State, H::State),
        tick: Tick,
    ) -> (fetch: (A::Fetch, B::Fetch, C::Fetch, D::Fetch, E::Fetch, F::Fetch, G::Fetch, H::Fetch)) {
        (
            self.0.init_fetch(world, index, &state.0, tick),
            self.1.init_fetch(world, index, &state.1, tick),
            self.2.init_fetch(world, index, &state.2, tick),
            self.3.init_fetch(world, index, &state.3, tick),
            self.4.init_fetch(world, index, &state.4, tick),
            self.5.init_fetch(world, index, &state.5, tick),
            self.6.init_fetch(world, index, &state.6, tick),
            self.7.init_fetch(world, index, &state.7, tick),
        )
    }

    fn fetch(
        &self,
        world: &World,
        fetch: &(A::Fetch, B::Fetch, C::Fetch, D::Fetch, E::Fetch, F::Fetch, G::Fetch, H::Fetch),
        state: &(A::State, B::State, C::State, D::State, E::State, F::State, G::State, H::State),
        row: Row,
        e: Entity,
    ) -> (item: (A::Item, B::Item, C::Item, D::Item, E::Item, F::Item, G::Item, H::Item)) {
        (
            self.0.fetch(world, &fetch.0, &state.0, row, e),
            self.1.fetch(world, &fetch.1, &state.1, row, e),
            self.2.fetch(world, &fetch.2, &state.2, row, e),
            self.3.fetch(world, &fetch.3, &state.3, row, e),
            self.4.fetch(world, &fetch.4, &state.4, row, e),
            self.5.fetch(world, &fetch.5, &state.5, row, e),
            self.6.fetch(world, &fetch.6, &state.6, row, e),
            self.7.fetch(world, &fetch.7, &state.7, row, e),
        )
    }
}

/// 9 fetches together hand out their items together, and reject what
/// one of them rejects.
impl<A: FetchComponents, B: FetchComponents, C: FetchComponents, D: FetchComponents, E: FetchComponents, F: FetchComponents, G: FetchComponents, H: FetchComponents, I: FetchComponents> FetchComponents for (A, B, C, D, E, F, G, H, I) {
    type Item = (A::Item, B::Item, C::Item, D::Item, E::Item, F::Item, G::Item, H::Item, I::Item);

    type State = (A::State, B::State, C::State, D::State, E::State, F::State, G::State, H::State, I::State);

    type Fetch = (A::Fetch, B::Fetch, C::Fetch, D::Fetch, E::Fetch, F::Fetch, G::Fetch, H::Fetch, I::Fetch);

    open spec fn cursor_ok(&self, fetch: (A::Fetch, B::Fetch, C::Fetch, D::Fetch, E::Fetch, F::Fetch, G::Fetch, H::Fetch, I::Fetch)) -> bool {
        self.0.cursor_ok(fetch.0)
            && self.1.cursor_ok(fetch.1)
            && self.2.cursor_ok(fetch.2)
            && self.3.cursor_ok(fetch.3)
            && self.4.cursor_ok(fetch.4)
            && self.5.cursor_ok(fetch.5)
            && self.6.cursor_ok(fetch.6)
            && self.7.cursor_ok(fetch.7)
            && self.8.cursor_ok(fetch.8)
            && self.1.cursor_index(fetch.1) == self.0.cursor_index(fetch.0)
            && self.2.cursor_index(fetch.2) == self.0.cursor_index(fetch.0)
            && self.3.cursor_index(fetch.3) == self.0.cursor_index(fetch.0)
            && self.4.cursor_index(fetch.4) == self.0.cursor_index(fetch.0)
            && self.5.cursor_index(fetch.5) == self.0.cursor_index(fetch.0)
            && self.6.cursor_index(fetch.6) == self.0.cursor_index(fetch.0)
            && self.7.cursor_index(fetch.7) == self.0.cursor_index(fetch.0)
            && self.8.cursor_index(fetch.8) == self.0.cursor_index(fetch.0)
            && self.1.cursor_tick(fetch.1) == self.0.cursor_tick(fetch.0)
            && self.2.cursor_tick(fetch.2) == self.0.cursor_tick(fetch.0)
            && self.3.cursor_tick(fetch.3) == self.0.cursor_tick(fetch.0)
            && self.4.cursor_tick(fetch.4) == self.0.cursor_tick(fetch.0)
            && self.5.cursor_tick(fetch.5) == self.0.cursor_tick(fetch.0)
            && self.6.cursor_tick(fetch.6) == self.0.cursor_tick(fetch.0)
            && self.7.cursor_tick(fetch.7) == self.0.cursor_tick(fetch.0)
            && self.8.cursor_tick(fetch.8) == self.0.cursor_tick(fetch.0)
    }

    open spec fn cursor_index(&self, fetch: (A::Fetch, B::Fetch, C::Fetch, D::Fetch, E::Fetch, F::Fetch, G::Fetch, H::Fetch, I::Fetch)) -> ArchetypeWorldIndex {
        self.0.cursor_index(fetch.0)
    }

    open spec fn cursor_tick(&self, fetch: (A::Fetch, B::Fetch, C::Fetch, D::Fetch, E::Fetch, F::Fetch, G::Fetch, H::Fetch, I::Fetch)) -> Tick {
        self.0.cursor_tick(fetch.0)
    }

    open spec fn rejects(&self, columns: Seq<ComponentInfo>) -> bool {
        self.0.rejects(columns)
            || self.1.rejects(columns)
            || self.2.rejects(columns)
            || self.3.rejects(columns)
            || self.4.rejects(columns)
            || self.5.rejects(columns)
            || self.6.rejects(columns)
            || self.7.rejects(columns)
            || self.8.rejects(columns)
    }

    open spec fn reads(&self) -> Seq<ComponentIndex> {
        self.0.reads()
            + self.1.reads()
            + self.2.reads()
            + self.3.reads()
            + self.4.reads()
            + self.5.reads()
            + self.6.reads()
            + self.7.reads()
            + self.8.reads()
    }

    open spec fn writes(&self) -> Seq<ComponentIndex> {
        self.0.writes()
            + self.1.writes()
            + self.2.writes()
            + self.3.writes()
            + self.4.writes()
            + self.5.writes()
            + self.6.writes()
            + self.7.writes()
            + self.8.writes()
    }

    open spec fn state_for(&self, columns: Seq<ComponentInfo>, state: (A::State, B::State, C::State, D::State, E::State, F::State, G::State, H::State, I::State)) -> bool {
        self.0.state_for(columns, state.0)
            && self.1.state_for(columns, state.1)
            && self.2.state_for(columns, state.2)
            && self.3.state_for(columns, state.3)
            && self.4.state_for(columns, state.4)
            && self.5.state_for(columns, state.5)
            && self.6.state_for(columns, state.6)
            && self.7.state_for(columns, state.7)
            && self.8.state_for(columns, state.8)
    }

    open spec fn is_item(
        &self,
        world: World,
        index: ArchetypeWorldIndex,
        row: Row,
        e: Entity,
        item: (A::Item, B::Item, C::Item, D::Item, E::Item, F::Item, G::Item, H::Item, I::Item),
    ) -> bool {
        self.0.is_item(world, index, row, e, item.0)
            && self.1.is_item(world, index, row, e, item.1)
            && self.2.is_item(world, index, row, e, item.2)
            && self.3.is_item(world, index, row, e, item.3)
            && self.4.is_item(world, index, row, e, item.4)
            && self.5.is_item(world, index, row, e, item.5)
            && self.6.is_item(world, index, row, e, item.6)
            && self.7.is_item(world, index, row, e, item.7)
            && self.8.is_item(world, index, row, e, item.8)
    }

    fn init_read_write(&self, rw: &mut ReadWrite) {
        self.0.init_read_write(rw);
        self.1.init_read_write(rw);
        proof {
            assert(rw.reads@ =~= old(rw).reads@ + (self.0.reads() + self.1.reads()));
            assert(rw.writes@ =~= old(rw).writes@ + (self.0.writes() + self.1.writes()));
        }
        self.2.init_read_write(rw);
        proof {
            assert(rw.reads@ =~= old(rw).reads@ + (self.0.reads() + self.1.reads() + self.2.reads()));
            assert(rw.writes@ =~= old(rw).writes@ + (self.0.writes() + self.1.writes() + self.2.writes()));
        }
        self.3.init_read_write(rw);
        proof {
            assert(rw.reads@ =~= old(rw).reads@ + (self.0.reads() + self.1.reads() + self.2.reads() + self.3.reads()));
            assert(rw.writes@ =~= old(rw).writes@ + (self.0.writes() + self.1.writes() + self.2.writes() + self.3.writes()));
        }
        self.4.init_read_write(rw);
        proof {
            assert(rw.reads@ =~= old(rw).reads@ + (self.0.reads() + self.1.reads() + self.2.reads() + self.3.reads() + self.4.reads()));
            assert(rw.writes@ =~= old(rw).writes@ + (self.0.writes() + self.1.writes() + self.2.writes() + self.3.writes() + self.4.writes()));
        }
        self.5.init_read_write(rw);
        proof {
            assert(rw.reads@ =~= old(rw).reads@ + (self.0.reads() + self.1.reads() + self.2.reads() + self.3.reads() + self.4.reads() + self.5.reads()));
            assert(rw.writes@ =~= old(rw).writes@ + (self.0.writes() + self.1.writes() + self.2.writes() + self.3.writes() + self.4.writes() + self.5.writes()));
        }
        self.6.init_read_write(rw);
        proof {
            assert(rw.reads@ =~= old(rw).reads@ + (self.0.reads() + self.1.reads() + self.2.reads() + self.3.reads() + self.4.reads() + self.5.reads() + self.6.reads()));
            assert(rw.writes@ =~= old(rw).writes@ + (self.0.writes() + self.1.writes() + self.2.writes() + self.3.writes() + self.4.writes() + self.5.writes() + self.6.writes()));
        }
        self.7.init_read_write(rw);
        proof {
            assert(rw.reads@ =~= old(rw).reads@ + (self.0.reads() + self.1.reads() + self.2.reads() + self.3.reads() + self.4.reads() + self.5.reads() + self.6.reads() + self.7.reads()));
            assert(rw.writes@ =~= old(rw).writes@ + (self.0.writes() + self.1.writes() + self.2.writes() + self.3.writes() + self.4.writes() + self.5.writes() + self.6.writes() + self.7.writes()));
        }
        self.8.init_read_write(rw);
        proof {
            assert(rw.reads@ =~= old(rw).reads@ + (self.0.reads() + self.1.reads() + self.2.reads() + self.3.reads() + self.4.reads() + self.5.reads() + self.6.reads() + self.7.reads() + self.8.reads()));
            assert(rw.writes@ =~= old(rw).writes@ + (self.0.writes() + self.1.writes() + self.2.writes() + self.3.writes() + self.4.writes() + self.5.writes() + self.6.writes() + self.7.writes() + self.8.writes()));
        }
    }

    fn rejection(&self) -> (r: Reject) {
        let r0 = self.0.rejection();
        let x1 = self.1.rejection();
        let ghost g0 = r0;
        let ghost h1 = x1;
        let r1 = Reject::Either(Box::new(r0), Box::new(x1));
        proof {
            assert forall|columns: Seq<ComponentInfo>| #[trigger]
                r1.holds(columns) == (self.0.rejects(columns) || self.1.rejects(columns)) by {
                assert(r1.holds(columns) == (g0.holds(columns) || h1.holds(columns)));
            }
        }
        let x2 = self.2.rejection();
        let ghost g1 = r1;
        let ghost h2 = x2;
        let r2 = Reject::Either(Box::new(r1), Box::new(x2));
        proof {
            assert forall|columns: Seq<ComponentInfo>| #[trigger]
                r2.holds(columns) == (self.0.rejects(columns) || self.1.rejects(columns) || self.2.rejects(columns)) by {
                assert(r2.holds(columns) == (g1.holds(columns) || h2.holds(columns)));
            }
        }
        let x3 = self.3.rejection();
        let ghost g2 = r2;
        let ghost h3 = x3;
        let r3 = Reject::Either(Box::new(r2), Box::new(x3));
        proof {
            assert forall|columns: Seq<ComponentInfo>| #[trigger]
                r3.holds(columns) == (self.0.rejects(columns) || self.1.rejects(columns) || self.2.rejects(columns) || self.3.rejects(columns)) by {
                assert(r3.holds(columns) == (g2.holds(columns) || h3.holds(columns)));
            }
        }
        let x4 = self.4.rejection();
        let ghost g3 = r3;
        let ghost h4 = x4;
        let r4 = Reject::Either(Box::new(r3), Box::new(x4));
        proof {
            assert forall|columns: Seq<ComponentInfo>| #[trigger]
                r4.holds(columns) == (self.0.rejects(columns) || self.1.rejects(columns) || self.2.rejects(columns) || self.3.rejects(columns) || self.4.rejects(columns)) by {
                assert(r4.holds(columns) == (g3.holds(columns) || h4.holds(columns)));
            }
        }
        let x5 = self.5.rejection();
        let ghost g4 = r4;
        let ghost h5 = x5;
        let r5 = Reject::Either(Box::new(r4), Box::new(x5));
        proof {
            assert forall|columns: Seq<ComponentInfo>| #[trigger]
                r5.holds(columns) == (self.0.rejects(columns) || self.1.rejects(columns) || self.2.rejects(columns) || self.3.rejects(columns) || self.4.rejects(columns) || self.5.rejects(columns)) by {
                assert(r5.holds(columns) == (g4.holds(columns) || h5.holds(columns)));
            }
        }
        let x6 = self.6.rejection();
        let ghost g5 = r5;
        let ghost h6 = x6;
        let r6 = Reject::Either(Box::new(r5), Box::new(x6));
        proof {
            assert forall|columns: Seq<ComponentInfo>| #[trigger]
                r6.holds(columns) == (self.0.rejects(columns) || self.1.rejects(columns) || self.2.rejects(columns) || self.3.rejects(columns) || self.4.rejects(columns) || self.5.rejects(columns) || self.6.rejects(columns)) by {
                assert(r6.holds(columns) == (g5.holds(columns) || h6.holds(columns)));
            }
        }
        let x7 = self.7.rejection();
        let ghost g6 = r6;
        let ghost h7 = x7;
        let r7 = Reject::Either(Box::new(r6), Box::new(x7));
        proof {
            assert forall|columns: Seq<ComponentInfo>| #[trigger]
                r7.holds(columns) == (self.0.rejects(columns) || self.1.rejects(columns) || self.2.rejects(columns) || self.3.rejects(columns) || self.4.rejects(columns) || self.5.rejects(columns) || self.6.rejects(columns) || self.7.rejects(columns)) by {
                assert(r7.holds(columns) == (g6.holds(columns) || h7.holds(columns)));
            }
        }
        let x8 = self.8.rejection();
        let ghost g7 = r7;
        let ghost h8 = x8;
        let r8 = Reject::Either(Box::new(r7), Box::new(x8));
        proof {
            assert forall|columns: Seq<ComponentInfo>| #[trigger]
                r8.holds(columns) == (self.0.rejects(columns) || self.1.rejects(columns) || self.2.rejects(columns) || self.3.rejects(columns) || self.4.rejects(columns) || self.5.rejects(columns) || self.6.rejects(columns) || self.7.rejects(columns) || self.8.rejects(columns)) by {
                assert(r8.holds(columns) == (g7.holds(columns) || h8.holds(columns)));
            }
        }
        r8
    }

    fn archetype_filter(&self, archetype: &Archetype) -> (r: bool) {
        if self.0.archetype_filter(archetype) {
            return true;
        }
        if self.1.archetype_filter(archetype) {
            return true;
        }
        if self.2.archetype_filter(archetype) {
            return true;
        }
        if self.3.archetype_filter(archetype) {
            return true;
        }
        if self.4.archetype_filter(archetype) {
            return true;
        }
        if self.5.archetype_filter(archetype) {
            return true;
        }
        if self.6.archetype_filter(archetype) {
            return true;
        }
        if self.7.archetype_filter(archetype) {
            return true;
        }
        self.8.archetype_filter(archetype)
    }

    fn init_state(&self, world: &World, archetype: &Archetype) -> (state: (A::State, B::State, C::State, D::State, E::State, F::State, G::State, H::State, I::State)) {
        (self.0.init_state(world, archetype), self.1.init_state(world, archetype), self.2.init_state(world, archetype), self.3.init_state(world, archetype), self.4.init_state(world, archetype), self.5.init_state(world, archetype), self.6.init_state(world, archetype), self.7.init_state(world, archetype), self.8.init_state(world, archetype))
    }

    fn init_fetch(
        &self,
        world: &World,
        index: ArchetypeWorldIndex,
        state: &(A::State, B::State, C::State, D::State, E::State, F::State, G::State, H::State, I::State),
        tick: Tick,
    ) -> (fetch: (A::Fetch, B::Fetch, C::Fetch, D::Fetch, E::Fetch, F::Fetch, G::Fetch, H::Fetch, I::Fetch)) {
        (
            self.0.init_fetch(world, index, &state.0, tick),
            self.1.init_fetch(world, index, &state.1, tick),
            self.2.init_fetch(world, index, &state.2, tick),
            self.3.init_fetch(world, index, &state.3, tick),
            self.4.init_fetch(world, index, &state.4, tick),
            self.5.init_fetch(world, index, &state.5, tick),
            self.6.init_fetch(world, index, &state.6, tick),
            self.7.init_fetch(world, index, &state.7, tick),
            self.8.init_fetch(world, index, &state.8, tick),
        )
    }

    fn fetch(
        &self,
        world: &World,
        fetch: &(A::Fetch, B::Fetch, C::Fetch, D::Fetch, E::Fetch, F::Fetch, G::Fetch, H::Fetch, I::Fetch),
        state: &(A::State, B::State, C::State, D::State, E::State, F::State, G::State, H::State, I::State),
        row: Row,
        e: Entity,
    ) -> (item: (A::Item, B::Item, C::Item, D::Item, E::Item, F::Item, G::Item, H::Item, I::Item)) {
        (
            self.0.fetch(world, &fetch.0, &state.0, row, e),
            self.1.fetch(world, &fetch.1, &state.1, row, e),
            self.2.fetch(world, &fetch.2, &state.2, row, e),
            self.3.fetch(world, &fetch.3, &state.3, row, e),
            self.4.fetch(world, &fetch.4, &state.4, row, e),
            self.5.fetch(world, &fetch.5, &state.5, row, e),
            self.6.fetch(world, &fetch.6, &state.6, row, e),
            self.7.fetch(world, &fetch.7, &state.7, row, e),
            self.8.fetch(world, &fetch.8, &state.8, row, e),
        )
    }
}

/// 10 fetches together hand out their items together, and reject what
/// one of them rejects.
impl<A: FetchComponents, B: FetchComponents, C: FetchComponents, D: FetchComponents, E: FetchComponents, F: FetchComponents, G: FetchComponents, H: FetchComponents, I: FetchComponents, J: FetchComponents> FetchComponents for (A, B, C, D, E, F, G, H, I, J) {
    type Item = (A::Item, B::Item, C::Item, D::Item, E::Item, F::Item, G::Item, H::Item, I::Item, J::Item);

    type State = (A::State, B::State, C::State, D::State, E::State, F::State, G::State, H::State, I::State, J::State);

    type Fetch = (A::Fetch, B::Fetch, C::Fetch, D::Fetch, E::Fetch, F::Fetch, G::Fetch, H::Fetch, I::Fetch, J::Fetch);

    open spec fn cursor_ok(&self, fetch: (A::Fetch, B::Fetch, C::Fetch, D::Fetch, E::Fetch, F::Fetch, G::Fetch, H::Fetch, I::Fetch, J::Fetch)) -> bool {
        self.0.cursor_ok(fetch.0)
            && self.1.cursor_ok(fetch.1)
            && self.2.cursor_ok(fetch.2)
            && self.3.cursor_ok(fetch.3)
            && self.4.cursor_ok(fetch.4)
            && self.5.cursor_ok(fetch.5)
            && self.6.cursor_ok(fetch.6)
            && self.7.cursor_ok(fetch.7)
            && self.8.cursor_ok(fetch.8)
            && self.9.cursor_ok(fetch.9)
            && self.1.cursor_index(fetch.1) == self.0.cursor_index(fetch.0)
            && self.2.cursor_index(fetch.2) == self.0.cursor_index(fetch.0)
            && self.3.cursor_index(fetch.3) == self.0.cursor_index(fetch.0)
            && self.4.cursor_index(fetch.4) == self.0.cursor_index(fetch.0)
            && self.5.cursor_index(fetch.5) == self.0.cursor_index(fetch.0)
            && self.6.cursor_index(fetch.6) == self.0.cursor_index(fetch.0)
            && self.7.cursor_index(fetch.7) == self.0.cursor_index(fetch.0)
            && self.8.cursor_index(fetch.8) == self.0.cursor_index(fetch.0)
            && self.9.cursor_index(fetch.9) == self.0.cursor_index(fetch.0)
            && self.1.cursor_tick(fetch.1) == self.0.cursor_tick(fetch.0)
            && self.2.cursor_tick(fetch.2) == self.0.cursor_tick(fetch.0)
            && self.3.cursor_tick(fetch.3) == self.0.cursor_tick(fetch.0)
            && self.4.cursor_tick(fetch.4) == self.0.cursor_tick(fetch.0)
            && self.5.cursor_tick(fetch.5) == self.0.cursor_tick(fetch.0)
            && self.6.cursor_tick(fetch.6) == self.0.cursor_tick(fetch.0)
            && self.7.cursor_tick(fetch.7) == self.0.cursor_tick(fetch.0)
            && self.8.cursor_tick(fetch.8) == self.0.cursor_tick(fetch.0)
            && self.9.cursor_tick(fetch.9) == self.0.cursor_tick(fetch.0)
    }

    open spec fn cursor_index(&self, fetch: (A::Fetch, B::Fetch, C::Fetch, D::Fetch, E::Fetch, F::Fetch, G::Fetch, H::Fetch, I::Fetch, J::Fetch)) -> ArchetypeWorldIndex {
        self.0.cursor_index(fetch.0)
    }

    open spec fn cursor_tick(&self, fetch: (A::Fetch, B::Fetch, C::Fetch, D::Fetch, E::Fetch, F::Fetch, G::Fetch, H::Fetch, I::Fetch, J::Fetch)) -> Tick {
        self.0.cursor_tick(fetch.0)
    }

    open spec fn rejects(&self, columns: Seq<ComponentInfo>) -> bool {
        self.0.rejects(columns)
            || self.1.rejects(columns)
            || self.2.rejects(columns)
            || self.3.rejects(columns)
            || self.4.rejects(columns)
            || self.5.rejects(columns)
            || self.6.rejects(columns)
            || self.7.rejects(columns)
            || self.8.rejects(columns)
            || self.9.rejects(columns)
    }

    open spec fn reads(&self) -> Seq<ComponentIndex> {
        self.0.reads()
            + self.1.reads()
            + self.2.reads()
            + self.3.reads()
            + self.4.reads()
            + self.5.reads()
            + self.6.reads()
            + self.7.reads()
            + self.8.reads()
            + self.9.reads()
    }

    open spec fn writes(&self) -> Seq<ComponentIndex> {
        self.0.writes()
            + self.1.writes()
            + self.2.writes()
            + self.3.writes()
            + self.4.writes()
            + self.5.writes()
            + self.6.writes()
            + self.7.writes()
            + self.8.writes()
            + self.9.writes()
    }

    open spec fn state_for(&self, columns: Seq<ComponentInfo>, state: (A::State, B::State, C::State, D::State, E::State, F::State, G::State, H::State, I::State, J::State)) -> bool {
        self.0.state_for(columns, state.0)
            && self.1.state_for(columns, state.1)
            && self.2.state_for(columns, state.2)
            && self.3.state_for(columns, state.3)
            && self.4.state_for(columns, state.4)
            && self.5.state_for(columns, state.5)
            && self.6.state_for(columns, state.6)
            && self.7.state_for(columns, state.7)
            && self.8.state_for(columns, state.8)
            && self.9.state_for(columns, state.9)
    }

    open spec fn is_item(
        &self,
        world: World,
        index: ArchetypeWorldIndex,
        row: Row,
        e: Entity,
        item: (A::Item, B::Item, C::Item, D::Item, E::Item, F::Item, G::Item, H::Item, I::Item, J::Item),
    ) -> bool {
        self.0.is_item(world, index, row, e, item.0)
            && self.1.is_item(world, index, row, e, item.1)
            && self.2.is_item(world, index, row, e, item.2)
            && self.3.is_item(world, index, row, e, item.3)
            && self.4.is_item(world, index, row, e, item.4)
            && self.5.is_item(world, index, row, e, item.5)
            && self.6.is_item(world, index, row, e, item.6)
            && self.7.is_item(world, index, row, e, item.7)
            && self.8.is_item(world, index, row, e, item.8)
            && self.9.is_item(world, index, row, e, item.9)
    }

    fn init_read_write(&self, rw: &mut ReadWrite) {
        self.0.init_read_write(rw);
        self.1.init_read_write(rw);
        proof {
            assert(rw.reads@ =~= old(rw).reads@ + (self.0.reads() + self.1.reads()));
            assert(rw.writes@ =~= old(rw).writes@ + (self.0.writes() + self.1.writes()));
        }
        self.2.init_read_write(rw);
        proof {
            assert(rw.reads@ =~= old(rw).reads@ + (self.0.reads() + self.1.reads() + self.2.reads()));
            assert(rw.writes@ =~= old(rw).writes@ + (self.0.writes() + self.1.writes() + self.2.writes()));
        }
        self.3.init_read_write(rw);
        proof {
            assert(rw.reads@ =~= old(rw).reads@ + (self.0.reads() + self.1.reads() + self.2.reads() + self.3.reads()));
            assert(rw.writes@ =~= old(rw).writes@ + (self.0.writes() + self.1.writes() + self.2.writes() + self.3.writes()));
        }
        self.4.init_read_write(rw);
        proof {
            assert(rw.reads@ =~= old(rw).reads@ + (self.0.reads() + self.1.reads() + self.2.reads() + self.3.reads() + self.4.reads()));
            assert(rw.writes@ =~= old(rw).writes@ + (self.0.writes() + self.1.writes() + self.2.writes() + self.3.writes() + self.4.writes()));
        }
        self.5.init_read_write(rw);
        proof {
            assert(rw.reads@ =~= old(rw).reads@ + (self.0.reads() + self.1.reads() + self.2.reads() + self.3.reads() + self.4.reads() + self.5.reads()));
            assert(rw.writes@ =~= old(rw).writes@ + (self.0.writes() + self.1.writes() + self.2.writes() + self.3.writes() + self.4.writes() + self.5.writes()));
        }
        self.6.init_read_write(rw);
        proof {
            assert(rw.reads@ =~= old(rw).reads@ + (self.0.reads() + self.1.reads() + self.2.reads() + self.3.reads() + self.4.reads() + self.5.reads() + self.6.reads()));
            assert(rw.writes@ =~= old(rw).writes@ + (self.0.writes() + self.1.writes() + self.2.writes() + self.3.writes() + self.4.writes() + self.5.writes() + self.6.writes()));
        }
        self.7.init_read_write(rw);
        proof {
            assert(rw.reads@ =~= old(rw).reads@ + (self.0.reads() + self.1.reads() + self.2.reads() + self.3.reads() + self.4.reads() + self.5.reads() + self.6.reads() + self.7.reads()));
            assert(rw.writes@ =~= old(rw).writes@ + (self.0.writes() + self.1.writes() + self.2.writes() + self.3.writes() + self.4.writes() + self.5.writes() + self.6.writes() + self.7.writes()));
        }
        self.8.init_read_write(rw);
        proof {
            assert(rw.reads@ =~= old(rw).reads@ + (self.0.reads() + self.1.reads() + self.2.reads() + self.3.reads() + self.4.reads() + self.5.reads() + self.6.reads() + self.7.reads() + self.8.reads()));
            assert(rw.writes@ =~= old(rw).writes@ + (self.0.writes() + self.1.writes() + self.2.writes() + self.3.writes() + self.4.writes() + self.5.writes() + self.6.writes() + self.7.writes() + self.8.writes()));
        }
        self.9.init_read_write(rw);
        proof {
            assert(rw.reads@ =~= old(rw).reads@ + (self.0.reads() + self.1.reads() + self.2.reads() + self.3.reads() + self.4.reads() + self.5.reads() + self.6.reads() + self.7.reads() + self.8.reads() + self.9.reads()));
            assert(rw.writes@ =~= old(rw).writes@ + (self.0.writes() + self.1.writes() + self.2.writes() + self.3.writes() + self.4.writes() + self.5.writes() + self.6.writes() + self.7.writes() + self.8.writes() + self.9.writes()));
        }
    }

    fn rejection(&self) -> (r: Reject) {
        let r0 = self.0.rejection();
        let x1 = self.1.rejection();
        let ghost g0 = r0;
        let ghost h1 = x1;
        let r1 = Reject::Either(Box::new(r0), Box::new(x1));
        proof {
            assert forall|columns: Seq<ComponentInfo>| #[trigger]
                r1.holds(columns) == (self.0.rejects(columns) || self.1.rejects(columns)) by {
                assert(r1.holds(columns) == (g0.holds(columns) || h1.holds(columns)));
            }
        }
        let x2 = self.2.rejection();
        let ghost g1 = r1;
        let ghost h2 = x2;
        let r2 = Reject::Either(Box::new(r1), Box::new(x2));
        proof {
            assert forall|columns: Seq<ComponentInfo>| #[trigger]
                r2.holds(columns) == (self.0.rejects(columns) || self.1.rejects(columns) || self.2.rejects(columns)) by {
                assert(r2.holds(columns) == (g1.holds(columns) || h2.holds(columns)));
            }
        }
        let x3 = self.3.rejection();
        let ghost g2 = r2;
        let ghost h3 = x3;
        let r3 = Reject::Either(Box::new(r2), Box::new(x3));
        proof {
            assert forall|columns: Seq<ComponentInfo>| #[trigger]
                r3.holds(columns) == (self.0.rejects(columns) || self.1.rejects(columns) || self.2.rejects(columns) || self.3.rejects(columns)) by {
                assert(r3.holds(columns) == (g2.holds(columns) || h3.holds(columns)));
            }
        }
        let x4 = self.4.rejection();
        let ghost g3 = r3;
        let ghost h4 = x4;
        let r4 = Reject::Either(Box::new(r3), Box::new(x4));
        proof {
            assert forall|columns: Seq<ComponentInfo>| #[trigger]
                r4.holds(columns) == (self.0.rejects(columns) || self.1.rejects(columns) || self.2.rejects(columns) || self.3.rejects(columns) || self.4.rejects(columns)) by {
                assert(r4.holds(columns) == (g3.holds(columns) || h4.holds(columns)));
            }
        }
        let x5 = self.5.rejection();
        let ghost g4 = r4;
        let ghost h5 = x5;
        let r5 = Reject::Either(Box::new(r4), Box::new(x5));
        proof {
            assert forall|columns: Seq<ComponentInfo>| #[trigger]
                r5.holds(columns) == (self.0.rejects(columns) || self.1.rejects(columns) || self.2.rejects(columns) || self.3.rejects(columns) || self.4.rejects(columns) || self.5.rejects(columns)) by {
                assert(r5.holds(columns) == (g4.holds(columns) || h5.holds(columns)));
            }
        }
        let x6 = self.6.rejection();
        let ghost g5 = r5;
        let ghost h6 = x6;
        let r6 = Reject::Either(Box::new(r5), Box::new(x6));
        proof {
            assert forall|columns: Seq<ComponentInfo>| #[trigger]
                r6.holds(columns) == (self.0.rejects(columns) || self.1.rejects(columns) || self.2.rejects(columns) || self.3.rejects(columns) || self.4.rejects(columns) || self.5.rejects(columns) || self.6.rejects(columns)) by {
                assert(r6.holds(columns) == (g5.holds(columns) || h6.holds(columns)));
            }
        }
        let x7 = self.7.rejection();
        let ghost g6 = r6;
        let ghost h7 = x7;
        let r7 = Reject::Either(Box::new(r6), Box::new(x7));
        proof {
            assert forall|columns: Seq<ComponentInfo>| #[trigger]
                r7.holds(columns) == (self.0.rejects(columns) || self.1.rejects(columns) || self.2.rejects(columns) || self.3.rejects(columns) || self.4.rejects(columns) || self.5.rejects(columns) || self.6.rejects(columns) || self.7.rejects(columns)) by {
                assert(r7.holds(columns) == (g6.holds(columns) || h7.holds(columns)));
            }
        }
        let x8 = self.8.rejection();
        let ghost g7 = r7;
        let ghost h8 = x8;
        let r8 = Reject::Either(Box::new(r7), Box::new(x8));
        proof {
            assert forall|columns: Seq<ComponentInfo>| #[trigger]
                r8.holds(columns) == (self.0.rejects(columns) || self.1.rejects(columns) || self.2.rejects(columns) || self.3.rejects(columns) || self.4.rejects(columns) || self.5.rejects(columns) || self.6.rejects(columns) || self.7.rejects(columns) || self.8.rejects(columns)) by {
                assert(r8.holds(columns) == (g7.holds(columns) || h8.holds(columns)));
            }
        }
        let x9 = self.9.rejection();
        let ghost g8 = r8;
        let ghost h9 = x9;
        let r9 = Reject::Either(Box::new(r8), Box::new(x9));
        proof {
            assert forall|columns: Seq<ComponentInfo>| #[trigger]
                r9.holds(columns) == (self.0.rejects(columns) || self.1.rejects(columns) || self.2.rejects(columns) || self.3.rejects(columns) || self.4.rejects(columns) || self.5.rejects(columns) || self.6.rejects(columns) || self.7.rejects(columns) || self.8.rejects(columns) || self.9.rejects(columns)) by {
                assert(r9.holds(columns) == (g8.holds(columns) || h9.holds(columns)));
            }
        }
        r9
    }

    fn archetype_filter(&self, archetype: &Archetype) -> (r: bool) {
        if self.0.archetype_filter(archetype) {
            return true;
        }
        if self.1.archetype_filter(archetype) {
            return true;
        }
        if self.2.archetype_filter(archetype) {
            return true;
        }
        if self.3.archetype_filter(archetype) {
            return true;
        }
        if self.4.archetype_filter(archetype) {
            return true;
        }
        if self.5.archetype_filter(archetype) {
            return true;
        }
        if self.6.archetype_filter(archetype) {
            return true;
        }
        if self.7.archetype_filter(archetype) {
            return true;
        }
        if self.8.archetype_filter(archetype) {
            return true;
        }
        self.9.archetype_filter(archetype)
    }

    fn init_state(&self, world: &World, archetype: &Archetype) -> (state: (A::State, B::State, C::State, D::State, E::State, F::State, G::State, H::State, I::State, J::State)) {
        (self.0.init_state(world, archetype), self.1.init_state(world, archetype), self.2.init_state(world, archetype), self.3.init_state(world, archetype), self.4.init_state(world, archetype), self.5.init_state(world, archetype), self.6.init_state(world, archetype), self.7.init_state(world, archetype), self.8.init_state(world, archetype), self.9.init_state(world, archetype))
    }

    fn init_fetch(
        &self,
        world: &World,
        index: ArchetypeWorldIndex,
        state: &(A::State, B::State, C::State, D::State, E::State, F::State, G::State, H::State, I::State, J::State),
        tick: Tick,
    ) -> (fetch: (A::Fetch, B::Fetch, C::Fetch, D::Fetch, E::Fetch, F::Fetch, G::Fetch, H::Fetch, I::Fetch, J::Fetch)) {
        (
            self.0.init_fetch(world, index, &state.0, tick),
            self.1.init_fetch(world, index, &state.1, tick),
            self.2.init_fetch(world, index, &state.2, tick),
            self.3.init_fetch(world, index, &state.3, tick),
            self.4.init_fetch(world, index, &state.4, tick),
            self.5.init_fetch(world, index, &state.5, tick),
            self.6.init_fetch(world, index, &state.6, tick),
            self.7.init_fetch(world, index, &state.7, tick),
            self.8.init_fetch(world, index, &state.8, tick),
            self.9.init_fetch(world, index, &state.9, tick),
        )
    }

    fn fetch(
        &self,
        world: &World,
        fetch: &(A::Fetch, B::Fetch, C::Fetch, D::Fetch, E::Fetch, F::Fetch, G::Fetch, H::Fetch, I::Fetch, J::Fetch),
        state: &(A::State, B::State, C::State, D::State, E::State, F::State, G::State, H::State, I::State, J::State),
        row: Row,
        e: Entity,
    ) -> (item: (A::Item, B::Item, C::Item, D::Item, E::Item, F::Item, G::Item, H::Item, I::Item, J::Item)) {
        (
            self.0.fetch(world, &fetch.0, &state.0, row, e),
            self.1.fetch(world, &fetch.1, &state.1, row, e),
            self.2.fetch(world, &fetch.2, &state.2, row, e),
            self.3.fetch(world, &fetch.3, &state.3, row, e),
            self.4.fetch(world, &fetch.4, &state.4, row, e),
            self.5.fetch(world, &fetch.5, &state.5, row, e),
            self.6.fetch(world, &fetch.6, &state.6, row, e),
            self.7.fetch(world, &fetch.7, &state.7, row, e),
            self.8.fetch(world, &fetch.8, &state.8, row, e),
            self.9.fetch(world, &fetch.9, &state.9, row, e),
        )
    }
}

/// 11 fetches together hand out their items together, and reject what
/// one of them rejects.
impl<A: FetchComponents, B: FetchComponents, C: FetchComponents, D: FetchComponents, E: FetchComponents, F: FetchComponents, G: FetchComponents, H: FetchComponents, I: FetchComponents, J: FetchComponents, K: FetchComponents> FetchComponents for (A, B, C, D, E, F, G, H, I, J, K) {
    type Item = (A::Item, B::Item, C::Item, D::Item, E::Item, F::Item, G::Item, H::Item, I::Item, J::Item, K::Item);

    type State = (A::State, B::State, C::State, D::State, E::State, F::State, G::State, H::State, I::State, J::State, K::State);

    type Fetch = (A::Fetch, B::Fetch, C::Fetch, D::Fetch, E::Fetch, F::Fetch, G::Fetch, H::Fetch, I::Fetch, J::Fetch, K::Fetch);

    open spec fn cursor_ok(&self, fetch: (A::Fetch, B::Fetch, C::Fetch, D::Fetch, E::Fetch, F::Fetch, G::Fetch, H::Fetch, I::Fetch, J::Fetch, K::Fetch)) -> bool {
        self.0.cursor_ok(fetch.0)
            && self.1.cursor_ok(fetch.1)
            && self.2.cursor_ok(fetch.2)
            && self.3.cursor_ok(fetch.3)
            && self.4.cursor_ok(fetch.4)
            && self.5.cursor_ok(fetch.5)
            && self.6.cursor_ok(fetch.6)
            && self.7.cursor_ok(fetch.7)
            && self.8.cursor_ok(fetch.8)
            && self.9.cursor_ok(fetch.9)
            && self.10.cursor_ok(fetch.10)
            && self.1.cursor_index(fetch.1) == self.0.cursor_index(fetch.0)
            && self.2.cursor_index(fetch.2) == self.0.cursor_index(fetch.0)
            && self.3.cursor_index(fetch.3) == self.0.cursor_index(fetch.0)
            && self.4.cursor_index(fetch.4) == self.0.cursor_index(fetch.0)
            && self.5.cursor_index(fetch.5) == self.0.cursor_index(fetch.0)
            && self.6.cursor_index(fetch.6) == self.0.cursor_index(fetch.0)
            && self.7.cursor_index(fetch.7) == self.0.cursor_index(fetch.0)
            && self.8.cursor_index(fetch.8) == self.0.cursor_index(fetch.0)
            && self.9.cursor_index(fetch.9) == self.0.cursor_index(fetch.0)
            && self.10.cursor_index(fetch.10) == self.0.cursor_index(fetch.0)
            && self.1.cursor_tick(fetch.1) == self.0.cursor_tick(fetch.0)
            && self.2.cursor_tick(fetch.2) == self.0.cursor_tick(fetch.0)
            && self.3.cursor_tick(fetch.3) == self.0.cursor_tick(fetch.0)
            && self.4.cursor_tick(fetch.4) == self.0.cursor_tick(fetch.0)
            && self.5.cursor_tick(fetch.5) == self.0.cursor_tick(fetch.0)
            && self.6.cursor_tick(fetch.6) == self.0.cursor_tick(fetch.0)
            && self.7.cursor_tick(fetch.7) == self.0.cursor_tick(fetch.0)
            && self.8.cursor_tick(fetch.8) == self.0.cursor_tick(fetch.0)
            && self.9.cursor_tick(fetch.9) == self.0.cursor_tick(fetch.0)
            && self.10.cursor_tick(fetch.10) == self.0.cursor_tick(fetch.0)
    }

    open spec fn cursor_index(&self, fetch: (A::Fetch, B::Fetch, C::Fetch, D::Fetch, E::Fetch, F::Fetch, G::Fetch, H::Fetch, I::Fetch, J::Fetch, K::Fetch)) -> ArchetypeWorldIndex {
        self.0.cursor_index(fetch.0)
    }

    open spec fn cursor_tick(&self, fetch: (A::Fetch, B::Fetch, C::Fetch, D::Fetch, E::Fetch, F::Fetch, G::Fetch, H::Fetch, I::Fetch, J::Fetch, K::Fetch)) -> Tick {
        self.0.cursor_tick(fetch.0)
    }

    open spec fn rejects(&self, columns: Seq<ComponentInfo>) -> bool {
        self.0.rejects(columns)
            || self.1.rejects(columns)
            || self.2.rejects(columns)
            || self.3.rejects(columns)
            || self.4.rejects(columns)
            || self.5.rejects(columns)
            || self.6.rejects(columns)
            || self.7.rejects(columns)
            || self.8.rejects(columns)
            || self.9.rejects(columns)
            || self.10.rejects(columns)
    }

    open spec fn reads(&self) -> Seq<ComponentIndex> {
        self.0.reads()
            + self.1.reads()
            + self.2.reads()
            + self.3.reads()
            + self.4.reads()
            + self.5.reads()
            + self.6.reads()
            + self.7.reads()
            + self.8.reads()
            + self.9.reads()
            + self.10.reads()
    }

    open spec fn writes(&self) -> Seq<ComponentIndex> {
        self.0.writes()
            + self.1.writes()
            + self.2.writes()
            + self.3.writes()
            + self.4.writes()
            + self.5.writes()
            + self.6.writes()
            + self.7.writes()
            + self.8.writes()
            + self.9.writes()
            + self.10.writes()
    }

    open spec fn state_for(&self, columns: Seq<ComponentInfo>, state: (A::State, B::State, C::State, D::State, E::State, F::State, G::State, H::State, I::State, J::State, K::State)) -> bool {
        self.0.state_for(columns, state.0)
            && self.1.state_for(columns, state.1)
            && self.2.state_for(columns, state.2)
            && self.3.state_for(columns, state.3)
            && self.4.state_for(columns, state.4)
            && self.5.state_for(columns, state.5)
            && self.6.state_for(columns, state.6)
            && self.7.state_for(columns, state.7)
            && self.8.state_for(columns, state.8)
            && self.9.state_for(columns, state.9)
            && self.10.state_for(columns, state.10)
    }

    open spec fn is_item(
        &self,
        world: World,
        index: ArchetypeWorldIndex,
        row: Row,
        e: Entity,
        item: (A::Item, B::Item, C::Item, D::Item, E::Item, F::Item, G::Item, H::Item, I::Item, J::Item, K::Item),
    ) -> bool {
        self.0.is_item(world, index, row, e, item.0)
            && self.1.is_item(world, index, row, e, item.1)
            && self.2.is_item(world, index, row, e, item.2)
            && self.3.is_item(world, index, row, e, item.3)
            && self.4.is_item(world, index, row, e, item.4)
            && self.5.is_item(world, index, row, e, item.5)
            && self.6.is_item(world, index, row, e, item.6)
            && self.7.is_item(world, index, row, e, item.7)
            && self.8.is_item(world, index, row, e, item.8)
            && self.9.is_item(world, index, row, e, item.9)
            && self.10.is_item(world, index, row, e, item.10)
    }

    fn init_read_write(&self, rw: &mut ReadWrite) {
        self.0.init_read_write(rw);
        self.1.init_read_write(rw);
        proof {
            assert(rw.reads@ =~= old(rw).reads@ + (self.0.reads() + self.1.reads()));
            assert(rw.writes@ =~= old(rw).writes@ + (self.0.writes() + self.1.writes()));
        }
        self.2.init_read_write(rw);
        proof {
            assert(rw.reads@ =~= old(rw).reads@ + (self.0.reads() + self.1.reads() + self.2.reads()));
            assert(rw.writes@ =~= old(rw).writes@ + (self.0.writes() + self.1.writes() + self.2.writes()));
        }
        self.3.init_read_write(rw);
        proof {
            assert(rw.reads@ =~= old(rw).reads@ + (self.0.reads() + self.1.reads() + self.2.reads() + self.3.reads()));
            assert(rw.writes@ =~= old(rw).writes@ + (self.0.writes() + self.1.writes() + self.2.writes() + self.3.writes()));
        }
        self.4.init_read_write(rw);
        proof {
            assert(rw.reads@ =~= old(rw).reads@ + (self.0.reads() + self.1.reads() + self.2.reads() + self.3.reads() + self.4.reads()));
            assert(rw.writes@ =~= old(rw).writes@ + (self.0.writes() + self.1.writes() + self.2.writes() + self.3.writes() + self.4.writes()));
        }
        self.5.init_read_write(rw);
        proof {
            assert(rw.reads@ =~= old(rw).reads@ + (self.0.reads() + self.1.reads() + self.2.reads() + self.3.reads() + self.4.reads() + self.5.reads()));
            assert(rw.writes@ =~= old(rw).writes@ + (self.0.writes() + self.1.writes() + self.2.writes() + self.3.writes() + self.4.writes() + self.5.writes()));
        }
        self.6.init_read_write(rw);
        proof {
            assert(rw.reads@ =~= old(rw).reads@ + (self.0.reads() + self.1.reads() + self.2.reads() + self.3.reads() + self.4.reads() + self.5.reads() + self.6.reads()));
            assert(rw.writes@ =~= old(rw).writes@ + (self.0.writes() + self.1.writes() + self.2.writes() + self.3.writes() + self.4.writes() + self.5.writes() + self.6.writes()));
        }
        self.7.init_read_write(rw);
        proof {
            assert(rw.reads@ =~= old(rw).reads@ + (self.0.reads() + self.1.reads() + self.2.reads() + self.3.reads() + self.4.reads() + self.5.reads() + self.6.reads() + self.7.reads()));
            assert(rw.writes@ =~= old(rw).writes@ + (self.0.writes() + self.1.writes() + self.2.writes() + self.3.writes() + self.4.writes() + self.5.writes() + self.6.writes() + self.7.writes()));
        }
        self.8.init_read_write(rw);
        proof {
            assert(rw.reads@ =~= old(rw).reads@ + (self.0.reads() + self.1.reads() + self.2.reads() + self.3.reads() + self.4.reads() + self.5.reads() + self.6.reads() + self.7.reads() + self.8.reads()));
            assert(rw.writes@ =~= old(rw).writes@ + (self.0.writes() + self.1.writes() + self.2.writes() + self.3.writes() + self.4.writes() + self.5.writes() + self.6.writes() + self.7.writes() + self.8.writes()));
        }
        self.9.init_read_write(rw);
        proof {
            assert(rw.reads@ =~= old(rw).reads@ + (self.0.reads() + self.1.reads() + self.2.reads() + self.3.reads() + self.4.reads() + self.5.reads() + self.6.reads() + self.7.reads() + self.8.reads() + self.9.reads()));
            assert(rw.writes@ =~= old(rw).writes@ + (self.0.writes() + self.1.writes() + self.2.writes() + self.3.writes() + self.4.writes() + self.5.writes() + self.6.writes() + self.7.writes() + self.8.writes() + self.9.writes()));
        }
        self.10.init_read_write(rw);
        proof {
            assert(rw.reads@ =~= old(rw).reads@ + (self.0.reads() + self.1.reads() + self.2.reads() + self.3.reads() + self.4.reads() + self.5.reads() + self.6.reads() + self.7.reads() + self.8.reads() + self.9.reads() + self.10.reads()));
            assert(rw.writes@ =~= old(rw).writes@ + (self.0.writes() + self.1.writes() + self.2.writes() + self.3.writes() + self.4.writes() + self.5.writes() + self.6.writes() + self.7.writes() + self.8.writes() + self.9.writes() + self.10.writes()));
        }
    }

    fn rejection(&self) -> (r: Reject) {
        let r0 = self.0.rejection();
        let x1 = self.1.rejection();
        let ghost g0 = r0;
        let ghost h1 = x1;
        let r1 = Reject::Either(Box::new(r0), Box::new(x1));
        proof {
            assert forall|columns: Seq<ComponentInfo>| #[trigger]
                r1.holds(columns) == (self.0.rejects(columns) || self.1.rejects(columns)) by {
                assert(r1.holds(columns) == (g0.holds(columns) || h1.holds(columns)));
            }
        }
        let x2 = self.2.rejection();
        let ghost g1 = r1;
        let ghost h2 = x2;
        let r2 = Reject::Either(Box::new(r1), Box::new(x2));
        proof {
            assert forall|columns: Seq<ComponentInfo>| #[trigger]
                r2.holds(columns) == (self.0.rejects(columns) || self.1.rejects(columns) || self.2.rejects(columns)) by {
                assert(r2.holds(columns) == (g1.holds(columns) || h2.holds(columns)));
            }
        }
        let x3 = self.3.rejection();
        let ghost g2 = r2;
        let ghost h3 = x3;
        let r3 = Reject::Either(Box::new(r2), Box::new(x3));
        proof {
            assert forall|columns: Seq<ComponentInfo>| #[trigger]
                r3.holds(columns) == (self.0.rejects(columns) || self.1.rejects(columns) || self.2.rejects(columns) || self.3.rejects(columns)) by {
                assert(r3.holds(columns) == (g2.holds(columns) || h3.holds(columns)));
            }
        }
        let x4 = self.4.rejection();
        let ghost g3 = r3;
        let ghost h4 = x4;
        let r4 = Reject::Either(Box::new(r3), Box::new(x4));
        proof {
            assert forall|columns: Seq<ComponentInfo>| #[trigger]
                r4.holds(columns) == (self.0.rejects(columns) || self.1.rejects(columns) || self.2.rejects(columns) || self.3.rejects(columns) || self.4.rejects(columns)) by {
                assert(r4.holds(columns) == (g3.holds(columns) || h4.holds(columns)));
            }
        }
        let x5 = self.5.rejection();
        let ghost g4 = r4;
        let ghost h5 = x5;
        let r5 = Reject::Either(Box::new(r4), Box::new(x5));
        proof {
            assert forall|columns: Seq<ComponentInfo>| #[trigger]
                r5.holds(columns) == (self.0.rejects(columns) || self.1.rejects(columns) || self.2.rejects(columns) || self.3.rejects(columns) || self.4.rejects(columns) || self.5.rejects(columns)) by {
                assert(r5.holds(columns) == (g4.holds(columns) || h5.holds(columns)));
            }
        }
        let x6 = self.6.rejection();
        let ghost g5 = r5;
        let ghost h6 = x6;
        let r6 = Reject::Either(Box::new(r5), Box::new(x6));
        proof {
            assert forall|columns: Seq<ComponentInfo>| #[trigger]
                r6.holds(columns) == (self.0.rejects(columns) || self.1.rejects(columns) || self.2.rejects(columns) || self.3.rejects(columns) || self.4.rejects(columns) || self.5.rejects(columns) || self.6.rejects(columns)) by {
                assert(r6.holds(columns) == (g5.holds(columns) || h6.holds(columns)));
            }
        }
        let x7 = self.7.rejection();
        let ghost g6 = r6;
        let ghost h7 = x7;
        let r7 = Reject::Either(Box::new(r6), Box::new(x7));
        proof {
            assert forall|columns: Seq<ComponentInfo>| #[trigger]
                r7.holds(columns) == (self.0.rejects(columns) || self.1.rejects(columns) || self.2.rejects(columns) || self.3.rejects(columns) || self.4.rejects(columns) || self.5.rejects(columns) || self.6.rejects(columns) || self.7.rejects(columns)) by {
                assert(r7.holds(columns) == (g6.holds(columns) || h7.holds(columns)));
            }
        }
        let x8 = self.8.rejection();
        let ghost g7 = r7;
        let ghost h8 = x8;
        let r8 = Reject::Either(Box::new(r7), Box::new(x8));
        proof {
            assert forall|columns: Seq<ComponentInfo>| #[trigger]
                r8.holds(columns) == (self.0.rejects(columns) || self.1.rejects(columns) || self.2.rejects(columns) || self.3.rejects(columns) || self.4.rejects(columns) || self.5.rejects(columns) || self.6.rejects(columns) || self.7.rejects(columns) || self.8.rejects(columns)) by {
                assert(r8.holds(columns) == (g7.holds(columns) || h8.holds(columns)));
            }
        }
        let x9 = self.9.rejection();
        let ghost g8 = r8;
        let ghost h9 = x9;
        let r9 = Reject::Either(Box::new(r8), Box::new(x9));
        proof {
            assert forall|columns: Seq<ComponentInfo>| #[trigger]
                r9.holds(columns) == (self.0.rejects(columns) || self.1.rejects(columns) || self.2.rejects(columns) || self.3.rejects(columns) || self.4.rejects(columns) || self.5.rejects(columns) || self.6.rejects(columns) || self.7.rejects(columns) || self.8.rejects(columns) || self.9.rejects(columns)) by {
                assert(r9.holds(columns) == (g8.holds(columns) || h9.holds(columns)));
            }
        }
        let x10 = self.10.rejection();
        let ghost g9 = r9;
        let ghost h10 = x10;
        let r10 = Reject::Either(Box::new(r9), Box::new(x10));
        proof {
            assert forall|columns: Seq<ComponentInfo>| #[trigger]
                r10.holds(columns) == (self.0.rejects(columns) || self.1.rejects(columns) || self.2.rejects(columns) || self.3.rejects(columns) || self.4.rejects(columns) || self.5.rejects(columns) || self.6.rejects(columns) || self.7.rejects(columns) || self.8.rejects(columns) || self.9.rejects(columns) || self.10.rejects(columns)) by {
                assert(r10.holds(columns) == (g9.holds(columns) || h10.holds(columns)));
            }
        }
        r10
    }

    fn archetype_filter(&self, archetype: &Archetype) -> (r: bool) {
        if self.0.archetype_filter(archetype) {
            return true;
        }
        if self.1.archetype_filter(archetype) {
            return true;
        }
        if self.2.archetype_filter(archetype) {
            return true;
        }
        if self.3.archetype_filter(archetype) {
            return true;
        }
        if self.4.archetype_filter(archetype) {
            return true;
        }
        if self.5.archetype_filter(archetype) {
            return true;
        }
        if self.6.archetype_filter(archetype) {
            return true;
        }
        if self.7.archetype_filter(archetype) {
            return true;
        }
        if self.8.archetype_filter(archetype) {
            return true;
        }
        if self.9.archetype_filter(archetype) {
            return true;
        }
        self.10.archetype_filter(archetype)
    }

    fn init_state(&self, world: &World, archetype: &Archetype) -> (state: (A::State, B::State, C::State, D::State, E::State, F::State, G::State, H::State, I::State, J::State, K::State)) {
        (self.0.init_state(world, archetype), self.1.init_state(world, archetype), self.2.init_state(world, archetype), self.3.init_state(world, archetype), self.4.init_state(world, archetype), self.5.init_state(world, archetype), self.6.init_state(world, archetype), self.7.init_state(world, archetype), self.8.init_state(world, archetype), self.9.init_state(world, archetype), self.10.init_state(world, archetype))
    }

    fn init_fetch(
        &self,
        world: &World,
        index: ArchetypeWorldIndex,
        state: &(A::State, B::State, C::State, D::State, E::State, F::State, G::State, H::State, I::State, J::State, K::State),
        tick: Tick,
    ) -> (fetch: (A::Fetch, B::Fetch, C::Fetch, D::Fetch, E::Fetch, F::Fetch, G::Fetch, H::Fetch, I::Fetch, J::Fetch, K::Fetch)) {
        (
            self.0.init_fetch(world, index, &state.0, tick),
            self.1.init_fetch(world, index, &state.1, tick),
            self.2.init_fetch(world, index, &state.2, tick),
            self.3.init_fetch(world, index, &state.3, tick),
            self.4.init_fetch(world, index, &state.4, tick),
            self.5.init_fetch(world, index, &state.5, tick),
            self.6.init_fetch(world, index, &state.6, tick),
            self.7.init_fetch(world, index, &state.7, tick),
            self.8.init_fetch(world, index, &state.8, tick),
            self.9.init_fetch(world, index, &state.9, tick),
            self.10.init_fetch(world, index, &state.10, tick),
        )
    }

    fn fetch(
        &self,
        world: &World,
        fetch: &(A::Fetch, B::Fetch, C::Fetch, D::Fetch, E::Fetch, F::Fetch, G::Fetch, H::Fetch, I::Fetch, J::Fetch, K::Fetch),
        state: &(A::State, B::State, C::State, D::State, E::State, F::State, G::State, H::State, I::State, J::State, K::State),
        row: Row,
        e: Entity,
    ) -> (item: (A::Item, B::Item, C::Item, D::Item, E::Item, F::Item, G::Item, H::Item, I::Item, J::Item, K::Item)) {
        (
            self.0.fetch(world, &fetch.0, &state.0, row, e),
            self.1.fetch(world, &fetch.1, &state.1, row, e),
            self.2.fetch(world, &fetch.2, &state.2, row, e),
            self.3.fetch(world, &fetch.3, &state.3, row, e),
            self.4.fetch(world, &fetch.4, &state.4, row, e),
            self.5.fetch(world, &fetch.5, &state.5, row, e),
            self.6.fetch(world, &fetch.6, &state.6, row, e),
            self.7.fetch(world, &fetch.7, &state.7, row, e),
            self.8.fetch(world, &fetch.8, &state.8, row, e),
            self.9.fetch(world, &fetch.9, &state.9, row, e),
            self.10.fetch(world, &fetch.10, &state.10, row, e),
        )
    }
}

/// 12 fetches together hand out their items together, and reject what
/// one of them rejects.
impl<A: FetchComponents, B: FetchComponents, C: FetchComponents, D: FetchComponents, E: FetchComponents, F: FetchComponents, G: FetchComponents, H: FetchComponents, I: FetchComponents, J: FetchComponents, K: FetchComponents, L: FetchComponents> FetchComponents for (A, B, C, D, E, F, G, H, I, J, K, L) {
    type Item = (A::Item, B::Item, C::Item, D::Item, E::Item, F::Item, G::Item, H::Item, I::Item, J::Item, K::Item, L::Item);

    type State = (A::State, B::State, C::State, D::State, E::State, F::State, G::State, H::State, I::State, J::State, K::State, L::State);

    type Fetch = (A::Fetch, B::Fetch, C::Fetch, D::Fetch, E::Fetch, F::Fetch, G::Fetch, H::Fetch, I::Fetch, J::Fetch, K::Fetch, L::Fetch);

    open spec fn cursor_ok(&self, fetch: (A::Fetch, B::Fetch, C::Fetch, D::Fetch, E::Fetch, F::Fetch, G::Fetch, H::Fetch, I::Fetch, J::Fetch, K::Fetch, L::Fetch)) -> bool {
        self.0.cursor_ok(fetch.0)
            && self.1.cursor_ok(fetch.1)
            && self.2.cursor_ok(fetch.2)
            && self.3.cursor_ok(fetch.3)
            && self.4.cursor_ok(fetch.4)
            && self.5.cursor_ok(fetch.5)
            && self.6.cursor_ok(fetch.6)
            && self.7.cursor_ok(fetch.7)
            && self.8.cursor_ok(fetch.8)
            && self.9.cursor_ok(fetch.9)
            && self.10.cursor_ok(fetch.10)
            && self.11.cursor_ok(fetch.11)
            && self.1.cursor_index(fetch.1) == self.0.cursor_index(fetch.0)
            && self.2.cursor_index(fetch.2) == self.0.cursor_index(fetch.0)
            && self.3.cursor_index(fetch.3) == self.0.cursor_index(fetch.0)
            && self.4.cursor_index(fetch.4) == self.0.cursor_index(fetch.0)
            && self.5.cursor_index(fetch.5) == self.0.cursor_index(fetch.0)
            && self.6.cursor_index(fetch.6) == self.0.cursor_index(fetch.0)
            && self.7.cursor_index(fetch.7) == self.0.cursor_index(fetch.0)
            && self.8.cursor_index(fetch.8) == self.0.cursor_index(fetch.0)
            && self.9.cursor_index(fetch.9) == self.0.cursor_index(fetch.0)
            && self.10.cursor_index(fetch.10) == self.0.cursor_index(fetch.0)
            && self.11.cursor_index(fetch.11) == self.0.cursor_index(fetch.0)
            && self.1.cursor_tick(fetch.1) == self.0.cursor_tick(fetch.0)
            && self.2.cursor_tick(fetch.2) == self.0.cursor_tick(fetch.0)
            && self.3.cursor_tick(fetch.3) == self.0.cursor_tick(fetch.0)
            && self.4.cursor_tick(fetch.4) == self.0.cursor_tick(fetch.0)
            && self.5.cursor_tick(fetch.5) == self.0.cursor_tick(fetch.0)
            && self.6.cursor_tick(fetch.6) == self.0.cursor_tick(fetch.0)
            && self.7.cursor_tick(fetch.7) == self.0.cursor_tick(fetch.0)
            && self.8.cursor_tick(fetch.8) == self.0.cursor_tick(fetch.0)
            && self.9.cursor_tick(fetch.9) == self.0.cursor_tick(fetch.0)
            && self.10.cursor_tick(fetch.10) == self.0.cursor_tick(fetch.0)
            && self.11.cursor_tick(fetch.11) == self.0.cursor_tick(fetch.0)
    }

    open spec fn cursor_index(&self, fetch: (A::Fetch, B::Fetch, C::Fetch, D::Fetch, E::Fetch, F::Fetch, G::Fetch, H::Fetch, I::Fetch, J::Fetch, K::Fetch, L::Fetch)) -> ArchetypeWorldIndex {
        self.0.cursor_index(fetch.0)
    }

    open spec fn cursor_tick(&self, fetch: (A::Fetch, B::Fetch, C::Fetch, D::Fetch, E::Fetch, F::Fetch, G::Fetch, H::Fetch, I::Fetch, J::Fetch, K::Fetch, L::Fetch)) -> Tick {
        self.0.cursor_tick(fetch.0)
    }

    open spec fn rejects(&self, columns: Seq<ComponentInfo>) -> bool {
        self.0.rejects(columns)
            || self.1.rejects(columns)
            || self.2.rejects(columns)
            || self.3.rejects(columns)
            || self.4.rejects(columns)
            || self.5.rejects(columns)
            || self.6.rejects(columns)
            || self.7.rejects(columns)
            || self.8.rejects(columns)
            || self.9.rejects(columns)
            || self.10.rejects(columns)
            || self.11.rejects(columns)
    }

    open spec fn reads(&self) -> Seq<ComponentIndex> {
        self.0.reads()
            + self.1.reads()
            + self.2.reads()
            + self.3.reads()
            + self.4.reads()
            + self.5.reads()
            + self.6.reads()
            + self.7.reads()
            + self.8.reads()
            + self.9.reads()
            + self.10.reads()
            + self.11.reads()
    }

    open spec fn writes(&self) -> Seq<ComponentIndex> {
        self.0.writes()
            + self.1.writes()
            + self.2.writes()
            + self.3.writes()
            + self.4.writes()
            + self.5.writes()
            + self.6.writes()
            + self.7.writes()
            + self.8.writes()
            + self.9.writes()
            + self.10.writes()
            + self.11.writes()
    }

    open spec fn state_for(&self, columns: Seq<ComponentInfo>, state: (A::State, B::State, C::State, D::State, E::State, F::State, G::State, H::State, I::State, J::State, K::State, L::State)) -> bool {
        self.0.state_for(columns, state.0)
            && self.1.state_for(columns, state.1)
            && self.2.state_for(columns, state.2)
            && self.3.state_for(columns, state.3)
            && self.4.state_for(columns, state.4)
            && self.5.state_for(columns, state.5)
            && self.6.state_for(columns, state.6)
            && self.7.state_for(columns, state.7)
            && self.8.state_for(columns, state.8)
            && self.9.state_for(columns, state.9)
            && self.10.state_for(columns, state.10)
            && self.11.state_for(columns, state.11)
    }

    open spec fn is_item(
        &self,
        world: World,
        index: ArchetypeWorldIndex,
        row: Row,
        e: Entity,
        item: (A::Item, B::Item, C::Item, D::Item, E::Item, F::Item, G::Item, H::Item, I::Item, J::Item, K::Item, L::Item),
    ) -> bool {
        self.0.is_item(world, index, row, e, item.0)
            && self.1.is_item(world, index, row, e, item.1)
            && self.2.is_item(world, index, row, e, item.2)
            && self.3.is_item(world, index, row, e, item.3)
            && self.4.is_item(world, index, row, e, item.4)
            && self.5.is_item(world, index, row, e, item.5)
            && self.6.is_item(world, index, row, e, item.6)
            && self.7.is_item(world, index, row, e, item.7)
            && self.8.is_item(world, index, row, e, item.8)
            && self.9.is_item(world, index, row, e, item.9)
            && self.10.is_item(world, index, row, e, item.10)
            && self.11.is_item(world, index, row, e, item.11)
    }

    fn init_read_write(&self, rw: &mut ReadWrite) {
        self.0.init_read_write(rw);
        self.1.init_read_write(rw);
        proof {
            assert(rw.reads@ =~= old(rw).reads@ + (self.0.reads() + self.1.reads()));
            assert(rw.writes@ =~= old(rw).writes@ + (self.0.writes() + self.1.writes()));
        }
        self.2.init_read_write(rw);
        proof {
            assert(rw.reads@ =~= old(rw).reads@ + (self.0.reads() + self.1.reads() + self.2.reads()));
            assert(rw.writes@ =~= old(rw).writes@ + (self.0.writes() + self.1.writes() + self.2.writes()));
        }
        self.3.init_read_write(rw);
        proof {
            assert(rw.reads@ =~= old(rw).reads@ + (self.0.reads() + self.1.reads() + self.2.reads() + self.3.reads()));
            assert(rw.writes@ =~= old(rw).writes@ + (self.0.writes() + self.1.writes() + self.2.writes() + self.3.writes()));
        }
        self.4.init_read_write(rw);
        proof {
            assert(rw.reads@ =~= old(rw).reads@ + (self.0.reads() + self.1.reads() + self.2.reads() + self.3.reads() + self.4.reads()));
            assert(rw.writes@ =~= old(rw).writes@ + (self.0.writes() + self.1.writes() + self.2.writes() + self.3.writes() + self.4.writes()));
        }
        self.5.init_read_write(rw);
        proof {
            assert(rw.reads@ =~= old(rw).reads@ + (self.0.reads() + self.1.reads() + self.2.reads() + self.3.reads() + self.4.reads() + self.5.reads()));
            assert(rw.writes@ =~= old(rw).writes@ + (self.0.writes() + self.1.writes() + self.2.writes() + self.3.writes() + self.4.writes() + self.5.writes()));
        }
        self.6.init_read_write(rw);
        proof {
            assert(rw.reads@ =~= old(rw).reads@ + (self.0.reads() + self.1.reads() + self.2.reads() + self.3.reads() + self.4.reads() + self.5.reads() + self.6.reads()));
            assert(rw.writes@ =~= old(rw).writes@ + (self.0.writes() + self.1.writes() + self.2.writes() + self.3.writes() + self.4.writes() + self.5.writes() + self.6.writes()));
        }
        self.7.init_read_write(rw);
        proof {
            assert(rw.reads@ =~= old(rw).reads@ + (self.0.reads() + self.1.reads() + self.2.reads() + self.3.reads() + self.4.reads() + self.5.reads() + self.6.reads() + self.7.reads()));
            assert(rw.writes@ =~= old(rw).writes@ + (self.0.writes() + self.1.writes() + self.2.writes() + self.3.writes() + self.4.writes() + self.5.writes() + self.6.writes() + self.7.writes()));
        }
        self.8.init_read_write(rw);
        proof {
            assert(rw.reads@ =~= old(rw).reads@ + (self.0.reads() + self.1.reads() + self.2.reads() + self.3.reads() + self.4.reads() + self.5.reads() + self.6.reads() + self.7.reads() + self.8.reads()));
            assert(rw.writes@ =~= old(rw).writes@ + (self.0.writes() + self.1.writes() + self.2.writes() + self.3.writes() + self.4.writes() + self.5.writes() + self.6.writes() + self.7.writes() + self.8.writes()));
        }
        self.9.init_read_write(rw);
        proof {
            assert(rw.reads@ =~= old(rw).reads@ + (self.0.reads() + self.1.reads() + self.2.reads() + self.3.reads() + self.4.reads() + self.5.reads() + self.6.reads() + self.7.reads() + self.8.reads() + self.9.reads()));
            assert(rw.writes@ =~= old(rw).writes@ + (self.0.writes() + self.1.writes() + self.2.writes() + self.3.writes() + self.4.writes() + self.5.writes() + self.6.writes() + self.7.writes() + self.8.writes() + self.9.writes()));
        }
        self.10.init_read_write(rw);
        proof {
            assert(rw.reads@ =~= old(rw).reads@ + (self.0.reads() + self.1.reads() + self.2.reads() + self.3.reads() + self.4.reads() + self.5.reads() + self.6.reads() + self.7.reads() + self.8.reads() + self.9.reads() + self.10.reads()));
            assert(rw.writes@ =~= old(rw).writes@ + (self.0.writes() + self.1.writes() + self.2.writes() + self.3.writes() + self.4.writes() + self.5.writes() + self.6.writes() + self.7.writes() + self.8.writes() + self.9.writes() + self.10.writes()));
        }
        self.11.init_read_write(rw);
        proof {
            assert(rw.reads@ =~= old(rw).reads@ + (self.0.reads() + self.1.reads() + self.2.reads() + self.3.reads() + self.4.reads() + self.5.reads() + self.6.reads() + self.7.reads() + self.8.reads() + self.9.reads() + self.10.reads() + self.11.reads()));
            assert(rw.writes@ =~= old(rw).writes@ + (self.0.writes() + self.1.writes() + self.2.writes() + self.3.writes() + self.4.writes() + self.5.writes() + self.6.writes() + self.7.writes() + self.8.writes() + self.9.writes() + self.10.writes() + self.11.writes()));
        }
    }

    fn rejection(&self) -> (r: Reject) {
        let r0 = self.0.rejection();
        let x1 = self.1.rejection();
        let ghost g0 = r0;
        let ghost h1 = x1;
        let r1 = Reject::Either(Box::new(r0), Box::new(x1));
        proof {
            assert forall|columns: Seq<ComponentInfo>| #[trigger]
                r1.holds(columns) == (self.0.rejects(columns) || self.1.rejects(columns)) by {
                assert(r1.holds(columns) == (g0.holds(columns) || h1.holds(columns)));
            }
        }
        let x2 = self.2.rejection();
        let ghost g1 = r1;
        let ghost h2 = x2;
        let r2 = Reject::Either(Box::new(r1), Box::new(x2));
        proof {
            assert forall|columns: Seq<ComponentInfo>| #[trigger]
                r2.holds(columns) == (self.0.rejects(columns) || self.1.rejects(columns) || self.2.rejects(columns)) by {
                assert(r2.holds(columns) == (g1.holds(columns) || h2.holds(columns)));
            }
        }
        let x3 = self.3.rejection();
        let ghost g2 = r2;
        let ghost h3 = x3;
        let r3 = Reject::Either(Box::new(r2), Box::new(x3));
        proof {
            assert forall|columns: Seq<ComponentInfo>| #[trigger]
                r3.holds(columns) == (self.0.rejects(columns) || self.1.rejects(columns) || self.2.rejects(columns) || self.3.rejects(columns)) by {
                assert(r3.holds(columns) == (g2.holds(columns) || h3.holds(columns)));
            }
        }
        let x4 = self.4.rejection();
        let ghost g3 = r3;
        let ghost h4 = x4;
        let r4 = Reject::Either(Box::new(r3), Box::new(x4));
        proof {
            assert forall|columns: Seq<ComponentInfo>| #[trigger]
                r4.holds(columns) == (self.0.rejects(columns) || self.1.rejects(columns) || self.2.rejects(columns) || self.3.rejects(columns) || self.4.rejects(columns)) by {
                assert(r4.holds(columns) == (g3.holds(columns) || h4.holds(columns)));
            }
        }
        let x5 = self.5.rejection();
        let ghost g4 = r4;
        let ghost h5 = x5;
        let r5 = Reject::Either(Box::new(r4), Box::new(x5));
        proof {
            assert forall|columns: Seq<ComponentInfo>| #[trigger]
                r5.holds(columns) == (self.0.rejects(columns) || self.1.rejects(columns) || self.2.rejects(columns) || self.3.rejects(columns) || self.4.rejects(columns) || self.5.rejects(columns)) by {
                assert(r5.holds(columns) == (g4.holds(columns) || h5.holds(columns)));
            }
        }
        let x6 = self.6.rejection();
        let ghost g5 = r5;
        let ghost h6 = x6;
        let r6 = Reject::Either(Box::new(r5), Box::new(x6));
        proof {
            assert forall|columns: Seq<ComponentInfo>| #[trigger]
                r6.holds(columns) == (self.0.rejects(columns) || self.1.rejects(columns) || self.2.rejects(columns) || self.3.rejects(columns) || self.4.rejects(columns) || self.5.rejects(columns) || self.6.rejects(columns)) by {
                assert(r6.holds(columns) == (g5.holds(columns) || h6.holds(columns)));
            }
        }
        let x7 = self.7.rejection();
        let ghost g6 = r6;
        let ghost h7 = x7;
        let r7 = Reject::Either(Box::new(r6), Box::new(x7));
        proof {
            assert forall|columns: Seq<ComponentInfo>| #[trigger]
                r7.holds(columns) == (self.0.rejects(columns) || self.1.rejects(columns) || self.2.rejects(columns) || self.3.rejects(columns) || self.4.rejects(columns) || self.5.rejects(columns) || self.6.rejects(columns) || self.7.rejects(columns)) by {
                assert(r7.holds(columns) == (g6.holds(columns) || h7.holds(columns)));
            }
        }
        let x8 = self.8.rejection();
        let ghost g7 = r7;
        let ghost h8 = x8;
        let r8 = Reject::Either(Box::new(r7), Box::new(x8));
        proof {
            assert forall|columns: Seq<ComponentInfo>| #[trigger]
                r8.holds(columns) == (self.0.rejects(columns) || self.1.rejects(columns) || self.2.rejects(columns) || self.3.rejects(columns) || self.4.rejects(columns) || self.5.rejects(columns) || self.6.rejects(columns) || self.7.rejects(columns) || self.8.rejects(columns)) by {
                assert(r8.holds(columns) == (g7.holds(columns) || h8.holds(columns)));
            }
        }
        let x9 = self.9.rejection();
        let ghost g8 = r8;
        let ghost h9 = x9;
        let r9 = Reject::Either(Box::new(r8), Box::new(x9));
        proof {
            assert forall|columns: Seq<ComponentInfo>| #[trigger]
                r9.holds(columns) == (self.0.rejects(columns) || self.1.rejects(columns) || self.2.rejects(columns) || self.3.rejects(columns) || self.4.rejects(columns) || self.5.rejects(columns) || self.6.rejects(columns) || self.7.rejects(columns) || self.8.rejects(columns) || self.9.rejects(columns)) by {
                assert(r9.holds(columns) == (g8.holds(columns) || h9.holds(columns)));
            }
        }
        let x10 = self.10.rejection();
        let ghost g9 = r9;
        let ghost h10 = x10;
        let r10 = Reject::Either(Box::new(r9), Box::new(x10));
        proof {
            assert forall|columns: Seq<ComponentInfo>| #[trigger]
                r10.holds(columns) == (self.0.rejects(columns) || self.1.rejects(columns) || self.2.rejects(columns) || self.3.rejects(columns) || self.4.rejects(columns) || self.5.rejects(columns) || self.6.rejects(columns) || self.7.rejects(columns) || self.8.rejects(columns) || self.9.rejects(columns) || self.10.rejects(columns)) by {
                assert(r10.holds(columns) == (g9.holds(columns) || h10.holds(columns)));
            }
        }
        let x11 = self.11.rejection();
        let ghost g10 = r10;
        let ghost h11 = x11;
        let r11 = Reject::Either(Box::new(r10), Box::new(x11));
        proof {
            assert forall|columns: Seq<ComponentInfo>| #[trigger]
                r11.holds(columns) == (self.0.rejects(columns) || self.1.rejects(columns) || self.2.rejects(columns) || self.3.rejects(columns) || self.4.rejects(columns) || self.5.rejects(columns) || self.6.rejects(columns) || self.7.rejects(columns) || self.8.rejects(columns) || self.9.rejects(columns) || self.10.rejects(columns) || self.11.rejects(columns)) by {
                assert(r11.holds(columns) == (g10.holds(columns) || h11.holds(columns)));
            }
        }
        r11
    }

    fn archetype_filter(&self, archetype: &Archetype) -> (r: bool) {
        if self.0.archetype_filter(archetype) {
            return true;
        }
        if self.1.archetype_filter(archetype) {
            return true;
        }
        if self.2.archetype_filter(archetype) {
            return true;
        }
        if self.3.archetype_filter(archetype) {
            return true;
        }
        if self.4.archetype_filter(archetype) {
            return true;
        }
        if self.5.archetype_filter(archetype) {
            return true;
        }
        if self.6.archetype_filter(archetype) {
            return true;
        }
        if self.7.archetype_filter(archetype) {
            return true;
        }
        if self.8.archetype_filter(archetype) {
            return true;
        }
        if self.9.archetype_filter(archetype) {
            return true;
        }
        if self.10.archetype_filter(archetype) {
            return true;
        }
        self.11.archetype_filter(archetype)
    }

    fn init_state(&self, world: &World, archetype: &Archetype) -> (state: (A::State, B::State, C::State, D::State, E::State, F::State, G::State, H::State, I::State, J::State, K::State, L::State)) {
        (self.0.init_state(world, archetype), self.1.init_state(world, archetype), self.2.init_state(world, archetype), self.3.init_state(world, archetype), self.4.init_state(world, archetype), self.5.init_state(world, archetype), self.6.init_state(world, archetype), self.7.init_state(world, archetype), self.8.init_state(world, archetype), self.9.init_state(world, archetype), self.10.init_state(world, archetype), self.11.init_state(world, archetype))
    }

    fn init_fetch(
        &self,
        world: &World,
        index: ArchetypeWorldIndex,
        state: &(A::State, B::State, C::State, D::State, E::State, F::State, G::State, H::State, I::State, J::State, K::State, L::State),
        tick: Tick,
    ) -> (fetch: (A::Fetch, B::Fetch, C::Fetch, D::Fetch, E::Fetch, F::Fetch, G::Fetch, H::Fetch, I::Fetch, J::Fetch, K::Fetch, L::Fetch)) {
        (
            self.0.init_fetch(world, index, &state.0, tick),
            self.1.init_fetch(world, index, &state.1, tick),
            self.2.init_fetch(world, index, &state.2, tick),
            self.3.init_fetch(world, index, &state.3, tick),
            self.4.init_fetch(world, index, &state.4, tick),
            self.5.init_fetch(world, index, &state.5, tick),
            self.6.init_fetch(world, index, &state.6, tick),
            self.7.init_fetch(world, index, &state.7, tick),
            self.8.init_fetch(world, index, &state.8, tick),
            self.9.init_fetch(world, index, &state.9, tick),
            self.10.init_fetch(world, index, &state.10, tick),
            self.11.init_fetch(world, index, &state.11, tick),
        )
    }

    fn fetch(
        &self,
        world: &World,
        fetch: &(A::Fetch, B::Fetch, C::Fetch, D::Fetch, E::Fetch, F::Fetch, G::Fetch, H::Fetch, I::Fetch, J::Fetch, K::Fetch, L::Fetch),
        state: &(A::State, B::State, C::State, D::State, E::State, F::State, G::State, H::State, I::State, J::State, K::State, L::State),
        row: Row,
        e: Entity,
    ) -> (item: (A::Item, B::Item, C::Item, D::Item, E::Item, F::Item, G::Item, H::Item, I::Item, J::Item, K::Item, L::Item)) {
        (
            self.0.fetch(world, &fetch.0, &state.0, row, e),
            self.1.fetch(world, &fetch.1, &state.1, row, e),
            self.2.fetch(world, &fetch.2, &state.2, row, e),
            self.3.fetch(world, &fetch.3, &state.3, row, e),
            self.4.fetch(world, &fetch.4, &state.4, row, e),
            self.5.fetch(world, &fetch.5, &state.5, row, e),
            self.6.fetch(world, &fetch.6, &state.6, row, e),
            self.7.fetch(world, &fetch.7, &state.7, row, e),
            self.8.fetch(world, &fetch.8, &state.8, row, e),
            self.9.fetch(world, &fetch.9, &state.9, row, e),
            self.10.fetch(world, &fetch.10, &state.10, row, e),
            self.11.fetch(world, &fetch.11, &state.11, row, e),
        )
    }
}

/// 13 fetches together hand out their items together, and reject what
/// one of them rejects.
impl<A: FetchComponents, B: FetchComponents, C: FetchComponents, D: FetchComponents, E: FetchComponents, F: FetchComponents, G: FetchComponents, H: FetchComponents, I: FetchComponents, J: FetchComponents, K: FetchComponents, L: FetchComponents, M: FetchComponents> FetchComponents for (A, B, C, D, E, F, G, H, I, J, K, L, M) {
    type Item = (A::Item, B::Item, C::Item, D::Item, E::Item, F::Item, G::Item, H::Item, I::Item, J::Item, K::Item, L::Item, M::Item);

    type State = (A::State, B::State, C::State, D::State, E::State, F::State, G::State, H::State, I::State, J::State, K::State, L::State, M::State);

    type Fetch = (A::Fetch, B::Fetch, C::Fetch, D::Fetch, E::Fetch, F::Fetch, G::Fetch, H::Fetch, I::Fetch, J::Fetch, K::Fetch, L::Fetch, M::Fetch);

    open spec fn cursor_ok(&self, fetch: (A::Fetch, B::Fetch, C::Fetch, D::Fetch, E::Fetch, F::Fetch, G::Fetch, H::Fetch, I::Fetch, J::Fetch, K::Fetch, L::Fetch, M::Fetch)) -> bool {
        self.0.cursor_ok(fetch.0)
            && self.1.cursor_ok(fetch.1)
            && self.2.cursor_ok(fetch.2)
            && self.3.cursor_ok(fetch.3)
            && self.4.cursor_ok(fetch.4)
            && self.5.cursor_ok(fetch.5)
            && self.6.cursor_ok(fetch.6)
            && self.7.cursor_ok(fetch.7)
            && self.8.cursor_ok(fetch.8)
            && self.9.cursor_ok(fetch.9)
            && self.10.cursor_ok(fetch.10)
            && self.11.cursor_ok(fetch.11)
            && self.12.cursor_ok(fetch.12)
            && self.1.cursor_index(fetch.1) == self.0.cursor_index(fetch.0)
            && self.2.cursor_index(fetch.2) == self.0.cursor_index(fetch.0)
            && self.3.cursor_index(fetch.3) == self.0.cursor_index(fetch.0)
            && self.4.cursor_index(fetch.4) == self.0.cursor_index(fetch.0)
            && self.5.cursor_index(fetch.5) == self.0.cursor_index(fetch.0)
            && self.6.cursor_index(fetch.6) == self.0.cursor_index(fetch.0)
            && self.7.cursor_index(fetch.7) == self.0.cursor_index(fetch.0)
            && self.8.cursor_index(fetch.8) == self.0.cursor_index(fetch.0)
            && self.9.cursor_index(fetch.9) == self.0.cursor_index(fetch.0)
            && self.10.cursor_index(fetch.10) == self.0.cursor_index(fetch.0)
            && self.11.cursor_index(fetch.11) == self.0.cursor_index(fetch.0)
            && self.12.cursor_index(fetch.12) == self.0.cursor_index(fetch.0)
            && self.1.cursor_tick(fetch.1) == self.0.cursor_tick(fetch.0)
            && self.2.cursor_tick(fetch.2) == self.0.cursor_tick(fetch.0)
            && self.3.cursor_tick(fetch.3) == self.0.cursor_tick(fetch.0)
            && self.4.cursor_tick(fetch.4) == self.0.cursor_tick(fetch.0)
            && self.5.cursor_tick(fetch.5) == self.0.cursor_tick(fetch.0)
            && self.6.cursor_tick(fetch.6) == self.0.cursor_tick(fetch.0)
            && self.7.cursor_tick(fetch.7) == self.0.cursor_tick(fetch.0)
            && self.8.cursor_tick(fetch.8) == self.0.cursor_tick(fetch.0)
            && self.9.cursor_tick(fetch.9) == self.0.cursor_tick(fetch.0)
            && self.10.cursor_tick(fetch.10) == self.0.cursor_tick(fetch.0)
            && self.11.cursor_tick(fetch.11) == self.0.cursor_tick(fetch.0)
            && self.12.cursor_tick(fetch.12) == self.0.cursor_tick(fetch.0)
    }

    open spec fn cursor_index(&self, fetch: (A::Fetch, B::Fetch, C::Fetch, D::Fetch, E::Fetch, F::Fetch, G::Fetch, H::Fetch, I::Fetch, J::Fetch, K::Fetch, L::Fetch, M::Fetch)) -> ArchetypeWorldIndex {
        self.0.cursor_index(fetch.0)
    }

    open spec fn cursor_tick(&self, fetch: (A::Fetch, B::Fetch, C::Fetch, D::Fetch, E::Fetch, F::Fetch, G::Fetch, H::Fetch, I::Fetch, J::Fetch, K::Fetch, L::Fetch, M::Fetch)) -> Tick {
        self.0.cursor_tick(fetch.0)
    }

    open spec fn rejects(&self, columns: Seq<ComponentInfo>) -> bool {
        self.0.rejects(columns)
            || self.1.rejects(columns)
            || self.2.rejects(columns)
            || self.3.rejects(columns)
            || self.4.rejects(columns)
            || self.5.rejects(columns)
            || self.6.rejects(columns)
            || self.7.rejects(columns)
            || self.8.rejects(columns)
            || self.9.rejects(columns)
            || self.10.rejects(columns)
            || self.11.rejects(columns)
            || self.12.rejects(columns)
    }

    open spec fn reads(&self) -> Seq<ComponentIndex> {
        self.0.reads()
            + self.1.reads()
            + self.2.reads()
            + self.3.reads()
            + self.4.reads()
            + self.5.reads()
            + self.6.reads()
            + self.7.reads()
            + self.8.reads()
            + self.9.reads()
            + self.10.reads()
            + self.11.reads()
            + self.12.reads()
    }

    open spec fn writes(&self) -> Seq<ComponentIndex> {
        self.0.writes()
            + self.1.writes()
            + self.2.writes()
            + self.3.writes()
            + self.4.writes()
            + self.5.writes()
            + self.6.writes()
            + self.7.writes()
            + self.8.writes()
            + self.9.writes()
            + self.10.writes()
            + self.11.writes()
            + self.12.writes()
    }

    open spec fn state_for(&self, columns: Seq<ComponentInfo>, state: (A::State, B::State, C::State, D::State, E::State, F::State, G::State, H::State, I::State, J::State, K::State, L::State, M::State)) -> bool {
        self.0.state_for(columns, state.0)
            && self.1.state_for(columns, state.1)
            && self.2.state_for(columns, state.2)
            && self.3.state_for(columns, state.3)
            && self.4.state_for(columns, state.4)
            && self.5.state_for(columns, state.5)
            && self.6.state_for(columns, state.6)
            && self.7.state_for(columns, state.7)
            && self.8.state_for(columns, state.8)
            && self.9.state_for(columns, state.9)
            && self.10.state_for(columns, state.10)
            && self.11.state_for(columns, state.11)
            && self.12.state_for(columns, state.12)
    }

    open spec fn is_item(
        &self,
        world: World,
        index: ArchetypeWorldIndex,
        row: Row,
        e: Entity,
        item: (A::Item, B::Item, C::Item, D::Item, E::Item, F::Item, G::Item, H::Item, I::Item, J::Item, K::Item, L::Item, M::Item),
    ) -> bool {
        self.0.is_item(world, index, row, e, item.0)
            && self.1.is_item(world, index, row, e, item.1)
            && self.2.is_item(world, index, row, e, item.2)
            && self.3.is_item(world, index, row, e, item.3)
            && self.4.is_item(world, index, row, e, item.4)
            && self.5.is_item(world, index, row, e, item.5)
            && self.6.is_item(world, index, row, e, item.6)
            && self.7.is_item(world, index, row, e, item.7)
            && self.8.is_item(world, index, row, e, item.8)
            && self.9.is_item(world, index, row, e, item.9)
            && self.10.is_item(world, index, row, e, item.10)
            && self.11.is_item(world, index, row, e, item.11)
            && self.12.is_item(world, index, row, e, item.12)
    }

    fn init_read_write(&self, rw: &mut ReadWrite) {
        self.0.init_read_write(rw);
        self.1.init_read_write(rw);
        proof {
            assert(rw.reads@ =~= old(rw).reads@ + (self.0.reads() + self.1.reads()));
            assert(rw.writes@ =~= old(rw).writes@ + (self.0.writes() + self.1.writes()));
        }
        self.2.init_read_write(rw);
        proof {
            assert(rw.reads@ =~= old(rw).reads@ + (self.0.reads() + self.1.reads() + self.2.reads()));
            assert(rw.writes@ =~= old(rw).writes@ + (self.0.writes() + self.1.writes() + self.2.writes()));
        }
        self.3.init_read_write(rw);
        proof {
            assert(rw.reads@ =~= old(rw).reads@ + (self.0.reads() + self.1.reads() + self.2.reads() + self.3.reads()));
            assert(rw.writes@ =~= old(rw).writes@ + (self.0.writes() + self.1.writes() + self.2.writes() + self.3.writes()));
        }
        self.4.init_read_write(rw);
        proof {
            assert(rw.reads@ =~= old(rw).reads@ + (self.0.reads() + self.1.reads() + self.2.reads() + self.3.reads() + self.4.reads()));
            assert(rw.writes@ =~= old(rw).writes@ + (self.0.writes() + self.1.writes() + self.2.writes() + self.3.writes() + self.4.writes()));
        }
        self.5.init_read_write(rw);
        proof {
            assert(rw.reads@ =~= old(rw).reads@ + (self.0.reads() + self.1.reads() + self.2.reads() + self.3.reads() + self.4.reads() + self.5.reads()));
            assert(rw.writes@ =~= old(rw).writes@ + (self.0.writes() + self.1.writes() + self.2.writes() + self.3.writes() + self.4.writes() + self.5.writes()));
        }
        self.6.init_read_write(rw);
        proof {
            assert(rw.reads@ =~= old(rw).reads@ + (self.0.reads() + self.1.reads() + self.2.reads() + self.3.reads() + self.4.reads() + self.5.reads() + self.6.reads()));
            assert(rw.writes@ =~= old(rw).writes@ + (self.0.writes() + self.1.writes() + self.2.writes() + self.3.writes() + self.4.writes() + self.5.writes() + self.6.writes()));
        }
        self.7.init_read_write(rw);
        proof {
            assert(rw.reads@ =~= old(rw).reads@ + (self.0.reads() + self.1.reads() + self.2.reads() + self.3.reads() + self.4.reads() + self.5.reads() + self.6.reads() + self.7.reads()));
            assert(rw.writes@ =~= old(rw).writes@ + (self.0.writes() + self.1.writes() + self.2.writes() + self.3.writes() + self.4.writes() + self.5.writes() + self.6.writes() + self.7.writes()));
        }
        self.8.init_read_write(rw);
        proof {
            assert(rw.reads@ =~= old(rw).reads@ + (self.0.reads() + self.1.reads() + self.2.reads() + self.3.reads() + self.4.reads() + self.5.reads() + self.6.reads() + self.7.reads() + self.8.reads()));
            assert(rw.writes@ =~= old(rw).writes@ + (self.0.writes() + self.1.writes() + self.2.writes() + self.3.writes() + self.4.writes() + self.5.writes() + self.6.writes() + self.7.writes() + self.8.writes()));
        }
        self.9.init_read_write(rw);
        proof {
            assert(rw.reads@ =~= old(rw).reads@ + (self.0.reads() + self.1.reads() + self.2.reads() + self.3.reads() + self.4.reads() + self.5.reads() + self.6.reads() + self.7.reads() + self.8.reads() + self.9.reads()));
            assert(rw.writes@ =~= old(rw).writes@ + (self.0.writes() + self.1.writes() + self.2.writes() + self.3.writes() + self.4.writes() + self.5.writes() + self.6.writes() + self.7.writes() + self.8.writes() + self.9.writes()));
        }
        self.10.init_read_write(rw);
        proof {
            assert(rw.reads@ =~= old(rw).reads@ + (self.0.reads() + self.1.reads() + self.2.reads() + self.3.reads() + self.4.reads() + self.5.reads() + self.6.reads() + self.7.reads() + self.8.reads() + self.9.reads() + self.10.reads()));
            assert(rw.writes@ =~= old(rw).writes@ + (self.0.writes() + self.1.writes() + self.2.writes() + self.3.writes() + self.4.writes() + self.5.writes() + self.6.writes() + self.7.writes() + self.8.writes() + self.9.writes() + self.10.writes()));
        }
        self.11.init_read_write(rw);
        proof {
            assert(rw.reads@ =~= old(rw).reads@ + (self.0.reads() + self.1.reads() + self.2.reads() + self.3.reads() + self.4.reads() + self.5.reads() + self.6.reads() + self.7.reads() + self.8.reads() + self.9.reads() + self.10.reads() + self.11.reads()));
            assert(rw.writes@ =~= old(rw).writes@ + (self.0.writes() + self.1.writes() + self.2.writes() + self.3.writes() + self.4.writes() + self.5.writes() + self.6.writes() + self.7.writes() + self.8.writes() + self.9.writes() + self.10.writes() + self.11.writes()));
        }
        self.12.init_read_write(rw);
        proof {
            assert(rw.reads@ =~= old(rw).reads@ + (self.0.reads() + self.1.reads() + self.2.reads() + self.3.reads() + self.4.reads() + self.5.reads() + self.6.reads() + self.7.reads() + self.8.reads() + self.9.reads() + self.10.reads() + self.11.reads() + self.12.reads()));
            assert(rw.writes@ =~= old(rw).writes@ + (self.0.writes() + self.1.writes() + self.2.writes() + self.3.writes() + self.4.writes() + self.5.writes() + self.6.writes() + self.7.writes() + self.8.writes() + self.9.writes() + self.10.writes() + self.11.writes() + self.12.writes()));
        }
    }

    fn rejection(&self) -> (r: Reject) {
        let r0 = self.0.rejection();
        let x1 = self.1.rejection();
        let ghost g0 = r0;
        let ghost h1 = x1;
        let r1 = Reject::Either(Box::new(r0), Box::new(x1));
        proof {
            assert forall|columns: Seq<ComponentInfo>| #[trigger]
                r1.holds(columns) == (self.0.rejects(columns) || self.1.rejects(columns)) by {
                assert(r1.holds(columns) == (g0.holds(columns) || h1.holds(columns)));
            }
        }
        let x2 = self.2.rejection();
        let ghost g1 = r1;
        let ghost h2 = x2;
        let r2 = Reject::Either(Box::new(r1), Box::new(x2));
        proof {
            assert forall|columns: Seq<ComponentInfo>| #[trigger]
                r2.holds(columns) == (self.0.rejects(columns) || self.1.rejects(columns) || self.2.rejects(columns)) by {
                assert(r2.holds(columns) == (g1.holds(columns) || h2.holds(columns)));
            }
        }
        let x3 = self.3.rejection();
        let ghost g2 = r2;
        let ghost h3 = x3;
        let r3 = Reject::Either(Box::new(r2), Box::new(x3));
        proof {
            assert forall|columns: Seq<ComponentInfo>| #[trigger]
                r3.holds(columns) == (self.0.rejects(columns) || self.1.rejects(columns) || self.2.rejects(columns) || self.3.rejects(columns)) by {
                assert(r3.holds(columns) == (g2.holds(columns) || h3.holds(columns)));
            }
        }
        let x4 = self.4.rejection();
        let ghost g3 = r3;
        let ghost h4 = x4;
        let r4 = Reject::Either(Box::new(r3), Box::new(x4));
        proof {
            assert forall|columns: Seq<ComponentInfo>| #[trigger]
                r4.holds(columns) == (self.0.rejects(columns) || self.1.rejects(columns) || self.2.rejects(columns) || self.3.rejects(columns) || self.4.rejects(columns)) by {
                assert(r4.holds(columns) == (g3.holds(columns) || h4.holds(columns)));
            }
        }
        let x5 = self.5.rejection();
        let ghost g4 = r4;
        let ghost h5 = x5;
        let r5 = Reject::Either(Box::new(r4), Box::new(x5));
        proof {
            assert forall|columns: Seq<ComponentInfo>| #[trigger]
                r5.holds(columns) == (self.0.rejects(columns) || self.1.rejects(columns) || self.2.rejects(columns) || self.3.rejects(columns) || self.4.rejects(columns) || self.5.rejects(columns)) by {
                assert(r5.holds(columns) == (g4.holds(columns) || h5.holds(columns)));
            }
        }
        let x6 = self.6.rejection();
        let ghost g5 = r5;
        let ghost h6 = x6;
        let r6 = Reject::Either(Box::new(r5), Box::new(x6));
        proof {
            assert forall|columns: Seq<ComponentInfo>| #[trigger]
                r6.holds(columns) == (self.0.rejects(columns) || self.1.rejects(columns) || self.2.rejects(columns) || self.3.rejects(columns) || self.4.rejects(columns) || self.5.rejects(columns) || self.6.rejects(columns)) by {
                assert(r6.holds(columns) == (g5.holds(columns) || h6.holds(columns)));
            }
        }
        let x7 = self.7.rejection();
        let ghost g6 = r6;
        let ghost h7 = x7;
        let r7 = Reject::Either(Box::new(r6), Box::new(x7));
        proof {
            assert forall|columns: Seq<ComponentInfo>| #[trigger]
                r7.holds(columns) == (self.0.rejects(columns) || self.1.rejects(columns) || self.2.rejects(columns) || self.3.rejects(columns) || self.4.rejects(columns) || self.5.rejects(columns) || self.6.rejects(columns) || self.7.rejects(columns)) by {
                assert(r7.holds(columns) == (g6.holds(columns) || h7.holds(columns)));
            }
        }
        let x8 = self.8.rejection();
        let ghost g7 = r7;
        let ghost h8 = x8;
        let r8 = Reject::Either(Box::new(r7), Box::new(x8));
        proof {
            assert forall|columns: Seq<ComponentInfo>| #[trigger]
                r8.holds(columns) == (self.0.rejects(columns) || self.1.rejects(columns) || self.2.rejects(columns) || self.3.rejects(columns) || self.4.rejects(columns) || self.5.rejects(columns) || self.6.rejects(columns) || self.7.rejects(columns) || self.8.rejects(columns)) by {
                assert(r8.holds(columns) == (g7.holds(columns) || h8.holds(columns)));
            }
        }
        let x9 = self.9.rejection();
        let ghost g8 = r8;
        let ghost h9 = x9;
        let r9 = Reject::Either(Box::new(r8), Box::new(x9));
        proof {
            assert forall|columns: Seq<ComponentInfo>| #[trigger]
                r9.holds(columns) == (self.0.rejects(columns) || self.1.rejects(columns) || self.2.rejects(columns) || self.3.rejects(columns) || self.4.rejects(columns) || self.5.rejects(columns) || self.6.rejects(columns) || self.7.rejects(columns) || self.8.rejects(columns) || self.9.rejects(columns)) by {
                assert(r9.holds(columns) == (g8.holds(columns) || h9.holds(columns)));
            }
        }
        let x10 = self.10.rejection();
        let ghost g9 = r9;
        let ghost h10 = x10;
        let r10 = Reject::Either(Box::new(r9), Box::new(x10));
        proof {
            assert forall|columns: Seq<ComponentInfo>| #[trigger]
                r10.holds(columns) == (self.0.rejects(columns) || self.1.rejects(columns) || self.2.rejects(columns) || self.3.rejects(columns) || self.4.rejects(columns) || self.5.rejects(columns) || self.6.rejects(columns) || self.7.rejects(columns) || self.8.rejects(columns) || self.9.rejects(columns) || self.10.rejects(columns)) by {
                assert(r10.holds(columns) == (g9.holds(columns) || h10.holds(columns)));
            }
        }
        let x11 = self.11.rejection();
        let ghost g10 = r10;
        let ghost h11 = x11;
        let r11 = Reject::Either(Box::new(r10), Box::new(x11));
        proof {
            assert forall|columns: Seq<ComponentInfo>| #[trigger]
                r11.holds(columns) == (self.0.rejects(columns) || self.1.rejects(columns) || self.2.rejects(columns) || self.3.rejects(columns) || self.4.rejects(columns) || self.5.rejects(columns) || self.6.rejects(columns) || self.7.rejects(columns) || self.8.rejects(columns) || self.9.rejects(columns) || self.10.rejects(columns) || self.11.rejects(columns)) by {
                assert(r11.holds(columns) == (g10.holds(columns) || h11.holds(columns)));
            }
        }
        let x12 = self.12.rejection();
        let ghost g11 = r11;
        let ghost h12 = x12;
        let r12 = Reject::Either(Box::new(r11), Box::new(x12));
        proof {
            assert forall|columns: Seq<ComponentInfo>| #[trigger]
                r12.holds(columns) == (self.0.rejects(columns) || self.1.rejects(columns) || self.2.rejects(columns) || self.3.rejects(columns) || self.4.rejects(columns) || self.5.rejects(columns) || self.6.rejects(columns) || self.7.rejects(columns) || self.8.rejects(columns) || self.9.rejects(columns) || self.10.rejects(columns) || self.11.rejects(columns) || self.12.rejects(columns)) by {
                assert(r12.holds(columns) == (g11.holds(columns) || h12.holds(columns)));
            }
        }
        r12
    }

    fn archetype_filter(&self, archetype: &Archetype) -> (r: bool) {
        if self.0.archetype_filter(archetype) {
            return true;
        }
        if self.1.archetype_filter(archetype) {
            return true;
        }
        if self.2.archetype_filter(archetype) {
            return true;
        }
        if self.3.archetype_filter(archetype) {
            return true;
        }
        if self.4.archetype_filter(archetype) {
            return true;
        }
        if self.5.archetype_filter(archetype) {
            return true;
        }
        if self.6.archetype_filter(archetype) {
            return true;
        }
        if self.7.archetype_filter(archetype) {
            return true;
        }
        if self.8.archetype_filter(archetype) {
            return true;
        }
        if self.9.archetype_filter(archetype) {
            return true;
        }
        if self.10.archetype_filter(archetype) {
            return true;
        }
        if self.11.archetype_filter(archetype) {
            return true;
        }
        self.12.archetype_filter(archetype)
    }

    fn init_state(&self, world: &World, archetype: &Archetype) -> (state: (A::State, B::State, C::State, D::State, E::State, F::State, G::State, H::State, I::State, J::State, K::State, L::State, M::State)) {
        (self.0.init_state(world, archetype), self.1.init_state(world, archetype), self.2.init_state(world, archetype), self.3.init_state(world, archetype), self.4.init_state(world, archetype), self.5.init_state(world, archetype), self.6.init_state(world, archetype), self.7.init_state(world, archetype), self.8.init_state(world, archetype), self.9.init_state(world, archetype), self.10.init_state(world, archetype), self.11.init_state(world, archetype), self.12.init_state(world, archetype))
    }

    fn init_fetch(
        &self,
        world: &World,
        index: ArchetypeWorldIndex,
        state: &(A::State, B::State, C::State, D::State, E::State, F::State, G::State, H::State, I::State, J::State, K::State, L::State, M::State),
        tick: Tick,
    ) -> (fetch: (A::Fetch, B::Fetch, C::Fetch, D::Fetch, E::Fetch, F::Fetch, G::Fetch, H::Fetch, I::Fetch, J::Fetch, K::Fetch, L::Fetch, M::Fetch)) {
        (
            self.0.init_fetch(world, index, &state.0, tick),
            self.1.init_fetch(world, index, &state.1, tick),
            self.2.init_fetch(world, index, &state.2, tick),
            self.3.init_fetch(world, index, &state.3, tick),
            self.4.init_fetch(world, index, &state.4, tick),
            self.5.init_fetch(world, index, &state.5, tick),
            self.6.init_fetch(world, index, &state.6, tick),
            self.7.init_fetch(world, index, &state.7, tick),
            self.8.init_fetch(world, index, &state.8, tick),
            self.9.init_fetch(world, index, &state.9, tick),
            self.10.init_fetch(world, index, &state.10, tick),
            self.11.init_fetch(world, index, &state.11, tick),
            self.12.init_fetch(world, index, &state.12, tick),
        )
    }

    fn fetch(
        &self,
        world: &World,
        fetch: &(A::Fetch, B::Fetch, C::Fetch, D::Fetch, E::Fetch, F::Fetch, G::Fetch, H::Fetch, I::Fetch, J::Fetch, K::Fetch, L::Fetch, M::Fetch),
        state: &(A::State, B::State, C::State, D::State, E::State, F::State, G::State, H::State, I::State, J::State, K::State, L::State, M::State),
        row: Row,
        e: Entity,
    ) -> (item: (A::Item, B::Item, C::Item, D::Item, E::Item, F::Item, G::Item, H::Item, I::Item, J::Item, K::Item, L::Item, M::Item)) {
        (
            self.0.fetch(world, &fetch.0, &state.0, row, e),
            self.1.fetch(world, &fetch.1, &state.1, row, e),
            self.2.fetch(world, &fetch.2, &state.2, row, e),
            self.3.fetch(world, &fetch.3, &state.3, row, e),
            self.4.fetch(world, &fetch.4, &state.4, row, e),
            self.5.fetch(world, &fetch.5, &state.5, row, e),
            self.6.fetch(world, &fetch.6, &state.6, row, e),
            self.7.fetch(world, &fetch.7, &state.7, row, e),
            self.8.fetch(world, &fetch.8, &state.8, row, e),
            self.9.fetch(world, &fetch.9, &state.9, row, e),
            self.10.fetch(world, &fetch.10, &state.10, row, e),
            self.11.fetch(world, &fetch.11, &state.11, row, e),
            self.12.fetch(world, &fetch.12, &state.12, row, e),
        )
    }
}

/// 14 fetches together hand out their items together, and reject what
/// one of them rejects.
impl<A: FetchComponents, B: FetchComponents, C: FetchComponents, D: FetchComponents, E: FetchComponents, F: FetchComponents, G: FetchComponents, H: FetchComponents, I: FetchComponents, J: FetchComponents, K: FetchComponents, L: FetchComponents, M: FetchComponents, N: FetchComponents> FetchComponents for (A, B, C, D, E, F, G, H, I, J, K, L, M, N) {
    type Item = (A::Item, B::Item, C::Item, D::Item, E::Item, F::Item, G::Item, H::Item, I::Item, J::Item, K::Item, L::Item, M::Item, N::Item);

    type State = (A::State, B::State, C::State, D::State, E::State, F::State, G::State, H::State, I::State, J::State, K::State, L::State, M::State, N::State);

    type Fetch = (A::Fetch, B::Fetch, C::Fetch, D::Fetch, E::Fetch, F::Fetch, G::Fetch, H::Fetch, I::Fetch, J::Fetch, K::Fetch, L::Fetch, M::Fetch, N::Fetch);

    open spec fn cursor_ok(&self, fetch: (A::Fetch, B::Fetch, C::Fetch, D::Fetch, E::Fetch, F::Fetch, G::Fetch, H::Fetch, I::Fetch, J::Fetch, K::Fetch, L::Fetch, M::Fetch, N::Fetch)) -> bool {
        self.0.cursor_ok(fetch.0)
            && self.1.cursor_ok(fetch.1)
            && self.2.cursor_ok(fetch.2)
            && self.3.cursor_ok(fetch.3)
            && self.4.cursor_ok(fetch.4)
            && self.5.cursor_ok(fetch.5)
            && self.6.cursor_ok(fetch.6)
            && self.7.cursor_ok(fetch.7)
            && self.8.cursor_ok(fetch.8)
            && self.9.cursor_ok(fetch.9)
            && self.10.cursor_ok(fetch.10)
            && self.11.cursor_ok(fetch.11)
            && self.12.cursor_ok(fetch.12)
            && self.13.cursor_ok(fetch.13)
            && self.1.cursor_index(fetch.1) == self.0.cursor_index(fetch.0)
            && self.2.cursor_index(fetch.2) == self.0.cursor_index(fetch.0)
            && self.3.cursor_index(fetch.3) == self.0.cursor_index(fetch.0)
            && self.4.cursor_index(fetch.4) == self.0.cursor_index(fetch.0)
            && self.5.cursor_index(fetch.5) == self.0.cursor_index(fetch.0)
            && self.6.cursor_index(fetch.6) == self.0.cursor_index(fetch.0)
            && self.7.cursor_index(fetch.7) == self.0.cursor_index(fetch.0)
            && self.8.cursor_index(fetch.8) == self.0.cursor_index(fetch.0)
            && self.9.cursor_index(fetch.9) == self.0.cursor_index(fetch.0)
            && self.10.cursor_index(fetch.10) == self.0.cursor_index(fetch.0)
            && self.11.cursor_index(fetch.11) == self.0.cursor_index(fetch.0)
            && self.12.cursor_index(fetch.12) == self.0.cursor_index(fetch.0)
            && self.13.cursor_index(fetch.13) == self.0.cursor_index(fetch.0)
            && self.1.cursor_tick(fetch.1) == self.0.cursor_tick(fetch.0)
            && self.2.cursor_tick(fetch.2) == self.0.cursor_tick(fetch.0)
            && self.3.cursor_tick(fetch.3) == self.0.cursor_tick(fetch.0)
            && self.4.cursor_tick(fetch.4) == self.0.cursor_tick(fetch.0)
            && self.5.cursor_tick(fetch.5) == self.0.cursor_tick(fetch.0)
            && self.6.cursor_tick(fetch.6) == self.0.cursor_tick(fetch.0)
            && self.7.cursor_tick(fetch.7) == self.0.cursor_tick(fetch.0)
            && self.8.cursor_tick(fetch.8) == self.0.cursor_tick(fetch.0)
            && self.9.cursor_tick(fetch.9) == self.0.cursor_tick(fetch.0)
            && self.10.cursor_tick(fetch.10) == self.0.cursor_tick(fetch.0)
            && self.11.cursor_tick(fetch.11) == self.0.cursor_tick(fetch.0)
            && self.12.cursor_tick(fetch.12) == self.0.cursor_tick(fetch.0)
            && self.13.cursor_tick(fetch.13) == self.0.cursor_tick(fetch.0)
    }

    open spec fn cursor_index(&self, fetch: (A::Fetch, B::Fetch, C::Fetch, D::Fetch, E::Fetch, F::Fetch, G::Fetch, H::Fetch, I::Fetch, J::Fetch, K::Fetch, L::Fetch, M::Fetch, N::Fetch)) -> ArchetypeWorldIndex {
        self.0.cursor_index(fetch.0)
    }

    open spec fn cursor_tick(&self, fetch: (A::Fetch, B::Fetch, C::Fetch, D::Fetch, E::Fetch, F::Fetch, G::Fetch, H::Fetch, I::Fetch, J::Fetch, K::Fetch, L::Fetch, M::Fetch, N::Fetch)) -> Tick {
        self.0.cursor_tick(fetch.0)
    }

    open spec fn rejects(&self, columns: Seq<ComponentInfo>) -> bool {
        self.0.rejects(columns)
            || self.1.rejects(columns)
            || self.2.rejects(columns)
            || self.3.rejects(columns)
            || self.4.rejects(columns)
            || self.5.rejects(columns)
            || self.6.rejects(columns)
            || self.7.rejects(columns)
            || self.8.rejects(columns)
            || self.9.rejects(columns)
            || self.10.rejects(columns)
            || self.11.rejects(columns)
            || self.12.rejects(columns)
            || self.13.rejects(columns)
    }

    open spec fn reads(&self) -> Seq<ComponentIndex> {
        self.0.reads()
            + self.1.reads()
            + self.2.reads()
            + self.3.reads()
            + self.4.reads()
            + self.5.reads()
            + self.6.reads()
            + self.7.reads()
            + self.8.reads()
            + self.9.reads()
            + self.10.reads()
            + self.11.reads()
            + self.12.reads()
            + self.13.reads()
    }

    open spec fn writes(&self) -> Seq<ComponentIndex> {
        self.0.writes()
            + self.1.writes()
            + self.2.writes()
            + self.3.writes()
            + self.4.writes()
            + self.5.writes()
            + self.6.writes()
            + self.7.writes()
            + self.8.writes()
            + self.9.writes()
            + self.10.writes()
            + self.11.writes()
            + self.12.writes()
            + self.13.writes()
    }

    open spec fn state_for(&self, columns: Seq<ComponentInfo>, state: (A::State, B::State, C::State, D::State, E::State, F::State, G::State, H::State, I::State, J::State, K::State, L::State, M::State, N::State)) -> bool {
        self.0.state_for(columns, state.0)
            && self.1.state_for(columns, state.1)
            && self.2.state_for(columns, state.2)
            && self.3.state_for(columns, state.3)
            && self.4.state_for(columns, state.4)
            && self.5.state_for(columns, state.5)
            && self.6.state_for(columns, state.6)
            && self.7.state_for(columns, state.7)
            && self.8.state_for(columns, state.8)
            && self.9.state_for(columns, state.9)
            && self.10.state_for(columns, state.10)
            && self.11.state_for(columns, state.11)
            && self.12.state_for(columns, state.12)
            && self.13.state_for(columns, state.13)
    }

    open spec fn is_item(
        &self,
        world: World,
        index: ArchetypeWorldIndex,
        row: Row,
        e: Entity,
        item: (A::Item, B::Item, C::Item, D::Item, E::Item, F::Item, G::Item, H::Item, I::Item, J::Item, K::Item, L::Item, M::Item, N::Item),
    ) -> bool {
        self.0.is_item(world, index, row, e, item.0)
            && self.1.is_item(world, index, row, e, item.1)
            && self.2.is_item(world, index, row, e, item.2)
            && self.3.is_item(world, index, row, e, item.3)
            && self.4.is_item(world, index, row, e, item.4)
            && self.5.is_item(world, index, row, e, item.5)
            && self.6.is_item(world, index, row, e, item.6)
            && self.7.is_item(world, index, row, e, item.7)
            && self.8.is_item(world, index, row, e, item.8)
            && self.9.is_item(world, index, row, e, item.9)
            && self.10.is_item(world, index, row, e, item.10)
            && self.11.is_item(world, index, row, e, item.11)
            && self.12.is_item(world, index, row, e, item.12)
            && self.13.is_item(world, index, row, e, item.13)
    }

    fn init_read_write(&self, rw: &mut ReadWrite) {
        self.0.init_read_write(rw);
        self.1.init_read_write(rw);
        proof {
            assert(rw.reads@ =~= old(rw).reads@ + (self.0.reads() + self.1.reads()));
            assert(rw.writes@ =~= old(rw).writes@ + (self.0.writes() + self.1.writes()));
        }
        self.2.init_read_write(rw);
        proof {
            assert(rw.reads@ =~= old(rw).reads@ + (self.0.reads() + self.1.reads() + self.2.reads()));
            assert(rw.writes@ =~= old(rw).writes@ + (self.0.writes() + self.1.writes() + self.2.writes()));
        }
        self.3.init_read_write(rw);
        proof {
            assert(rw.reads@ =~= old(rw).reads@ + (self.0.reads() + self.1.reads() + self.2.reads() + self.3.reads()));
            assert(rw.writes@ =~= old(rw).writes@ + (self.0.writes() + self.1.writes() + self.2.writes() + self.3.writes()));
        }
        self.4.init_read_write(rw);
        proof {
            assert(rw.reads@ =~= old(rw).reads@ + (self.0.reads() + self.1.reads() + self.2.reads() + self.3.reads() + self.4.reads()));
            assert(rw.writes@ =~= old(rw).writes@ + (self.0.writes() + self.1.writes() + self.2.writes() + self.3.writes() + self.4.writes()));
        }
        self.5.init_read_write(rw);
        proof {
            assert(rw.reads@ =~= old(rw).reads@ + (self.0.reads() + self.1.reads() + self.2.reads() + self.3.reads() + self.4.reads() + self.5.reads()));
            assert(rw.writes@ =~= old(rw).writes@ + (self.0.writes() + self.1.writes() + self.2.writes() + self.3.writes() + self.4.writes() + self.5.writes()));
        }
        self.6.init_read_write(rw);
        proof {
            assert(rw.reads@ =~= old(rw).reads@ + (self.0.reads() + self.1.reads() + self.2.reads() + self.3.reads() + self.4.reads() + self.5.reads() + self.6.reads()));
            assert(rw.writes@ =~= old(rw).writes@ + (self.0.writes() + self.1.writes() + self.2.writes() + self.3.writes() + self.4.writes() + self.5.writes() + self.6.writes()));
        }
        self.7.init_read_write(rw);
        proof {
            assert(rw.reads@ =~= old(rw).reads@ + (self.0.reads() + self.1.reads() + self.2.reads() + self.3.reads() + self.4.reads() + self.5.reads() + self.6.reads() + self.7.reads()));
            assert(rw.writes@ =~= old(rw).writes@ + (self.0.writes() + self.1.writes() + self.2.writes() + self.3.writes() + self.4.writes() + self.5.writes() + self.6.writes() + self.7.writes()));
        }
        self.8.init_read_write(rw);
        proof {
            assert(rw.reads@ =~= old(rw).reads@ + (self.0.reads() + self.1.reads() + self.2.reads() + self.3.reads() + self.4.reads() + self.5.reads() + self.6.reads() + self.7.reads() + self.8.reads()));
            assert(rw.writes@ =~= old(rw).writes@ + (self.0.writes() + self.1.writes() + self.2.writes() + self.3.writes() + self.4.writes() + self.5.writes() + self.6.writes() + self.7.writes() + self.8.writes()));
        }
        self.9.init_read_write(rw);
        proof {
            assert(rw.reads@ =~= old(rw).reads@ + (self.0.reads() + self.1.reads() + self.2.reads() + self.3.reads() + self.4.reads() + self.5.reads() + self.6.reads() + self.7.reads() + self.8.reads() + self.9.reads()));
            assert(rw.writes@ =~= old(rw).writes@ + (self.0.writes() + self.1.writes() + self.2.writes() + self.3.writes() + self.4.writes() + self.5.writes() + self.6.writes() + self.7.writes() + self.8.writes() + self.9.writes()));
        }
        self.10.init_read_write(rw);
        proof {
            assert(rw.reads@ =~= old(rw).reads@ + (self.0.reads() + self.1.reads() + self.2.reads() + self.3.reads() + self.4.reads() + self.5.reads() + self.6.reads() + self.7.reads() + self.8.reads() + self.9.reads() + self.10.reads()));
            assert(rw.writes@ =~= old(rw).writes@ + (self.0.writes() + self.1.writes() + self.2.writes() + self.3.writes() + self.4.writes() + self.5.writes() + self.6.writes() + self.7.writes() + self.8.writes() + self.9.writes() + self.10.writes()));
        }
        self.11.init_read_write(rw);
        proof {
            assert(rw.reads@ =~= old(rw).reads@ + (self.0.reads() + self.1.reads() + self.2.reads() + self.3.reads() + self.4.reads() + self.5.reads() + self.6.reads() + self.7.reads() + self.8.reads() + self.9.reads() + self.10.reads() + self.11.reads()));
            assert(rw.writes@ =~= old(rw).writes@ + (self.0.writes() + self.1.writes() + self.2.writes() + self.3.writes() + self.4.writes() + self.5.writes() + self.6.writes() + self.7.writes() + self.8.writes() + self.9.writes() + self.10.writes() + self.11.writes()));
        }
        self.12.init_read_write(rw);
        proof {
            assert(rw.reads@ =~= old(rw).reads@ + (self.0.reads() + self.1.reads() + self.2.reads() + self.3.reads() + self.4.reads() + self.5.reads() + self.6.reads() + self.7.reads() + self.8.reads() + self.9.reads() + self.10.reads() + self.11.reads() + self.12.reads()));
            assert(rw.writes@ =~= old(rw).writes@ + (self.0.writes() + self.1.writes() + self.2.writes() + self.3.writes() + self.4.writes() + self.5.writes() + self.6.writes() + self.7.writes() + self.8.writes() + self.9.writes() + self.10.writes() + self.11.writes() + self.12.writes()));
        }
        self.13.init_read_write(rw);
        proof {
            assert(rw.reads@ =~= old(rw).reads@ + (self.0.reads() + self.1.reads() + self.2.reads() + self.3.reads() + self.4.reads() + self.5.reads() + self.6.reads() + self.7.reads() + self.8.reads() + self.9.reads() + self.10.reads() + self.11.reads() + self.12.reads() + self.13.reads()));
            assert(rw.writes@ =~= old(rw).writes@ + (self.0.writes() + self.1.writes() + self.2.writes() + self.3.writes() + self.4.writes() + self.5.writes() + self.6.writes() + self.7.writes() + self.8.writes() + self.9.writes() + self.10.writes() + self.11.writes() + self.12.writes() + self.13.writes()));
        }
    }

    fn rejection(&self) -> (r: Reject) {
        let r0 = self.0.rejection();
        let x1 = self.1.rejection();
        let ghost g0 = r0;
        let ghost h1 = x1;
        let r1 = Reject::Either(Box::new(r0), Box::new(x1));
        proof {
            assert forall|columns: Seq<ComponentInfo>| #[trigger]
                r1.holds(columns) == (self.0.rejects(columns) || self.1.rejects(columns)) by {
                assert(r1.holds(columns) == (g0.holds(columns) || h1.holds(columns)));
            }
        }
        let x2 = self.2.rejection();
        let ghost g1 = r1;
        let ghost h2 = x2;
        let r2 = Reject::Either(Box::new(r1), Box::new(x2));
        proof {
            assert forall|columns: Seq<ComponentInfo>| #[trigger]
                r2.holds(columns) == (self.0.rejects(columns) || self.1.rejects(columns) || self.2.rejects(columns)) by {
                assert(r2.holds(columns) == (g1.holds(columns) || h2.holds(columns)));
            }
        }
        let x3 = self.3.rejection();
        let ghost g2 = r2;
        let ghost h3 = x3;
        let r3 = Reject::Either(Box::new(r2), Box::new(x3));
        proof {
            assert forall|columns: Seq<ComponentInfo>| #[trigger]
                r3.holds(columns) == (self.0.rejects(columns) || self.1.rejects(columns) || self.2.rejects(columns) || self.3.rejects(columns)) by {
                assert(r3.holds(columns) == (g2.holds(columns) || h3.holds(columns)));
            }
        }
        let x4 = self.4.rejection();
        let ghost g3 = r3;
        let ghost h4 = x4;
        let r4 = Reject::Either(Box::new(r3), Box::new(x4));
        proof {
            assert forall|columns: Seq<ComponentInfo>| #[trigger]
                r4.holds(columns) == (self.0.rejects(columns) || self.1.rejects(columns) || self.2.rejects(columns) || self.3.rejects(columns) || self.4.rejects(columns)) by {
                assert(r4.holds(columns) == (g3.holds(columns) || h4.holds(columns)));
            }
        }
        let x5 = self.5.rejection();
        let ghost g4 = r4;
        let ghost h5 = x5;
        let r5 = Reject::Either(Box::new(r4), Box::new(x5));
        proof {
            assert forall|columns: Seq<ComponentInfo>| #[trigger]
                r5.holds(columns) == (self.0.rejects(columns) || self.1.rejects(columns) || self.2.rejects(columns) || self.3.rejects(columns) || self.4.rejects(columns) || self.5.rejects(columns)) by {
                assert(r5.holds(columns) == (g4.holds(columns) || h5.holds(columns)));
            }
        }
        let x6 = self.6.rejection();
        let ghost g5 = r5;
        let ghost h6 = x6;
        let r6 = Reject::Either(Box::new(r5), Box::new(x6));
        proof {
            assert forall|columns: Seq<ComponentInfo>| #[trigger]
                r6.holds(columns) == (self.0.rejects(columns) || self.1.rejects(columns) || self.2.rejects(columns) || self.3.rejects(columns) || self.4.rejects(columns) || self.5.rejects(columns) || self.6.rejects(columns)) by {
                assert(r6.holds(columns) == (g5.holds(columns) || h6.holds(columns)));
            }
        }
        let x7 = self.7.rejection();
        let ghost g6 = r6;
        let ghost h7 = x7;
        let r7 = Reject::Either(Box::new(r6), Box::new(x7));
        proof {
            assert forall|columns: Seq<ComponentInfo>| #[trigger]
                r7.holds(columns) == (self.0.rejects(columns) || self.1.rejects(columns) || self.2.rejects(columns) || self.3.rejects(columns) || self.4.rejects(columns) || self.5.rejects(columns) || self.6.rejects(columns) || self.7.rejects(columns)) by {
                assert(r7.holds(columns) == (g6.holds(columns) || h7.holds(columns)));
            }
        }
        let x8 = self.8.rejection();
        let ghost g7 = r7;
        let ghost h8 = x8;
        let r8 = Reject::Either(Box::new(r7), Box::new(x8));
        proof {
            assert forall|columns: Seq<ComponentInfo>| #[trigger]
                r8.holds(columns) == (self.0.rejects(columns) || self.1.rejects(columns) || self.2.rejects(columns) || self.3.rejects(columns) || self.4.rejects(columns) || self.5.rejects(columns) || self.6.rejects(columns) || self.7.rejects(columns) || self.8.rejects(columns)) by {
                assert(r8.holds(columns) == (g7.holds(columns) || h8.holds(columns)));
            }
        }
        let x9 = self.9.rejection();
        let ghost g8 = r8;
        let ghost h9 = x9;
        let r9 = Reject::Either(Box::new(r8), Box::new(x9));
        proof {
            assert forall|columns: Seq<ComponentInfo>| #[trigger]
                r9.holds(columns) == (self.0.rejects(columns) || self.1.rejects(columns) || self.2.rejects(columns) || self.3.rejects(columns) || self.4.rejects(columns) || self.5.rejects(columns) || self.6.rejects(columns) || self.7.rejects(columns) || self.8.rejects(columns) || self.9.rejects(columns)) by {
                assert(r9.holds(columns) == (g8.holds(columns) || h9.holds(columns)));
            }
        }
        let x10 = self.10.rejection();
        let ghost g9 = r9;
        let ghost h10 = x10;
        let r10 = Reject::Either(Box::new(r9), Box::new(x10));
        proof {
            assert forall|columns: Seq<ComponentInfo>| #[trigger]
                r10.holds(columns) == (self.0.rejects(columns) || self.1.rejects(columns) || self.2.rejects(columns) || self.3.rejects(columns) || self.4.rejects(columns) || self.5.rejects(columns) || self.6.rejects(columns) || self.7.rejects(columns) || self.8.rejects(columns) || self.9.rejects(columns) || self.10.rejects(columns)) by {
                assert(r10.holds(columns) == (g9.holds(columns) || h10.holds(columns)));
            }
        }
        let x11 = self.11.rejection();
        let ghost g10 = r10;
        let ghost h11 = x11;
        let r11 = Reject::Either(Box::new(r10), Box::new(x11));
        proof {
            assert forall|columns: Seq<ComponentInfo>| #[trigger]
                r11.holds(columns) == (self.0.rejects(columns) || self.1.rejects(columns) || self.2.rejects(columns) || self.3.rejects(columns) || self.4.rejects(columns) || self.5.rejects(columns) || self.6.rejects(columns) || self.7.rejects(columns) || self.8.rejects(columns) || self.9.rejects(columns) || self.10.rejects(columns) || self.11.rejects(columns)) by {
                assert(r11.holds(columns) == (g10.holds(columns) || h11.holds(columns)));
            }
        }
        let x12 = self.12.rejection();
        let ghost g11 = r11;
        let ghost h12 = x12;
        let r12 = Reject::Either(Box::new(r11), Box::new(x12));
        proof {
            assert forall|columns: Seq<ComponentInfo>| #[trigger]
                r12.holds(columns) == (self.0.rejects(columns) || self.1.rejects(columns) || self.2.rejects(columns) || self.3.rejects(columns) || self.4.rejects(columns) || self.5.rejects(columns) || self.6.rejects(columns) || self.7.rejects(columns) || self.8.rejects(columns) || self.9.rejects(columns) || self.10.rejects(columns) || self.11.rejects(columns) || self.12.rejects(columns)) by {
                assert(r12.holds(columns) == (g11.holds(columns) || h12.holds(columns)));
            }
        }
        let x13 = self.13.rejection();
        let ghost g12 = r12;
        let ghost h13 = x13;
        let r13 = Reject::Either(Box::new(r12), Box::new(x13));
        proof {
            assert forall|columns: Seq<ComponentInfo>| #[trigger]
                r13.holds(columns) == (self.0.rejects(columns) || self.1.rejects(columns) || self.2.rejects(columns) || self.3.rejects(columns) || self.4.rejects(columns) || self.5.rejects(columns) || self.6.rejects(columns) || self.7.rejects(columns) || self.8.rejects(columns) || self.9.rejects(columns) || self.10.rejects(columns) || self.11.rejects(columns) || self.12.rejects(columns) || self.13.rejects(columns)) by {
                assert(r13.holds(columns) == (g12.holds(columns) || h13.holds(columns)));
            }
        }
        r13
    }

    fn archetype_filter(&self, archetype: &Archetype) -> (r: bool) {
        if self.0.archetype_filter(archetype) {
            return true;
        }
        if self.1.archetype_filter(archetype) {
            return true;
        }
        if self.2.archetype_filter(archetype) {
            return true;
        }
        if self.3.archetype_filter(archetype) {
            return true;
        }
        if self.4.archetype_filter(archetype) {
            return true;
        }
        if self.5.archetype_filter(archetype) {
            return true;
        }
        if self.6.archetype_filter(archetype) {
            return true;
        }
        if self.7.archetype_filter(archetype) {
            return true;
        }
        if self.8.archetype_filter(archetype) {
            return true;
        }
        if self.9.archetype_filter(archetype) {
            return true;
        }
        if self.10.archetype_filter(archetype) {
            return true;
        }
        if self.11.archetype_filter(archetype) {
            return true;
        }
        if self.12.archetype_filter(archetype) {
            return true;
        }
        self.13.archetype_filter(archetype)
    }

    fn init_state(&self, world: &World, archetype: &Archetype) -> (state: (A::State, B::State, C::State, D::State, E::State, F::State, G::State, H::State, I::State, J::State, K::State, L::State, M::State, N::State)) {
        (self.0.init_state(world, archetype), self.1.init_state(world, archetype), self.2.init_state(world, archetype), self.3.init_state(world, archetype), self.4.init_state(world, archetype), self.5.init_state(world, archetype), self.6.init_state(world, archetype), self.7.init_state(world, archetype), self.8.init_state(world, archetype), self.9.init_state(world, archetype), self.10.init_state(world, archetype), self.11.init_state(world, archetype), self.12.init_state(world, archetype), self.13.init_state(world, archetype))
    }

    fn init_fetch(
        &self,
        world: &World,
        index: ArchetypeWorldIndex,
        state: &(A::State, B::State, C::State, D::State, E::State, F::State, G::State, H::State, I::State, J::State, K::State, L::State, M::State, N::State),
        tick: Tick,
    ) -> (fetch: (A::Fetch, B::Fetch, C::Fetch, D::Fetch, E::Fetch, F::Fetch, G::Fetch, H::Fetch, I::Fetch, J::Fetch, K::Fetch, L::Fetch, M::Fetch, N::Fetch)) {
        (
            self.0.init_fetch(world, index, &state.0, tick),
            self.1.init_fetch(world, index, &state.1, tick),
            self.2.init_fetch(world, index, &state.2, tick),
            self.3.init_fetch(world, index, &state.3, tick),
            self.4.init_fetch(world, index, &state.4, tick),
            self.5.init_fetch(world, index, &state.5, tick),
            self.6.init_fetch(world, index, &state.6, tick),
            self.7.init_fetch(world, index, &state.7, tick),
            self.8.init_fetch(world, index, &state.8, tick),
            self.9.init_fetch(world, index, &state.9, tick),
            self.10.init_fetch(world, index, &state.10, tick),
            self.11.init_fetch(world, index, &state.11, tick),
            self.12.init_fetch(world, index, &state.12, tick),
            self.13.init_fetch(world, index, &state.13, tick),
        )
    }

    fn fetch(
        &self,
        world: &World,
        fetch: &(A::Fetch, B::Fetch, C::Fetch, D::Fetch, E::Fetch, F::Fetch, G::Fetch, H::Fetch, I::Fetch, J::Fetch, K::Fetch, L::Fetch, M::Fetch, N::Fetch),
        state: &(A::State, B::State, C::State, D::State, E::State, F::State, G::State, H::State, I::State, J::State, K::State, L::State, M::State, N::State),
        row: Row,
        e: Entity,
    ) -> (item: (A::Item, B::Item, C::Item, D::Item, E::Item, F::Item, G::Item, H::Item, I::Item, J::Item, K::Item, L::Item, M::Item, N::Item)) {
        (
            self.0.fetch(world, &fetch.0, &state.0, row, e),
            self.1.fetch(world, &fetch.1, &state.1, row, e),
            self.2.fetch(world, &fetch.2, &state.2, row, e),
            self.3.fetch(world, &fetch.3, &state.3, row, e),
            self.4.fetch(world, &fetch.4, &state.4, row, e),
            self.5.fetch(world, &fetch.5, &state.5, row, e),
            self.6.fetch(world, &fetch.6, &state.6, row, e),
            self.7.fetch(world, &fetch.7, &state.7, row, e),
            self.8.fetch(world, &fetch.8, &state.8, row, e),
            self.9.fetch(world, &fetch.9, &state.9, row, e),
            self.10.fetch(world, &fetch.10, &state.10, row, e),
            self.11.fetch(world, &fetch.11, &state.11, row, e),
            self.12.fetch(world, &fetch.12, &state.12, row, e),
            self.13.fetch(world, &fetch.13, &state.13, row, e),
        )
    }
}

/// 15 fetches together hand out their items together, and reject what
/// one of them rejects.
impl<A: FetchComponents, B: FetchComponents, C: FetchComponents, D: FetchComponents, E: FetchComponents, F: FetchComponents, G: FetchComponents, H: FetchComponents, I: FetchComponents, J: FetchComponents, K: FetchComponents, L: FetchComponents, M: FetchComponents, N: FetchComponents, O: FetchComponents> FetchComponents for (A, B, C, D, E, F, G, H, I, J, K, L, M, N, O) {
    type Item = (A::Item, B::Item, C::Item, D::Item, E::Item, F::Item, G::Item, H::Item, I::Item, J::Item, K::Item, L::Item, M::Item, N::Item, O::Item);

    type State = (A::State, B::State, C::State, D::State, E::State, F::State, G::State, H::State, I::State, J::State, K::State, L::State, M::State, N::State, O::State);

    type Fetch = (A::Fetch, B::Fetch, C::Fetch, D::Fetch, E::Fetch, F::Fetch, G::Fetch, H::Fetch, I::Fetch, J::Fetch, K::Fetch, L::Fetch, M::Fetch, N::Fetch, O::Fetch);

    open spec fn cursor_ok(&self, fetch: (A::Fetch, B::Fetch, C::Fetch, D::Fetch, E::Fetch, F::Fetch, G::Fetch, H::Fetch, I::Fetch, J::Fetch, K::Fetch, L::Fetch, M::Fetch, N::Fetch, O::Fetch)) -> bool {
        self.0.cursor_ok(fetch.0)
            && self.1.cursor_ok(fetch.1)
            && self.2.cursor_ok(fetch.2)
            && self.3.cursor_ok(fetch.3)
            && self.4.cursor_ok(fetch.4)
            && self.5.cursor_ok(fetch.5)
            && self.6.cursor_ok(fetch.6)
            && self.7.cursor_ok(fetch.7)
            && self.8.cursor_ok(fetch.8)
            && self.9.cursor_ok(fetch.9)
            && self.10.cursor_ok(fetch.10)
            && self.11.cursor_ok(fetch.11)
            && self.12.cursor_ok(fetch.12)
            && self.13.cursor_ok(fetch.13)
            && self.14.cursor_ok(fetch.14)
            && self.1.cursor_index(fetch.1) == self.0.cursor_index(fetch.0)
            && self.2.cursor_index(fetch.2) == self.0.cursor_index(fetch.0)
            && self.3.cursor_index(fetch.3) == self.0.cursor_index(fetch.0)
            && self.4.cursor_index(fetch.4) == self.0.cursor_index(fetch.0)
            && self.5.cursor_index(fetch.5) == self.0.cursor_index(fetch.0)
            && self.6.cursor_index(fetch.6) == self.0.cursor_index(fetch.0)
            && self.7.cursor_index(fetch.7) == self.0.cursor_index(fetch.0)
            && self.8.cursor_index(fetch.8) == self.0.cursor_index(fetch.0)
            && self.9.cursor_index(fetch.9) == self.0.cursor_index(fetch.0)
            && self.10.cursor_index(fetch.10) == self.0.cursor_index(fetch.0)
            && self.11.cursor_index(fetch.11) == self.0.cursor_index(fetch.0)
            && self.12.cursor_index(fetch.12) == self.0.cursor_index(fetch.0)
            && self.13.cursor_index(fetch.13) == self.0.cursor_index(fetch.0)
            && self.14.cursor_index(fetch.14) == self.0.cursor_index(fetch.0)
            && self.1.cursor_tick(fetch.1) == self.0.cursor_tick(fetch.0)
            && self.2.cursor_tick(fetch.2) == self.0.cursor_tick(fetch.0)
            && self.3.cursor_tick(fetch.3) == self.0.cursor_tick(fetch.0)
            && self.4.cursor_tick(fetch.4) == self.0.cursor_tick(fetch.0)
            && self.5.cursor_tick(fetch.5) == self.0.cursor_tick(fetch.0)
            && self.6.cursor_tick(fetch.6) == self.0.cursor_tick(fetch.0)
            && self.7.cursor_tick(fetch.7) == self.0.cursor_tick(fetch.0)
            && self.8.cursor_tick(fetch.8) == self.0.cursor_tick(fetch.0)
            && self.9.cursor_tick(fetch.9) == self.0.cursor_tick(fetch.0)
            && self.10.cursor_tick(fetch.10) == self.0.cursor_tick(fetch.0)
            && self.11.cursor_tick(fetch.11) == self.0.cursor_tick(fetch.0)
            && self.12.cursor_tick(fetch.12) == self.0.cursor_tick(fetch.0)
            && self.13.cursor_tick(fetch.13) == self.0.cursor_tick(fetch.0)
            && self.14.cursor_tick(fetch.14) == self.0.cursor_tick(fetch.0)
    }

    open spec fn cursor_index(&self, fetch: (A::Fetch, B::Fetch, C::Fetch, D::Fetch, E::Fetch, F::Fetch, G::Fetch, H::Fetch, I::Fetch, J::Fetch, K::Fetch, L::Fetch, M::Fetch, N::Fetch, O::Fetch)) -> ArchetypeWorldIndex {
        self.0.cursor_index(fetch.0)
    }

    open spec fn cursor_tick(&self, fetch: (A::Fetch, B::Fetch, C::Fetch, D::Fetch, E::Fetch, F::Fetch, G::Fetch, H::Fetch, I::Fetch, J::Fetch, K::Fetch, L::Fetch, M::Fetch, N::Fetch, O::Fetch)) -> Tick {
        self.0.cursor_tick(fetch.0)
    }

    open spec fn rejects(&self, columns: Seq<ComponentInfo>) -> bool {
        self.0.rejects(columns)
            || self.1.rejects(columns)
            || self.2.rejects(columns)
            || self.3.rejects(columns)
            || self.4.rejects(columns)
            || self.5.rejects(columns)
            || self.6.rejects(columns)
            || self.7.rejects(columns)
            || self.8.rejects(columns)
            || self.9.rejects(columns)
            || self.10.rejects(columns)
            || self.11.rejects(columns)
            || self.12.rejects(columns)
            || self.13.rejects(columns)
            || self.14.rejects(columns)
    }

    open spec fn reads(&self) -> Seq<ComponentIndex> {
        self.0.reads()
            + self.1.reads()
            + self.2.reads()
            + self.3.reads()
            + self.4.reads()
            + self.5.reads()
            + self.6.reads()
            + self.7.reads()
            + self.8.reads()
            + self.9.reads()
            + self.10.reads()
            + self.11.reads()
            + self.12.reads()
            + self.13.reads()
            + self.14.reads()
    }

    open spec fn writes(&self) -> Seq<ComponentIndex> {
        self.0.writes()
            + self.1.writes()
            + self.2.writes()
            + self.3.writes()
            + self.4.writes()
            + self.5.writes()
            + self.6.writes()
            + self.7.writes()
            + self.8.writes()
            + self.9.writes()
            + self.10.writes()
            + self.11.writes()
            + self.12.writes()
            + self.13.writes()
            + self.14.writes()
    }

    open spec fn state_for(&self, columns: Seq<ComponentInfo>, state: (A::State, B::State, C::State, D::State, E::State, F::State, G::State, H::State, I::State, J::State, K::State, L::State, M::State, N::State, O::State)) -> bool {
        self.0.state_for(columns, state.0)
            && self.1.state_for(columns, state.1)
            && self.2.state_for(columns, state.2)
            && self.3.state_for(columns, state.3)
            && self.4.state_for(columns, state.4)
            && self.5.state_for(columns, state.5)
            && self.6.state_for(columns, state.6)
            && self.7.state_for(columns, state.7)
            && self.8.state_for(columns, state.8)
            && self.9.state_for(columns, state.9)
            && self.10.state_for(columns, state.10)
            && self.11.state_for(columns, state.11)
            && self.12.state_for(columns, state.12)
            && self.13.state_for(columns, state.13)
            && self.14.state_for(columns, state.14)
    }

    open spec fn is_item(
        &self,
        world: World,
        index: ArchetypeWorldIndex,
        row: Row,
        e: Entity,
        item: (A::Item, B::Item, C::Item, D::Item, E::Item, F::Item, G::Item, H::Item, I::Item, J::Item, K::Item, L::Item, M::Item, N::Item, O::Item),
    ) -> bool {
        self.0.is_item(world, index, row, e, item.0)
            && self.1.is_item(world, index, row, e, item.1)
            && self.2.is_item(world, index, row, e, item.2)
            && self.3.is_item(world, index, row, e, item.3)
            && self.4.is_item(world, index, row, e, item.4)
            && self.5.is_item(world, index, row, e, item.5)
            && self.6.is_item(world, index, row, e, item.6)
            && self.7.is_item(world, index, row, e, item.7)
            && self.8.is_item(world, index, row, e, item.8)
            && self.9.is_item(world, index, row, e, item.9)
            && self.10.is_item(world, index, row, e, item.10)
            && self.11.is_item(world, index, row, e, item.11)
            && self.12.is_item(world, index, row, e, item.12)
            && self.13.is_item(world, index, row, e, item.13)
            && self.14.is_item(world, index, row, e, item.14)
    }

    fn init_read_write(&self, rw: &mut ReadWrite) {
        self.0.init_read_write(rw);
        self.1.init_read_write(rw);
        proof {
            assert(rw.reads@ =~= old(rw).reads@ + (self.0.reads() + self.1.reads()));
            assert(rw.writes@ =~= old(rw).writes@ + (self.0.writes() + self.1.writes()));
        }
        self.2.init_read_write(rw);
        proof {
            assert(rw.reads@ =~= old(rw).reads@ + (self.0.reads() + self.1.reads() + self.2.reads()));
            assert(rw.writes@ =~= old(rw).writes@ + (self.0.writes() + self.1.writes() + self.2.writes()));
        }
        self.3.init_read_write(rw);
        proof {
            assert(rw.reads@ =~= old(rw).reads@ + (self.0.reads() + self.1.reads() + self.2.reads() + self.3.reads()));
            assert(rw.writes@ =~= old(rw).writes@ + (self.0.writes() + self.1.writes() + self.2.writes() + self.3.writes()));
        }
        self.4.init_read_write(rw);
        proof {
            assert(rw.reads@ =~= old(rw).reads@ + (self.0.reads() + self.1.reads() + self.2.reads() + self.3.reads() + self.4.reads()));
            assert(rw.writes@ =~= old(rw).writes@ + (self.0.writes() + self.1.writes() + self.2.writes() + self.3.writes() + self.4.writes()));
        }
        self.5.init_read_write(rw);
        proof {
            assert(rw.reads@ =~= old(rw).reads@ + (self.0.reads() + self.1.reads() + self.2.reads() + self.3.reads() + self.4.reads() + self.5.reads()));
            assert(rw.writes@ =~= old(rw).writes@ + (self.0.writes() + self.1.writes() + self.2.writes() + self.3.writes() + self.4.writes() + self.5.writes()));
        }
        self.6.init_read_write(rw);
        proof {
            assert(rw.reads@ =~= old(rw).reads@ + (self.0.reads() + self.1.reads() + self.2.reads() + self.3.reads() + self.4.reads() + self.5.reads() + self.6.reads()));
            assert(rw.writes@ =~= old(rw).writes@ + (self.0.writes() + self.1.writes() + self.2.writes() + self.3.writes() + self.4.writes() + self.5.writes() + self.6.writes()));
        }
        self.7.init_read_write(rw);
        proof {
            assert(rw.reads@ =~= old(rw).reads@ + (self.0.reads() + self.1.reads() + self.2.reads() + self.3.reads() + self.4.reads() + self.5.reads() + self.6.reads() + self.7.reads()));
            assert(rw.writes@ =~= old(rw).writes@ + (self.0.writes() + self.1.writes() + self.2.writes() + self.3.writes() + self.4.writes() + self.5.writes() + self.6.writes() + self.7.writes()));
        }
        self.8.init_read_write(rw);
        proof {
            assert(rw.reads@ =~= old(rw).reads@ + (self.0.reads() + self.1.reads() + self.2.reads() + self.3.reads() + self.4.reads() + self.5.reads() + self.6.reads() + self.7.reads() + self.8.reads()));
            assert(rw.writes@ =~= old(rw).writes@ + (self.0.writes() + self.1.writes() + self.2.writes() + self.3.writes() + self.4.writes() + self.5.writes() + self.6.writes() + self.7.writes() + self.8.writes()));
        }
        self.9.init_read_write(rw);
        proof {
            assert(rw.reads@ =~= old(rw).reads@ + (self.0.reads() + self.1.reads() + self.2.reads() + self.3.reads() + self.4.reads() + self.5.reads() + self.6.reads() + self.7.reads() + self.8.reads() + self.9.reads()));
            assert(rw.writes@ =~= old(rw).writes@ + (self.0.writes() + self.1.writes() + self.2.writes() + self.3.writes() + self.4.writes() + self.5.writes() + self.6.writes() + self.7.writes() + self.8.writes() + self.9.writes()));
        }
        self.10.init_read_write(rw);
        proof {
            assert(rw.reads@ =~= old(rw).reads@ + (self.0.reads() + self.1.reads() + self.2.reads() + self.3.reads() + self.4.reads() + self.5.reads() + self.6.reads() + self.7.reads() + self.8.reads() + self.9.reads() + self.10.reads()));
            assert(rw.writes@ =~= old(rw).writes@ + (self.0.writes() + self.1.writes() + self.2.writes() + self.3.writes() + self.4.writes() + self.5.writes() + self.6.writes() + self.7.writes() + self.8.writes() + self.9.writes() + self.10.writes()));
        }
        self.11.init_read_write(rw);
        proof {
            assert(rw.reads@ =~= old(rw).reads@ + (self.0.reads() + self.1.reads() + self.2.reads() + self.3.reads() + self.4.reads() + self.5.reads() + self.6.reads() + self.7.reads() + self.8.reads() + self.9.reads() + self.10.reads() + self.11.reads()));
            assert(rw.writes@ =~= old(rw).writes@ + (self.0.writes() + self.1.writes() + self.2.writes() + self.3.writes() + self.4.writes() + self.5.writes() + self.6.writes() + self.7.writes() + self.8.writes() + self.9.writes() + self.10.writes() + self.11.writes()));
        }
        self.12.init_read_write(rw);
        proof {
            assert(rw.reads@ =~= old(rw).reads@ + (self.0.reads() + self.1.reads() + self.2.reads() + self.3.reads() + self.4.reads() + self.5.reads() + self.6.reads() + self.7.reads() + self.8.reads() + self.9.reads() + self.10.reads() + self.11.reads() + self.12.reads()));
            assert(rw.writes@ =~= old(rw).writes@ + (self.0.writes() + self.1.writes() + self.2.writes() + self.3.writes() + self.4.writes() + self.5.writes() + self.6.writes() + self.7.writes() + self.8.writes() + self.9.writes() + self.10.writes() + self.11.writes() + self.12.writes()));
        }
        self.13.init_read_write(rw);
        proof {
            assert(rw.reads@ =~= old(rw).reads@ + (self.0.reads() + self.1.reads() + self.2.reads() + self.3.reads() + self.4.reads() + self.5.reads() + self.6.reads() + self.7.reads() + self.8.reads() + self.9.reads() + self.10.reads() + self.11.reads() + self.12.reads() + self.13.reads()));
            assert(rw.writes@ =~= old(rw).writes@ + (self.0.writes() + self.1.writes() + self.2.writes() + self.3.writes() + self.4.writes() + self.5.writes() + self.6.writes() + self.7.writes() + self.8.writes() + self.9.writes() + self.10.writes() + self.11.writes() + self.12.writes() + self.13.writes()));
        }
        self.14.init_read_write(rw);
        proof {
            assert(rw.reads@ =~= old(rw).reads@ + (self.0.reads() + self.1.reads() + self.2.reads() + self.3.reads() + self.4.reads() + self.5.reads() + self.6.reads() + self.7.reads() + self.8.reads() + self.9.reads() + self.10.reads() + self.11.reads() + self.12.reads() + self.13.reads() + self.14.reads()));
            assert(rw.writes@ =~= old(rw).writes@ + (self.0.writes() + self.1.writes() + self.2.writes() + self.3.writes() + self.4.writes() + self.5.writes() + self.6.writes() + self.7.writes() + self.8.writes() + self.9.writes() + self.10.writes() + self.11.writes() + self.12.writes() + self.13.writes() + self.14.writes()));
        }
    }

    fn rejection(&self) -> (r: Reject) {
        let r0 = self.0.rejection();
        let x1 = self.1.rejection();
        let ghost g0 = r0;
        let ghost h1 = x1;
        let r1 = Reject::Either(Box::new(r0), Box::new(x1));
        proof {
            assert forall|columns: Seq<ComponentInfo>| #[trigger]
                r1.holds(columns) == (self.0.rejects(columns) || self.1.rejects(columns)) by {
                assert(r1.holds(columns) == (g0.holds(columns) || h1.holds(columns)));
            }
        }
        let x2 = self.2.rejection();
        let ghost g1 = r1;
        let ghost h2 = x2;
        let r2 = Reject::Either(Box::new(r1), Box::new(x2));
        proof {
            assert forall|columns: Seq<ComponentInfo>| #[trigger]
                r2.holds(columns) == (self.0.rejects(columns) || self.1.rejects(columns) || self.2.rejects(columns)) by {
                assert(r2.holds(columns) == (g1.holds(columns) || h2.holds(columns)));
            }
        }
        let x3 = self.3.rejection();
        let ghost g2 = r2;
        let ghost h3 = x3;
        let r3 = Reject::Either(Box::new(r2), Box::new(x3));
        proof {
            assert forall|columns: Seq<ComponentInfo>| #[trigger]
                r3.holds(columns) == (self.0.rejects(columns) || self.1.rejects(columns) || self.2.rejects(columns) || self.3.rejects(columns)) by {
                assert(r3.holds(columns) == (g2.holds(columns) || h3.holds(columns)));
            }
        }
        let x4 = self.4.rejection();
        let ghost g3 = r3;
        let ghost h4 = x4;
        let r4 = Reject::Either(Box::new(r3), Box::new(x4));
        proof {
            assert forall|columns: Seq<ComponentInfo>| #[trigger]
                r4.holds(columns) == (self.0.rejects(columns) || self.1.rejects(columns) || self.2.rejects(columns) || self.3.rejects(columns) || self.4.rejects(columns)) by {
                assert(r4.holds(columns) == (g3.holds(columns) || h4.holds(columns)));
            }
        }
        let x5 = self.5.rejection();
        let ghost g4 = r4;
        let ghost h5 = x5;
        let r5 = Reject::Either(Box::new(r4), Box::new(x5));
        proof {
            assert forall|columns: Seq<ComponentInfo>| #[trigger]
                r5.holds(columns) == (self.0.rejects(columns) || self.1.rejects(columns) || self.2.rejects(columns) || self.3.rejects(columns) || self.4.rejects(columns) || self.5.rejects(columns)) by {
                assert(r5.holds(columns) == (g4.holds(columns) || h5.holds(columns)));
            }
        }
        let x6 = self.6.rejection();
        let ghost g5 = r5;
        let ghost h6 = x6;
        let r6 = Reject::Either(Box::new(r5), Box::new(x6));
        proof {
            assert forall|columns: Seq<ComponentInfo>| #[trigger]
                r6.holds(columns) == (self.0.rejects(columns) || self.1.rejects(columns) || self.2.rejects(columns) || self.3.rejects(columns) || self.4.rejects(columns) || self.5.rejects(columns) || self.6.rejects(columns)) by {
                assert(r6.holds(columns) == (g5.holds(columns) || h6.holds(columns)));
            }
        }
        let x7 = self.7.rejection();
        let ghost g6 = r6;
        let ghost h7 = x7;
        let r7 = Reject::Either(Box::new(r6), Box::new(x7));
        proof {
            assert forall|columns: Seq<ComponentInfo>| #[trigger]
                r7.holds(columns) == (self.0.rejects(columns) || self.1.rejects(columns) || self.2.rejects(columns) || self.3.rejects(columns) || self.4.rejects(columns) || self.5.rejects(columns) || self.6.rejects(columns) || self.7.rejects(columns)) by {
                assert(r7.holds(columns) == (g6.holds(columns) || h7.holds(columns)));
            }
        }
        let x8 = self.8.rejection();
        let ghost g7 = r7;
        let ghost h8 = x8;
        let r8 = Reject::Either(Box::new(r7), Box::new(x8));
        proof {
            assert forall|columns: Seq<ComponentInfo>| #[trigger]
                r8.holds(columns) == (self.0.rejects(columns) || self.1.rejects(columns) || self.2.rejects(columns) || self.3.rejects(columns) || self.4.rejects(columns) || self.5.rejects(columns) || self.6.rejects(columns) || self.7.rejects(columns) || self.8.rejects(columns)) by {
                assert(r8.holds(columns) == (g7.holds(columns) || h8.holds(columns)));
            }
        }
        let x9 = self.9.rejection();
        let ghost g8 = r8;
        let ghost h9 = x9;
        let r9 = Reject::Either(Box::new(r8), Box::new(x9));
        proof {
            assert forall|columns: Seq<ComponentInfo>| #[trigger]
                r9.holds(columns) == (self.0.rejects(columns) || self.1.rejects(columns) || self.2.rejects(columns) || self.3.rejects(columns) || self.4.rejects(columns) || self.5.rejects(columns) || self.6.rejects(columns) || self.7.rejects(columns) || self.8.rejects(columns) || self.9.rejects(columns)) by {
                assert(r9.holds(columns) == (g8.holds(columns) || h9.holds(columns)));
            }
        }
        let x10 = self.10.rejection();
        let ghost g9 = r9;
        let ghost h10 = x10;
        let r10 = Reject::Either(Box::new(r9), Box::new(x10));
        proof {
            assert forall|columns: Seq<ComponentInfo>| #[trigger]
                r10.holds(columns) == (self.0.rejects(columns) || self.1.rejects(columns) || self.2.rejects(columns) || self.3.rejects(columns) || self.4.rejects(columns) || self.5.rejects(columns) || self.6.rejects(columns) || self.7.rejects(columns) || self.8.rejects(columns) || self.9.rejects(columns) || self.10.rejects(columns)) by {
                assert(r10.holds(columns) == (g9.holds(columns) || h10.holds(columns)));
            }
        }
        let x11 = self.11.rejection();
        let ghost g10 = r10;
        let ghost h11 = x11;
        let r11 = Reject::Either(Box::new(r10), Box::new(x11));
        proof {
            assert forall|columns: Seq<ComponentInfo>| #[trigger]
                r11.holds(columns) == (self.0.rejects(columns) || self.1.rejects(columns) || self.2.rejects(columns) || self.3.rejects(columns) || self.4.rejects(columns) || self.5.rejects(columns) || self.6.rejects(columns) || self.7.rejects(columns) || self.8.rejects(columns) || self.9.rejects(columns) || self.10.rejects(columns) || self.11.rejects(columns)) by {
                assert(r11.holds(columns) == (g10.holds(columns) || h11.holds(columns)));
            }
        }
        let x12 = self.12.rejection();
        let ghost g11 = r11;
        let ghost h12 = x12;
        let r12 = Reject::Either(Box::new(r11), Box::new(x12));
        proof {
            assert forall|columns: Seq<ComponentInfo>| #[trigger]
                r12.holds(columns) == (self.0.rejects(columns) || self.1.rejects(columns) || self.2.rejects(columns) || self.3.rejects(columns) || self.4.rejects(columns) || self.5.rejects(columns) || self.6.rejects(columns) || self.7.rejects(columns) || self.8.rejects(columns) || self.9.rejects(columns) || self.10.rejects(columns) || self.11.rejects(columns) || self.12.rejects(columns)) by {
                assert(r12.holds(columns) == (g11.holds(columns) || h12.holds(columns)));
            }
        }
        let x13 = self.13.rejection();
        let ghost g12 = r12;
        let ghost h13 = x13;
        let r13 = Reject::Either(Box::new(r12), Box::new(x13));
        proof {
            assert forall|columns: Seq<ComponentInfo>| #[trigger]
                r13.holds(columns) == (self.0.rejects(columns) || self.1.rejects(columns) || self.2.rejects(columns) || self.3.rejects(columns) || self.4.rejects(columns) || self.5.rejects(columns) || self.6.rejects(columns) || self.7.rejects(columns) || self.8.rejects(columns) || self.9.rejects(columns) || self.10.rejects(columns) || self.11.rejects(columns) || self.12.rejects(columns) || self.13.rejects(columns)) by {
                assert(r13.holds(columns) == (g12.holds(columns) || h13.holds(columns)));
            }
        }
        let x14 = self.14.rejection();
        let ghost g13 = r13;
        let ghost h14 = x14;
        let r14 = Reject::Either(Box::new(r13), Box::new(x14));
        proof {
            assert forall|columns: Seq<ComponentInfo>| #[trigger]
                r14.holds(columns) == (self.0.rejects(columns) || self.1.rejects(columns) || self.2.rejects(columns) || self.3.rejects(columns) || self.4.rejects(columns) || self.5.rejects(columns) || self.6.rejects(columns) || self.7.rejects(columns) || self.8.rejects(columns) || self.9.rejects(columns) || self.10.rejects(columns) || self.11.rejects(columns) || self.12.rejects(columns) || self.13.rejects(columns) || self.14.rejects(columns)) by {
                assert(r14.holds(columns) == (g13.holds(columns) || h14.holds(columns)));
            }
        }
        r14
    }

    fn archetype_filter(&self, archetype: &Archetype) -> (r: bool) {
        if self.0.archetype_filter(archetype) {
            return true;
        }
        if self.1.archetype_filter(archetype) {
            return true;
        }
        if self.2.archetype_filter(archetype) {
            return true;
        }
        if self.3.archetype_filter(archetype) {
            return true;
        }
        if self.4.archetype_filter(archetype) {
            return true;
        }
        if self.5.archetype_filter(archetype) {
            return true;
        }
        if self.6.archetype_filter(archetype) {
            return true;
        }
        if self.7.archetype_filter(archetype) {
            return true;
        }
        if self.8.archetype_filter(archetype) {
            return true;
        }
        if self.9.archetype_filter(archetype) {
            return true;
        }
        if self.10.archetype_filter(archetype) {
            return true;
        }
        if self.11.archetype_filter(archetype) {
            return true;
        }
        if self.12.archetype_filter(archetype) {
            return true;
        }
        if self.13.archetype_filter(archetype) {
            return true;
        }
        self.14.archetype_filter(archetype)
    }

    fn init_state(&self, world: &World, archetype: &Archetype) -> (state: (A::State, B::State, C::State, D::State, E::State, F::State, G::State, H::State, I::State, J::State, K::State, L::State, M::State, N::State, O::State)) {
        (self.0.init_state(world, archetype), self.1.init_state(world, archetype), self.2.init_state(world, archetype), self.3.init_state(world, archetype), self.4.init_state(world, archetype), self.5.init_state(world, archetype), self.6.init_state(world, archetype), self.7.init_state(world, archetype), self.8.init_state(world, archetype), self.9.init_state(world, archetype), self.10.init_state(world, archetype), self.11.init_state(world, archetype), self.12.init_state(world, archetype), self.13.init_state(world, archetype), self.14.init_state(world, archetype))
    }

    fn init_fetch(
        &self,
        world: &World,
        index: ArchetypeWorldIndex,
        state: &(A::State, B::State, C::State, D::State, E::State, F::State, G::State, H::State, I::State, J::State, K::State, L::State, M::State, N::State, O::State),
        tick: Tick,
    ) -> (fetch: (A::Fetch, B::Fetch, C::Fetch, D::Fetch, E::Fetch, F::Fetch, G::Fetch, H::Fetch, I::Fetch, J::Fetch, K::Fetch, L::Fetch, M::Fetch, N::Fetch, O::Fetch)) {
        (
            self.0.init_fetch(world, index, &state.0, tick),
            self.1.init_fetch(world, index, &state.1, tick),
            self.2.init_fetch(world, index, &state.2, tick),
            self.3.init_fetch(world, index, &state.3, tick),
            self.4.init_fetch(world, index, &state.4, tick),
            self.5.init_fetch(world, index, &state.5, tick),
            self.6.init_fetch(world, index, &state.6, tick),
            self.7.init_fetch(world, index, &state.7, tick),
            self.8.init_fetch(world, index, &state.8, tick),
            self.9.init_fetch(world, index, &state.9, tick),
            self.10.init_fetch(world, index, &state.10, tick),
            self.11.init_fetch(world, index, &state.11, tick),
            self.12.init_fetch(world, index, &state.12, tick),
            self.13.init_fetch(world, index, &state.13, tick),
            self.14.init_fetch(world, index, &state.14, tick),
        )
    }

    fn fetch(
        &self,
        world: &World,
        fetch: &(A::Fetch, B::Fetch, C::Fetch, D::Fetch, E::Fetch, F::Fetch, G::Fetch, H::Fetch, I::Fetch, J::Fetch, K::Fetch, L::Fetch, M::Fetch, N::Fetch, O::Fetch),
        state: &(A::State, B::State, C::State, D::State, E::State, F::State, G::State, H::State, I::State, J::State, K::State, L::State, M::State, N::State, O::State),
        row: Row,
        e: Entity,
    ) -> (item: (A::Item, B::Item, C::Item, D::Item, E::Item, F::Item, G::Item, H::Item, I::Item, J::Item, K::Item, L::Item, M::Item, N::Item, O::Item)) {
        (
            self.0.fetch(world, &fetch.0, &state.0, row, e),
            self.1.fetch(world, &fetch.1, &state.1, row, e),
            self.2.fetch(world, &fetch.2, &state.2, row, e),
            self.3.fetch(world, &fetch.3, &state.3, row, e),
            self.4.fetch(world, &fetch.4, &state.4, row, e),
            self.5.fetch(world, &fetch.5, &state.5, row, e),
            self.6.fetch(world, &fetch.6, &state.6, row, e),
            self.7.fetch(world, &fetch.7, &state.7, row, e),
            self.8.fetch(world, &fetch.8, &state.8, row, e),
            self.9.fetch(world, &fetch.9, &state.9, row, e),
            self.10.fetch(world, &fetch.10, &state.10, row, e),
            self.11.fetch(world, &fetch.11, &state.11, row, e),
            self.12.fetch(world, &fetch.12, &state.12, row, e),
            self.13.fetch(world, &fetch.13, &state.13, row, e),
            self.14.fetch(world, &fetch.14, &state.14, row, e),
        )
    }
}

} // verus!
