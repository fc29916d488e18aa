//! Queries: the archetypes that a system's fetch and filter match, cached
//! and brought up to date before each run, and the iteration over their
//! rows.

use crate::archetype::{lemma_listened_slots, listened_slots, listens_on, slots_with_key};
use crate::column::BlobTicks;
use crate::component::ComponentInfo;
use crate::fetch::FetchComponents;
use crate::filter::{FilterComponents, ReadWrite};
use crate::ids::{ArchetypeWorldIndex, ComponentIndex, Entity, Row, Tick};
use crate::listener::{Listener, Reject};
use crate::slots::{slot_items, slots_get, slots_len, slots_new, ListenerSlots};
use crate::table::{has_component, Table};
use crate::world::{lemma_slots_all, World};
use std::collections::{HashMap, HashSet};
use vstd::prelude::*;

verus! {

pub use crate::world::QueryError;

/// What the scheduler knows of one system: what each of its queries
/// declares, and which archetypes each of them touches.
pub struct SystemMeta {
    rws: Vec<ReadWrite>,
    touched: Vec<(usize, ArchetypeWorldIndex)>,
}

impl SystemMeta {
    /// The declarations of the system's queries, in the order they were
    /// added.
    pub closed spec fn rws(&self) -> Seq<ReadWrite> {
        self.rws@
    }

    /// The archetypes that the queries touch, each with the position of
    /// the query's declaration, in the order they were matched.
    pub closed spec fn touched(&self) -> Seq<(usize, ArchetypeWorldIndex)> {
        self.touched@
    }

    /// A system without queries.
    pub fn new() -> (r: Self)
        ensures
            r.rws().len() == 0,
            r.touched().len() == 0,
    {
        SystemMeta { rws: Vec::new(), touched: Vec::new() }
    }

    /// Adds the declaration of a query and returns its position.
    pub fn add_rw(&mut self, rw: ReadWrite) -> (i: usize)
        ensures
            i == old(self).rws().len(),
            final(self).rws() == old(self).rws().push(rw),
            final(self).touched() == old(self).touched(),
    {
        let i = self.rws.len();
        self.rws.push(rw);
        i
    }

    /// The declaration at the position.
    pub fn get_rw(&self, i: usize) -> (r: &ReadWrite)
        requires
            i < self.rws().len(),
        ensures
            *r == self.rws()[i as int],
    {
        &self.rws[i]
    }

    /// The archetypes that the queries touch, each with the position of
    /// the query's declaration, in the order they were matched.
    pub fn get_touched(&self) -> (r: &Vec<(usize, ArchetypeWorldIndex)>)
        ensures
            r@ == self.touched(),
    {
        &self.touched
    }

    /// Records that the query whose declaration is at `rw_index` touches
    /// the archetype.
    pub fn rw_archetype(&mut self, rw_index: usize, index: ArchetypeWorldIndex)
        ensures
            final(self).touched() == old(self).touched().push((rw_index, index)),
            final(self).rws() == old(self).rws(),
    {
        self.touched.push((rw_index, index));
    }
}

/// Whether the positions are those of listened components among the
/// columns, at least one where anything is listened on.
pub open spec fn slots_ok(
    columns: Seq<ComponentInfo>,
    listeners: Seq<(ComponentIndex, bool)>,
    slots: Seq<u32>,
) -> bool {
    &&& forall|s: int|
        0 <= s < slots.len() ==> (#[trigger] slots[s]) < columns.len() && exists|l: int|
            0 <= l < listeners.len() && (#[trigger] listeners[l]).0 == columns[slots[s] as int].index
    &&& listeners.len() > 0 ==> slots.len() > 0
}

/// The cache of one query: the archetypes it matches, with the state of
/// the fetch and the listener slots for each.
pub struct QueryState<Q: FetchComponents, F: FilterComponents> {
    fetch: Q,
    filter: F,
    rw_index: usize,
    listener_count: usize,
    listener_key: usize,
    listeners: Vec<(ComponentIndex, bool)>,
    vec: Vec<(ArchetypeWorldIndex, ListenerSlots)>,
    state_vec: Vec<Q::State>,
    archetype_len: usize,
    map: HashMap<i32, usize>,
    last: (ArchetypeWorldIndex, usize),
    removes: Vec<(u32, Entity)>,
    last_run: Tick,
}

impl<Q: FetchComponents, F: FilterComponents> QueryState<Q, F> {
    /// The fetch of the query.
    pub closed spec fn fetch(&self) -> Q {
        self.fetch
    }

    /// The filter of the query.
    pub closed spec fn filter(&self) -> F {
        self.filter
    }

    /// The position of the query's declaration among those of its system.
    pub closed spec fn rw_index(&self) -> usize {
        self.rw_index
    }

    /// The key under which the query is registered in the world as a
    /// listener, where it listens on components.
    pub closed spec fn listener_key(&self) -> usize {
        self.listener_key
    }

    /// The components that the query listens on.
    pub closed spec fn listeners(&self) -> Seq<(ComponentIndex, bool)> {
        self.listeners@
    }

    /// The number of components that the query listens on.
    pub closed spec fn listener_count(&self) -> usize {
        self.listener_count
    }

    /// The matched archetypes, in the order they were matched.
    pub closed spec fn matched(&self) -> Seq<ArchetypeWorldIndex> {
        self.vec@.map_values(|p: (ArchetypeWorldIndex, ListenerSlots)| p.0)
    }

    /// The listener slots of the `i`-th matched archetype: the positions,
    /// among its columns, of the listened components that it has.
    pub closed spec fn slots_of(&self, i: int) -> Seq<u32> {
        slot_items(self.vec@[i].1)
    }

    /// The state of the fetch for each matched archetype.
    pub closed spec fn states(&self) -> Seq<Q::State> {
        self.state_vec@
    }

    /// The number of archetypes of the world that the query has seen.
    pub closed spec fn archetype_len(&self) -> usize {
        self.archetype_len
    }

    /// For each matched archetype, by its index in the world, its position
    /// among the matched.
    pub closed spec fn map(&self) -> Map<i32, usize> {
        self.map@
    }

    /// The archetype that was looked up last, with its position among the
    /// matched.
    pub closed spec fn last(&self) -> (ArchetypeWorldIndex, usize) {
        self.last
    }

    /// The entities marked for deletion in this run, each with the
    /// position of its archetype among the matched.
    pub closed spec fn removes(&self) -> Seq<(u32, Entity)> {
        self.removes@
    }

    /// The tick at which the query last ran.
    pub closed spec fn last_run(&self) -> Tick {
        self.last_run
    }

    /// Whether the query accepts an archetype with the component set:
    /// neither the filter nor the fetch rejects it, and where the query
    /// listens on components it has one of them.
    pub open spec fn accepts(&self, columns: Seq<ComponentInfo>) -> bool {
        &&& !self.filter().rejects(columns)
        &&& !self.fetch().rejects(columns)
        &&& self.listeners().len() > 0 ==> listens_on(columns, self.listeners())
    }

    /// Whether the world holds the query as a listener under the query's
    /// key: with the components that the query listens on, and with a rule
    /// that rejects the archetypes that the filter or the fetch rejects.
    pub open spec fn registered_in(&self, world: &World) -> bool {
        &&& self.listener_key() < world.listeners().len()
        &&& world.listeners()[self.listener_key() as int].listened@ == self.listeners()
        &&& forall|columns: Seq<ComponentInfo>| #[trigger]
            world.listeners()[self.listener_key() as int].rejects.holds(columns) == (
            self.filter().rejects(columns) || self.fetch().rejects(columns))
    }

    /// What the cache holds is right of the world: the query is registered
    /// as a listener where it listens on components, and every matched
    /// archetype is one that the query accepts, with its fetch state and
    /// its listener slots: the positions of the listened components that
    /// it has, in the order they are listened on.
    pub open spec fn entries_ok(&self, world: &World) -> bool {
        &&& self.listener_count() == self.listeners().len()
        &&& self.listeners().len() > 0 ==> self.registered_in(world)
        &&& self.states().len() == self.matched().len()
        &&& forall|i: int|
            0 <= i < self.matched().len() ==> {
                let a = (#[trigger] self.matched()[i]).0 as int;
                &&& 0 <= a < world.archetypes().len()
                &&& self.accepts(world.table(a).columns())
                &&& self.fetch().state_for(world.table(a).columns(), self.states()[i])
                &&& self.slots_of(i) == listened_slots(
                    world.table(a).columns(),
                    self.listeners(),
                    self.listeners().len(),
                )
                &&& slots_ok(world.table(a).columns(), self.listeners(), self.slots_of(i))
            }
    }

    /// The cache agrees with the world as far as the query has seen it:
    /// what it holds is right, and the matched archetypes are exactly the
    /// accepted ones among those seen, in ascending order.
    pub open spec fn wf(&self, world: &World) -> bool {
        &&& self.entries_ok(world)
        &&& self.archetype_len() <= world.archetypes().len()
        &&& self.matched().len() <= self.archetype_len()
        &&& forall|i: int|
            0 <= i < self.matched().len() ==> (#[trigger] self.matched()[i]).0 < self.archetype_len()
        &&& forall|i: int, j: int|
            0 <= i < j < self.matched().len() ==> (#[trigger] self.matched()[i]).0 < (
            #[trigger] self.matched()[j]).0
        &&& forall|k: i32| #[trigger]
            self.map().contains_key(k) ==> {
                &&& 0 <= k < self.archetype_len()
                &&& self.map()[k] < self.matched().len()
                &&& self.matched()[self.map()[k] as int].0 == k
            }
        &&& forall|k: i32|
            0 <= k < self.archetype_len() && !(#[trigger] self.map().contains_key(k)) ==> !self.accepts(
                world.table(k as int).columns(),
            )
        &&& self.last().0.is_null() || (self.map().contains_key(self.last().0.0)
            && self.map()[self.last().0.0] == self.last().1)
    }

    /// The cache of a query that has seen nothing of the world yet. Where
    /// the query listens on components, `listener_key` is the key under
    /// which it is registered in the world as a listener.
    pub fn new(
        fetch: Q,
        filter: F,
        rw_index: usize,
        listener_key: usize,
        listeners: Vec<(ComponentIndex, bool)>,
    ) -> (r: Self)
        ensures
            r.fetch() == fetch,
            r.filter() == filter,
            r.rw_index() == rw_index,
            r.listener_key() == listener_key,
            r.listeners() == listeners@,
            r.matched().len() == 0,
            r.archetype_len() == 0,
            r.removes().len() == 0,
            r.last_run() == Tick(0),
            forall|world: &World|
                (listeners@.len() > 0 ==> r.registered_in(world)) ==> #[trigger] r.wf(world),
    {
        let listener_count = listeners.len();
        QueryState {
            fetch,
            filter,
            rw_index,
            listener_count,
            listener_key,
            listeners,
            vec: Vec::new(),
            state_vec: Vec::new(),
            archetype_len: 0,
            map: HashMap::new(),
            last: (ArchetypeWorldIndex::null(), 0),
            removes: Vec::new(),
            last_run: Tick(0),
        }
    }

    /// The cache of a query of a system: declares what the fetch and the
    /// filter read, write, exclude and listen on, adds the declaration to
    /// the system's, and, where the query listens on components, registers
    /// it in the world as a listener on the creation of archetypes.
    pub fn init_state(fetch: Q, filter: F, world: &mut World, system_meta: &mut SystemMeta) -> (r:
        Self)
        requires
            old(world).wf(),
        ensures
            final(world).wf(),
            r.wf(final(world)),
            r.fetch() == fetch,
            r.filter() == filter,
            r.rw_index() == old(system_meta).rws().len(),
            r.listeners() == filter.listens(),
            r.matched().len() == 0,
            r.archetype_len() == 0,
            r.removes().len() == 0,
            r.last_run() == Tick(0),
            final(system_meta).rws().len() == old(system_meta).rws().len() + 1,
            final(system_meta).touched() == old(system_meta).touched(),
            ({
                let rw = final(system_meta).rws()[old(system_meta).rws().len() as int];
                &&& rw.reads@ == fetch.reads()
                &&& rw.writes@ == fetch.writes()
                &&& rw.withouts@ == filter.withouts()
                &&& rw.listeners@ == filter.listens()
            }),
            final(world).columns() == old(world).columns(),
            final(world).slots() == old(world).slots(),
            final(world).free() == old(world).free(),
            final(world).spec_tick() == old(world).spec_tick(),
            final(world).archetypes().len() == old(world).archetypes().len(),
            forall|a: int|
                0 <= a < old(world).archetypes().len() ==> #[trigger] final(world).table(a) == old(world).table(a),
            if filter.listens().len() > 0 {
                &&& r.listener_key() == old(world).listeners().len()
                &&& final(world).listeners().len() == old(world).listeners().len() + 1
                &&& final(world).listeners().take(old(world).listeners().len() as int) == old(world).listeners()
            } else {
                final(world).listeners() == old(world).listeners() && final(world).archetypes() == old(world).archetypes()
            },
    {
        let mut rw = ReadWrite::new();
        fetch.init_read_write(&mut rw);
        filter.init_read_write(&mut rw);
        proof {
            assert(rw.reads@ =~= fetch.reads());
            assert(rw.writes@ =~= fetch.writes());
            assert(rw.withouts@ =~= filter.withouts());
            assert(rw.listeners@ =~= filter.listens());
        }
        let mut listeners: Vec<(ComponentIndex, bool)> = Vec::new();
        let mut registered: Vec<(ComponentIndex, bool)> = Vec::new();
        let mut i: usize = 0;
        while i < rw.listeners.len()
            invariant
                i <= rw.listeners@.len(),
                listeners@ == rw.listeners@.take(i as int),
                registered@ == rw.listeners@.take(i as int),
            decreases rw.listeners@.len() - i,
        {
            listeners.push(rw.listeners[i]);
            registered.push(rw.listeners[i]);
            proof {
                assert(listeners@ =~= rw.listeners@.take(i + 1));
                assert(registered@ =~= rw.listeners@.take(i + 1));
            }
            i += 1;
        }
        proof {
            assert(rw.listeners@.take(i as int) =~= rw.listeners@);
        }
        let rw_index = system_meta.add_rw(rw);
        let listener_key: usize = if listeners.len() > 0 {
            let by_filter = filter.rejection();
            let by_fetch = fetch.rejection();
            let rejects = Reject::Either(Box::new(by_filter), Box::new(by_fetch));
            proof {
                assert forall|columns: Seq<ComponentInfo>| #[trigger]
                    rejects.holds(columns) == (filter.rejects(columns) || fetch.rejects(columns)) by {
                    assert(rejects.holds(columns) == (by_filter.holds(columns) || by_fetch.holds(
                        columns,
                    )));
                }
            }
            let ghost before = world.listeners();
            let key = world.register_listener(Listener { listened: registered, rejects });
            proof {
                assert(world.listeners().take(before.len() as int) =~= before);
            }
            key
        } else {
            0
        };
        Self::new(fetch, filter, rw_index, listener_key, listeners)
    }

    /// A cache that agrees with a world agrees with every world that has
    /// the archetypes of the first, with the component sets they had.
    pub proof fn lemma_wf_follows(&self, before: &World, after: &World)
        requires
            self.wf(before),
            after.archetypes().len() >= before.archetypes().len(),
            forall|a: int|
                0 <= a < before.archetypes().len() ==> (#[trigger] after.table(a)).columns()
                    == before.table(a).columns(),
            after.listeners().len() >= before.listeners().len(),
            forall|k: int|
                0 <= k < before.listeners().len() ==> #[trigger] after.listeners()[k]
                    == before.listeners()[k],
        ensures
            self.wf(after),
    {
        assert forall|i: int| 0 <= i < self.matched().len() implies {
            let a = (#[trigger] self.matched()[i]).0 as int;
            &&& 0 <= a < after.archetypes().len()
            &&& self.accepts(after.table(a).columns())
            &&& self.fetch().state_for(after.table(a).columns(), self.states()[i])
            &&& slots_ok(after.table(a).columns(), self.listeners(), self.slots_of(i))
        } by {
            let a = self.matched()[i].0 as int;
            assert(after.table(a).columns() == before.table(a).columns());
        }
        assert forall|k: i32|
            0 <= k < self.archetype_len() && !(#[trigger] self.map().contains_key(k)) implies !self.accepts(
            after.table(k as int).columns(),
        ) by {
            assert(after.table(k as int).columns() == before.table(k as int).columns());
        }
    }

    /// Takes note of an archetype of the world: where the query accepts it,
    /// it joins the matched archetypes, with the positions of the listened
    /// components that it has and the state of the fetch for it, and the
    /// system is told that the query touches it. Where the query does not
    /// accept it, or the world has no archetype at the index, nothing
    /// changes.
    pub fn add_archetype(
        &mut self,
        world: &World,
        index: ArchetypeWorldIndex,
        system_meta: &mut SystemMeta,
    )
        requires
            world.wf(),
            old(self).entries_ok(world),
        ensures
            final(self).entries_ok(world),
            final(self).archetype_len() == old(self).archetype_len(),
            final(self).map() == old(self).map(),
            final(self).last() == old(self).last(),
            final(self).fetch() == old(self).fetch(),
            final(self).filter() == old(self).filter(),
            final(self).listeners() == old(self).listeners(),
            final(self).rw_index() == old(self).rw_index(),
            final(self).removes() == old(self).removes(),
            final(self).last_run() == old(self).last_run(),
            final(system_meta).rws() == old(system_meta).rws(),
            if 0 <= index.0 < world.archetypes().len() && old(self).accepts(
                world.table(index.0 as int).columns(),
            ) {
                &&& final(self).matched() == old(self).matched().push(index)
                &&& final(self).states().len() == old(self).states().len() + 1
                &&& final(self).states().take(old(self).states().len() as int) == old(self).states()
                &&& final(system_meta).touched() == old(system_meta).touched().push(
                    (old(self).rw_index(), index),
                )
            } else {
                &&& *final(self) == *old(self)
                &&& *final(system_meta) == *old(system_meta)
            },
    {
        let ar = match world.get_archetype(index) {
            Some(ar) => ar,
            None => {
                return ;
            },
        };
        let ghost columns = world.table(index.0 as int).columns();
        proof {
            assert(world.archetypes()[index.0 as int].wf());
        }
        if self.filter.archetype_filter(ar) || self.fetch.archetype_filter(ar) {
            return ;
        }
        let mut slots = slots_new();
        let n = self.listeners.len();
        if n > 0 {
            // The slots that the archetype got for this query when it was
            // created, or when the query was registered.
            ar.find_records(self.listener_key, &mut slots);
        }
        proof {
            let records = ar.spec_records();
            let listened = self.listeners@;
            if n > 0 {
                world.lemma_listeners_len();
                assert(world.listeners()[self.listener_key as int].wanted(columns));
                lemma_slots_all(columns, world.listeners(), world.listeners().len(), self.listener_key);
                assert(slot_items(slots) =~= slots_with_key(records, self.listener_key, records.len()));
            } else {
                assert(slot_items(slots) =~= listened_slots(columns, listened, 0));
            }
            lemma_listened_slots(columns, listened, listened.len());
            assert(slot_items(slots) == listened_slots(columns, listened, listened.len()));
        }
        if n > 0 && slots_len(&slots) == 0 {
            proof {
                assert(!listens_on(columns, self.listeners()));
            }
            return ;
        }
        proof {
            if n > 0 {
                let s0 = slot_items(slots)[0];
                let j = choose|j: int|
                    0 <= j < self.listeners@.len() && (#[trigger] self.listeners@[j]).0
                        == columns[s0 as int].index;
                assert(has_component(columns, self.listeners@[j].0));
            }
        }
        let ghost kept = slot_items(slots);
        self.vec.push((index, slots));
        let state = self.fetch.init_state(world, ar);
        self.state_vec.push(state);
        system_meta.rw_archetype(self.rw_index, index);
        proof {
            let m = old(self).matched().len() as int;
            assert(self.matched() =~= old(self).matched().push(index));
            assert(self.states().take(m) =~= old(self).states());
            assert forall|i: int| 0 <= i < m implies self.slots_of(i) == old(self).slots_of(i) by {}
            assert(self.slots_of(m) == kept);
            assert forall|i: int| 0 <= i < self.matched().len() implies {
                let a = (#[trigger] self.matched()[i]).0 as int;
                &&& 0 <= a < world.archetypes().len()
                &&& self.accepts(world.table(a).columns())
                &&& self.fetch().state_for(world.table(a).columns(), self.states()[i])
                &&& self.slots_of(i) == listened_slots(
                    world.table(a).columns(),
                    self.listeners(),
                    self.listeners().len(),
                )
                &&& slots_ok(world.table(a).columns(), self.listeners(), self.slots_of(i))
            } by {
                if i < m {
                    assert(self.matched()[i] == old(self).matched()[i]);
                    assert(self.states()[i] == old(self).states()[i]);
                }
            }
        }
    }

    /// Brings the cache up to date with the world: takes note of every
    /// archetype that the query has not seen, in the order of their index.
    pub fn align(&mut self, world: &World, system_meta: &mut SystemMeta)
        requires
            world.wf(),
            old(self).wf(world),
        ensures
            final(self).wf(world),
            final(self).archetype_len() == world.archetypes().len(),
            final(self).fetch() == old(self).fetch(),
            final(self).filter() == old(self).filter(),
            final(self).listeners() == old(self).listeners(),
            final(self).rw_index() == old(self).rw_index(),
            final(self).removes() == old(self).removes(),
            final(self).last_run() == old(self).last_run(),
            final(system_meta).rws() == old(system_meta).rws(),
            final(self).matched().len() >= old(self).matched().len(),
            final(self).matched().take(old(self).matched().len() as int) == old(self).matched(),
    {
        let len = world.archetype_len();
        if len == self.archetype_len {
            proof {
                assert(self.matched().take(self.matched().len() as int) =~= self.matched());
            }
            return ;
        }
        let mut i: usize = self.archetype_len;
        while i < len
            invariant
                world.wf(),
                self.wf(world),
                len == world.archetypes().len(),
                len <= i32::MAX,
                i == self.archetype_len(),
                i <= len,
                self.fetch() == old(self).fetch(),
                self.filter() == old(self).filter(),
                self.listeners() == old(self).listeners(),
                self.rw_index() == old(self).rw_index(),
                self.removes() == old(self).removes(),
                self.last_run() == old(self).last_run(),
                system_meta.rws() == old(system_meta).rws(),
                self.matched().len() >= old(self).matched().len(),
                self.matched().take(old(self).matched().len() as int) == old(self).matched(),
            decreases len - i,
        {
            let ghost before = *self;
            let index = ArchetypeWorldIndex(i as i32);
            let matched = self.vec.len();
            self.add_archetype(world, index, system_meta);
            // The archetype is seen now; where it was matched, it is found
            // at the end of the matched archetypes.
            if self.vec.len() > matched {
                self.map.insert(i as i32, matched);
            }
            self.archetype_len = i + 1;
            proof {
                let m = before.matched().len() as int;
                let accepted = before.accepts(world.table(i as int).columns());
                assert(self.matched().len() == self.vec@.len());
                assert(before.matched().len() == matched);
                assert(self.matched() == if accepted {
                    before.matched().push(index)
                } else {
                    before.matched()
                });
                assert(self.matched().take(old(self).matched().len() as int) =~= before.matched().take(
                    old(self).matched().len() as int,
                ));
                assert forall|k: int| 0 <= k < self.matched().len() implies (
                #[trigger] self.matched()[k]).0 < self.archetype_len() by {
                    if k < m {
                        assert(before.matched()[k].0 < before.archetype_len());
                    }
                }
                assert forall|k: int, j: int| 0 <= k < j < self.matched().len() implies (
                #[trigger] self.matched()[k]).0 < (#[trigger] self.matched()[j]).0 by {
                    if j == m {
                        assert(before.matched()[k].0 < before.archetype_len());
                    }
                }
                assert forall|k: i32| #[trigger] self.map().contains_key(k) implies {
                    &&& 0 <= k < self.archetype_len()
                    &&& self.map()[k] < self.matched().len()
                    &&& self.matched()[self.map()[k] as int].0 == k
                } by {
                    if k != i as i32 {
                        assert(before.map().contains_key(k));
                        assert(self.matched()[before.map()[k] as int] == before.matched()[before.map()[k] as int]);
                    }
                }
                assert forall|k: i32|
                    0 <= k < self.archetype_len() && !(#[trigger] self.map().contains_key(k)) implies !self.accepts(
                    world.table(k as int).columns(),
                ) by {
                    if k != i as i32 {
                        assert(!before.map().contains_key(k));
                    }
                }
                assert(before.last().0.is_null() || self.map().contains_key(before.last().0.0));
            }
            i += 1;
        }
    }

    /// Whether the query matches the archetype at `a`.
    pub open spec fn matches(&self, a: int) -> bool {
        i32::MIN <= a <= i32::MAX && self.map().contains_key(a as i32)
    }

    /// Looks an entity up for a query: finds where it is, and the position
    /// of its archetype among the matched, which `last` keeps for the next
    /// lookup. An entity that is not in the world gives `NoSuchEntity`, one
    /// in an archetype that is not matched `NoSuchArchetype`.
    pub fn check(
        last: &mut (ArchetypeWorldIndex, usize),
        map: &HashMap<i32, usize>,
        world: &World,
        entity: Entity,
    ) -> (r: Result<(ArchetypeWorldIndex, Row), QueryError>)
        requires
            world.wf(),
            old(last).0.is_null() || (map@.contains_key(old(last).0.0) && map@[old(last).0.0] == old(last).1),
        ensures
            final(last).0.is_null() || (map@.contains_key(final(last).0.0) && map@[final(last).0.0]
                == final(last).1),
            match r {
                Ok(addr) => {
                    &&& world.located(entity) == Some(addr)
                    &&& map@.contains_key(addr.0.0)
                    &&& *final(last) == (addr.0, map@[addr.0.0])
                },
                Err(err) => {
                    &&& *final(last) == *old(last)
                    &&& match world.located(entity) {
                        None => err == QueryError::NoSuchEntity,
                        Some(addr) => err == QueryError::NoSuchArchetype && !map@.contains_key(
                            addr.0.0,
                        ),
                    }
                },
            },
    {
        let addr = match world.lookup(entity) {
            Ok(addr) => addr,
            Err(err) => {
                return Err(err);
            },
        };
        let archetype_index = addr.0;
        proof {
            assert(world.slots()[entity.slot as int].live);
        }
        if last.0.0 != archetype_index.0 {
            let local = match map.get(&archetype_index.0) {
                Some(local) => *local,
                None => {
                    return Err(QueryError::NoSuchArchetype);
                },
            };
            *last = (archetype_index, local);
        }
        Ok(addr)
    }

    /// What the query fetches of an entity. An entity that is not in the
    /// world gives `NoSuchEntity`, one in an archetype that the query does
    /// not match `NoSuchArchetype`.
    pub fn get(&mut self, world: &World, entity: Entity, tick: Tick) -> (r: Result<
        Q::Item,
        QueryError,
    >)
        requires
            world.wf(),
            old(self).wf(world),
        ensures
            final(self).wf(world),
            final(self).fetch() == old(self).fetch(),
            final(self).filter() == old(self).filter(),
            final(self).listeners() == old(self).listeners(),
            final(self).matched() == old(self).matched(),
            final(self).archetype_len() == old(self).archetype_len(),
            final(self).removes() == old(self).removes(),
            final(self).last_run() == old(self).last_run(),
            match r {
                Ok(item) => {
                    &&& world.located(entity).is_some()
                    &&& old(self).matches(world.located(entity).unwrap().0.0 as int)
                    &&& old(self).fetch().is_item(
                        *world,
                        world.located(entity).unwrap().0,
                        world.located(entity).unwrap().1,
                        entity,
                        item,
                    )
                },
                Err(err) => match world.located(entity) {
                    None => err == QueryError::NoSuchEntity,
                    Some(addr) => err == QueryError::NoSuchArchetype && !old(self).matches(
                        addr.0.0 as int,
                    ),
                },
            },
    {
        let addr = match Self::check(&mut self.last, &self.map, world, entity) {
            Ok(addr) => addr,
            Err(err) => {
                return Err(err);
            },
        };
        proof {
            assert forall|i: int| 0 <= i < self.matched().len() implies self.slots_of(i) == old(self).slots_of(i) by {}
            assert(self.map() == old(self).map());
            assert(self.matched() == old(self).matched());
            assert(self.map() == old(self).map());
            assert(self.matched() == old(self).matched());
            assert(old(self).map().contains_key(addr.0.0));
            assert(self.last.1 == old(self).map()[addr.0.0]);
            assert(self.matched()[self.last.1 as int].0 == addr.0.0);
            assert(world.slots()[entity.slot as int].live);
        }
        let state = &self.state_vec[self.last.1];
        let cursor = self.fetch.init_fetch(world, addr.0, state, tick);
        Ok(self.fetch.fetch(world, &cursor, state, addr.1, entity))
    }

    /// The number of rows of the matched archetypes, the removed but not
    /// yet compacted among them.
    pub open spec fn total_rows(&self, world: &World, n: nat) -> nat
        decreases n,
    {
        if n == 0 || n > self.matched().len() {
            0
        } else {
            self.total_rows(world, (n - 1) as nat) + world.table(
                self.matched()[n - 1].0 as int,
            ).entities().len()
        }
    }

    /// The number of rows of the matched archetypes, the removed but not
    /// yet compacted among them; the largest `usize` where that is less.
    pub fn len(&self, world: &World) -> (r: usize)
        requires
            world.wf(),
            self.wf(world),
        ensures
            r == if self.total_rows(world, self.matched().len()) <= usize::MAX {
                self.total_rows(world, self.matched().len())
            } else {
                usize::MAX as nat
            },
    {
        let mut len: usize = 0;
        let mut i: usize = 0;
        while i < self.vec.len()
            invariant
                i <= self.matched().len(),
                self.matched().len() == self.vec@.len(),
                world.wf(),
                self.wf(world),
                len == if self.total_rows(world, i as nat) <= usize::MAX {
                    self.total_rows(world, i as nat)
                } else {
                    usize::MAX as nat
                },
            decreases self.matched().len() - i,
        {
            let index = self.vec[i].0;
            assert(self.matched()[i as int] == index);
            let rows = match world.get_archetype(index) {
                Some(ar) => {
                    proof {
                        assert(world.archetypes()[index.0 as int].wf());
                    }
                    ar.table().len().index()
                },
                None => 0,
            };
            len = len.saturating_add(rows);
            i += 1;
        }
        len
    }

    /// Whether the matched archetypes have no rows.
    pub fn is_empty(&self, world: &World) -> (r: bool)
        requires
            world.wf(),
            self.wf(world),
        ensures
            r == (self.total_rows(world, self.matched().len()) == 0),
    {
        if self.vec.len() == 0 {
            return true;
        }
        self.len(world) == 0
    }

    /// The tick at which the entity took its row, the reserved tick for an
    /// entity that is not in the world.
    pub fn entity_tick(world: &World, e: Entity) -> (r: Tick)
        ensures
            r == world.placed_at(e),
    {
        world.entity_tick(e)
    }

    /// Whether the entity is marked for deletion.
    pub fn is_marked(&self, entity: Entity) -> (r: bool)
        ensures
            r == (exists|i: int| 0 <= i < self.removes().len() && (#[trigger] self.removes()[i]).1 == entity),
    {
        let mut i: usize = 0;
        while i < self.removes.len()
            invariant
                i <= self.removes@.len(),
                forall|j: int| 0 <= j < i ==> (#[trigger] self.removes@[j]).1 != entity,
            decreases self.removes@.len() - i,
        {
            let marked = self.removes[i].1;
            if marked.generation == entity.generation && marked.slot == entity.slot {
                proof {
                    assert(self.removes()[i as int].1 == entity);
                }
                return true;
            }
            i += 1;
        }
        false
    }

    /// Marks an entity for deletion at the end of the run. Returns whether
    /// it was not marked already. An entity that is not in the world gives
    /// `NoSuchEntity`, one in an archetype that the query does not match
    /// `NoSuchArchetype`.
    pub fn delete(&mut self, world: &World, entity: Entity) -> (r: Result<bool, QueryError>)
        requires
            world.wf(),
            old(self).wf(world),
        ensures
            final(self).wf(world),
            final(self).fetch() == old(self).fetch(),
            final(self).filter() == old(self).filter(),
            final(self).listeners() == old(self).listeners(),
            final(self).matched() == old(self).matched(),
            final(self).archetype_len() == old(self).archetype_len(),
            final(self).last_run() == old(self).last_run(),
            match r {
                Ok(fresh) => {
                    &&& world.located(entity).is_some()
                    &&& old(self).matches(world.located(entity).unwrap().0.0 as int)
                    &&& fresh == !(exists|i: int|
                        0 <= i < old(self).removes().len() && (#[trigger] old(self).removes()[i]).1
                            == entity)
                    &&& if fresh {
                        final(self).removes().len() == old(self).removes().len() + 1 && final(self).removes().last().1 == entity && final(self).removes().drop_last() == old(self).removes()
                    } else {
                        final(self).removes() == old(self).removes()
                    }
                },
                Err(err) => {
                    &&& final(self).removes() == old(self).removes()
                    &&& match world.located(entity) {
                        None => err == QueryError::NoSuchEntity,
                        Some(addr) => err == QueryError::NoSuchArchetype && !old(self).matches(
                            addr.0.0 as int,
                        ),
                    }
                },
            },
    {
        let addr = match Self::check(&mut self.last, &self.map, world, entity) {
            Ok(addr) => addr,
            Err(err) => {
                return Err(err);
            },
        };
        proof {
            assert forall|i: int| 0 <= i < self.matched().len() implies self.slots_of(i) == old(self).slots_of(i) by {}
            assert(self.map() == old(self).map());
            assert(self.matched() == old(self).matched());
        }
        if self.is_marked(entity) {
            proof {
                assert(self.removes() == old(self).removes());
                assert(world.slots()[entity.slot as int].live);
            }
            return Ok(false);
        }
        let local: usize = self.last.1;
        self.removes.push((local as u32, entity));
        proof {
            assert(self.removes().drop_last() =~= old(self).removes());
            assert forall|i: int| 0 <= i < self.matched().len() implies self.slots_of(i) == old(self).slots_of(i) by {}
            assert(self.map() == old(self).map());
            assert(self.matched() == old(self).matched());
        }
        Ok(true)
    }

    /// Ends a run of the query at `tick`: destroys the entities that were
    /// marked for deletion and are still in the world, and records the
    /// tick as that of the last run.
    pub fn clear(&mut self, world: &mut World, tick: Tick)
        requires
            old(world).wf(),
            old(self).wf(old(world)),
        ensures
            final(world).wf(),
            final(self).wf(final(world)),
            final(self).removes().len() == 0,
            final(self).last_run() == tick,
            final(self).fetch() == old(self).fetch(),
            final(self).filter() == old(self).filter(),
            final(self).listeners() == old(self).listeners(),
            final(self).matched() == old(self).matched(),
            final(self).archetype_len() == old(self).archetype_len(),
            final(world).archetypes().len() == old(world).archetypes().len(),
            final(world).spec_tick() == old(world).spec_tick(),
            forall|i: int|
                0 <= i < old(self).removes().len() ==> final(world).located(
                    (#[trigger] old(self).removes()[i]).1,
                ).is_none(),
            forall|e: Entity|
                !(exists|i: int|
                    0 <= i < old(self).removes().len() && (#[trigger] old(self).removes()[i]).1 == e)
                    ==> #[trigger] final(world).located(e) == old(world).located(e),
    {
        let ghost marked = self.removes@;
        while self.removes.len() > 0
            invariant
                world.wf(),
                self.wf(world),
                self.removes@.len() <= marked.len(),
                self.removes@ == marked.take(self.removes@.len() as int),
                marked == old(self).removes(),
                self.vec@ == old(self).vec@,
                self.fetch() == old(self).fetch(),
                self.filter() == old(self).filter(),
                self.listeners() == old(self).listeners(),
                self.matched() == old(self).matched(),
                self.map() == old(self).map(),
                self.last() == old(self).last(),
                self.archetype_len() == old(self).archetype_len(),
                self.last_run() == old(self).last_run(),
                world.archetypes().len() == old(world).archetypes().len(),
                world.spec_tick() == old(world).spec_tick(),
                forall|i: int|
                    self.removes@.len() <= i < marked.len() ==> world.located((#[trigger] marked[i]).1).is_none(),
                forall|e: Entity|
                    !(exists|i: int| 0 <= i < marked.len() && (#[trigger] marked[i]).1 == e)
                        ==> #[trigger] world.located(e) == old(world).located(e),
            decreases self.removes@.len(),
        {
            let ghost before = *world;
            let ghost me = *self;
            let entry = self.removes.pop().unwrap();
            let ghost at = self.removes@.len() as int;
            proof {
                assert(entry == marked[at]);
                assert(self.removes@ =~= marked.take(at));
                assert(self.matched() == me.matched());
                assert forall|i: int| 0 <= i < self.matched().len() implies self.slots_of(i)
                    == me.slots_of(i) by {}
                assert(self.map() == me.map());
                assert(self.matched() == me.matched());
            }
            let r = world.destroy(entry.1);
            proof {
                if r.is_ok() {
                    assert(before.destroyed(world, entry.1));
                    self.lemma_wf_follows(&before, world);
                    assert forall|i: int| at <= i < marked.len() implies world.located(
                        (#[trigger] marked[i]).1,
                    ).is_none() by {
                        if marked[i].1 != entry.1 {
                            assert(world.located(marked[i].1) == before.located(marked[i].1));
                        }
                    }
                    assert forall|e: Entity|
                        !(exists|i: int| 0 <= i < marked.len() && (#[trigger] marked[i]).1 == e) implies #[trigger]
                        world.located(e) == old(world).located(e) by {
                        assert(e != marked[at].1);
                        assert(world.located(e) == before.located(e));
                    }
                } else {
                    self.lemma_wf_follows(&before, world);
                    assert forall|e: Entity| #[trigger] world.located(e) == before.located(e) by {}
                }
            }
        }
        self.last_run = tick;
        proof {
            assert forall|i: int| 0 <= i < self.matched().len() implies self.slots_of(i) == old(self).slots_of(i) by {}
            assert(self.map() == old(self).map());
            assert(self.matched() == old(self).matched());
        }
    }

    /// The index in the world of the `ar`-th matched archetype.
    pub open spec fn index_of(&self, ar: int) -> ArchetypeWorldIndex {
        self.matched()[ar]
    }

    /// Whether a row that holds `e` is yielded at `tick` by an iteration
    /// without listeners: the row holds an entity, which took the row
    /// before `tick`, not in the run itself.
    pub open spec fn row_passes(world: &World, tick: Tick, e: Entity) -> bool {
        !e.is_null() && 0 < world.placed_at(e).0 < tick.0
    }

    /// The rows that an iteration without listeners yields at `tick` from
    /// the row `row` of the `ar`-th matched archetype on: the rows of that
    /// archetype in ascending order, then those of the archetypes matched
    /// before it, the last matched first; of each archetype the rows that
    /// pass.
    pub open spec fn rows_from(&self, world: &World, tick: Tick, ar: nat, row: nat) -> Seq<
        (usize, Row, Entity),
    >
        decreases ar, world.table(self.index_of(ar as int).0 as int).entities().len() - row,
    {
        let entities = world.table(self.index_of(ar as int).0 as int).entities();
        if ar >= self.matched().len() {
            Seq::empty()
        } else if row < entities.len() {
            let rest = self.rows_from(world, tick, ar, row + 1);
            if Self::row_passes(world, tick, entities[row as int]) {
                seq![(ar as usize, Row(row as u32), entities[row as int])] + rest
            } else {
                rest
            }
        } else if ar == 0 {
            Seq::empty()
        } else {
            self.rows_from(world, tick, (ar - 1) as nat, 0)
        }
    }

    /// The index of the component that the `l`-th listener slot of the
    /// `ar`-th matched archetype stands for.
    pub open spec fn listened(&self, world: &World, ar: int, l: int) -> int {
        world.table(self.index_of(ar).0 as int).columns()[self.slots_of(ar)[l] as int].index.0 as int
    }

    /// The log of the `l`-th listened component of the `ar`-th matched
    /// archetype.
    pub open spec fn log_of(&self, world: &World, ar: int, l: int) -> Seq<(Entity, Tick)> {
        world.columns()[self.listened(world, ar, l)].log(self.index_of(ar))
    }

    /// Whether an entry of the log of the `l`-th listened component of the
    /// `ar`-th matched archetype is yielded at `tick`: the entity is still
    /// in the archetype, the entry records the latest tick of its
    /// component, and that tick is not zero, not before the last run, and
    /// before `tick`: what the run itself writes it does not see.
    pub open spec fn passes(&self, world: &World, tick: Tick, ar: int, l: int, entry: (Entity, Tick)) -> bool {
        match world.located(entry.0) {
            Some(addr) => addr.0 == self.index_of(ar) && entry.1 == world.columns()[self.listened(
                world,
                ar,
                l,
            )].tick(addr.0, addr.1) && 0 < entry.1.0 && self.last_run().0 <= entry.1.0 < tick.0,
            None => false,
        }
    }

    /// The row of a logged entity that is in the world.
    pub open spec fn row_of(&self, world: &World, entry: (Entity, Tick)) -> Row {
        world.located(entry.0).unwrap().1
    }

    /// The rows that an iteration with one listener yields from the
    /// position `pos` in the log of the `ar`-th matched archetype on: the
    /// entries of that log, oldest first, then those of the archetypes
    /// matched before it, the last matched first; of each log the entries
    /// that pass.
    pub open spec fn log_from(&self, world: &World, tick: Tick, ar: nat, pos: nat) -> Seq<
        (usize, Row, Entity),
    >
        decreases ar, self.log_of(world, ar as int, 0).len() - pos,
    {
        let log = self.log_of(world, ar as int, 0);
        if ar >= self.matched().len() {
            Seq::empty()
        } else if pos < log.len() {
            let rest = self.log_from(world, tick, ar, pos + 1);
            if self.passes(world, tick, ar as int, 0, log[pos as int]) {
                seq![(ar as usize, self.row_of(world, log[pos as int]), log[pos as int].0)] + rest
            } else {
                rest
            }
        } else if ar == 0 {
            Seq::empty()
        } else {
            self.log_from(world, tick, (ar - 1) as nat, 0)
        }
    }

    /// The rows that an iteration with several listeners yields from the
    /// position `pos` in the log of the `l`-th listened component of the
    /// `ar`-th matched archetype on, where the rows in `seen` were yielded
    /// for that archetype already: the entries of the logs of the listened
    /// components, one log after the other, then those of the archetypes
    /// matched before it, the last matched first; of each archetype the
    /// entries that pass, a row once.
    pub open spec fn logs_from(
        &self,
        world: &World,
        tick: Tick,
        ar: nat,
        l: nat,
        pos: nat,
        seen: Set<int>,
    ) -> Seq<(usize, Row, Entity)>
        decreases ar, self.slots_of(ar as int).len() - l, self.log_of(world, ar as int, l as int).len()
            - pos,
    {
        let log = self.log_of(world, ar as int, l as int);
        if ar >= self.matched().len() {
            Seq::empty()
        } else if l >= self.slots_of(ar as int).len() {
            if ar == 0 {
                Seq::empty()
            } else {
                self.logs_from(world, tick, (ar - 1) as nat, 0, 0, Set::empty())
            }
        } else if pos < log.len() {
            let entry = log[pos as int];
            let row = self.row_of(world, entry);
            if self.passes(world, tick, ar as int, l as int, entry) && !seen.contains(row.0 as int) {
                seq![(ar as usize, row, entry.0)] + self.logs_from(
                    world,
                    tick,
                    ar,
                    l,
                    pos + 1,
                    seen.insert(row.0 as int),
                )
            } else {
                self.logs_from(world, tick, ar, l, pos + 1, seen)
            }
        } else {
            self.logs_from(world, tick, ar, l + 1, 0, seen)
        }
    }

    /// An iteration over the rows that the query matches at `tick`.
    pub fn iter<'w>(&'w self, world: &'w World, tick: Tick) -> (r: QueryIter<'w, Q, F>)
        requires
            world.wf(),
            self.wf(world),
        ensures
            r.wf(),
            r.state() == self,
            r.world() == world,
            r.tick() == tick,
            r.remaining() == self.all_rows(world, tick),
    {
        QueryIter::new(world, self, tick)
    }

    /// Everything that an iteration at `tick` yields, in order.
    pub open spec fn all_rows(&self, world: &World, tick: Tick) -> Seq<(usize, Row, Entity)> {
        if self.matched().len() == 0 {
            Seq::empty()
        } else if self.listener_count() == 0 {
            self.rows_from(world, tick, (self.matched().len() - 1) as nat, 0)
        } else if self.listener_count() == 1 {
            self.log_from(world, tick, (self.matched().len() - 1) as nat, 0)
        } else {
            self.logs_from(world, tick, (self.matched().len() - 1) as nat, 0, 0, Set::empty())
        }
    }
}


impl<Q: FetchComponents, F: FilterComponents> QueryState<Q, F> {
    /// Whether `x` comes before `y` in an iteration: it is of an archetype
    /// matched later, or of the same archetype and a lower row.
    pub open spec fn comes_before(x: (usize, Row, Entity), y: (usize, Row, Entity)) -> bool {
        x.0 > y.0 || (x.0 == y.0 && x.1.0 < y.1.0)
    }

    /// An iteration without listeners yields the rows of one archetype in
    /// ascending order and the archetypes in descending order of their
    /// position among the matched, the last matched first; each row it
    /// yields holds the entity it is yielded with, which took the row
    /// before the tick of the run.
    pub proof fn lemma_rows_in_order(&self, world: &World, tick: Tick, ar: nat, row: nat)
        requires
            world.wf(),
            self.wf(world),
            ar < self.matched().len(),
            row <= world.table(self.index_of(ar as int).0 as int).entities().len(),
        ensures
            forall|p: int|
                0 <= p < self.rows_from(world, tick, ar, row).len() ==> {
                    let x = #[trigger] self.rows_from(world, tick, ar, row)[p];
                    let entities = world.table(self.index_of(x.0 as int).0 as int).entities();
                    &&& x.0 <= ar
                    &&& x.0 == ar ==> x.1.0 >= row
                    &&& x.1.0 < entities.len()
                    &&& entities[x.1.0 as int] == x.2
                    &&& Self::row_passes(world, tick, x.2)
                },
            forall|p: int, q: int|
                0 <= p < q < self.rows_from(world, tick, ar, row).len() ==> Self::comes_before(
                    #[trigger] self.rows_from(world, tick, ar, row)[p],
                    #[trigger] self.rows_from(world, tick, ar, row)[q],
                ),
        decreases ar, world.table(self.index_of(ar as int).0 as int).entities().len() - row,
    {
        let rows = self.rows_from(world, tick, ar, row);
        let a = self.matched()[ar as int].0 as int;
        assert(world.archetypes()[a].wf());
        let entities = world.table(a).entities();
        assert(self.vec@.len() == self.matched().len());
        if row < entities.len() {
            self.lemma_rows_in_order(world, tick, ar, row + 1);
            let rest = self.rows_from(world, tick, ar, row + 1);
            if Self::row_passes(world, tick, entities[row as int]) {
                let head = (ar as usize, Row(row as u32), entities[row as int]);
                assert(rows == seq![head] + rest);
                assert forall|p: int| 0 <= p < rows.len() implies {
                    let x = #[trigger] rows[p];
                    let entities = world.table(self.index_of(x.0 as int).0 as int).entities();
                    &&& x.0 <= ar
                    &&& x.0 == ar ==> x.1.0 >= row
                    &&& x.1.0 < entities.len()
                    &&& entities[x.1.0 as int] == x.2
                    &&& Self::row_passes(world, tick, x.2)
                } by {
                    if p > 0 {
                        assert(rows[p] == rest[p - 1]);
                    }
                }
                assert forall|p: int, q: int| 0 <= p < q < rows.len() implies Self::comes_before(
                    #[trigger] rows[p],
                    #[trigger] rows[q],
                ) by {
                    assert(rows[q] == rest[q - 1]);
                    if p > 0 {
                        assert(rows[p] == rest[p - 1]);
                    }
                }
            } else {
                assert(rows == rest);
            }
        } else if ar > 0 {
            self.lemma_rows_in_order(world, tick, (ar - 1) as nat, 0);
            assert(rows == self.rows_from(world, tick, (ar - 1) as nat, 0));
        }
    }

    /// An iteration with one listener yields only rows whose entity is in
    /// the world at that row, and whose listened component has a tick that
    /// is not zero, not before the last run, and before the tick of the
    /// run: what the run itself writes it does not yield.
    pub proof fn lemma_log_window(&self, world: &World, tick: Tick, ar: nat, pos: nat)
        requires
            ar < self.matched().len(),
        ensures
            forall|p: int|
                0 <= p < self.log_from(world, tick, ar, pos).len() ==> {
                    let x = #[trigger] self.log_from(world, tick, ar, pos)[p];
                    let t = world.columns()[self.listened(world, x.0 as int, 0)].tick(
                        self.index_of(x.0 as int),
                        x.1,
                    );
                    &&& x.0 <= ar
                    &&& world.located(x.2) == Some((self.index_of(x.0 as int), x.1))
                    &&& 0 < t.0 < tick.0
                    &&& self.last_run().0 <= t.0
                },
        decreases ar, self.log_of(world, ar as int, 0).len() - pos,
    {
        let rows = self.log_from(world, tick, ar, pos);
        let log = self.log_of(world, ar as int, 0);
        assert(self.vec.len() == self.vec@.len() && self.vec@.len() == self.matched().len());
        if pos < log.len() {
            self.lemma_log_window(world, tick, ar, pos + 1);
            let rest = self.log_from(world, tick, ar, pos + 1);
            if self.passes(world, tick, ar as int, 0, log[pos as int]) {
                let head = (ar as usize, self.row_of(world, log[pos as int]), log[pos as int].0);
                assert(rows == seq![head] + rest);
                assert forall|p: int| 0 <= p < rows.len() implies {
                    let x = #[trigger] rows[p];
                    let t = world.columns()[self.listened(world, x.0 as int, 0)].tick(
                        self.index_of(x.0 as int),
                        x.1,
                    );
                    &&& x.0 <= ar
                    &&& world.located(x.2) == Some((self.index_of(x.0 as int), x.1))
                    &&& 0 < t.0 < tick.0
                    &&& self.last_run().0 <= t.0
                } by {
                    if p > 0 {
                        assert(rows[p] == rest[p - 1]);
                    } else {
                        let entry = log[pos as int];
                        let addr = world.located(entry.0).unwrap();
                        assert(rows[0] == head);
                        assert(head.0 as int == ar);
                        assert(addr.0 == self.index_of(ar as int));
                        assert(addr == (addr.0, addr.1));
                        assert(head.1 == addr.1);
                    }
                }
            } else {
                assert(rows == rest);
            }
        } else if ar > 0 {
            self.lemma_log_window(world, tick, (ar - 1) as nat, 0);
            assert(rows == self.log_from(world, tick, (ar - 1) as nat, 0));
        }
    }

    /// Whether the row is one that an iteration with listeners may yield
    /// for the `l`-th listened component of its archetype: its entity is in
    /// the world at that row, and the tick of the component is not zero,
    /// not before the last run, and before the tick of the run.
    pub open spec fn in_window(&self, world: &World, tick: Tick, x: (usize, Row, Entity), l: int) -> bool {
        let t = world.columns()[self.listened(world, x.0 as int, l)].tick(self.index_of(x.0 as int), x.1);
        &&& world.located(x.2) == Some((self.index_of(x.0 as int), x.1))
        &&& 0 < t.0 < tick.0
        &&& self.last_run().0 <= t.0
    }

    /// An iteration with several listeners yields only rows that are in
    /// the window of one of the listened components of their archetype,
    /// and of the archetype it stands in none that it has yielded already.
    pub proof fn lemma_logs_window(
        &self,
        world: &World,
        tick: Tick,
        ar: nat,
        l: nat,
        pos: nat,
        seen: Set<int>,
    )
        requires
            ar < self.matched().len(),
        ensures
            forall|p: int|
                0 <= p < self.logs_from(world, tick, ar, l, pos, seen).len() ==> {
                    let x = #[trigger] self.logs_from(world, tick, ar, l, pos, seen)[p];
                    &&& x.0 <= ar
                    &&& x.0 == ar ==> !seen.contains(x.1.0 as int)
                    &&& exists|k: int|
                        0 <= k < self.slots_of(x.0 as int).len() && #[trigger] self.in_window(
                            world,
                            tick,
                            x,
                            k,
                        )
                },
        decreases ar, self.slots_of(ar as int).len() - l, self.log_of(world, ar as int, l as int).len()
            - pos,
    {
        let rows = self.logs_from(world, tick, ar, l, pos, seen);
        let log = self.log_of(world, ar as int, l as int);
        assert(self.vec.len() == self.vec@.len() && self.vec@.len() == self.matched().len());
        if l >= self.slots_of(ar as int).len() {
            if ar > 0 {
                self.lemma_logs_window(world, tick, (ar - 1) as nat, 0, 0, Set::empty());
                assert(rows == self.logs_from(world, tick, (ar - 1) as nat, 0, 0, Set::empty()));
            } else {
                assert(rows.len() == 0);
            }
        } else if pos < log.len() {
            let entry = log[pos as int];
            let row = self.row_of(world, entry);
            if self.passes(world, tick, ar as int, l as int, entry) && !seen.contains(row.0 as int) {
                let more = seen.insert(row.0 as int);
                self.lemma_logs_window(world, tick, ar, l, pos + 1, more);
                let rest = self.logs_from(world, tick, ar, l, pos + 1, more);
                let head = (ar as usize, row, entry.0);
                assert(rows == seq![head] + rest);
                assert forall|p: int| 0 <= p < rows.len() implies {
                    let x = #[trigger] rows[p];
                    &&& x.0 <= ar
                    &&& x.0 == ar ==> !seen.contains(x.1.0 as int)
                    &&& exists|k: int|
                        0 <= k < self.slots_of(x.0 as int).len() && #[trigger] self.in_window(
                            world,
                            tick,
                            x,
                            k,
                        )
                } by {
                    if p > 0 {
                        assert(rows[p] == rest[p - 1]);
                    } else {
                        let addr = world.located(entry.0).unwrap();
                        assert(rows[0] == head);
                        assert(head.0 as int == ar);
                        assert(addr == (addr.0, addr.1));
                        assert(self.in_window(world, tick, head, l as int));
                    }
                }
            } else {
                self.lemma_logs_window(world, tick, ar, l, pos + 1, seen);
                assert(rows == self.logs_from(world, tick, ar, l, pos + 1, seen));
            }
        } else {
            self.lemma_logs_window(world, tick, ar, l + 1, 0, seen);
            assert(rows == self.logs_from(world, tick, ar, l + 1, 0, seen));
        }
    }
}

/// The rows that a seen-set holds.
pub open spec fn seen_rows(seen: Set<u32>) -> Set<int> {
    Set::new(|r: int| 0 <= r <= u32::MAX && seen.contains(r as u32))
}

/// An iteration over the rows that a query matches. Where the query has no
/// listeners it walks every row of the matched archetypes; where it has
/// one it walks the log of the listened component; where it has several it
/// walks their logs one after the other and keeps the set of rows that it
/// has yielded for the archetype, to yield a row once.
pub struct QueryIter<'w, Q: FetchComponents, F: FilterComponents> {
    state: &'w QueryState<Q, F>,
    world: &'w World,
    tick: Tick,
    /// The position among the matched archetypes; the largest `usize` once
    /// the iteration is over.
    ar_index: usize,
    /// The next row, or the next position in the log.
    pos: usize,
    /// The listener slot whose log is walked.
    listener: usize,
    /// The rows yielded for the archetype.
    seen: HashSet<u32>,
}

impl<'w, Q: FetchComponents, F: FilterComponents> QueryIter<'w, Q, F> {
    /// The cache of the query.
    pub closed spec fn state(&self) -> &QueryState<Q, F> {
        self.state
    }

    /// The world that is iterated.
    pub closed spec fn world(&self) -> &World {
        self.world
    }

    /// The tick of the run.
    pub closed spec fn tick(&self) -> Tick {
        self.tick
    }

    /// The position among the matched archetypes; the largest `usize` once
    /// the iteration is over.
    pub closed spec fn ar_index(&self) -> usize {
        self.ar_index
    }

    /// The next row, or the next position in the log.
    pub closed spec fn pos(&self) -> usize {
        self.pos
    }

    /// The listener slot whose log is walked.
    pub closed spec fn listener(&self) -> usize {
        self.listener
    }

    /// The rows yielded for the archetype.
    pub closed spec fn seen(&self) -> Set<int> {
        seen_rows(self.seen@)
    }

    /// The world is well formed, the cache agrees with it, and the
    /// position is one among the matched archetypes unless the iteration
    /// is over.
    pub open spec fn wf(&self) -> bool {
        &&& self.world().wf()
        &&& self.state().wf(self.world())
        &&& self.ar_index() == usize::MAX || self.ar_index() < self.state().matched().len()
    }

    /// What the iteration has yet to yield, in order.
    pub open spec fn remaining(&self) -> Seq<(usize, Row, Entity)> {
        if self.ar_index() == usize::MAX {
            Seq::empty()
        } else if self.state().listener_count() == 0 {
            self.state().rows_from(self.world(), self.tick(), self.ar_index() as nat, self.pos() as nat)
        } else if self.state().listener_count() == 1 {
            self.state().log_from(self.world(), self.tick(), self.ar_index() as nat, self.pos() as nat)
        } else {
            self.state().logs_from(
                self.world(),
                self.tick(),
                self.ar_index() as nat,
                self.listener() as nat,
                self.pos() as nat,
                self.seen(),
            )
        }
    }

    /// An iteration that starts at the archetype matched last.
    pub(crate) fn new(world: &'w World, state: &'w QueryState<Q, F>, tick: Tick) -> (r: Self)
        requires
            world.wf(),
            state.wf(world),
        ensures
            r.wf(),
            r.state() == state,
            r.world() == world,
            r.tick() == tick,
            r.remaining() == state.all_rows(world, tick),
    {
        let len = state.vec.len();
        if len == 0 {
            // The query matches no archetype.
            return QueryIter {
                state,
                world,
                tick,
                ar_index: usize::MAX,
                pos: 0,
                listener: 0,
                seen: HashSet::new(),
            };
        }
        let ar_index = len - 1;
        if state.listener_count <= 1 {
            // Every row, or the log of the one listened component.
            return QueryIter {
                state,
                world,
                tick,
                ar_index,
                pos: 0,
                listener: 0,
                seen: HashSet::new(),
            };
        }
        // Several logs, with the set of rows seen.
        let seen: HashSet<u32> = HashSet::new();
        proof {
            assert(seen_rows(seen@) =~= Set::empty());
        }
        QueryIter { state, world, tick, ar_index, pos: 0, listener: 0, seen }
    }

    /// The table of the archetype at the position.
    fn table_at(&self) -> (r: &'w Table)
        requires
            self.world().wf(),
            self.state().wf(self.world()),
            self.ar_index() < self.state().matched().len(),
        ensures
            *r == self.world().table(self.state().index_of(self.ar_index() as int).0 as int),
            r.wf(),
            r.backed_by(self.world().columns()),
            r.ar_index() == self.state().index_of(self.ar_index() as int),
            0 <= self.state().index_of(self.ar_index() as int).0 < self.world().archetypes().len(),
    {
        let index = self.state.vec[self.ar_index].0;
        assert(self.state.matched()[self.ar_index as int] == index);
        proof {
            assert(self.world.archetypes()[index.0 as int].wf());
        }
        self.world.archetype_at(index.index()).table()
    }

    /// What the `l`-th listened component stores for the archetype at the
    /// position.
    fn blob_at(&self, l: usize) -> (r: &'w BlobTicks)
        requires
            self.wf(),
            self.ar_index() != usize::MAX,
            l < self.state().slots_of(self.ar_index() as int).len(),
        ensures
            r.log() == self.state().log_of(self.world(), self.ar_index() as int, l as int),
            forall|row: Row| #[trigger]
                r.tick(row) == self.world().columns()[self.state().listened(
                    self.world(),
                    self.ar_index() as int,
                    l as int,
                )].tick(self.state().index_of(self.ar_index() as int), row),
    {
        let table = self.table_at();
        let slot = slots_get(&self.state.vec[self.ar_index].1, l) as usize;
        let c = table.get_column_unchecked(slot).index;
        proof {
            assert(table.columns()[slot as int].index == c);
        }
        let column = &self.world.get_columns()[c.index()];
        column.blob(table.index())
    }

    /// The next row of an iteration without listeners, `None` once there
    /// is none.
    fn iter_normal(&mut self) -> (r: Option<(usize, Row, Entity)>)
        requires
            old(self).wf(),
            old(self).state().listener_count() == 0,
        ensures
            final(self).wf(),
            final(self).state() == old(self).state(),
            final(self).world() == old(self).world(),
            final(self).tick() == old(self).tick(),
            match r {
                Some(item) => {
                    &&& old(self).remaining() == seq![item] + final(self).remaining()
                    &&& item.0 < old(self).state().matched().len()
                    &&& item.1.0 < old(self).world().table(
                        old(self).state().index_of(item.0 as int).0 as int,
                    ).entities().len()
                },
                None => old(self).remaining().len() == 0 && final(self).remaining().len() == 0,
            },
    {
        if self.ar_index == usize::MAX {
            return None;
        }
        loop
            invariant
                self.wf(),
                self.ar_index != usize::MAX,
                self.state == old(self).state,
                self.world == old(self).world,
                self.tick == old(self).tick,
                self.state().listener_count() == 0,
                self.remaining() == old(self).remaining(),
            decreases
                    self.ar_index,
                    self.world().table(
                        self.state().index_of(self.ar_index as int).0 as int,
                    ).entities().len() - self.pos,
        {
            let table = self.table_at();
            let len: usize = table.len().index();
            if self.pos < len {
                let row = Row(self.pos as u32);
                let e = table.get(row);
                let placed = self.world.entity_tick(e);
                self.pos = self.pos + 1;
                // The row holds an entity that did not take it in this run.
                if !e.is_null() && placed.0 > 0 && placed.0 < self.tick.0 {
                    return Some((self.ar_index, row, e));
                }
            } else if self.ar_index == 0 {
                self.ar_index = usize::MAX;
                return None;
            } else {
                self.ar_index = self.ar_index - 1;
                self.pos = 0;
            }
        }
    }

    /// Whether a log entry passes at the position: see
    /// `QueryState::passes`. Returns the row of the entity where it does.
    fn entry_passes(&self, l: usize, blob: &BlobTicks, entry: (Entity, Tick)) -> (r: Option<Row>)
        requires
            self.wf(),
            self.ar_index() != usize::MAX,
            l < self.state().slots_of(self.ar_index() as int).len(),
            forall|row: Row| #[trigger]
                blob.tick(row) == self.world().columns()[self.state().listened(
                    self.world(),
                    self.ar_index() as int,
                    l as int,
                )].tick(self.state().index_of(self.ar_index() as int), row),
        ensures
            match r {
                Some(row) => self.state().passes(
                    self.world(),
                    self.tick(),
                    self.ar_index() as int,
                    l as int,
                    entry,
                ) && row == self.state().row_of(self.world(), entry) && row.0 < self.world().table(
                    self.state().index_of(self.ar_index() as int).0 as int,
                ).entities().len(),
                None => !self.state().passes(
                    self.world(),
                    self.tick(),
                    self.ar_index() as int,
                    l as int,
                    entry,
                ),
            },
    {
        let index = self.state.vec[self.ar_index].0;
        assert(self.state.matched()[self.ar_index as int] == index);
        match self.world.lookup(entry.0) {
            Ok(addr) => {
                if addr.0.0 != index.0 {
                    return None;
                }
                proof {
                    assert(self.world.slots()[entry.0.slot as int].live);
                }
                let current = blob.get_tick(addr.1);
                if current.0 == entry.1.0 && 0 < current.0 && self.state.last_run.0 <= current.0
                    && current.0 < self.tick.0 {
                    Some(addr.1)
                } else {
                    None
                }
            },
            Err(_) => None,
        }
    }

    /// The next row of an iteration with one listener, `None` once there
    /// is none.
    fn iter_record(&mut self) -> (r: Option<(usize, Row, Entity)>)
        requires
            old(self).wf(),
            old(self).state().listener_count() == 1,
        ensures
            final(self).wf(),
            final(self).state() == old(self).state(),
            final(self).world() == old(self).world(),
            final(self).tick() == old(self).tick(),
            match r {
                Some(item) => {
                    &&& old(self).remaining() == seq![item] + final(self).remaining()
                    &&& item.0 < old(self).state().matched().len()
                    &&& item.1.0 < old(self).world().table(
                        old(self).state().index_of(item.0 as int).0 as int,
                    ).entities().len()
                },
                None => old(self).remaining().len() == 0 && final(self).remaining().len() == 0,
            },
    {
        if self.ar_index == usize::MAX {
            return None;
        }
        loop
            invariant
                self.wf(),
                self.ar_index != usize::MAX,
                self.state == old(self).state,
                self.world == old(self).world,
                self.tick == old(self).tick,
                self.state().listener_count() == 1,
                self.remaining() == old(self).remaining(),
            decreases
                    self.ar_index,
                    self.state().log_of(self.world(), self.ar_index as int, 0).len() - self.pos,
        {
            proof {
                let a = self.state().index_of(self.ar_index as int).0 as int;
                assert(slots_ok(
                    self.world().table(a).columns(),
                    self.state().listeners(),
                    self.state().slots_of(self.ar_index as int),
                ));
            }
            let blob = self.blob_at(0);
            if self.pos < blob.log_len() {
                let entry = blob.log_get(self.pos);
                let passed = self.entry_passes(0, blob, entry);
                self.pos = self.pos + 1;
                match passed {
                    Some(row) => {
                        return Some((self.ar_index, row, entry.0));
                    },
                    None => {},
                }
            } else if self.ar_index == 0 {
                self.ar_index = usize::MAX;
                return None;
            } else {
                self.ar_index = self.ar_index - 1;
                self.pos = 0;
            }
        }
    }

    /// The next row of an iteration with several listeners, `None` once
    /// there is none.
    fn iter_records(&mut self) -> (r: Option<(usize, Row, Entity)>)
        requires
            old(self).wf(),
            old(self).state().listener_count() > 1,
        ensures
            final(self).wf(),
            final(self).state() == old(self).state(),
            final(self).world() == old(self).world(),
            final(self).tick() == old(self).tick(),
            match r {
                Some(item) => {
                    &&& old(self).remaining() == seq![item] + final(self).remaining()
                    &&& item.0 < old(self).state().matched().len()
                    &&& item.1.0 < old(self).world().table(
                        old(self).state().index_of(item.0 as int).0 as int,
                    ).entities().len()
                },
                None => old(self).remaining().len() == 0 && final(self).remaining().len() == 0,
            },
    {
        if self.ar_index == usize::MAX {
            return None;
        }
        loop
            invariant
                self.wf(),
                self.ar_index != usize::MAX,
                self.state == old(self).state,
                self.world == old(self).world,
                self.tick == old(self).tick,
                self.state().listener_count() > 1,
                self.remaining() == old(self).remaining(),
            decreases
                    self.ar_index,
                    self.state().slots_of(self.ar_index as int).len() - self.listener,
                    self.state().log_of(self.world(), self.ar_index as int, self.listener as int).len()
                        - self.pos,
        {
            let slots: usize = slots_len(&self.state.vec[self.ar_index].1);
            if self.listener >= slots {
                // Every log of the archetype is walked.
                if self.ar_index == 0 {
                    self.ar_index = usize::MAX;
                    return None;
                }
                self.ar_index = self.ar_index - 1;
                self.listener = 0;
                self.pos = 0;
                self.seen.clear();
                proof {
                    assert(seen_rows(self.seen@) =~= Set::empty());
                }
                continue ;
            }
            let blob = self.blob_at(self.listener);
            if self.pos < blob.log_len() {
                let entry = blob.log_get(self.pos);
                let passed = self.entry_passes(self.listener, blob, entry);
                self.pos = self.pos + 1;
                match passed {
                    Some(row) => {
                        // A row that another log yielded is passed over.
                        if !self.seen.contains(&row.0) {
                            let ghost before = seen_rows(self.seen@);
                            self.seen.insert(row.0);
                            proof {
                                assert(seen_rows(self.seen@) =~= before.insert(row.0 as int));
                            }
                            return Some((self.ar_index, row, entry.0));
                        }
                    },
                    None => {},
                }
            } else {
                // The next listened component of the archetype.
                self.listener = self.listener + 1;
                self.pos = 0;
            }
        }
    }

    /// The next item of the iteration: what the fetch hands out for the
    /// next row that the iteration has yet to yield. `None` once there is
    /// none.
    pub fn next(&mut self) -> (r: Option<Q::Item>)
        requires
            old(self).wf(),
        ensures
            final(self).wf(),
            final(self).state() == old(self).state(),
            final(self).world() == old(self).world(),
            final(self).tick() == old(self).tick(),
            match r {
                Some(item) => {
                    &&& old(self).remaining().len() > 0
                    &&& final(self).remaining() == old(self).remaining().skip(1)
                    &&& old(self).state().fetch().is_item(
                        *old(self).world(),
                        old(self).state().index_of(old(self).remaining()[0].0 as int),
                        old(self).remaining()[0].1,
                        old(self).remaining()[0].2,
                        item,
                    )
                },
                None => old(self).remaining().len() == 0 && final(self).remaining().len() == 0,
            },
    {
        let found = self.next_row();
        match found {
            Some(row) => {
                proof {
                    assert(old(self).remaining()[0] == row);
                    assert(old(self).remaining().skip(1) =~= self.remaining());
                }
                let index = self.state.vec[row.0].0;
                assert(self.state.matched()[row.0 as int] == index);
                let state = &self.state.state_vec[row.0];
                let cursor = self.state.fetch.init_fetch(self.world, index, state, self.tick);
                Some(self.state.fetch.fetch(self.world, &cursor, state, row.1, row.2))
            },
            None => None,
        }
    }

    /// The next row that the iteration has yet to yield: the position of
    /// its archetype among the matched, the row, and its entity.
    pub fn next_row(&mut self) -> (r: Option<(usize, Row, Entity)>)
        requires
            old(self).wf(),
        ensures
            final(self).wf(),
            final(self).state() == old(self).state(),
            final(self).world() == old(self).world(),
            final(self).tick() == old(self).tick(),
            match r {
                Some(item) => {
                    &&& old(self).remaining() == seq![item] + final(self).remaining()
                    &&& item.0 < old(self).state().matched().len()
                    &&& item.1.0 < old(self).world().table(
                        old(self).state().index_of(item.0 as int).0 as int,
                    ).entities().len()
                },
                None => old(self).remaining().len() == 0 && final(self).remaining().len() == 0,
            },
    {
        if self.state.listener_count == 0 {
            self.iter_normal()
        } else if self.state.listener_count == 1 {
            self.iter_record()
        } else {
            self.iter_records()
        }
    }
}

/// A query of a system in one run: the cache of the query, the world, and
/// the tick of the run.
pub struct Query<'world, Q: FetchComponents, F: FilterComponents> {
    pub world: &'world World,
    pub state: &'world mut QueryState<Q, F>,
    pub tick: Tick,
}

impl<'world, Q: FetchComponents, F: FilterComponents> Query<'world, Q, F> {
    /// The query of a run at `tick`.
    pub fn new(world: &'world World, state: &'world mut QueryState<Q, F>, tick: Tick) -> (r: Self)
        ensures
            r.world == world,
            *r.state == *old(state),
            *final(r.state) == *final(state),
            r.tick == tick,
    {
        Query { world, state, tick }
    }

    /// What the query fetches of an entity: see `QueryState::get`.
    pub fn get(&mut self, e: Entity) -> (r: Result<Q::Item, QueryError>)
        requires
            old(self).world.wf(),
            old(self).state.wf(old(self).world),
        ensures
            final(self).world == old(self).world,
            final(self).tick == old(self).tick,
            *final(final(self).state) == *final(old(self).state),
            final(self).state.wf(final(self).world),
            final(self).state.matched() == old(self).state.matched(),
            final(self).state.removes() == old(self).state.removes(),
            match r {
                Ok(item) => {
                    &&& old(self).world.located(e).is_some()
                    &&& old(self).state.matches(old(self).world.located(e).unwrap().0.0 as int)
                    &&& old(self).state.fetch().is_item(
                        *old(self).world,
                        old(self).world.located(e).unwrap().0,
                        old(self).world.located(e).unwrap().1,
                        e,
                        item,
                    )
                },
                Err(err) => match old(self).world.located(e) {
                    None => err == QueryError::NoSuchEntity,
                    Some(addr) => err == QueryError::NoSuchArchetype && !old(self).state.matches(
                        addr.0.0 as int,
                    ),
                },
            },
    {
        self.state.get(self.world, e, self.tick)
    }

    /// The tick of the run.
    pub fn tick(&self) -> (r: Tick)
        ensures
            r == self.tick,
    {
        self.tick
    }

    /// The tick at which the entity took its row, the reserved tick for an
    /// entity that is not in the world.
    pub fn entity_tick(&self, e: Entity) -> (r: Tick)
        ensures
            r == self.world.placed_at(e),
    {
        self.world.entity_tick(e)
    }

    /// Whether the matched archetypes have no rows.
    pub fn is_empty(&self) -> (r: bool)
        requires
            self.world.wf(),
            old(self.state).wf(self.world),
        ensures
            r == (old(self.state).total_rows(self.world, old(self.state).matched().len()) == 0),
    {
        self.state.is_empty(self.world)
    }

    /// An iteration over the rows that the query matches in this run.
    pub fn iter<'a>(&'a self) -> (r: QueryIter<'a, Q, F>)
        requires
            self.world.wf(),
            old(self.state).wf(self.world),
        ensures
            r.wf(),
            r.world() == self.world,
            r.tick() == self.tick,
            r.remaining() == old(self.state).all_rows(self.world, self.tick),
    {
        QueryIter::new(self.world, &*self.state, self.tick)
    }

    /// Marks an entity for deletion at the end of the run: see
    /// `QueryState::delete`.
    pub fn delete(&mut self, e: Entity) -> (r: Result<bool, QueryError>)
        requires
            old(self).world.wf(),
            old(self).state.wf(old(self).world),
        ensures
            final(self).world == old(self).world,
            final(self).tick == old(self).tick,
            *final(final(self).state) == *final(old(self).state),
            final(self).state.wf(final(self).world),
            final(self).state.matched() == old(self).state.matched(),
            match r {
                Ok(fresh) => {
                    &&& old(self).world.located(e).is_some()
                    &&& old(self).state.matches(old(self).world.located(e).unwrap().0.0 as int)
                    &&& fresh == !(exists|i: int|
                        0 <= i < old(self).state.removes().len() && (#[trigger] old(self).state.removes()[i]).1 == e)
                    &&& final(self).state.removes().len() == old(self).state.removes().len() + if fresh {
                        1int
                    } else {
                        0int
                    }
                },
                Err(err) => {
                    &&& final(self).state.removes() == old(self).state.removes()
                    &&& match old(self).world.located(e) {
                        None => err == QueryError::NoSuchEntity,
                        Some(addr) => err == QueryError::NoSuchArchetype && !old(self).state.matches(
                            addr.0.0 as int,
                        ),
                    }
                },
            },
    {
        self.state.delete(self.world, e)
    }
}

} // verus!
