//! Tables: the rows of one archetype.
//!
//! A row is reserved with a null entity, its components are written, and
//! the entity is published last. Destroying or moving an entity only nulls
//! its row and queues the row for removal; compaction, between epochs, fills
//! the queued holes from the tail and shortens the table.

use crate::bitset::{bit_is_set, bits_len, bits_on, bitset_contains, bitset_set, bitset_with_capacity};
use crate::compaction::{
    dense_action, is_compaction, is_sparse, lemma_all_removed, lemma_compaction_source,
    lemma_removes_bounded, removable, sparse_action,
};
use crate::column::{
    lemma_len_fits_less, lemma_len_fits_rows, lemma_same_but_slots, len_fits, row_fits, slot_same,
    source_of, store_extends, zero_bytes, Column, MAX_ROWS,
};
use crate::component::ComponentInfo;
use crate::ids::{ArchetypeIndex, ComponentIndex, Entity, Row, Tick};
use fixedbitset::FixedBitSet;
use pi_share::Share;
use vstd::prelude::*;

verus! {

/// Whether the component types are listed in strictly ascending order of
/// their index, each well formed and registered.
pub open spec fn sorted_infos(infos: Seq<ComponentInfo>) -> bool {
    &&& forall|k: int| 0 <= k < infos.len() ==> (#[trigger] infos[k]).wf() && !infos[k].index.is_null()
    &&& forall|j: int, k: int|
        0 <= j < k < infos.len() ==> (#[trigger] infos[j]).index.0 < (#[trigger] infos[k]).index.0
}

/// The component types behind a list of shared handles.
pub open spec fn infos_of(shared: Seq<Share<ComponentInfo>>) -> Seq<ComponentInfo> {
    shared.map_values(|s: Share<ComponentInfo>| *s)
}

/// Whether a component type with the index is among `infos`.
pub open spec fn has_component(infos: Seq<ComponentInfo>, index: ComponentIndex) -> bool {
    exists|k: int| 0 <= k < infos.len() && (#[trigger] infos[k]).index == index
}

/// The rows of one archetype: the entity of each row, the component types
/// of its columns, and the rows queued for removal.
pub struct Table {
    entities: Vec<Entity>,
    pub(crate) index: ArchetypeIndex,
    sorted_columns: Vec<Share<ComponentInfo>>,
    bit_set: FixedBitSet,
    pub(crate) removes: Vec<Row>,
}

impl Table {
    /// The entity of each row; null in a row that is reserved but not
    /// published, or removed but not compacted.
    pub closed spec fn entities(&self) -> Seq<Entity> {
        self.entities@
    }

    /// The index of the archetype in the world; null until it is placed.
    pub closed spec fn ar_index(&self) -> ArchetypeIndex {
        self.index
    }

    /// The component types of the columns, ascending by index.
    pub closed spec fn columns(&self) -> Seq<ComponentInfo> {
        infos_of(self.sorted_columns@)
    }

    /// The rows queued for removal, in the order they were queued.
    pub closed spec fn removes(&self) -> Seq<Row> {
        self.removes@
    }

    /// Whether the membership bits say of every index what the columns say.
    pub closed spec fn bits_match(&self) -> bool {
        forall|i: usize|
            bit_is_set(self.bit_set, i) <==> exists|k: int|
                0 <= k < self.columns().len() && (#[trigger] self.columns()[k]).index.0 == i
    }

    /// The number of rows.
    pub open spec fn spec_len(&self) -> Row {
        Row(self.entities().len() as u32)
    }

    /// The columns ascend strictly by component index, the membership bits
    /// agree with them, every row fits the storage of every column, and the
    /// rows queued for removal are distinct rows of the table.
    pub open spec fn wf(&self) -> bool {
        &&& sorted_infos(self.columns())
        &&& self.bits_match()
        &&& self.entities().len() <= MAX_ROWS
        &&& forall|k: int|
            0 <= k < self.columns().len() ==> len_fits(
                self.entities().len() as usize,
                (#[trigger] self.columns()[k]).size(),
            )
        &&& removable(self.removes(), self.entities().len() as int)
    }

    /// Whether one more row fits the storage of every column.
    pub open spec fn has_room(&self) -> bool {
        &&& self.entities().len() < MAX_ROWS
        &&& forall|k: int|
            0 <= k < self.columns().len() ==> len_fits(
                (self.entities().len() + 1) as usize,
                (#[trigger] self.columns()[k]).size(),
            )
    }

    /// Whether the rows queued for removal are exactly the rows that hold
    /// the null entity: no row is reserved and unpublished.
    pub open spec fn marked(&self) -> bool {
        forall|r: Row|
            r.0 < self.entities().len() ==> (self.removes().contains(r) <==> (
            #[trigger] self.entities()[r.0 as int]).is_null())
    }

    /// Whether every row queued for removal holds the null entity. A row
    /// that holds null without being queued is reserved and unpublished.
    pub open spec fn queued_null(&self) -> bool {
        forall|r: Row|
            r.0 < self.entities().len() && self.removes().contains(r) ==> (
            #[trigger] self.entities()[r.0 as int]).is_null()
    }

    /// Whether `store`, the columns of the world by component index, holds
    /// the column of each component type of the table, with storage for the
    /// table's archetype.
    pub open spec fn backed_by(&self, store: Seq<Column>) -> bool {
        &&& self.ar_index().0 >= 0
        &&& forall|k: int|
            0 <= k < self.columns().len() ==> {
                &&& (#[trigger] self.columns()[k]).index.0 < store.len()
                &&& store[self.columns()[k].index.0 as int].meta() == self.columns()[k]
                &&& store[self.columns()[k].index.0 as int].has_slot(self.ar_index())
            }
    }

    /// A table without rows for the component types, which ascend strictly
    /// by index.
    pub fn new(sorted_columns: Vec<Share<ComponentInfo>>) -> (r: Self)
        requires
            sorted_infos(infos_of(sorted_columns@)),
        ensures
            r.wf(),
            r.columns() == infos_of(sorted_columns@),
            r.entities().len() == 0,
            r.removes().len() == 0,
            r.ar_index().is_null(),
    {
        let len = sorted_columns.len();
        let ghost infos = infos_of(sorted_columns@);
        let max: usize = if len > 0 {
            assert(infos[len - 1].index.0 < u32::MAX);
            sorted_columns[len - 1].index.index() + 1
        } else {
            0
        };
        let mut bit_set = bitset_with_capacity(max);
        let mut i: usize = 0;
        while i < len
            invariant
                i <= len,
                len == sorted_columns@.len(),
                infos == infos_of(sorted_columns@),
                sorted_infos(infos),
                bits_len(bit_set) == max,
                len > 0 ==> max == infos[len - 1].index.0 + 1,
                forall|b: usize|
                    bits_on(bit_set).contains(b) <==> exists|k: int|
                        0 <= k < i && (#[trigger] infos[k]).index.0 == b,
            decreases len - i,
        {
            let ghost before = bits_on(bit_set);
            let bit: usize = sorted_columns[i].index.index();
            assert(infos[i as int].index.0 == bit);
            assert(bit < max) by {
                if i < len - 1 {
                    assert(infos[i as int].index.0 < infos[len - 1].index.0);
                }
            }
            bitset_set(&mut bit_set, bit, true);
            proof {
                assert forall|b: usize| bits_on(bit_set).contains(b) implies exists|k: int|
                    0 <= k < i + 1 && (#[trigger] infos[k]).index.0 == b by {
                    if b == bit {
                        assert(infos[i as int].index.0 == b);
                    } else {
                        assert(before.contains(b));
                        let k = choose|k: int| 0 <= k < i && (#[trigger] infos[k]).index.0 == b;
                        assert(infos[k].index.0 == b);
                    }
                }
                assert forall|b: usize|
                    (exists|k: int| 0 <= k < i + 1 && (#[trigger] infos[k]).index.0 == b)
                    implies bits_on(bit_set).contains(b) by {
                    let k = choose|k: int| 0 <= k < i + 1 && (#[trigger] infos[k]).index.0 == b;
                    if k < i {
                        assert(before.contains(b));
                    }
                }
            }
            i += 1;
        }
        let r = Table {
            entities: Vec::new(),
            index: ArchetypeIndex::null(),
            sorted_columns,
            bit_set,
            removes: Vec::new(),
        };
        proof {
            assert forall|b: usize| bit_is_set(r.bit_set, b) <==> exists|k: int|
                0 <= k < r.columns().len() && (#[trigger] r.columns()[k]).index.0 == b by {
                if exists|k: int| 0 <= k < r.columns().len() && (#[trigger] r.columns()[k]).index.0 == b {
                    let k = choose|k: int|
                        0 <= k < r.columns().len() && (#[trigger] r.columns()[k]).index.0 == b;
                    if k < len - 1 {
                        assert(infos[k].index.0 < infos[len - 1].index.0);
                    }
                }
            }
            assert forall|k: int| 0 <= k < r.columns().len() implies len_fits(
                r.entities().len() as usize,
                (#[trigger] r.columns()[k]).size(),
            ) by {
                assert(0 * r.columns()[k].size() == 0);
            }
        }
        r
    }

    /// The number of rows, the removed but not yet compacted among them.
    #[verifier::when_used_as_spec(spec_len)]
    pub fn len(&self) -> (r: Row)
        requires
            self.wf(),
        ensures
            r == self.spec_len(),
            r.0 == self.entities().len(),
    {
        Row(self.entities.len() as u32)
    }

    /// The entity of a row of the table.
    pub fn get(&self, row: Row) -> (e: Entity)
        requires
            row.0 < self.entities().len(),
        ensures
            e == self.entities()[row.0 as int],
    {
        self.entities[row.index()]
    }

    /// Publishes `e` as the entity of a row of the table.
    pub fn set(&mut self, row: Row, e: Entity)
        requires
            row.0 < old(self).entities().len(),
        ensures
            final(self).entities() == old(self).entities().update(row.0 as int, e),
            final(self).columns() == old(self).columns(),
            final(self).removes() == old(self).removes(),
            final(self).ar_index() == old(self).ar_index(),
            old(self).wf() ==> final(self).wf(),
    {
        self.entities.set(row.index(), e);
    }

    /// The component types of the columns, ascending by index.
    pub fn get_columns(&self) -> (r: &Vec<Share<ComponentInfo>>)
        ensures
            infos_of(r@) == self.columns(),
    {
        &self.sorted_columns
    }

    /// Whether the table has a column of the component type.
    pub fn contains(&self, index: ComponentIndex) -> (r: bool)
        requires
            self.wf(),
        ensures
            r == has_component(self.columns(), index),
    {
        let r = bitset_contains(&self.bit_set, index.index());
        proof {
            if r {
                let k = choose|k: int|
                    0 <= k < self.columns().len() && (#[trigger] self.columns()[k]).index.0
                        == index.0 as usize;
                assert(self.columns()[k].index == index);
            }
            if has_component(self.columns(), index) {
                let k = choose|k: int|
                    0 <= k < self.columns().len() && (#[trigger] self.columns()[k]).index == index;
                assert(self.columns()[k].index.0 == index.0 as usize);
            }
        }
        r
    }

    /// The component type of the `index`-th column.
    pub(crate) fn get_column_unchecked(&self, index: usize) -> (r: &Share<ComponentInfo>)
        requires
            index < self.columns().len(),
        ensures
            **r == self.columns()[index as int],
    {
        &self.sorted_columns[index]
    }

    /// The number of columns.
    pub fn column_count(&self) -> (r: usize)
        ensures
            r == self.columns().len(),
    {
        self.sorted_columns.len()
    }

    /// Reserves a row at the end of the table, with the null entity. The
    /// caller writes the components and publishes the entity last.
    pub fn alloc_row(&mut self) -> (row: Row)
        requires
            old(self).wf(),
            old(self).has_room(),
        ensures
            final(self).wf(),
            row.0 == old(self).entities().len(),
            final(self).entities() == old(self).entities().push(Entity { generation: u32::MAX, slot: u32::MAX }),
            final(self).columns() == old(self).columns(),
            final(self).removes() == old(self).removes(),
            final(self).ar_index() == old(self).ar_index(),
    {
        let row = Row(self.entities.len() as u32);
        self.entities.push(Entity::null());
        row
    }

    /// Queues a row for removal and nulls its entity, without releasing the
    /// components: another table has taken them over. Returns the entity
    /// that the row held; a row that holds null is left as it is.
    pub(crate) fn mark_remove(&mut self, row: Row) -> (e: Entity)
        requires
            old(self).wf(),
            old(self).queued_null(),
            row.0 < old(self).entities().len(),
        ensures
            final(self).wf(),
            final(self).queued_null(),
            old(self).marked() ==> final(self).marked(),
            e == old(self).entities()[row.0 as int],
            final(self).columns() == old(self).columns(),
            final(self).ar_index() == old(self).ar_index(),
            e.is_null() ==> final(self).entities() == old(self).entities() && final(self).removes()
                == old(self).removes(),
            !e.is_null() ==> final(self).entities() == old(self).entities().update(
                row.0 as int,
                Entity { generation: u32::MAX, slot: u32::MAX },
            ) && final(self).removes() == old(self).removes().push(row),
    {
        let e = self.entities[row.index()];
        if e.is_null() {
            return e;
        }
        self.removes.push(row);
        self.entities.set(row.index(), Entity::null());
        proof {
            old(self).lemma_queued(self, row);
        }
        e
    }

    /// Queueing a row that holds an entity, and nulling it, keeps the
    /// queued rows distinct rows that hold null; where the null rows were
    /// exactly the queued ones, they still are.
    proof fn lemma_queued(&self, after: &Table, row: Row)
        requires
            self.queued_null(),
            removable(self.removes(), self.entities().len() as int),
            row.0 < self.entities().len(),
            !self.entities()[row.0 as int].is_null(),
            after.removes() == self.removes().push(row),
            after.entities() == self.entities().update(
                row.0 as int,
                Entity { generation: u32::MAX, slot: u32::MAX },
            ),
        ensures
            after.queued_null(),
            removable(after.removes(), after.entities().len() as int),
            self.marked() ==> after.marked(),
    {
        let before = self.removes();
        assert(!before.contains(row)) by {
            if before.contains(row) {
                assert(self.entities()[row.0 as int].is_null());
            }
        }
        assert forall|r: Row| r.0 < after.entities().len() && r != row implies (
        after.removes().contains(r) <==> before.contains(r)) by {
            if before.contains(r) {
                let i = choose|i: int| 0 <= i < before.len() && before[i] == r;
                assert(after.removes()[i] == r);
            }
            if after.removes().contains(r) {
                let i = choose|i: int| 0 <= i < after.removes().len() && after.removes()[i] == r;
                assert(before[i] == r);
            }
        }
        assert(after.removes()[before.len() as int] == row);
        assert forall|r: Row|
            r.0 < after.entities().len() && after.removes().contains(r) implies (
        #[trigger] after.entities()[r.0 as int]).is_null() by {
            if r != row {
                assert(before.contains(r));
                assert(self.entities()[r.0 as int].is_null());
            }
        }
        if self.marked() {
            assert forall|r: Row| r.0 < after.entities().len() implies (after.removes().contains(r)
                <==> (#[trigger] after.entities()[r.0 as int]).is_null()) by {
                if r != row {
                    assert(before.contains(r) <==> self.entities()[r.0 as int].is_null());
                }
            }
        }
    }

    /// Whether `after` differs from `before` at most in what the columns of
    /// this table store for its archetype.
    pub open spec fn store_frame(&self, before: Seq<Column>, after: Seq<Column>) -> bool {
        &&& store_extends(before, after)
        &&& forall|c: int, other: ArchetypeIndex|
            0 <= c < before.len() && !(other == self.ar_index() && self.is_column(c))
                ==> #[trigger] slot_same(before[c], after[c], other)
    }

    /// Whether the table has a column of the component type numbered `c`.
    pub open spec fn is_column(&self, c: int) -> bool {
        exists|k: int| 0 <= k < self.columns().len() && (#[trigger] self.columns()[k]).index.0 == c
    }

    /// Queues a row for removal, nulls its entity and releases its
    /// components: each column whose type has a destructor gains the row's
    /// value among its released values. Returns the entity that the row
    /// held; a row that holds null is left as it is.
    pub(crate) fn destroy(&mut self, store: &mut Vec<Column>, row: Row) -> (e: Entity)
        requires
            old(self).wf(),
            old(self).queued_null(),
            old(self).backed_by(old(store)@),
            row.0 < old(self).entities().len(),
        ensures
            final(self).wf(),
            final(self).queued_null(),
            old(self).marked() ==> final(self).marked(),
            final(self).backed_by(final(store)@),
            e == old(self).entities()[row.0 as int],
            final(self).columns() == old(self).columns(),
            final(self).ar_index() == old(self).ar_index(),
            final(self).store_frame(old(store)@, final(store)@),
            e.is_null() ==> final(self).entities() == old(self).entities() && final(self).removes()
                == old(self).removes(),
            !e.is_null() ==> final(self).entities() == old(self).entities().update(
                row.0 as int,
                Entity { generation: u32::MAX, slot: u32::MAX },
            ) && final(self).removes() == old(self).removes().push(row),
            forall|k: int|
                0 <= k < old(self).columns().len() ==> {
                    let info = #[trigger] old(self).columns()[k];
                    let before = old(store)@[info.index.0 as int];
                    let after = final(store)@[info.index.0 as int];
                    let index = old(self).ar_index();
                    &&& forall|r: Row| #[trigger] after.cell(index, r) == before.cell(index, r)
                    &&& forall|r: Row| #[trigger] after.tick(index, r) == before.tick(index, r)
                    &&& after.log(index) == before.log(index)
                    &&& after.released(index) == if !e.is_null() && info.needs_drop {
                        before.released(index).push(before.cell(index, row))
                    } else {
                        before.released(index)
                    }
                },
    {
        let e = self.entities[row.index()];
        if e.is_null() {
            proof {
                self.lemma_frame_refl(store@);
            }
            return e;
        }
        let n = self.sorted_columns.len();
        let mut k: usize = 0;
        while k < n
            invariant
                k <= n,
                n == self.columns().len(),
                *self == *old(self),
                self.wf(),
                self.backed_by(old(store)@),
                row.0 < self.entities().len(),
                store_extends(old(store)@, store@),
                forall|c: int|
                    0 <= c < store@.len() ==> (#[trigger] store@[c]).slots().len() == old(store)@[c].slots().len(),
                forall|c: int, other: ArchetypeIndex|
                    0 <= c < store@.len() && !(other == self.ar_index() && self.is_column(c))
                        ==> #[trigger] slot_same(old(store)@[c], store@[c], other),
                forall|j: int|
                    0 <= j < n ==> {
                        let info = #[trigger] self.columns()[j];
                        let before = old(store)@[info.index.0 as int];
                        let after = store@[info.index.0 as int];
                        let index = self.ar_index();
                        &&& forall|r: Row| #[trigger] after.cell(index, r) == before.cell(index, r)
                        &&& forall|r: Row| #[trigger] after.tick(index, r) == before.tick(index, r)
                        &&& after.log(index) == before.log(index)
                        &&& after.released(index) == if j < k && info.needs_drop {
                            before.released(index).push(before.cell(index, row))
                        } else {
                            before.released(index)
                        }
                    },
            decreases n - k,
        {
            let ci: usize = self.sorted_columns[k].index.index();
            let ghost info = self.columns()[k as int];
            let ghost cur = store@;
            assert(info.index.0 == ci);
            assert(ci < store@.len());
            proof {
                lemma_len_fits_rows(self.entities().len() as usize, info.size(), row);
            }
            let mut c = store[ci].blob_ref(self.index);
            c.drop_row(row);
            proof {
                let index = self.ar_index();
                let first = old(store)@;
                let now = store@;
                lemma_same_but_slots(cur[ci as int], now[ci as int], index);
                assert(self.is_column(ci as int));
                assert forall|c: int, other: ArchetypeIndex|
                    0 <= c < now.len() && !(other == index && self.is_column(c)) implies #[trigger]
                    slot_same(first[c], now[c], other) by {
                    assert(slot_same(first[c], cur[c], other));
                    if c == ci {
                        assert(slot_same(cur[c], now[c], other));
                    } else {
                        assert(now[c] == cur[c]);
                    }
                }
                assert forall|j: int| 0 <= j < n implies {
                    let info = #[trigger] self.columns()[j];
                    let before = first[info.index.0 as int];
                    let after = now[info.index.0 as int];
                    &&& forall|r: Row| #[trigger] after.cell(index, r) == before.cell(index, r)
                    &&& forall|r: Row| #[trigger] after.tick(index, r) == before.tick(index, r)
                    &&& after.log(index) == before.log(index)
                    &&& after.released(index) == if j < k + 1 && info.needs_drop {
                        before.released(index).push(before.cell(index, row))
                    } else {
                        before.released(index)
                    }
                } by {
                    let info = self.columns()[j];
                    if j < k {
                        assert(self.columns()[j].index.0 < self.columns()[k as int].index.0);
                        assert(now[info.index.0 as int] == cur[info.index.0 as int]);
                    } else if j > k {
                        assert(self.columns()[k as int].index.0 < self.columns()[j].index.0);
                        assert(now[info.index.0 as int] == cur[info.index.0 as int]);
                    } else {
                        let before = first[ci as int];
                        let mid = cur[ci as int];
                        let after = now[ci as int];
                        assert(mid.has_slot(index));
                        assert(after.has_slot(index));
                        assert(after.meta() == mid.meta());
                        assert forall|r: Row| #[trigger] after.cell(index, r) == before.cell(index, r) by {
                            assert(mid.cell(index, r) == before.cell(index, r));
                        }
                        assert forall|r: Row| #[trigger] after.tick(index, r) == before.tick(index, r) by {
                            assert(mid.tick(index, r) == before.tick(index, r));
                        }
                        assert(mid.cell(index, row) == before.cell(index, row));
                    }
                }
            }
            k += 1;
        }
        self.removes.push(row);
        self.entities.set(row.index(), Entity::null());
        proof {
            old(self).lemma_queued(self, row);
        }
        e
    }

    /// Whether `store` holds the column of each component type of the
    /// table, under the type's index.
    pub open spec fn registered_in(&self, store: Seq<Column>) -> bool {
        forall|k: int|
            0 <= k < self.columns().len() ==> (#[trigger] self.columns()[k]).index.0 < store.len()
                && store[self.columns()[k].index.0 as int].meta() == self.columns()[k]
    }

    /// Gives the table's archetype its storage in each of its columns.
    /// What the columns store stays as it is.
    pub fn init_blobs(&self, store: &mut Vec<Column>)
        requires
            self.wf(),
            self.ar_index().0 >= 0,
            self.registered_in(old(store)@),
        ensures
            self.backed_by(final(store)@),
            store_extends(old(store)@, final(store)@),
            forall|c: int, other: ArchetypeIndex|
                0 <= c < old(store)@.len() ==> #[trigger] slot_same(
                    old(store)@[c],
                    final(store)@[c],
                    other,
                ),
    {
        let n = self.sorted_columns.len();
        let mut k: usize = 0;
        while k < n
            invariant
                k <= n,
                n == self.columns().len(),
                self.wf(),
                self.ar_index().0 >= 0,
                self.registered_in(store@),
                store_extends(old(store)@, store@),
                forall|j: int|
                    0 <= j < k ==> store@[(#[trigger] self.columns()[j]).index.0 as int].has_slot(
                        self.ar_index(),
                    ),
                forall|c: int, other: ArchetypeIndex|
                    0 <= c < store@.len() ==> #[trigger] slot_same(old(store)@[c], store@[c], other),
            decreases n - k,
        {
            let ci: usize = self.sorted_columns[k].index.index();
            let ghost cur = store@;
            assert(self.columns()[k as int].index.0 == ci);
            store[ci].init_blob(self.index);
            proof {
                let first = old(store)@;
                let now = store@;
                let index = self.ar_index();
                lemma_same_but_slots(cur[ci as int], now[ci as int], index);
                assert forall|c: int, other: ArchetypeIndex| 0 <= c < now.len() implies #[trigger]
                    slot_same(first[c], now[c], other) by {
                    assert(slot_same(first[c], cur[c], other));
                    if c == ci {
                        if other == index {
                            assert(now[c].meta() == cur[c].meta());
                            if cur[c].has_slot(index) {
                                assert(now[c].slots() == cur[c].slots());
                            } else {
                                assert(now[c].slot(index).is_empty());
                            }
                            assert forall|r: Row| #[trigger]
                                now[c].cell(index, r) == first[c].cell(index, r) by {
                                assert(cur[c].cell(index, r) == first[c].cell(index, r));
                            }
                            assert forall|r: Row| #[trigger]
                                now[c].tick(index, r) == first[c].tick(index, r) by {
                                assert(cur[c].tick(index, r) == first[c].tick(index, r));
                            }
                        } else {
                            assert(slot_same(cur[c], now[c], other));
                        }
                    } else {
                        assert(now[c] == cur[c]);
                    }
                }
                assert forall|j: int| 0 <= j < k + 1 implies now[(
                #[trigger] self.columns()[j]).index.0 as int].has_slot(index) by {
                    let cj = self.columns()[j].index.0 as int;
                    if cj != ci {
                        assert(now[cj] == cur[cj]);
                    }
                }
                assert forall|j: int| 0 <= j < n implies (#[trigger] self.columns()[j]).index.0
                    < now.len() && now[self.columns()[j].index.0 as int].meta()
                    == self.columns()[j] by {
                    let cj = self.columns()[j].index.0 as int;
                    assert(now[cj].meta() == cur[cj].meta());
                }
            }
            k += 1;
        }
    }

    /// Initialises a row: writes the default value of every column and
    /// records `tick` as the tick at which the row was added, where the
    /// column tracks ticks.
    pub fn init_row(&self, store: &mut Vec<Column>, row: Row, e: Entity, tick: Tick)
        requires
            self.wf(),
            self.backed_by(old(store)@),
            row.0 < self.entities().len(),
            forall|k: int|
                0 <= k < self.columns().len() ==> (#[trigger] self.columns()[k]).default_value.is_some(),
        ensures
            self.backed_by(final(store)@),
            self.store_frame(old(store)@, final(store)@),
            forall|k: int|
                0 <= k < self.columns().len() ==> {
                    let info = #[trigger] self.columns()[k];
                    let before = old(store)@[info.index.0 as int];
                    let after = final(store)@[info.index.0 as int];
                    let index = self.ar_index();
                    &&& after.cell(index, row) == info.default_bytes()
                    &&& forall|r: Row|
                        r != row ==> #[trigger] after.cell(index, r) == before.cell(index, r)
                    &&& after.tick(index, row) == if info.is_tick() {
                        tick
                    } else {
                        before.tick(index, row)
                    }
                    &&& forall|r: Row|
                        r != row ==> #[trigger] after.tick(index, r) == before.tick(index, r)
                    &&& after.log(index) == if info.is_tick() {
                        before.log(index).push((e, tick))
                    } else {
                        before.log(index)
                    }
                    &&& after.released(index) == before.released(index)
                },
    {
        let n = self.sorted_columns.len();
        let mut k: usize = 0;
        while k < n
            invariant
                k <= n,
                n == self.columns().len(),
                self.wf(),
                self.backed_by(old(store)@),
                row.0 < self.entities().len(),
                forall|k: int|
                    0 <= k < self.columns().len() ==> (
                    #[trigger] self.columns()[k]).default_value.is_some(),
                store_extends(old(store)@, store@),
                forall|c: int|
                    0 <= c < store@.len() ==> (#[trigger] store@[c]).slots().len() == old(store)@[c].slots().len(),
                forall|c: int, other: ArchetypeIndex|
                    0 <= c < store@.len() && !(other == self.ar_index() && self.is_column(c))
                        ==> #[trigger] slot_same(old(store)@[c], store@[c], other),
                forall|j: int|
                    0 <= j < n ==> {
                        let info = #[trigger] self.columns()[j];
                        let before = old(store)@[info.index.0 as int];
                        let after = store@[info.index.0 as int];
                        let index = self.ar_index();
                        if j < k {
                            &&& after.cell(index, row) == info.default_bytes()
                            &&& forall|r: Row|
                                r != row ==> #[trigger] after.cell(index, r) == before.cell(index, r)
                            &&& after.tick(index, row) == if info.is_tick() {
                                tick
                            } else {
                                before.tick(index, row)
                            }
                            &&& forall|r: Row|
                                r != row ==> #[trigger] after.tick(index, r) == before.tick(index, r)
                            &&& after.log(index) == if info.is_tick() {
                                before.log(index).push((e, tick))
                            } else {
                                before.log(index)
                            }
                            &&& after.released(index) == before.released(index)
                        } else {
                            after == before
                        }
                    },
            decreases n - k,
        {
            let ci: usize = self.sorted_columns[k].index.index();
            let ghost info = self.columns()[k as int];
            let ghost cur = store@;
            assert(info.index.0 == ci);
            assert(ci < store@.len());
            proof {
                lemma_len_fits_rows(self.entities().len() as usize, info.size(), row);
            }
            let mut c = store[ci].blob_ref(self.index);
            let ghost size = info.size();
            let ghost b0 = *c.blob;
            assert(c.size() == size);
            match &self.sorted_columns[k].default_value {
                Some(data) => {
                    c.write_row(row, data);
                },
                None => {},
            }
            let ghost b1 = *c.blob;
            assert(b1.cell(row, size) == info.default_bytes());
            assert forall|r: Row| r != row implies #[trigger] b1.cell(r, size) == b0.cell(r, size) by {}
            assert forall|r: Row| #[trigger] b1.tick(r) == b0.tick(r) by {}
            c.added_tick(e, row, tick);
            let ghost b2 = *c.blob;
            assert forall|r: Row| #[trigger] b2.cell(r, size) == b1.cell(r, size) by {}
            assert forall|r: Row| r != row implies #[trigger] b2.tick(r) == b0.tick(r) by {
                assert(b2.tick(r) == b1.tick(r));
            }
            proof {
                let index = self.ar_index();
                let first = old(store)@;
                let now = store@;
                lemma_same_but_slots(cur[ci as int], now[ci as int], index);
                assert(self.is_column(ci as int));
                assert forall|c: int, other: ArchetypeIndex|
                    0 <= c < now.len() && !(other == index && self.is_column(c)) implies #[trigger]
                    slot_same(first[c], now[c], other) by {
                    assert(slot_same(first[c], cur[c], other));
                    if c == ci {
                        assert(slot_same(cur[c], now[c], other));
                    } else {
                        assert(now[c] == cur[c]);
                    }
                }
                assert forall|j: int| 0 <= j < n && j != k implies now[(
                #[trigger] self.columns()[j]).index.0 as int] == cur[self.columns()[j].index.0 as int] by {
                    if j < k {
                        assert(self.columns()[j].index.0 < self.columns()[k as int].index.0);
                    } else {
                        assert(self.columns()[k as int].index.0 < self.columns()[j].index.0);
                    }
                }
                assert(cur[ci as int] == first[ci as int]);
                assert(now[ci as int].has_slot(index));
                assert(now[ci as int].meta() == info);
                let before = first[ci as int];
                let after = now[ci as int];
                assert(before.has_slot(index));
                assert(before.slot(index) == b0);
                assert(after.slot(index) == b2);
                assert(after.size() == size);
                assert(before.size() == size);
                assert(after.cell(index, row) == info.default_bytes()) by {
                    assert(b2.cell(row, size) == b1.cell(row, size));
                }
                assert forall|r: Row| r != row implies #[trigger] after.cell(index, r)
                    == before.cell(index, r) by {
                    assert(b2.cell(r, size) == b1.cell(r, size));
                    assert(b1.cell(r, size) == b0.cell(r, size));
                }
                assert forall|r: Row| r != row implies #[trigger] after.tick(index, r)
                    == before.tick(index, r) by {
                    assert(b2.tick(r) == b0.tick(r));
                }
            }
            k += 1;
        }
    }

    /// What one column of the table stores for the table's archetype after
    /// a compaction to `len` rows by `action`, against what it stored
    /// before: each row below `len` holds what the row it was copied from
    /// held, every row from `len` on reads as zero.
    pub open spec fn column_settled(
        &self,
        before: Column,
        after: Column,
        len: usize,
        action: Seq<(Row, Row)>,
    ) -> bool {
        let index = self.ar_index();
        &&& forall|r: Row|
            r.0 < len ==> #[trigger] after.cell(index, r) == before.cell(
                index,
                source_of(action, action.len(), r),
            )
        &&& forall|r: Row| r.0 >= len ==> #[trigger] after.cell(index, r) == zero_bytes(before.size())
        &&& forall|r: Row|
            r.0 < len ==> #[trigger] after.tick(index, r) == if before.meta().is_tick() {
                before.tick(index, source_of(action, action.len(), r))
            } else {
                before.tick(index, r)
            }
        &&& forall|r: Row|
            r.0 >= len ==> #[trigger] after.tick(index, r) == if before.meta().is_tick() {
                Tick(0)
            } else {
                before.tick(index, r)
            }
        &&& after.log(index) == before.log(index)
        &&& after.released(index) == before.released(index)
    }

    /// Compacts every column of the table: see `column_settled`.
    pub(crate) fn settle_columns(
        &self,
        store: &mut Vec<Column>,
        len: usize,
        additional: usize,
        action: &Vec<(Row, Row)>,
    )
        requires
            self.wf(),
            self.backed_by(old(store)@),
            len + additional <= usize::MAX,
            forall|k: int|
                0 <= k < self.columns().len() ==> len_fits(
                    (len + additional) as usize,
                    (#[trigger] self.columns()[k]).size(),
                ),
            forall|i: int|
                0 <= i < action@.len() ==> (#[trigger] action@[i]).0.0 < self.entities().len()
                    && action@[i].1.0 < self.entities().len(),
        ensures
            self.backed_by(final(store)@),
            self.store_frame(old(store)@, final(store)@),
            forall|k: int|
                0 <= k < self.columns().len() ==> self.column_settled(
                    old(store)@[(#[trigger] self.columns()[k]).index.0 as int],
                    final(store)@[self.columns()[k].index.0 as int],
                    len,
                    action@,
                ),
    {
        let n = self.sorted_columns.len();
        let mut k: usize = 0;
        while k < n
            invariant
                k <= n,
                n == self.columns().len(),
                self.wf(),
                self.backed_by(old(store)@),
                len + additional <= usize::MAX,
                forall|k: int|
                    0 <= k < self.columns().len() ==> len_fits(
                        (len + additional) as usize,
                        (#[trigger] self.columns()[k]).size(),
                    ),
                forall|i: int|
                    0 <= i < action@.len() ==> (#[trigger] action@[i]).0.0 < self.entities().len()
                        && action@[i].1.0 < self.entities().len(),
                store_extends(old(store)@, store@),
                forall|c: int|
                    0 <= c < store@.len() ==> (#[trigger] store@[c]).slots().len() == old(store)@[c].slots().len(),
                forall|c: int, other: ArchetypeIndex|
                    0 <= c < store@.len() && !(other == self.ar_index() && self.is_column(c))
                        ==> #[trigger] slot_same(old(store)@[c], store@[c], other),
                forall|j: int|
                    0 <= j < n ==> {
                        let info = #[trigger] self.columns()[j];
                        let before = old(store)@[info.index.0 as int];
                        let after = store@[info.index.0 as int];
                        if j < k {
                            self.column_settled(before, after, len, action@)
                        } else {
                            after == before
                        }
                    },
            decreases n - k,
        {
            let ci: usize = self.sorted_columns[k].index.index();
            let ghost info = self.columns()[k as int];
            let ghost cur = store@;
            assert(info.index.0 == ci);
            assert(ci < store@.len());
            proof {
                assert forall|i: int| 0 <= i < action@.len() implies row_fits(
                    (#[trigger] action@[i]).0,
                    cur[ci as int].size(),
                ) && row_fits(action@[i].1, cur[ci as int].size()) by {
                    lemma_len_fits_rows(
                        self.entities().len() as usize,
                        info.size(),
                        action@[i].0,
                    );
                    lemma_len_fits_rows(
                        self.entities().len() as usize,
                        info.size(),
                        action@[i].1,
                    );
                }
            }
            store[ci].settle(self.index, len, additional, action);
            proof {
                let index = self.ar_index();
                let first = old(store)@;
                let now = store@;
                lemma_same_but_slots(cur[ci as int], now[ci as int], index);
                assert(self.is_column(ci as int));
                assert forall|c: int, other: ArchetypeIndex|
                    0 <= c < now.len() && !(other == index && self.is_column(c)) implies #[trigger]
                    slot_same(first[c], now[c], other) by {
                    assert(slot_same(first[c], cur[c], other));
                    if c == ci {
                        assert(slot_same(cur[c], now[c], other));
                    } else {
                        assert(now[c] == cur[c]);
                    }
                }
                assert forall|j: int| 0 <= j < n && j != k implies now[(
                #[trigger] self.columns()[j]).index.0 as int] == cur[self.columns()[j].index.0 as int] by {
                    if j < k {
                        assert(self.columns()[j].index.0 < self.columns()[k as int].index.0);
                    } else {
                        assert(self.columns()[k as int].index.0 < self.columns()[j].index.0);
                    }
                }
                assert(cur[ci as int] == first[ci as int]);
                assert(now[ci as int].has_slot(index));
                assert(now[ci as int].meta() == info);
                assert(self.column_settled(first[ci as int], now[ci as int], len, action@));
            }
            k += 1;
        }
    }

    /// Plans the compaction of a table of `entity_len` rows of which
    /// `removes`, `remove_len` many, are queued for removal: fills `action`
    /// with the moves, each from a row that stays to a removed row, and
    /// returns the new number of rows. The removed rows below the new
    /// length are filled in ascending order from the staying rows at or past
    /// it in descending order, whichever strategy computes the moves.
    pub fn removes_action(
        removes: &Vec<Row>,
        remove_len: usize,
        entity_len: usize,
        action: &mut Vec<(Row, Row)>,
        set: &mut FixedBitSet,
    ) -> (new_len: usize)
        requires
            remove_len == removes@.len(),
            removable(removes@, entity_len as int),
            entity_len <= u32::MAX,
        ensures
            is_compaction(removes@, entity_len as int, new_len as int, final(action)@),
            new_len == entity_len - remove_len,
    {
        action.clear();
        proof {
            lemma_removes_bounded(removes@, entity_len as int);
        }
        if remove_len >= entity_len {
            proof {
                lemma_all_removed(removes@, entity_len as int);
            }
            return 0;
        }
        if remove_len == 1 {
            let remove_row: Row = removes[0];
            if remove_row.index() + 1 < entity_len {
                action.push((Row((entity_len - 1) as u32), remove_row));
            }
            proof {
                assert forall|r: Row| removes@.contains(r) implies r == remove_row by {
                    let i = choose|i: int| 0 <= i < removes@.len() && removes@[i] == r;
                }
                assert(removes@.contains(remove_row));
                let moves = action@;
                let new_len = entity_len - 1;
                if remove_row.0 + 1 < entity_len {
                    assert(moves[0] == (Row(new_len as u32), remove_row));
                    assert forall|r: Row|
                        new_len <= r.0 < entity_len && !removes@.contains(r) implies exists|k: int|
                        0 <= k < moves.len() && (#[trigger] moves[k]).0 == r by {
                        assert(moves[0].0 == r);
                    }
                    assert forall|r: Row| removes@.contains(r) && r.0 < new_len implies exists|
                        k: int,
                    | 0 <= k < moves.len() && (#[trigger] moves[k]).1 == r by {
                        assert(moves[0].1 == r);
                    }
                } else {
                    assert forall|r: Row|
                        new_len <= r.0 < entity_len && !removes@.contains(r) implies exists|k: int|
                        0 <= k < moves.len() && (#[trigger] moves[k]).0 == r by {
                        assert(r == remove_row);
                    }
                }
            }
            return entity_len - 1;
        }
        if is_sparse(remove_len, entity_len) {
            sparse_action(removes, entity_len, action)
        } else {
            dense_action(removes, entity_len, action, set)
        }
    }

    /// The moves that a compaction made, given what `action` holds after
    /// it: none where no row was queued, for then `action` is not touched.
    pub open spec fn moves_made(&self, action: Seq<(Row, Row)>) -> Seq<(Row, Row)> {
        if self.removes().len() == 0 {
            Seq::empty()
        } else {
            action
        }
    }

    /// Compacts the table: plans the moves with `removes_action`, empties
    /// the removal queue, compacts every column, moves the entities and
    /// shortens the table. Afterwards no row holds the null entity. `action`
    /// holds the moves that were made, for the world to give the moved
    /// entities their new rows. Where nothing was queued, nothing at all
    /// changes, and `action` is left as it was.
    #[verifier::rlimit(50)]
    pub(crate) fn settle(
        &mut self,
        store: &mut Vec<Column>,
        action: &mut Vec<(Row, Row)>,
        set: &mut FixedBitSet,
    ) -> (done: bool)
        requires
            old(self).wf(),
            old(self).marked(),
            old(self).backed_by(old(store)@),
        ensures
            done,
            final(self).settled_from(
                *old(self),
                old(store)@,
                final(store)@,
                old(self).moves_made(final(action)@),
            ),
            old(self).removes().len() == 0 ==> final(action)@ == old(action)@ && *final(self) == *old(self) && final(store)@ == old(store)@,
    {
        let remove_len = self.removes.len();
        if remove_len == 0 {
            proof {
                let none = Seq::<(Row, Row)>::empty();
                self.lemma_frame_refl(store@);
                assert forall|row: Row| row.0 < self.entities().len() implies {
                    &&& #[trigger] self.entities()[row.0 as int] == old(self).entities()[source_of(
                        none,
                        none.len(),
                        row,
                    ).0 as int]
                    &&& !self.entities()[row.0 as int].is_null()
                } by {
                    assert(!self.removes().contains(row));
                }
            }
            return true;
        }
        let entity_len = self.entities.len();
        let new_len = Self::removes_action(&self.removes, remove_len, entity_len, action, set);
        let ghost removed = self.removes@;
        let ghost moves = action@;
        self.removes.clear();
        proof {
            assert forall|k: int| 0 <= k < self.columns().len() implies len_fits(
                (new_len + 0) as usize,
                (#[trigger] self.columns()[k]).size(),
            ) by {
                lemma_len_fits_less(entity_len, self.columns()[k].size(), new_len);
            }
            assert forall|i: int| 0 <= i < moves.len() implies (#[trigger] moves[i]).0.0
                < self.entities().len() && moves[i].1.0 < self.entities().len() by {}
        }
        self.settle_columns(store, new_len, 0, action);
        let mut i: usize = 0;
        while i < action.len()
            invariant
                i <= moves.len(),
                action@ == moves,
                entity_len == old(self).entities().len(),
                removed == old(self).removes(),
                is_compaction(removed, entity_len as int, new_len as int, moves),
                self.entities@.len() == entity_len,
                self.index == old(self).index,
                self.sorted_columns == old(self).sorted_columns,
                self.bit_set == old(self).bit_set,
                self.removes@.len() == 0,
                forall|row: Row|
                    row.0 < new_len ==> #[trigger] self.entities@[row.0 as int] == old(self).entities@[source_of(moves, i as nat, row).0 as int],
                forall|j: int|
                    i <= j < moves.len() ==> self.entities@[(#[trigger] moves[j]).0.0 as int] == old(self).entities@[moves[j].0.0 as int],
            decreases moves.len() - i,
        {
            let src: Row = action[i].0;
            let dst: Row = action[i].1;
            let ghost cur = self.entities@;
            let e = self.entities[src.index()];
            self.entities.set(src.index(), Entity::null());
            self.entities.set(dst.index(), e);
            proof {
                lemma_compaction_source(removed, entity_len as int, new_len as int, moves, i as nat, src);
                assert forall|k: int| 0 <= k < i implies (#[trigger] moves[k]).1 != src by {
                    assert(moves[k].1.0 < new_len);
                }
                assert(source_of(moves, i as nat, src) == src);
                assert forall|j: int| i + 1 <= j < moves.len() implies self.entities@[(
                #[trigger] moves[j]).0.0 as int] == old(self).entities@[moves[j].0.0 as int] by {
                    assert(moves[i as int].0.0 > moves[j].0.0);
                    assert(moves[j].0.0 >= new_len);
                }
                assert forall|row: Row| row.0 < new_len implies #[trigger] self.entities@[row.0 as int]
                    == old(self).entities@[source_of(moves, (i + 1) as nat, row).0 as int] by {
                    if row == dst {
                    } else {
                        assert(cur[row.0 as int] == old(self).entities@[source_of(
                            moves,
                            i as nat,
                            row,
                        ).0 as int]);
                    }
                }
            }
            i += 1;
        }
        self.entities.truncate(new_len);
        proof {
            assert forall|k: int| 0 <= k < self.columns().len() implies len_fits(
                self.entities().len() as usize,
                (#[trigger] self.columns()[k]).size(),
            ) by {
                lemma_len_fits_less(entity_len, self.columns()[k].size(), new_len);
            }
            assert forall|row: Row| row.0 < self.entities().len() implies {
                &&& #[trigger] self.entities()[row.0 as int] == old(self).entities()[source_of(
                    moves,
                    moves.len(),
                    row,
                ).0 as int]
                &&& !self.entities()[row.0 as int].is_null()
            } by {
                lemma_compaction_source(
                    removed,
                    entity_len as int,
                    new_len as int,
                    moves,
                    moves.len(),
                    row,
                );
                if exists|k: int| 0 <= k < moves.len() && (#[trigger] moves[k]).1 == row {
                    let k = choose|k: int| 0 <= k < moves.len() && (#[trigger] moves[k]).1 == row;
                    assert(!removed.contains(moves[k].0));
                    assert(!old(self).entities()[moves[k].0.0 as int].is_null());
                } else {
                    assert(!removed.contains(row));
                    assert(!old(self).entities()[row.0 as int].is_null());
                }
            }
            assert forall|r: Row| r.0 < self.entities().len() implies (self.removes().contains(r)
                <==> (#[trigger] self.entities()[r.0 as int]).is_null()) by {}
        }
        true
    }

    /// Makes room for `additional` more rows: merges the storage of every
    /// column into one contiguous part that holds them. The rows of the
    /// table keep what they hold; every row past them reads as zero.
    pub fn reserve(&mut self, store: &mut Vec<Column>, additional: usize)
        requires
            old(self).wf(),
            old(self).backed_by(old(store)@),
            old(self).entities().len() + additional <= MAX_ROWS,
            forall|k: int|
                0 <= k < old(self).columns().len() ==> len_fits(
                    (old(self).entities().len() + additional) as usize,
                    (#[trigger] old(self).columns()[k]).size(),
                ),
        ensures
            final(self).wf(),
            final(self).backed_by(final(store)@),
            final(self).entities() == old(self).entities(),
            final(self).removes() == old(self).removes(),
            final(self).columns() == old(self).columns(),
            final(self).ar_index() == old(self).ar_index(),
            final(self).store_frame(old(store)@, final(store)@),
            forall|k: int|
                0 <= k < old(self).columns().len() ==> final(self).column_settled(
                    old(store)@[(#[trigger] old(self).columns()[k]).index.0 as int],
                    final(store)@[old(self).columns()[k].index.0 as int],
                    old(self).entities().len() as usize,
                    Seq::empty(),
                ),
    {
        let len = self.entities.len();
        self.entities.reserve(additional);
        let vec: Vec<(Row, Row)> = Vec::new();
        self.settle_columns(store, len, additional, &vec);
        proof {
            assert(vec@ =~= Seq::empty());
        }
    }

    /// Writes the bytes of one value into the `k`-th column at `row`, and
    /// records `tick` where the column tracks ticks: as the tick at which
    /// the value was added, whatever was recorded, or as the tick of a
    /// change, where the recorded tick is older.
    pub fn store_column(
        &self,
        store: &mut Vec<Column>,
        k: usize,
        row: Row,
        data: &Vec<u8>,
        e: Entity,
        tick: Tick,
        added: bool,
    )
        requires
            self.wf(),
            self.backed_by(old(store)@),
            k < self.columns().len(),
            row.0 < self.entities().len(),
            data@.len() == self.columns()[k as int].size(),
        ensures
            self.backed_by(final(store)@),
            self.store_frame(old(store)@, final(store)@),
            forall|c: int|
                0 <= c < old(store)@.len() && c != self.columns()[k as int].index.0
                    ==> #[trigger] final(store)@[c] == old(store)@[c],
            ({
                let info = self.columns()[k as int];
                let before = old(store)@[info.index.0 as int];
                let after = final(store)@[info.index.0 as int];
                let index = self.ar_index();
                &&& after.cell(index, row) == data@
                &&& forall|r: Row| r != row ==> #[trigger] after.cell(index, r) == before.cell(index, r)
                &&& after.tick(index, row) == if info.is_tick() && (added || before.tick(
                    index,
                    row,
                ).0 < tick.0) {
                    tick
                } else {
                    before.tick(index, row)
                }
                &&& forall|r: Row| r != row ==> #[trigger] after.tick(index, r) == before.tick(index, r)
                &&& after.log(index) == if info.is_tick() && (added || before.tick(index, row).0
                    < tick.0) {
                    before.log(index).push((e, tick))
                } else {
                    before.log(index)
                }
                &&& after.released(index) == before.released(index)
            }),
    {
        let ci: usize = self.sorted_columns[k].index.index();
        let ghost info = self.columns()[k as int];
        let ghost cur = store@;
        assert(info.index.0 == ci);
        proof {
            lemma_len_fits_rows(self.entities().len() as usize, info.size(), row);
        }
        let mut c = store[ci].blob_ref(self.index);
        let ghost size = info.size();
        let ghost b0 = *c.blob;
        assert(c.size() == size);
        c.write_row(row, data);
        let ghost b1 = *c.blob;
        assert forall|r: Row| r != row implies #[trigger] b1.cell(r, size) == b0.cell(r, size) by {}
        assert forall|r: Row| #[trigger] b1.tick(r) == b0.tick(r) by {}
        if added {
            c.added_tick(e, row, tick);
        } else {
            c.changed_tick(e, row, tick);
        }
        let ghost b2 = *c.blob;
        assert forall|r: Row| #[trigger] b2.cell(r, size) == b1.cell(r, size) by {}
        assert forall|r: Row| r != row implies #[trigger] b2.tick(r) == b0.tick(r) by {
            assert(b2.tick(r) == b1.tick(r));
        }
        proof {
            let index = self.ar_index();
            let now = store@;
            lemma_same_but_slots(cur[ci as int], now[ci as int], index);
            assert(self.is_column(ci as int));
            assert forall|c: int, other: ArchetypeIndex|
                0 <= c < now.len() && !(other == index && self.is_column(c)) implies #[trigger]
                slot_same(cur[c], now[c], other) by {
                if c != ci {
                    assert(now[c] == cur[c]);
                }
            }
            assert forall|j: int| 0 <= j < self.columns().len() implies {
                &&& (#[trigger] self.columns()[j]).index.0 < now.len()
                &&& now[self.columns()[j].index.0 as int].meta() == self.columns()[j]
                &&& now[self.columns()[j].index.0 as int].has_slot(index)
            } by {
                let cj = self.columns()[j].index.0 as int;
                if cj != ci {
                    assert(now[cj] == cur[cj]);
                }
            }
            let before = cur[ci as int];
            let after = now[ci as int];
            assert(before.slot(index) == b0);
            assert(after.slot(index) == b2);
            assert(after.cell(index, row) == data@) by {
                assert(b2.cell(row, size) == b1.cell(row, size));
            }
            assert forall|r: Row| r != row implies #[trigger] after.cell(index, r) == before.cell(
                index,
                r,
            ) by {
                assert(b2.cell(r, size) == b1.cell(r, size));
                assert(b1.cell(r, size) == b0.cell(r, size));
            }
            assert forall|r: Row| r != row implies #[trigger] after.tick(index, r) == before.tick(
                index,
                r,
            ) by {
                assert(b2.tick(r) == b0.tick(r));
            }
        }
    }

    /// Writes the bytes of one value into the `k`-th column at `row`, and
    /// records `tick` as the tick at which it was added, where the column
    /// tracks ticks.
    pub fn write_column(
        &self,
        store: &mut Vec<Column>,
        k: usize,
        row: Row,
        data: &Vec<u8>,
        e: Entity,
        tick: Tick,
    )
        requires
            self.wf(),
            self.backed_by(old(store)@),
            k < self.columns().len(),
            row.0 < self.entities().len(),
            data@.len() == self.columns()[k as int].size(),
        ensures
            self.backed_by(final(store)@),
            self.store_frame(old(store)@, final(store)@),
            forall|c: int|
                0 <= c < old(store)@.len() && c != self.columns()[k as int].index.0
                    ==> #[trigger] final(store)@[c] == old(store)@[c],
            ({
                let info = self.columns()[k as int];
                let before = old(store)@[info.index.0 as int];
                let after = final(store)@[info.index.0 as int];
                let index = self.ar_index();
                &&& after.cell(index, row) == data@
                &&& forall|r: Row| r != row ==> #[trigger] after.cell(index, r) == before.cell(index, r)
                &&& after.tick(index, row) == if info.is_tick() {
                    tick
                } else {
                    before.tick(index, row)
                }
                &&& forall|r: Row| r != row ==> #[trigger] after.tick(index, r) == before.tick(index, r)
                &&& after.log(index) == if info.is_tick() {
                    before.log(index).push((e, tick))
                } else {
                    before.log(index)
                }
                &&& after.released(index) == before.released(index)
            }),
    {
        self.store_column(store, k, row, data, e, tick, true)
    }

    /// The bytes of the value in the `k`-th column at `row`.
    pub fn read_column(&self, store: &Vec<Column>, k: usize, row: Row) -> (r: Vec<u8>)
        requires
            self.wf(),
            self.backed_by(store@),
            k < self.columns().len(),
            row.0 < self.entities().len(),
        ensures
            r@ == store@[self.columns()[k as int].index.0 as int].cell(self.ar_index(), row),
    {
        let ci: usize = self.sorted_columns[k].index.index();
        let ghost info = self.columns()[k as int];
        assert(info.index.0 == ci);
        proof {
            lemma_len_fits_rows(self.entities().len() as usize, info.size(), row);
        }
        let column = &store[ci];
        column.blob(self.index).read_row(row, column.info().size())
    }

    /// The tick of the `k`-th column at `row`.
    pub fn read_tick(&self, store: &Vec<Column>, k: usize, row: Row) -> (r: Tick)
        requires
            self.backed_by(store@),
            k < self.columns().len(),
        ensures
            r == store@[self.columns()[k as int].index.0 as int].tick(self.ar_index(), row),
    {
        let ci: usize = self.sorted_columns[k].index.index();
        assert(self.columns()[k as int].index.0 == ci);
        store[ci].blob(self.index).get_tick(row)
    }

    /// The position among the columns of the component type, if the table
    /// has a column of it.
    pub fn column_position(&self, index: ComponentIndex) -> (r: Option<usize>)
        requires
            self.wf(),
        ensures
            match r {
                Some(k) => k < self.columns().len() && self.columns()[k as int].index == index,
                None => !has_component(self.columns(), index),
            },
    {
        let n = self.sorted_columns.len();
        let mut k: usize = 0;
        while k < n
            invariant
                k <= n,
                n == self.columns().len(),
                forall|j: int| 0 <= j < k ==> (#[trigger] self.columns()[j]).index != index,
            decreases n - k,
        {
            let found: u32 = self.sorted_columns[k].index.0;
            assert(self.columns()[k as int].index.0 == found);
            if found == index.0 {
                return Some(k);
            }
            k += 1;
        }
        None
    }

    /// Places the table at the index of its archetype in the world.
    pub fn set_index(&mut self, index: ArchetypeIndex)
        ensures
            final(self).ar_index() == index,
            final(self).columns() == old(self).columns(),
            final(self).entities() == old(self).entities(),
            final(self).removes() == old(self).removes(),
            old(self).wf() ==> final(self).wf(),
            final(self).marked() == old(self).marked(),
    {
        self.index = index;
        proof {
            assert(self.entities() == old(self).entities());
            assert(self.removes() == old(self).removes());
            if old(self).marked() {
                assert(self.marked());
            }
            if self.marked() {
                assert(old(self).marked());
            }
        }
    }

    /// The index of the table's archetype in the world.
    pub fn index(&self) -> (r: ArchetypeIndex)
        ensures
            r == self.ar_index(),
    {
        self.index
    }

    /// What a compaction leaves, against the table and the store before it
    /// and the moves it made.
    pub open spec fn settled_from(
        &self,
        before: Table,
        store_before: Seq<Column>,
        store_after: Seq<Column>,
        moves: Seq<(Row, Row)>,
    ) -> bool {
        &&& self.wf()
        &&& self.marked()
        &&& self.backed_by(store_after)
        &&& self.columns() == before.columns()
        &&& self.ar_index() == before.ar_index()
        &&& self.store_frame(store_before, store_after)
        &&& self.removes().len() == 0
        &&& self.entities().len() == before.entities().len() - before.removes().len()
        &&& is_compaction(
            before.removes(),
            before.entities().len() as int,
            self.entities().len() as int,
            moves,
        )
        &&& forall|row: Row|
            row.0 < self.entities().len() ==> {
                &&& #[trigger] self.entities()[row.0 as int] == before.entities()[source_of(
                    moves,
                    moves.len(),
                    row,
                ).0 as int]
                &&& !self.entities()[row.0 as int].is_null()
            }
        &&& before.removes().len() == 0 ==> store_after == store_before
        &&& before.removes().len() > 0 ==> forall|k: int|
            0 <= k < before.columns().len() ==> self.column_settled(
                store_before[(#[trigger] before.columns()[k]).index.0 as int],
                store_after[before.columns()[k].index.0 as int],
                self.entities().len() as usize,
                moves,
            )
    }

    /// Whether one more row fits the storage of every column: see
    /// `has_room`.
    pub fn check_room(&self) -> (r: bool)
        requires
            self.wf(),
        ensures
            r == self.has_room(),
    {
        let len: usize = self.entities.len();
        if len >= MAX_ROWS {
            return false;
        }
        let n = self.sorted_columns.len();
        let mut k: usize = 0;
        while k < n
            invariant
                k <= n,
                n == self.columns().len(),
                len == self.entities().len(),
                len < MAX_ROWS,
                forall|j: int|
                    0 <= j < k ==> len_fits((len + 1) as usize, (#[trigger] self.columns()[j]).size()),
            decreases n - k,
        {
            let size: u32 = self.sorted_columns[k].mem_size;
            assert(self.columns()[k as int].mem_size == size);
            proof {
                assert((len + 1) * size <= 0x2000_0000 * 0x1_0000_0000) by (nonlinear_arith)
                    requires
                        0 <= len < 0x2000_0000,
                        0 <= size < 0x1_0000_0000,
                ;
            }
            if (len as u64 + 1) * (size as u64) > 0x7fff_ffff {
                return false;
            }
            k += 1;
        }
        true
    }

    /// The rows queued for removal, in the order they were queued.
    pub fn get_removes(&self) -> (r: &Vec<Row>)
        ensures
            r@ == self.removes(),
    {
        &self.removes
    }

    /// Releases what the table still holds, as it is given up: of every
    /// column whose type has a destructor, the value of every row that
    /// holds an entity joins the released values, in ascending order of the
    /// rows. The rows themselves stay as they are.
    pub fn release_rows(&self, store: &mut Vec<Column>)
        requires
            self.wf(),
            self.backed_by(old(store)@),
        ensures
            self.backed_by(final(store)@),
            self.store_frame(old(store)@, final(store)@),
            forall|k: int|
                0 <= k < self.columns().len() ==> {
                    let info = #[trigger] self.columns()[k];
                    let before = old(store)@[info.index.0 as int];
                    let after = final(store)@[info.index.0 as int];
                    let index = self.ar_index();
                    &&& forall|r: Row| #[trigger] after.cell(index, r) == before.cell(index, r)
                    &&& forall|r: Row| #[trigger] after.tick(index, r) == before.tick(index, r)
                    &&& after.log(index) == before.log(index)
                    &&& after.released(index) == if info.needs_drop {
                        before.released(index) + live_values(
                            before,
                            index,
                            self.entities(),
                            self.entities().len(),
                        )
                    } else {
                        before.released(index)
                    }
                },
    {
        let n = self.sorted_columns.len();
        let len: usize = self.entities.len();
        let mut k: usize = 0;
        while k < n
            invariant
                k <= n,
                n == self.columns().len(),
                len == self.entities().len(),
                self.wf(),
                self.backed_by(old(store)@),
                store_extends(old(store)@, store@),
                forall|c: int|
                    0 <= c < store@.len() ==> (#[trigger] store@[c]).slots().len() == old(store)@[c].slots().len(),
                forall|c: int, other: ArchetypeIndex|
                    0 <= c < store@.len() && !(other == self.ar_index() && self.is_column(c))
                        ==> #[trigger] slot_same(old(store)@[c], store@[c], other),
                forall|j: int|
                    0 <= j < n ==> {
                        let info = #[trigger] self.columns()[j];
                        let before = old(store)@[info.index.0 as int];
                        let after = store@[info.index.0 as int];
                        let index = self.ar_index();
                        if j < k {
                            &&& forall|r: Row| #[trigger] after.cell(index, r) == before.cell(index, r)
                            &&& forall|r: Row| #[trigger] after.tick(index, r) == before.tick(index, r)
                            &&& after.log(index) == before.log(index)
                            &&& after.released(index) == if info.needs_drop {
                                before.released(index) + live_values(
                                    before,
                                    index,
                                    self.entities(),
                                    self.entities().len(),
                                )
                            } else {
                                before.released(index)
                            }
                        } else {
                            after == before
                        }
                    },
            decreases n - k,
        {
            let ci: usize = self.sorted_columns[k].index.index();
            let ghost info = self.columns()[k as int];
            let ghost cur = store@;
            let ghost index = self.ar_index();
            assert(info.index.0 == ci);
            assert(ci < store@.len());
            assert(cur[ci as int] == old(store)@[ci as int]);
            if self.sorted_columns[k].needs_drop {
                let mut row: usize = 0;
                while row < len
                    invariant
                        row <= len,
                        len == self.entities().len(),
                        self.wf(),
                        k < self.columns().len(),
                        info == self.columns()[k as int],
                        info.index.0 == ci,
                        info.needs_drop,
                        index == self.ar_index(),
                        ci < cur.len(),
                        cur[ci as int].meta() == info,
                        cur[ci as int].has_slot(index),
                        store@.len() == cur.len(),
                        forall|c: int| 0 <= c < cur.len() && c != ci ==> #[trigger] store@[c] == cur[c],
                        cur[ci as int].same_but(&store@[ci as int], index),
                        store@[ci as int].slots().len() == cur[ci as int].slots().len(),
                        forall|r: Row| #[trigger]
                            store@[ci as int].cell(index, r) == cur[ci as int].cell(index, r),
                        forall|r: Row| #[trigger]
                            store@[ci as int].tick(index, r) == cur[ci as int].tick(index, r),
                        store@[ci as int].log(index) == cur[ci as int].log(index),
                        store@[ci as int].released(index) == cur[ci as int].released(index)
                            + live_values(cur[ci as int], index, self.entities(), row as nat),
                    decreases len - row,
                {
                    let ghost mid = store@;
                    if !self.entities[row].is_null() {
                        proof {
                            lemma_len_fits_rows(len, info.size(), Row(row as u32));
                        }
                        store[ci].drop_cell(self.index, Row(row as u32));
                        proof {
                            let now = store@;
                            assert(now[ci as int].released(index) =~= cur[ci as int].released(index)
                                + live_values(cur[ci as int], index, self.entities(), (row + 1) as nat));
                            assert forall|i: int|
                                0 <= i < cur[ci as int].slots().len() && i != index.0 implies #[trigger]
                                now[ci as int].slots()[i] == cur[ci as int].slots()[i] by {
                                assert(mid[ci as int].slots()[i] == cur[ci as int].slots()[i]);
                            }
                        }
                    } else {
                        proof {
                            assert(store@[ci as int].released(index) =~= cur[ci as int].released(index)
                                + live_values(cur[ci as int], index, self.entities(), (row + 1) as nat));
                        }
                    }
                    row += 1;
                }
            }
            proof {
                let first = old(store)@;
                let now = store@;
                lemma_same_but_slots(cur[ci as int], now[ci as int], index);
                assert(self.is_column(ci as int));
                assert forall|c: int, other: ArchetypeIndex|
                    0 <= c < now.len() && !(other == index && self.is_column(c)) implies #[trigger]
                    slot_same(first[c], now[c], other) by {
                    assert(slot_same(first[c], cur[c], other));
                    if c == ci {
                        assert(slot_same(cur[c], now[c], other));
                    } else {
                        assert(now[c] == cur[c]);
                    }
                }
                assert forall|j: int| 0 <= j < n && j != k implies now[(
                #[trigger] self.columns()[j]).index.0 as int] == cur[self.columns()[j].index.0 as int] by {
                    if j < k {
                        assert(self.columns()[j].index.0 < self.columns()[k as int].index.0);
                    } else {
                        assert(self.columns()[k as int].index.0 < self.columns()[j].index.0);
                    }
                }
                assert(now[ci as int].meta() == info);
                if !info.needs_drop {
                    assert(now[ci as int] == cur[ci as int]);
                }
            }
            k += 1;
        }
    }

    /// A store is within the frame of itself.
    pub proof fn lemma_frame_refl(&self, store: Seq<Column>)
        ensures
            self.store_frame(store, store),
    {
    }
}

/// The values that a column holds for the first `n` rows of an archetype
/// that hold an entity, in ascending order of the rows.
pub open spec fn live_values(
    column: Column,
    index: ArchetypeIndex,
    entities: Seq<Entity>,
    n: nat,
) -> Seq<Seq<u8>>
    decreases n,
{
    if n == 0 || n > entities.len() {
        Seq::empty()
    } else {
        let rest = live_values(column, index, entities, (n - 1) as nat);
        if !entities[n - 1].is_null() {
            rest.push(column.cell(index, Row((n - 1) as u32)))
        } else {
            rest
        }
    }
}

/// The position of a column is at most the index of its component.
pub proof fn lemma_position_bound(columns: Seq<ComponentInfo>, k: int)
    requires
        sorted_infos(columns),
        0 <= k < columns.len(),
    ensures
        k <= columns[k].index.0,
    decreases k,
{
    if k > 0 {
        lemma_position_bound(columns, k - 1);
        assert(columns[k - 1].index.0 < columns[k].index.0);
    }
}

/// A component has one position among columns that ascend strictly.
pub proof fn lemma_position_unique(columns: Seq<ComponentInfo>, c: ComponentIndex, k: int)
    requires
        sorted_infos(columns),
        0 <= k < columns.len(),
        columns[k].index == c,
    ensures
        has_component(columns, c),
        crate::archetype::position_in(columns, c) == k,
{
    let found = crate::archetype::position_in(columns, c);
    assert(0 <= found < columns.len() && columns[found].index == c);
    if found < k {
        assert(columns[found].index.0 < columns[k].index.0);
    } else if k < found {
        assert(columns[k].index.0 < columns[found].index.0);
    }
}

} // verus!
