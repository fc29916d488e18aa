//! Archetypes: the identity of a component set, wrapped around the table
//! that stores the entities that have exactly that set.

use crate::column::{share_info, Column};
use crate::component::{xor_ids, ComponentInfo};
use crate::ids::{ArchetypeWorldIndex, ComponentIndex, Entity, Row};
use crate::slots::{slot_items, slots_push, ListenerSlots};
use crate::table::{has_component, infos_of, sorted_infos, Table};
use crate::world::World;
use fixedbitset::FixedBitSet;
use pi_share::Share;
use std::collections::hash_map::DefaultHasher;
use std::hash::Hasher;
use vstd::prelude::*;
use vstd::std_specs::hash::DefaultHasherAdditionalSpecFns;
use vstd::string::StringExecFns;

verus! {

/// An archetype, shared.
pub type ShareArchetype = Share<Archetype>;

/// The 128-bit ids of a list of component types.
pub open spec fn type_ids(infos: Seq<ComponentInfo>) -> Seq<u128> {
    infos.map_values(|c: ComponentInfo| c.type_id)
}

/// The four bytes of a component index, lowest first: what the hash of a
/// component set is computed over.
pub open spec fn index_bytes(index: u32) -> Seq<u8> {
    seq![
        (index & 0xff) as u8,
        ((index >> 8) & 0xff) as u8,
        ((index >> 16) & 0xff) as u8,
        ((index >> 24) & 0xff) as u8,
    ]
}

/// What is fed to the hasher for a list of component types: the bytes of
/// each index, in order.
pub open spec fn hash_input(infos: Seq<ComponentInfo>) -> Seq<Seq<u8>> {
    infos.map_values(|c: ComponentInfo| index_bytes(c.index.0))
}

/// The names of the component types joined by `+`.
pub open spec fn joined_names(infos: Seq<ComponentInfo>) -> Seq<char>
    decreases infos.len(),
{
    if infos.len() == 0 {
        Seq::empty()
    } else if infos.len() == 1 {
        infos[0].name@
    } else {
        joined_names(infos.drop_last()) + seq!['+'] + infos.last().name@
    }
}

/// The identity of a component set: its component types, ascending by
/// index, the XOR of their ids, and a hash of their indices for bucketed
/// lookup.
#[derive(Debug)]
pub struct ArchetypeInfo {
    pub(crate) id: u128,
    pub(crate) sorted_components: Vec<Share<ComponentInfo>>,
    pub(crate) hash: u64,
}

/// `<[T]>::sort_unstable_by_key` with the component index as the key: the
/// component types are rearranged so that their indices ascend.
#[verifier::external_body]
fn sort_by_index(components: &mut Vec<Share<ComponentInfo>>)
    ensures
        infos_of(final(components)@).to_multiset() == infos_of(old(components)@).to_multiset(),
        forall|i: int, j: int|
            0 <= i < j < final(components)@.len() ==> (#[trigger] final(components)@[i]).index.0 <= (
            #[trigger] final(components)@[j]).index.0,
{
    components.sort_unstable_by_key(|c| c.index.0);
}

impl ArchetypeInfo {
    /// The component types, in the order they were given.
    pub closed spec fn components(&self) -> Seq<ComponentInfo> {
        infos_of(self.sorted_components@)
    }

    /// XOR of the ids of the component types.
    pub closed spec fn id(&self) -> u128 {
        self.id
    }

    /// Hash of the indices of the component types.
    pub closed spec fn hash(&self) -> u64 {
        self.hash
    }

    /// The id is the XOR of the component ids, and the hash is that of the
    /// component indices.
    pub open spec fn wf(&self) -> bool {
        &&& self.id() == xor_ids(type_ids(self.components()))
        &&& self.hash() == DefaultHasher::spec_finish(hash_input(self.components()))
    }

    /// The identity of the component types once they are put in ascending
    /// order of their index.
    pub fn sort(components: Vec<Share<ComponentInfo>>) -> (r: Self)
        ensures
            r.wf(),
            r.components().to_multiset() == infos_of(components@).to_multiset(),
            forall|i: int, j: int|
                0 <= i < j < r.components().len() ==> (#[trigger] r.components()[i]).index.0 <= (
                #[trigger] r.components()[j]).index.0,
    {
        let mut components = components;
        sort_by_index(&mut components);
        Self::new(components)
    }

    /// The identity of the component types as they are listed.
    pub fn new(sorted_components: Vec<Share<ComponentInfo>>) -> (r: Self)
        ensures
            r.wf(),
            r.components() == infos_of(sorted_components@),
    {
        let mut hasher = DefaultHasher::new();
        let mut id: u128 = 0;
        let ghost infos = infos_of(sorted_components@);
        let mut i: usize = 0;
        while i < sorted_components.len()
            invariant
                i <= sorted_components@.len(),
                infos == infos_of(sorted_components@),
                id == xor_ids(type_ids(infos.take(i as int))),
                hasher@ == hash_input(infos.take(i as int)),
            decreases sorted_components@.len() - i,
        {
            let index: u32 = sorted_components[i].index.0;
            let mut bytes: Vec<u8> = Vec::new();
            bytes.push((index & 0xff) as u8);
            bytes.push(((index >> 8) & 0xff) as u8);
            bytes.push(((index >> 16) & 0xff) as u8);
            bytes.push(((index >> 24) & 0xff) as u8);
            proof {
                assert(bytes@ =~= index_bytes(infos[i as int].index.0));
                assert(infos.take(i + 1).drop_last() =~= infos.take(i as int));
                assert(type_ids(infos.take(i + 1)).drop_last() =~= type_ids(infos.take(i as int)));
                assert(hash_input(infos.take(i + 1)) =~= hash_input(infos.take(i as int)).push(
                    bytes@,
                ));
            }
            hasher.write(bytes.as_slice());
            id = id ^ sorted_components[i].id();
            i += 1;
        }
        proof {
            assert(infos.take(i as int) =~= infos);
        }
        let hash = hasher.finish();
        ArchetypeInfo { id, sorted_components, hash }
    }

    /// The component types, as they are listed.
    pub fn get_components(&self) -> (r: &Vec<Share<ComponentInfo>>)
        ensures
            infos_of(r@) == self.components(),
    {
        &self.sorted_components
    }

    /// XOR of the ids of the component types.
    pub fn get_id(&self) -> (r: u128)
        ensures
            r == self.id(),
    {
        self.id
    }

    /// Hash of the indices of the component types.
    pub fn get_hash(&self) -> (r: u64)
        ensures
            r == self.hash(),
    {
        self.hash
    }

    /// The names of the component types joined by `+`, for diagnostics.
    pub fn name(&self) -> (s: String)
        ensures
            s@ == joined_names(self.components()),
    {
        let mut s = String::new();
        let ghost infos = self.components();
        let mut i: usize = 0;
        while i < self.sorted_components.len()
            invariant
                i <= self.sorted_components@.len(),
                infos == infos_of(self.sorted_components@),
                s@ == joined_names(infos.take(i as int)),
            decreases self.sorted_components@.len() - i,
        {
            proof {
                assert(infos.take(i + 1).drop_last() =~= infos.take(i as int));
                assert(infos.take(i + 1).last() == infos[i as int]);
                reveal_with_fuel(joined_names, 2);
            }
            if i > 0 {
                s.append("+");
                proof {
                    reveal_strlit("+");
                    assert("+"@ =~= seq!['+']);
                }
            }
            s.append(self.sorted_components[i].name.as_str());
            i += 1;
        }
        proof {
            assert(infos.take(i as int) =~= infos);
        }
        s
    }
}

/// Whether the operations are listed in ascending order of their component
/// index.
pub open spec fn sorted_ops(ops: Seq<(ComponentIndex, bool)>) -> bool {
    forall|u: int, v: int| 0 <= u < v < ops.len() ==> (#[trigger] ops[u]).0.0 <= (#[trigger] ops[v]).0.0
}

/// Whether the `u`-th operation counts: of the operations on one component
/// type only the first does.
pub open spec fn effective(ops: Seq<(ComponentIndex, bool)>, u: int) -> bool {
    0 <= u < ops.len() && (u == 0 || ops[u - 1].0 != ops[u].0)
}

/// Whether the operations add the component type.
pub open spec fn op_adds(ops: Seq<(ComponentIndex, bool)>, c: ComponentIndex) -> bool {
    exists|u: int| #[trigger] effective(ops, u) && ops[u].0 == c && ops[u].1
}

/// Whether the operations remove the component type.
pub open spec fn op_removes(ops: Seq<(ComponentIndex, bool)>, c: ComponentIndex) -> bool {
    exists|u: int| #[trigger] effective(ops, u) && ops[u].0 == c && !ops[u].1
}

/// Whether the column of the component type is initialised in the
/// destination: the type is added, and either it is new to the entity or an
/// added type that the entity has is initialised again.
pub open spec fn plan_adding(
    src: Seq<ComponentInfo>,
    ops: Seq<(ComponentIndex, bool)>,
    as_move: bool,
    c: ComponentIndex,
) -> bool {
    op_adds(ops, c) && (!has_component(src, c) || !as_move)
}

/// Whether the column of the component type moves from the source to the
/// destination: the entity has the type and keeps it, and it is not
/// initialised again.
pub open spec fn plan_moving(
    src: Seq<ComponentInfo>,
    ops: Seq<(ComponentIndex, bool)>,
    as_move: bool,
    c: ComponentIndex,
) -> bool {
    has_component(src, c) && !op_removes(ops, c) && (!op_adds(ops, c) || as_move)
}

/// Whether the column of the component type is dropped: the entity has the
/// type and the operations remove it.
pub open spec fn plan_removing(
    src: Seq<ComponentInfo>,
    ops: Seq<(ComponentIndex, bool)>,
    c: ComponentIndex,
) -> bool {
    has_component(src, c) && op_removes(ops, c)
}

/// Whether the destination has the component type.
pub open spec fn plan_result(
    src: Seq<ComponentInfo>,
    ops: Seq<(ComponentIndex, bool)>,
    c: ComponentIndex,
) -> bool {
    (has_component(src, c) && !op_removes(ops, c)) || op_adds(ops, c)
}

/// Whether the component type is one of the source, or the one registered
/// in the store under its index.
pub open spec fn comes_from(info: ComponentInfo, src: Seq<ComponentInfo>, store: Seq<Column>) -> bool {
    ||| exists|t: int| 0 <= t < src.len() && #[trigger] src[t] == info
    ||| info.index.0 < store.len() && store[info.index.0 as int].meta() == info
}

/// Whether every component type listed is one of the source's.
pub open spec fn of_source(infos: Seq<ComponentInfo>, src: Seq<ComponentInfo>) -> bool {
    forall|k: int|
        0 <= k < infos.len() ==> exists|t: int| 0 <= t < src.len() && #[trigger] src[t] == #[trigger] infos[k]
}

/// A list of the source's component types gains one more of them.
proof fn lemma_of_source_push(infos: Seq<ComponentInfo>, src: Seq<ComponentInfo>, t: int)
    requires
        of_source(infos, src),
        0 <= t < src.len(),
    ensures
        of_source(infos.push(src[t]), src),
{
    let more = infos.push(src[t]);
    assert forall|k: int| 0 <= k < more.len() implies exists|u: int|
        0 <= u < src.len() && #[trigger] src[u] == #[trigger] more[k] by {
        if k < infos.len() {
            assert(more[k] == infos[k]);
            let u = choose|u: int| 0 <= u < src.len() && #[trigger] src[u] == infos[k];
            assert(src[u] == more[k]);
        } else {
            assert(src[t] == more[k]);
        }
    }
}

/// Whether `infos` lists, in ascending order of index, exactly the
/// component types that `member` holds of, each taken from the source or
/// the store.
pub open spec fn lists(
    infos: Seq<ComponentInfo>,
    member: spec_fn(ComponentIndex) -> bool,
    src: Seq<ComponentInfo>,
    store: Seq<Column>,
) -> bool {
    &&& forall|i: int, j: int|
        0 <= i < j < infos.len() ==> (#[trigger] infos[i]).index.0 < (#[trigger] infos[j]).index.0
    &&& forall|k: int|
        0 <= k < infos.len() ==> member((#[trigger] infos[k]).index) && comes_from(
            infos[k],
            src,
            store,
        )
    &&& forall|c: ComponentIndex| #[trigger]
        member(c) ==> exists|k: int| 0 <= k < infos.len() && (#[trigger] infos[k]).index == c
}

/// A list gains its next member: a component type above all that are
/// listed.
proof fn lemma_lists_push(
    infos: Seq<ComponentInfo>,
    before: spec_fn(ComponentIndex) -> bool,
    after: spec_fn(ComponentIndex) -> bool,
    src: Seq<ComponentInfo>,
    store: Seq<Column>,
    x: ComponentInfo,
)
    requires
        lists(infos, before, src, store),
        forall|c: ComponentIndex| #[trigger] before(c) ==> c.0 < x.index.0,
        comes_from(x, src, store),
        forall|c: ComponentIndex| #[trigger] after(c) <==> before(c) || c == x.index,
    ensures
        lists(infos.push(x), after, src, store),
{
    let next = infos.push(x);
    assert forall|i: int, j: int| 0 <= i < j < next.len() implies (#[trigger] next[i]).index.0 < (
    #[trigger] next[j]).index.0 by {
        if j == infos.len() {
            assert(before(infos[i].index));
        }
    }
    assert forall|k: int| 0 <= k < next.len() implies after((#[trigger] next[k]).index)
        && comes_from(next[k], src, store) by {
        if k < infos.len() {
            assert(before(infos[k].index));
        }
    }
    assert forall|c: ComponentIndex| #[trigger] after(c) implies exists|k: int|
        0 <= k < next.len() && (#[trigger] next[k]).index == c by {
        if c == x.index {
            assert(next[infos.len() as int].index == c);
        } else {
            assert(before(c));
            let k = choose|k: int| 0 <= k < infos.len() && (#[trigger] infos[k]).index == c;
            assert(next[k].index == c);
        }
    }
}

/// A list stays as it is where its membership does.
proof fn lemma_lists_same(
    infos: Seq<ComponentInfo>,
    before: spec_fn(ComponentIndex) -> bool,
    after: spec_fn(ComponentIndex) -> bool,
    src: Seq<ComponentInfo>,
    store: Seq<Column>,
)
    requires
        lists(infos, before, src, store),
        forall|c: ComponentIndex| #[trigger] after(c) <==> before(c),
    ensures
        lists(infos, after, src, store),
{
    assert forall|k: int| 0 <= k < infos.len() implies after((#[trigger] infos[k]).index)
        && comes_from(infos[k], src, store) by {
        assert(before(infos[k].index));
    }
    assert forall|c: ComponentIndex| #[trigger] after(c) implies exists|k: int|
        0 <= k < infos.len() && (#[trigger] infos[k]).index == c by {
        assert(before(c));
    }
}

/// An operation that repeats the component type of the one before it
/// changes nothing.
proof fn lemma_ops_repeat(ops: Seq<(ComponentIndex, bool)>, i: int)
    requires
        0 < i < ops.len(),
        ops[i - 1].0 == ops[i].0,
    ensures
        forall|c: ComponentIndex|
            op_adds(ops.take(i + 1), c) <==> op_adds(ops.take(i), c),
        forall|c: ComponentIndex|
            op_removes(ops.take(i + 1), c) <==> op_removes(ops.take(i), c),
{
    let more = ops.take(i + 1);
    let less = ops.take(i);
    assert(!effective(more, i));
    assert forall|c: ComponentIndex| op_adds(more, c) <==> op_adds(less, c) by {
        if op_adds(more, c) {
            let u = choose|u: int| #[trigger] effective(more, u) && more[u].0 == c && more[u].1;
            assert(effective(less, u) && less[u].0 == c && less[u].1);
        }
        if op_adds(less, c) {
            let u = choose|u: int| #[trigger] effective(less, u) && less[u].0 == c && less[u].1;
            assert(effective(more, u) && more[u].0 == c && more[u].1);
        }
    }
    assert forall|c: ComponentIndex| op_removes(more, c) <==> op_removes(less, c) by {
        if op_removes(more, c) {
            let u = choose|u: int| #[trigger] effective(more, u) && more[u].0 == c && !more[u].1;
            assert(effective(less, u) && less[u].0 == c && !less[u].1);
        }
        if op_removes(less, c) {
            let u = choose|u: int| #[trigger] effective(less, u) && less[u].0 == c && !less[u].1;
            assert(effective(more, u) && more[u].0 == c && !more[u].1);
        }
    }
}

/// The first operation on a component type decides for that type and for
/// no other.
proof fn lemma_ops_first(ops: Seq<(ComponentIndex, bool)>, i: int)
    requires
        0 <= i < ops.len(),
        sorted_ops(ops),
        i > 0 ==> ops[i - 1].0 != ops[i].0,
    ensures
        forall|c: ComponentIndex|
            op_adds(ops.take(i + 1), c) <==> op_adds(ops.take(i), c) || (c == ops[i].0 && ops[i].1),
        forall|c: ComponentIndex|
            op_removes(ops.take(i + 1), c) <==> op_removes(ops.take(i), c) || (c == ops[i].0
                && !ops[i].1),
        !op_adds(ops.take(i), ops[i].0),
        !op_removes(ops.take(i), ops[i].0),
{
    let more = ops.take(i + 1);
    let less = ops.take(i);
    assert(effective(more, i));
    assert forall|u: int| 0 <= u < i implies (#[trigger] ops[u]).0 != ops[i].0 by {
        assert(ops[u].0.0 <= ops[i - 1].0.0);
        assert(ops[i - 1].0.0 <= ops[i].0.0);
    }
    assert forall|c: ComponentIndex| op_adds(more, c) <==> op_adds(less, c) || (c == ops[i].0
        && ops[i].1) by {
        if op_adds(more, c) {
            let u = choose|u: int| #[trigger] effective(more, u) && more[u].0 == c && more[u].1;
            if u < i {
                assert(effective(less, u) && less[u].0 == c && less[u].1);
            }
        }
        if op_adds(less, c) {
            let u = choose|u: int| #[trigger] effective(less, u) && less[u].0 == c && less[u].1;
            assert(effective(more, u) && more[u].0 == c && more[u].1);
        }
        if c == ops[i].0 && ops[i].1 {
            assert(effective(more, i) && more[i].0 == c && more[i].1);
        }
    }
    assert forall|c: ComponentIndex| op_removes(more, c) <==> op_removes(less, c) || (c
        == ops[i].0 && !ops[i].1) by {
        if op_removes(more, c) {
            let u = choose|u: int| #[trigger] effective(more, u) && more[u].0 == c && !more[u].1;
            if u < i {
                assert(effective(less, u) && less[u].0 == c && !less[u].1);
            }
        }
        if op_removes(less, c) {
            let u = choose|u: int| #[trigger] effective(less, u) && less[u].0 == c && !less[u].1;
            assert(effective(more, u) && more[u].0 == c && !more[u].1);
        }
        if c == ops[i].0 && !ops[i].1 {
            assert(effective(more, i) && more[i].0 == c && !more[i].1);
        }
    }
    if op_adds(less, ops[i].0) {
        let u = choose|u: int| #[trigger] effective(less, u) && less[u].0 == ops[i].0 && less[u].1;
        assert(ops[u].0 != ops[i].0);
    }
    if op_removes(less, ops[i].0) {
        let u = choose|u: int| #[trigger] effective(less, u) && less[u].0 == ops[i].0 && !less[u].1;
        assert(ops[u].0 != ops[i].0);
    }
}

/// The next column of the source is one more component type that the
/// entity has.
proof fn lemma_src_next(src: Seq<ComponentInfo>, j: int)
    requires
        0 <= j < src.len(),
    ensures
        forall|c: ComponentIndex|
            has_component(src.take(j + 1), c) <==> has_component(src.take(j), c) || c
                == src[j].index,
{
    let more = src.take(j + 1);
    let less = src.take(j);
    assert forall|c: ComponentIndex| has_component(more, c) <==> has_component(less, c) || c
        == src[j].index by {
        if has_component(more, c) {
            let k = choose|k: int| 0 <= k < more.len() && (#[trigger] more[k]).index == c;
            if k < j {
                assert(less[k].index == c);
            }
        }
        if has_component(less, c) {
            let k = choose|k: int| 0 <= k < less.len() && (#[trigger] less[k]).index == c;
            assert(more[k].index == c);
        }
        if c == src[j].index {
            assert(more[j].index == c);
        }
    }
}

/// Every component type that the entity has among the first `j` columns,
/// and every type that the first `i` operations name, lies below `bound`,
/// the reserved index apart.
spec fn decided_below(
    src: Seq<ComponentInfo>,
    j: int,
    ops: Seq<(ComponentIndex, bool)>,
    i: int,
    bound: int,
) -> bool {
    &&& forall|t: int| 0 <= t < j ==> (#[trigger] src[t]).index.0 < bound
    &&& forall|u: int| 0 <= u < i ==> (#[trigger] ops[u]).0.0 < bound || ops[u].0.is_null()
}

proof fn lemma_members_below(
    src: Seq<ComponentInfo>,
    j: int,
    ops: Seq<(ComponentIndex, bool)>,
    i: int,
    bound: int,
    store_len: int,
)
    requires
        0 <= j <= src.len(),
        0 <= i <= ops.len(),
        decided_below(src, j, ops, i, bound),
        store_len < u32::MAX,
        sorted_infos(src),
        forall|u: int|
            #[trigger] effective(ops, u) && ops[u].1 && !has_component(src, ops[u].0) ==> ops[u].0.0
                < store_len,
    ensures
        forall|c: ComponentIndex| has_component(src.take(j), c) ==> c.0 < bound,
        forall|c: ComponentIndex| op_adds(ops.take(i), c) ==> c.0 < bound,
{
    assert forall|c: ComponentIndex| has_component(src.take(j), c) implies c.0 < bound by {
        let k = choose|k: int| 0 <= k < src.take(j).len() && (#[trigger] src.take(j)[k]).index == c;
        assert(src[k].index == c);
    }
    assert forall|c: ComponentIndex| op_adds(ops.take(i), c) implies c.0 < bound by {
        let u = choose|u: int| #[trigger]
            effective(ops.take(i), u) && ops.take(i)[u].0 == c && ops.take(i)[u].1;
        assert(ops[u].0 == c && ops[u].1);
        if u > 0 {
            assert(ops.take(i)[u - 1] == ops[u - 1]);
        }
        assert(effective(ops, u));
        if c.is_null() {
            lemma_no_null(src, c);
        }
    }
}

/// No column of an archetype is of the reserved index.
proof fn lemma_no_null(src: Seq<ComponentInfo>, c: ComponentIndex)
    requires
        sorted_infos(src),
        c.is_null(),
    ensures
        !has_component(src, c),
{
    if has_component(src, c) {
        let k = choose|k: int| 0 <= k < src.len() && (#[trigger] src[k]).index == c;
        assert(!src[k].index.is_null());
    }
}

/// Membership of the list of initialised columns, after `j` columns of the
/// source and `i` operations.
spec fn adding_at(
    src: Seq<ComponentInfo>,
    ops: Seq<(ComponentIndex, bool)>,
    as_move: bool,
    j: int,
    i: int,
) -> spec_fn(ComponentIndex) -> bool {
    |c: ComponentIndex| plan_adding(src.take(j), ops.take(i), as_move, c)
}

/// Membership of the list of moved columns, after `j` columns of the source
/// and `i` operations.
spec fn moving_at(
    src: Seq<ComponentInfo>,
    ops: Seq<(ComponentIndex, bool)>,
    as_move: bool,
    j: int,
    i: int,
) -> spec_fn(ComponentIndex) -> bool {
    |c: ComponentIndex| plan_moving(src.take(j), ops.take(i), as_move, c)
}

/// Membership of the list of dropped columns, after `j` columns of the
/// source and `i` operations.
spec fn removing_at(
    src: Seq<ComponentInfo>,
    ops: Seq<(ComponentIndex, bool)>,
    j: int,
    i: int,
) -> spec_fn(ComponentIndex) -> bool {
    |c: ComponentIndex| plan_removing(src.take(j), ops.take(i), c)
}

/// Membership of the destination, after `j` columns of the source and `i`
/// operations.
spec fn result_at(
    src: Seq<ComponentInfo>,
    ops: Seq<(ComponentIndex, bool)>,
    j: int,
    i: int,
) -> spec_fn(ComponentIndex) -> bool {
    |c: ComponentIndex| plan_result(src.take(j), ops.take(i), c)
}

/// The state of the merge walk after `j` columns of the source and `i`
/// operations: each list holds what is decided so far.
spec fn walk_inv(
    src: Seq<ComponentInfo>,
    ops: Seq<(ComponentIndex, bool)>,
    as_move: bool,
    store: Seq<Column>,
    j: int,
    i: int,
    adding: Seq<ComponentInfo>,
    moving: Seq<ComponentInfo>,
    removing: Seq<ComponentInfo>,
    result: Seq<ComponentInfo>,
) -> bool {
    &&& 0 <= j <= src.len()
    &&& 0 <= i <= ops.len()
    &&& forall|t: int|
        0 <= t < j && i < ops.len() ==> (#[trigger] src[t]).index.0 < ops[i].0.0 || (i > 0
            && src[t].index.0 <= ops[i - 1].0.0)
    &&& forall|u: int|
        0 <= u < i && j < src.len() ==> (#[trigger] ops[u]).0.0 < src[j].index.0
            || ops[u].0.is_null()
    &&& lists(adding, adding_at(src, ops, as_move, j, i), src, store)
    &&& lists(moving, moving_at(src, ops, as_move, j, i), src, store)
    &&& lists(removing, removing_at(src, ops, j, i), src, store)
    &&& lists(result, result_at(src, ops, j, i), src, store)
}

/// What the walk is given: a sorted source, sorted operations, and every
/// component type registered that an operation that counts adds and the
/// source lacks.
spec fn walk_input(
    src: Seq<ComponentInfo>,
    ops: Seq<(ComponentIndex, bool)>,
    store: Seq<Column>,
) -> bool {
    &&& sorted_infos(src)
    &&& sorted_ops(ops)
    &&& store.len() < u32::MAX
    &&& forall|c: int|
        0 <= c < store.len() ==> (#[trigger] store[c]).meta().index.0 == c && store[c].meta().wf()
    &&& forall|u: int|
        #[trigger] effective(ops, u) && ops[u].1 && !has_component(src, ops[u].0) ==> ops[u].0.0
            < store.len()
}

/// An operation is skipped: it repeats the one before it, or it is a first
/// operation on the reserved index.
proof fn lemma_walk_skip(
    src: Seq<ComponentInfo>,
    ops: Seq<(ComponentIndex, bool)>,
    as_move: bool,
    store: Seq<Column>,
    j: int,
    i: int,
    adding: Seq<ComponentInfo>,
    moving: Seq<ComponentInfo>,
    removing: Seq<ComponentInfo>,
    result: Seq<ComponentInfo>,
)
    requires
        walk_input(src, ops, store),
        walk_inv(src, ops, as_move, store, j, i, adding, moving, removing, result),
        i < ops.len(),
        ops[i].0 == if i == 0 {
            ComponentIndex(u32::MAX)
        } else {
            ops[i - 1].0
        },
    ensures
        walk_inv(src, ops, as_move, store, j, i + 1, adding, moving, removing, result),
{
    if i > 0 {
        lemma_ops_repeat(ops, i);
    } else {
        lemma_ops_first(ops, 0);
        lemma_no_null(src, ops[0].0);
        assert(effective(ops, 0));
        assert(!ops[0].1);
        assert(!has_component(src.take(j), ops[0].0)) by {
            if has_component(src.take(j), ops[0].0) {
                let k = choose|k: int|
                    0 <= k < src.take(j).len() && (#[trigger] src.take(j)[k]).index == ops[0].0;
                assert(src[k].index.is_null());
            }
        }
    }
    lemma_lists_same(
        adding,
        adding_at(src, ops, as_move, j, i),
        adding_at(src, ops, as_move, j, i + 1),
        src,
        store,
    );
    lemma_lists_same(
        moving,
        moving_at(src, ops, as_move, j, i),
        moving_at(src, ops, as_move, j, i + 1),
        src,
        store,
    );
    lemma_lists_same(
        removing,
        removing_at(src, ops, j, i),
        removing_at(src, ops, j, i + 1),
        src,
        store,
    );
    lemma_lists_same(result, result_at(src, ops, j, i), result_at(src, ops, j, i + 1), src, store);
    assert forall|t: int| 0 <= t < j && i + 1 < ops.len() implies (#[trigger] src[t]).index.0
        < ops[i + 1].0.0 || src[t].index.0 <= ops[i].0.0 by {
        if i > 0 {
            assert(ops[i - 1].0.0 <= ops[i].0.0);
        }
    }
    assert forall|u: int| 0 <= u < i + 1 && j < src.len() implies (#[trigger] ops[u]).0.0
        < src[j].index.0 || ops[u].0.is_null() by {
        if u == i && i > 0 {
            assert(ops[i - 1].0.0 < src[j].index.0 || ops[i - 1].0.is_null());
        }
    }
}

/// A column of the source below the next operation moves.
proof fn lemma_walk_column(
    src: Seq<ComponentInfo>,
    ops: Seq<(ComponentIndex, bool)>,
    as_move: bool,
    store: Seq<Column>,
    j: int,
    i: int,
    adding: Seq<ComponentInfo>,
    moving: Seq<ComponentInfo>,
    removing: Seq<ComponentInfo>,
    result: Seq<ComponentInfo>,
)
    requires
        walk_input(src, ops, store),
        walk_inv(src, ops, as_move, store, j, i, adding, moving, removing, result),
        j < src.len(),
        i < ops.len() ==> src[j].index.0 < ops[i].0.0,
    ensures
        walk_inv(
            src,
            ops,
            as_move,
            store,
            j + 1,
            i,
            adding,
            moving.push(src[j]),
            removing,
            result.push(src[j]),
        ),
{
    let x = src[j];
    lemma_src_next(src, j);
    assert(decided_below(src, j, ops, i, x.index.0 as int)) by {
        assert forall|t: int| 0 <= t < j implies (#[trigger] src[t]).index.0 < x.index.0 by {}
    }
    lemma_members_below(src, j, ops, i, x.index.0 as int, store.len() as int);
    assert(!op_adds(ops.take(i), x.index)) by {
        if op_adds(ops.take(i), x.index) {
            let u = choose|u: int| #[trigger]
                effective(ops.take(i), u) && ops.take(i)[u].0 == x.index && ops.take(i)[u].1;
            assert(ops[u].0.0 < x.index.0 || ops[u].0.is_null());
        }
    }
    assert(!op_removes(ops.take(i), x.index)) by {
        if op_removes(ops.take(i), x.index) {
            let u = choose|u: int| #[trigger]
                effective(ops.take(i), u) && ops.take(i)[u].0 == x.index && !ops.take(i)[u].1;
            assert(ops[u].0.0 < x.index.0 || ops[u].0.is_null());
        }
    }
    assert(comes_from(x, src, store));
    lemma_lists_same(
        adding,
        adding_at(src, ops, as_move, j, i),
        adding_at(src, ops, as_move, j + 1, i),
        src,
        store,
    );
    lemma_lists_push(
        moving,
        moving_at(src, ops, as_move, j, i),
        moving_at(src, ops, as_move, j + 1, i),
        src,
        store,
        x,
    );
    lemma_lists_same(
        removing,
        removing_at(src, ops, j, i),
        removing_at(src, ops, j + 1, i),
        src,
        store,
    );
    lemma_lists_push(
        result,
        result_at(src, ops, j, i),
        result_at(src, ops, j + 1, i),
        src,
        store,
        x,
    );
    assert forall|u: int| 0 <= u < i && j + 1 < src.len() implies (#[trigger] ops[u]).0.0 < src[j
        + 1].index.0 || ops[u].0.is_null() by {
        assert(src[j].index.0 < src[j + 1].index.0);
    }
}

/// An operation on a component type that the source lacks: it adds the
/// type where it is an addition and does nothing where it is a removal.
proof fn lemma_walk_op(
    src: Seq<ComponentInfo>,
    ops: Seq<(ComponentIndex, bool)>,
    as_move: bool,
    store: Seq<Column>,
    j: int,
    i: int,
    adding: Seq<ComponentInfo>,
    moving: Seq<ComponentInfo>,
    removing: Seq<ComponentInfo>,
    result: Seq<ComponentInfo>,
)
    requires
        walk_input(src, ops, store),
        walk_inv(src, ops, as_move, store, j, i, adding, moving, removing, result),
        i < ops.len(),
        i > 0 ==> ops[i - 1].0 != ops[i].0,
        j < src.len() ==> src[j].index.0 > ops[i].0.0,
    ensures
        !has_component(src, ops[i].0),
        ops[i].1 ==> ops[i].0.0 < store.len(),
        ops[i].1 ==> walk_inv(
            src,
            ops,
            as_move,
            store,
            j,
            i + 1,
            adding.push(store[ops[i].0.0 as int].meta()),
            moving,
            removing,
            result.push(store[ops[i].0.0 as int].meta()),
        ),
        !ops[i].1 ==> walk_inv(src, ops, as_move, store, j, i + 1, adding, moving, removing, result),
{
    let c0 = ops[i].0;
    lemma_ops_first(ops, i);
    assert forall|t: int| 0 <= t < j implies (#[trigger] src[t]).index.0 < c0.0 by {
        if i > 0 {
            assert(ops[i - 1].0.0 <= ops[i].0.0);
        }
    }
    assert(!has_component(src, c0)) by {
        if has_component(src, c0) {
            let t = choose|t: int| 0 <= t < src.len() && (#[trigger] src[t]).index == c0;
            if t < j {
                assert(src[t].index.0 < c0.0);
            } else if t > j {
                assert(src[j].index.0 < src[t].index.0);
            }
        }
    }
    assert(effective(ops, i));
    assert(decided_below(src, j, ops, i, c0.0 as int)) by {
        assert forall|u: int| 0 <= u < i implies (#[trigger] ops[u]).0.0 < c0.0
            || ops[u].0.is_null() by {
            assert(ops[u].0.0 <= ops[i - 1].0.0);
            assert(ops[i - 1].0.0 <= ops[i].0.0);
        }
    }
    lemma_members_below(src, j, ops, i, c0.0 as int, store.len() as int);
    assert(!has_component(src.take(j), c0));
    assert forall|t: int| 0 <= t < j && i + 1 < ops.len() implies (#[trigger] src[t]).index.0
        < ops[i + 1].0.0 || src[t].index.0 <= ops[i].0.0 by {}
    lemma_lists_same(
        moving,
        moving_at(src, ops, as_move, j, i),
        moving_at(src, ops, as_move, j, i + 1),
        src,
        store,
    );
    lemma_lists_same(
        removing,
        removing_at(src, ops, j, i),
        removing_at(src, ops, j, i + 1),
        src,
        store,
    );
    if ops[i].1 {
        let x = store[c0.0 as int].meta();
        assert(x.index == c0);
        lemma_lists_push(
            adding,
            adding_at(src, ops, as_move, j, i),
            adding_at(src, ops, as_move, j, i + 1),
            src,
            store,
            x,
        );
        lemma_lists_push(
            result,
            result_at(src, ops, j, i),
            result_at(src, ops, j, i + 1),
            src,
            store,
            x,
        );
    } else {
        lemma_lists_same(
            adding,
            adding_at(src, ops, as_move, j, i),
            adding_at(src, ops, as_move, j, i + 1),
            src,
            store,
        );
        lemma_lists_same(
            result,
            result_at(src, ops, j, i),
            result_at(src, ops, j, i + 1),
            src,
            store,
        );
    }
}

/// An operation on a component type that the source has: the column
/// moves, is initialised again or is dropped.
proof fn lemma_walk_both(
    src: Seq<ComponentInfo>,
    ops: Seq<(ComponentIndex, bool)>,
    as_move: bool,
    store: Seq<Column>,
    j: int,
    i: int,
    adding: Seq<ComponentInfo>,
    moving: Seq<ComponentInfo>,
    removing: Seq<ComponentInfo>,
    result: Seq<ComponentInfo>,
)
    requires
        walk_input(src, ops, store),
        walk_inv(src, ops, as_move, store, j, i, adding, moving, removing, result),
        i < ops.len(),
        j < src.len(),
        i > 0 ==> ops[i - 1].0 != ops[i].0,
        src[j].index == ops[i].0,
    ensures
        ops[i].1 && as_move ==> walk_inv(
            src,
            ops,
            as_move,
            store,
            j + 1,
            i + 1,
            adding,
            moving.push(src[j]),
            removing,
            result.push(src[j]),
        ),
        ops[i].1 && !as_move ==> walk_inv(
            src,
            ops,
            as_move,
            store,
            j + 1,
            i + 1,
            adding.push(src[j]),
            moving,
            removing,
            result.push(src[j]),
        ),
        !ops[i].1 ==> walk_inv(
            src,
            ops,
            as_move,
            store,
            j + 1,
            i + 1,
            adding,
            moving,
            removing.push(src[j]),
            result,
        ),
{
    let x = src[j];
    lemma_ops_first(ops, i);
    lemma_src_next(src, j);
    assert(decided_below(src, j, ops, i, x.index.0 as int)) by {
        assert forall|t: int| 0 <= t < j implies (#[trigger] src[t]).index.0 < x.index.0 by {}
        assert forall|u: int| 0 <= u < i implies (#[trigger] ops[u]).0.0 < x.index.0
            || ops[u].0.is_null() by {
            assert(ops[u].0.0 <= ops[i - 1].0.0);
            assert(ops[i - 1].0.0 <= ops[i].0.0);
        }
    }
    lemma_members_below(src, j, ops, i, x.index.0 as int, store.len() as int);
    assert(!has_component(src.take(j), x.index));
    assert(comes_from(x, src, store));
    assert forall|t: int| 0 <= t < j + 1 && i + 1 < ops.len() implies (#[trigger] src[t]).index.0
        < ops[i + 1].0.0 || src[t].index.0 <= ops[i].0.0 by {}
    assert forall|u: int| 0 <= u < i + 1 && j + 1 < src.len() implies (#[trigger] ops[u]).0.0
        < src[j + 1].index.0 || ops[u].0.is_null() by {
        assert(src[j].index.0 < src[j + 1].index.0);
        if u < i {
            assert(ops[u].0.0 <= ops[i - 1].0.0);
            assert(ops[i - 1].0.0 <= ops[i].0.0);
        }
    }
    let a0 = adding_at(src, ops, as_move, j, i);
    let a1 = adding_at(src, ops, as_move, j + 1, i + 1);
    let m0 = moving_at(src, ops, as_move, j, i);
    let m1 = moving_at(src, ops, as_move, j + 1, i + 1);
    let r0 = removing_at(src, ops, j, i);
    let r1 = removing_at(src, ops, j + 1, i + 1);
    let d0 = result_at(src, ops, j, i);
    let d1 = result_at(src, ops, j + 1, i + 1);
    if ops[i].1 {
        lemma_lists_same(removing, r0, r1, src, store);
        lemma_lists_push(result, d0, d1, src, store, x);
        if as_move {
            lemma_lists_same(adding, a0, a1, src, store);
            lemma_lists_push(moving, m0, m1, src, store, x);
        } else {
            lemma_lists_push(adding, a0, a1, src, store, x);
            lemma_lists_same(moving, m0, m1, src, store);
        }
    } else {
        lemma_lists_same(adding, a0, a1, src, store);
        lemma_lists_same(moving, m0, m1, src, store);
        lemma_lists_push(removing, r0, r1, src, store, x);
        lemma_lists_same(result, d0, d1, src, store);
    }
}

/// The lists at the end of the walk are the plan for the whole source and
/// all operations.
proof fn lemma_walk_done(
    src: Seq<ComponentInfo>,
    ops: Seq<(ComponentIndex, bool)>,
    as_move: bool,
    store: Seq<Column>,
    adding: Seq<ComponentInfo>,
    moving: Seq<ComponentInfo>,
    removing: Seq<ComponentInfo>,
    result: Seq<ComponentInfo>,
)
    requires
        walk_input(src, ops, store),
        walk_inv(
            src,
            ops,
            as_move,
            store,
            src.len() as int,
            ops.len() as int,
            adding,
            moving,
            removing,
            result,
        ),
    ensures
        lists(adding, |c: ComponentIndex| plan_adding(src, ops, as_move, c), src, store),
        lists(moving, |c: ComponentIndex| plan_moving(src, ops, as_move, c), src, store),
        lists(removing, |c: ComponentIndex| plan_removing(src, ops, c), src, store),
        lists(result, |c: ComponentIndex| plan_result(src, ops, c), src, store),
        sorted_infos(result),
{
    assert(src.take(src.len() as int) =~= src);
    assert(ops.take(ops.len() as int) =~= ops);
    let j = src.len() as int;
    let i = ops.len() as int;
    lemma_lists_same(
        adding,
        adding_at(src, ops, as_move, j, i),
        |c: ComponentIndex| plan_adding(src, ops, as_move, c),
        src,
        store,
    );
    lemma_lists_same(
        moving,
        moving_at(src, ops, as_move, j, i),
        |c: ComponentIndex| plan_moving(src, ops, as_move, c),
        src,
        store,
    );
    lemma_lists_same(
        removing,
        removing_at(src, ops, j, i),
        |c: ComponentIndex| plan_removing(src, ops, c),
        src,
        store,
    );
    lemma_lists_same(
        result,
        result_at(src, ops, j, i),
        |c: ComponentIndex| plan_result(src, ops, c),
        src,
        store,
    );
    assert forall|k: int| 0 <= k < result.len() implies (#[trigger] result[k]).wf()
        && !result[k].index.is_null() by {
        assert(comes_from(result[k], src, store));
    }
}

/// A listener slot of an archetype: a query listens on the column at the
/// position for additions, or for changes too.
#[derive(Debug, Clone, Copy, PartialEq, Eq, Structural)]
pub struct Record {
    /// The key under which the listener is registered in the world.
    pub key: usize,
    /// The position of the column among the columns of the archetype.
    pub slot: u32,
    /// Whether changes are listened for, not additions only.
    pub changed: bool,
}

/// The listener slots that a listener with the key gets in an archetype
/// with the columns: one for each of the first `n` listened components that
/// the archetype has, in their order.
pub open spec fn records_of(
    columns: Seq<ComponentInfo>,
    key: usize,
    listened: Seq<(ComponentIndex, bool)>,
    n: nat,
) -> Seq<Record>
    decreases n,
{
    if n == 0 || n > listened.len() {
        Seq::empty()
    } else {
        let rest = records_of(columns, key, listened, (n - 1) as nat);
        if has_component(columns, listened[n - 1].0) {
            rest.push(
                Record {
                    key,
                    slot: position_in(columns, listened[n - 1].0) as u32,
                    changed: listened[n - 1].1,
                },
            )
        } else {
            rest
        }
    }
}

/// The position of the component among the columns that have it.
pub open spec fn position_in(columns: Seq<ComponentInfo>, c: ComponentIndex) -> int {
    choose|k: int| 0 <= k < columns.len() && (#[trigger] columns[k]).index == c
}

/// The positions in the first `n` listener slots that belong to the key,
/// in their order.
pub open spec fn slots_with_key(records: Seq<Record>, key: usize, n: nat) -> Seq<u32>
    decreases n,
{
    if n == 0 || n > records.len() {
        Seq::empty()
    } else {
        let rest = slots_with_key(records, key, (n - 1) as nat);
        if records[n - 1].key == key {
            rest.push(records[n - 1].slot)
        } else {
            rest
        }
    }
}

/// The positions, among the columns, of the first `n` listened components
/// that the archetype has, in the order they are listened on.
pub open spec fn listened_slots(
    columns: Seq<ComponentInfo>,
    listened: Seq<(ComponentIndex, bool)>,
    n: nat,
) -> Seq<u32>
    decreases n,
{
    if n == 0 || n > listened.len() {
        Seq::empty()
    } else {
        let rest = listened_slots(columns, listened, (n - 1) as nat);
        if has_component(columns, listened[n - 1].0) {
            rest.push(position_in(columns, listened[n - 1].0) as u32)
        } else {
            rest
        }
    }
}

/// A component set with its table.
pub struct Archetype {
    id: u128,
    name: String,
    table: Table,
    pub(crate) ready: bool,
    records: Vec<Record>,
}

impl Archetype {
    /// The table that stores the archetype's entities.
    pub closed spec fn table_view(&self) -> Table {
        self.table
    }

    /// XOR of the ids of the component types.
    pub closed spec fn spec_id(&self) -> u128 {
        self.id
    }

    /// The names of the component types joined by `+`.
    pub closed spec fn spec_name(&self) -> Seq<char> {
        self.name@
    }

    /// Whether every query that listens on the archetype has registered.
    pub closed spec fn spec_ready(&self) -> bool {
        self.ready
    }

    /// The listener slots, in the order they were registered.
    pub closed spec fn spec_records(&self) -> Seq<Record> {
        self.records@
    }

    /// The table is well formed, and the id and the name are those of its
    /// component set.
    pub open spec fn wf(&self) -> bool {
        &&& self.table_view().wf()
        &&& self.spec_id() == xor_ids(type_ids(self.table_view().columns()))
        &&& self.spec_name() == joined_names(self.table_view().columns())
    }

    /// An archetype without entities for the component set, whose types
    /// ascend strictly by index.
    pub(crate) fn new(info: ArchetypeInfo) -> (r: Self)
        requires
            info.wf(),
            sorted_infos(info.components()),
        ensures
            r.wf(),
            r.table_view().columns() == info.components(),
            r.table_view().entities().len() == 0,
            r.table_view().removes().len() == 0,
            r.table_view().ar_index().is_null(),
            r.spec_id() == info.id(),
            !r.spec_ready(),
            r.spec_records().len() == 0,
    {
        let name = info.name();
        Archetype {
            id: info.id,
            name,
            table: Table::new(info.sorted_components),
            ready: false,
            records: Vec::new(),
        }
    }

    /// Places the archetype at its index in the world.
    pub(crate) fn set_index(&mut self, index: ArchetypeWorldIndex)
        requires
            old(self).wf(),
        ensures
            final(self).wf(),
            final(self).table_view().ar_index() == index,
            final(self).table_view().columns() == old(self).table_view().columns(),
            final(self).table_view().entities() == old(self).table_view().entities(),
            final(self).table_view().removes() == old(self).table_view().removes(),
            final(self).table_view().marked() == old(self).table_view().marked(),
            final(self).spec_id() == old(self).spec_id(),
            final(self).spec_records() == old(self).spec_records(),
            final(self).spec_ready() == old(self).spec_ready(),
    {
        self.table.set_index(index);
    }

    /// The index of the archetype in the world.
    pub fn index(&self) -> (r: ArchetypeWorldIndex)
        ensures
            r == self.table_view().ar_index(),
    {
        self.table.index()
    }

    /// Whether every query that listens on the archetype has registered.
    pub fn ready(&self) -> (r: bool)
        ensures
            r == self.spec_ready(),
    {
        self.ready
    }

    /// Marks the archetype as ready, or not.
    pub fn set_ready(&mut self, ready: bool)
        ensures
            final(self).spec_ready() == ready,
            final(self).table_view() == old(self).table_view(),
            final(self).spec_id() == old(self).spec_id(),
            final(self).spec_records() == old(self).spec_records(),
            final(self).spec_name() == old(self).spec_name(),
    {
        self.ready = ready;
    }

    /// XOR of the ids of the component types.
    pub fn id(&self) -> (r: &u128)
        ensures
            *r == self.spec_id(),
    {
        &self.id
    }

    /// The names of the component types joined by `+`, for diagnostics.
    pub fn name(&self) -> (r: &String)
        ensures
            r@ == self.spec_name(),
    {
        &self.name
    }

    /// The number of columns.
    pub fn column_len(&self) -> (r: usize)
        ensures
            r == self.table_view().columns().len(),
    {
        self.table.column_count()
    }

    /// Whether the archetype has no columns.
    pub fn is_empty_columns(&self) -> (r: bool)
        ensures
            r == (self.table_view().columns().len() == 0),
    {
        self.table.column_count() == 0
    }

    /// The table that stores the archetype's entities.
    pub fn table(&self) -> (r: &Table)
        ensures
            *r == self.table_view(),
    {
        &self.table
    }

    /// Plans a structural change of an entity of this archetype. The
    /// operations, sorted by component index, each add (`true`) or remove
    /// (`false`) a component type; of several on one type the first counts.
    /// The component types of the columns to initialise in the destination
    /// are appended to `adding`, those of the columns that move there to
    /// `moving`, those of the columns to drop to `removing`, each in
    /// ascending order of index. An added type that the entity has moves
    /// where `existed_adding_is_move` is set and is initialised again
    /// otherwise. What moves and what is dropped are columns of this
    /// archetype; what is initialised is one of them, or the registered
    /// type where the entity lacks it. Returns the identity of the
    /// destination.
    pub(crate) fn alter1(
        &self,
        world: &World,
        sorted_add_removes: &[(ComponentIndex, bool)],
        adding: &mut Vec<Share<ComponentInfo>>,
        moving: &mut Vec<Share<ComponentInfo>>,
        removing: &mut Vec<Share<ComponentInfo>>,
        existed_adding_is_move: bool,
    ) -> (r: ArchetypeInfo)
        requires
            self.wf(),
            world.columns_wf(),
            sorted_ops(sorted_add_removes@),
            forall|u: int|
                #[trigger] effective(sorted_add_removes@, u) && sorted_add_removes@[u].1
                    && !has_component(self.table_view().columns(), sorted_add_removes@[u].0)
                    ==> sorted_add_removes@[u].0.0 < world.columns().len(),
        ensures
            final(adding)@.take(old(adding)@.len() as int) == old(adding)@,
            final(moving)@.take(old(moving)@.len() as int) == old(moving)@,
            final(removing)@.take(old(removing)@.len() as int) == old(removing)@,
            lists(
                infos_of(final(adding)@.skip(old(adding)@.len() as int)),
                |c: ComponentIndex|
                    plan_adding(
                        self.table_view().columns(),
                        sorted_add_removes@,
                        existed_adding_is_move,
                        c,
                    ),
                self.table_view().columns(),
                world.columns(),
            ),
            lists(
                infos_of(final(moving)@.skip(old(moving)@.len() as int)),
                |c: ComponentIndex|
                    plan_moving(
                        self.table_view().columns(),
                        sorted_add_removes@,
                        existed_adding_is_move,
                        c,
                    ),
                self.table_view().columns(),
                world.columns(),
            ),
            lists(
                infos_of(final(removing)@.skip(old(removing)@.len() as int)),
                |c: ComponentIndex|
                    plan_removing(self.table_view().columns(), sorted_add_removes@, c),
                self.table_view().columns(),
                world.columns(),
            ),
            lists(
                r.components(),
                |c: ComponentIndex| plan_result(self.table_view().columns(), sorted_add_removes@, c),
                self.table_view().columns(),
                world.columns(),
            ),
            of_source(
                infos_of(final(moving)@.skip(old(moving)@.len() as int)),
                self.table_view().columns(),
            ),
            of_source(
                infos_of(final(removing)@.skip(old(removing)@.len() as int)),
                self.table_view().columns(),
            ),
            r.wf(),
            sorted_infos(r.components()),
    {
        let ghost src = self.table_view().columns();
        let ghost ops = sorted_add_removes@;
        let ghost store = world.columns();
        let ghost n_add = old(adding)@.len() as int;
        let ghost n_mov = old(moving)@.len() as int;
        let ghost n_rem = old(removing)@.len() as int;
        let as_move = existed_adding_is_move;
        let mut result: Vec<Share<ComponentInfo>> = Vec::new();
        let mut column_index: usize = 0;
        let len = self.column_len();
        let n = sorted_add_removes.len();
        let mut pre_index = ComponentIndex::null();
        let mut i: usize = 0;
        proof {
            assert(infos_of(adding@.skip(n_add)) =~= Seq::empty());
            assert(infos_of(moving@.skip(n_mov)) =~= Seq::empty());
            assert(infos_of(removing@.skip(n_rem)) =~= Seq::empty());
            assert(infos_of(result@) =~= Seq::empty());
            assert(src.take(0) =~= Seq::empty());
            assert(ops.take(0) =~= Seq::empty());
            assert(walk_input(src, ops, store));
        }
        while i < n
            invariant
                self.wf(),
                world.columns_wf(),
                src == self.table_view().columns(),
                ops == sorted_add_removes@,
                store == world.columns(),
                as_move == existed_adding_is_move,
                len == src.len(),
                n == ops.len(),
                walk_input(src, ops, store),
                n_add == old(adding)@.len(),
                n_mov == old(moving)@.len(),
                n_rem == old(removing)@.len(),
                adding@.len() >= n_add,
                moving@.len() >= n_mov,
                removing@.len() >= n_rem,
                adding@.take(n_add) == old(adding)@,
                moving@.take(n_mov) == old(moving)@,
                removing@.take(n_rem) == old(removing)@,
                of_source(infos_of(moving@.skip(n_mov)), src),
                of_source(infos_of(removing@.skip(n_rem)), src),
                pre_index == if i == 0 {
                    ComponentIndex(u32::MAX)
                } else {
                    ops[i - 1].0
                },
                walk_inv(
                    src,
                    ops,
                    as_move,
                    store,
                    column_index as int,
                    i as int,
                    infos_of(adding@.skip(n_add)),
                    infos_of(moving@.skip(n_mov)),
                    infos_of(removing@.skip(n_rem)),
                    infos_of(result@),
                ),
            decreases n - i, len - column_index,
        {
            let index: ComponentIndex = sorted_add_removes[i].0;
            let add: bool = sorted_add_removes[i].1;
            let ghost ga = infos_of(adding@.skip(n_add));
            let ghost gm = infos_of(moving@.skip(n_mov));
            let ghost gr = infos_of(removing@.skip(n_rem));
            let ghost gd = infos_of(result@);
            if pre_index.0 == index.0 {
                proof {
                    lemma_walk_skip(src, ops, as_move, store, column_index as int, i as int, ga, gm, gr, gd);
                }
                i = i + 1;
                continue ;
            }
            let ahead: bool = column_index >= len || self.table.get_column_unchecked(
                column_index,
            ).index.0 > index.0;
            if ahead {
                proof {
                    lemma_walk_op(src, ops, as_move, store, column_index as int, i as int, ga, gm, gr, gd);
                }
                if add {
                    match world.get_column(index) {
                        Some(column) => {
                            adding.push(column.share_info());
                            result.push(column.share_info());
                            proof {
                                let x = store[index.0 as int].meta();
                                assert(infos_of(adding@.skip(n_add)) =~= ga.push(x));
                                assert(infos_of(result@) =~= gd.push(x));
                                assert(adding@.take(n_add) =~= old(adding)@);
                            }
                        },
                        None => {},
                    }
                }
                pre_index = index;
                i = i + 1;
                continue ;
            }
            let c = self.table.get_column_unchecked(column_index);
            if c.index.0 < index.0 {
                proof {
                    lemma_walk_column(src, ops, as_move, store, column_index as int, i as int, ga, gm, gr, gd);
                }
                moving.push(share_info(c));
                result.push(share_info(c));
                proof {
                    let x = src[column_index as int];
                    lemma_of_source_push(gm, src, column_index as int);
                    assert(infos_of(moving@.skip(n_mov)) =~= gm.push(x));
                    assert(infos_of(result@) =~= gd.push(x));
                    assert(moving@.take(n_mov) =~= old(moving)@);
                }
                column_index = column_index + 1;
                continue ;
            }
            proof {
                assert(src[column_index as int].index == ops[i as int].0);
                lemma_walk_both(src, ops, as_move, store, column_index as int, i as int, ga, gm, gr, gd);
            }
            if add {
                if existed_adding_is_move {
                    moving.push(share_info(c));
                } else {
                    adding.push(share_info(c));
                }
                result.push(share_info(c));
            } else {
                removing.push(share_info(c));
            }
            proof {
                let x = src[column_index as int];
                if add {
                    assert(infos_of(result@) =~= gd.push(x));
                    if as_move {
                        lemma_of_source_push(gm, src, column_index as int);
                        assert(infos_of(moving@.skip(n_mov)) =~= gm.push(x));
                        assert(moving@.take(n_mov) =~= old(moving)@);
                    } else {
                        assert(infos_of(adding@.skip(n_add)) =~= ga.push(x));
                        assert(adding@.take(n_add) =~= old(adding)@);
                    }
                } else {
                    lemma_of_source_push(gr, src, column_index as int);
                    assert(infos_of(removing@.skip(n_rem)) =~= gr.push(x));
                    assert(removing@.take(n_rem) =~= old(removing)@);
                }
            }
            column_index = column_index + 1;
            pre_index = index;
            i = i + 1;
        }
        while column_index < len
            invariant
                self.wf(),
                src == self.table_view().columns(),
                len == src.len(),
                walk_input(src, ops, store),
                n_add == old(adding)@.len(),
                n_mov == old(moving)@.len(),
                n_rem == old(removing)@.len(),
                adding@.len() >= n_add,
                moving@.len() >= n_mov,
                removing@.len() >= n_rem,
                adding@.take(n_add) == old(adding)@,
                moving@.take(n_mov) == old(moving)@,
                removing@.take(n_rem) == old(removing)@,
                of_source(infos_of(moving@.skip(n_mov)), src),
                of_source(infos_of(removing@.skip(n_rem)), src),
                walk_inv(
                    src,
                    ops,
                    as_move,
                    store,
                    column_index as int,
                    ops.len() as int,
                    infos_of(adding@.skip(n_add)),
                    infos_of(moving@.skip(n_mov)),
                    infos_of(removing@.skip(n_rem)),
                    infos_of(result@),
                ),
            decreases len - column_index,
        {
            let ghost ga = infos_of(adding@.skip(n_add));
            let ghost gm = infos_of(moving@.skip(n_mov));
            let ghost gr = infos_of(removing@.skip(n_rem));
            let ghost gd = infos_of(result@);
            proof {
                lemma_walk_column(
                    src,
                    ops,
                    as_move,
                    store,
                    column_index as int,
                    ops.len() as int,
                    ga,
                    gm,
                    gr,
                    gd,
                );
            }
            let c = self.table.get_column_unchecked(column_index);
            moving.push(share_info(c));
            result.push(share_info(c));
            proof {
                let x = src[column_index as int];
                lemma_of_source_push(gm, src, column_index as int);
                assert(infos_of(moving@.skip(n_mov)) =~= gm.push(x));
                assert(infos_of(result@) =~= gd.push(x));
                assert(moving@.take(n_mov) =~= old(moving)@);
            }
            column_index = column_index + 1;
        }
        proof {
            lemma_walk_done(
                src,
                ops,
                as_move,
                store,
                infos_of(adding@.skip(n_add)),
                infos_of(moving@.skip(n_mov)),
                infos_of(removing@.skip(n_rem)),
                infos_of(result@),
            );
        }
        ArchetypeInfo::new(result)
    }

    /// Registers the listener slots of a listener: one for each listened
    /// component that the archetype has, in the order they are listed.
    pub(crate) fn add_records(&mut self, key: usize, listened: &Vec<(ComponentIndex, bool)>)
        requires
            old(self).wf(),
        ensures
            final(self).wf(),
            final(self).table_view() == old(self).table_view(),
            final(self).spec_id() == old(self).spec_id(),
            final(self).spec_name() == old(self).spec_name(),
            final(self).spec_ready() == old(self).spec_ready(),
            final(self).spec_records() == old(self).spec_records() + records_of(
                old(self).table_view().columns(),
                key,
                listened@,
                listened@.len(),
            ),
    {
        let ghost columns = self.table_view().columns();
        let mut l: usize = 0;
        while l < listened.len()
            invariant
                l <= listened@.len(),
                self.wf(),
                self.table == old(self).table,
                self.id == old(self).id,
                self.name == old(self).name,
                self.ready == old(self).ready,
                columns == old(self).table_view().columns(),
                self.records@ == old(self).records@ + records_of(columns, key, listened@, l as nat),
            decreases listened@.len() - l,
        {
            let c = listened[l].0;
            let changed = listened[l].1;
            match self.table.column_position(c) {
                Some(k) => {
                    proof {
                        crate::table::lemma_position_unique(columns, c, k as int);
                        crate::table::lemma_position_bound(columns, k as int);
                    }
                    self.records.push(Record { key, slot: k as u32, changed });
                    proof {
                        assert(self.records@ =~= old(self).records@ + records_of(
                            columns,
                            key,
                            listened@,
                            (l + 1) as nat,
                        ));
                    }
                },
                None => {
                    proof {
                        assert(self.records@ =~= old(self).records@ + records_of(
                            columns,
                            key,
                            listened@,
                            (l + 1) as nat,
                        ));
                    }
                },
            }
            l += 1;
        }
    }

    /// Finds the listener slots of a listener: the positions registered
    /// under the key are appended to `out`, in the order they were
    /// registered.
    pub fn find_records(&self, key: usize, out: &mut ListenerSlots)
        ensures
            slot_items(*final(out)) == slot_items(*old(out)) + slots_with_key(
                self.spec_records(),
                key,
                self.spec_records().len(),
            ),
    {
        let mut i: usize = 0;
        proof {
            assert(slot_items(*out) + Seq::<u32>::empty() =~= slot_items(*out));
        }
        while i < self.records.len()
            invariant
                i <= self.records@.len(),
                slot_items(*out) == slot_items(*old(out)) + slots_with_key(self.records@, key, i as nat),
            decreases self.records@.len() - i,
        {
            let record = self.records[i];
            if record.key == key {
                slots_push(out, record.slot);
            }
            proof {
                assert(slot_items(*out) =~= slot_items(*old(out)) + slots_with_key(
                    self.records@,
                    key,
                    (i + 1) as nat,
                ));
            }
            i += 1;
        }
    }

    /// The number of listener slots.
    pub fn record_len(&self) -> (r: usize)
        ensures
            r == self.spec_records().len(),
    {
        self.records.len()
    }

    /// The listener slot at a position.
    pub fn get_record(&self, i: usize) -> (r: Record)
        requires
            i < self.spec_records().len(),
        ensures
            r == self.spec_records()[i as int],
    {
        self.records[i]
    }

    /// The table, to change its rows. The columns of a table cannot be
    /// changed through it.
    pub fn table_mut(&mut self) -> (r: &mut Table)
        ensures
            *r == old(self).table_view(),
            final(self).table_view() == *final(r),
            final(self).spec_id() == old(self).spec_id(),
            final(self).spec_records() == old(self).spec_records(),
            final(self).spec_name() == old(self).spec_name(),
            final(self).spec_ready() == old(self).spec_ready(),
    {
        &mut self.table
    }

    /// Queues a row for removal after its components moved to another
    /// archetype, nulls its entity without releasing its components, and
    /// returns the entity that the row held; a row that holds null is left
    /// as it is.
    pub fn mark_remove(&mut self, row: Row) -> (e: Entity)
        requires
            old(self).wf(),
            old(self).table_view().queued_null(),
            row.0 < old(self).table_view().entities().len(),
        ensures
            final(self).wf(),
            final(self).table_view().queued_null(),
            old(self).table_view().marked() ==> final(self).table_view().marked(),
            final(self).spec_id() == old(self).spec_id(),
            final(self).spec_records() == old(self).spec_records(),
            final(self).spec_ready() == old(self).spec_ready(),
            final(self).table_view().columns() == old(self).table_view().columns(),
            final(self).table_view().ar_index() == old(self).table_view().ar_index(),
            e == old(self).table_view().entities()[row.0 as int],
            e.is_null() ==> final(self).table_view().entities() == old(self).table_view().entities()
                && final(self).table_view().removes() == old(self).table_view().removes(),
            !e.is_null() ==> final(self).table_view().entities() == old(self).table_view().entities().update(
                row.0 as int,
                Entity { generation: u32::MAX, slot: u32::MAX },
            ) && final(self).table_view().removes() == old(self).table_view().removes().push(row),
    {
        self.table.mark_remove(row)
    }

    /// Compacts the archetype's table: see `Table::settle`.
    pub(crate) fn settle(
        &mut self,
        store: &mut Vec<Column>,
        action: &mut Vec<(Row, Row)>,
        set: &mut FixedBitSet,
    )
        requires
            old(self).wf(),
            old(self).table_view().marked(),
            old(self).table_view().backed_by(old(store)@),
        ensures
            final(self).wf(),
            final(self).spec_id() == old(self).spec_id(),
            final(self).spec_records() == old(self).spec_records(),
            final(self).spec_ready() == old(self).spec_ready(),
            final(self).table_view().settled_from(
                old(self).table_view(),
                old(store)@,
                final(store)@,
                old(self).table_view().moves_made(final(action)@),
            ),
            old(self).table_view().removes().len() == 0 ==> final(action)@ == old(action)@ && *final(self) == *old(self) && final(store)@ == old(store)@,
    {
        let _r = self.table.settle(store, action, set);
    }
}

/// Whether one of the listened components is among the columns.
pub open spec fn listens_on(columns: Seq<ComponentInfo>, listeners: Seq<(ComponentIndex, bool)>) -> bool {
    exists|l: int| 0 <= l < listeners.len() && has_component(columns, (#[trigger] listeners[l]).0)
}

/// Whether the listener slot is one of a listener with the key on a
/// component that is listened on and stands at the slot's position among
/// the columns.
pub open spec fn record_of(
    record: Record,
    columns: Seq<ComponentInfo>,
    key: usize,
    listened: Seq<(ComponentIndex, bool)>,
) -> bool {
    &&& record.key == key
    &&& record.slot < columns.len()
    &&& exists|j: int|
        0 <= j < listened.len() && (#[trigger] listened[j]).0 == columns[record.slot as int].index
}

/// The listener slots of a listener are on the listened components that
/// the archetype has, and there is one where it has any of them.
pub proof fn lemma_records_of(
    columns: Seq<ComponentInfo>,
    key: usize,
    listened: Seq<(ComponentIndex, bool)>,
    n: nat,
)
    requires
        sorted_infos(columns),
        n <= listened.len(),
    ensures
        forall|i: int|
            0 <= i < records_of(columns, key, listened, n).len() ==> record_of(
                #[trigger] records_of(columns, key, listened, n)[i],
                columns,
                key,
                listened,
            ),
        (exists|j: int| 0 <= j < n && has_component(columns, (#[trigger] listened[j]).0))
            ==> records_of(columns, key, listened, n).len() > 0,
        listens_on(columns, listened) && n == listened.len() ==> records_of(
            columns,
            key,
            listened,
            n,
        ).len() > 0,
    decreases n,
{
    if n > 0 {
        lemma_records_of(columns, key, listened, (n - 1) as nat);
        let rest = records_of(columns, key, listened, (n - 1) as nat);
        let all = records_of(columns, key, listened, n);
        let c = listened[n - 1].0;
        if has_component(columns, c) {
            let k = position_in(columns, c);
            crate::table::lemma_position_bound(columns, k);
            assert forall|i: int| 0 <= i < all.len() implies record_of(
                #[trigger] all[i],
                columns,
                key,
                listened,
            ) by {
                if i < rest.len() {
                    assert(all[i] == rest[i]);
                    assert(record_of(rest[i], columns, key, listened));
                } else {
                    assert(listened[n - 1].0 == columns[all[i].slot as int].index);
                }
            }
        } else {
            if exists|j: int| 0 <= j < n && has_component(columns, (#[trigger] listened[j]).0) {
                let j = choose|j: int| 0 <= j < n && has_component(columns, (#[trigger] listened[j]).0);
                assert(j < n - 1);
            }
        }
    }
}

/// The positions found under a key among the first listener slots depend
/// on those slots alone.
pub proof fn lemma_slots_prefix(x: Seq<Record>, y: Seq<Record>, key: usize, n: nat)
    requires
        n <= x.len(),
        n <= y.len(),
        forall|i: int| 0 <= i < n ==> x[i] == y[i],
    ensures
        slots_with_key(x, key, n) == slots_with_key(y, key, n),
    decreases n,
{
    if n > 0 {
        lemma_slots_prefix(x, y, key, (n - 1) as nat);
    }
}

/// The positions found under a key in two lists of listener slots, one
/// after the other, are those found in the first and then those found in
/// the second.
pub proof fn lemma_slots_concat(x: Seq<Record>, y: Seq<Record>, key: usize, n: nat)
    requires
        n <= y.len(),
    ensures
        slots_with_key(x + y, key, x.len() + n) == slots_with_key(x, key, x.len()) + slots_with_key(
            y,
            key,
            n,
        ),
    decreases n,
{
    let both = x + y;
    if n == 0 {
        lemma_slots_prefix(both, x, key, x.len());
        assert(slots_with_key(x, key, x.len()) + Seq::<u32>::empty() =~= slots_with_key(
            x,
            key,
            x.len(),
        ));
    } else {
        lemma_slots_concat(x, y, key, (n - 1) as nat);
        assert(both[x.len() + n - 1] == y[n - 1]);
        let first = slots_with_key(x, key, x.len());
        let rest = slots_with_key(y, key, (n - 1) as nat);
        if y[n - 1].key == key {
            assert((first + rest).push(y[n - 1].slot) =~= first + rest.push(y[n - 1].slot));
        }
    }
}

/// The positions found under a key among the listener slots of one
/// listener are the positions of its listened components where the key is
/// the listener's, and none where it is not.
pub proof fn lemma_slots_of_records(
    columns: Seq<ComponentInfo>,
    owner: usize,
    listened: Seq<(ComponentIndex, bool)>,
    n: nat,
    key: usize,
)
    requires
        n <= listened.len(),
    ensures
        ({
            let records = records_of(columns, owner, listened, n);
            slots_with_key(records, key, records.len()) == if owner == key {
                listened_slots(columns, listened, n)
            } else {
                Seq::<u32>::empty()
            }
        }),
    decreases n,
{
    if n > 0 {
        lemma_slots_of_records(columns, owner, listened, (n - 1) as nat, key);
        let rest = records_of(columns, owner, listened, (n - 1) as nat);
        let all = records_of(columns, owner, listened, n);
        if has_component(columns, listened[n - 1].0) {
            assert(all == rest.push(all[all.len() - 1]));
            lemma_slots_prefix(all, rest, key, rest.len());
        }
    }
}

/// The positions of the listened components are positions of columns whose
/// component is listened on, and there is one where the archetype has any
/// of the listened components.
pub proof fn lemma_listened_slots(
    columns: Seq<ComponentInfo>,
    listened: Seq<(ComponentIndex, bool)>,
    n: nat,
)
    requires
        sorted_infos(columns),
        n <= listened.len(),
    ensures
        forall|s: int|
            0 <= s < listened_slots(columns, listened, n).len() ==> (#[trigger] listened_slots(
                columns,
                listened,
                n,
            )[s]) < columns.len() && exists|l: int|
                0 <= l < n && (#[trigger] listened[l]).0 == columns[listened_slots(
                    columns,
                    listened,
                    n,
                )[s] as int].index,
        (exists|j: int| 0 <= j < n && has_component(columns, (#[trigger] listened[j]).0))
            ==> listened_slots(columns, listened, n).len() > 0,
    decreases n,
{
    if n > 0 {
        lemma_listened_slots(columns, listened, (n - 1) as nat);
        let rest = listened_slots(columns, listened, (n - 1) as nat);
        let all = listened_slots(columns, listened, n);
        let c = listened[n - 1].0;
        if has_component(columns, c) {
            let k = position_in(columns, c);
            crate::table::lemma_position_bound(columns, k);
            assert forall|s: int| 0 <= s < all.len() implies (#[trigger] all[s]) < columns.len()
                && exists|l: int| 0 <= l < n && (#[trigger] listened[l]).0 == columns[all[s] as int].index by {
                if s < rest.len() {
                    assert(all[s] == rest[s]);
                    let l = choose|l: int|
                        0 <= l < n - 1 && (#[trigger] listened[l]).0 == columns[rest[s] as int].index;
                    assert(listened[l].0 == columns[all[s] as int].index);
                } else {
                    assert(listened[n - 1].0 == columns[all[s] as int].index);
                }
            }
        } else {
            assert(all == rest);
            assert forall|s: int| 0 <= s < all.len() implies (#[trigger] all[s]) < columns.len()
                && exists|l: int| 0 <= l < n && (#[trigger] listened[l]).0 == columns[all[s] as int].index by {
                let l = choose|l: int|
                    0 <= l < n - 1 && (#[trigger] listened[l]).0 == columns[rest[s] as int].index;
                assert(listened[l].0 == columns[all[s] as int].index);
            }
            if exists|j: int| 0 <= j < n && has_component(columns, (#[trigger] listened[j]).0) {
                let j = choose|j: int| 0 <= j < n && has_component(columns, (#[trigger] listened[j]).0);
                assert(j < n - 1);
            }
        }
    }
}

} // verus!
