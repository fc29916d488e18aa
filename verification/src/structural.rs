//! Structural change: what happens to the columns of an entity that moves
//! from one archetype to another.
//!
//! A plan sorts the columns into those that move with the entity, those
//! that are initialised for it, and those whose value is released. Each
//! list is applied to the store in one pass.

use crate::archetype::{
    effective, lists, op_adds, op_removes, plan_adding, plan_moving, plan_removing, plan_result,
    sorted_ops,
};
use crate::column::{lemma_same_but_slots, row_fits, slot_same, store_extends, Column};
use crate::component::ComponentInfo;
use crate::ids::{ArchetypeWorldIndex, ComponentIndex, Entity, Row, Tick};
use crate::table::{has_component, infos_of};
use pi_share::Share;
use vstd::prelude::*;

verus! {

/// Whether a component type with the index numbered `c` is in the list.
pub open spec fn in_list(list: Seq<ComponentInfo>, c: int) -> bool {
    exists|k: int| 0 <= k < list.len() && (#[trigger] list[k]).index.0 == c
}

/// Whether the component types of the list ascend strictly by index, and
/// each has its column in the store, with storage for the archetype in
/// which `row` fits.
pub open spec fn cells_ready(
    list: Seq<ComponentInfo>,
    store: Seq<Column>,
    index: ArchetypeWorldIndex,
    row: Row,
) -> bool {
    &&& forall|i: int, j: int|
        0 <= i < j < list.len() ==> (#[trigger] list[i]).index.0 < (#[trigger] list[j]).index.0
    &&& forall|k: int|
        0 <= k < list.len() ==> {
            let c = (#[trigger] list[k]).index.0 as int;
            &&& c < store.len()
            &&& store[c].meta().wf()
            &&& store[c].has_slot(index)
            &&& row_fits(row, store[c].size())
        }
}

/// Moves the value of each listed component from the row of one archetype
/// to the row of another. Every other column stays as it is.
pub(crate) fn move_cells(
    columns: &mut Vec<Column>,
    list: &Vec<Share<ComponentInfo>>,
    from: ArchetypeWorldIndex,
    src: Row,
    to: ArchetypeWorldIndex,
    dst: Row,
    e: Entity,
)
    requires
        from != to,
        cells_ready(infos_of(list@), old(columns)@, from, src),
        cells_ready(infos_of(list@), old(columns)@, to, dst),
    ensures
        final(columns)@.len() == old(columns)@.len(),
        forall|c: int|
            0 <= c < old(columns)@.len() ==> if in_list(infos_of(list@), c) {
                old(columns)@[c].moved_row(&(#[trigger] final(columns)@[c]), from, src, to, dst, e)
            } else {
                final(columns)@[c] == old(columns)@[c]
            },
{
    let ghost infos = infos_of(list@);
    let n = list.len();
    let mut k: usize = 0;
    while k < n
        invariant
            k <= n,
            n == infos.len(),
            infos == infos_of(list@),
            from != to,
            cells_ready(infos, old(columns)@, from, src),
            cells_ready(infos, old(columns)@, to, dst),
            columns@.len() == old(columns)@.len(),
            forall|c: int|
                0 <= c < columns@.len() ==> if in_list(infos.take(k as int), c) {
                    old(columns)@[c].moved_row(&(#[trigger] columns@[c]), from, src, to, dst, e)
                } else {
                    columns@[c] == old(columns)@[c]
                },
        decreases n - k,
    {
        let c: usize = list[k].index.index();
        let ghost cur = columns@;
        proof {
            assert(infos[k as int].index.0 == c);
            assert(!in_list(infos.take(k as int), c as int)) by {
                if in_list(infos.take(k as int), c as int) {
                    let j = choose|j: int|
                        0 <= j < infos.take(k as int).len() && (#[trigger] infos.take(k as int)[j]).index.0
                            == c;
                    assert(infos[j].index.0 < infos[k as int].index.0);
                }
            }
        }
        columns[c].move_row(from, src, to, dst, e);
        proof {
            let now = columns@;
            assert forall|d: int| 0 <= d < now.len() implies if in_list(infos.take(k + 1), d) {
                old(columns)@[d].moved_row(&(#[trigger] now[d]), from, src, to, dst, e)
            } else {
                now[d] == old(columns)@[d]
            } by {
                if d == c {
                    assert(infos.take(k + 1)[k as int].index.0 == c);
                } else {
                    assert(now[d] == cur[d]);
                    if in_list(infos.take(k + 1), d) {
                        let j = choose|j: int|
                            0 <= j < infos.take(k + 1).len() && (#[trigger] infos.take(k + 1)[j]).index.0
                                == d;
                        assert(infos.take(k as int)[j].index.0 == d);
                    }
                    if in_list(infos.take(k as int), d) {
                        let j = choose|j: int|
                            0 <= j < infos.take(k as int).len() && (#[trigger] infos.take(k as int)[j]).index.0
                                == d;
                        assert(infos.take(k + 1)[j].index.0 == d);
                    }
                }
            }
        }
        k += 1;
    }
    proof {
        assert(infos.take(k as int) =~= infos);
    }
}

/// Initialises the value of each listed component at the row of the
/// archetype. Every other column stays as it is.
pub(crate) fn init_cells(
    columns: &mut Vec<Column>,
    list: &Vec<Share<ComponentInfo>>,
    index: ArchetypeWorldIndex,
    row: Row,
    e: Entity,
    tick: Tick,
)
    requires
        cells_ready(infos_of(list@), old(columns)@, index, row),
    ensures
        final(columns)@.len() == old(columns)@.len(),
        forall|c: int|
            0 <= c < old(columns)@.len() ==> if in_list(infos_of(list@), c) {
                old(columns)@[c].initialised(&(#[trigger] final(columns)@[c]), index, row, e, tick)
            } else {
                final(columns)@[c] == old(columns)@[c]
            },
{
    let ghost infos = infos_of(list@);
    let n = list.len();
    let mut k: usize = 0;
    while k < n
        invariant
            k <= n,
            n == infos.len(),
            infos == infos_of(list@),
            cells_ready(infos, old(columns)@, index, row),
            columns@.len() == old(columns)@.len(),
            forall|c: int|
                0 <= c < columns@.len() ==> if in_list(infos.take(k as int), c) {
                    old(columns)@[c].initialised(&(#[trigger] columns@[c]), index, row, e, tick)
                } else {
                    columns@[c] == old(columns)@[c]
                },
        decreases n - k,
    {
        let c: usize = list[k].index.index();
        let ghost cur = columns@;
        proof {
            assert(infos[k as int].index.0 == c);
            assert(!in_list(infos.take(k as int), c as int)) by {
                if in_list(infos.take(k as int), c as int) {
                    let j = choose|j: int|
                        0 <= j < infos.take(k as int).len() && (#[trigger] infos.take(k as int)[j]).index.0
                            == c;
                    assert(infos[j].index.0 < infos[k as int].index.0);
                }
            }
        }
        columns[c].init_cell(index, row, e, tick);
        proof {
            let now = columns@;
            assert forall|d: int| 0 <= d < now.len() implies if in_list(infos.take(k + 1), d) {
                old(columns)@[d].initialised(&(#[trigger] now[d]), index, row, e, tick)
            } else {
                now[d] == old(columns)@[d]
            } by {
                if d == c {
                    assert(infos.take(k + 1)[k as int].index.0 == c);
                } else {
                    assert(now[d] == cur[d]);
                    if in_list(infos.take(k + 1), d) {
                        let j = choose|j: int|
                            0 <= j < infos.take(k + 1).len() && (#[trigger] infos.take(k + 1)[j]).index.0
                                == d;
                        assert(infos.take(k as int)[j].index.0 == d);
                    }
                    if in_list(infos.take(k as int), d) {
                        let j = choose|j: int|
                            0 <= j < infos.take(k as int).len() && (#[trigger] infos.take(k as int)[j]).index.0
                                == d;
                        assert(infos.take(k + 1)[j].index.0 == d);
                    }
                }
            }
        }
        k += 1;
    }
    proof {
        assert(infos.take(k as int) =~= infos);
    }
}

/// Releases the value of each listed component at the row of the
/// archetype. Every other column stays as it is.
pub(crate) fn drop_cells(
    columns: &mut Vec<Column>,
    list: &Vec<Share<ComponentInfo>>,
    index: ArchetypeWorldIndex,
    row: Row,
)
    requires
        cells_ready(infos_of(list@), old(columns)@, index, row),
    ensures
        final(columns)@.len() == old(columns)@.len(),
        forall|c: int|
            0 <= c < old(columns)@.len() ==> if in_list(infos_of(list@), c) {
                old(columns)@[c].dropped(&(#[trigger] final(columns)@[c]), index, row)
            } else {
                final(columns)@[c] == old(columns)@[c]
            },
{
    let ghost infos = infos_of(list@);
    let n = list.len();
    let mut k: usize = 0;
    while k < n
        invariant
            k <= n,
            n == infos.len(),
            infos == infos_of(list@),
            cells_ready(infos, old(columns)@, index, row),
            columns@.len() == old(columns)@.len(),
            forall|c: int|
                0 <= c < columns@.len() ==> if in_list(infos.take(k as int), c) {
                    old(columns)@[c].dropped(&(#[trigger] columns@[c]), index, row)
                } else {
                    columns@[c] == old(columns)@[c]
                },
        decreases n - k,
    {
        let c: usize = list[k].index.index();
        let ghost cur = columns@;
        proof {
            assert(infos[k as int].index.0 == c);
            assert(!in_list(infos.take(k as int), c as int)) by {
                if in_list(infos.take(k as int), c as int) {
                    let j = choose|j: int|
                        0 <= j < infos.take(k as int).len() && (#[trigger] infos.take(k as int)[j]).index.0
                            == c;
                    assert(infos[j].index.0 < infos[k as int].index.0);
                }
            }
        }
        columns[c].drop_cell(index, row);
        proof {
            let now = columns@;
            assert forall|d: int| 0 <= d < now.len() implies if in_list(infos.take(k + 1), d) {
                old(columns)@[d].dropped(&(#[trigger] now[d]), index, row)
            } else {
                now[d] == old(columns)@[d]
            } by {
                if d == c {
                    assert(infos.take(k + 1)[k as int].index.0 == c);
                } else {
                    assert(now[d] == cur[d]);
                    if in_list(infos.take(k + 1), d) {
                        let j = choose|j: int|
                            0 <= j < infos.take(k + 1).len() && (#[trigger] infos.take(k + 1)[j]).index.0
                                == d;
                        assert(infos.take(k as int)[j].index.0 == d);
                    }
                    if in_list(infos.take(k as int), d) {
                        let j = choose|j: int|
                            0 <= j < infos.take(k as int).len() && (#[trigger] infos.take(k as int)[j]).index.0
                                == d;
                        assert(infos.take(k + 1)[j].index.0 == d);
                    }
                }
            }
        }
        k += 1;
    }
    proof {
        assert(infos.take(k as int) =~= infos);
    }
}

/// What three passes over the store leave together: a move of the listed
/// columns, then an initialisation of others, then a release of yet
/// others, each pass leaving the columns it does not list as they are.
pub(crate) proof fn lemma_cells_composed(
    s0: Seq<Column>,
    s1: Seq<Column>,
    s2: Seq<Column>,
    s3: Seq<Column>,
    adding: Seq<ComponentInfo>,
    moving: Seq<ComponentInfo>,
    removing: Seq<ComponentInfo>,
    src: ArchetypeWorldIndex,
    row: Row,
    dst: ArchetypeWorldIndex,
    new_row: Row,
    e: Entity,
    tick: Tick,
)
    requires
        src != dst,
        s1.len() == s0.len(),
        s2.len() == s0.len(),
        s3.len() == s0.len(),
        forall|k: int| 0 <= k < adding.len() ==> !in_list(moving, (#[trigger] adding[k]).index.0 as int),
        forall|k: int|
            0 <= k < removing.len() ==> !in_list(moving, (#[trigger] removing[k]).index.0 as int)
                && !in_list(adding, removing[k].index.0 as int),
        forall|c: int|
            0 <= c < s0.len() ==> if in_list(moving, c) {
                s0[c].moved_row(&(#[trigger] s1[c]), src, row, dst, new_row, e)
            } else {
                s1[c] == s0[c]
            },
        forall|c: int|
            0 <= c < s0.len() ==> if in_list(adding, c) {
                s1[c].initialised(&(#[trigger] s2[c]), dst, new_row, e, tick)
            } else {
                s2[c] == s1[c]
            },
        forall|c: int|
            0 <= c < s0.len() ==> if in_list(removing, c) {
                s2[c].dropped(&(#[trigger] s3[c]), src, row)
            } else {
                s3[c] == s2[c]
            },
    ensures
        store_extends(s0, s3),
        forall|c: int, x: ArchetypeWorldIndex, r: Row|
            0 <= c < s0.len() && !(x == dst && r == new_row) ==> #[trigger] s3[c].cell(x, r)
                == s0[c].cell(x, r),
        forall|c: int, x: ArchetypeWorldIndex, r: Row|
            0 <= c < s0.len() && !(x == dst && r == new_row) ==> #[trigger] s3[c].tick(x, r)
                == s0[c].tick(x, r),
        forall|c: int|
            0 <= c < s0.len() && in_list(moving, c) ==> (#[trigger] s3[c]).cell(dst, new_row)
                == s0[c].cell(src, row) && s3[c].tick(dst, new_row) == s0[c].tick(src, row),
        forall|c: int|
            0 <= c < s0.len() && in_list(adding, c) ==> (#[trigger] s3[c]).cell(dst, new_row)
                == s0[c].meta().default_bytes(),
        forall|c: int, x: ArchetypeWorldIndex|
            0 <= c < s0.len() ==> #[trigger] s3[c].released(x) == if x == src && in_list(removing, c)
                && s0[c].meta().needs_drop {
                s0[c].released(x).push(s0[c].cell(src, row))
            } else {
                s0[c].released(x)
            },
{
    assert forall|c: int| 0 <= c < s0.len() implies {
        &&& (#[trigger] s3[c]).meta() == s0[c].meta()
        &&& s3[c].slots().len() >= s0[c].slots().len()
        &&& forall|x: ArchetypeWorldIndex, r: Row|
            !(x == dst && r == new_row) ==> #[trigger] s3[c].cell(x, r) == s0[c].cell(x, r)
        &&& forall|x: ArchetypeWorldIndex, r: Row|
            !(x == dst && r == new_row) ==> #[trigger] s3[c].tick(x, r) == s0[c].tick(x, r)
        &&& in_list(moving, c) ==> s3[c].cell(dst, new_row) == s0[c].cell(src, row) && s3[c].tick(
            dst,
            new_row,
        ) == s0[c].tick(src, row)
        &&& in_list(adding, c) ==> s3[c].cell(dst, new_row) == s0[c].meta().default_bytes()
        &&& forall|x: ArchetypeWorldIndex| #[trigger]
            s3[c].released(x) == if x == src && in_list(removing, c) && s0[c].meta().needs_drop {
                s0[c].released(x).push(s0[c].cell(src, row))
            } else {
                s0[c].released(x)
            }
    } by {
        if in_list(moving, c) {
            assert(!in_list(adding, c)) by {
                if in_list(adding, c) {
                    let k = choose|k: int| 0 <= k < adding.len() && (#[trigger] adding[k]).index.0 == c;
                }
            }
            assert(!in_list(removing, c)) by {
                if in_list(removing, c) {
                    let k = choose|k: int|
                        0 <= k < removing.len() && (#[trigger] removing[k]).index.0 == c;
                }
            }
            assert(s2[c] == s1[c]);
            assert(s3[c] == s2[c]);
            assert(s0[c].moved_row(&s1[c], src, row, dst, new_row, e));
            lemma_same_but_slots(s0[c], s1[c], dst);
            assert forall|x: ArchetypeWorldIndex, r: Row| !(x == dst && r == new_row) implies #[trigger]
                s3[c].cell(x, r) == s0[c].cell(x, r) by {
                if x != dst {
                    assert(slot_same(s0[c], s1[c], x));
                }
            }
            assert forall|x: ArchetypeWorldIndex, r: Row| !(x == dst && r == new_row) implies #[trigger]
                s3[c].tick(x, r) == s0[c].tick(x, r) by {
                if x != dst {
                    assert(slot_same(s0[c], s1[c], x));
                }
            }
            assert forall|x: ArchetypeWorldIndex| #[trigger] s3[c].released(x) == s0[c].released(x) by {
                if x != dst {
                    assert(slot_same(s0[c], s1[c], x));
                }
            }
        } else if in_list(adding, c) {
            assert(!in_list(removing, c)) by {
                if in_list(removing, c) {
                    let k = choose|k: int|
                        0 <= k < removing.len() && (#[trigger] removing[k]).index.0 == c;
                }
            }
            assert(s1[c] == s0[c]);
            assert(s3[c] == s2[c]);
            assert(s1[c].initialised(&s2[c], dst, new_row, e, tick));
            lemma_same_but_slots(s1[c], s2[c], dst);
            assert forall|x: ArchetypeWorldIndex, r: Row| !(x == dst && r == new_row) implies #[trigger]
                s3[c].cell(x, r) == s0[c].cell(x, r) by {
                if x != dst {
                    assert(slot_same(s1[c], s2[c], x));
                }
            }
            assert forall|x: ArchetypeWorldIndex, r: Row| !(x == dst && r == new_row) implies #[trigger]
                s3[c].tick(x, r) == s0[c].tick(x, r) by {
                if x != dst {
                    assert(slot_same(s1[c], s2[c], x));
                }
            }
            assert forall|x: ArchetypeWorldIndex| #[trigger] s3[c].released(x) == s0[c].released(x) by {
                if x != dst {
                    assert(slot_same(s1[c], s2[c], x));
                }
            }
        } else if in_list(removing, c) {
            assert(s1[c] == s0[c]);
            assert(s2[c] == s1[c]);
            assert(s2[c].dropped(&s3[c], src, row));
            lemma_same_but_slots(s2[c], s3[c], src);
            assert forall|x: ArchetypeWorldIndex, r: Row| !(x == dst && r == new_row) implies #[trigger]
                s3[c].cell(x, r) == s0[c].cell(x, r) by {
                if x != src {
                    assert(slot_same(s2[c], s3[c], x));
                }
            }
            assert forall|x: ArchetypeWorldIndex, r: Row| !(x == dst && r == new_row) implies #[trigger]
                s3[c].tick(x, r) == s0[c].tick(x, r) by {
                if x != src {
                    assert(slot_same(s2[c], s3[c], x));
                }
            }
            assert forall|x: ArchetypeWorldIndex| #[trigger]
                s3[c].released(x) == if x == src && s0[c].meta().needs_drop {
                    s0[c].released(x).push(s0[c].cell(src, row))
                } else {
                    s0[c].released(x)
                } by {
                if x != src {
                    assert(slot_same(s2[c], s3[c], x));
                }
            }
        } else {
            assert(s1[c] == s0[c]);
            assert(s2[c] == s1[c]);
            assert(s3[c] == s2[c]);
        }
    }
}

/// Of the operations on one component type one counts: a type is not both
/// added and removed.
pub proof fn lemma_one_op(ops: Seq<(ComponentIndex, bool)>, c: ComponentIndex)
    requires
        sorted_ops(ops),
    ensures
        !(op_adds(ops, c) && op_removes(ops, c)),
{
    if op_adds(ops, c) && op_removes(ops, c) {
        let u = choose|u: int| #[trigger] effective(ops, u) && ops[u].0 == c && ops[u].1;
        let v = choose|v: int| #[trigger] effective(ops, v) && ops[v].0 == c && !ops[v].1;
        if u < v {
            assert(ops[u].0.0 <= ops[v - 1].0.0);
            assert(ops[v - 1].0.0 <= ops[v].0.0);
        } else {
            assert(ops[v].0.0 <= ops[u - 1].0.0);
            assert(ops[u - 1].0.0 <= ops[u].0.0);
        }
    }
}

/// The lists of a plan that moves an added type which the entity has: no
/// column is in two of them, the moved and the dropped are columns of the
/// source, and the destination has the moved and the initialised.
pub(crate) proof fn lemma_plan_lists(
    columns: Seq<ComponentInfo>,
    ops: Seq<(ComponentIndex, bool)>,
    adding: Seq<ComponentInfo>,
    moving: Seq<ComponentInfo>,
    removing: Seq<ComponentInfo>,
    result: Seq<ComponentInfo>,
    store: Seq<Column>,
)
    requires
        sorted_ops(ops),
        lists(adding, |c: ComponentIndex| plan_adding(columns, ops, true, c), columns, store),
        lists(moving, |c: ComponentIndex| plan_moving(columns, ops, true, c), columns, store),
        lists(removing, |c: ComponentIndex| plan_removing(columns, ops, c), columns, store),
        lists(result, |c: ComponentIndex| plan_result(columns, ops, c), columns, store),
    ensures
        forall|k: int|
            0 <= k < moving.len() ==> has_component(columns, (#[trigger] moving[k]).index) && in_list(
                result,
                moving[k].index.0 as int,
            ),
        forall|k: int|
            0 <= k < adding.len() ==> in_list(result, (#[trigger] adding[k]).index.0 as int) && !in_list(
                moving,
                adding[k].index.0 as int,
            ),
        forall|k: int|
            0 <= k < removing.len() ==> has_component(columns, (#[trigger] removing[k]).index)
                && !in_list(moving, removing[k].index.0 as int) && !in_list(
                adding,
                removing[k].index.0 as int,
            ),
        forall|k: int|
            0 <= k < result.len() ==> in_list(moving, (#[trigger] result[k]).index.0 as int) || in_list(
                adding,
                result[k].index.0 as int,
            ),
        forall|c: ComponentIndex| #[trigger]
            plan_moving(columns, ops, true, c) ==> in_list(moving, c.0 as int),
        forall|c: ComponentIndex| #[trigger]
            plan_adding(columns, ops, true, c) ==> in_list(adding, c.0 as int),
        forall|c: ComponentIndex| #[trigger]
            has_component(result, c) <==> plan_result(columns, ops, c),
        forall|c: ComponentIndex| #[trigger]
            plan_removing(columns, ops, c) <==> in_list(removing, c.0 as int),
{
    let p_add = |c: ComponentIndex| plan_adding(columns, ops, true, c);
    let p_mov = |c: ComponentIndex| plan_moving(columns, ops, true, c);
    let p_rem = |c: ComponentIndex| plan_removing(columns, ops, c);
    let p_res = |c: ComponentIndex| plan_result(columns, ops, c);
    assert forall|c: ComponentIndex| #[trigger] p_mov(c) implies in_list(moving, c.0 as int) by {
        let k = choose|k: int| 0 <= k < moving.len() && (#[trigger] moving[k]).index == c;
    }
    assert forall|c: ComponentIndex| #[trigger] p_add(c) implies in_list(adding, c.0 as int) by {
        let k = choose|k: int| 0 <= k < adding.len() && (#[trigger] adding[k]).index == c;
    }
    assert forall|c: ComponentIndex| #[trigger] p_res(c) implies in_list(result, c.0 as int) by {
        let k = choose|k: int| 0 <= k < result.len() && (#[trigger] result[k]).index == c;
    }
    assert forall|k: int| 0 <= k < moving.len() implies has_component(
        columns,
        (#[trigger] moving[k]).index,
    ) && in_list(result, moving[k].index.0 as int) by {
        assert(p_mov(moving[k].index));
        assert(p_res(moving[k].index));
    }
    assert forall|k: int| 0 <= k < adding.len() implies in_list(
        result,
        (#[trigger] adding[k]).index.0 as int,
    ) && !in_list(moving, adding[k].index.0 as int) by {
        let c = adding[k].index;
        assert(p_add(c));
        assert(p_res(c));
        if in_list(moving, c.0 as int) {
            let j = choose|j: int| 0 <= j < moving.len() && (#[trigger] moving[j]).index.0 == c.0;
            assert(p_mov(moving[j].index));
            assert(moving[j].index == c);
        }
    }
    assert forall|k: int| 0 <= k < removing.len() implies has_component(
        columns,
        (#[trigger] removing[k]).index,
    ) && !in_list(moving, removing[k].index.0 as int) && !in_list(
        adding,
        removing[k].index.0 as int,
    ) by {
        let c = removing[k].index;
        assert(p_rem(c));
        if in_list(moving, c.0 as int) {
            let j = choose|j: int| 0 <= j < moving.len() && (#[trigger] moving[j]).index.0 == c.0;
            assert(p_mov(moving[j].index));
            assert(moving[j].index == c);
        }
        if in_list(adding, c.0 as int) {
            let j = choose|j: int| 0 <= j < adding.len() && (#[trigger] adding[j]).index.0 == c.0;
            assert(p_add(adding[j].index));
            assert(adding[j].index == c);
        }
    }
    assert forall|k: int| 0 <= k < result.len() implies in_list(
        moving,
        (#[trigger] result[k]).index.0 as int,
    ) || in_list(adding, result[k].index.0 as int) by {
        let c = result[k].index;
        assert(p_res(c));
        lemma_one_op(ops, c);
        if has_component(columns, c) && !op_removes(ops, c) {
            assert(p_mov(c));
        } else {
            assert(p_add(c));
        }
    }
    assert forall|c: ComponentIndex| #[trigger]
        has_component(result, c) <==> plan_result(columns, ops, c) by {
        if has_component(result, c) {
            let k = choose|k: int| 0 <= k < result.len() && (#[trigger] result[k]).index == c;
            assert(p_res(result[k].index));
        }
        if plan_result(columns, ops, c) {
            assert(p_res(c));
        }
    }
    assert forall|c: ComponentIndex| #[trigger] plan_moving(columns, ops, true, c) implies in_list(
        moving,
        c.0 as int,
    ) by {
        assert(p_mov(c));
    }
    assert forall|c: ComponentIndex| #[trigger]
        plan_removing(columns, ops, c) <==> in_list(removing, c.0 as int) by {
        if plan_removing(columns, ops, c) {
            assert(p_rem(c));
            let k = choose|k: int| 0 <= k < removing.len() && (#[trigger] removing[k]).index == c;
        }
        if in_list(removing, c.0 as int) {
            let k = choose|k: int| 0 <= k < removing.len() && (#[trigger] removing[k]).index.0 == c.0;
            assert(p_rem(removing[k].index));
            assert(removing[k].index == c);
        }
    }
    assert forall|c: ComponentIndex| #[trigger] plan_adding(columns, ops, true, c) implies in_list(
        adding,
        c.0 as int,
    ) by {
        assert(p_add(c));
    }
}

/// A plan whose destination is the component set of the source changes
/// nothing: nothing is initialised.
pub(crate) proof fn lemma_plan_same(
    columns: Seq<ComponentInfo>,
    ops: Seq<(ComponentIndex, bool)>,
    adding: Seq<ComponentInfo>,
    moving: Seq<ComponentInfo>,
    removing: Seq<ComponentInfo>,
    result: Seq<ComponentInfo>,
    store: Seq<Column>,
)
    requires
        sorted_ops(ops),
        result == columns,
        lists(adding, |c: ComponentIndex| plan_adding(columns, ops, true, c), columns, store),
        lists(moving, |c: ComponentIndex| plan_moving(columns, ops, true, c), columns, store),
        lists(removing, |c: ComponentIndex| plan_removing(columns, ops, c), columns, store),
        lists(result, |c: ComponentIndex| plan_result(columns, ops, c), columns, store),
    ensures
        forall|c: ComponentIndex| #[trigger] has_component(columns, c) <==> plan_result(columns, ops, c),
        forall|c: ComponentIndex| !(#[trigger] plan_adding(columns, ops, true, c)),
        forall|c: ComponentIndex| !(#[trigger] plan_removing(columns, ops, c)),
{
    lemma_plan_lists(columns, ops, adding, moving, removing, result, store);
    assert forall|c: ComponentIndex| !(#[trigger] plan_removing(columns, ops, c)) by {
        if plan_removing(columns, ops, c) {
            assert(has_component(result, c));
            assert(plan_result(columns, ops, c));
            lemma_one_op(ops, c);
        }
    }
    assert forall|c: ComponentIndex| !(#[trigger] plan_adding(columns, ops, true, c)) by {
        if plan_adding(columns, ops, true, c) {
            assert(plan_result(columns, ops, c));
            assert(has_component(result, c));
        }
    }
}

} // verus!
