//! Compaction plans: which rows move where, so that a table loses the rows
//! queued for removal and keeps no hole.
//!
//! Two strategies compute the same plan. Where the removals are few, they
//! are sorted and walked from both ends; where they are many, they are
//! marked in a bit set and the table is scanned once.

use crate::bitset::{
    bit_is_set, bits_len, bits_on, bitset_clear, bitset_contains, bitset_grow, bitset_set,
};
use crate::column::source_of;
use crate::ids::Row;
use fixedbitset::FixedBitSet;
use vstd::prelude::*;

verus! {

/// Integer part of the base-two logarithm; zero for zero and one.
pub open spec fn log2_floor(n: nat) -> nat
    decreases n,
{
    if n <= 1 {
        0
    } else {
        1 + log2_floor(n / 2)
    }
}

/// Whether the removals are few enough, against the rows that stay, for
/// sorting them to be cheaper than scanning the table:
/// `R * floor(log2(R)) < L - R`.
pub open spec fn sparse_removes(remove_len: nat, entity_len: nat) -> bool {
    remove_len * log2_floor(remove_len) < entity_len - remove_len
}

proof fn lemma_log2_le(n: nat)
    ensures
        log2_floor(n) <= n,
    decreases n,
{
    if n > 1 {
        lemma_log2_le(n / 2);
    }
}

/// Integer part of the base-two logarithm of `n`.
pub fn floor_log2(n: usize) -> (r: usize)
    ensures
        r == log2_floor(n as nat),
{
    let mut m: usize = n;
    let mut r: usize = 0;
    proof {
        lemma_log2_le(n as nat);
    }
    while m > 1
        invariant
            log2_floor(n as nat) == r + log2_floor(m as nat),
            log2_floor(n as nat) <= n,
        decreases m,
    {
        m = m / 2;
        r = r + 1;
    }
    r
}

/// Whether `remove_len` removals out of `entity_len` rows are few enough to
/// sort them rather than scan the table.
pub fn is_sparse(remove_len: usize, entity_len: usize) -> (r: bool)
    ensures
        r == sparse_removes(remove_len as nat, entity_len as nat),
{
    let log: usize = floor_log2(remove_len);
    if remove_len >= entity_len {
        proof {
            assert(remove_len * log >= 0) by (nonlinear_arith)
                requires
                    remove_len >= 0,
                    log >= 0,
            ;
        }
        return false;
    }
    proof {
        lemma_log2_le(remove_len as nat);
        assert(remove_len * log <= remove_len * remove_len) by (nonlinear_arith)
            requires
                log <= remove_len,
        ;
        assert(remove_len * remove_len <= usize::MAX * usize::MAX) by (nonlinear_arith)
            requires
                remove_len <= usize::MAX,
        ;
    }
    (remove_len as u128) * (log as u128) < ((entity_len - remove_len) as u128)
}

/// Whether the rows queued for removal are pairwise distinct and lie within
/// a table of `entity_len` rows: a row is removed once.
pub open spec fn removable(removes: Seq<Row>, entity_len: int) -> bool {
    &&& removes.no_duplicates()
    &&& forall|i: int| 0 <= i < removes.len() ==> (#[trigger] removes[i]).0 < entity_len
}

/// Whether `moves` compacts a table of `entity_len` rows, of which
/// `removes` are queued for removal, to `new_len` rows: each move takes a
/// row that stays, at or past `new_len`, to a removed row below `new_len`;
/// the removed rows below `new_len` are filled in ascending order from the
/// staying rows at or past it in descending order; none of either is left
/// out.
pub open spec fn is_compaction(
    removes: Seq<Row>,
    entity_len: int,
    new_len: int,
    moves: Seq<(Row, Row)>,
) -> bool {
    &&& 0 <= new_len <= entity_len
    &&& forall|k: int|
        0 <= k < moves.len() ==> {
            &&& new_len <= (#[trigger] moves[k]).0.0 < entity_len
            &&& !removes.contains(moves[k].0)
            &&& moves[k].1.0 < new_len
            &&& removes.contains(moves[k].1)
        }
    &&& forall|j: int, k: int|
        0 <= j < k < moves.len() ==> (#[trigger] moves[j]).0.0 > (#[trigger] moves[k]).0.0
            && moves[j].1.0 < moves[k].1.0
    &&& forall|r: Row|
        removes.contains(r) && r.0 < new_len ==> exists|k: int|
            0 <= k < moves.len() && (#[trigger] moves[k]).1 == r
    &&& forall|r: Row|
        new_len <= r.0 < entity_len && !removes.contains(r) ==> exists|k: int|
            0 <= k < moves.len() && (#[trigger] moves[k]).0 == r
}

/// `<[T]>::sort_unstable_by_key` with the second row of each pair as the
/// key: the pairs are rearranged so that their second rows ascend.
#[verifier::external_body]
fn sort_by_target(action: &mut Vec<(Row, Row)>)
    ensures
        final(action)@.to_multiset() == old(action)@.to_multiset(),
        forall|i: int, j: int|
            0 <= i < j < final(action)@.len() ==> (#[trigger] final(action)@[i]).1.0 <= (
            #[trigger] final(action)@[j]).1.0,
{
    action.sort_unstable_by_key(|p| (p.1).0);
}

/// Each queued row paired with itself: what the sparse strategy sorts.
spec fn paired(removes: Seq<Row>) -> Seq<(Row, Row)> {
    removes.map_values(|r: Row| (r, r))
}

proof fn lemma_sorted_pairs(removes: Seq<Row>, sorted: Seq<(Row, Row)>)
    requires
        removes.no_duplicates(),
        sorted.to_multiset() == paired(removes).to_multiset(),
        forall|i: int, j: int|
            0 <= i < j < sorted.len() ==> (#[trigger] sorted[i]).1.0 <= (#[trigger] sorted[j]).1.0,
    ensures
        sorted.len() == removes.len(),
        forall|k: int|
            0 <= k < sorted.len() ==> (#[trigger] sorted[k]).0 == sorted[k].1 && removes.contains(
                sorted[k].1,
            ),
        forall|r: Row|
            removes.contains(r) ==> exists|k: int|
                0 <= k < sorted.len() && #[trigger] sorted[k] == (r, r),
        forall|i: int, j: int|
            0 <= i < j < sorted.len() ==> (#[trigger] sorted[i]).1.0 < (#[trigger] sorted[j]).1.0,
{
    broadcast use vstd::seq_lib::group_to_multiset_ensures;

    let init = paired(removes);
    vstd::seq_lib::to_multiset_len(init);
    vstd::seq_lib::to_multiset_len(sorted);
    assert(init.no_duplicates());
    init.lemma_multiset_has_no_duplicates();
    sorted.lemma_multiset_has_no_duplicates_conv();
    assert forall|k: int| 0 <= k < sorted.len() implies (#[trigger] sorted[k]).0 == sorted[k].1
        && removes.contains(sorted[k].1) by {
        assert(sorted.contains(sorted[k]));
        assert(sorted.to_multiset().count(sorted[k]) > 0);
        assert(init.contains(sorted[k]));
        let i = choose|i: int| 0 <= i < init.len() && init[i] == sorted[k];
        assert(removes[i] == sorted[k].1);
    }
    assert forall|r: Row| removes.contains(r) implies exists|k: int|
        0 <= k < sorted.len() && #[trigger] sorted[k] == (r, r) by {
        let i = choose|i: int| 0 <= i < removes.len() && removes[i] == r;
        assert(init[i] == (r, r));
        assert(init.contains((r, r)));
        assert(init.to_multiset().count((r, r)) > 0);
        assert(sorted.contains((r, r)));
    }
    assert forall|i: int, j: int| 0 <= i < j < sorted.len() implies (#[trigger] sorted[i]).1.0 < (
    #[trigger] sorted[j]).1.0 by {
        if sorted[i].1.0 == sorted[j].1.0 {
            assert(sorted[i].0 == sorted[i].1);
            assert(sorted[j].0 == sorted[j].1);
            assert(sorted[i] == sorted[j]);
        }
    }
}

/// The sparse strategy: sorts the queued rows and walks them from both
/// ends, pairing the lowest hole with the highest row that stays.
#[verifier::rlimit(60)]
#[verifier::spinoff_prover]
pub(crate) fn sparse_action(removes: &Vec<Row>, entity_len: usize, action: &mut Vec<(Row, Row)>) -> (index:
    usize)
    requires
        removable(removes@, entity_len as int),
        entity_len <= u32::MAX,
        old(action)@.len() == 0,
    ensures
        is_compaction(removes@, entity_len as int, index as int, final(action)@),
        index == entity_len - removes@.len(),
{
    let mut i: usize = 0;
    while i < removes.len()
        invariant
            i <= removes@.len(),
            action@ == paired(removes@.take(i as int)),
        decreases removes@.len() - i,
    {
        let row = removes[i];
        action.push((row, row));
        proof {
            assert(action@ =~= paired(removes@.take(i + 1)));
        }
        i += 1;
    }
    proof {
        assert(removes@.take(i as int) =~= removes@);
    }
    sort_by_target(action);
    let ghost sorted = action@;
    proof {
        lemma_sorted_pairs(removes@, sorted);
        removes@.unique_seq_to_set();
        lemma_removes_bounded(removes@, entity_len as int);
    }
    let count: usize = action.len();
    let mut start: usize = 0;
    let mut end: usize = count;
    let mut index: usize = entity_len;
    while start < end
        invariant
            removable(removes@, entity_len as int),
            entity_len <= u32::MAX,
            count == removes@.len(),
            count <= entity_len,
            sorted.len() == count,
            action@.len() == count,
            start <= end <= count,
            index == entity_len - start - (count - end),
            forall|k: int|
                0 <= k < count ==> (#[trigger] sorted[k]).0 == sorted[k].1 && removes@.contains(
                    sorted[k].1,
                ),
            forall|r: Row|
                removes@.contains(r) ==> exists|k: int|
                    0 <= k < count && #[trigger] sorted[k] == (r, r),
            forall|i: int, j: int|
                0 <= i < j < count ==> (#[trigger] sorted[i]).1.0 < (#[trigger] sorted[j]).1.0,
            forall|k: int| 0 <= k < count ==> (#[trigger] action@[k]).1 == sorted[k].1,
            forall|k: int| start <= k < count ==> #[trigger] action@[k] == sorted[k],
            forall|k: int| end <= k < count ==> (#[trigger] sorted[k]).1.0 >= index,
            forall|k: int| 0 <= k < end ==> (#[trigger] sorted[k]).1.0 < index,
            forall|j: int|
                0 <= j < start ==> index <= (#[trigger] action@[j]).0.0 < entity_len
                    && !removes@.contains(action@[j].0),
            forall|i: int, j: int|
                0 <= i < j < start ==> (#[trigger] action@[i]).0.0 > (#[trigger] action@[j]).0.0,
            forall|r: Row|
                index <= r.0 < entity_len && !removes@.contains(r) ==> exists|j: int|
                    0 <= j < start && (#[trigger] action@[j]).0 == r,
        decreases end - start,
    {
        index = index - 1;
        let remove_row: (Row, Row) = action[end - 1];
        if remove_row.0.index() == index {
            end = end - 1;
            continue ;
        }
        let ghost before = action@;
        let target: Row = action[start].1;
        action.set(start, (Row(index as u32), target));
        proof {
            let moved = Row(index as u32);
            assert(!removes@.contains(moved)) by {
                if removes@.contains(moved) {
                    let k = choose|k: int| 0 <= k < count && #[trigger] sorted[k] == (moved, moved);
                    if k < end {
                        assert(sorted[k].1.0 <= sorted[end - 1].1.0);
                    }
                }
            }
            assert forall|r: Row|
                index <= r.0 < entity_len && !removes@.contains(r) implies exists|j: int|
                0 <= j < start + 1 && (#[trigger] action@[j]).0 == r by {
                if r.0 == index {
                    assert(action@[start as int].0 == r);
                } else {
                    let j = choose|j: int| 0 <= j < start && (#[trigger] before[j]).0 == r;
                    assert(action@[j].0 == r);
                }
            }
        }
        start = start + 1;
    }
    action.truncate(end);
    proof {
        let moves = action@;
        assert forall|k: int| 0 <= k < moves.len() implies {
            &&& index <= (#[trigger] moves[k]).0.0 < entity_len
            &&& !removes@.contains(moves[k].0)
            &&& moves[k].1.0 < index
            &&& removes@.contains(moves[k].1)
        } by {
            assert(moves[k].1 == sorted[k].1);
        }
        assert forall|j: int, k: int| 0 <= j < k < moves.len() implies (#[trigger] moves[j]).0.0
            > (#[trigger] moves[k]).0.0 && moves[j].1.0 < moves[k].1.0 by {
            assert(moves[j].1 == sorted[j].1);
            assert(moves[k].1 == sorted[k].1);
        }
        assert forall|r: Row| removes@.contains(r) && r.0 < index implies exists|k: int|
            0 <= k < moves.len() && (#[trigger] moves[k]).1 == r by {
            let k = choose|k: int| 0 <= k < count && #[trigger] sorted[k] == (r, r);
            assert(moves[k].1 == r);
        }
        assert forall|r: Row|
            index <= r.0 < entity_len && !removes@.contains(r) implies exists|k: int|
            0 <= k < moves.len() && (#[trigger] moves[k]).0 == r by {
            let j = choose|j: int| 0 <= j < start && (#[trigger] moves[j]).0 == r;
            assert(moves[j].0 == r);
        }
    }
    index
}

/// Distinct rows below `entity_len` are at most `entity_len` many.
pub(crate) proof fn lemma_removes_bounded(removes: Seq<Row>, entity_len: int)
    requires
        removable(removes, entity_len),
        0 <= entity_len,
    ensures
        removes.len() <= entity_len,
{
    let numbers = removes.map_values(|r: Row| r.0 as int);
    assert(numbers.no_duplicates());
    numbers.unique_seq_to_set();
    vstd::set_lib::lemma_int_range(0, entity_len);
    let range = vstd::set_lib::set_int_range(0, entity_len);
    assert(numbers.to_set().subset_of(range)) by {
        assert forall|x: int| numbers.to_set().contains(x) implies range.contains(x) by {
            let i = choose|i: int| 0 <= i < numbers.len() && numbers[i] == x;
            assert(removes[i].0 < entity_len);
        }
    }
    vstd::set_lib::lemma_len_subset(numbers.to_set(), range);
}

/// The numbers of the rows of `removes`.
spec fn removed_numbers(removes: Seq<Row>) -> Seq<int> {
    removes.map_values(|r: Row| r.0 as int)
}

/// The numbers of the rows that the moves fill.
spec fn target_numbers(moves: Seq<(Row, Row)>) -> Seq<int> {
    moves.map_values(|m: (Row, Row)| m.1.0 as int)
}

/// The numbers of the rows that the moves empty.
spec fn source_numbers(moves: Seq<(Row, Row)>) -> Seq<int> {
    moves.map_values(|m: (Row, Row)| m.0.0 as int)
}

proof fn lemma_removed_set(removes: Seq<Row>, entity_len: int)
    requires
        removable(removes, entity_len),
    ensures
        removed_numbers(removes).to_set().finite(),
        removed_numbers(removes).to_set().len() == removes.len(),
        forall|x: int| #[trigger]
            removed_numbers(removes).to_set().contains(x) <==> 0 <= x <= u32::MAX
                && removes.contains(Row(x as u32)),
        forall|x: int| #[trigger] removed_numbers(removes).to_set().contains(x) ==> x < entity_len,
{
    broadcast use vstd::seq_lib::seq_to_set_is_finite;

    let removed = removed_numbers(removes);
    assert(removed.no_duplicates());
    removed.unique_seq_to_set();
    assert forall|x: int| #[trigger] removed.to_set().contains(x) implies 0 <= x <= u32::MAX
        && removes.contains(Row(x as u32)) && x < entity_len by {
        let i = choose|i: int| 0 <= i < removed.len() && removed[i] == x;
        assert(removes[i] == Row(x as u32));
    }
    assert forall|x: int| 0 <= x <= u32::MAX && removes.contains(Row(x as u32)) implies #[trigger]
        removed.to_set().contains(x) by {
        let i = choose|i: int| 0 <= i < removes.len() && removes[i] == Row(x as u32);
        assert(removed[i] == x);
    }
}

proof fn lemma_moves_sets(moves: Seq<(Row, Row)>)
    requires
        forall|j: int, k: int|
            0 <= j < k < moves.len() ==> (#[trigger] moves[j]).0.0 > (#[trigger] moves[k]).0.0
                && moves[j].1.0 < moves[k].1.0,
    ensures
        target_numbers(moves).to_set().finite(),
        source_numbers(moves).to_set().finite(),
        target_numbers(moves).to_set().len() == moves.len(),
        source_numbers(moves).to_set().len() == moves.len(),
        forall|x: int| #[trigger]
            target_numbers(moves).to_set().contains(x) <==> exists|k: int|
                0 <= k < moves.len() && (#[trigger] moves[k]).1.0 == x,
        forall|x: int| #[trigger]
            source_numbers(moves).to_set().contains(x) <==> exists|k: int|
                0 <= k < moves.len() && (#[trigger] moves[k]).0.0 == x,
{
    broadcast use vstd::seq_lib::seq_to_set_is_finite;

    let targets = target_numbers(moves);
    let sources = source_numbers(moves);
    assert(targets.no_duplicates()) by {
        assert forall|i: int, j: int|
            0 <= i < targets.len() && 0 <= j < targets.len() && i != j implies targets[i]
            != targets[j] by {
            if i < j {
                assert(moves[i].1.0 < moves[j].1.0);
            } else {
                assert(moves[j].1.0 < moves[i].1.0);
            }
        }
    }
    assert(sources.no_duplicates()) by {
        assert forall|i: int, j: int|
            0 <= i < sources.len() && 0 <= j < sources.len() && i != j implies sources[i]
            != sources[j] by {
            if i < j {
                assert(moves[i].0.0 > moves[j].0.0);
            } else {
                assert(moves[j].0.0 > moves[i].0.0);
            }
        }
    }
    targets.unique_seq_to_set();
    sources.unique_seq_to_set();
    assert forall|x: int| #[trigger] targets.to_set().contains(x) <==> exists|k: int|
        0 <= k < moves.len() && (#[trigger] moves[k]).1.0 == x by {
        if targets.to_set().contains(x) {
            let k = choose|k: int| 0 <= k < targets.len() && targets[k] == x;
            assert(moves[k].1.0 == x);
        }
        if exists|k: int| 0 <= k < moves.len() && (#[trigger] moves[k]).1.0 == x {
            let k = choose|k: int| 0 <= k < moves.len() && (#[trigger] moves[k]).1.0 == x;
            assert(targets[k] == x);
        }
    }
    assert forall|x: int| #[trigger] sources.to_set().contains(x) <==> exists|k: int|
        0 <= k < moves.len() && (#[trigger] moves[k]).0.0 == x by {
        if sources.to_set().contains(x) {
            let k = choose|k: int| 0 <= k < sources.len() && sources[k] == x;
            assert(moves[k].0.0 == x);
        }
        if exists|k: int| 0 <= k < moves.len() && (#[trigger] moves[k]).0.0 == x {
            let k = choose|k: int| 0 <= k < moves.len() && (#[trigger] moves[k]).0.0 == x;
            assert(sources[k] == x);
        }
    }
}

/// Counting: where the removed numbers below `new_len` are as many as the
/// numbers that stay at or past it, `new_len` is `entity_len` less the
/// number removed.
proof fn lemma_partition_count(
    removed: Set<int>,
    targets: Set<int>,
    sources: Set<int>,
    new_len: int,
    entity_len: int,
)
    requires
        removed.finite(),
        targets.finite(),
        sources.finite(),
        targets.len() == sources.len(),
        0 <= new_len <= entity_len,
        forall|x: int| targets.contains(x) <==> removed.contains(x) && x < new_len,
        forall|x: int| sources.contains(x) <==> new_len <= x < entity_len && !removed.contains(x),
        forall|x: int| removed.contains(x) ==> 0 <= x < entity_len,
    ensures
        new_len == entity_len - removed.len(),
{
    let high = removed.filter(|x: int| x >= new_len);
    removed.lemma_len_filter(|x: int| x >= new_len);
    let tail = vstd::set_lib::set_int_range(new_len, entity_len);
    vstd::set_lib::lemma_int_range(new_len, entity_len);
    assert(targets + high =~= removed);
    assert(targets.disjoint(high));
    assert(sources + high =~= tail);
    assert(sources.disjoint(high));
    vstd::set_lib::lemma_set_disjoint_lens(targets, high);
    vstd::set_lib::lemma_set_disjoint_lens(sources, high);
}

/// A compaction shortens the table by exactly the number of removed rows.
pub proof fn lemma_compaction_len(
    removes: Seq<Row>,
    entity_len: int,
    new_len: int,
    moves: Seq<(Row, Row)>,
)
    requires
        removable(removes, entity_len),
        is_compaction(removes, entity_len, new_len, moves),
        entity_len <= u32::MAX,
    ensures
        new_len == entity_len - removes.len(),
{
    let removed = removed_numbers(removes).to_set();
    let targets = target_numbers(moves).to_set();
    let sources = source_numbers(moves).to_set();
    lemma_removed_set(removes, entity_len);
    lemma_moves_sets(moves);
    assert forall|x: int| targets.contains(x) <==> removed.contains(x) && x < new_len by {
        if targets.contains(x) {
            let k = choose|k: int| 0 <= k < moves.len() && (#[trigger] moves[k]).1.0 == x;
            assert(moves[k].1 == Row(x as u32));
        }
        if removed.contains(x) && x < new_len {
            let r = Row(x as u32);
            let k = choose|k: int| 0 <= k < moves.len() && (#[trigger] moves[k]).1 == r;
            assert(moves[k].1.0 == x);
        }
    }
    assert forall|x: int| sources.contains(x) <==> new_len <= x < entity_len && !removed.contains(
        x,
    ) by {
        if sources.contains(x) {
            let k = choose|k: int| 0 <= k < moves.len() && (#[trigger] moves[k]).0.0 == x;
            assert(moves[k].0 == Row(x as u32));
        }
        if new_len <= x < entity_len && !removed.contains(x) {
            let r = Row(x as u32);
            let k = choose|k: int| 0 <= k < moves.len() && (#[trigger] moves[k]).0 == r;
            assert(moves[k].0.0 == x);
        }
    }
    lemma_partition_count(removed, targets, sources, new_len, entity_len);
}

/// Whether the bits stored as one are the first `n` rows of `removes`.
spec fn marks_rows(on: Set<usize>, removes: Seq<Row>, n: int) -> bool {
    forall|x: usize|
        on.contains(x) <==> exists|j: int| 0 <= j < n && (#[trigger] removes[j]).0 as usize == x
}

/// The dense strategy: marks the queued rows in a bit set, then fills each
/// hole, from the lowest up, with the highest row that stays.
#[verifier::rlimit(60)]
#[verifier::spinoff_prover]
pub(crate) fn dense_action(
    removes: &Vec<Row>,
    entity_len: usize,
    action: &mut Vec<(Row, Row)>,
    set: &mut FixedBitSet,
) -> (end: usize)
    requires
        removable(removes@, entity_len as int),
        entity_len <= u32::MAX,
        old(action)@.len() == 0,
    ensures
        is_compaction(removes@, entity_len as int, end as int, final(action)@),
        end == entity_len - removes@.len(),
{
    bitset_clear(set);
    bitset_grow(set, entity_len);
    let mut i: usize = 0;
    while i < removes.len()
        invariant
            i <= removes@.len(),
            removable(removes@, entity_len as int),
            bits_len(*set) >= entity_len,
            marks_rows(bits_on(*set), removes@, i as int),
        decreases removes@.len() - i,
    {
        let row = removes[i];
        let ghost before = bits_on(*set);
        bitset_set(set, row.index(), true);
        proof {
            assert forall|x: usize| bits_on(*set).contains(x) implies exists|j: int|
                0 <= j < i + 1 && (#[trigger] removes@[j]).0 as usize == x by {
                if x == row.0 as usize {
                    assert(removes@[i as int].0 as usize == x);
                } else {
                    assert(before.contains(x));
                    let j = choose|j: int| 0 <= j < i && (#[trigger] removes@[j]).0 as usize == x;
                    assert(removes@[j].0 as usize == x);
                }
            }
            assert forall|x: usize|
                (exists|j: int| 0 <= j < i + 1 && (#[trigger] removes@[j]).0 as usize == x)
                implies bits_on(*set).contains(x) by {
                let j = choose|j: int| 0 <= j < i + 1 && (#[trigger] removes@[j]).0 as usize == x;
                if j < i {
                    assert(before.contains(x));
                }
            }
        }
        i += 1;
    }
    proof {
        assert forall|x: usize| x < entity_len implies (bit_is_set(*set, x) <==> removes@.contains(
            Row(x as u32),
        )) by {
            if bit_is_set(*set, x) {
                let j = choose|j: int|
                    0 <= j < removes@.len() && (#[trigger] removes@[j]).0 as usize == x;
                assert(removes@[j] == Row(x as u32));
            }
            if removes@.contains(Row(x as u32)) {
                let j = choose|j: int| 0 <= j < removes@.len() && removes@[j] == Row(x as u32);
                assert(removes@[j].0 as usize == x);
            }
        }
    }
    let mut end: usize = entity_len;
    let mut row: usize = 0;
    while row < end
        invariant
            row <= end <= entity_len,
            entity_len <= u32::MAX,
            forall|x: usize|
                x < entity_len ==> (bit_is_set(*set, x) <==> removes@.contains(Row(x as u32))),
            forall|k: int|
                0 <= k < action@.len() ==> {
                    &&& end <= (#[trigger] action@[k]).0.0 < entity_len
                    &&& !removes@.contains(action@[k].0)
                    &&& action@[k].1.0 < row
                    &&& removes@.contains(action@[k].1)
                },
            forall|j: int, k: int|
                0 <= j < k < action@.len() ==> (#[trigger] action@[j]).0.0 > (
                #[trigger] action@[k]).0.0 && action@[j].1.0 < action@[k].1.0,
            forall|r: Row|
                removes@.contains(r) && r.0 < row ==> exists|k: int|
                    0 <= k < action@.len() && (#[trigger] action@[k]).1 == r,
            forall|r: Row|
                end <= r.0 < entity_len && !removes@.contains(r) ==> exists|k: int|
                    0 <= k < action@.len() && (#[trigger] action@[k]).0 == r,
        ensures
            row == end,
            end <= entity_len,
            forall|k: int|
                0 <= k < action@.len() ==> {
                    &&& end <= (#[trigger] action@[k]).0.0 < entity_len
                    &&& !removes@.contains(action@[k].0)
                    &&& action@[k].1.0 < row
                    &&& removes@.contains(action@[k].1)
                },
            forall|j: int, k: int|
                0 <= j < k < action@.len() ==> (#[trigger] action@[j]).0.0 > (
                #[trigger] action@[k]).0.0 && action@[j].1.0 < action@[k].1.0,
            forall|r: Row|
                removes@.contains(r) && r.0 < row ==> exists|k: int|
                    0 <= k < action@.len() && (#[trigger] action@[k]).1 == r,
            forall|r: Row|
                end <= r.0 < entity_len && !removes@.contains(r) ==> exists|k: int|
                    0 <= k < action@.len() && (#[trigger] action@[k]).0 == r,
        decreases end - row,
    {
        let ghost before = action@;
        if !bitset_contains(set, row) {
            proof {
                assert forall|r: Row| removes@.contains(r) && r.0 < row + 1 implies exists|k: int|
                    0 <= k < action@.len() && (#[trigger] action@[k]).1 == r by {
                    if r.0 == row {
                        assert(r == Row(row as u32));
                    }
                }
            }
            row = row + 1;
            continue ;
        }
        end = end - 1;
        if end == row {
            proof {
                assert forall|r: Row|
                    end <= r.0 < entity_len && !removes@.contains(r) implies exists|k: int|
                    0 <= k < action@.len() && (#[trigger] action@[k]).0 == r by {
                    if r.0 == end {
                        assert(r == Row(end as u32));
                    }
                }
            }
            break ;
        }
        if !bitset_contains(set, end) {
            action.push((Row(end as u32), Row(row as u32)));
            proof {
                assert forall|r: Row| removes@.contains(r) && r.0 < row + 1 implies exists|k: int|
                    0 <= k < action@.len() && (#[trigger] action@[k]).1 == r by {
                    if r.0 == row {
                        assert(action@[action@.len() - 1].1 == r);
                    } else {
                        let k = choose|k: int| 0 <= k < before.len() && (#[trigger] before[k]).1 == r;
                        assert(action@[k].1 == r);
                    }
                }
                assert forall|r: Row|
                    end <= r.0 < entity_len && !removes@.contains(r) implies exists|k: int|
                    0 <= k < action@.len() && (#[trigger] action@[k]).0 == r by {
                    if r.0 == end {
                        assert(action@[action@.len() - 1].0 == r);
                    } else {
                        let k = choose|k: int| 0 <= k < before.len() && (#[trigger] before[k]).0 == r;
                        assert(action@[k].0 == r);
                    }
                }
            }
            row = row + 1;
        } else {
            proof {
                assert forall|r: Row|
                    end <= r.0 < entity_len && !removes@.contains(r) implies exists|k: int|
                    0 <= k < action@.len() && (#[trigger] action@[k]).0 == r by {
                    if r.0 == end {
                        assert(r == Row(end as u32));
                    }
                }
            }
        }
    }
    proof {
        lemma_compaction_len(removes@, entity_len as int, end as int, action@);
    }
    end
}

/// As many distinct rows below `entity_len` as there are rows below it
/// are all of them.
pub(crate) proof fn lemma_all_removed(removes: Seq<Row>, entity_len: int)
    requires
        removable(removes, entity_len),
        removes.len() >= entity_len,
        0 <= entity_len <= u32::MAX,
    ensures
        removes.len() == entity_len,
        forall|r: Row| r.0 < entity_len ==> removes.contains(r),
{
    lemma_removes_bounded(removes, entity_len);
    lemma_removed_set(removes, entity_len);
    let removed = removed_numbers(removes).to_set();
    let range = vstd::set_lib::set_int_range(0, entity_len);
    vstd::set_lib::lemma_int_range(0, entity_len);
    assert(removed.subset_of(range));
    vstd::set_lib::lemma_subset_equality(removed, range);
    assert forall|r: Row| r.0 < entity_len implies removes.contains(r) by {
        assert(range.contains(r.0 as int));
        assert(removed.contains(r.0 as int));
        assert(Row(r.0 as int as u32) == r);
    }
}

/// In a compaction no row is copied twice: a row that a move fills holds
/// what the move's source held, every other row what it held itself.
pub proof fn lemma_compaction_source(
    removes: Seq<Row>,
    entity_len: int,
    new_len: int,
    moves: Seq<(Row, Row)>,
    n: nat,
    row: Row,
)
    requires
        is_compaction(removes, entity_len, new_len, moves),
        n <= moves.len(),
    ensures
        (forall|k: int| 0 <= k < n ==> (#[trigger] moves[k]).1 != row) ==> source_of(moves, n, row)
            == row,
        forall|k: int| 0 <= k < n && (#[trigger] moves[k]).1 == row ==> source_of(moves, n, row)
            == moves[k].0,
    decreases n,
{
    if n > 0 {
        lemma_compaction_source(removes, entity_len, new_len, moves, (n - 1) as nat, row);
        let last = moves[n - 1];
        if last.1 == row {
            lemma_compaction_source(removes, entity_len, new_len, moves, (n - 1) as nat, last.0);
            assert forall|k: int| 0 <= k < n - 1 implies (#[trigger] moves[k]).1 != last.0 by {
                assert(moves[k].1.0 < new_len);
                assert(new_len <= last.0.0);
            }
            assert forall|k: int| 0 <= k < n && (#[trigger] moves[k]).1 == row implies k == n
                - 1 by {
                if k < n - 1 {
                    assert(moves[k].1.0 < moves[n - 1].1.0);
                }
            }
        }
    }
}

} // verus!
