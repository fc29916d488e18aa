use fixedbitset::FixedBitSet;
use pi_share::Share;
use pi_world::archetype::ArchetypeInfo;
use pi_world::column::{BlobTicks, Column};
use pi_world::component::{
    ComponentInfo, COMPONENT_ADDED, COMPONENT_CHANGED, COMPONENT_REMOVED, COMPONENT_TICK,
};
use pi_world::depend::{ArchetypeDepend, ArchetypeDependResult, Flags, READ, WITHOUT, WRITE};
use pi_world::ids::{ArchetypeWorldIndex, ComponentIndex, Entity, Row, Tick};
use pi_world::compaction::{floor_log2, is_sparse};
use pi_world::table::Table;
use pi_world::world::World;

fn info(id: u128, name: &str, index: u32, size: u32, ticks: u8) -> ComponentInfo {
    let mut info = ComponentInfo::create(id, name.to_string(), true, None, size, ticks);
    info.index = ComponentIndex(index);
    info
}

fn plan(removes: &[u32], entity_len: usize) -> (usize, Vec<(Row, Row)>) {
    let removes: Vec<Row> = removes.iter().map(|r| Row(*r)).collect();
    let mut action = vec![(Row(77), Row(78))];
    let mut set = FixedBitSet::with_capacity(0);
    let new_len = Table::removes_action(&removes, removes.len(), entity_len, &mut action, &mut set);
    (new_len, action)
}

#[test]
fn rows_and_indices_convert_and_know_their_reserved_value() {
    assert_eq!(Row(5).index(), 5);
    assert_eq!(Row::from(7u32), Row(7));
    assert_eq!(Row::from(9usize), Row(9));
    assert_eq!(Row::null(), Row(u32::MAX));
    assert!(Row::null().is_null());
    assert!(!Row(0).is_null());
    assert_eq!(ArchetypeWorldIndex(3).index(), 3);
    assert_eq!(ArchetypeWorldIndex(-1).index(), usize::MAX);
    assert_eq!(ArchetypeWorldIndex::from(4u32), ArchetypeWorldIndex(4));
    assert_eq!(ArchetypeWorldIndex::from(6usize), ArchetypeWorldIndex(6));
    assert_eq!(ArchetypeWorldIndex::null(), ArchetypeWorldIndex(i32::MIN));
    assert!(ArchetypeWorldIndex::null().is_null());
    assert!(!ArchetypeWorldIndex(0).is_null());
    assert_eq!(ComponentIndex(8).index(), 8);
    assert!(ComponentIndex::null().is_null());
    assert!(!ComponentIndex(8).is_null());
    assert!(Entity::null().is_null());
    assert!(!Entity::new(u32::MAX, 0).is_null());
    assert_eq!(Entity::new(3, 4), Entity { generation: 3, slot: 4 });
    assert!(Row(1) < Row(2));
}

#[test]
fn component_info_says_what_is_tracked() {
    let info = ComponentInfo::create(42, "Speed".to_string(), true, Some(vec![1, 2]), 2, 3);
    assert_eq!(info.type_id(), 42);
    assert_eq!(info.id(), 42);
    assert_eq!(info.name().as_str(), "Speed");
    assert_eq!(info.size(), 2);
    assert!(info.index.is_null());
    assert!(info.needs_drop);
    assert!(info.is_tick());
    assert!(info.is_changed());
    assert_eq!(info.default_vec(), vec![1, 2]);
    let added_only = ComponentInfo::create(1, "X".to_string(), false, None, 3, COMPONENT_ADDED);
    assert!(!added_only.is_tick());
    assert!(!added_only.is_changed());
    assert_eq!(added_only.default_vec(), vec![0, 0, 0]);
    let changed = ComponentInfo::create(
        1,
        "X".to_string(),
        false,
        None,
        0,
        COMPONENT_CHANGED | COMPONENT_REMOVED,
    );
    assert!(!changed.is_tick());
    assert!(changed.is_changed());
    assert_eq!(COMPONENT_TICK, 1);
}

#[test]
fn calc_id_is_the_xor_of_the_ids() {
    let infos = vec![info(0xf0, "A", 0, 1, 0), info(0x3c, "B", 1, 1, 0), info(1u128 << 127, "C", 2, 1, 0)];
    assert_eq!(ComponentInfo::calc_id(&infos), 0xcc | (1u128 << 127));
    assert_eq!(ComponentInfo::calc_id(&Vec::new()), 0);
}

#[test]
fn archetype_info_sorts_by_index() {
    let shared = vec![
        Share::new(info(4, "C", 7, 1, 0)),
        Share::new(info(1, "A", 2, 1, 0)),
        Share::new(info(2, "B", 5, 1, 0)),
    ];
    let sorted = ArchetypeInfo::sort(shared);
    let indices: Vec<u32> = sorted.get_components().iter().map(|c| c.index.0).collect();
    assert_eq!(indices, vec![2, 5, 7]);
    assert_eq!(sorted.get_id(), 7);
    assert_eq!(sorted.name(), "A+B+C");
    let again = ArchetypeInfo::new(vec![
        Share::new(info(1, "A", 2, 1, 0)),
        Share::new(info(2, "B", 5, 1, 0)),
        Share::new(info(4, "C", 7, 1, 0)),
    ]);
    assert_eq!(again.get_hash(), sorted.get_hash());
    let other = ArchetypeInfo::new(vec![Share::new(info(1, "A", 2, 1, 0))]);
    assert_ne!(other.get_hash(), sorted.get_hash());
    assert_eq!(other.name(), "A");
    assert_eq!(ArchetypeInfo::new(Vec::new()).name(), "");
    assert_eq!(ArchetypeInfo::new(Vec::new()).get_id(), 0);
}

#[test]
fn the_logarithm_is_rounded_down() {
    assert_eq!(floor_log2(0), 0);
    assert_eq!(floor_log2(1), 0);
    assert_eq!(floor_log2(2), 1);
    assert_eq!(floor_log2(3), 1);
    assert_eq!(floor_log2(4), 2);
    assert_eq!(floor_log2(1023), 9);
    assert_eq!(floor_log2(1024), 10);
}

#[test]
fn few_removes_are_sparse() {
    assert!(is_sparse(3, 10));
    assert!(!is_sparse(4, 6));
    assert!(is_sparse(1, 2));
    assert!(!is_sparse(2, 4));
    assert!(is_sparse(2, 5));
    assert!(is_sparse(8, 33));
    assert!(!is_sparse(8, 32));
    assert!(!is_sparse(5, 5));
    assert!(!is_sparse(6, 5));
    assert!(!is_sparse(0, 0));
    assert!(is_sparse(0, 1));
}

#[test]
fn removes_action_without_removes_moves_nothing() {
    assert_eq!(plan(&[], 5), (5, vec![]));
    assert_eq!(plan(&[], 0), (0, vec![]));
}

#[test]
fn removes_action_of_one_row_swaps_with_the_tail() {
    assert_eq!(plan(&[2], 5), (4, vec![(Row(4), Row(2))]));
    assert_eq!(plan(&[4], 5), (4, vec![]));
    assert_eq!(plan(&[0], 1), (0, vec![]));
}

#[test]
fn removes_action_of_every_row_empties_the_table() {
    assert_eq!(plan(&[0, 1, 2], 3), (0, vec![]));
    assert_eq!(plan(&[2, 0, 1, 3], 4), (0, vec![]));
}

#[test]
fn removes_action_of_all_rows_but_one_keeps_the_one() {
    assert_eq!(plan(&[0, 1, 2], 4), (1, vec![(Row(3), Row(0))]));
    assert_eq!(plan(&[1, 2, 3], 4), (1, vec![]));
    assert_eq!(plan(&[3, 0, 2], 4), (1, vec![(Row(1), Row(0))]));
}

#[test]
fn removes_action_sparse_pairs_lowest_hole_with_highest_row() {
    assert!(is_sparse(3, 10));
    assert_eq!(plan(&[2, 5, 7], 10), (7, vec![(Row(9), Row(2)), (Row(8), Row(5))]));
    assert_eq!(plan(&[7, 2, 5], 10), (7, vec![(Row(9), Row(2)), (Row(8), Row(5))]));
    assert_eq!(plan(&[9, 8], 10), (8, vec![]));
    assert_eq!(plan(&[0, 9], 10), (8, vec![(Row(8), Row(0))]));
}

#[test]
fn removes_action_dense_pairs_lowest_hole_with_highest_row() {
    assert!(!is_sparse(4, 6));
    assert_eq!(plan(&[0, 2, 3, 5], 6), (2, vec![(Row(4), Row(0))]));
    assert_eq!(plan(&[5, 0, 3, 2], 6), (2, vec![(Row(4), Row(0))]));
    assert_eq!(plan(&[0, 1, 2, 3], 6), (2, vec![(Row(5), Row(0)), (Row(4), Row(1))]));
    assert_eq!(plan(&[2, 3, 4, 5], 6), (2, vec![]));
}

#[test]
fn blob_cells_read_as_zero_until_written() {
    let mut blob = BlobTicks::new();
    assert_eq!(blob.read_row(Row(3), 4), vec![0, 0, 0, 0]);
    assert_eq!(blob.get_tick(Row(3)), Tick(0));
    blob.write_row(Row(3), 4, &vec![1, 2, 3, 4]);
    blob.write_row(Row(100), 4, &vec![9, 9, 9, 9]);
    assert_eq!(blob.read_row(Row(3), 4), vec![1, 2, 3, 4]);
    assert_eq!(blob.read_row(Row(2), 4), vec![0, 0, 0, 0]);
    assert_eq!(blob.read_row(Row(4), 4), vec![0, 0, 0, 0]);
    assert_eq!(blob.read_row(Row(100), 4), vec![9, 9, 9, 9]);
    blob.copy_row(Row(3), Row(0), 4);
    assert_eq!(blob.read_row(Row(0), 4), vec![1, 2, 3, 4]);
    assert_eq!(blob.read_row(Row(3), 4), vec![1, 2, 3, 4]);
    assert_eq!(blob.read_row(Row(7), 0), Vec::<u8>::new());
}

#[test]
fn blob_settle_keeps_the_rows_below_the_length_and_clears_the_rest() {
    let mut blob = BlobTicks::new();
    for row in 0..50u32 {
        blob.write_row(Row(row), 2, &vec![row as u8, 1]);
        blob.set_tick(Row(row), Tick(row + 1));
    }
    blob.settle_cells(40, 4, 2);
    blob.settle_ticks(40, 4);
    assert_eq!(blob.read_row(Row(0), 2), vec![0, 1]);
    assert_eq!(blob.read_row(Row(39), 2), vec![39, 1]);
    assert_eq!(blob.read_row(Row(40), 2), vec![0, 0]);
    assert_eq!(blob.read_row(Row(49), 2), vec![0, 0]);
    assert_eq!(blob.get_tick(Row(39)), Tick(40));
    assert_eq!(blob.get_tick(Row(40)), Tick(0));
    assert_eq!(blob.get_tick(Row(49)), Tick(0));
    blob.write_row(Row(45), 2, &vec![7, 7]);
    assert_eq!(blob.read_row(Row(45), 2), vec![7, 7]);
}

#[test]
fn blob_log_and_released_values_keep_their_order() {
    let mut blob = BlobTicks::new();
    let e = Entity::new(0, 1);
    let f = Entity::new(0, 2);
    blob.record(e, Tick(3));
    blob.record(f, Tick(4));
    assert_eq!(blob.log_len(), 2);
    assert_eq!(blob.log_get(0), (e, Tick(3)));
    assert_eq!(blob.log_get(1), (f, Tick(4)));
    blob.clear_log();
    assert_eq!(blob.log_len(), 0);
    blob.write_row(Row(1), 1, &vec![5]);
    blob.write_row(Row(2), 1, &vec![6]);
    blob.release(Row(2), 1);
    blob.release(Row(1), 1);
    assert_eq!(blob.released_count(), 2);
    assert_eq!(blob.take_released(), vec![vec![6], vec![5]]);
    assert_eq!(blob.released_count(), 0);
}

#[test]
fn a_tick_never_goes_back_under_changed_tick() {
    let mut column = Column::new(info(1, "A", 0, 4, COMPONENT_TICK));
    let e = Entity::new(0, 0);
    let index = ArchetypeWorldIndex(3);
    {
        let mut blob = column.blob_ref(index);
        assert!(blob.needs_drop());
        assert_eq!(blob.get_tick_unchecked(Row(2)), Tick(0));
        blob.changed_tick(e, Row(2), Tick(5));
        assert_eq!(blob.get_tick_unchecked(Row(2)), Tick(5));
        blob.changed_tick(e, Row(2), Tick(3));
        assert_eq!(blob.get_tick_unchecked(Row(2)), Tick(5));
        blob.changed_tick(e, Row(2), Tick(5));
        assert_eq!(blob.get_tick_unchecked(Row(2)), Tick(5));
        blob.changed_tick(e, Row(2), Tick(6));
        assert_eq!(blob.get_tick_unchecked(Row(2)), Tick(6));
        // The tick of an addition is recorded whatever was recorded.
        blob.added_tick(e, Row(2), Tick(2));
        assert_eq!(blob.get_tick_unchecked(Row(2)), Tick(2));
        blob.set_tick_unchecked(Row(1), Tick(9));
        assert_eq!(blob.get_tick_unchecked(Row(1)), Tick(9));
        assert_eq!(blob.get_tick_unchecked(Row(0)), Tick(0));
    }
    assert_eq!(column.slot_count(), 4);
    assert_eq!(column.blob(index).log_len(), 3);
    assert_eq!(column.blob(index).log_get(0), (e, Tick(5)));
    assert_eq!(column.blob(index).log_get(2), (e, Tick(2)));
    assert_eq!(column.blob(ArchetypeWorldIndex(1)).log_len(), 0);
}

#[test]
fn a_column_without_ticks_records_none() {
    let mut column = Column::new(info(1, "A", 0, 4, 0));
    let e = Entity::new(0, 0);
    let index = ArchetypeWorldIndex(0);
    let mut blob = column.blob_ref(index);
    blob.added_tick(e, Row(0), Tick(4));
    blob.changed_tick(e, Row(0), Tick(5));
    assert_eq!(blob.get_tick_unchecked(Row(0)), Tick(0));
    blob.write_row(Row(0), &vec![1, 2, 3, 4]);
    assert_eq!(blob.get_row(Row(0)), vec![1, 2, 3, 4]);
    assert_eq!(blob.load(Row(1)), vec![0, 0, 0, 0]);
    assert_eq!(blob.load(Row(0)), vec![1, 2, 3, 4]);
    blob.drop_row_unchecked(Row(0));
    assert_eq!(column.released_len(index), 1);
    assert_eq!(column.released_len(ArchetypeWorldIndex(5)), 0);
    assert_eq!(column.take_released(index), vec![vec![1, 2, 3, 4]]);
    assert_eq!(column.info().size(), 4);
    assert_eq!(column.share_info().name.as_str(), "A");
    column.clear_log(index);
}

#[test]
fn a_column_moves_initialises_and_drops_cells() {
    let mut column = Column::new(ComponentInfo::create(
        1,
        "A".to_string(),
        true,
        Some(vec![8, 9]),
        2,
        COMPONENT_TICK,
    ));
    let e = Entity::new(0, 0);
    let from = ArchetypeWorldIndex(1);
    let to = ArchetypeWorldIndex(2);
    column.init_blob(to);
    column.init_cell(from, Row(4), e, Tick(3));
    assert_eq!(column.blob(from).read_row(Row(4), 2), vec![8, 9]);
    assert_eq!(column.blob(from).get_tick(Row(4)), Tick(3));
    column.move_row(from, Row(4), to, Row(0), e);
    assert_eq!(column.blob(to).read_row(Row(0), 2), vec![8, 9]);
    assert_eq!(column.blob(to).get_tick(Row(0)), Tick(3));
    assert_eq!(column.blob(to).log_get(0), (e, Tick(3)));
    assert_eq!(column.blob(from).read_row(Row(4), 2), vec![8, 9]);
    column.drop_cell(from, Row(4));
    assert_eq!(column.released_len(from), 1);
    assert_eq!(column.released_len(to), 0);
}

#[test]
fn a_table_reserves_publishes_and_queues_rows() {
    let a = Share::new(info(1, "A", 0, 4, 0));
    let c = Share::new(info(4, "C", 2, 1, 0));
    let mut table = Table::new(vec![a, c]);
    assert!(table.index().is_null());
    assert_eq!(table.len(), Row(0));
    assert_eq!(table.column_count(), 2);
    assert!(table.contains(ComponentIndex(0)));
    assert!(!table.contains(ComponentIndex(1)));
    assert!(table.contains(ComponentIndex(2)));
    assert!(!table.contains(ComponentIndex(3)));
    assert_eq!(table.column_position(ComponentIndex(2)), Some(1));
    assert_eq!(table.column_position(ComponentIndex(1)), None);
    assert!(table.check_room());
    let row = table.alloc_row();
    assert_eq!(row, Row(0));
    assert!(table.get(row).is_null());
    let e = Entity::new(0, 0);
    table.set(row, e);
    assert_eq!(table.get(row), e);
    assert_eq!(table.alloc_row(), Row(1));
    assert_eq!(table.len(), Row(2));
    assert_eq!(table.get_columns()[1].name.as_str(), "C");
}

#[test]
fn flags_join_and_contain() {
    let mut flags = Flags::empty();
    assert!(flags.is_empty());
    assert!(flags.contains(Flags::empty()));
    flags.insert(Flags::of(READ));
    assert!(flags.contains(Flags::of(READ)));
    assert!(!flags.contains(Flags::of(WRITE)));
    flags.insert(Flags::of(WRITE | WITHOUT));
    assert_eq!(flags.bits(), 0b1101);
    assert!(flags.contains(Flags::of(READ | WRITE)));
    assert_eq!(Flags::from_bits_truncate(0xffff_ffff).bits(), 0b1_1111_1111);
    assert_eq!(Flags::of(1 << 20).bits(), 0);
}

#[test]
fn depend_result_merges_flags_and_alters() {
    let mut result = ArchetypeDependResult::new();
    result.merge(ArchetypeDepend::Alter((7, "A".to_string(), Vec::new())));
    assert_eq!(result.alters.len(), 1);
    result.merge(ArchetypeDepend::Flag(Flags::of(READ)));
    assert_eq!(result.flag.bits(), READ);
    result.merge(ArchetypeDepend::Flag(Flags::of(WITHOUT)));
    result.merge(ArchetypeDepend::Alter((8, "B".to_string(), Vec::new())));
    assert_eq!(result.alters.len(), 1);
    assert_eq!(result.alters[0].0, 7);
    assert_eq!(result.flag.bits(), READ | WITHOUT);
    result.clear();
    assert!(result.flag.is_empty());
    assert_eq!(result.alters.len(), 0);
    assert_eq!(result.reads.len(), 0);
    assert_eq!(result.writes.len(), 0);
}

#[test]
fn depend_result_insert_writes_the_archetype_of_exactly_the_components() {
    let mut world = World::new();
    let a = world.add_component_info(ComponentInfo::create(10, "A".to_string(), false, None, 4, 0));
    let b = world.add_component_info(ComponentInfo::create(20, "B".to_string(), false, None, 8, 0));
    let ab = world.archetype_of(&vec![a, b]).unwrap();
    let ar = world.get_archetype(ab).unwrap();
    let mut result = ArchetypeDependResult::new();
    result.insert(ar, &world, vec![info(10, "A", 0, 4, 0)]);
    assert!(result.flag.is_empty());
    assert_eq!(result.writes.len(), 0);
    result.insert(ar, &world, vec![info(20, "B", 1, 8, 0), info(10, "A", 0, 4, 0)]);
    assert_eq!(result.flag.bits(), WRITE);
    assert_eq!(result.writes, vec![b, a]);
}

#[test]
fn a_table_initialises_a_row_with_the_defaults() {
    let mut a = ComponentInfo::create(1, "A".to_string(), true, Some(vec![1, 2, 3, 4]), 4, COMPONENT_TICK);
    a.index = ComponentIndex(0);
    let mut b = ComponentInfo::create(2, "B".to_string(), false, Some(vec![7]), 1, 0);
    b.index = ComponentIndex(1);
    let mut a_column = ComponentInfo::create(1, "A".to_string(), true, Some(vec![1, 2, 3, 4]), 4, COMPONENT_TICK);
    a_column.index = ComponentIndex(0);
    let mut b_column = ComponentInfo::create(2, "B".to_string(), false, Some(vec![7]), 1, 0);
    b_column.index = ComponentIndex(1);
    let mut store = vec![Column::new(a_column), Column::new(b_column)];
    let mut table = Table::new(vec![Share::new(a), Share::new(b)]);
    table.set_index(ArchetypeWorldIndex(0));
    table.init_blobs(&mut store);
    let first = table.alloc_row();
    let second = table.alloc_row();
    let e = Entity::new(0, 0);
    table.init_row(&mut store, second, e, Tick(5));
    table.set(second, e);
    assert_eq!(table.read_column(&store, 0, second), vec![1, 2, 3, 4]);
    assert_eq!(table.read_column(&store, 1, second), vec![7]);
    assert_eq!(table.read_tick(&store, 0, second), Tick(5));
    assert_eq!(table.read_tick(&store, 1, second), Tick(0));
    // The row beside it is as it was.
    assert_eq!(table.read_column(&store, 0, first), vec![0, 0, 0, 0]);
    assert_eq!(table.read_tick(&store, 0, first), Tick(0));
    let index = table.index();
    assert_eq!(store[0].blob(index).log_len(), 1);
    assert_eq!(store[0].blob(index).log_get(0), (e, Tick(5)));
    assert_eq!(store[1].blob(index).log_len(), 0);
    assert_eq!(store[0].released_len(index), 0);
}

#[test]
fn the_metadata_of_a_column_changes_while_no_table_shares_it() {
    let mut column = Column::new(info(1, "A", 0, 4, 0));
    match column.info_mut() {
        Some(meta) => meta.index = ComponentIndex(9),
        None => panic!("nothing shares the metadata yet"),
    }
    assert_eq!(column.info().index, ComponentIndex(9));
    assert_eq!(column.info().name.as_str(), "A");
    let shared = column.share_info();
    assert!(column.info_mut().is_none());
    assert_eq!(shared.index, ComponentIndex(9));
    drop(shared);
    assert!(column.info_mut().is_some());
}
