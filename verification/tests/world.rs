use pi_world::component::{ComponentInfo, COMPONENT_CHANGED, COMPONENT_TICK};
use pi_world::ids::{ArchetypeWorldIndex, ComponentIndex, Entity, Row, Tick};
use pi_world::world::{QueryError, World};

fn plain(world: &mut World, id: u128, name: &str, size: u32) -> ComponentIndex {
    world.add_component_info(ComponentInfo::create(id, name.to_string(), false, None, size, 0))
}

fn ticking(world: &mut World, id: u128, name: &str, size: u32) -> ComponentIndex {
    world.add_component_info(ComponentInfo::create(
        id,
        name.to_string(),
        false,
        None,
        size,
        COMPONENT_TICK | COMPONENT_CHANGED,
    ))
}

fn u32_bytes(v: u32) -> Vec<u8> {
    v.to_le_bytes().to_vec()
}

fn u64_bytes(v: u64) -> Vec<u8> {
    v.to_le_bytes().to_vec()
}

#[test]
fn new_world_has_the_empty_archetype() {
    let world = World::new();
    assert_eq!(world.archetype_len(), 1);
    let ar = world.get_archetype(ArchetypeWorldIndex(0)).unwrap();
    assert!(ar.is_empty_columns());
    assert_eq!(ar.column_len(), 0);
    assert_eq!(*ar.id(), 0);
    assert_eq!(ar.name().as_str(), "");
    assert_eq!(ar.table().len(), Row(0));
    assert_eq!(world.tick(), Tick(1));
}

#[test]
fn registering_a_type_twice_keeps_its_index() {
    let mut world = World::new();
    let a = plain(&mut world, 10, "A", 4);
    let b = plain(&mut world, 20, "B", 8);
    let again = plain(&mut world, 10, "A", 4);
    assert_eq!(a, ComponentIndex(0));
    assert_eq!(b, ComponentIndex(1));
    assert_eq!(again, a);
    assert_eq!(world.get_component_index(20), b);
    assert!(world.get_component_index(30).is_null());
    assert!(world.get_column(ComponentIndex(2)).is_none());
    assert_eq!(world.get_column(b).unwrap().info().size(), 8);
}

#[test]
fn insert_then_get_returns_the_inserted_bytes() {
    let mut world = World::new();
    let a = plain(&mut world, 10, "A", 4);
    let b = plain(&mut world, 20, "B", 8);
    let ab = world.archetype_of(&vec![a, b]).unwrap();
    assert!(world.can_insert(ab));
    let e = world.insert(ab, &vec![u32_bytes(7), u64_bytes(9)]);
    assert_eq!(world.lookup(e), Ok((ab, Row(0))));
    assert_eq!(world.get_component(e, a), Ok(u32_bytes(7)));
    assert_eq!(world.get_component(e, b), Ok(u64_bytes(9)));
    let f = world.insert(ab, &vec![u32_bytes(1), u64_bytes(2)]);
    assert_eq!(world.lookup(f), Ok((ab, Row(1))));
    assert_eq!(world.get_component(e, a), Ok(u32_bytes(7)));
    assert_eq!(world.get_component(f, b), Ok(u64_bytes(2)));
    let table = world.get_archetype(ab).unwrap().table();
    assert_eq!(table.get(Row(0)), e);
    assert_eq!(table.get(Row(1)), f);
}

#[test]
fn set_component_overwrites_and_errors_name_what_is_missing() {
    let mut world = World::new();
    let a = plain(&mut world, 10, "A", 4);
    let b = plain(&mut world, 20, "B", 8);
    let only_a = world.archetype_of(&vec![a]).unwrap();
    let e = world.insert(only_a, &vec![u32_bytes(7)]);
    assert_eq!(world.set_component(e, a, &u32_bytes(8)), Ok(()));
    assert_eq!(world.get_component(e, a), Ok(u32_bytes(8)));
    assert_eq!(world.get_component(e, b), Err(QueryError::MissingComponent));
    assert_eq!(world.set_component(e, b, &u64_bytes(1)), Err(QueryError::MissingComponent));
    let stranger = Entity::new(0, 99);
    assert_eq!(world.get_component(stranger, a), Err(QueryError::NoSuchEntity));
    assert_eq!(world.lookup(stranger), Err(QueryError::NoSuchEntity));
    assert_eq!(world.destroy(stranger), Err(QueryError::NoSuchEntity));
}

#[test]
fn archetype_of_refuses_unsorted_and_unregistered_indices() {
    let mut world = World::new();
    let a = plain(&mut world, 10, "A", 4);
    let b = plain(&mut world, 20, "B", 8);
    assert_eq!(world.archetype_of(&vec![b, a]), None);
    assert_eq!(world.archetype_of(&vec![a, a]), None);
    assert_eq!(world.archetype_of(&vec![ComponentIndex(5)]), None);
    assert_eq!(world.archetype_len(), 1);
    let ab = world.archetype_of(&vec![a, b]).unwrap();
    assert_eq!(ab, ArchetypeWorldIndex(1));
    assert_eq!(world.archetype_of(&vec![a, b]), Some(ab));
    assert_eq!(world.archetype_of(&vec![]), Some(ArchetypeWorldIndex(0)));
    assert_eq!(world.archetype_len(), 2);
}

#[test]
fn archetype_identity_is_the_xor_of_ids_and_the_joined_names() {
    let mut world = World::new();
    let a = plain(&mut world, 0b1100, "A", 4);
    let b = plain(&mut world, 0b1010, "B", 8);
    let c = plain(&mut world, 1u128 << 100, "C", 1);
    let abc = world.archetype_of(&vec![a, b, c]).unwrap();
    let ar = world.get_archetype(abc).unwrap();
    assert_eq!(*ar.id(), 0b0110 | (1u128 << 100));
    assert_eq!(ar.name().as_str(), "A+B+C");
    assert_eq!(ar.index(), abc);
    assert!(ar.ready());
    assert_eq!(ar.column_len(), 3);
    assert!(ar.table().contains(a));
    assert!(ar.table().contains(c));
    let only_b = world.archetype_of(&vec![b]).unwrap();
    let table = world.get_archetype(only_b).unwrap().table();
    assert!(!table.contains(a));
    assert!(table.contains(b));
    assert!(!table.contains(c));
    assert!(!table.contains(ComponentIndex(77)));
}

#[test]
fn destroy_and_compact() {
    let mut world = World::new();
    let a = plain(&mut world, 10, "A", 4);
    let only_a = world.archetype_of(&vec![a]).unwrap();
    let mut entities = Vec::new();
    for i in 0..10u32 {
        entities.push(world.insert(only_a, &vec![u32_bytes(100 + i)]));
    }
    for row in [2usize, 5, 7] {
        assert_eq!(world.destroy(entities[row]), Ok(()));
    }
    {
        let table = world.get_archetype(only_a).unwrap().table();
        assert_eq!(table.len(), Row(10));
        for row in [2u32, 5, 7] {
            assert!(table.get(Row(row)).is_null());
        }
        assert_eq!(table.get_removes(), &vec![Row(2), Row(5), Row(7)]);
    }
    world.settle();
    let table = world.get_archetype(only_a).unwrap().table();
    assert_eq!(table.len(), Row(7));
    assert_eq!(table.get_removes().len(), 0);
    // The holes below the new length are filled from the tail: the lowest
    // hole by the highest row that stays.
    assert_eq!(table.get(Row(2)), entities[9]);
    assert_eq!(table.get(Row(5)), entities[8]);
    for row in [0usize, 1, 3, 4, 6] {
        assert_eq!(table.get(Row(row as u32)), entities[row]);
    }
    for row in 0..7u32 {
        assert!(!table.get(Row(row)).is_null());
    }
    assert_eq!(world.lookup(entities[9]), Ok((only_a, Row(2))));
    assert_eq!(world.lookup(entities[8]), Ok((only_a, Row(5))));
    assert_eq!(world.lookup(entities[6]), Ok((only_a, Row(6))));
    assert_eq!(world.get_component(entities[9], a), Ok(u32_bytes(109)));
    assert_eq!(world.get_component(entities[8], a), Ok(u32_bytes(108)));
    assert_eq!(world.get_component(entities[0], a), Ok(u32_bytes(100)));
    for row in [2usize, 5, 7] {
        assert_eq!(world.lookup(entities[row]), Err(QueryError::NoSuchEntity));
    }
}

#[test]
fn settle_without_removes_changes_nothing() {
    let mut world = World::new();
    let a = plain(&mut world, 10, "A", 4);
    let only_a = world.archetype_of(&vec![a]).unwrap();
    let e = world.insert(only_a, &vec![u32_bytes(1)]);
    let f = world.insert(only_a, &vec![u32_bytes(2)]);
    world.destroy(e).unwrap();
    world.settle();
    assert_eq!(world.lookup(f), Ok((only_a, Row(0))));
    world.settle();
    assert_eq!(world.lookup(f), Ok((only_a, Row(0))));
    assert_eq!(world.get_component(f, a), Ok(u32_bytes(2)));
    assert_eq!(world.get_archetype(only_a).unwrap().table().len(), Row(1));
}

#[test]
fn a_freed_slot_is_used_again_with_a_new_generation() {
    let mut world = World::new();
    let a = plain(&mut world, 10, "A", 4);
    let only_a = world.archetype_of(&vec![a]).unwrap();
    let e = world.insert(only_a, &vec![u32_bytes(1)]);
    world.destroy(e).unwrap();
    let f = world.insert(only_a, &vec![u32_bytes(2)]);
    assert_eq!(f.slot, e.slot);
    assert_eq!(f.generation, e.generation + 1);
    assert_eq!(world.lookup(e), Err(QueryError::NoSuchEntity));
    assert_eq!(world.lookup(f), Ok((only_a, Row(1))));
}

#[test]
fn alter_moves_columns() {
    let mut world = World::new();
    let a = world.add_component_info(ComponentInfo::create(10, "A".to_string(), true, None, 4, 0));
    let b = world.add_component_info(ComponentInfo::create(20, "B".to_string(), true, None, 8, 0));
    let c = world.add_component_info(ComponentInfo::create(
        30,
        "C".to_string(),
        true,
        Some(vec![5, 6]),
        2,
        0,
    ));
    let ab = world.archetype_of(&vec![a, b]).unwrap();
    let e = world.insert(ab, &vec![u32_bytes(7), u64_bytes(9)]);
    assert!(world.is_roomy());
    let moved = world.alter(e, &[(c, true)]).unwrap();
    let abc = moved.0;
    assert_eq!(moved.1, Row(0));
    assert_eq!(world.lookup(e), Ok((abc, Row(0))));
    let ar = world.get_archetype(abc).unwrap();
    assert_eq!(ar.name().as_str(), "A+B+C");
    assert_eq!(*ar.id(), 10 ^ 20 ^ 30);
    assert!(world.get_archetype(ab).unwrap().table().get(Row(0)).is_null());
    assert_eq!(world.get_archetype(ab).unwrap().table().get_removes(), &vec![Row(0)]);
    assert_eq!(world.get_component(e, a), Ok(u32_bytes(7)));
    assert_eq!(world.get_component(e, b), Ok(u64_bytes(9)));
    assert_eq!(world.get_component(e, c), Ok(vec![5, 6]));
    for component in [a, b, c] {
        assert_eq!(world.released_len(component, ab), 0);
        assert_eq!(world.released_len(component, abc), 0);
    }
}

#[test]
fn alter_remove_releases_the_value_once() {
    let mut world = World::new();
    let a = world.add_component_info(ComponentInfo::create(10, "A".to_string(), true, None, 4, 0));
    let b = world.add_component_info(ComponentInfo::create(20, "B".to_string(), false, None, 8, 0));
    let ab = world.archetype_of(&vec![a, b]).unwrap();
    let e = world.insert(ab, &vec![u32_bytes(7), u64_bytes(9)]);
    let moved = world.alter(e, &[(a, false)]).unwrap();
    let only_b = moved.0;
    assert_eq!(world.get_component(e, a), Err(QueryError::MissingComponent));
    assert_eq!(world.get_component(e, b), Ok(u64_bytes(9)));
    assert_eq!(world.released_len(a, ab), 1);
    assert_eq!(world.released_len(b, ab), 0);
    assert_eq!(world.take_released(a, ab), vec![u32_bytes(7)]);
    assert_eq!(world.released_len(a, ab), 0);
    assert_eq!(world.lookup(e), Ok((only_b, Row(0))));
}

#[test]
fn alter_add_and_remove_of_one_type_keeps_the_components() {
    let mut world = World::new();
    let a = plain(&mut world, 10, "A", 4);
    let c = plain(&mut world, 30, "C", 2);
    let only_a = world.archetype_of(&vec![a]).unwrap();
    let ac = world.archetype_of(&vec![a, c]).unwrap();
    // The entity has the type: nothing changes.
    let e = world.insert(ac, &vec![u32_bytes(7), vec![1, 2]]);
    assert_eq!(world.alter(e, &[(c, true), (c, false)]), Ok((ac, Row(0))));
    assert_eq!(world.get_component(e, a), Ok(u32_bytes(7)));
    assert_eq!(world.get_component(e, c), Ok(vec![1, 2]));
    // The entity lacks the type: it gains it, zeroed for want of a default.
    let f = world.insert(only_a, &vec![u32_bytes(8)]);
    assert_eq!(world.alter(f, &[(c, true), (c, false)]), Ok((ac, Row(1))));
    assert_eq!(world.get_component(f, a), Ok(u32_bytes(8)));
    assert_eq!(world.get_component(f, c), Ok(vec![0, 0]));
    assert_eq!(world.alter(Entity::new(3, 3), &[(c, true)]), Err(QueryError::NoSuchEntity));
}

#[test]
fn destroy_then_settle_then_lookup_finds_nothing() {
    let mut world = World::new();
    let a = world.add_component_info(ComponentInfo::create(10, "A".to_string(), true, None, 4, 0));
    let only_a = world.archetype_of(&vec![a]).unwrap();
    let e = world.insert(only_a, &vec![u32_bytes(7)]);
    assert_eq!(world.destroy(e), Ok(()));
    assert_eq!(world.released_len(a, only_a), 1);
    assert_eq!(world.destroy(e), Err(QueryError::NoSuchEntity));
    assert_eq!(world.released_len(a, only_a), 1);
    world.settle();
    assert_eq!(world.lookup(e), Err(QueryError::NoSuchEntity));
    assert_eq!(world.get_archetype(only_a).unwrap().table().len(), Row(0));
}

#[test]
fn zero_sized_components_behave_as_sized_ones() {
    let mut world = World::new();
    let marker = world.add_component_info(ComponentInfo::create(
        1,
        "Marker".to_string(),
        true,
        None,
        0,
        COMPONENT_TICK,
    ));
    let a = plain(&mut world, 10, "A", 4);
    let only_a = world.archetype_of(&vec![a]).unwrap();
    let e = world.insert(only_a, &vec![u32_bytes(7)]);
    let moved = world.alter(e, &[(marker, true)]).unwrap();
    assert_eq!(world.get_component(e, marker), Ok(vec![]));
    assert_eq!(world.get_component(e, a), Ok(u32_bytes(7)));
    assert_eq!(world.set_component(e, marker, &vec![]), Ok(()));
    let f = world.insert(moved.0, &vec![vec![], u32_bytes(8)]);
    assert_eq!(world.get_component(f, marker), Ok(vec![]));
    assert_eq!(world.destroy(e), Ok(()));
    assert_eq!(world.released_len(marker, moved.0), 1);
    world.settle();
    assert_eq!(world.lookup(f), Ok((moved.0, Row(0))));
    assert_eq!(world.get_component(f, a), Ok(u32_bytes(8)));
}

#[test]
fn an_archetype_without_components_keeps_one_row_per_entity() {
    let mut world = World::new();
    let empty = ArchetypeWorldIndex(0);
    let e = world.insert(empty, &vec![]);
    let f = world.insert(empty, &vec![]);
    let table = world.get_archetype(empty).unwrap().table();
    assert_eq!(table.len(), Row(2));
    assert_eq!(table.get(Row(0)), e);
    assert_eq!(table.get(Row(1)), f);
    assert_eq!(table.get_columns().len(), 0);
    world.destroy(e).unwrap();
    world.settle();
    assert_eq!(world.lookup(f), Ok((empty, Row(0))));
}

#[test]
fn values_stay_where_they_are_while_the_store_grows() {
    let mut world = World::new();
    let a = plain(&mut world, 10, "A", 4);
    let only_a = world.archetype_of(&vec![a]).unwrap();
    let first = world.insert(only_a, &vec![u32_bytes(4242)]);
    let mut last = first;
    for i in 0..2000u32 {
        last = world.insert(only_a, &vec![u32_bytes(i)]);
    }
    assert_eq!(world.get_component(first, a), Ok(u32_bytes(4242)));
    assert_eq!(world.get_component(last, a), Ok(u32_bytes(1999)));
    assert_eq!(world.lookup(last), Ok((only_a, Row(2000))));
}

#[test]
fn ticks_start_at_zero_and_never_go_back() {
    let mut world = World::new();
    let a = ticking(&mut world, 10, "A", 4);
    let b = plain(&mut world, 20, "B", 4);
    let ab = world.archetype_of(&vec![a, b]).unwrap();
    let e = world.insert(ab, &vec![u32_bytes(1), u32_bytes(2)]);
    // The ticking column records the tick of the insertion, the other none.
    assert_eq!(world.get_tick(e, a), Ok(Tick(1)));
    assert_eq!(world.get_tick(e, b), Ok(Tick(0)));
    for _ in 0..4 {
        world.increment_tick();
    }
    assert_eq!(world.tick(), Tick(5));
    world.set_component(e, a, &u32_bytes(3)).unwrap();
    world.set_component(e, b, &u32_bytes(4)).unwrap();
    assert_eq!(world.get_tick(e, a), Ok(Tick(5)));
    assert_eq!(world.get_tick(e, b), Ok(Tick(0)));
    world.set_component(e, a, &u32_bytes(5)).unwrap();
    assert_eq!(world.get_tick(e, a), Ok(Tick(5)));
    assert_eq!(world.get_tick(Entity::new(9, 9), a), Err(QueryError::NoSuchEntity));
}

#[test]
fn the_tick_skips_the_reserved_value() {
    let mut world = World::new();
    assert_eq!(world.increment_tick(), Tick(2));
    assert_eq!(world.increment_tick(), Tick(3));
    assert!(Tick::null().is_null());
    assert!(!Tick(3).is_null());
}

#[test]
fn an_insertion_needs_a_known_archetype() {
    let mut world = World::new();
    let a = plain(&mut world, 10, "A", 4);
    let only_a = world.archetype_of(&vec![a]).unwrap();
    assert!(world.can_insert(only_a));
    assert!(world.can_insert(ArchetypeWorldIndex(0)));
    assert!(!world.can_insert(ArchetypeWorldIndex(2)));
    assert!(!world.can_insert(ArchetypeWorldIndex(-1)));
    assert!(!world.can_insert(ArchetypeWorldIndex::null()));
    assert!(world.is_roomy());
    assert!(world.get_archetype(ArchetypeWorldIndex(2)).is_none());
    assert!(world.get_archetype(ArchetypeWorldIndex(-1)).is_none());
    assert_eq!(world.archetype_at(1).index(), only_a);
    assert_eq!(world.get_columns().len(), 1);
}

#[test]
fn a_type_too_wide_for_a_blob_leaves_no_room() {
    let mut world = World::new();
    let wide = plain(&mut world, 10, "Wide", u32::MAX);
    assert!(!world.is_roomy());
    let only_wide = world.archetype_of(&vec![wide]).unwrap();
    assert!(!world.can_insert(only_wide));
}

#[test]
fn a_world_releases_what_it_still_holds() {
    let mut world = World::new();
    let a = world.add_component_info(ComponentInfo::create(10, "A".to_string(), true, None, 4, 0));
    let b = plain(&mut world, 20, "B", 8);
    let ab = world.archetype_of(&vec![a, b]).unwrap();
    let only_a = world.archetype_of(&vec![a]).unwrap();
    let e = world.insert(ab, &vec![u32_bytes(1), u64_bytes(10)]);
    let _f = world.insert(ab, &vec![u32_bytes(2), u64_bytes(20)]);
    let _g = world.insert(ab, &vec![u32_bytes(3), u64_bytes(30)]);
    let _h = world.insert(only_a, &vec![u32_bytes(4)]);
    world.destroy(e).unwrap();
    assert_eq!(world.take_released(a, ab), vec![u32_bytes(1)]);
    world.release_all();
    // The removed row is passed over; the type without a destructor
    // releases nothing.
    assert_eq!(world.take_released(a, ab), vec![u32_bytes(2), u32_bytes(3)]);
    assert_eq!(world.take_released(a, only_a), vec![u32_bytes(4)]);
    assert_eq!(world.released_len(b, ab), 0);
    assert_eq!(world.take_released(ComponentIndex(9), ab), Vec::<Vec<u8>>::new());
}

#[test]
fn an_entity_leaves_the_archetype_without_components_like_any_other() {
    let mut world = World::new();
    let a = plain(&mut world, 10, "A", 4);
    let empty = ArchetypeWorldIndex(0);
    let e = world.insert(empty, &vec![]);
    let f = world.insert(empty, &vec![]);
    let moved = world.alter(e, &[(a, true)]).unwrap();
    assert_eq!(world.lookup(e), Ok(moved));
    let table = world.get_archetype(empty).unwrap().table();
    assert!(table.get(Row(0)).is_null());
    assert_eq!(table.get(Row(1)), f);
    assert_eq!(table.get_removes(), &vec![Row(0)]);
    world.settle();
    let table = world.get_archetype(empty).unwrap().table();
    assert_eq!(table.len(), Row(1));
    assert_eq!(table.get(Row(0)), f);
    assert_eq!(world.lookup(f), Ok((empty, Row(0))));
    assert_eq!(world.lookup(e), Ok(moved));
}

#[test]
fn settle_leaves_a_table_without_removes_alone_after_one_with_removes() {
    let mut world = World::new();
    let a = plain(&mut world, 10, "A", 4);
    let b = plain(&mut world, 20, "B", 8);
    let only_a = world.archetype_of(&vec![a]).unwrap();
    let only_b = world.archetype_of(&vec![b]).unwrap();
    let mut in_a = Vec::new();
    let mut in_b = Vec::new();
    for i in 0..4u32 {
        in_a.push(world.insert(only_a, &vec![u32_bytes(i)]));
        in_b.push(world.insert(only_b, &vec![u64_bytes(100 + i as u64)]));
    }
    world.destroy(in_a[0]).unwrap();
    world.settle();
    assert_eq!(world.lookup(in_a[3]), Ok((only_a, Row(0))));
    for i in 0..4usize {
        assert_eq!(world.lookup(in_b[i]), Ok((only_b, Row(i as u32))));
        assert_eq!(world.get_component(in_b[i], b), Ok(u64_bytes(100 + i as u64)));
    }
    let table = world.get_archetype(only_b).unwrap().table();
    assert_eq!(table.len(), Row(4));
    assert_eq!(table.get(Row(0)), in_b[0]);
}

#[test]
fn adding_a_type_that_the_entity_lacks_changes_the_id_by_the_id_of_the_type() {
    let mut world = World::new();
    let a = plain(&mut world, 0b0110, "A", 4);
    let c = world.add_component_info(ComponentInfo::create(0b1010, "C".to_string(), false, Some(vec![7]), 1, 0));
    let only_a = world.archetype_of(&vec![a]).unwrap();
    let e = world.insert(only_a, &vec![u32_bytes(5)]);
    let moved = world.alter(e, &[(c, true), (c, false)]).unwrap();
    assert_ne!(moved.0, only_a);
    assert_eq!(*world.get_archetype(only_a).unwrap().id(), 0b0110);
    assert_eq!(*world.get_archetype(moved.0).unwrap().id(), 0b0110 ^ 0b1010);
    assert_eq!(world.get_component(e, a), Ok(u32_bytes(5)));
    assert_eq!(world.get_component(e, c), Ok(vec![7]));
}
