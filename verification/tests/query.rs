use pi_world::component::{ComponentInfo, COMPONENT_CHANGED, COMPONENT_TICK};
use pi_world::fetch::{EntityFetch, FetchComponents, Has, Ref, RefMut};
use pi_world::filter::{Added, Changed, FilterComponents, Or, ReadWrite, With, Without};
use pi_world::ids::{ArchetypeWorldIndex, ComponentIndex, Entity, Row, Tick};
use pi_world::query::{Query, QueryState, SystemMeta};
use pi_world::world::{QueryError, World};

fn plain(world: &mut World, id: u128, name: &str, size: u32) -> ComponentIndex {
    world.add_component_info(ComponentInfo::create(id, name.to_string(), false, None, size, 0))
}

fn ticking(world: &mut World, id: u128, name: &str, size: u32) -> ComponentIndex {
    world.add_component_info(ComponentInfo::create(
        id,
        name.to_string(),
        false,
        Some(vec![0; size as usize]),
        size,
        COMPONENT_TICK | COMPONENT_CHANGED,
    ))
}

fn u32_bytes(v: u32) -> Vec<u8> {
    v.to_le_bytes().to_vec()
}

fn u64_bytes(v: u64) -> Vec<u8> {
    v.to_le_bytes().to_vec()
}

fn entities_of<F: FilterComponents>(
    state: &QueryState<EntityFetch, F>,
    world: &World,
    tick: Tick,
) -> Vec<Entity> {
    let mut iter = state.iter(world, tick);
    let mut out = Vec::new();
    while let Some(e) = iter.next() {
        out.push(e);
    }
    out
}

#[test]
fn insert_and_query() {
    let mut world = World::new();
    let a = plain(&mut world, 10, "A", 4);
    let b = plain(&mut world, 20, "B", 8);
    let ab = world.archetype_of(&vec![a, b]).unwrap();
    let only_a = world.archetype_of(&vec![a]).unwrap();
    for i in 0..3u32 {
        world.insert(ab, &vec![u32_bytes(i), u64_bytes(10 + i as u64)]);
    }
    for i in 0..2u32 {
        world.insert(only_a, &vec![u32_bytes(100 + i)]);
    }
    world.increment_tick();
    let mut meta = SystemMeta::new();
    let mut reads_a = QueryState::init_state(Ref(a), (), &mut world, &mut meta);
    reads_a.align(&world, &mut meta);
    assert_eq!(reads_a.len(&world), 5);
    assert!(!reads_a.is_empty(&world));
    let mut iter = reads_a.iter(&world, world.tick());
    let mut values = Vec::new();
    while let Some(bytes) = iter.next() {
        values.push(bytes);
    }
    // The archetype matched last comes first; within it the rows ascend.
    assert_eq!(
        values,
        vec![u32_bytes(100), u32_bytes(101), u32_bytes(0), u32_bytes(1), u32_bytes(2)]
    );
    let mut reads_both = QueryState::init_state((Ref(a), Ref(b)), (), &mut world, &mut meta);
    reads_both.align(&world, &mut meta);
    let mut iter = reads_both.iter(&world, world.tick());
    let mut pairs = Vec::new();
    while let Some(pair) = iter.next() {
        pairs.push(pair);
    }
    assert_eq!(
        pairs,
        vec![
            (u32_bytes(0), u64_bytes(10)),
            (u32_bytes(1), u64_bytes(11)),
            (u32_bytes(2), u64_bytes(12)),
        ]
    );
    assert!(iter.next().is_none());
}

#[test]
fn next_row_names_archetype_row_and_entity() {
    let mut world = World::new();
    let a = plain(&mut world, 10, "A", 4);
    let only_a = world.archetype_of(&vec![a]).unwrap();
    let e = world.insert(only_a, &vec![u32_bytes(1)]);
    let f = world.insert(only_a, &vec![u32_bytes(2)]);
    world.destroy(e).unwrap();
    world.increment_tick();
    let mut meta = SystemMeta::new();
    let mut state = QueryState::init_state(EntityFetch, (), &mut world, &mut meta);
    state.align(&world, &mut meta);
    let mut iter = state.iter(&world, world.tick());
    // The empty archetype and the one of `A` are matched; the removed row
    // is passed over.
    assert_eq!(iter.next_row(), Some((1, Row(1), f)));
    assert_eq!(iter.next_row(), None);
    assert_eq!(iter.next_row(), None);
}

#[test]
fn filters_accept_and_reject_archetypes() {
    let mut world = World::new();
    let a = plain(&mut world, 10, "A", 4);
    let b = plain(&mut world, 20, "B", 8);
    let c = plain(&mut world, 30, "C", 1);
    let only_a = world.archetype_of(&vec![a]).unwrap();
    let ab = world.archetype_of(&vec![a, b]).unwrap();
    let bc = world.archetype_of(&vec![b, c]).unwrap();
    let ar_a = world.get_archetype(only_a).unwrap();
    let ar_ab = world.get_archetype(ab).unwrap();
    let ar_bc = world.get_archetype(bc).unwrap();
    assert!(Without(b).archetype_filter(ar_ab));
    assert!(!Without(b).archetype_filter(ar_a));
    assert!(With(b).archetype_filter(ar_a));
    assert!(!With(b).archetype_filter(ar_ab));
    assert!(!Added(a).archetype_filter(ar_bc));
    assert!(!Changed(a).archetype_filter(ar_bc));
    assert!(!FilterComponents::archetype_filter(&(), ar_bc));
    // One of the two is enough for an `Or`.
    assert!(!Or((With(a), With(c))).archetype_filter(ar_a));
    assert!(!Or((With(a), With(c))).archetype_filter(ar_bc));
    assert!(Or((With(c), With(c))).archetype_filter(ar_ab));
    // Either of the two rejects for a pair.
    assert!((With(a), Without(b)).archetype_filter(ar_ab));
    assert!((With(a), Without(b)).archetype_filter(ar_bc));
    assert!(!(With(a), Without(b)).archetype_filter(ar_a));
}

#[test]
fn declarations_list_reads_writes_withouts_and_listeners() {
    let a = ComponentIndex(0);
    let b = ComponentIndex(1);
    let c = ComponentIndex(2);
    let mut rw = ReadWrite::new();
    (Ref(a), RefMut(b)).init_read_write(&mut rw);
    ((Without(c), With(a)), (Changed(a), Added(b))).init_read_write(&mut rw);
    Some(Ref(c)).init_read_write(&mut rw);
    Has(c).init_read_write(&mut rw);
    EntityFetch.init_read_write(&mut rw);
    assert_eq!(rw.reads, vec![a, c]);
    assert_eq!(rw.writes, vec![b]);
    assert_eq!(rw.withouts, vec![c]);
    assert_eq!(rw.listeners, vec![(a, true), (b, false)]);
    let mut meta = SystemMeta::new();
    assert_eq!(meta.add_rw(rw), 0);
    assert_eq!(meta.get_rw(0).writes, vec![b]);
}

#[test]
fn get_fetches_of_matched_archetypes_only() {
    let mut world = World::new();
    let a = plain(&mut world, 10, "A", 4);
    let b = plain(&mut world, 20, "B", 8);
    let only_a = world.archetype_of(&vec![a]).unwrap();
    let only_b = world.archetype_of(&vec![b]).unwrap();
    let e = world.insert(only_a, &vec![u32_bytes(7)]);
    let f = world.insert(only_b, &vec![u64_bytes(9)]);
    let mut meta = SystemMeta::new();
    let mut state = QueryState::init_state((Ref(a), (Has(b), Some(Ref(b)))), (), &mut world, &mut meta);
    state.align(&world, &mut meta);
    let tick = world.tick();
    assert_eq!(state.get(&world, e, tick), Ok((u32_bytes(7), (false, None))));
    assert_eq!(state.get(&world, f, tick), Err(QueryError::NoSuchArchetype));
    assert_eq!(state.get(&world, Entity::new(0, 50), tick), Err(QueryError::NoSuchEntity));
    let mut optional = QueryState::init_state((Has(a), Some(Ref(b))), (), &mut world, &mut meta);
    optional.align(&world, &mut meta);
    assert_eq!(optional.get(&world, f, tick), Ok((false, Some(u64_bytes(9)))));
    assert_eq!(optional.get(&world, e, tick), Ok((true, None)));
    let mut query = Query::new(&world, &mut state, tick);
    assert_eq!(query.tick(), tick);
    assert!(!query.is_empty());
    assert_eq!(query.get(e), Ok((u32_bytes(7), (false, None))));
    assert_eq!(query.get(f), Err(QueryError::NoSuchArchetype));
}

#[test]
fn a_write_through_a_fetched_component_is_stored_back() {
    let mut world = World::new();
    let a = ticking(&mut world, 10, "A", 4);
    let only_a = world.archetype_of(&vec![a]).unwrap();
    let e = world.insert(only_a, &vec![u32_bytes(7)]);
    let mut meta = SystemMeta::new();
    let mut state = QueryState::init_state(RefMut(a), (), &mut world, &mut meta);
    state.align(&world, &mut meta);
    world.increment_tick();
    let mut item = state.get(&world, e, world.tick()).unwrap();
    assert_eq!(item.value, u32_bytes(7));
    assert_eq!(item.row, Row(0));
    assert_eq!(item.archetype, only_a);
    item.value = u32_bytes(8);
    assert_eq!(item.store(&mut world), Ok(()));
    assert_eq!(world.get_component(e, a), Ok(u32_bytes(8)));
    assert_eq!(world.get_tick(e, a), Ok(Tick(2)));
}

#[test]
fn align_matches_archetypes_as_they_appear() {
    let mut world = World::new();
    let a = plain(&mut world, 10, "A", 4);
    let b = plain(&mut world, 20, "B", 8);
    let mut meta = SystemMeta::new();
    let mut state = QueryState::init_state(Ref(a), Without(b), &mut world, &mut meta);
    state.align(&world, &mut meta);
    assert!(state.is_empty(&world));
    assert_eq!(state.len(&world), 0);
    let only_a = world.archetype_of(&vec![a]).unwrap();
    let ab = world.archetype_of(&vec![a, b]).unwrap();
    let e = world.insert(only_a, &vec![u32_bytes(7)]);
    let f = world.insert(ab, &vec![u32_bytes(8), u64_bytes(9)]);
    state.align(&world, &mut meta);
    state.align(&world, &mut meta);
    assert_eq!(state.len(&world), 1);
    assert_eq!(meta.get_touched(), &vec![(0, only_a)]);
    let tick = world.tick();
    assert_eq!(state.get(&world, e, tick), Ok(u32_bytes(7)));
    assert_eq!(state.get(&world, f, tick), Err(QueryError::NoSuchArchetype));
}

#[test]
fn delete_is_applied_at_the_end_of_the_run() {
    let mut world = World::new();
    let a = plain(&mut world, 10, "A", 4);
    let only_a = world.archetype_of(&vec![a]).unwrap();
    let e = world.insert(only_a, &vec![u32_bytes(7)]);
    let f = world.insert(only_a, &vec![u32_bytes(8)]);
    let mut meta = SystemMeta::new();
    let mut state = QueryState::init_state(EntityFetch, With(a), &mut world, &mut meta);
    state.align(&world, &mut meta);
    assert_eq!(state.delete(&world, e), Ok(true));
    assert_eq!(state.delete(&world, e), Ok(false));
    assert!(state.is_marked(e));
    assert!(!state.is_marked(f));
    assert_eq!(state.delete(&world, Entity::new(0, 40)), Err(QueryError::NoSuchEntity));
    {
        let mut query = Query::new(&world, &mut state, Tick(1));
        assert_eq!(query.delete(e), Ok(false));
        assert_eq!(query.delete(f), Ok(true));
    }
    assert_eq!(world.lookup(e), Ok((only_a, Row(0))));
    state.clear(&mut world, Tick(1));
    assert_eq!(world.lookup(e), Err(QueryError::NoSuchEntity));
    assert_eq!(world.lookup(f), Err(QueryError::NoSuchEntity));
    assert!(!state.is_marked(e));
    assert_eq!(entities_of(&state, &world, Tick(2)), Vec::<Entity>::new());
}

#[test]
fn change_detection() {
    let mut world = World::new();
    let a = ticking(&mut world, 10, "A", 4);
    let only_a = world.archetype_of(&vec![a]).unwrap();
    let e1 = world.insert(only_a, &vec![u32_bytes(1)]);
    let e2 = world.insert(only_a, &vec![u32_bytes(2)]);
    let e3 = world.insert(only_a, &vec![u32_bytes(3)]);
    let mut meta = SystemMeta::new();
    let mut state = QueryState::init_state(EntityFetch, Changed(a), &mut world, &mut meta);
    state.align(&world, &mut meta);
    // A first run sees what was added before it.
    world.increment_tick();
    assert_eq!(entities_of(&state, &world, world.tick()), vec![e1, e2, e3]);
    state.clear(&mut world, Tick(2));
    while world.tick() != Tick(5) {
        world.increment_tick();
    }
    world.set_component(e1, a, &u32_bytes(10)).unwrap();
    world.set_component(e2, a, &u32_bytes(20)).unwrap();
    world.increment_tick();
    assert_eq!(entities_of(&state, &world, Tick(6)), vec![e1, e2]);
    state.clear(&mut world, Tick(6));
    world.increment_tick();
    assert_eq!(entities_of(&state, &world, Tick(7)), Vec::<Entity>::new());
    // A write of the run itself is not seen by the run.
    world.set_component(e3, a, &u32_bytes(30)).unwrap();
    assert_eq!(entities_of(&state, &world, Tick(7)), Vec::<Entity>::new());
    // The next run sees it, and the one after does not see it again.
    state.clear(&mut world, Tick(7));
    world.increment_tick();
    assert_eq!(entities_of(&state, &world, Tick(8)), vec![e3]);
    state.clear(&mut world, Tick(8));
    world.increment_tick();
    assert_eq!(entities_of(&state, &world, Tick(9)), Vec::<Entity>::new());
}

#[test]
fn a_change_is_seen_after_compaction_moved_the_row() {
    let mut world = World::new();
    let a = ticking(&mut world, 10, "A", 4);
    let only_a = world.archetype_of(&vec![a]).unwrap();
    let e1 = world.insert(only_a, &vec![u32_bytes(1)]);
    let e2 = world.insert(only_a, &vec![u32_bytes(2)]);
    let mut meta = SystemMeta::new();
    let mut state = QueryState::init_state(EntityFetch, Changed(a), &mut world, &mut meta);
    state.align(&world, &mut meta);
    world.increment_tick();
    state.clear(&mut world, Tick(2));
    world.increment_tick();
    world.set_component(e2, a, &u32_bytes(20)).unwrap();
    world.destroy(e1).unwrap();
    world.settle();
    assert_eq!(world.lookup(e2), Ok((only_a, Row(0))));
    assert_eq!(world.get_tick(e2, a), Ok(Tick(3)));
    world.increment_tick();
    assert_eq!(entities_of(&state, &world, Tick(4)), vec![e2]);
}

#[test]
fn several_listeners_yield_a_row_once() {
    let mut world = World::new();
    let a = ticking(&mut world, 10, "A", 4);
    let b = ticking(&mut world, 20, "B", 4);
    let ab = world.archetype_of(&vec![a, b]).unwrap();
    let only_b = world.archetype_of(&vec![b]).unwrap();
    let e = world.insert(ab, &vec![u32_bytes(1), u32_bytes(2)]);
    let f = world.insert(ab, &vec![u32_bytes(3), u32_bytes(4)]);
    let g = world.insert(only_b, &vec![u32_bytes(5)]);
    let mut meta = SystemMeta::new();
    let mut state = QueryState::init_state(EntityFetch, (Changed(a), Added(b)), &mut world, &mut meta);
    state.align(&world, &mut meta);
    world.increment_tick();
    // Both components of `e` and `f` were added; each is yielded once.
    assert_eq!(entities_of(&state, &world, Tick(2)), vec![g, e, f]);
    state.clear(&mut world, Tick(2));
    world.increment_tick();
    world.set_component(f, b, &u32_bytes(40)).unwrap();
    world.set_component(f, a, &u32_bytes(30)).unwrap();
    world.increment_tick();
    assert_eq!(entities_of(&state, &world, Tick(4)), vec![f]);
}

#[test]
fn archetype_event_ordering() {
    let mut world = World::new();
    let a = ticking(&mut world, 10, "A", 4);
    let b = plain(&mut world, 20, "B", 8);
    let only_b = world.archetype_of(&vec![b]).unwrap();
    let e = world.insert(only_b, &vec![u64_bytes(9)]);
    let mut meta = SystemMeta::new();
    let mut state = QueryState::init_state(EntityFetch, Changed(a), &mut world, &mut meta);
    state.align(&world, &mut meta);
    world.increment_tick();
    assert_eq!(entities_of(&state, &world, Tick(2)), Vec::<Entity>::new());
    state.clear(&mut world, Tick(2));
    // The alter creates the archetype of `A` and `B`; the tick of the
    // addition is recorded in a log that is there from the start.
    let moved = world.alter(e, &[(a, true)]).unwrap();
    assert_eq!(moved.0, ArchetypeWorldIndex(2));
    assert_eq!(world.get_tick(e, a), Ok(Tick(2)));
    // The new archetype holds the listener's slot before any query has
    // seen it; the archetype without `A` holds none.
    let created = world.get_archetype(moved.0).unwrap();
    assert_eq!(created.record_len(), 1);
    let record = created.get_record(0);
    assert_eq!((record.key, record.slot, record.changed), (0, 0, true));
    assert_eq!(world.get_archetype(only_b).unwrap().record_len(), 0);
    state.align(&world, &mut meta);
    world.increment_tick();
    assert_eq!(entities_of(&state, &world, Tick(3)), vec![e]);
    assert_eq!(world.get_component(e, b), Ok(u64_bytes(9)));
    assert_eq!(world.get_component(e, a), Ok(u32_bytes(0)));
}

#[test]
fn a_row_taken_in_the_run_is_not_yielded_by_the_run() {
    let mut world = World::new();
    let a = plain(&mut world, 10, "A", 4);
    let b = plain(&mut world, 20, "B", 8);
    let only_a = world.archetype_of(&vec![a]).unwrap();
    let e = world.insert(only_a, &vec![u32_bytes(1)]);
    let mut meta = SystemMeta::new();
    let mut state = QueryState::init_state(EntityFetch, With(a), &mut world, &mut meta);
    state.align(&world, &mut meta);
    assert_eq!(QueryState::<EntityFetch, With>::entity_tick(&world, e), Tick(1));
    assert_eq!(entities_of(&state, &world, Tick(1)), Vec::<Entity>::new());
    world.increment_tick();
    assert_eq!(entities_of(&state, &world, Tick(2)), vec![e]);
    let f = world.insert(only_a, &vec![u32_bytes(2)]);
    assert_eq!(entities_of(&state, &world, Tick(2)), vec![e]);
    // A move between archetypes is a new row.
    world.alter(e, &[(b, true)]).unwrap();
    state.align(&world, &mut meta);
    assert_eq!(world.entity_tick(e), Tick(2));
    assert_eq!(entities_of(&state, &world, Tick(2)), Vec::<Entity>::new());
    world.increment_tick();
    assert_eq!(entities_of(&state, &world, Tick(3)), vec![e, f]);
    assert_eq!(world.entity_tick(Entity::new(7, 7)), Tick::null());
    let query = Query::new(&world, &mut state, Tick(3));
    assert_eq!(query.entity_tick(f), Tick(2));
    let mut iter = query.iter();
    assert_eq!(iter.next(), Some(e));
    assert_eq!(iter.next(), Some(f));
    assert_eq!(iter.next(), None);
}

#[test]
fn a_listener_registered_late_gets_its_slots_in_every_archetype() {
    let mut world = World::new();
    let a = ticking(&mut world, 10, "A", 4);
    let b = ticking(&mut world, 20, "B", 4);
    let ab = world.archetype_of(&vec![a, b]).unwrap();
    let only_b = world.archetype_of(&vec![b]).unwrap();
    let mut meta = SystemMeta::new();
    let _first = QueryState::init_state(EntityFetch, Changed(b), &mut world, &mut meta);
    let _second = QueryState::init_state(EntityFetch, (Added(a), Changed(b)), &mut world, &mut meta);
    let _third = QueryState::init_state(EntityFetch, With(a), &mut world, &mut meta);
    let both = world.get_archetype(ab).unwrap();
    let mut found = Vec::new();
    for i in 0..both.record_len() {
        let record = both.get_record(i);
        found.push((record.key, record.slot, record.changed));
    }
    assert_eq!(found, vec![(0, 1, true), (1, 0, false), (1, 1, true)]);
    let single = world.get_archetype(only_b).unwrap();
    let mut found = Vec::new();
    for i in 0..single.record_len() {
        let record = single.get_record(i);
        found.push((record.key, record.slot, record.changed));
    }
    assert_eq!(found, vec![(0, 0, true), (1, 0, true)]);
    // An archetype made after the registration gets them when it is made.
    let only_a = world.archetype_of(&vec![a]).unwrap();
    let made = world.get_archetype(only_a).unwrap();
    assert_eq!(made.record_len(), 1);
    let record = made.get_record(0);
    assert_eq!((record.key, record.slot, record.changed), (1, 0, false));
}

#[test]
fn a_rejected_archetype_gets_no_listener_slot() {
    let mut world = World::new();
    let a = ticking(&mut world, 10, "A", 4);
    let b = plain(&mut world, 20, "B", 8);
    let c = plain(&mut world, 30, "C", 4);
    // There before the registration: one that the filter rejects, one that
    // it accepts.
    let ab = world.archetype_of(&vec![a, b]).unwrap();
    let only_a = world.archetype_of(&vec![a]).unwrap();
    let mut meta = SystemMeta::new();
    let mut state = QueryState::init_state(EntityFetch, (Changed(a), Without(b)), &mut world, &mut meta);
    assert_eq!(world.get_archetype(ab).unwrap().record_len(), 0);
    assert_eq!(world.get_archetype(only_a).unwrap().record_len(), 1);
    // Created after the registration.
    let abc = world.archetype_of(&vec![a, b, c]).unwrap();
    let ac = world.archetype_of(&vec![a, c]).unwrap();
    assert_eq!(world.get_archetype(abc).unwrap().record_len(), 0);
    let accepted = world.get_archetype(ac).unwrap();
    assert_eq!(accepted.record_len(), 1);
    let record = accepted.get_record(0);
    assert_eq!((record.key, record.slot, record.changed), (0, 0, true));
    // What the fetch rejects gets none either.
    let _needs_c = QueryState::init_state(Ref(c), Changed(a), &mut world, &mut meta);
    assert_eq!(world.get_archetype(ab).unwrap().record_len(), 0);
    assert_eq!(world.get_archetype(only_a).unwrap().record_len(), 1);
    assert_eq!(world.get_archetype(abc).unwrap().record_len(), 1);
    assert_eq!(world.get_archetype(ac).unwrap().record_len(), 2);
    let record = world.get_archetype(abc).unwrap().get_record(0);
    assert_eq!((record.key, record.slot, record.changed), (1, 0, true));
    // The query itself matches only what it accepts.
    state.align(&world, &mut meta);
    let e = world.insert(ac, &vec![u32_bytes(1), u32_bytes(2)]);
    let _f = world.insert(abc, &vec![u32_bytes(1), u64_bytes(2), u32_bytes(3)]);
    world.increment_tick();
    assert_eq!(entities_of(&state, &world, world.tick()), vec![e]);
}

#[test]
fn add_archetype_leaves_the_cache_alone_where_it_rejects() {
    let mut world = World::new();
    let a = plain(&mut world, 10, "A", 4);
    let b = plain(&mut world, 20, "B", 8);
    let only_a = world.archetype_of(&vec![a]).unwrap();
    let only_b = world.archetype_of(&vec![b]).unwrap();
    let mut meta = SystemMeta::new();
    let mut state = QueryState::init_state(Ref(a), (), &mut world, &mut meta);
    state.add_archetype(&world, only_b, &mut meta);
    assert_eq!(meta.get_touched().len(), 0);
    state.add_archetype(&world, ArchetypeWorldIndex(77), &mut meta);
    assert_eq!(meta.get_touched().len(), 0);
    state.add_archetype(&world, only_a, &mut meta);
    assert_eq!(meta.get_touched(), &vec![(0usize, only_a)]);
}
