use pi_world::component::{ComponentInfo, COMPONENT_CHANGED, COMPONENT_TICK};
use pi_world::fetch::{EntityFetch, FetchComponents, Has, Ref, RefMut};
use pi_world::filter::{Changed, FilterArchetype, FilterComponents, Or, ReadWrite, With, Without};
use pi_world::ids::{ComponentIndex, Row, Tick};
use pi_world::listener::{Listener, Reject};
use pi_world::query::{QueryState, SystemMeta};
use pi_world::world::World;

fn component(world: &mut World, id: u128, name: &str, size: u32) -> ComponentIndex {
    world.add_component_info(ComponentInfo::create(
        id,
        name.to_string(),
        false,
        Some(vec![0; size as usize]),
        size,
        COMPONENT_TICK | COMPONENT_CHANGED,
    ))
}

fn bytes(v: u32) -> Vec<u8> {
    v.to_le_bytes().to_vec()
}

fn abc(world: &mut World) -> (ComponentIndex, ComponentIndex, ComponentIndex) {
    let a = component(world, 10, "A", 4);
    let b = component(world, 20, "B", 4);
    let c = component(world, 40, "C", 4);
    (a, b, c)
}

#[test]
fn three_fetches_hand_out_three_items() {
    let mut world = World::new();
    let (a, b, c) = abc(&mut world);
    let ab = world.archetype_of(&vec![a, b]).unwrap();
    let only_a = world.archetype_of(&vec![a]).unwrap();
    let e = world.insert(ab, &vec![bytes(1), bytes(2)]);
    let f = world.insert(only_a, &vec![bytes(3)]);
    let mut meta = SystemMeta::new();
    let mut state = QueryState::init_state((EntityFetch, Ref(a), Ref(b), Has(c)), (), &mut world, &mut meta);
    state.align(&world, &mut meta);
    world.increment_tick();
    let mut iter = state.iter(&world, world.tick());
    assert_eq!(iter.next(), Some((e, bytes(1), bytes(2), false)));
    assert_eq!(iter.next(), None);
    assert!(state.get(&world, f, world.tick()).is_err());
    let rw = meta.get_rw(0);
    assert_eq!(rw.reads, vec![a, b]);
    assert_eq!(rw.writes, Vec::<ComponentIndex>::new());
}

#[test]
fn a_fetch_alone_in_a_tuple_and_the_fetch_of_nothing() {
    let mut world = World::new();
    let (a, _b, _c) = abc(&mut world);
    let only_a = world.archetype_of(&vec![a]).unwrap();
    let e = world.insert(only_a, &vec![bytes(9)]);
    let mut meta = SystemMeta::new();
    let mut one = QueryState::init_state((Ref(a),), (), &mut world, &mut meta);
    one.align(&world, &mut meta);
    let mut none = QueryState::init_state((), (With(a),), &mut world, &mut meta);
    none.align(&world, &mut meta);
    world.increment_tick();
    assert_eq!(one.get(&world, e, world.tick()), Ok((bytes(9),)));
    assert_eq!(none.get(&world, e, world.tick()), Ok(()));
    assert_eq!(none.len(&world), 1);
}

#[test]
fn three_filters_reject_what_one_of_them_rejects() {
    let mut world = World::new();
    let (a, b, c) = abc(&mut world);
    let filter = (With(a), Without(b), Changed(c));
    let mut rw = ReadWrite::new();
    filter.init_read_write(&mut rw);
    assert_eq!(rw.withouts, vec![b]);
    assert_eq!(rw.listeners, vec![(c, true)]);
    let ac = world.archetype_of(&vec![a, c]).unwrap();
    let abc = world.archetype_of(&vec![a, b, c]).unwrap();
    let only_c = world.archetype_of(&vec![c]).unwrap();
    assert!(!filter.archetype_filter(world.get_archetype(ac).unwrap()));
    assert!(filter.archetype_filter(world.get_archetype(abc).unwrap()));
    assert!(filter.archetype_filter(world.get_archetype(only_c).unwrap()));
    // The rule that the world keeps says the same.
    let rule = filter.rejection();
    assert!(!rule.eval(world.get_archetype(ac).unwrap().table()));
    assert!(rule.eval(world.get_archetype(abc).unwrap().table()));
    assert!(rule.eval(world.get_archetype(only_c).unwrap().table()));
}

#[test]
fn conditions_under_an_or_are_alternatives() {
    let mut world = World::new();
    let (a, b, c) = abc(&mut world);
    let any = Or((With(a), With(b), With(c)));
    let only_b = world.archetype_of(&vec![b]).unwrap();
    let empty = world.archetype_of(&vec![]).unwrap();
    assert!(!any.archetype_filter(world.get_archetype(only_b).unwrap()));
    assert!(any.archetype_filter(world.get_archetype(empty).unwrap()));
    assert!(!any.rejection().eval(world.get_archetype(only_b).unwrap().table()));
    assert!(any.rejection().eval(world.get_archetype(empty).unwrap().table()));
    // With no condition none holds.
    assert!(().filter_archetype(world.get_archetype(only_b).unwrap()));
    assert!(Or(()).archetype_filter(world.get_archetype(only_b).unwrap()));
    assert!(Or(()).rejection().eval(world.get_archetype(only_b).unwrap().table()));
    assert!((With(b),).filter_archetype(world.get_archetype(empty).unwrap()));
}

#[test]
fn rules_hold_as_they_are_built() {
    let mut world = World::new();
    let (a, b, _c) = abc(&mut world);
    let only_a = world.archetype_of(&vec![a]).unwrap();
    let table = world.get_archetype(only_a).unwrap().table();
    assert!(!Reject::Never.eval(table));
    assert!(Reject::Always.eval(table));
    assert!(Reject::Has(a).eval(table));
    assert!(!Reject::Has(b).eval(table));
    assert!(!Reject::Lacks(a).eval(table));
    assert!(Reject::Lacks(b).eval(table));
    assert!(Reject::Either(Box::new(Reject::Has(b)), Box::new(Reject::Has(a))).eval(table));
    assert!(!Reject::Both(Box::new(Reject::Has(b)), Box::new(Reject::Has(a))).eval(table));
}

#[test]
fn a_listener_is_registered_with_its_rule() {
    let mut world = World::new();
    let (a, b, _c) = abc(&mut world);
    let only_a = world.archetype_of(&vec![a]).unwrap();
    let ab = world.archetype_of(&vec![a, b]).unwrap();
    let key = world.register_listener(Listener { listened: vec![(a, false)], rejects: Reject::Has(b) });
    assert_eq!(key, 0);
    let second = world.register_listener(Listener { listened: vec![(b, true), (a, true)], rejects: Reject::Never });
    assert_eq!(second, 1);
    let ar = world.get_archetype(only_a).unwrap();
    assert_eq!(ar.record_len(), 2);
    assert_eq!((ar.get_record(0).key, ar.get_record(0).slot, ar.get_record(0).changed), (0, 0, false));
    assert_eq!((ar.get_record(1).key, ar.get_record(1).slot, ar.get_record(1).changed), (1, 0, true));
    let ar = world.get_archetype(ab).unwrap();
    assert_eq!(ar.record_len(), 2);
    assert_eq!((ar.get_record(0).key, ar.get_record(0).slot), (1, 1));
    assert_eq!((ar.get_record(1).key, ar.get_record(1).slot), (1, 0));
}

#[test]
fn an_optional_component_is_taken_out_for_writing_where_it_is_there() {
    let mut world = World::new();
    let (a, b, _c) = abc(&mut world);
    let ab = world.archetype_of(&vec![a, b]).unwrap();
    let only_a = world.archetype_of(&vec![a]).unwrap();
    let e = world.insert(ab, &vec![bytes(1), bytes(2)]);
    let f = world.insert(only_a, &vec![bytes(3)]);
    let mut meta = SystemMeta::new();
    let mut state = QueryState::init_state(Some(RefMut(b)), With(a), &mut world, &mut meta);
    state.align(&world, &mut meta);
    assert_eq!(meta.get_rw(0).writes, vec![b]);
    world.increment_tick();
    let tick = world.tick();
    assert!(state.get(&world, f, tick).unwrap().is_none());
    let mut taken = state.get(&world, e, tick).unwrap().unwrap();
    assert_eq!(taken.value, bytes(2));
    assert_eq!((taken.row, taken.archetype, taken.index, taken.entity), (Row(0), ab, b, e));
    taken.value = bytes(20);
    assert_eq!(taken.store(&mut world), Ok(()));
    assert_eq!(world.get_component(e, b), Ok(bytes(20)));
    assert_eq!(world.get_tick(e, b), Ok(Tick(2)));
    let absent: Option<RefMut> = None;
    let mut rw = ReadWrite::new();
    absent.init_read_write(&mut rw);
    assert!(rw.writes.is_empty());
}

#[test]
fn a_cursor_is_made_once_for_an_archetype_and_fetches_its_rows() {
    let mut world = World::new();
    let (a, b, _c) = abc(&mut world);
    let ab = world.archetype_of(&vec![a, b]).unwrap();
    let e = world.insert(ab, &vec![bytes(1), bytes(2)]);
    let f = world.insert(ab, &vec![bytes(3), bytes(4)]);
    let fetch = (Ref(b), EntityFetch, Has(a));
    let archetype = world.get_archetype(ab).unwrap();
    assert!(!FetchComponents::archetype_filter(&fetch, archetype));
    let state = fetch.init_state(&world, archetype);
    assert_eq!(state, (1, (), true));
    let cursor = fetch.init_fetch(&world, ab, &state, Tick(9));
    assert_eq!((cursor.0.index, cursor.0.tick), (ab, Tick(9)));
    assert_eq!((cursor.2.index, cursor.2.tick), (ab, Tick(9)));
    assert_eq!(fetch.fetch(&world, &cursor, &state, Row(0), e), (bytes(2), e, true));
    assert_eq!(fetch.fetch(&world, &cursor, &state, Row(1), f), (bytes(4), f, true));
}
