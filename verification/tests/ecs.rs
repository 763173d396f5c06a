use designkit::ecs::{ComponentMap, EntityAllocator, EntityId, World};
use designkit::generational;

#[test]
fn spawn_gives_fresh_increasing_ids() {
    let mut w = World::new();
    let a = w.spawn();
    let b = w.spawn();
    let c = w.spawn();
    assert_eq!(a, EntityId(0));
    assert_eq!(b, EntityId(1));
    assert_eq!(c, EntityId(2));
    assert_eq!(w.entities(), vec![a, b, c]);
}

#[test]
fn despawn_removes_only_that_entity_and_ids_are_not_reused() {
    let mut w = World::new();
    let a = w.spawn();
    let b = w.spawn();
    let c = w.spawn();
    w.despawn(b);
    assert_eq!(w.entities(), vec![a, c]);
    assert!(!w.is_alive(b));
    assert!(w.is_alive(a));
    let d = w.spawn();
    assert_eq!(d, EntityId(3));
    w.despawn(EntityId(99));
    assert_eq!(w.entities(), vec![a, c, d]);
}

#[test]
fn component_map_insert_replace_remove() {
    let mut m: ComponentMap<i32> = ComponentMap::new();
    let e = EntityId(7);
    assert!(!m.has(e));
    m.insert(e, 10);
    assert_eq!(m.get(e), Some(&10));
    m.insert(e, 20);
    assert_eq!(m.get(e), Some(&20));
    if let Some(v) = m.get_mut(e) {
        *v += 1;
    }
    assert_eq!(m.get(e), Some(&21));
    m.remove(e);
    assert!(!m.has(e));
    assert_eq!(m.get(e), None);
    assert!(m.get_mut(e).is_none());
}

#[test]
fn queries_list_live_entities_with_all_components() {
    let mut w = World::new();
    let mut pos: ComponentMap<(i32, i32)> = ComponentMap::new();
    let mut vel: ComponentMap<(i32, i32)> = ComponentMap::new();
    let mut name: ComponentMap<String> = ComponentMap::new();
    let a = w.spawn();
    let b = w.spawn();
    let c = w.spawn();
    pos.insert(a, (0, 0));
    pos.insert(b, (1, 1));
    pos.insert(c, (2, 2));
    vel.insert(a, (1, 0));
    vel.insert(c, (0, 1));
    name.insert(c, "guard".to_string());
    assert_eq!(w.query_2(&pos, &vel), vec![a, c]);
    assert_eq!(w.query_3(&pos, &vel, &name), vec![c]);
    w.despawn(c);
    assert_eq!(w.query_2(&pos, &vel), vec![a]);
    assert!(w.query_3(&pos, &vel, &name).is_empty());
}

#[test]
fn allocator_tracks_live_ids() {
    let mut alloc = EntityAllocator::new();
    let a = alloc.allocate();
    let b = alloc.allocate();
    assert!(alloc.is_alive(a));
    alloc.deallocate(a);
    assert!(!alloc.is_alive(a));
    assert_eq!(alloc.all_alive(), &[b]);
}

#[test]
fn generational_slots_are_reused_with_new_generation() {
    let mut w = generational::World::new();
    let a = w.spawn();
    let b = w.spawn();
    assert_eq!((a.id, a.generation), (0, 0));
    assert_eq!((b.id, b.generation), (1, 0));
    w.despawn(a);
    assert!(!w.is_alive(a));
    let c = w.spawn();
    assert_eq!((c.id, c.generation), (0, 1));
    assert!(w.is_alive(c));
    assert!(!w.is_alive(a));
    assert_eq!(w.entities(), vec![c, b]);
}

#[test]
fn generational_despawn_of_stale_handle_changes_nothing() {
    let mut w = generational::World::new();
    let a = w.spawn();
    w.despawn(a);
    let c = w.spawn();
    w.despawn(a);
    assert!(w.is_alive(c));
    assert_eq!(w.entities(), vec![c]);
    let d = w.spawn();
    assert_eq!((d.id, d.generation), (1, 0));
}
