use maplewood::components::{Direction, Facing, SpriteComp};
use maplewood::ecs::{ComponentKind, ComponentStore, Ecs, EntityIdentifier, InvalidComponentName, QueryOneError, QueryTerm, RealOrDeferredEntityId};

#[test]
fn new_store_is_empty() {
    let ecs = Ecs::new();
    assert_eq!(ecs.len(), 0);
    assert!(ecs.entity_ids().is_empty());
}

#[test]
fn added_entity_is_live_and_bare() {
    let mut ecs = Ecs::new();
    let id = ecs.add_entity();
    assert!(ecs.contains_entity(id));
    assert_eq!(ecs.len(), 1);
    assert!(!ecs.has_component(id, ComponentKind::Position));
}

#[test]
fn added_entities_are_distinct() {
    let mut ecs = Ecs::new();
    let a = ecs.add_entity();
    let b = ecs.add_entity();
    assert!(!a.same(b));
    assert_eq!(ecs.entity_ids().len(), 2);
}

#[test]
fn component_read_after_write() {
    let mut ecs = Ecs::new();
    let id = ecs.add_entity();
    ecs.add_component(id, ComponentKind::Facing);
    assert!(ecs.has_component(id, ComponentKind::Facing));
    assert!(!ecs.has_component(id, ComponentKind::Walking));
    ecs.remove_component(id, ComponentKind::Facing);
    assert!(!ecs.has_component(id, ComponentKind::Facing));
}

#[test]
fn removed_entity_is_not_found() {
    let mut ecs = Ecs::new();
    let id = ecs.add_entity();
    ecs.add_component(id, ComponentKind::Facing);
    ecs.remove_entity(id);
    assert!(!ecs.contains_entity(id));
    let r = ecs.query_one(&[QueryTerm::Ref(ComponentKind::Facing)], &EntityIdentifier::Id(id));
    assert_eq!(r, Err(QueryOneError::NoEntity));
}

#[test]
fn query_one_reports_missing_components() {
    let mut ecs = Ecs::new();
    let id = ecs.add_entity();
    ecs.add_component(id, ComponentKind::Facing);
    let ok = ecs.query_one(&[QueryTerm::Id, QueryTerm::Ref(ComponentKind::Facing)], &EntityIdentifier::Id(id));
    assert_eq!(ok, Ok(id));
    let missing = ecs.query_one(&[QueryTerm::Mut(ComponentKind::Walking)], &EntityIdentifier::Id(id));
    assert_eq!(missing, Err(QueryOneError::MissingComponents));
    let excluded = ecs.query_one(&[QueryTerm::Without(ComponentKind::Facing)], &EntityIdentifier::Id(id));
    assert_eq!(excluded, Err(QueryOneError::MissingComponents));
    assert_eq!(QueryOneError::NoEntity.message(), "queried entity doesn't exist");
    assert_eq!(QueryOneError::MissingComponents.message(), "missing queried components");
}

#[test]
fn names_resolve_to_last_entity_given() {
    let mut ecs = Ecs::new();
    let a = ecs.add_entity();
    let b = ecs.add_entity();
    ecs.add_name(a, "player".to_string());
    assert_eq!(ecs.id_of_name("player"), Some(a));
    ecs.add_name(b, "player".to_string());
    assert_eq!(ecs.id_of_name("player"), Some(b));
    let r = ecs.query_one(&[QueryTerm::Id], &EntityIdentifier::Name("player".to_string()));
    assert_eq!(r, Ok(b));
    let none = ecs.query_one(&[QueryTerm::Id], &EntityIdentifier::Name("nobody".to_string()));
    assert_eq!(none, Err(QueryOneError::NoEntity));
}

#[test]
fn removing_name_unregisters_it() {
    let mut ecs = Ecs::new();
    let a = ecs.add_entity();
    ecs.add_name(a, "door".to_string());
    assert!(ecs.has_component(a, ComponentKind::Name));
    ecs.remove_component(a, ComponentKind::Name);
    assert_eq!(ecs.id_of_name("door"), None);
    assert!(!ecs.has_component(a, ComponentKind::Name));
}

#[test]
fn query_lists_exactly_the_matches() {
    let mut ecs = Ecs::new();
    let a = ecs.add_entity();
    let b = ecs.add_entity();
    let c = ecs.add_entity();
    ecs.add_component(a, ComponentKind::Position);
    ecs.add_component(b, ComponentKind::Position);
    ecs.add_component(b, ComponentKind::Collision);
    ecs.add_component(c, ComponentKind::Collision);
    let with_pos = ecs.query(&[QueryTerm::Ref(ComponentKind::Position)]);
    assert_eq!(with_pos.len(), 2);
    assert!(with_pos.contains(&a) && with_pos.contains(&b));
    let pos_no_coll = ecs.query(&[QueryTerm::Ref(ComponentKind::Position), QueryTerm::Without(ComponentKind::Collision)]);
    assert_eq!(pos_no_coll, vec![a]);
    let except_b = ecs.query_except(&[QueryTerm::With(ComponentKind::Collision)], b);
    assert_eq!(except_b, vec![c]);
    assert!(ecs.entity_matches(&[QueryTerm::Maybe(ComponentKind::Walking)], c));
}

#[test]
fn deferred_entity_gets_its_component_on_flush() {
    let mut ecs = Ecs::new();
    let d = ecs.add_entity_deferred();
    ecs.add_component_deferred(RealOrDeferredEntityId::Deferred(d), ComponentKind::Position);
    ecs.add_name_deferred(RealOrDeferredEntityId::Deferred(d), "spawned".to_string());
    assert_eq!(ecs.len(), 0);
    let outs = ecs.flush_deferred_mutations();
    assert_eq!(outs.len(), 3);
    let id = outs[0].unwrap();
    assert_eq!(outs[1], Some(id));
    assert!(ecs.contains_entity(id));
    assert!(ecs.has_component(id, ComponentKind::Position));
    assert_eq!(ecs.id_of_name("spawned"), Some(id));
}

#[test]
fn deferred_mutations_apply_in_order() {
    let mut ecs = Ecs::new();
    let id = ecs.add_entity();
    ecs.add_component_deferred(RealOrDeferredEntityId::Real(id), ComponentKind::Walking);
    ecs.remove_component_deferred(id, ComponentKind::Walking);
    assert!(!ecs.has_component(id, ComponentKind::Walking));
    ecs.flush_deferred_mutations();
    assert!(!ecs.has_component(id, ComponentKind::Walking));
    ecs.remove_entity_deferred(id);
    assert!(ecs.contains_entity(id));
    ecs.flush_deferred_mutations();
    assert!(!ecs.contains_entity(id));
}

#[test]
fn flush_of_empty_queue_changes_nothing() {
    let mut ecs = Ecs::new();
    let id = ecs.add_entity();
    ecs.add_component(id, ComponentKind::Camera);
    let outs = ecs.flush_deferred_mutations();
    assert!(outs.is_empty());
    assert!(ecs.contains_entity(id));
    assert!(ecs.has_component(id, ComponentKind::Camera));
}

#[test]
fn component_kinds_by_name() {
    assert_eq!(ComponentKind::from_name("Position"), Some(ComponentKind::Position));
    assert_eq!(ComponentKind::from_name("OverheadText"), Some(ComponentKind::OverheadText));
    assert_eq!(ComponentKind::from_name("Tweens"), None);
    assert_eq!(ComponentKind::from_name("position"), None);
    assert_eq!(ComponentKind::Walking.name(), "Walking");
}

#[test]
fn entity_id_round_trips_through_ffi() {
    let mut ecs = Ecs::new();
    let id = ecs.add_entity();
    let back = maplewood::ecs::EntityId::from_ffi(id.as_ffi());
    assert!(back.same(id));
    assert_eq!(back, id);
}

#[test]
fn remove_component_by_name() {
    let mut ecs = Ecs::new();
    let id = ecs.add_entity();
    ecs.add_component(id, ComponentKind::Collision);
    ecs.add_name(id, "door".to_string());
    let bad = ecs.remove_component_with_name(id, "Bogus");
    assert_eq!(bad, Err(InvalidComponentName("Bogus".to_string())));
    assert_eq!(bad.unwrap_err().message(), "invalid component name `Bogus`");
    assert!(ecs.has_component(id, ComponentKind::Collision));
    assert_eq!(ecs.remove_component_with_name(id, "Collision"), Ok(()));
    assert!(!ecs.has_component(id, ComponentKind::Collision));
    assert_eq!(ecs.remove_component_with_name(id, "Name"), Ok(()));
    assert!(ecs.id_of_name("door").is_none());
    assert!(ecs.remove_component_with_name(id, "Tweens").is_err());
}

#[test]
fn component_value_read_after_write() {
    let mut ecs = Ecs::new();
    let mut facing: ComponentStore<Facing> = ComponentStore::new();
    let mut sprites: ComponentStore<SpriteComp> = ComponentStore::new();
    let a = ecs.add_entity();
    let b = ecs.add_entity();
    assert!(ecs.component(&facing, a).is_none());
    ecs.add_component_value(&mut facing, a, Facing(Direction::Left));
    ecs.add_component_value(&mut facing, b, Facing(Direction::Up));
    assert_eq!(ecs.component(&facing, a).map(|f| f.0), Some(Direction::Left));
    assert!(ecs.has_component(a, ComponentKind::Facing));
    // Writing again replaces the value; the other entity keeps its own.
    ecs.add_component_value(&mut facing, a, Facing(Direction::Right));
    assert_eq!(ecs.component(&facing, a).map(|f| f.0), Some(Direction::Right));
    assert_eq!(ecs.component(&facing, b).map(|f| f.0), Some(Direction::Up));
    // Another component type is untouched.
    assert!(ecs.component(&sprites, a).is_none());
    ecs.add_component_value(&mut sprites, a, SpriteComp { sprite: None, forced_sprite: None, visible: false });
    assert_eq!(ecs.component(&sprites, a).map(|s| s.visible), Some(false));
    ecs.remove_component_value(&mut facing, a);
    assert!(ecs.component(&facing, a).is_none());
    assert!(!ecs.has_component(a, ComponentKind::Facing));
    ecs.remove_entity(b);
    assert!(ecs.component(&facing, b).is_none());
}

#[test]
fn saved_kinds_follow_presence() {
    let mut ecs = Ecs::new();
    let id = ecs.add_entity();
    ecs.add_component(id, ComponentKind::Facing);
    ecs.add_component(id, ComponentKind::Pathing);
    ecs.add_component(id, ComponentKind::Position);
    ecs.add_name(id, "girl".to_string());
    assert_eq!(
        ecs.saved_component_kinds(id),
        vec![ComponentKind::Name, ComponentKind::Position, ComponentKind::Facing]
    );
    ecs.remove_entity(id);
    assert!(ecs.saved_component_kinds(id).is_empty());
}

#[test]
fn flush_bound_counts_created_entities() {
    let mut ecs = Ecs::new();
    let id = ecs.add_entity();
    for _ in 0..5 {
        ecs.add_component_deferred(RealOrDeferredEntityId::Real(id), ComponentKind::Walking);
        ecs.remove_component_deferred(id, ComponentKind::Walking);
    }
    let d = ecs.add_entity_deferred();
    ecs.add_component_deferred(RealOrDeferredEntityId::Deferred(d), ComponentKind::Facing);
    let outs = ecs.flush_deferred_mutations();
    assert_eq!(outs.len(), 12);
    assert!(!ecs.has_component(id, ComponentKind::Walking));
    assert_eq!(ecs.len(), 2);
}
