use std::sync::Arc;

use litki::plugins::{health_from_args, radial_vision_from_args, EntityRegistry, Health, RadialVision, StableId};
use litki::{PtrValue, Value};

#[test]
fn health_starts_full_and_takes_damage() {
    let mut h = Health::new(150);
    assert_eq!(h.max(), 150);
    assert_eq!(h.cur(), 150);
    h.take_damage(40);
    assert_eq!(h.cur(), 110);
    h.take_damage(-10);
    assert_eq!(h.cur(), 120);
    assert_eq!(h.max(), 150);
}

#[test]
fn damage_below_zero_wraps() {
    let mut h = Health::new(5);
    h.take_damage(6);
    assert_eq!(h.cur(), u64::MAX);
}

#[test]
fn radial_vision_keeps_its_radius() {
    assert_eq!(RadialVision::new(12).radius(), 12);
}

fn options(name: &str, n: i64) -> Vec<PtrValue> {
    vec![Arc::new(Value::HashMap(vec![(Value::Keyword(None, name.to_string()), Value::Integer(n))], None))]
}

#[test]
fn builders_read_their_options() {
    let h = health_from_args(&options("max", 150));
    assert_eq!(h.max(), 150);
    assert_eq!(h.cur(), 150);
    assert_eq!(radial_vision_from_args(&options("radius", 8)).radius(), 8);
}

#[test]
fn stable_ids_parse_only_short_ids() {
    let id = StableId::try_from_str("abcdEFGH0123-_").unwrap();
    assert_eq!(id.as_str(), "abcdEFGH0123-_");
    assert_eq!(id.to_string(), "abcdEFGH0123-_");
    assert!(StableId::try_from_str("too-short").is_err());
    assert!(StableId::try_from_str("abcdEFGH0123!_").is_err());
    match StableId::try_from_string("bad".to_string()) {
        Err((text, _)) => assert_eq!(text, "bad"),
        Ok(_) => panic!("expected a rejection"),
    }
    let random = StableId::new_random();
    assert_eq!(random.as_str().len(), 14);
    let again = StableId::try_from_str(random.as_str()).unwrap();
    assert!(again.same_as(&random));
    assert!(matches!(random.to_value(), Value::String(s) if s == random.as_str()));
}

#[test]
fn entity_registry_maps_both_ways() {
    let mut registry = EntityRegistry::new();
    let a = StableId::try_from_str("AAAAAAAAAAAAAA").unwrap();
    let b = StableId::try_from_str("BBBBBBBBBBBBBB").unwrap();
    registry.register(a.clone(), 1);
    registry.register(b.clone(), 2);
    assert_eq!(registry.count(), 2);
    assert_eq!(registry.get_by_stable_id(&a), Some(1));
    assert!(registry.get_by_entity_id(&2).unwrap().same_as(&b));
    assert!(registry.contains(a.clone()));

    let (entity, stable) = registry.deregister_by_stable_id(a.clone()).unwrap();
    assert_eq!(entity, 1);
    assert!(stable.same_as(&a));
    assert_eq!(registry.get_by_stable_id(&a), None);
    assert!(registry.get_by_entity_id(&1).is_none());
    assert_eq!(registry.count(), 1);

    let (entity, stable) = registry.deregister_by_entity_id(2).unwrap();
    assert_eq!(entity, 2);
    assert!(stable.same_as(&b));
    assert_eq!(registry.count(), 0);
    assert!(!registry.contains(b));
}
