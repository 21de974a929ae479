use litki::{ComponentBuilderRegistry, NameMap, TemplateRegistry, Value};

#[test]
fn name_map_insert_get_remove() {
    let mut m: NameMap<u32> = NameMap::new();
    m.insert("a".to_string(), 1);
    m.insert("b".to_string(), 2);
    m.insert("a".to_string(), 3);
    assert_eq!(m.len(), 2);
    assert_eq!(m.get("a"), Some(&3));
    assert!(m.contains("b"));
    assert_eq!(m.remove("b"), Some(2));
    assert_eq!(m.remove("b"), None);
    assert!(!m.contains("b"));
    let mut names = m.names();
    names.sort();
    assert_eq!(names, vec!["a".to_string()]);
}

#[test]
fn component_builders_by_name() {
    let mut r: ComponentBuilderRegistry<u8> = ComponentBuilderRegistry::new();
    r.register("litki.vital/health", 1);
    r.register("litki.vision/radial", 2);
    assert_eq!(r.get("litki.vital/health"), Some(1));
    assert_eq!(r.get("nothing"), None);
    assert!(r.contains("litki.vision/radial"));
    let mut names = r.names();
    names.sort();
    assert_eq!(names, vec!["litki.vision/radial".to_string(), "litki.vital/health".to_string()]);
    assert_eq!(r.builders_cloned().len(), 2);
}

#[test]
fn templates_register_get_update() {
    let mut t = TemplateRegistry::new();
    t.register("deer", Value::Vector(vec![Value::Integer(150)], None));
    assert!(t.get("deer").unwrap().equals(&Value::Vector(vec![Value::Integer(150)], None)));
    assert!(t.get("wolf").is_none());
    t.update("deer", |v: Value| match v {
        Value::Vector(mut items, meta) => {
            items.push(Value::Integer(1));
            Value::Vector(items, meta)
        }
        other => other,
    });
    assert!(t.get("deer").unwrap().equals(&Value::Vector(vec![Value::Integer(150), Value::Integer(1)], None)));
    t.update("wolf", |_v: Value| Value::Nil(None));
    assert!(t.get("wolf").is_none());
    assert_eq!(t.names(), vec!["deer".to_string()]);
    assert_eq!(t.templates_cloned().len(), 1);
}
