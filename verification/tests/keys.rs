use rutis::key::{InstanceId, InstanceIds, Key, Qualifier, TypeKey};
use std::any::TypeId;
use std::collections::HashSet;

struct ReadableService;

const LABEL: &str = "keys::ReadableService";

#[test]
fn describe_uses_type_name_and_qualifier() {
    let plain = TypeKey::of::<ReadableService>(LABEL);
    assert!(plain.describe().contains("ReadableService"));
    let keyed =
        TypeKey::keyed_dynamic::<ReadableService>(LABEL, "session-1/main".to_string());
    assert_eq!(keyed.describe(), format!("{}#session-1/main", LABEL));
    assert_eq!(plain, TypeKey::of::<ReadableService>(LABEL));
    assert_ne!(plain, keyed);
}

#[test]
fn instance_is_part_of_key_equality_hash_and_description() {
    let mut ids = InstanceIds::new();
    let one = InstanceId::allocate(&mut ids);
    let two = InstanceId::allocate(&mut ids);
    assert_ne!(one, two);
    let a = TypeKey::keyed::<ReadableService>(LABEL, "main").with_instance(one);
    let same =
        TypeKey::keyed_dynamic::<ReadableService>(LABEL, "main".to_string()).with_instance(one);
    let other = TypeKey::keyed::<ReadableService>(LABEL, "main").with_instance(two);
    assert_eq!(a, same);
    assert_ne!(a, other);
    assert_ne!(a, TypeKey::keyed::<ReadableService>(LABEL, "main"));
    assert_eq!(a.describe(), format!("{}#main@{}", LABEL, one.to_text()));
    let mut keys = HashSet::new();
    keys.insert(a);
    assert!(keys.contains(&same));
    assert!(!keys.contains(&other));
}

#[test]
fn the_label_takes_no_part_in_equality() {
    let a = TypeKey::of::<u32>("one");
    let b = TypeKey::of::<u32>("another");
    assert_eq!(a, b);
    assert_eq!(a.describe(), "one");
    assert_eq!(b.label(), "another");
}

#[test]
fn types_separate_keys() {
    assert_ne!(TypeKey::of::<u32>("n"), TypeKey::of::<u64>("n"));
    assert!(TypeKey::of::<u32>("n").has_type(&TypeId::of::<u32>()));
    assert!(!TypeKey::of::<u32>("n").has_type(&TypeId::of::<u64>()));
}

#[test]
fn typed_names_give_qualified_keys() {
    let key = Key::<u32>::new("u32", "port").into_key();
    assert_eq!(key, TypeKey::keyed::<u32>("u32", "port"));
    assert_eq!(TypeKey::from(Key::<u32>::new("u32", "port")), key);
    assert_eq!(key.describe(), "u32#port");
    assert_eq!(key.instance_id(), None);
}

#[test]
fn static_and_dynamic_names_are_the_same_name() {
    assert!(Qualifier::Static("a") == Qualifier::Dynamic("a".to_string()));
    assert!(Qualifier::Static("a") != Qualifier::Dynamic("b".to_string()));
    assert_eq!(
        TypeKey::keyed::<u8>("u8", "x"),
        TypeKey::keyed_dynamic::<u8>("u8", "x".to_string())
    );
}

#[test]
fn identities_are_counted_up_and_never_reused() {
    let mut ids = InstanceIds::new();
    let mut seen: Vec<InstanceId> = Vec::new();
    for _ in 0..100 {
        let id = InstanceId::allocate(&mut ids);
        assert!(!seen.contains(&id));
        seen.push(id);
    }
    assert_eq!(seen[0].to_text(), "1");
    assert_eq!(seen[99].to_text(), "100");
    assert!(!ids.exhausted());
}

#[test]
fn keys_of_an_instance_carry_it() {
    let mut ids = InstanceIds::new();
    let id = InstanceId::allocate(&mut ids);
    let key = TypeKey::instance::<u8>("u8", id);
    assert_eq!(key.instance_id(), Some(id));
    assert_eq!(key, TypeKey::of::<u8>("u8").with_instance(id));
    assert_ne!(key, TypeKey::of::<u8>("u8"));
}
