use setstore::domain::{Data, Primitive, PrimitiveSet};
use setstore::errors::ApplicationError;
use setstore::set::interstore::command;
use setstore::store::Store;

fn set_of(values: &[i64]) -> PrimitiveSet {
    let mut s = PrimitiveSet::new();
    for v in values {
        s.insert(Primitive::Int(*v));
    }
    s
}

fn store_set(store: &mut Store, key: &str, values: &[i64]) {
    store.insert(key.to_string(), Data::SetValue(set_of(values)));
}

fn set_at<'a>(store: &'a Store, key: &str) -> &'a PrimitiveSet {
    match store.get(key) {
        Some(Data::SetValue(s)) => s,
        Some(_) => panic!("value at {} is not a set", key),
        None => panic!("no value at {}", key),
    }
}

#[test]
fn intersects_two_sets() {
    let mut store = Store::new();
    store_set(&mut store, "a", &[1, 2, 3]);
    store_set(&mut store, "b", &[2, 3, 4]);
    let r = command(&mut store, "c", "a", &vec!["b".to_string()]);
    assert_eq!(r.unwrap(), 2);
    let c = set_at(&store, "c");
    assert_eq!(c.len(), 2);
    assert!(c.contains(Primitive::Int(2)));
    assert!(c.contains(Primitive::Int(3)));
    assert!(!c.contains(Primitive::Int(1)));
    assert!(!c.contains(Primitive::Int(4)));
}

#[test]
fn disjoint_sets_store_an_empty_set() {
    let mut store = Store::new();
    store_set(&mut store, "a", &[1, 2]);
    store_set(&mut store, "b", &[3, 4]);
    let r = command(&mut store, "c", "a", &vec!["b".to_string()]);
    assert_eq!(r.unwrap(), 0);
    let c = set_at(&store, "c");
    assert_eq!(c.len(), 0);
}

#[test]
fn empty_operand_list_fails_without_mutation() {
    let mut store = Store::new();
    store_set(&mut store, "a", &[1, 2]);
    let r = command(&mut store, "d", "a", &Vec::new());
    assert!(matches!(r, Err(ApplicationError::NoOperands)));
    assert!(store.get("d").is_none());
    let a = set_at(&store, "a");
    assert_eq!(a.len(), 2);
}

#[test]
fn missing_base_key_fails() {
    let mut store = Store::new();
    store_set(&mut store, "b", &[1]);
    let r = command(&mut store, "c", "nope", &vec!["b".to_string()]);
    match r {
        Err(ApplicationError::KeyNotFound(k)) => assert_eq!(k, "nope"),
        other => panic!("expected KeyNotFound, got {:?}", other),
    }
    assert!(store.get("c").is_none());
}

#[test]
fn missing_operand_key_fails_without_mutation() {
    let mut store = Store::new();
    store_set(&mut store, "a", &[1, 2]);
    store_set(&mut store, "c", &[9]);
    let operands = vec!["a".to_string(), "gone".to_string()];
    let r = command(&mut store, "c", "a", &operands);
    match r {
        Err(ApplicationError::KeyNotFound(k)) => assert_eq!(k, "gone"),
        other => panic!("expected KeyNotFound, got {:?}", other),
    }
    let c = set_at(&store, "c");
    assert_eq!(c.len(), 1);
    assert!(c.contains(Primitive::Int(9)));
}

#[test]
fn wrong_typed_base_fails() {
    let mut store = Store::new();
    store.insert("n".to_string(), Data::Scalar(Primitive::Int(7)));
    store_set(&mut store, "b", &[1]);
    let r = command(&mut store, "c", "n", &vec!["b".to_string()]);
    match r {
        Err(ApplicationError::WrongType(k)) => assert_eq!(k, "n"),
        other => panic!("expected WrongType, got {:?}", other),
    }
    assert!(store.get("c").is_none());
}

#[test]
fn wrong_typed_operand_fails_without_mutation() {
    let mut store = Store::new();
    store_set(&mut store, "a", &[1, 2]);
    store.insert("n".to_string(), Data::Scalar(Primitive::Flag(true)));
    let r = command(&mut store, "a", "a", &vec!["n".to_string()]);
    match r {
        Err(ApplicationError::WrongType(k)) => assert_eq!(k, "n"),
        other => panic!("expected WrongType, got {:?}", other),
    }
    let a = set_at(&store, "a");
    assert_eq!(a.len(), 2);
    assert!(a.contains(Primitive::Int(1)));
    assert!(a.contains(Primitive::Int(2)));
}

#[test]
fn reintersection_is_idempotent() {
    let mut store = Store::new();
    store_set(&mut store, "a", &[1, 2, 3, 5]);
    store_set(&mut store, "b", &[2, 3, 4]);
    command(&mut store, "first", "a", &vec!["b".to_string()]).unwrap();
    command(&mut store, "second", "first", &vec!["b".to_string()]).unwrap();
    let first = set_at(&store, "first");
    assert_eq!(first.len(), 2);
    let second = set_at(&store, "second");
    assert_eq!(second.len(), 2);
    assert!(second.contains(Primitive::Int(2)));
    assert!(second.contains(Primitive::Int(3)));
}

#[test]
fn self_intersection_keeps_cardinality() {
    let mut store = Store::new();
    store_set(&mut store, "a", &[10, 20, 30]);
    let r = command(&mut store, "c", "a", &vec!["a".to_string()]);
    assert_eq!(r.unwrap(), 3);
    let c = set_at(&store, "c");
    assert_eq!(c.len(), 3);
    assert!(c.contains(Primitive::Int(10)));
    assert!(c.contains(Primitive::Int(20)));
    assert!(c.contains(Primitive::Int(30)));
}

#[test]
fn returns_the_size_of_the_stored_result() {
    let mut store = Store::new();
    store_set(&mut store, "a", &[1, 2, 3, 4]);
    store_set(&mut store, "b", &[2, 4, 6]);
    let n = command(&mut store, "c", "a", &vec!["b".to_string()]).unwrap();
    let c = set_at(&store, "c");
    assert_eq!(c.len(), n);
}

#[test]
fn destination_may_alias_the_base_key() {
    let mut store = Store::new();
    store_set(&mut store, "a", &[1, 2]);
    store_set(&mut store, "b", &[2]);
    let r = command(&mut store, "a", "a", &vec!["b".to_string()]);
    assert_eq!(r.unwrap(), 1);
    let a = set_at(&store, "a");
    assert_eq!(a.len(), 1);
    assert!(a.contains(Primitive::Int(2)));
}

#[test]
fn destination_may_alias_an_operand_key() {
    let mut store = Store::new();
    store_set(&mut store, "a", &[1, 2, 3]);
    store_set(&mut store, "b", &[3, 5]);
    let r = command(&mut store, "b", "a", &vec!["b".to_string()]);
    assert_eq!(r.unwrap(), 1);
    let b = set_at(&store, "b");
    assert_eq!(b.len(), 1);
    assert!(b.contains(Primitive::Int(3)));
}

#[test]
fn success_overwrites_a_prior_destination_value() {
    let mut store = Store::new();
    store_set(&mut store, "a", &[1, 2]);
    store_set(&mut store, "b", &[2, 3]);
    store.insert("c".to_string(), Data::Scalar(Primitive::Int(99)));
    let r = command(&mut store, "c", "a", &vec!["b".to_string()]);
    assert_eq!(r.unwrap(), 1);
    let c = set_at(&store, "c");
    assert!(c.contains(Primitive::Int(2)));
}

#[test]
fn several_operands_intersect_them_all() {
    let mut store = Store::new();
    store_set(&mut store, "a", &[1, 2, 3, 4, 5]);
    store_set(&mut store, "b", &[2, 3, 4]);
    store_set(&mut store, "c", &[3, 4, 5]);
    let operands = vec!["b".to_string(), "c".to_string()];
    let r = command(&mut store, "out", "a", &operands);
    assert_eq!(r.unwrap(), 2);
    let out = set_at(&store, "out");
    assert!(out.contains(Primitive::Int(3)));
    assert!(out.contains(Primitive::Int(4)));
    assert!(!out.contains(Primitive::Int(2)));
}

#[test]
fn mixed_primitive_kinds_intersect_by_equality() {
    let mut store = Store::new();
    let mut a = PrimitiveSet::new();
    a.insert(Primitive::Int(1));
    a.insert(Primitive::Flag(true));
    a.insert(Primitive::Flag(false));
    store.insert("a".to_string(), Data::SetValue(a));
    let mut b = PrimitiveSet::new();
    b.insert(Primitive::Flag(true));
    b.insert(Primitive::Int(2));
    store.insert("b".to_string(), Data::SetValue(b));
    let r = command(&mut store, "c", "a", &vec!["b".to_string()]);
    assert_eq!(r.unwrap(), 1);
    let c = set_at(&store, "c");
    assert!(c.contains(Primitive::Flag(true)));
}
