use jsompiler::{JObject, JValue, Json, VKind};

fn node(v: i64) -> Json {
    Json { pos: 0, ln: 1, value: JValue::Int(VKind::Lit(v)) }
}

fn int_of(d: &Json) -> i64 {
    match &d.value {
        JValue::Int(VKind::Lit(v)) => *v,
        _ => panic!("expected an integer literal"),
    }
}

#[test]
fn test_remove_then_reinsert_keeps_positions() {
    let mut o = JObject::new();
    assert!(o.insert(b"k1".to_vec(), node(1)).is_none());
    assert!(o.insert(b"k2".to_vec(), node(2)).is_none());
    assert!(o.insert(b"k3".to_vec(), node(3)).is_none());
    let removed = o.remove(&b"k2".to_vec());
    assert_eq!(int_of(&removed.unwrap()), 2);
    let first = o.get_index(0).unwrap();
    assert_eq!(first.0, b"k1");
    assert_eq!(int_of(&first.1), 1);
    let second = o.get_index(1).unwrap();
    assert_eq!(second.0, b"k3");
    assert_eq!(int_of(&second.1), 3);
    assert!(o.get(&b"k2".to_vec()).is_none());
    let old = o.insert(b"k1".to_vec(), node(4));
    assert_eq!(int_of(&old.unwrap()), 1);
    let first_again = o.get_index(0).unwrap();
    assert_eq!(first_again.0, b"k1");
    assert_eq!(int_of(&first_again.1), 4);
    assert_eq!(o.len(), 2);
}

#[test]
fn test_len_is_empty_clear() {
    let mut o = JObject::new();
    assert!(o.is_empty());
    assert_eq!(o.len(), 0);
    o.insert(b"a".to_vec(), node(1));
    assert!(!o.is_empty());
    assert_eq!(o.len(), 1);
    o.clear();
    assert!(o.is_empty());
    assert!(o.get(&b"a".to_vec()).is_none());
}

#[test]
fn test_get_index_out_of_bounds() {
    let o = JObject::new();
    assert!(o.get_index(0).is_none());
}

#[test]
fn test_get_mut_replaces_value() {
    let mut o = JObject::new();
    o.insert(b"a".to_vec(), node(1));
    let old = o.get_mut(&b"a".to_vec(), node(9));
    assert_eq!(int_of(&old.unwrap()), 1);
    assert_eq!(int_of(o.get(&b"a".to_vec()).unwrap()), 9);
    assert!(o.get_mut(&b"zz".to_vec(), node(7)).is_none());
    assert_eq!(o.len(), 1);
}

#[test]
fn test_get_index_mut_replaces_value_keeps_key() {
    let mut o = JObject::new();
    o.insert(b"a".to_vec(), node(1));
    o.insert(b"b".to_vec(), node(2));
    let old = o.get_index_mut(1, node(20));
    assert_eq!(int_of(&old.unwrap()), 2);
    let pair = o.get_index(1).unwrap();
    assert_eq!(pair.0, b"b");
    assert_eq!(int_of(&pair.1), 20);
    assert!(o.get_index_mut(5, node(0)).is_none());
}

#[test]
fn test_iter_in_insertion_order() {
    let mut o = JObject::new();
    o.insert(b"x".to_vec(), node(10));
    o.insert(b"y".to_vec(), node(20));
    let entries = o.iter();
    assert_eq!(entries.len(), 2);
    assert_eq!(entries[0].0, b"x");
    assert_eq!(int_of(&entries[0].1), 10);
    assert_eq!(entries[1].0, b"y");
    assert_eq!(int_of(&entries[1].1), 20);
}
