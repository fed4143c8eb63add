use symphony_rs::ordered::{OrderedMap, OrderedSet};

#[test]
fn maps_keep_their_keys_in_order() {
    let mut map: OrderedMap<u32> = OrderedMap::new();
    assert_eq!(map.insert("b".to_string(), 2), None);
    assert_eq!(map.insert("a".to_string(), 1), None);
    assert_eq!(map.insert("c".to_string(), 3), None);
    assert_eq!(map.insert("b".to_string(), 20), Some(2));
    assert_eq!(map.keys(), vec!["a".to_string(), "b".to_string(), "c".to_string()]);
    assert_eq!(map.len(), 3);
    assert_eq!(map.get("b"), Some(&20));
    assert_eq!(map.entry(2), (&"c".to_string(), &3));
    assert_eq!(map.remove("a"), Some(1));
    assert_eq!(map.remove("a"), None);
    assert!(!map.contains_key("a"));
    assert_eq!(map.clone(), map);
}

#[test]
fn sets_hold_each_member_once() {
    let mut set = OrderedSet::new();
    assert!(set.insert("b".to_string()));
    assert!(set.insert("a".to_string()));
    assert!(!set.insert("b".to_string()));
    assert_eq!(set.len(), 2);
    assert_eq!(set.keys(), vec!["a".to_string(), "b".to_string()]);
    assert!(set.remove("a"));
    assert!(!set.remove("a"));
    assert!(set.contains("b"));
}
