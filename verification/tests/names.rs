use dcron::names::NameMap;

#[test]
fn new_map_is_empty() {
    let map: NameMap<u32> = NameMap::new();
    assert_eq!(map.len(), 0);
    assert!(!map.contains_key("a"));
    assert_eq!(map.get("a"), None);
    assert_eq!(map.find("a"), None);
}

#[test]
fn insert_then_get() {
    let mut map: NameMap<u32> = NameMap::new();
    map.insert("a".to_string(), 1);
    map.insert("b".to_string(), 2);
    assert_eq!(map.len(), 2);
    assert_eq!(map.get("a"), Some(&1));
    assert_eq!(map.get("b"), Some(&2));
    assert_eq!(map.get("c"), None);
    assert!(map.contains_key("b"));
}

#[test]
fn insert_replaces_the_value_of_a_name() {
    let mut map: NameMap<u32> = NameMap::new();
    map.insert("a".to_string(), 1);
    map.insert("b".to_string(), 2);
    map.insert("a".to_string(), 3);
    assert_eq!(map.len(), 2);
    assert_eq!(map.get("a"), Some(&3));
    assert_eq!(map.get("b"), Some(&2));
}

#[test]
fn remove_returns_the_value_once() {
    let mut map: NameMap<u32> = NameMap::new();
    map.insert("a".to_string(), 1);
    map.insert("b".to_string(), 2);
    assert_eq!(map.remove("a"), Some(1));
    assert_eq!(map.remove("a"), None);
    assert_eq!(map.len(), 1);
    assert_eq!(map.get("b"), Some(&2));
}

#[test]
fn entries_keep_the_order_of_arrival() {
    let mut map: NameMap<u32> = NameMap::new();
    map.insert("x".to_string(), 10);
    map.insert("y".to_string(), 20);
    map.insert("z".to_string(), 30);
    assert_eq!(map.find("y"), Some(1));
    assert_eq!(map.name_at(0), "x");
    assert_eq!(*map.item_at(2), 30);
    map.remove("x");
    assert_eq!(map.find("y"), Some(0));
    assert_eq!(map.name_at(1), "z");
}

#[test]
fn clear_removes_everything() {
    let mut map: NameMap<u32> = NameMap::new();
    map.insert("a".to_string(), 1);
    map.clear();
    assert_eq!(map.len(), 0);
    assert!(!map.contains_key("a"));
}

#[test]
fn names_differ_by_case_and_length() {
    let mut map: NameMap<u32> = NameMap::new();
    map.insert("job".to_string(), 1);
    map.insert("Job".to_string(), 2);
    map.insert("jobs".to_string(), 3);
    map.insert("".to_string(), 4);
    assert_eq!(map.len(), 4);
    assert_eq!(map.get("job"), Some(&1));
    assert_eq!(map.get("Job"), Some(&2));
    assert_eq!(map.get("jobs"), Some(&3));
    assert_eq!(map.get(""), Some(&4));
}
