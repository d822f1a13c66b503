use food_openapi_rs::OrderedMap;

fn key(name: &str) -> String {
    name.to_string()
}

#[test]
fn new_map_is_empty() {
    let map: OrderedMap<usize> = OrderedMap::new();
    assert_eq!(map.len(), 0);
    assert!(!map.contains_key(&key("a")));
    assert_eq!(map.get(&key("a")), None);
    assert_eq!(map.index_of(&key("a")), None);
}

#[test]
fn insert_keeps_insertion_order() {
    let mut map: OrderedMap<usize> = OrderedMap::new();
    map.insert(key("zebra"), 1);
    map.insert(key("apple"), 2);
    map.insert(key("mango"), 3);
    assert_eq!(map.len(), 3);
    assert_eq!(map.key_at(0), "zebra");
    assert_eq!(map.key_at(1), "apple");
    assert_eq!(map.key_at(2), "mango");
    assert_eq!(*map.value_at(0), 1);
    assert_eq!(*map.value_at(1), 2);
    assert_eq!(*map.value_at(2), 3);
}

#[test]
fn insert_of_present_name_replaces_value_in_place() {
    let mut map: OrderedMap<usize> = OrderedMap::new();
    map.insert(key("a"), 1);
    map.insert(key("b"), 2);
    map.insert(key("a"), 3);
    assert_eq!(map.len(), 2);
    assert_eq!(map.key_at(0), "a");
    assert_eq!(*map.value_at(0), 3);
    assert_eq!(map.key_at(1), "b");
    assert_eq!(*map.value_at(1), 2);
}

#[test]
fn get_finds_the_stored_value() {
    let mut map: OrderedMap<usize> = OrderedMap::new();
    map.insert(key("a"), 10);
    map.insert(key("b"), 20);
    assert_eq!(map.get(&key("a")), Some(&10));
    assert_eq!(map.get(&key("b")), Some(&20));
    assert_eq!(map.get(&key("c")), None);
    assert!(map.contains_key(&key("b")));
    assert!(!map.contains_key(&key("B")));
}

#[test]
fn index_of_gives_the_place_of_a_name() {
    let mut map: OrderedMap<usize> = OrderedMap::new();
    map.insert(key("a"), 10);
    map.insert(key("b"), 20);
    map.insert(key("c"), 30);
    assert_eq!(map.index_of(&key("a")), Some(0));
    assert_eq!(map.index_of(&key("c")), Some(2));
    assert_eq!(map.index_of(&key("d")), None);
}

#[test]
fn replace_at_hands_out_the_earlier_value() {
    let mut map: OrderedMap<usize> = OrderedMap::new();
    map.insert(key("a"), 10);
    map.insert(key("b"), 20);
    let earlier = map.replace_at(1, 21);
    assert_eq!(earlier, 20);
    assert_eq!(map.len(), 2);
    assert_eq!(map.key_at(1), "b");
    assert_eq!(*map.value_at(1), 21);
    assert_eq!(*map.value_at(0), 10);
}

#[test]
fn empty_name_is_a_name_like_any_other() {
    let mut map: OrderedMap<usize> = OrderedMap::new();
    map.insert(String::new(), 1);
    map.insert(key("a"), 2);
    assert_eq!(map.get(&String::new()), Some(&1));
    assert_eq!(map.len(), 2);
}
