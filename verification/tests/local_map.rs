use tsukuyomi::local_map::{Entry, LocalKey, LocalMap};

#[test]
fn smoke_test() {
    let mut map: LocalMap<String> = LocalMap::new();

    let key: LocalKey<String> = LocalKey::new(1);

    assert!(!map.contains_key(&key));

    assert!(map.insert(&key, String::from("foo")).is_none());
    assert!(map.contains_key(&key));

    assert_eq!(map.get(&key).map(String::as_str), Some("foo"));

    assert_eq!(map.insert(&key, String::from("bar")), Some("foo".into()));
    assert!(map.contains_key(&key));

    assert_eq!(map.get(&key).map(String::as_str), Some("bar"));

    assert_eq!(map.remove(&key), Some("bar".into()));
    assert!(!map.contains_key(&key));
}

#[test]
fn entry_or_insert() {
    let mut map: LocalMap<String> = LocalMap::new();

    let key: LocalKey<String> = LocalKey::new(1);

    map = map.entry(&key).or_insert("foo".into());
    assert_eq!(map.get(&key).map(String::as_str), Some("foo"));

    map = map.entry(&key).or_insert("bar".into());
    assert_eq!(map.get(&key).map(String::as_str), Some("foo"));
}

#[test]
fn entry_or_insert_with() {
    let mut map: LocalMap<String> = LocalMap::new();

    let key: LocalKey<String> = LocalKey::new(1);

    map = map.entry(&key).or_insert_with(|| "foo".to_string());
    assert_eq!(map.get(&key).map(String::as_str), Some("foo"));

    map = map.entry(&key).or_insert_with(|| "bar".to_string());
    assert_eq!(map.get(&key).map(String::as_str), Some("foo"));
}

#[test]
fn entry_and_modify() {
    let mut map: LocalMap<String> = LocalMap::new();

    let key: LocalKey<String> = LocalKey::new(1);

    map = match map.entry(&key).and_modify(|s| s + "foo") {
        Entry::Occupied(e) => e.map,
        Entry::Vacant(e) => e.map,
    };
    assert!(!map.contains_key(&key));

    map.insert(&key, "foo".into());

    map = match map.entry(&key).and_modify(|s| s + "bar") {
        Entry::Occupied(e) => e.map,
        Entry::Vacant(e) => e.map,
    };
    assert_eq!(map.get(&key).map(String::as_str), Some("foobar"));

    map = match map.entry(&key).and_modify(|s| s + "baz") {
        Entry::Occupied(e) => e.map,
        Entry::Vacant(e) => e.map,
    };
    assert_eq!(map.get(&key).map(String::as_str), Some("foobarbaz"));
}

#[test]
fn occupied_entry() {
    let mut map: LocalMap<String> = LocalMap::new();

    let key: LocalKey<String> = LocalKey::new(1);

    map.insert(&key, "foo".into());

    let map = match map.entry(&key) {
        Entry::Occupied(mut entry) => {
            assert_eq!(entry.get(), "foo");
            assert_eq!(entry.insert("bar".into()), "foo");
            assert_eq!(entry.get(), "bar");
            let (v, rest) = entry.remove();
            assert_eq!(v, "bar");
            rest
        }
        Entry::Vacant(e) => e.map,
    };

    assert!(!map.contains_key(&key));
}

#[test]
fn local_key_const() {
    let mut map: LocalMap<String> = LocalMap::new();
    let key: LocalKey<String> = LocalKey::new(7);
    assert_eq!(key.type_id(), 7);
    map.insert(&key, "foo".into());
    assert!(map.contains_key(&key));
}

#[test]
fn distinct_keys_are_independent() {
    let mut map: LocalMap<String> = LocalMap::new();
    let a: LocalKey<String> = LocalKey::new(1);
    let b: LocalKey<String> = LocalKey::new(2);
    map.insert(&a, "left".into());
    map.insert(&b, "right".into());
    assert_eq!(map.get(&a).map(String::as_str), Some("left"));
    assert_eq!(map.get(&b).map(String::as_str), Some("right"));
    assert_eq!(map.remove(&a), Some("left".into()));
    assert_eq!(map.get(&b).map(String::as_str), Some("right"));
}
