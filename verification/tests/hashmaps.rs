use hello_cargo::hashmaps::group_by_key_pairs;

fn pair(key: &str, value: i32) -> (String, i32) {
    (key.to_string(), value)
}

#[test]
fn groups_values_under_their_keys_in_input_order() {
    let pairs = vec![
        pair("apple", 1),
        pair("banana", 2),
        pair("apple", 3),
        pair("banana", 4),
        pair("apple", 5),
    ];
    let map = group_by_key_pairs(pairs);
    assert_eq!(map.len(), 2);
    assert_eq!(map.get("apple"), Some(&vec![1, 3, 5]));
    assert_eq!(map.get("banana"), Some(&vec![2, 4]));
    assert_eq!(map.get("cherry"), None);
}

#[test]
fn empty_input_gives_empty_map() {
    let map = group_by_key_pairs(Vec::new());
    assert_eq!(map.len(), 0);
    assert!(map.entries().is_empty());
    assert_eq!(map.get("apple"), None);
    assert_eq!(map.get(""), None);
}

#[test]
fn groups_hold_as_many_values_as_there_were_pairs() {
    let pairs = vec![
        pair("a", 7),
        pair("b", 7),
        pair("a", 7),
        pair("c", -1),
        pair("a", 0),
        pair("b", i32::MAX),
        pair("", i32::MIN),
    ];
    let count = pairs.len();
    let map = group_by_key_pairs(pairs);
    let total: usize = map.entries().iter().map(|entry| entry.1.len()).sum();
    assert_eq!(total, count);
    assert_eq!(map.len(), 4);
}

#[test]
fn every_pair_is_found_under_its_key_in_order() {
    let pairs = vec![
        pair("x", 3),
        pair("y", 1),
        pair("x", 2),
        pair("x", 3),
        pair("y", 9),
    ];
    let map = group_by_key_pairs(pairs.clone());
    for (at, (key, value)) in pairs.iter().enumerate() {
        let rank = pairs[..at].iter().filter(|earlier| earlier.0 == *key).count();
        assert_eq!(map.get(key).unwrap()[rank], *value);
    }
    assert_eq!(map.get("x"), Some(&vec![3, 2, 3]));
    assert_eq!(map.get("y"), Some(&vec![1, 9]));
}

#[test]
fn duplicate_values_are_kept() {
    let map = group_by_key_pairs(vec![pair("k", 1), pair("k", 1), pair("k", 1)]);
    assert_eq!(map.len(), 1);
    assert_eq!(map.get("k"), Some(&vec![1, 1, 1]));
}

#[test]
fn keys_differ_by_their_characters() {
    let map = group_by_key_pairs(vec![
        pair("apple", 1),
        pair("Apple", 2),
        pair("apple ", 3),
        pair("", 4),
    ]);
    assert_eq!(map.len(), 4);
    assert_eq!(map.get("apple"), Some(&vec![1]));
    assert_eq!(map.get("Apple"), Some(&vec![2]));
    assert_eq!(map.get("apple "), Some(&vec![3]));
    assert_eq!(map.get(""), Some(&vec![4]));
}

#[test]
fn entries_list_each_key_once_with_its_group() {
    let map = group_by_key_pairs(vec![
        pair("banana", 2),
        pair("apple", 1),
        pair("banana", 4),
    ]);
    let mut entries = map.entries().clone();
    entries.sort();
    assert_eq!(
        entries,
        vec![("apple".to_string(), vec![1]), ("banana".to_string(), vec![2, 4])]
    );
}

#[test]
fn keys_with_the_same_hash_stay_apart() {
    let map = group_by_key_pairs(vec![
        pair("Aa", 1),
        pair("BB", 2),
        pair("Aa", 3),
        pair("BB", 4),
        pair("C#", 5),
    ]);
    assert_eq!(map.len(), 3);
    assert_eq!(map.get("Aa"), Some(&vec![1, 3]));
    assert_eq!(map.get("BB"), Some(&vec![2, 4]));
    assert_eq!(map.get("C#"), Some(&vec![5]));
    assert_eq!(map.get("Ab"), None);
}

#[test]
fn many_keys_are_grouped() {
    let mut pairs = Vec::new();
    for round in 0..4 {
        for key in 0..500 {
            pairs.push((format!("key-{}", key), round * 1000 + key));
        }
    }
    let map = group_by_key_pairs(pairs);
    assert_eq!(map.len(), 500);
    for key in 0..500 {
        assert_eq!(
            map.get(&format!("key-{}", key)),
            Some(&vec![key, 1000 + key, 2000 + key, 3000 + key])
        );
    }
    assert_eq!(map.get("key-500"), None);
}
