use openshell_vm::string_map::StringMap;
use std::collections::BTreeMap;

#[test]
fn string_map_walks_like_an_ordered_map() {
    let pairs = [
        ("b", "1"),
        ("", "2"),
        ("ab", "3"),
        ("a", "4"),
        ("\u{e9}", "5"),
        ("z", "6"),
        ("\u{ffff}", "7"),
        ("\u{10000}", "8"),
        ("b", "9"),
    ];
    let mut ours = StringMap::new();
    let mut theirs: BTreeMap<String, String> = BTreeMap::new();
    for (k, v) in pairs {
        ours.insert(k.to_string(), v.to_string());
        theirs.insert(k.to_string(), v.to_string());
    }
    let expected: Vec<(String, String)> = theirs.into_iter().collect();
    assert_eq!(ours.len(), expected.len());
    assert_eq!(ours.entries(), &expected);
    assert_eq!(ours.get("b"), Some("9".to_string()));
    assert_eq!(ours.get("missing"), None);
    assert!(!ours.is_empty());
    assert_eq!(ours.into_entries(), expected);
}

#[test]
fn string_map_from_pairs_keeps_the_last() {
    let list = vec![
        ("k".to_string(), "1".to_string()),
        ("k".to_string(), "2".to_string()),
    ];
    let map = StringMap::from_pairs(&list);
    assert_eq!(map.len(), 1);
    assert_eq!(map.get("k"), Some("2".to_string()));
    assert!(StringMap::default().is_empty());
    assert_eq!(map.clone(), map);
}
