use doctrine::listing::canonical_id;
use doctrine::sorted::{SortedMap, SortedSet};

#[test]
fn a_read_gives_back_the_last_write() {
    let mut m: SortedMap<u32> = SortedMap::new();
    m.insert("b".to_string(), 1);
    m.insert("a".to_string(), 2);
    m.insert("b".to_string(), 3);
    assert_eq!(m.get("b"), Some(&3));
    assert_eq!(m.get("a"), Some(&2));
    assert_eq!(m.get("c"), None);
    assert_eq!(m.len(), 2);
    assert_eq!(m.key_at(0), "a");
    assert_eq!(m.key_at(1), "b");
    assert_eq!(*m.value_at(1), 3);
}

#[test]
fn keys_iterate_in_string_order() {
    let mut m: SortedMap<()> = SortedMap::new();
    for k in ["issue", "improvement", "Zeta", "ä", "", "is"] {
        m.insert(k.to_string(), ());
    }
    let keys: Vec<&str> = (0..m.len()).map(|i| m.key_at(i).as_str()).collect();
    let mut expected = vec!["issue", "improvement", "Zeta", "ä", "", "is"];
    expected.sort();
    assert_eq!(keys, expected);
}

#[test]
fn a_set_holds_each_member_once_in_order() {
    let mut s = SortedSet::new();
    for k in ["PHASE-02", "PHASE-01", "PHASE-02"] {
        s.insert(k.to_string());
    }
    assert_eq!(s.len(), 2);
    assert_eq!(s.at(0), "PHASE-01");
    assert!(s.contains("PHASE-02"));
    assert!(!s.contains("PHASE-03"));
}

#[test]
fn canonical_ids_pad_to_three_digits() {
    assert_eq!(canonical_id("SL", 7), "SL-007");
    assert_eq!(canonical_id("SPEC", 1234), "SPEC-1234");
}
