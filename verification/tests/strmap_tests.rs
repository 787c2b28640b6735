use gac::strmap::StrMap;

#[test]
fn strmap_keeps_keys_sorted_and_reads_back_writes() {
    let mut m: StrMap<u32> = StrMap::new();
    assert!(m.is_empty());
    m.insert("b".to_string(), 2);
    m.insert("a".to_string(), 1);
    m.insert("c".to_string(), 3);
    m.insert("b".to_string(), 20);
    assert_eq!(m.len(), 3);
    assert_eq!(m.key_at(0), "a");
    assert_eq!(m.key_at(1), "b");
    assert_eq!(m.key_at(2), "c");
    assert_eq!(*m.value_at(1), 20);
    assert_eq!(m.get("b"), Some(&20));
    assert_eq!(m.get("a"), Some(&1));
    assert_eq!(m.get("zz"), None);
}

#[test]
fn strmap_orders_by_characters() {
    let mut m: StrMap<()> = StrMap::new();
    for k in ["ab", "a", "B", "", "aa"] {
        m.insert(k.to_string(), ());
    }
    let keys: Vec<&str> = (0..m.len()).map(|i| m.key_at(i).as_str()).collect();
    assert_eq!(keys, vec!["", "B", "a", "aa", "ab"]);
}
