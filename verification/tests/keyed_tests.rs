use viewkit::keyed::{find_key, get_entry, insert_entry};

#[test]
fn read_after_set() {
    let mut t: Vec<(String, u32)> = Vec::new();
    insert_entry(&mut t, "a".to_string(), 1);
    insert_entry(&mut t, "b".to_string(), 2);
    insert_entry(&mut t, "a".to_string(), 3);
    assert_eq!(get_entry(&t, "a"), Some(&3));
    assert_eq!(get_entry(&t, "b"), Some(&2));
    assert_eq!(get_entry(&t, "c"), None);
    // a key set again keeps its place
    assert_eq!(find_key(&t, "a"), Some(0));
    assert_eq!(t.len(), 2);
}
