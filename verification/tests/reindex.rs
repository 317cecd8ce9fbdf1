use resume_manager::reindex::{normalize_indexed_map, renumber};

fn lookup<'a>(m: &'a [(String, String)], k: &str) -> Option<&'a String> {
    m.iter().find(|(key, _)| key == k).map(|(_, v)| v)
}

#[test]
fn renumber_keys_each_entry_by_position() {
    let items: Vec<String> = (0..12).map(|i| format!("item{}", i)).collect();
    let r = renumber(items.clone());
    assert_eq!(r.len(), 12);
    for (i, item) in items.iter().enumerate() {
        assert_eq!(lookup(&r, &(i + 1).to_string()), Some(item));
    }
    let keys: Vec<&str> = r.iter().map(|(k, _)| k.as_str()).collect();
    assert_eq!(keys, vec!["1", "10", "11", "12", "2", "3", "4", "5", "6", "7", "8", "9"]);
}

#[test]
fn normalize_indexed_map_orders_by_key_number() {
    let m = vec![
        ("10".to_string(), "ten".to_string()),
        ("2".to_string(), "two".to_string()),
        ("x".to_string(), "other".to_string()),
    ];
    let r = normalize_indexed_map(m, String::new());
    assert_eq!(lookup(&r, "1").map(|s| s.as_str()), Some("two"));
    assert_eq!(lookup(&r, "2").map(|s| s.as_str()), Some("ten"));
    assert_eq!(lookup(&r, "3").map(|s| s.as_str()), Some("other"));
    let empty = normalize_indexed_map(Vec::new(), "默认".to_string());
    assert_eq!(empty, vec![("1".to_string(), "默认".to_string())]);
}
