use codescope::cache::{AnalysisCache, FileHash};
use codescope::types::ModuleIR;

fn module(path: &str, loc: u32) -> ModuleIR {
    ModuleIR {
        path: path.to_string(),
        language: None,
        loc,
        comment_lines: 0,
        blank_lines: 0,
        symbols: vec![],
        metrics: vec![],
        outgoing: vec![],
        incoming: vec![],
    }
}

#[test]
fn test_compute_hash_is_hex_and_content_dependent() {
    let a = FileHash::new("src/a.ts".to_string(), 100, 1700000000);
    let b = FileHash::new("src/a.ts".to_string(), 101, 1700000000);
    let ha = a.compute_hash();
    let hb = b.compute_hash();
    assert_eq!(ha.len(), 64);
    assert!(ha.chars().all(|c| c.is_ascii_hexdigit()));
    assert_ne!(ha, hb);
    assert_ne!(ha, "src/a.ts:100:1700000000");
    assert_eq!(ha, a.compute_hash());
}

#[test]
fn test_cache_insert_get_contains_clear() {
    let mut cache = AnalysisCache::new();
    assert!(!cache.contains("k1"));
    assert!(cache.get("k1").is_none());

    cache.insert("k1".to_string(), module("a.ts", 10));
    assert!(cache.contains("k1"));
    assert_eq!(cache.get("k1").unwrap().loc, 10);

    cache.insert("k2".to_string(), module("b.ts", 20));
    assert_eq!(cache.get("k2").unwrap().path, "b.ts");
    assert_eq!(cache.get("k1").unwrap().path, "a.ts");

    cache.clear();
    assert!(!cache.contains("k1"));
    assert!(!cache.contains("k2"));
}

#[test]
fn test_cache_insert_replaces_under_same_key() {
    let mut cache = AnalysisCache::new();
    cache.insert("k".to_string(), module("a.ts", 10));
    cache.insert("k".to_string(), module("a.ts", 99));
    assert_eq!(cache.get("k").unwrap().loc, 99);
}
