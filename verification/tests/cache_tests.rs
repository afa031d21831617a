use picbad::cache::{CachedFile, TransformCache};
use sha2::{Digest, Sha256};

fn keys(v: &[CachedFile]) -> Vec<String> {
    v.iter().map(|f| f.key.clone()).collect()
}

#[test]
fn new_cache_is_empty() {
    let c = TransformCache::new("./data/cache".to_string(), 2048);
    let s = c.stats();
    assert_eq!((s.items, s.bytes, s.max_bytes), (0, 0, 2048));
}

#[test]
fn key_hashes_id_colon_query() {
    let q = "w=Some(1200)&h=None&fmt=webp&q=Some(85)";
    let expected = hex::encode(Sha256::digest(format!("img-1:{q}").as_bytes()));
    assert_eq!(TransformCache::key("img-1", q), expected);
    assert_eq!(TransformCache::key("img-1", q).len(), 64);
    assert_ne!(TransformCache::key("img-1", q), TransformCache::key("img-2", q));
}

#[test]
fn path_for_joins_directory() {
    let c = TransformCache::new("./data/cache".to_string(), 10);
    assert_eq!(c.path_for("abc", "png"), "./data/cache/abc.png");
    let d = TransformCache::new("/tmp/".to_string(), 10);
    assert_eq!(d.path_for("abc", "webp"), "/tmp/abc.webp");
}

#[test]
fn get_returns_stored_path() {
    let mut c = TransformCache::new("d".to_string(), 100);
    let ev = c.insert_at("a".to_string(), "d/a.png".to_string(), 40, 1);
    assert!(ev.is_empty());
    assert_eq!(c.get_at("a", 2), Some("d/a.png".to_string()));
    assert_eq!(c.get_at("b", 2), None);
    let ev = c.insert("b".to_string(), "d/b.png".to_string(), 10);
    assert!(ev.is_empty());
    assert_eq!(c.get("b"), Some("d/b.png".to_string()));
}

#[test]
fn evicts_least_recently_used_first() {
    let mut c = TransformCache::new("d".to_string(), 100);
    c.insert_at("a".to_string(), "d/a".to_string(), 40, 1);
    c.insert_at("b".to_string(), "d/b".to_string(), 40, 2);
    assert!(c.get_at("a", 3).is_some());
    let ev = c.insert_at("c".to_string(), "d/c".to_string(), 40, 4);
    assert_eq!(keys(&ev), vec!["b".to_string()]);
    assert_eq!(ev[0].entry.path, "d/b");
    assert_eq!(c.get_at("b", 5), None);
    assert!(c.get_at("a", 5).is_some());
    assert!(c.get_at("c", 5).is_some());
    let s = c.stats();
    assert_eq!((s.items, s.bytes), (2, 80));
}

#[test]
fn evicts_no_more_than_needed_and_in_order_of_use() {
    let mut c = TransformCache::new("d".to_string(), 100);
    c.insert_at("a".to_string(), "d/a".to_string(), 30, 5);
    c.insert_at("b".to_string(), "d/b".to_string(), 30, 3);
    c.insert_at("c".to_string(), "d/c".to_string(), 30, 4);
    let ev = c.insert_at("e".to_string(), "d/e".to_string(), 60, 9);
    assert_eq!(keys(&ev), vec!["b".to_string(), "c".to_string()]);
    let s = c.stats();
    assert_eq!((s.items, s.bytes), (2, 90));
}

#[test]
fn oversized_file_does_not_stay() {
    let mut c = TransformCache::new("d".to_string(), 100);
    c.insert_at("a".to_string(), "d/a".to_string(), 50, 1);
    let ev = c.insert_at("big".to_string(), "d/big".to_string(), 150, 2);
    assert_eq!(keys(&ev), vec!["a".to_string(), "big".to_string()]);
    assert_eq!(c.stats().items, 0);
}

#[test]
fn equal_use_times_leave_in_storage_order() {
    let mut c = TransformCache::new("d".to_string(), 50);
    c.insert_at("x".to_string(), "d/x".to_string(), 20, 7);
    c.insert_at("y".to_string(), "d/y".to_string(), 20, 7);
    let ev = c.insert_at("z".to_string(), "d/z".to_string(), 20, 7);
    assert_eq!(keys(&ev), vec!["x".to_string()]);
}

#[test]
fn storing_a_key_again_replaces_it() {
    let mut c = TransformCache::new("d".to_string(), 100);
    c.insert_at("a".to_string(), "d/a1".to_string(), 40, 1);
    c.insert_at("a".to_string(), "d/a2".to_string(), 10, 2);
    let s = c.stats();
    assert_eq!((s.items, s.bytes), (1, 10));
    assert_eq!(c.get_at("a", 3), Some("d/a2".to_string()));
}

#[test]
fn clear_gives_back_all_paths() {
    let mut c = TransformCache::new("d".to_string(), 100);
    c.insert_at("a".to_string(), "d/a".to_string(), 1, 1);
    c.insert_at("b".to_string(), "d/b".to_string(), 2, 2);
    assert_eq!(c.clear(), vec!["d/a".to_string(), "d/b".to_string()]);
    let s = c.stats();
    assert_eq!((s.items, s.bytes), (0, 0));
    assert_eq!(c.get_at("a", 3), None);
}

#[test]
fn remove_forgets_one_file() {
    let mut c = TransformCache::new("d".to_string(), 100);
    c.insert_at("a".to_string(), "d/a".to_string(), 5, 1);
    c.insert_at("b".to_string(), "d/b".to_string(), 6, 2);
    let f = c.remove("a").expect("stored");
    assert_eq!((f.key.as_str(), f.entry.path.as_str(), f.entry.size, f.entry.last_access), ("a", "d/a", 5, 1));
    assert!(c.remove("a").is_none());
    let s = c.stats();
    assert_eq!((s.items, s.bytes), (1, 6));
}

#[test]
fn get_touches_last_use() {
    let mut c = TransformCache::new("d".to_string(), 100);
    c.insert_at("a".to_string(), "d/a".to_string(), 50, 1);
    c.insert_at("b".to_string(), "d/b".to_string(), 50, 2);
    c.get_at("a", 10);
    let ev = c.insert_at("c".to_string(), "d/c".to_string(), 1, 11);
    assert_eq!(keys(&ev), vec!["b".to_string()]);
}
