use rvpacker_json_txt::pool::TextPool;
use rvpacker_json_txt::tmap::{build_translation_map, EngineError, TranslationMap};

#[test]
fn dedup_preserves_first_seen_order() {
    let mut pool = TextPool::new();
    pool.insert("hello");
    pool.insert("world");
    pool.insert("hello");
    assert_eq!(pool.len(), 2);
    assert_eq!(pool.get(0).as_str(), "hello");
    assert_eq!(pool.get(1).as_str(), "world");
}

#[test]
fn pool_rejects_empty_units() {
    let mut pool = TextPool::new();
    pool.insert("");
    pool.insert("a");
    pool.insert("");
    assert_eq!(pool.len(), 1);
    assert_eq!(pool.get(0).as_str(), "a");
}

#[test]
fn pool_file_escapes_embedded_newlines() {
    let mut pool = TextPool::new();
    pool.insert("one\ntwo");
    pool.insert("three");
    assert_eq!(pool.file_string(), "one\\#two\nthree");
    assert_eq!(pool.stub_string(), "\n");
}

#[test]
fn empty_pool_writes_empty_files() {
    let pool = TextPool::new();
    assert_eq!(pool.file_string(), "");
    assert_eq!(pool.stub_string(), "");
}

#[test]
fn pool_contains_reports_membership() {
    let mut pool = TextPool::new();
    pool.insert("key");
    assert!(pool.contains("key"));
    assert!(!pool.contains("other"));
}

#[test]
fn build_zips_lines_positionally() {
    let orig = vec!["one".to_owned(), "two".to_owned()];
    let trans = vec!["eins".to_owned(), "zwei".to_owned()];
    let m = build_translation_map(&orig, &trans).unwrap();
    assert_eq!(m.lookup("one"), Some("eins".to_owned()));
    assert_eq!(m.lookup("two"), Some("zwei".to_owned()));
    assert_eq!(m.lookup("three"), None);
}

#[test]
fn build_unescapes_keys_and_trims_translations() {
    let orig = vec!["a\\#b".to_owned()];
    let trans = vec!["  x\\#y  ".to_owned()];
    let m = build_translation_map(&orig, &trans).unwrap();
    assert_eq!(m.lookup("a\nb"), Some("x\ny".to_owned()));
}

#[test]
fn build_does_not_trim_original_keys() {
    let orig = vec![" spaced ".to_owned()];
    let trans = vec!["t".to_owned()];
    let m = build_translation_map(&orig, &trans).unwrap();
    assert_eq!(m.lookup(" spaced "), Some("t".to_owned()));
    assert_eq!(m.lookup("spaced"), None);
}

#[test]
fn length_mismatch_is_rejected_with_no_partial_map() {
    let orig = vec!["a".to_owned(), "b".to_owned()];
    let trans = vec!["x".to_owned()];
    let r = build_translation_map(&orig, &trans);
    assert_eq!(r, Err(EngineError::PoolMismatch));
    let r2 = build_translation_map(&trans, &orig);
    assert_eq!(r2, Err(EngineError::PoolMismatch));
}

#[test]
fn error_message_is_not_blank() {
    let e = EngineError::PoolMismatch;
    assert!(!e.message().is_empty());
}

#[test]
fn duplicate_original_takes_last_translation() {
    let orig = vec!["dup".to_owned(), "dup".to_owned()];
    let trans = vec!["first".to_owned(), "second".to_owned()];
    let m = build_translation_map(&orig, &trans).unwrap();
    assert_eq!(m.lookup("dup"), Some("second".to_owned()));
}

#[test]
fn map_insert_overrides() {
    let mut m = TranslationMap::new();
    m.insert("k", "v1");
    m.insert("k", "v2");
    assert_eq!(m.len(), 1);
    assert_eq!(m.lookup("k"), Some("v2".to_owned()));
}

#[test]
fn blank_translation_is_untranslated() {
    let orig = vec!["greeting".to_owned(), "farewell".to_owned()];
    let trans = vec!["".to_owned(), "adieu".to_owned()];
    let m = build_translation_map(&orig, &trans).unwrap();
    assert_eq!(m.lookup("greeting"), None);
    assert_eq!(m.lookup("farewell"), Some("adieu".to_owned()));
}

#[test]
fn whitespace_only_translation_is_untranslated() {
    let orig = vec!["key".to_owned()];
    let trans = vec!["   ".to_owned()];
    let m = build_translation_map(&orig, &trans).unwrap();
    assert_eq!(m.lookup("key"), None);
}

#[test]
fn blank_duplicate_does_not_erase_earlier_translation() {
    let orig = vec!["dup".to_owned(), "dup".to_owned()];
    let trans = vec!["kept".to_owned(), "".to_owned()];
    let m = build_translation_map(&orig, &trans).unwrap();
    assert_eq!(m.lookup("dup"), Some("kept".to_owned()));
}
