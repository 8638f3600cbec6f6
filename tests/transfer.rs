use browser_favicon_buddy::cache::{CacheEntry, FaviconCache};
use browser_favicon_buddy::json::JsonValue;
use browser_favicon_buddy::transfer::{import_entries, CacheData, ImportError};

fn to_model(v: serde_json::Value) -> JsonValue {
    match v {
        serde_json::Value::Null => JsonValue::Null,
        serde_json::Value::Bool(b) => JsonValue::Bool(b),
        serde_json::Value::Number(n) => JsonValue::Number(n.to_string()),
        serde_json::Value::String(s) => JsonValue::Str(s),
        serde_json::Value::Array(a) => JsonValue::Array(a.into_iter().map(to_model).collect()),
        serde_json::Value::Object(o) => {
            JsonValue::Object(o.into_iter().map(|(k, v)| (k, to_model(v))).collect())
        }
    }
}

fn parse(text: &str) -> Option<JsonValue> {
    serde_json::from_str::<serde_json::Value>(text).ok().map(to_model)
}

fn imported(text: &str) -> FaviconCache {
    let mut cache = FaviconCache::new();
    cache.import_document(&parse(text)).expect("accepted");
    cache
}

fn key(s: &str) -> String {
    s.to_string()
}

#[test]
fn import_exported_document() {
    let c = imported(r#"{"favicon_urls":{"example.com":"icon-payload"}}"#);
    assert_eq!(c.lookup(&key("example.com")), CacheEntry::Resolved("icon-payload".to_string()));
}

#[test]
fn import_flat_map() {
    let c = imported(r#"{"example.com":"icon-payload"}"#);
    assert_eq!(c.lookup(&key("example.com")), CacheEntry::Resolved("icon-payload".to_string()));
}

#[test]
fn import_null_entry_yields_nothing() {
    let c = imported(r#"{"example.com":null}"#);
    assert_eq!(c.lookup(&key("example.com")), CacheEntry::Unresolved);
    assert!(c.resolved_entries().is_empty());
}

#[test]
fn import_object_with_url_field() {
    let c = imported(r#"{"example.com":{"url":"icon-payload"}}"#);
    assert_eq!(c.lookup(&key("example.com")), CacheEntry::Resolved("icon-payload".to_string()));
}

#[test]
fn import_probes_fields_in_order() {
    let c = imported(r#"{"a.com":{"data":"d","icon":"i"},"b.com":{"favicon":"f","data":"d"},"c.com":{"size":3}}"#);
    assert_eq!(c.lookup(&key("a.com")), CacheEntry::Resolved("i".to_string()));
    assert_eq!(c.lookup(&key("b.com")), CacheEntry::Resolved("f".to_string()));
    assert_eq!(c.lookup(&key("c.com")), CacheEntry::Unresolved);
}

#[test]
fn import_prefers_favicon_urls_object() {
    let c = imported(r#"{"favicon_urls":{"a.com":"x","b.com":null},"c.com":"y"}"#);
    assert_eq!(c.lookup(&key("a.com")), CacheEntry::Resolved("x".to_string()));
    assert_eq!(c.lookup(&key("b.com")), CacheEntry::Unresolved);
    assert_eq!(c.lookup(&key("c.com")), CacheEntry::Unresolved);
}

#[test]
fn import_rejects_non_object_and_bad_json() {
    let mut c = FaviconCache::new();
    assert_eq!(c.import_document(&parse("[1,2]")), Err(ImportError::Malformed));
    assert_eq!(c.import_document(&parse("not json")), Err(ImportError::Malformed));
    assert!(import_entries(&JsonValue::Str("x".to_string())).is_none());
}

#[test]
fn import_merges_and_keeps_other_entries() {
    let mut c = FaviconCache::new();
    c.put(key("a.com"), Some("old".to_string()));
    c.put(key("z.com"), None);
    c.import_document(&parse(r#"{"a.com":"new","b.com":"b"}"#)).unwrap();
    assert_eq!(c.lookup(&key("a.com")), CacheEntry::Resolved("new".to_string()));
    assert_eq!(c.lookup(&key("b.com")), CacheEntry::Resolved("b".to_string()));
    assert_eq!(c.lookup(&key("z.com")), CacheEntry::PermanentFailure);
}

#[test]
fn export_then_import_round_trip() {
    let mut c = FaviconCache::new();
    c.put(key("A"), Some("x".to_string()));
    c.put(key("B"), Some("y".to_string()));
    c.put(key("C"), None);
    let doc = CacheData::from_cache(&c).to_document();
    let mut fresh = FaviconCache::new();
    fresh.import_document(&Some(doc)).unwrap();
    assert_eq!(fresh.lookup(&key("A")), CacheEntry::Resolved("x".to_string()));
    assert_eq!(fresh.lookup(&key("B")), CacheEntry::Resolved("y".to_string()));
    assert_eq!(fresh.lookup(&key("C")), CacheEntry::Unresolved);
    assert_eq!(fresh.resolved_entries().len(), 2);
}

#[test]
fn export_of_empty_cache_is_empty_document() {
    let doc = CacheData::from_cache(&FaviconCache::new()).to_document();
    match doc {
        JsonValue::Object(e) => {
            assert_eq!(e.len(), 1);
            assert_eq!(e[0].0, "favicon_urls");
            assert!(matches!(&e[0].1, JsonValue::Object(f) if f.is_empty()));
        }
        _ => panic!("not an object"),
    }
}

#[test]
fn validate_accepts_known_shapes() {
    assert_eq!(CacheData::validate_file(&parse(r#"{"favicon_urls":{"a":"b"}}"#)), Ok(()));
    assert_eq!(CacheData::validate_file(&parse(r#"{"a":null}"#)), Ok(()));
    assert_eq!(CacheData::validate_file(&parse(r#"{"a":{"url":"b"}, "n": 1}"#)), Ok(()));
    assert_eq!(CacheData::validate_file(&parse(r#"{"favicon_urls":3}"#)), Ok(()));
}

#[test]
fn validate_accepts_any_object_like_import() {
    assert_eq!(CacheData::validate_file(&parse(r#"{"a":1,"b":true}"#)), Ok(()));
    assert_eq!(CacheData::validate_file(&parse("{}")), Ok(()));
    let mut c = FaviconCache::new();
    assert_eq!(c.import_document(&parse(r#"{"a":1}"#)), Ok(()));
}

#[test]
fn validate_refuses_other_shapes() {
    assert_eq!(CacheData::validate_file(&parse("oops")), Err(ImportError::Malformed));
    assert_eq!(CacheData::validate_file(&parse("[]")), Err(ImportError::UnknownFormat));
    assert_eq!(CacheData::validate_file(&parse("\"text\"")), Err(ImportError::UnknownFormat));
}

#[test]
fn native_document_keeps_failures() {
    let mut c = FaviconCache::new();
    c.put(key("a.com"), Some("x".to_string()));
    c.put(key("b.com"), None);
    let back = FaviconCache::load_document(&Some(c.to_document()));
    assert_eq!(back.lookup(&key("a.com")), CacheEntry::Resolved("x".to_string()));
    assert_eq!(back.lookup(&key("b.com")), CacheEntry::PermanentFailure);
}

#[test]
fn load_accepts_exported_document_and_tolerates_garbage() {
    let c = FaviconCache::load_document(&parse(r#"{"favicon_urls":{"a.com":"x"}}"#));
    assert_eq!(c.lookup(&key("a.com")), CacheEntry::Resolved("x".to_string()));
    let empty = FaviconCache::load_document(&parse("{broken"));
    assert!(empty.resolved_entries().is_empty());
    let missing = FaviconCache::load_document(&None);
    assert_eq!(missing.lookup(&key("a.com")), CacheEntry::Unresolved);
}
