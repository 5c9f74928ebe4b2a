//! Tests of the document model, of the serialized layout, of the recovery
//! policy's observable effects, and of the error outcomes.

use kv_store::doc::{Document, JsonVal};
use kv_store::store::{add_data, ensure_initialized, get_data, Lookup};

#[test]
fn document_set_get_serialize() {
    let mut d = Document::new();
    d.set("a", "1");
    d.set("b", "2");
    match d.get("a") {
        Some(JsonVal::Str(s)) => assert_eq!(s, "1"),
        _ => panic!("expected a string value"),
    }
    assert!(d.get("missing").is_none());
    assert_eq!(d.serialize(), "{\"a\": \"1\", \"b\": \"2\"}");
}

#[test]
fn document_overwrite_keeps_position() {
    let mut d = Document::new();
    d.set("a", "1");
    d.set("b", "2");
    d.set("a", "3");
    assert_eq!(d.serialize(), "{\"a\": \"3\", \"b\": \"2\"}");
}

#[test]
fn document_empty_serializes_to_empty_object() {
    let d = Document::new();
    assert_eq!(d.serialize(), "{}");
}

#[test]
fn initialization_is_idempotent() {
    let (first, created) = ensure_initialized(None);
    assert!(created);
    let (second, created_again) = ensure_initialized(Some(first.clone()));
    assert!(!created_again);
    assert_eq!(second, first);
}

#[test]
fn initialization_leaves_existing_contents_alone() {
    let (contents, created) = ensure_initialized(Some("{\"k\": \"v\"}".to_string()));
    assert!(!created);
    assert_eq!(contents, "{\"k\": \"v\"}");
}

#[test]
fn get_on_corrupted_contents_resets_them() {
    let r = get_data(Some("not json at all".to_string()), "key");
    assert!(r.recovered);
    assert_eq!(r.contents, "{}");
    assert!(matches!(r.outcome, Lookup::Missing));
}

#[test]
fn get_on_non_object_contents_resets_them() {
    let r = get_data(Some("[1, 2, 3]".to_string()), "key");
    assert!(r.recovered);
    assert_eq!(r.contents, "{}");
    assert!(matches!(r.outcome, Lookup::Missing));
}

#[test]
fn add_on_corrupted_contents_recovers() {
    let r = add_data(Some("{{{{".to_string()), "key", "value");
    assert!(r.recovered);
    assert_eq!(r.contents, "{\"key\": \"value\"}");
}

#[test]
fn add_on_fresh_store_bootstraps() {
    let r = add_data(None, "key", "value");
    assert!(!r.recovered);
    assert_eq!(r.contents, "{\"key\": \"value\"}");
}

#[test]
fn get_on_fresh_store_misses_without_fault() {
    let r = get_data(None, "anything");
    assert!(!r.recovered);
    assert_eq!(r.contents, "{}");
    assert!(matches!(r.outcome, Lookup::Missing));
}

#[test]
fn get_of_non_string_value_is_a_type_mismatch() {
    let r = get_data(Some("{\"key\": 42}".to_string()), "key");
    assert!(!r.recovered);
    assert!(matches!(r.outcome, Lookup::NotAString));
}

#[test]
fn add_keeps_non_string_entries() {
    let r = add_data(Some("{\"n\": 41, \"f\": false}".to_string()), "key", "value");
    assert!(!r.recovered);
    assert_eq!(r.contents, "{\"n\": 41, \"f\": false, \"key\": \"value\"}");
}

#[test]
fn add_merges_with_prior_contents() {
    let r = add_data(Some("{\"a\": \"1\"}".to_string()), "b", "2");
    assert!(!r.recovered);
    assert_eq!(r.contents, "{\"a\": \"1\", \"b\": \"2\"}");
    let g = get_data(Some(r.contents), "a");
    match g.outcome {
        Lookup::Found(v) => assert_eq!(v, "1"),
        _ => panic!("expected the prior value to survive"),
    }
}

#[test]
fn deeply_nested_contents_are_treated_as_corrupt() {
    let mut text = String::from("{\"a\": ");
    text.push_str(&"[".repeat(200_000));
    let r = add_data(Some(text.clone()), "key", "value");
    assert!(r.recovered);
    assert_eq!(r.contents, "{\"key\": \"value\"}");
    let g = get_data(Some(text), "key");
    assert!(g.recovered);
    assert_eq!(g.contents, "{}");
}

#[test]
fn moderate_nesting_still_parses() {
    let r = add_data(Some("{\"a\": [true]}".to_string()), "key", "value");
    assert!(!r.recovered);
    assert_eq!(r.contents, "{\"a\": [true], \"key\": \"value\"}");
}

#[test]
fn add_keeps_keyword_entries_readable() {
    let r = add_data(Some("{\"flag\": true, \"gone\": null}".to_string()), "key", "value");
    assert!(!r.recovered);
    assert_eq!(r.contents, "{\"flag\": true, \"gone\": null, \"key\": \"value\"}");
    let g = get_data(Some(r.contents), "key");
    match g.outcome {
        Lookup::Found(v) => assert_eq!(v, "value"),
        _ => panic!("expected the added value"),
    }
    let f = get_data(Some(g.contents), "flag");
    assert!(matches!(f.outcome, Lookup::NotAString));
}
