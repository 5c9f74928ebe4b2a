//! The same pipelines exercised once more, against the second test suite of
//! the store.

use kv_store::store::{add_data, ensure_initialized, get_data, Lookup};

fn put(state: Option<String>, key: &str, value: &str) -> Option<String> {
    Some(add_data(state, key, value).contents)
}

fn fetch(state: &Option<String>, key: &str) -> String {
    let r = get_data(state.clone(), key);
    match r.outcome {
        Lookup::Found(v) => v,
        Lookup::Missing => {
            println!("Key not found");
            String::new()
        }
        Lookup::NotAString => panic!("Value is not a string"),
    }
}

#[test]
fn tests_test_add_single_value() {
    let state = put(None, "key", "value");

    let contents = state.unwrap();
    let json = jsonparser::JSONParser::from(&contents).unwrap();
    let value = json.get("key").unwrap();

    assert_eq!(value.as_str().unwrap(), "value");
}

#[test]
fn tests_test_get_single_value() {
    let state = put(None, "key", "value");

    let value = fetch(&state, "key");

    assert_eq!(value, "value");
}

#[test]
fn tests_test_multiple_key_values() {
    let state = put(None, "key1", "value1");
    let state = put(state, "key2", "value2");
    let state = put(state, "key3", "value3");

    assert_eq!(fetch(&state, "key1"), "value1");
    assert_eq!(fetch(&state, "key2"), "value2");
    assert_eq!(fetch(&state, "key3"), "value3");
}

#[test]
fn tests_test_overwrite_existing_value() {
    let state = put(None, "key", "old_value");
    let state = put(state, "key", "new_value");

    assert_eq!(fetch(&state, "key"), "new_value");
}

#[test]
fn tests_test_special_characters() {
    let state = put(None, "special!@#$", "value with spaces");
    let state = put(state, "unicode_key_🦀", "unicode_value_⭐");

    assert_eq!(fetch(&state, "special!@#$"), "value with spaces");
    assert_eq!(fetch(&state, "unicode_key_🦀"), "unicode_value_⭐");
}

#[test]
fn tests_test_get_nonexistent_key() {
    let value = fetch(&None, "nonexistent_key");
    assert_eq!(value, "");
}

#[test]
fn tests_test_empty_file_initialization() {
    let (contents, created) = ensure_initialized(None);

    assert!(created);
    assert_eq!(contents, "{}");
}

#[test]
fn tests_test_long_key_value() {
    let long_key = "k".repeat(1000);
    let long_value = "v".repeat(1000);
    let state = put(None, &long_key, &long_value);

    assert_eq!(fetch(&state, &long_key), long_value);
}

#[test]
fn tests_test_empty_strings() {
    let state = put(None, "", "empty_key");
    let state = put(state, "empty_value", "");

    assert_eq!(fetch(&state, ""), "empty_key");
    assert_eq!(fetch(&state, "empty_value"), "");
}

#[test]
fn tests_test_json_structure_preservation() {
    let state = put(None, "key1", "value1");
    let state = put(state, "key2", "value2");

    let contents = state.unwrap();
    assert!(contents.starts_with("{"));
    assert!(contents.ends_with("}"));
    assert!(contents.contains("{\"key1\": \"value1\", \"key2\": \"value2\"}"));
}

#[test]
fn tests_test_file_corruption_recovery() {
    let state = Some("invalid json".to_string());

    let state = put(state, "key", "value");
    assert_eq!(fetch(&state, "key"), "value");
}

#[test]
fn tests_test_whitespace_keys() {
    let state = put(None, "   spaced_key   ", "value");
    let state = put(state, "key_with_\t_tab", "value2");
    let state = put(state, "key_with_\n_newline", "value3");

    assert_eq!(fetch(&state, "   spaced_key   "), "value");
    assert_eq!(fetch(&state, "key_with_\t_tab"), "value2");
    assert_eq!(fetch(&state, "key_with_\n_newline"), "value3");
}
