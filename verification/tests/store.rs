//! Tests of the vault store's notes codec: reading a missing or
//! present file, the exact rendered format, escaping, failure cases,
//! and interoperability with a general-purpose JSON parser.

use vault_store::Note;
use vault_store::VaultError;
use vault_store::notes_from_bytes;
use vault_store::notes_from_content;
use vault_store::notes_to_content;

fn note(id: &str, content: &str, created_at: &str, updated_at: Option<&str>) -> Note {
    Note {
        id: id.as_bytes().to_vec(),
        content: content.as_bytes().to_vec(),
        created_at: created_at.as_bytes().to_vec(),
        updated_at: updated_at.map(|u| u.as_bytes().to_vec()),
    }
}

fn assert_notes_eq(a: &[Note], b: &[Note]) {
    assert_eq!(a.len(), b.len());
    for (x, y) in a.iter().zip(b.iter()) {
        assert_eq!(x.id, y.id);
        assert_eq!(x.content, y.content);
        assert_eq!(x.created_at, y.created_at);
        assert_eq!(x.updated_at, y.updated_at);
    }
}

#[test]
fn missing_file_reads_as_empty_list() {
    let r = notes_from_content(None);
    assert!(r.is_ok());
    assert_eq!(r.unwrap().len(), 0);
}

#[test]
fn empty_list_renders_as_empty_array() {
    let out = notes_to_content(&Vec::new());
    assert_eq!(out, b"[]".to_vec());
}

#[test]
fn single_note_renders_exactly() {
    let notes = vec![note("1", "hello", "2024-01-01T00:00:00Z", None)];
    let out = notes_to_content(&notes);
    let expected = "[\n  {\n    \"id\": \"1\",\n    \"content\": \"hello\",\n    \"created_at\": \"2024-01-01T00:00:00Z\",\n    \"updated_at\": null\n  }\n]";
    assert_eq!(String::from_utf8(out).unwrap(), expected);
}

#[test]
fn updated_note_renders_string_value() {
    let notes = vec![note("7", "x", "a", Some("b"))];
    let out = String::from_utf8(notes_to_content(&notes)).unwrap();
    assert!(out.contains("\"updated_at\": \"b\""));
}

#[test]
fn write_then_read_round_trips() {
    let notes = vec![
        note("1", "hello", "2024-01-01T00:00:00Z", None),
        note("2", "world", "2024-01-02T00:00:00Z", Some("2024-01-03T00:00:00Z")),
    ];
    let bytes = notes_to_content(&notes);
    let back = notes_from_content(Some(bytes)).unwrap();
    assert_notes_eq(&notes, &back);
}

#[test]
fn writing_twice_gives_identical_content() {
    let notes = vec![note("1", "hello", "t0", None)];
    let first = notes_to_content(&notes);
    let second = notes_to_content(&notes);
    assert_eq!(first, second);
}

#[test]
fn empty_vault_scenario() {
    // A fresh vault: no file yet, so the read yields the empty list.
    let r = notes_from_content(None).unwrap();
    assert_eq!(r.len(), 0);
    // One note is written, then read back identically.
    let notes = vec![note("1", "hello", "2024-01-01T00:00:00Z", None)];
    let file = notes_to_content(&notes);
    let back = notes_from_content(Some(file)).unwrap();
    assert_notes_eq(&notes, &back);
}

#[test]
fn malformed_content_is_a_format_failure() {
    let r = notes_from_bytes(&b"not json".to_vec());
    assert_eq!(r.unwrap_err(), VaultError::FormatFailure);
    let quoted = notes_from_bytes(&b"\"not json\"".to_vec());
    assert_eq!(quoted.unwrap_err(), VaultError::FormatFailure);
}

#[test]
fn missing_id_field_is_a_format_failure() {
    let text = "[\n  {\n    \"content\": \"hello\",\n    \"created_at\": \"t\",\n    \"updated_at\": null\n  }\n]";
    let r = notes_from_bytes(&text.as_bytes().to_vec());
    assert_eq!(r.unwrap_err(), VaultError::FormatFailure);
}

#[test]
fn unknown_extra_key_is_a_format_failure() {
    let text = "[{\"id\": \"1\", \"content\": \"c\", \"created_at\": \"t\", \"updated_at\": null, \"extra\": 1}]";
    let r = notes_from_bytes(&text.as_bytes().to_vec());
    assert_eq!(r.unwrap_err(), VaultError::FormatFailure);
}

#[test]
fn trailing_garbage_is_a_format_failure() {
    let r = notes_from_bytes(&b"[] []".to_vec());
    assert_eq!(r.unwrap_err(), VaultError::FormatFailure);
}

#[test]
fn blank_space_between_tokens_is_accepted() {
    let text = "  [ { \"id\" :\t\"1\" , \"content\" : \"c\" ,\r\n \"created_at\" : \"t\" , \"updated_at\" : \"u\" } ]  ";
    let back = notes_from_bytes(&text.as_bytes().to_vec()).unwrap();
    let expected = vec![note("1", "c", "t", Some("u"))];
    assert_notes_eq(&expected, &back);
}

#[test]
fn escapes_round_trip() {
    let notes = vec![note("q\"b\\c", "line1\nline2\ttabbed", "t\u{1}", None)];
    let bytes = notes_to_content(&notes);
    let back = notes_from_bytes(&bytes).unwrap();
    assert_notes_eq(&notes, &back);
}

#[test]
fn control_bytes_render_as_hex_escapes() {
    let notes = vec![note("1", "a\u{1}b", "t", None)];
    let out = String::from_utf8(notes_to_content(&notes)).unwrap();
    assert!(out.contains("a\\u0001b"));
}

#[test]
fn named_controls_render_as_short_escapes() {
    let notes = vec![note("1", "a\nb\tc\rd\u{8}e\u{c}f", "t", None)];
    let out = String::from_utf8(notes_to_content(&notes)).unwrap();
    assert!(out.contains("a\\nb\\tc\\rd\\be\\ff"));
}

#[test]
fn fields_in_any_order_are_accepted() {
    let text = "[{\"updated_at\": \"u\", \"created_at\": \"t\", \"content\": \"c\", \"id\": \"1\"}]";
    let back = notes_from_bytes(&text.as_bytes().to_vec()).unwrap();
    let expected = vec![note("1", "c", "t", Some("u"))];
    assert_notes_eq(&expected, &back);
}

#[test]
fn missing_updated_at_defaults_to_none() {
    let text = "[{\"id\": \"1\", \"content\": \"c\", \"created_at\": \"t\"}]";
    let back = notes_from_bytes(&text.as_bytes().to_vec()).unwrap();
    assert_eq!(back.len(), 1);
    assert!(back[0].updated_at.is_none());
}

#[test]
fn duplicate_key_is_a_format_failure() {
    let text = "[{\"id\": \"1\", \"id\": \"2\", \"content\": \"c\", \"created_at\": \"t\"}]";
    let r = notes_from_bytes(&text.as_bytes().to_vec());
    assert_eq!(r.unwrap_err(), VaultError::FormatFailure);
}

#[test]
fn unicode_escapes_decode_to_utf8() {
    let text = "[{\"id\": \"\\u00e9\", \"content\": \"\\u20ac\", \"created_at\": \"\\ud83d\\ude00\", \"updated_at\": null}]";
    let back = notes_from_bytes(&text.as_bytes().to_vec()).unwrap();
    assert_eq!(back[0].id, "é".as_bytes().to_vec());
    assert_eq!(back[0].content, "€".as_bytes().to_vec());
    assert_eq!(back[0].created_at, "😀".as_bytes().to_vec());
}

#[test]
fn lone_surrogate_is_a_format_failure() {
    let high = "[{\"id\": \"\\ud83d\", \"content\": \"c\", \"created_at\": \"t\"}]";
    let low = "[{\"id\": \"\\ude00\", \"content\": \"c\", \"created_at\": \"t\"}]";
    assert_eq!(notes_from_bytes(&high.as_bytes().to_vec()).unwrap_err(), VaultError::FormatFailure);
    assert_eq!(notes_from_bytes(&low.as_bytes().to_vec()).unwrap_err(), VaultError::FormatFailure);
}

#[test]
fn named_escapes_are_decoded() {
    let text = "[{\"id\": \"a\\\"b\\\\c\\/d\", \"content\": \"x\\by\\fz\\nu\\rv\\tw\", \"created_at\": \"\\u0041\", \"updated_at\": null}]";
    let back = notes_from_bytes(&text.as_bytes().to_vec()).unwrap();
    assert_eq!(back[0].id, b"a\"b\\c/d".to_vec());
    assert_eq!(back[0].content, b"x\x08y\x0cz\nu\rv\tw".to_vec());
    assert_eq!(back[0].created_at, b"A".to_vec());
}

#[test]
fn error_kinds_describe_themselves() {
    assert_eq!(VaultError::FormatFailure.describe(), "Failed to parse notes");
    assert_eq!(VaultError::IoFailure.describe(), "Failed to access notes file");
}

#[test]
fn rendered_output_is_valid_json() {
    let notes = vec![
        note("1", "he\"llo\nworld", "2024-01-01T00:00:00Z", None),
        note("2", "plain", "2024-01-02T00:00:00Z", Some("2024-01-03T00:00:00Z")),
    ];
    let out = String::from_utf8(notes_to_content(&notes)).unwrap();
    let v: serde_json::Value = serde_json::from_str(&out).unwrap();
    let arr = v.as_array().unwrap();
    assert_eq!(arr.len(), 2);
    assert_eq!(arr[0]["id"], serde_json::Value::String("1".to_string()));
    assert_eq!(arr[0]["content"], serde_json::Value::String("he\"llo\nworld".to_string()));
    assert!(arr[0]["updated_at"].is_null());
    assert_eq!(arr[1]["updated_at"], serde_json::Value::String("2024-01-03T00:00:00Z".to_string()));
}

#[test]
fn rendered_output_matches_reference_pretty_printer() {
    // The empty array prints identically in the reference library's
    // pretty form; a reparse through it keeps every field of a
    // non-empty one.
    let empty: Vec<Note> = Vec::new();
    let ours = String::from_utf8(notes_to_content(&empty)).unwrap();
    let reference = serde_json::to_string_pretty(&serde_json::Value::Array(Vec::new())).unwrap();
    assert_eq!(ours, reference);
    let notes = vec![note("1", "hello", "t", None)];
    let bytes = notes_to_content(&notes);
    let reparsed = notes_from_bytes(&bytes).unwrap();
    assert_notes_eq(&notes, &reparsed);
}

#[test]
fn file_order_is_preserved() {
    let notes = vec![
        note("c", "third", "t3", None),
        note("a", "first", "t1", None),
        note("b", "second", "t2", Some("t4")),
    ];
    let bytes = notes_to_content(&notes);
    let back = notes_from_bytes(&bytes).unwrap();
    assert_eq!(back[0].id, b"c".to_vec());
    assert_eq!(back[1].id, b"a".to_vec());
    assert_eq!(back[2].id, b"b".to_vec());
}

#[test]
fn reference_writer_output_is_accepted() {
    // A file written by a general-purpose JSON library (alphabetical
    // key order, named escapes) reads back as the same note.
    let mut obj = serde_json::Map::new();
    obj.insert("content".to_string(), serde_json::Value::String("hello\nworld".to_string()));
    obj.insert("created_at".to_string(), serde_json::Value::String("t".to_string()));
    obj.insert("id".to_string(), serde_json::Value::String("1".to_string()));
    obj.insert("updated_at".to_string(), serde_json::Value::Null);
    let arr = serde_json::Value::Array(vec![serde_json::Value::Object(obj)]);
    let text = serde_json::to_string_pretty(&arr).unwrap();
    let back = notes_from_bytes(&text.as_bytes().to_vec()).unwrap();
    let expected = vec![note("1", "hello\nworld", "t", None)];
    assert_notes_eq(&expected, &back);
}

#[test]
fn empty_array_with_blank_space_reads_as_empty() {
    let back = notes_from_bytes(&b" [ ] ".to_vec()).unwrap();
    assert_eq!(back.len(), 0);
}
