use game_detector::decode::{permit, require, DecodeError, Field};
use game_detector::keyvalues::{
    block_entries, field_block, field_flag, field_text, field_u64, field_usize, find, leaf_text,
    parse_document, single_value, Entry, Node,
};

fn text(s: &str) -> Node {
    Node::Text(s.to_string())
}

fn entry(key: &str, values: Vec<Node>) -> Entry {
    Entry { key: key.to_string(), values }
}

#[test]
fn a_document_is_the_value_under_its_top_level_key() {
    let doc = parse_document("\"root\" { \"a\" \"1\" \"b\" { \"c\" \"x y\" } }").unwrap();
    let entries = block_entries(&doc).unwrap();
    assert_eq!(entries.len(), 2);
    assert_eq!(entries[0].key, "a");
    assert_eq!(leaf_text(single_value(&entries[0]).unwrap()), Some("1"));
    assert_eq!(entries[1].key, "b");
    let inner = block_entries(single_value(&entries[1]).unwrap()).unwrap();
    assert_eq!(inner.len(), 1);
    assert_eq!(inner[0].key, "c");
    assert_eq!(leaf_text(&inner[0].values[0]), Some("x y"));
}

#[test]
fn a_document_may_be_a_single_piece_of_text() {
    let doc = parse_document("\"key\" \"value\"").unwrap();
    assert_eq!(leaf_text(&doc), Some("value"));
    assert!(block_entries(&doc).is_none());
}

#[test]
fn escape_sequences_are_resolved() {
    let doc = parse_document("\"k\" \"C:\\\\Program Files\\\\Steam\"").unwrap();
    assert_eq!(leaf_text(&doc), Some("C:\\Program Files\\Steam"));
}

#[test]
fn a_repeated_key_has_several_values() {
    let doc = parse_document("\"root\" { \"a\" \"1\" \"b\" \"x\" \"a\" \"2\" }").unwrap();
    let entries = block_entries(&doc).unwrap();
    assert_eq!(entries.len(), 2);
    let a = match find(entries, "a") {
        Field::Value(values) => values,
        _ => panic!("no values"),
    };
    assert_eq!(a.len(), 2);
    assert_eq!(leaf_text(&a[0]), Some("1"));
    assert_eq!(leaf_text(&a[1]), Some("2"));
    assert!(single_value(&entries[0]).is_none());
    assert!(matches!(field_text(entries, "a"), Field::Malformed));
    assert!(matches!(field_text(entries, "b"), Field::Value("x")));
}

#[test]
fn text_that_is_no_document_is_refused() {
    assert!(parse_document("").is_err());
    assert!(parse_document("\"root\" {").is_err());
    assert!(parse_document("\"root\" { \"a\" }").is_err());
    assert!(parse_document("{ }").is_err());
    assert!(!parse_document("\"root\" {").unwrap_err().is_empty());
}

#[test]
fn keys_are_found_whatever_their_case() {
    let entries = vec![entry("AppID", vec![text("70")]), entry("name", vec![text("Half-Life")])];
    assert!(matches!(field_u64(&entries, "appid"), Field::Value(70)));
    assert!(matches!(field_u64(&entries, "APPID"), Field::Value(70)));
    assert!(matches!(field_text(&entries, "Name"), Field::Value("Half-Life")));
    assert!(matches!(field_text(&entries, "nam"), Field::Absent));
    assert!(matches!(field_text(&entries, "names"), Field::Absent));
}

#[test]
fn only_ascii_letters_lose_their_case() {
    let entries = vec![entry("É", vec![text("1")]), entry("[", vec![text("2")])];
    assert!(matches!(field_text(&entries, "é"), Field::Absent));
    assert!(matches!(field_text(&entries, "É"), Field::Value("1")));
    assert!(matches!(field_text(&entries, "{"), Field::Absent));
    assert!(matches!(field_text(&entries, "["), Field::Value("2")));
}

#[test]
fn a_key_in_two_spellings_is_malformed() {
    let entries = vec![
        entry("appid", vec![text("1")]),
        entry("name", vec![text("x")]),
        entry("AppID", vec![text("2")]),
    ];
    assert!(matches!(field_text(&entries, "appid"), Field::Malformed));
    assert!(matches!(field_text(&entries, "AppID"), Field::Malformed));
    assert!(matches!(field_u64(&entries, "APPID"), Field::Malformed));
    assert!(matches!(find(&entries, "appid"), Field::Malformed));
    assert!(matches!(field_text(&entries, "name"), Field::Value("x")));
    assert!(matches!(find(&entries, "other"), Field::Absent));

    let doc = parse_document("\"r\" { \"appid\" \"1\" \"AppID\" \"2\" }").unwrap();
    let entries = block_entries(&doc).unwrap();
    assert_eq!(entries.len(), 2);
    assert!(matches!(field_u64(entries, "appid"), Field::Malformed));
}

#[test]
fn a_field_is_absent_malformed_or_has_a_value() {
    let entries = vec![
        entry("number", vec![text("12")]),
        entry("word", vec![text("twelve")]),
        entry("flag", vec![text("1")]),
        entry("block", vec![Node::Block(vec![entry("x", vec![text("y")])])]),
        entry("none", vec![]),
    ];
    assert!(matches!(field_u64(&entries, "number"), Field::Value(12)));
    assert!(matches!(field_usize(&entries, "number"), Field::Value(12)));
    assert!(matches!(field_u64(&entries, "word"), Field::Malformed));
    assert!(matches!(field_u64(&entries, "block"), Field::Malformed));
    assert!(matches!(field_u64(&entries, "none"), Field::Malformed));
    assert!(matches!(field_u64(&entries, "other"), Field::Absent));
    assert!(matches!(field_flag(&entries, "flag"), Field::Value(true)));
    assert!(matches!(field_flag(&entries, "number"), Field::Malformed));
    assert!(matches!(field_text(&entries, "block"), Field::Malformed));
    assert!(matches!(field_block(&entries, "word"), Field::Malformed));
    match field_block(&entries, "block") {
        Field::Value(inner) => assert_eq!(inner[0].key, "x"),
        _ => panic!("no block"),
    }
}

#[test]
fn a_required_field_must_be_there_and_an_optional_one_need_not() {
    assert_eq!(require(Field::Value(3u64), "f"), Ok(3));
    assert_eq!(require(Field::<u64>::Absent, "f"), Err(DecodeError::Missing("f")));
    assert_eq!(require(Field::<u64>::Malformed, "f"), Err(DecodeError::Invalid("f")));
    assert_eq!(permit(Field::Value(0u64), "f"), Ok(Some(0)));
    assert_eq!(permit(Field::<u64>::Absent, "f"), Ok(None));
    assert_eq!(permit(Field::<u64>::Malformed, "f"), Err(DecodeError::Invalid("f")));
}
