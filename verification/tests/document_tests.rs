use forge_cli::commands::config_from_document;
use forge_cli::compose::compose_tiles;
use forge_cli::decompose::{decompose_csv, document_tiles};
use forge_cli::detect::{detect_format, format_of};
use forge_cli::json::{JsonDocument, JsonMember};
use forge_cli::tile::make_tile;
use std::collections::BTreeMap;

fn member(key: &str, rendered: &str, text: Option<&str>) -> JsonMember {
    JsonMember { key: key.to_string(), rendered: rendered.to_string(), text: text.map(|t| t.to_string()) }
}

#[test]
fn tiles_of_a_given_document() {
    let doc = JsonDocument::Array(vec!["1".to_string(), "\"x\"".to_string()]);
    let tiles = document_tiles(&doc, "unused");
    let contents: Vec<&str> = tiles.iter().map(|t| t.content.as_str()).collect();
    assert_eq!(contents, vec!["1", "\"x\""]);
    let doc = JsonDocument::Object(vec![member("a", "2", None)]);
    let tiles = document_tiles(&doc, "unused");
    assert_eq!(tiles.len(), 1);
    assert_eq!(tiles[0].content, "2");
    let m = tiles[0].metadata.as_ref().unwrap();
    assert_eq!((m[0].key.as_str(), m[0].value.as_str()), ("key", "a"));
    let tiles = document_tiles(&JsonDocument::Scalar, "p\nq");
    assert_eq!(tiles.len(), 2);
    assert_eq!(tiles[1].content, "q");
}

#[test]
fn format_of_a_given_document() {
    assert_eq!(format_of("{x}", &Some(JsonDocument::Scalar)), "json-object");
    assert_eq!(format_of("[x]", &Some(JsonDocument::Array(Vec::new()))), "json-array");
    assert_eq!(format_of("{x}", &Some(JsonDocument::Invalid("bad".to_string()))), "text");
    assert_eq!(format_of("[1]", &None), "text");
    assert_eq!(format_of("a,b\nc,d", &None), "csv");
}

#[test]
fn config_of_a_given_document() {
    assert_eq!(
        config_from_document(JsonDocument::Invalid("e".to_string())).err().unwrap(),
        "Failed to parse config JSON: e"
    );
    let cfg = config_from_document(JsonDocument::Object(vec![
        member("format", "3", None),
        member("input", "\"in.txt\"", Some("in.txt")),
    ]))
    .unwrap();
    assert_eq!(cfg.input.as_deref(), Some("in.txt"));
    assert!(cfg.format.is_none());
    let cfg = config_from_document(JsonDocument::Array(vec!["1".to_string()])).unwrap();
    assert!(cfg.input.is_none() && cfg.format.is_none());
}

#[test]
fn permuted_tiles_compose_alike() {
    let a = vec![
        make_tile(0, "x".to_string(), None),
        make_tile(1, "y".to_string(), None),
        make_tile(2, "z".to_string(), None),
    ];
    let b = vec![
        make_tile(2, "z".to_string(), None),
        make_tile(0, "x".to_string(), None),
        make_tile(1, "y".to_string(), None),
    ];
    assert_eq!(compose_tiles(&a), compose_tiles(&b));
    assert_eq!(compose_tiles(&b), "x\ny\nz");
}

#[test]
fn detection_ignores_surrounding_whitespace() {
    assert_eq!(detect_format("\u{3000} [1] \n"), detect_format("[1]"));
    assert_eq!(detect_format("\t a,b\nc,d  "), "csv");
}

#[test]
fn csv_metadata_map_keeps_the_last_column_of_a_key() {
    let tiles = decompose_csv("k,k,z\n1,2,3");
    let mut map = BTreeMap::new();
    for e in tiles[1].metadata.as_ref().unwrap() {
        map.insert(e.key.clone(), e.value.clone());
    }
    assert_eq!(map.len(), 2);
    assert_eq!(map["k"], "2");
    assert_eq!(map["z"], "3");
}
