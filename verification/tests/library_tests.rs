use forge_cli::commands::{
    compose, decompose, detect, format_override, pipeline, pipeline_config, pipeline_input, stats,
    FileRead, PipelineConfig, TilesFile,
};
use forge_cli::compose::compose_tiles;
use forge_cli::decompose::{decompose_content, decompose_csv, decompose_json, decompose_text};
use forge_cli::detect::detect_format;
use forge_cli::registry::{info, list};
use forge_cli::stats::{tile_stats, total_bytes};
use forge_cli::text::{chars_of, count_char, join_strings, lines_of, split_chars, trim_chars};
use forge_cli::tile::{make_tile, Tile, TileSet};

fn strs(v: &[Vec<char>]) -> Vec<String> {
    v.iter().map(|c| c.iter().collect()).collect()
}

fn args(v: &[&str]) -> Vec<String> {
    v.iter().map(|s| s.to_string()).collect()
}

fn meta(t: &Tile) -> Vec<(String, String)> {
    t.metadata
        .as_ref()
        .unwrap()
        .iter()
        .map(|e| (e.key.clone(), e.value.clone()))
        .collect()
}

#[test]
fn lines_follow_str_lines() {
    assert_eq!(strs(&lines_of(&chars_of("a\r\nb\n"))), vec!["a", "b"]);
    assert_eq!(strs(&lines_of(&chars_of("a\n\nb"))), vec!["a", "", "b"]);
    assert_eq!(strs(&lines_of(&chars_of("x\r"))), vec!["x\r"]);
    assert_eq!(strs(&lines_of(&chars_of("\n"))), vec![""]);
    assert!(lines_of(&chars_of("")).is_empty());
}

#[test]
fn trim_removes_unicode_whitespace() {
    let t: String = trim_chars(&chars_of("  \t hi there \u{3000}\n")).iter().collect();
    assert_eq!(t, "hi there");
    assert!(trim_chars(&chars_of(" \u{2003} ")).is_empty());
}

#[test]
fn split_keeps_empty_fields() {
    assert_eq!(strs(&split_chars(&chars_of("a,,b"), ',')), vec!["a", "", "b"]);
    assert_eq!(strs(&split_chars(&chars_of(""), ',')), vec![""]);
    assert_eq!(strs(&split_chars(&chars_of("a,"), ',')), vec!["a", ""]);
}

#[test]
fn count_and_join() {
    assert_eq!(count_char(&chars_of("a,b,,c"), ','), 3);
    assert_eq!(join_strings(&args(&["a", "b", ""]), '\n'), "a\nb\n");
    assert_eq!(join_strings(&Vec::new(), '\n'), "");
}

#[test]
fn detection_edge_cases() {
    assert_eq!(detect_format("  {\"a\":1}  \n"), "json-object");
    assert_eq!(detect_format("{}"), "json-object");
    assert_eq!(detect_format("[]"), "json-array");
    assert_eq!(detect_format("{not json}"), "text");
    assert_eq!(detect_format("[1,2"), "text");
    assert_eq!(detect_format("a,b\nc,d,e"), "text");
    assert_eq!(detect_format("a,b"), "text");
    assert_eq!(detect_format("a,b\n\n"), "text");
    assert_eq!(detect_format("1,2\n3,4\n5,6\n7,8\n9,10\n11"), "csv");
    assert_eq!(detect_format(""), "text");
}

#[test]
fn csv_metadata_is_keyed_by_header() {
    let tiles = decompose_csv("name, age\nAlice , 30,extra");
    assert_eq!(tiles.len(), 2);
    assert_eq!(tiles[1].content, "Alice , 30,extra");
    assert_eq!(tiles[1].index, 1);
    assert_eq!(
        meta(&tiles[0]),
        vec![("name".to_string(), "name".to_string()), ("age".to_string(), "age".to_string())]
    );
    assert_eq!(
        meta(&tiles[1]),
        vec![
            ("name".to_string(), "Alice".to_string()),
            ("age".to_string(), "30".to_string()),
            ("unknown".to_string(), "extra".to_string()),
        ]
    );
}

#[test]
fn json_object_members_become_tiles() {
    let tiles = decompose_json("{\"b\": 2, \"a\": \"x\"}");
    assert_eq!(tiles.len(), 2);
    assert_eq!(tiles[0].content, "\"x\"");
    assert_eq!(meta(&tiles[0]), vec![("key".to_string(), "a".to_string())]);
    assert_eq!(tiles[1].content, "2");
    assert_eq!(meta(&tiles[1]), vec![("key".to_string(), "b".to_string())]);
}

#[test]
fn json_array_elements_are_rendered_compactly() {
    let tiles = decompose_json("[1, \"two\", {\"k\": [true, null]}]");
    let contents: Vec<&str> = tiles.iter().map(|t| t.content.as_str()).collect();
    assert_eq!(contents, vec!["1", "\"two\"", "{\"k\":[true,null]}"]);
    assert!(tiles.iter().all(|t| t.metadata.is_none()));
}

#[test]
fn json_that_is_no_container_falls_back_to_lines() {
    let tiles = decompose_content("[1, 2", "json-array");
    assert_eq!(tiles.len(), 1);
    assert_eq!(tiles[0].content, "[1, 2");
    let tiles = decompose_content("42", "json-object");
    assert_eq!(tiles.len(), 1);
    assert_eq!(tiles[0].content, "42");
}

#[test]
fn unknown_format_decomposes_by_lines() {
    let tiles = decompose_content("a,b\nc,d", "yaml");
    assert_eq!(tiles.len(), 2);
    assert!(tiles[0].metadata.is_none());
    assert_eq!(tiles[1].content, "c,d");
}

#[test]
fn tile_ids_are_uuid_v4_text() {
    for t in decompose_text("a\nb") {
        let id: Vec<char> = t.id.chars().collect();
        assert_eq!(id.len(), 36);
        for (i, c) in id.iter().enumerate() {
            if i == 8 || i == 13 || i == 18 || i == 23 {
                assert_eq!(*c, '-');
            } else {
                assert!(c.is_ascii_hexdigit() && !c.is_ascii_uppercase());
            }
        }
        assert_eq!(id[14], '4');
        assert!(matches!(id[19], '8' | '9' | 'a' | 'b'));
    }
    let t = make_tile(7, "x".to_string(), None);
    assert_eq!(t.index, 7);
    assert_eq!(t.id.len(), 36);
}

#[test]
fn compose_sorts_stably_by_index() {
    let tiles = vec![
        make_tile(2, "c".to_string(), None),
        make_tile(0, "a".to_string(), None),
        make_tile(1, "b".to_string(), None),
        make_tile(0, "a2".to_string(), None),
    ];
    assert_eq!(compose_tiles(&tiles), "a\na2\nb\nc");
    assert_eq!(compose_tiles(&Vec::new()), "");
}

#[test]
fn compose_undoes_line_decomposition() {
    let content = "x\n\ny z\nlast";
    assert_eq!(compose_tiles(&decompose_text(content)), content);
    // A `\r\n` line ending does not survive: the law leaves such texts out.
    assert_eq!(compose_tiles(&decompose_text("a\r\nb")), "a\nb");
    // Nor does a final line feed.
    assert_eq!(compose_tiles(&decompose_text("a\n")), "a");
}

#[test]
fn stats_count_bytes_of_utf8() {
    let r = stats(&args(&["f.txt"]), FileRead::Contents("ab\nc\n\u{e9}\u{e9}".to_string())).unwrap();
    assert_eq!(r.format, "text");
    assert_eq!(r.source, "f.txt");
    assert_eq!(r.tile_count, 3);
    assert_eq!(r.total_bytes, 7);
    assert_eq!(r.min_tile_bytes, 1);
    assert_eq!(r.max_tile_bytes, 4);
    let e = tile_stats("text".to_string(), "e".to_string(), &Vec::new());
    assert_eq!((e.tile_count, e.total_bytes, e.min_tile_bytes, e.max_tile_bytes), (0, 0, 0, 0));
    assert_eq!(total_bytes(&decompose_text("ab\nc")), Some(3));
}

#[test]
fn command_errors() {
    assert_eq!(detect(&[], FileRead::Missing).err().unwrap(), "Usage: forge detect <file>");
    assert_eq!(
        detect(&args(&["data.csv"]), FileRead::Missing).err().unwrap(),
        "File not found: data.csv"
    );
    assert_eq!(
        detect(&args(&["data.csv"]), FileRead::Failed("denied".to_string())).err().unwrap(),
        "Failed to read data.csv: denied"
    );
    assert_eq!(
        decompose(&[], FileRead::Missing).err().unwrap(),
        "Usage: forge decompose <file> [--format FMT]"
    );
    assert_eq!(compose(&[], TilesFile::Missing).err().unwrap(), "Usage: forge compose <tiles.json>");
    assert_eq!(
        compose(&args(&["t.json"]), TilesFile::Invalid("bad".to_string())).err().unwrap(),
        "Failed to parse tiles JSON: bad"
    );
    assert_eq!(
        compose(&args(&["t.json"]), TilesFile::Missing).err().unwrap(),
        "File not found: t.json"
    );
    assert_eq!(stats(&[], FileRead::Missing).err().unwrap(), "Usage: forge stats <file>");
    assert_eq!(
        pipeline_config(&[], FileRead::Missing).err().unwrap(),
        "Usage: forge pipeline <config.json>"
    );
    assert_eq!(info(&[]).err().unwrap(), "Usage: forge info <crate-name>");
    assert_eq!(info(&args(&["nope"])).err().unwrap(), "Unknown crate: nope");
}

#[test]
fn detect_command_reports_file_and_format() {
    let d = detect(&args(&["data.csv"]), FileRead::Contents("a,b\n1,2".to_string())).unwrap();
    assert_eq!(d.file, "data.csv");
    assert_eq!(d.detected_format, "csv");
}

#[test]
fn decompose_command_honours_format_override() {
    let ts = decompose(&args(&["f.txt", "--format", "csv"]), FileRead::Contents("a\nb".to_string()))
        .unwrap();
    assert_eq!(ts.format, "csv");
    assert_eq!(ts.source, "f.txt");
    assert_eq!(ts.tile_count, 2);
    assert!(ts.tiles[0].metadata.is_some());
    let ts = decompose(&args(&["f.txt", "--format"]), FileRead::Contents("a\nb".to_string())).unwrap();
    assert_eq!(ts.format, "text");
    assert_eq!(format_override(&args(&["f", "x", "--format", "json-array", "--format", "csv"]), "text".to_string()), "json-array");
    assert_eq!(format_override(&args(&["--format", "csv"]), "text".to_string()), "text");
}

#[test]
fn compose_command_reassembles() {
    let ts = TileSet {
        format: "text".to_string(),
        source: "s".to_string(),
        tile_count: 2,
        tiles: vec![make_tile(1, "world".to_string(), None), make_tile(0, "hello".to_string(), None)],
    };
    assert_eq!(compose(&args(&["t.json"]), TilesFile::Parsed(ts)).unwrap(), "hello\nworld");
}

#[test]
fn pipeline_steps() {
    let cfg = pipeline_config(
        &args(&["config.json"]),
        FileRead::Contents("{\"input\": \"data.txt\", \"format\": \"text\"}".to_string()),
    )
    .unwrap();
    assert_eq!(cfg.input.as_deref(), Some("data.txt"));
    assert_eq!(cfg.format.as_deref(), Some("text"));
    let cfg = pipeline_config(&args(&["c.json"]), FileRead::Contents("{\"input\": 5}".to_string())).unwrap();
    assert!(cfg.input.is_none());
    assert_eq!(pipeline_input(&cfg).err().unwrap(), "Config missing 'input' field");
    let e = pipeline_config(&args(&["c.json"]), FileRead::Contents("not json".to_string())).err().unwrap();
    assert!(e.starts_with("Failed to parse config JSON: "));
    let cfg = PipelineConfig { input: Some("in.csv".to_string()), format: None };
    let path = pipeline_input(&cfg).unwrap();
    let r = pipeline(&path, &cfg.format, FileRead::Contents("a,b\nc,d".to_string())).unwrap();
    assert_eq!((r.input.as_str(), r.format.as_str(), r.tiles_produced), ("in.csv", "csv", 2));
    let r = pipeline(&path, &Some("json-array".to_string()), FileRead::Contents("[1,2,3]".to_string())).unwrap();
    assert_eq!((r.format.as_str(), r.tiles_produced), ("json-array", 3));
}

#[test]
fn registry_lookup() {
    let c = info(&args(&["forge-stats"])).unwrap();
    assert_eq!(c.name, "forge-stats");
    assert_eq!(c.version, "0.1.0");
    assert_eq!(c.description, "Tile statistics and analytics");
    assert_eq!(list(&[]).len(), 8);
}
