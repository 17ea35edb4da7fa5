use forge_cli::compose::compose_tiles;
use forge_cli::decompose::decompose_content;
use forge_cli::detect::detect_format;
use forge_cli::registry::{forge_crates, info};
use forge_cli::tile::TileSet;

#[test]
fn test_detect_text() {
    assert_eq!(detect_format("hello world\nline two"), "text");
}

#[test]
fn test_detect_csv() {
    assert_eq!(detect_format("name,age\nAlice,30\nBob,25"), "csv");
}

#[test]
fn test_detect_json_object() {
    assert_eq!(detect_format("{\"key\": \"value\"}"), "json-object");
}

#[test]
fn test_detect_json_array() {
    assert_eq!(detect_format("[1, 2, 3]"), "json-array");
}

#[test]
fn test_decompose_text_lines() {
    let tiles = decompose_content("line1\nline2\nline3", "text");
    assert_eq!(tiles.len(), 3);
    assert_eq!(tiles[0].content, "line1");
    assert_eq!(tiles[1].content, "line2");
    assert_eq!(tiles[2].content, "line3");
}

#[test]
fn test_decompose_csv_rows() {
    let tiles = decompose_content("name,age\nAlice,30\nBob,25", "csv");
    assert_eq!(tiles.len(), 3); // header + data rows
    assert_eq!(tiles[0].index, 0);
}

#[test]
fn test_decompose_json_array() {
    let tiles = decompose_content("[1, 2, 3]", "json-array");
    assert_eq!(tiles.len(), 3);
    assert_eq!(tiles[0].content, "1");
}

#[test]
fn test_decompose_json_object() {
    let tiles = decompose_content("{\"a\": 1, \"b\": 2}", "json-object");
    assert_eq!(tiles.len(), 2);
}

#[test]
fn test_tile_ids_are_unique() {
    let tiles = decompose_content("a\nb\nc", "text");
    let ids: std::collections::HashSet<&str> = tiles.iter().map(|t| t.id.as_str()).collect();
    assert_eq!(ids.len(), tiles.len());
}

#[test]
fn test_compose_reassembles() {
    let tiles = decompose_content("hello\nworld", "text");
    let tile_set = TileSet {
        format: "text".to_string(),
        source: "test".to_string(),
        tile_count: tiles.len(),
        tiles,
    };
    let result = compose_tiles(&tile_set.tiles);
    assert_eq!(result, "hello\nworld");
}

#[test]
fn test_list_contains_all_crates() {
    let crates = forge_crates();
    assert!(crates.len() >= 7);
    let names: Vec<&str> = crates.iter().map(|c| c.name).collect();
    assert!(names.contains(&"forge-core"));
    assert!(names.contains(&"forge-decompose"));
    assert!(names.contains(&"forge-compose"));
    assert!(names.contains(&"forge-detect"));
}

#[test]
fn test_info_unknown_crate() {
    let result = info(&["nonexistent".to_string()]);
    assert!(result.is_err());
}

#[test]
fn test_stats_empty_file() {
    let tiles = decompose_content("", "text");
    assert!(tiles.is_empty() || tiles.len() == 1);
}

#[test]
fn test_format_override_in_decompose_args() {
    // Simulate parsing --format override
    let args = vec!["--format".to_string(), "csv".to_string()];
    let mut format = "text".to_string();
    let mut i = 0;
    while i < args.len() {
        if args[i] == "--format" && i + 1 < args.len() {
            format = args[i + 1].clone();
            break;
        }
        i += 1;
    }
    assert_eq!(format, "csv");
}
