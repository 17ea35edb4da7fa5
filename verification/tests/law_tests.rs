use forge_cli::commands::{stats, FileRead};
use forge_cli::compose::compose_tiles;
use forge_cli::decompose::{decompose_content, decompose_csv, decompose_text};
use forge_cli::detect::detect_format;
use forge_cli::registry::{info, list};
use forge_cli::text::{chars_of, join_strings, lines_of};

#[test]
fn every_listed_crate_is_found_by_name() {
    for c in list(&[]) {
        let found = info(&[c.name.to_string()]).unwrap();
        assert_eq!((found.name, found.version, found.description), (c.name, c.version, c.description));
    }
}

#[test]
fn detected_format_is_one_of_four() {
    for text in ["", "x", "a,b\nc,d", "{\"a\":[1]}", "[{}]", "{", "]["] {
        let f = detect_format(text);
        assert!(["json-object", "json-array", "csv", "text"].contains(&f.as_str()));
    }
}

#[test]
fn row_tiles_hold_the_lines() {
    let content = "h1,h2\nv1,v2\n\nlast";
    let by_rows: Vec<String> = decompose_csv(content).into_iter().map(|t| t.content).collect();
    let by_lines: Vec<String> = decompose_text(content).into_iter().map(|t| t.content).collect();
    assert_eq!(by_rows, by_lines);
    assert_eq!(by_lines, vec!["h1,h2", "v1,v2", "", "last"]);
}

#[test]
fn compose_undoes_csv_decomposition() {
    let content = "name,age\nAlice,30\nBob,25";
    assert_eq!(compose_tiles(&decompose_content(content, "csv")), content);
    assert_eq!(compose_tiles(&decompose_content(content, "markdown")), content);
}

#[test]
fn composition_is_a_function_of_the_tiles() {
    let tiles = decompose_text("b\na\nc");
    assert_eq!(compose_tiles(&tiles), compose_tiles(&tiles));
}

#[test]
fn joining_lines_gives_the_text_back() {
    let text = "one\n\ntwo \r three";
    let lines: Vec<String> = lines_of(&chars_of(text)).iter().map(|l| l.iter().collect()).collect();
    assert_eq!(join_strings(&lines, '\n'), text);
}

#[test]
fn stats_bounds_hold() {
    let s = stats(&["f".to_string()], FileRead::Contents("a\nbbb\n\u{e9}\ncc".to_string())).unwrap();
    assert!(s.min_tile_bytes <= s.max_tile_bytes);
    assert!(s.min_tile_bytes * s.tile_count <= s.total_bytes);
    assert!(s.total_bytes <= s.max_tile_bytes * s.tile_count);
    let e = stats(&["f".to_string()], FileRead::Contents(String::new())).unwrap();
    assert_eq!((e.tile_count, e.total_bytes, e.min_tile_bytes, e.max_tile_bytes), (0, 0, 0, 0));
}
