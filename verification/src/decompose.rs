//! Decomposition of content into tiles: by lines, by CSV rows, or by the
//! elements and members of a JSON document.
use vstd::prelude::*;
use crate::json::{JsonDocument, JsonDocumentView, JsonMemberView, json_document, parse_json};
use crate::text::{
    char_views, chars_of, count_of, law_line_count, law_lines_have_no_line_feed, lines, lines_of,
    slice_of, split, split_chars, string_of, trim, trim_chars,
};
use crate::tile::{
    MetaEntry, MetaView, Tile, TileShape, lemma_meta_map, make_tile, meta_map, shape_contents,
    tiles_fit, tiles_view,
};

verus! {

/// One tile per line, without metadata.
pub open spec fn text_shapes(content: Seq<char>) -> Seq<TileShape> {
    lines(content).map_values(|l: Seq<char>| (l, None::<MetaView>))
}

/// The CSV header names: the comma-separated fields of the first line, each
/// trimmed; a single empty name where there is no line.
pub open spec fn csv_headers(content: Seq<char>) -> Seq<Seq<char>> {
    let ls = lines(content);
    let header = if ls.len() > 0 {
        ls[0]
    } else {
        Seq::<char>::empty()
    };
    split(header, ',').map_values(|h: Seq<char>| trim(h))
}

/// The header name of column `j`, or `unknown` past the last header.
pub open spec fn csv_key(headers: Seq<Seq<char>>, j: int) -> Seq<char> {
    if j < headers.len() {
        headers[j]
    } else {
        "unknown"@
    }
}

/// The metadata of one CSV row, recorded column by column: each trimmed
/// field under the header name of its column.
pub open spec fn csv_row_meta(headers: Seq<Seq<char>>, line: Seq<char>) -> MetaView {
    let fields = split(line, ',');
    Seq::new(fields.len(), |j: int| (csv_key(headers, j), trim(fields[j])))
}

/// `m` is the key-value map of a CSV row: a key stands in it exactly where
/// some column carries it, and each column's trimmed field stands under its
/// key unless a later column carries the same key.
pub open spec fn is_row_map(
    m: Map<Seq<char>, Seq<char>>,
    headers: Seq<Seq<char>>,
    line: Seq<char>,
) -> bool {
    let fields = split(line, ',');
    &&& forall|k: Seq<char>|
        #[trigger] m.dom().contains(k) <==> exists|j: int|
            0 <= j < fields.len() && csv_key(headers, j) == k
    &&& forall|j: int|
        0 <= j < fields.len() && (forall|j2: int|
            j < j2 < fields.len() ==> csv_key(headers, j2) != csv_key(headers, j)) ==> m[#[trigger] csv_key(headers, j)] == trim(fields[j])
}

/// The recorded metadata of a CSV row makes the row's key-value map.
pub proof fn lemma_csv_row_map(headers: Seq<Seq<char>>, line: Seq<char>)
    ensures
        is_row_map(meta_map(csv_row_meta(headers, line)), headers, line),
{
    let m = csv_row_meta(headers, line);
    let fields = split(line, ',');
    lemma_meta_map(m);
    assert forall|k: Seq<char>| #[trigger] meta_map(m).dom().contains(k) <==> exists|j: int|
        0 <= j < fields.len() && csv_key(headers, j) == k by {
        if exists|j: int| 0 <= j < fields.len() && csv_key(headers, j) == k {
            let j = choose|j: int| 0 <= j < fields.len() && csv_key(headers, j) == k;
            assert(m[j].0 == k);
        }
    }
    assert forall|j: int|
        0 <= j < fields.len() && (forall|j2: int|
            j < j2 < fields.len() ==> csv_key(headers, j2) != csv_key(headers, j)) implies meta_map(
        m,
    )[#[trigger] csv_key(headers, j)] == trim(fields[j]) by {
        assert(m[j].0 == csv_key(headers, j));
        assert forall|j2: int| j < j2 < m.len() implies m[j2].0 != m[j].0 by {
            assert(m[j2].0 == csv_key(headers, j2));
        }
    }
}

/// One tile per line, the header line included, with the row's fields as
/// metadata.
pub open spec fn csv_shapes(content: Seq<char>) -> Seq<TileShape> {
    let headers = csv_headers(content);
    lines(content).map_values(|l: Seq<char>| (l, Some(csv_row_meta(headers, l))))
}

/// One tile per array element, or one per object member (its value, with
/// the member's key as metadata under `key`); otherwise one per line.
pub open spec fn json_shapes(content: Seq<char>) -> Seq<TileShape> {
    document_shapes(json_document(content), content)
}

/// One tile per element of an array document, or one per member of an
/// object document (its value, with the member's key as metadata under
/// `key`); for any other document, one per line of `content`.
pub open spec fn document_shapes(doc: JsonDocumentView, content: Seq<char>) -> Seq<TileShape> {
    match doc {
        JsonDocumentView::Array(items) => items.map_values(|x: Seq<char>| (x, None::<MetaView>)),
        JsonDocumentView::Object(members) => members.map_values(
            |m: JsonMemberView| (m.rendered, Some(seq![("key"@, m.key)])),
        ),
        _ => text_shapes(content),
    }
}

/// The way a format name decomposes.
pub enum Decomposer {
    Lines,
    Csv,
    Json,
}

/// `csv` decomposes by rows, `json-object` and `json-array` by the JSON
/// document, and every other name (`text` among them) by lines.
pub open spec fn decomposer_for(format: Seq<char>) -> Decomposer {
    if format == "csv"@ {
        Decomposer::Csv
    } else if format == "json-object"@ || format == "json-array"@ {
        Decomposer::Json
    } else {
        Decomposer::Lines
    }
}

/// What decomposing `content` by `format` yields.
pub open spec fn decomposition(content: Seq<char>, format: Seq<char>) -> Seq<TileShape> {
    match decomposer_for(format) {
        Decomposer::Lines => text_shapes(content),
        Decomposer::Csv => csv_shapes(content),
        Decomposer::Json => json_shapes(content),
    }
}

/// Splits `content` into one tile per line.
pub fn decompose_text(content: &str) -> (tiles: Vec<Tile>)
    ensures
        tiles_fit(tiles_view(tiles@), text_shapes(content@)),
{
    let chars = chars_of(content);
    let ls = lines_of(&chars);
    let ghost shapes = text_shapes(content@);
    let mut tiles: Vec<Tile> = Vec::new();
    let mut i: usize = 0;
    while i < ls.len()
        invariant
            i <= ls.len(),
            shapes.len() == ls.len(),
            char_views(ls@) == lines(content@),
            shapes == text_shapes(content@),
            tiles_fit(tiles_view(tiles@), shapes.take(i as int)),
        decreases ls.len() - i,
    {
        let line = string_of(&ls[i], 0, ls[i].len());
        assert(ls@[i as int]@.subrange(0, ls@[i as int]@.len() as int) =~= ls@[i as int]@);
        let t = make_tile(i, line, None);
        let ghost before = tiles@;
        tiles.push(t);
        assert(tiles_view(tiles@) =~= tiles_view(before).push(t@));
        assert(shapes.take(i + 1) =~= shapes.take(i as int).push(shapes[i as int]));
        i = i + 1;
    }
    assert(shapes.take(ls.len() as int) =~= shapes);
    tiles
}

/// The metadata entries of one CSV row.
fn csv_row_entries(headers: &Vec<Vec<char>>, line: &Vec<char>) -> (entries: Vec<MetaEntry>)
    ensures
        entries@.map_values(|e: MetaEntry| e@) == csv_row_meta(char_views(headers@), line@),
{
    let fields = split_chars(line, ',');
    let ghost want = csv_row_meta(char_views(headers@), line@);
    let mut entries: Vec<MetaEntry> = Vec::new();
    let mut j: usize = 0;
    while j < fields.len()
        invariant
            j <= fields.len(),
            char_views(fields@) == split(line@, ','),
            want == csv_row_meta(char_views(headers@), line@),
            entries@.map_values(|e: MetaEntry| e@) == want.take(j as int),
        decreases fields.len() - j,
    {
        let key = if j < headers.len() {
            string_of(&headers[j], 0, headers[j].len())
        } else {
            String::from_str("unknown")
        };
        proof {
            if j < headers.len() {
                assert(headers@[j as int]@.subrange(0, headers@[j as int]@.len() as int)
                    =~= headers@[j as int]@);
            }
        }
        let field = trim_chars(&fields[j]);
        let value = string_of(&field, 0, field.len());
        assert(field@.subrange(0, field@.len() as int) =~= field@);
        let e = MetaEntry { key, value };
        let ghost before = entries@;
        entries.push(e);
        assert(entries@.map_values(|e: MetaEntry| e@) =~= before.map_values(|e: MetaEntry| e@).push(
            e@,
        ));
        assert(want.take(j + 1) =~= want.take(j as int).push(want[j as int]));
        j = j + 1;
    }
    assert(want.take(fields.len() as int) =~= want);
    entries
}

/// Splits CSV `content` into one tile per row, the header row included,
/// with each row's fields keyed by the header names.
pub fn decompose_csv(content: &str) -> (tiles: Vec<Tile>)
    ensures
        tiles_fit(tiles_view(tiles@), csv_shapes(content@)),
        forall|i: int|
            0 <= i < tiles.len() ==> ((#[trigger] tiles_view(tiles@)[i]).metadata matches Some(m)
                && is_row_map(meta_map(m), csv_headers(content@), lines(content@)[i])),
{
    let chars = chars_of(content);
    let ls = lines_of(&chars);
    let header: Vec<char> = if ls.len() > 0 {
        slice_of(&ls[0], 0, ls[0].len())
    } else {
        Vec::new()
    };
    proof {
        if ls.len() > 0 {
            assert(ls@[0]@.subrange(0, ls@[0]@.len() as int) =~= ls@[0]@);
        }
    }
    let raw = split_chars(&header, ',');
    let mut headers: Vec<Vec<char>> = Vec::new();
    let mut j: usize = 0;
    while j < raw.len()
        invariant
            j <= raw.len(),
            char_views(raw@) == split(header@, ','),
            char_views(headers@) == char_views(raw@).take(j as int).map_values(
                |h: Seq<char>| trim(h),
            ),
        decreases raw.len() - j,
    {
        let h = trim_chars(&raw[j]);
        let ghost before = headers@;
        headers.push(h);
        assert(char_views(headers@) =~= char_views(before).push(h@));
        assert(char_views(raw@).take(j + 1) =~= char_views(raw@).take(j as int).push(raw@[j as int]@));
        assert(char_views(raw@).take(j + 1).map_values(|h: Seq<char>| trim(h)) =~= char_views(
            raw@,
        ).take(j as int).map_values(|h: Seq<char>| trim(h)).push(trim(raw@[j as int]@)));
        j = j + 1;
    }
    assert(char_views(raw@).take(raw.len() as int) =~= char_views(raw@));
    assert(char_views(headers@) =~= csv_headers(content@));
    let ghost shapes = csv_shapes(content@);
    let mut tiles: Vec<Tile> = Vec::new();
    let mut i: usize = 0;
    while i < ls.len()
        invariant
            i <= ls.len(),
            shapes.len() == ls.len(),
            char_views(ls@) == lines(content@),
            char_views(headers@) == csv_headers(content@),
            shapes == csv_shapes(content@),
            tiles_fit(tiles_view(tiles@), shapes.take(i as int)),
        decreases ls.len() - i,
    {
        let entries = csv_row_entries(&headers, &ls[i]);
        let line = string_of(&ls[i], 0, ls[i].len());
        assert(ls@[i as int]@.subrange(0, ls@[i as int]@.len() as int) =~= ls@[i as int]@);
        let t = make_tile(i, line, Some(entries));
        let ghost before = tiles@;
        tiles.push(t);
        assert(tiles_view(tiles@) =~= tiles_view(before).push(t@));
        assert(shapes.take(i + 1) =~= shapes.take(i as int).push(shapes[i as int]));
        i = i + 1;
    }
    assert(shapes.take(ls.len() as int) =~= shapes);
    assert forall|i: int| 0 <= i < tiles.len() implies ((#[trigger] tiles_view(tiles@)[i]).metadata
        matches Some(m) && is_row_map(meta_map(m), csv_headers(content@), lines(content@)[i])) by {
        lemma_csv_row_map(csv_headers(content@), lines(content@)[i]);
    }
    tiles
}

/// The tiles of a parsed JSON document: one per array element or object
/// member; for any other document, one per line of `content`.
pub fn document_tiles(doc: &JsonDocument, content: &str) -> (tiles: Vec<Tile>)
    ensures
        tiles_fit(tiles_view(tiles@), document_shapes(doc@, content@)),
{
    let ghost shapes = document_shapes(doc@, content@);
    match doc {
        JsonDocument::Array(items) => {
            let mut tiles: Vec<Tile> = Vec::new();
            let mut i: usize = 0;
            while i < items.len()
                invariant
                    i <= items.len(),
                    *doc == JsonDocument::Array(*items),
                    shapes == document_shapes(doc@, content@),
                    shapes.len() == items.len(),
                    tiles_fit(tiles_view(tiles@), shapes.take(i as int)),
                decreases items.len() - i,
            {
                let t = make_tile(i, items[i].clone(), None);
                let ghost before = tiles@;
                tiles.push(t);
                assert(tiles_view(tiles@) =~= tiles_view(before).push(t@));
                assert(shapes.take(i + 1) =~= shapes.take(i as int).push(shapes[i as int]));
                i = i + 1;
            }
            assert(shapes.take(items.len() as int) =~= shapes);
            tiles
        },
        JsonDocument::Object(members) => {
            let mut tiles: Vec<Tile> = Vec::new();
            let mut i: usize = 0;
            while i < members.len()
                invariant
                    i <= members.len(),
                    *doc == JsonDocument::Object(*members),
                    shapes == document_shapes(doc@, content@),
                    shapes.len() == members.len(),
                    tiles_fit(tiles_view(tiles@), shapes.take(i as int)),
                decreases members.len() - i,
            {
                let entry = MetaEntry { key: String::from_str("key"), value: members[i].key.clone() };
                let meta = vec![entry];
                assert(meta@.map_values(|e: MetaEntry| e@) =~= seq![("key"@, members@[i as int].key@)]);
                let t = make_tile(i, members[i].rendered.clone(), Some(meta));
                let ghost before = tiles@;
                tiles.push(t);
                assert(tiles_view(tiles@) =~= tiles_view(before).push(t@));
                assert(shapes.take(i + 1) =~= shapes.take(i as int).push(shapes[i as int]));
                i = i + 1;
            }
            assert(shapes.take(members.len() as int) =~= shapes);
            tiles
        },
        _ => decompose_text(content),
    }
}

/// Splits JSON `content` into one tile per array element or object member;
/// content that is no array or object is split by lines.
pub fn decompose_json(content: &str) -> (tiles: Vec<Tile>)
    ensures
        tiles_fit(tiles_view(tiles@), json_shapes(content@)),
{
    let doc = parse_json(content);
    document_tiles(&doc, content)
}

/// Decomposes `content` by the named format: `csv` by rows, `json-object`
/// and `json-array` by the JSON document, any other name by lines.
pub fn decompose_content(content: &str, format: &str) -> (tiles: Vec<Tile>)
    ensures
        tiles_fit(tiles_view(tiles@), decomposition(content@, format@)),
{
    let f = String::from_str(format);
    if f == String::from_str("csv") {
        decompose_csv(content)
    } else if f == String::from_str("json-object") || f == String::from_str("json-array") {
        decompose_json(content)
    } else {
        decompose_text(content)
    }
}

/// Decomposing by lines or by CSV rows gives one tile per line of the
/// content, holding that line.
pub proof fn law_row_tiles_hold_lines(content: Seq<char>, format: Seq<char>)
    requires
        !(decomposer_for(format) is Json),
    ensures
        shape_contents(decomposition(content, format)) == lines(content),
{
    assert(shape_contents(text_shapes(content)) =~= lines(content));
    assert(shape_contents(csv_shapes(content)) =~= lines(content));
}

/// Decomposing by lines or by CSV rows gives one tile per line: no tile
/// content holds a line feed, and a text not ending with a line feed gives
/// one tile more than it has line feeds.
pub proof fn law_row_tiles_split_at_line_feeds(content: Seq<char>, format: Seq<char>)
    requires
        !(decomposer_for(format) is Json),
    ensures
        forall|i: int, j: int|
            0 <= i < decomposition(content, format).len() && 0 <= j < decomposition(
                content,
                format,
            )[i].0.len() ==> #[trigger] decomposition(content, format)[i].0[j] != '\n',
        content.len() > 0 && content.last() != '\n' ==> decomposition(content, format).len()
            == count_of(content, '\n') + 1,
{
    law_row_tiles_hold_lines(content, format);
    law_lines_have_no_line_feed(content);
    law_line_count(content);
    let d = decomposition(content, format);
    assert forall|i: int, j: int| 0 <= i < d.len() && 0 <= j < d[i].0.len() implies #[trigger] d[i].0[j]
        != '\n' by {
        assert(shape_contents(d)[i] == d[i].0);
        assert(lines(content)[i][j] == d[i].0[j]);
    }
}

} // verus!
