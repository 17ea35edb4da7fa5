//! The commands of the `forge` tool, as functions from their arguments and
//! what was read for them to what is to be printed or the error to report.
//! Reading files and printing stand outside the library.
use vstd::prelude::*;
use crate::compose::{compose_tiles, composed_from};
use crate::decompose::{decompose_content, decomposition};
use crate::detect::{detect_format, detected_format};
use crate::json::{
    JsonDocument, JsonDocumentView, JsonMember, first_member_text, json_document, member_text,
    parse_json,
};
use crate::stats::{content_sizes, describes, sum_of, tile_stats, total_bytes};
use crate::tile::{
    TileSet, TileStats, lemma_fit_contents, shape_contents, tiles_fit, tiles_view,
};

verus! {

/// The outcome of reading a file.
pub enum FileRead {
    /// No file stands at the path.
    Missing,
    /// The file could not be read; the reason.
    Failed(String),
    /// The file's text.
    Contents(String),
}

/// The view of a [`FileRead`].
pub enum FileReadView {
    Missing,
    Failed(Seq<char>),
    Contents(Seq<char>),
}

impl View for FileRead {
    type V = FileReadView;

    open spec fn view(&self) -> FileReadView {
        match self {
            FileRead::Missing => FileReadView::Missing,
            FileRead::Failed(e) => FileReadView::Failed(e@),
            FileRead::Contents(c) => FileReadView::Contents(c@),
        }
    }
}

/// The view of an optional string.
pub open spec fn opt_view(s: Option<String>) -> Option<Seq<char>> {
    match s {
        Some(t) => Some(t@),
        None => None,
    }
}

/// The text read from `path`, or the message for a failed read.
pub open spec fn read_result(path: Seq<char>, file: FileReadView) -> Result<Seq<char>, Seq<char>> {
    match file {
        FileReadView::Missing => Err("File not found: "@ + path),
        FileReadView::Failed(e) => Err("Failed to read "@ + path + ": "@ + e),
        FileReadView::Contents(c) => Ok(c),
    }
}

/// The text read from `path`, or the message for a failed read.
pub fn file_contents(path: &String, file: FileRead) -> (r: Result<String, String>)
    ensures
        match read_result(path@, file@) {
            Ok(c) => (r matches Ok(t) && t@ == c),
            Err(m) => (r matches Err(e) && e@ == m),
        },
{
    match file {
        FileRead::Missing => {
            let mut m = String::from_str("File not found: ");
            m.append(path.as_str());
            Err(m)
        },
        FileRead::Failed(e) => {
            let mut m = String::from_str("Failed to read ");
            m.append(path.as_str());
            m.append(": ");
            m.append(e.as_str());
            Err(m)
        },
        FileRead::Contents(c) => Ok(c),
    }
}

/// What `detect` reports: the file and its format.
pub struct Detection {
    pub file: String,
    pub detected_format: String,
}

/// The `detect` command: the format of the file named by the first argument.
pub fn detect(args: &[String], file: FileRead) -> (r: Result<Detection, String>)
    ensures
        args.len() == 0 ==> (r matches Err(e) && e@ == "Usage: forge detect <file>"@),
        args.len() > 0 ==> match read_result(args[0]@, file@) {
            Err(m) => (r matches Err(e) && e@ == m),
            Ok(c) => (r matches Ok(d) && d.file@ == args[0]@ && d.detected_format@
                == detected_format(c)),
        },
{
    if args.len() == 0 {
        return Err(String::from_str("Usage: forge detect <file>"));
    }
    let content = file_contents(&args[0], file)?;
    let format = detect_format(content.as_str());
    Ok(Detection { file: args[0].clone(), detected_format: format })
}

/// The value after the first `--format` at position 1 or later that has a
/// value after it.
pub open spec fn override_from(args: Seq<String>, i: int) -> Option<Seq<char>>
    decreases args.len() - i,
{
    if i < 0 || i >= args.len() {
        None
    } else if args[i]@ == "--format"@ && i + 1 < args.len() {
        Some(args[i + 1]@)
    } else {
        override_from(args, i + 1)
    }
}

/// The format `decompose` uses: the `--format` override, else `detected`.
pub open spec fn chosen_format(args: Seq<String>, detected: Seq<char>) -> Seq<char> {
    match override_from(args, 1) {
        Some(f) => f,
        None => detected,
    }
}

/// The format named by a `--format` option after the file argument, or
/// `detected` where there is none.
pub fn format_override(args: &[String], detected: String) -> (format: String)
    ensures
        format@ == chosen_format(args@, detected@),
{
    let mut i: usize = 1;
    while i < args.len()
        invariant
            1 <= i,
            override_from(args@, 1) == override_from(args@, i as int),
        decreases args.len() - i,
    {
        if args[i] == String::from_str("--format") && i + 1 < args.len() {
            return args[i + 1].clone();
        }
        i = i + 1;
    }
    detected
}

/// The `decompose` command: the tiles of the file named by the first
/// argument, in the detected format or the one `--format` names.
pub fn decompose(args: &[String], file: FileRead) -> (r: Result<TileSet, String>)
    ensures
        args.len() == 0 ==> (r matches Err(e) && e@
            == "Usage: forge decompose <file> [--format FMT]"@),
        args.len() > 0 ==> match read_result(args[0]@, file@) {
            Err(m) => (r matches Err(e) && e@ == m),
            Ok(c) => (r matches Ok(ts) && ts.source@ == args[0]@ && ts.format@ == chosen_format(
                args@,
                detected_format(c),
            ) && ts.tile_count == ts.tiles.len() && tiles_fit(
                tiles_view(ts.tiles@),
                decomposition(c, ts.format@),
            )),
        },
{
    if args.len() == 0 {
        return Err(String::from_str("Usage: forge decompose <file> [--format FMT]"));
    }
    let content = file_contents(&args[0], file)?;
    let detected = detect_format(content.as_str());
    let format = format_override(args, detected);
    let tiles = decompose_content(content.as_str(), format.as_str());
    Ok(TileSet { format, source: args[0].clone(), tile_count: tiles.len(), tiles })
}

/// The outcome of reading and parsing a tiles file.
pub enum TilesFile {
    /// No file stands at the path.
    Missing,
    /// The file could not be read; the reason.
    Failed(String),
    /// The file is no tile set; the parser's message.
    Invalid(String),
    /// The tile set the file holds.
    Parsed(TileSet),
}

/// The `compose` command: the content reassembled from the tile set in the
/// file named by the first argument.
pub fn compose(args: &[String], file: TilesFile) -> (r: Result<String, String>)
    ensures
        args.len() == 0 ==> (r matches Err(e) && e@ == "Usage: forge compose <tiles.json>"@),
        args.len() > 0 ==> match file {
            TilesFile::Missing => (r matches Err(e) && e@ == "File not found: "@ + args[0]@),
            TilesFile::Failed(m) => (r matches Err(e) && e@ == "Failed to read "@ + args[0]@
                + ": "@ + m@),
            TilesFile::Invalid(m) => (r matches Err(e) && e@ == "Failed to parse tiles JSON: "@
                + m@),
            TilesFile::Parsed(ts) => (r matches Ok(text) && composed_from(
                tiles_view(ts.tiles@),
                text@,
            )),
        },
{
    if args.len() == 0 {
        return Err(String::from_str("Usage: forge compose <tiles.json>"));
    }
    match file {
        TilesFile::Missing => file_contents(&args[0], FileRead::Missing),
        TilesFile::Failed(m) => file_contents(&args[0], FileRead::Failed(m)),
        TilesFile::Invalid(m) => {
            let mut e = String::from_str("Failed to parse tiles JSON: ");
            e.append(m.as_str());
            Err(e)
        },
        TilesFile::Parsed(ts) => Ok(compose_tiles(&ts.tiles)),
    }
}

/// The `stats` command: sizes of the tiles of the file named by the first
/// argument, decomposed in its detected format. Where the total size does
/// not fit a `usize` it reports so.
pub fn stats(args: &[String], file: FileRead) -> (r: Result<TileStats, String>)
    ensures
        args.len() == 0 ==> (r matches Err(e) && e@ == "Usage: forge stats <file>"@),
        args.len() > 0 ==> match read_result(args[0]@, file@) {
            Err(m) => (r matches Err(e) && e@ == m),
            Ok(c) => {
                let format = detected_format(c);
                let contents = shape_contents(decomposition(c, format));
                if sum_of(content_sizes(contents)) <= usize::MAX {
                    r matches Ok(s) && describes(s, format, args[0]@, contents)
                } else {
                    r matches Err(e) && e@ == "Total tile size exceeds usize::MAX"@
                }
            },
        },
{
    if args.len() == 0 {
        return Err(String::from_str("Usage: forge stats <file>"));
    }
    let content = file_contents(&args[0], file)?;
    let format = detect_format(content.as_str());
    let tiles = decompose_content(content.as_str(), format.as_str());
    proof {
        lemma_fit_contents(tiles_view(tiles@), decomposition(content@, format@));
    }
    match total_bytes(&tiles) {
        None => Err(String::from_str("Total tile size exceeds usize::MAX")),
        Some(_) => Ok(tile_stats(format, args[0].clone(), &tiles)),
    }
}

/// What a pipeline configuration names: the input file and the format.
pub struct PipelineConfig {
    pub input: Option<String>,
    pub format: Option<String>,
}

/// The text of the first member of `members` keyed `key`, if it is a string.
fn member_text_of(members: &Vec<JsonMember>, key: &String) -> (text: Option<String>)
    ensures
        opt_view(text) == first_member_text(members@.map_values(|m: JsonMember| m@), key@),
{
    let ghost all = members@.map_values(|m: JsonMember| m@);
    assert(all.skip(0) =~= all);
    let mut i: usize = 0;
    while i < members.len()
        invariant
            i <= members.len(),
            all == members@.map_values(|m: JsonMember| m@),
            first_member_text(all, key@) == first_member_text(all.skip(i as int), key@),
        decreases members.len() - i,
    {
        assert(all.skip(i as int)[0] == members@[i as int]@);
        assert(all.skip(i as int).drop_first() =~= all.skip(i + 1));
        if members[i].key == *key {
            return match &members[i].text {
                Some(t) => Some(t.clone()),
                None => None,
            };
        }
        i = i + 1;
    }
    None
}

/// The first step of the `pipeline` command: the configuration in the file
/// named by the first argument.
pub fn pipeline_config(args: &[String], file: FileRead) -> (r: Result<PipelineConfig, String>)
    ensures
        args.len() == 0 ==> (r matches Err(e) && e@ == "Usage: forge pipeline <config.json>"@),
        args.len() > 0 ==> match read_result(args[0]@, file@) {
            Err(m) => (r matches Err(e) && e@ == m),
            Ok(c) => match json_document(c) {
                JsonDocumentView::Invalid(m) => (r matches Err(e) && e@
                    == "Failed to parse config JSON: "@ + m),
                doc => (r matches Ok(cfg) && opt_view(cfg.input) == member_text(doc, "input"@)
                    && opt_view(cfg.format) == member_text(doc, "format"@)),
            },
        },
{
    if args.len() == 0 {
        return Err(String::from_str("Usage: forge pipeline <config.json>"));
    }
    let content = file_contents(&args[0], file)?;
    config_from_document(parse_json(content.as_str()))
}

/// The configuration a parsed document names: the `input` and `format`
/// members where they are strings, or the parse error.
pub fn config_from_document(doc: JsonDocument) -> (r: Result<PipelineConfig, String>)
    ensures
        match doc@ {
            JsonDocumentView::Invalid(m) => (r matches Err(e) && e@
                == "Failed to parse config JSON: "@ + m),
            d => (r matches Ok(cfg) && opt_view(cfg.input) == member_text(d, "input"@)
                && opt_view(cfg.format) == member_text(d, "format"@)),
        },
{
    match doc {
        JsonDocument::Invalid(m) => {
            let mut e = String::from_str("Failed to parse config JSON: ");
            e.append(m.as_str());
            Err(e)
        },
        JsonDocument::Object(members) => Ok(
            PipelineConfig {
                input: member_text_of(&members, &String::from_str("input")),
                format: member_text_of(&members, &String::from_str("format")),
            },
        ),
        _ => Ok(PipelineConfig { input: None, format: None }),
    }
}

/// The second step of the `pipeline` command: the input file to read.
pub fn pipeline_input(config: &PipelineConfig) -> (r: Result<String, String>)
    ensures
        match opt_view(config.input) {
            Some(p) => (r matches Ok(path) && path@ == p),
            None => (r matches Err(e) && e@ == "Config missing 'input' field"@),
        },
{
    match &config.input {
        Some(p) => Ok(p.clone()),
        None => Err(String::from_str("Config missing 'input' field")),
    }
}

/// What a pipeline run reports.
pub struct PipelineReport {
    pub input: String,
    pub format: String,
    pub tiles_produced: usize,
}

/// The format a pipeline uses: the configured one, else the detected one.
pub open spec fn pipeline_format(format: Option<Seq<char>>, content: Seq<char>) -> Seq<char> {
    match format {
        Some(f) => f,
        None => detected_format(content),
    }
}

/// A configured format is used as it is, whatever it names and whatever the
/// content; only where none is configured does detection choose.
pub proof fn law_configured_format_is_used(f: Seq<char>, content: Seq<char>)
    ensures
        pipeline_format(Some(f), content) == f,
        pipeline_format(None, content) == detected_format(content),
        decomposition(content, pipeline_format(Some(f), content)) == decomposition(content, f),
{
}

/// The last step of the `pipeline` command: decomposes the input read from
/// `input` in the configured format (or the detected one).
pub fn pipeline(input: &String, format: &Option<String>, file: FileRead) -> (r: Result<
    PipelineReport,
    String,
>)
    ensures
        match read_result(input@, file@) {
            Err(m) => (r matches Err(e) && e@ == m),
            Ok(c) => (r matches Ok(report) && report.input@ == input@ && report.format@
                == pipeline_format(opt_view(*format), c) && report.tiles_produced
                == decomposition(c, report.format@).len()),
        },
        r matches Ok(report) ==> (format matches Some(f) ==> report.format@ == f@),
{
    let content = file_contents(input, file)?;
    let detected = detect_format(content.as_str());
    let chosen = match format {
        Some(f) => f.clone(),
        None => detected,
    };
    let tiles = decompose_content(content.as_str(), chosen.as_str());
    Ok(PipelineReport { input: input.clone(), format: chosen, tiles_produced: tiles.len() })
}

} // verus!
