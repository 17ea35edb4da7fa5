//! Detection of the format of a text: a JSON object, a JSON array, CSV, or
//! plain text.
use vstd::prelude::*;
use crate::json::{JsonDocument, JsonDocumentView, json_document, parse_json};
use crate::text::{
    all_space, is_space, law_line_count, lemma_lines_append, char_views, chars_of, count_char, count_of, lemma_trim_idempotent,
    lemma_trim_ignores_space, lines, lines_of, string_of, trim, trim_chars,
};

verus! {

/// The trimmed text is bracketed as a JSON object or array would be.
pub open spec fn json_bracketed(t: Seq<char>) -> bool {
    t.len() > 0 && ((t[0] == '{' && t.last() == '}') || (t[0] == '[' && t.last() == ']'))
}

/// The first five of `ls` (all of them where there are fewer).
pub open spec fn first_five(ls: Seq<Seq<char>>) -> Seq<Seq<char>> {
    if ls.len() <= 5 {
        ls
    } else {
        ls.take(5)
    }
}

/// At least two of the first five lines, each with the same number of
/// commas, and that number not zero.
pub open spec fn csv_like(t: Seq<char>) -> bool {
    let ls = first_five(lines(t));
    &&& ls.len() >= 2
    &&& forall|i: int|
        0 <= i < ls.len() ==> count_of(#[trigger] ls[i], ',') > 0 && count_of(ls[i], ',')
            == count_of(ls[0], ',')
}

/// The format name of `content`: `json-object` or `json-array` where the
/// trimmed text is bracketed so and parses as JSON, `csv` where it looks
/// like CSV, and `text` otherwise. The trimmed text is parsed only where it
/// is bracketed.
pub open spec fn detected_format(content: Seq<char>) -> Seq<char> {
    let t = trim(content);
    format_of_trimmed(
        t,
        if json_bracketed(t) {
            Some(json_document(t))
        } else {
            None
        },
    )
}

/// The view of an optional document.
pub open spec fn doc_view(doc: Option<JsonDocument>) -> Option<JsonDocumentView> {
    match doc {
        Some(d) => Some(d@),
        None => None,
    }
}

/// The format name of the trimmed text `t`, given what parsing it as JSON
/// gave (`None` where it was not parsed): a JSON format where `t` is
/// bracketed and the document is valid, else `csv` or `text`.
pub open spec fn format_of_trimmed(t: Seq<char>, doc: Option<JsonDocumentView>) -> Seq<char> {
    if json_bracketed(t) && (doc matches Some(d) && !(d is Invalid)) {
        if t[0] == '{' {
            "json-object"@
        } else {
            "json-array"@
        }
    } else if csv_like(t) {
        "csv"@
    } else {
        "text"@
    }
}

/// Whether the lines look like CSV (see [`csv_like`]).
fn lines_look_like_csv(ls: &Vec<Vec<char>>) -> (b: bool)
    ensures
        b == ({
            let f = first_five(char_views(ls@));
            &&& f.len() >= 2
            &&& forall|i: int|
                0 <= i < f.len() ==> count_of(#[trigger] f[i], ',') > 0 && count_of(f[i], ',')
                    == count_of(f[0], ',')
        }),
{
    let ghost f = first_five(char_views(ls@));
    let k: usize = if ls.len() <= 5 {
        ls.len()
    } else {
        5
    };
    assert(f.len() == k);
    if k < 2 {
        return false;
    }
    assert(f[0] == ls@[0]@);
    let first = count_char(&ls[0], ',');
    let mut i: usize = 0;
    while i < k
        invariant
            2 <= k <= ls.len(),
            i <= k,
            f.len() == k,
            f == first_five(char_views(ls@)),
            first == count_of(f[0], ','),
            forall|j: int|
                0 <= j < i ==> count_of(#[trigger] f[j], ',') > 0 && count_of(f[j], ',')
                    == first,
        decreases k - i,
    {
        assert(f[i as int] == ls@[i as int]@);
        let c = count_char(&ls[i], ',');
        if !(c > 0 && c == first) {
            return false;
        }
        i = i + 1;
    }
    true
}

/// The format name of the trimmed text `trimmed`, given what parsing it as
/// JSON gave; see [`format_of_trimmed`].
pub fn format_of(trimmed: &str, doc: &Option<JsonDocument>) -> (format: String)
    ensures
        format@ == format_of_trimmed(trimmed@, doc_view(*doc)),
{
    let t = chars_of(trimmed);
    let n = t.len();
    if n > 0 && ((t[0] == '{' && t[n - 1] == '}') || (t[0] == '[' && t[n - 1] == ']')) {
        match doc {
            Some(JsonDocument::Invalid(_)) => {},
            None => {},
            Some(_) => {
                if t[0] == '{' {
                    return String::from_str("json-object");
                } else {
                    return String::from_str("json-array");
                }
            },
        }
    }
    let ls = lines_of(&t);
    if lines_look_like_csv(&ls) {
        String::from_str("csv")
    } else {
        String::from_str("text")
    }
}

/// Detects the format of `content`; see [`detected_format`].
pub fn detect_format(content: &str) -> (format: String)
    ensures
        format@ == detected_format(content@),
{
    let chars = chars_of(content);
    let t = trim_chars(&chars);
    let n = t.len();
    let text = string_of(&t, 0, n);
    assert(t@.subrange(0, n as int) =~= t@);
    let doc = if n > 0 && ((t[0] == '{' && t[n - 1] == '}') || (t[0] == '[' && t[n - 1] == ']')) {
        Some(parse_json(text.as_str()))
    } else {
        None
    };
    format_of(text.as_str(), &doc)
}

/// Every text is detected as one of the four formats.
pub proof fn law_detected_format_is_known(content: Seq<char>)
    ensures
        detected_format(content) == "json-object"@ || detected_format(content) == "json-array"@
            || detected_format(content) == "csv"@ || detected_format(content) == "text"@,
{
}

/// Detection ignores whitespace around the text: whitespace added before
/// and after it, or trimmed from it, leaves the detected format as it is.
pub proof fn law_detection_ignores_surrounding_space(
    w1: Seq<char>,
    content: Seq<char>,
    w2: Seq<char>,
)
    requires
        all_space(w1),
        all_space(w2),
    ensures
        detected_format(w1 + content + w2) == detected_format(content),
        detected_format(trim(content)) == detected_format(content),
{
    lemma_trim_ignores_space(w1, content, w2);
    lemma_trim_idempotent(content);
}

/// A text that is no valid bracketed JSON, whose first lines (at least two,
/// at most five looked at) all carry the same number of commas, not zero,
/// is detected as CSV, however many lines follow them.
pub proof fn law_consistent_commas_are_csv(content: Seq<char>)
    requires
        lines(trim(content)).len() >= 2,
        count_of(lines(trim(content))[0], ',') > 0,
        forall|i: int|
            0 <= i < lines(trim(content)).len() && i < 5 ==> count_of(
                #[trigger] lines(trim(content))[i],
                ',',
            ) == count_of(lines(trim(content))[0], ','),
        !({
            let t = trim(content);
            &&& t.len() > 0
            &&& (t[0] == '{' && t.last() == '}') || (t[0] == '[' && t.last() == ']')
            &&& !(json_document(t) is Invalid)
        }),
    ensures
        detected_format(content) == "csv"@,
{
    let t = trim(content);
    let ls = lines(t);
    let f = first_five(ls);
    assert forall|i: int| 0 <= i < f.len() implies count_of(#[trigger] f[i], ',') > 0 && count_of(
        f[i],
        ',',
    ) == count_of(f[0], ',') by {
        assert(f[i] == ls[i]);
        assert(f[0] == ls[0]);
    }
}

/// Only the first five lines count: a text of at least five lines (at least
/// four line feeds), starting with neither `{` nor `[` and neither starting
/// nor ending with whitespace, is detected alike with further lines after
/// it.
pub proof fn law_detection_ignores_later_lines(content: Seq<char>, more: Seq<char>)
    requires
        content.len() > 0,
        !is_space(content[0]),
        !is_space(content.last()),
        content[0] != '{' && content[0] != '[',
        count_of(content, '\n') >= 4,
        more.len() > 0,
        !is_space(more.last()),
    ensures
        detected_format(content + seq!['\n'] + more) == detected_format(content),
{
    let longer = content + seq!['\n'] + more;
    assert(longer[0] == content[0]);
    assert(longer.last() == more.last());
    assert(trim(content) == content);
    assert(trim(longer) == longer);
    lemma_lines_append(content, more);
    law_line_count(content);
    let l1 = lines(content);
    let l2 = lines(longer);
    assert(l2 == l1 + lines(more));
    assert(l1.len() >= 5);
    assert(first_five(l2) =~= first_five(l1));
}

} // verus!
