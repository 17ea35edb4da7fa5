//! Character-level text handling: trimming, line splitting, field splitting,
//! counting and joining, each stated over `Seq<char>` and implemented on
//! `Vec<char>`.
use vstd::prelude::*;

verus! {

/// Unicode `White_Space`, the set that `char::is_whitespace` tests.
pub open spec fn is_space(c: char) -> bool {
    ||| ('\t' <= c && c <= '\r')
    ||| c == ' '
    ||| c == '\u{85}'
    ||| c == '\u{A0}'
    ||| c == '\u{1680}'
    ||| ('\u{2000}' <= c && c <= '\u{200A}')
    ||| c == '\u{2028}'
    ||| c == '\u{2029}'
    ||| c == '\u{202F}'
    ||| c == '\u{205F}'
    ||| c == '\u{3000}'
}

/// `s` without its leading whitespace.
pub open spec fn trim_start(s: Seq<char>) -> Seq<char>
    decreases s.len(),
{
    if s.len() > 0 && is_space(s[0]) {
        trim_start(s.drop_first())
    } else {
        s
    }
}

/// `s` without its trailing whitespace.
pub open spec fn trim_end(s: Seq<char>) -> Seq<char>
    decreases s.len(),
{
    if s.len() > 0 && is_space(s.last()) {
        trim_end(s.drop_last())
    } else {
        s
    }
}

/// `s` without leading and trailing whitespace (`str::trim`).
pub open spec fn trim(s: Seq<char>) -> Seq<char> {
    trim_end(trim_start(s))
}

/// Position of the first `c` in `s`, or `s.len()` where there is none.
pub open spec fn index_of(s: Seq<char>, c: char) -> nat
    decreases s.len(),
{
    if s.len() == 0 {
        0
    } else if s[0] == c {
        0
    } else {
        1 + index_of(s.drop_first(), c)
    }
}

/// The pieces of `s` between occurrences of `c` (`str::split` with a
/// character): always at least one piece.
pub open spec fn split(s: Seq<char>, c: char) -> Seq<Seq<char>>
    decreases s.len(),
{
    let k = index_of(s, c);
    if k >= s.len() {
        seq![s]
    } else {
        proof {
            lemma_index_of(s, c);
        }
        seq![s.take(k as int)] + split(s.skip(k as int + 1), c)
    }
}

/// `t` without one final carriage return.
pub open spec fn strip_cr(t: Seq<char>) -> Seq<char> {
    if t.len() > 0 && t.last() == '\r' {
        t.drop_last()
    } else {
        t
    }
}

/// The lines of `s` (`str::lines`): pieces ended by `\n` or `\r\n`; a final
/// line ending adds no empty line, and the empty text has no lines.
pub open spec fn lines(s: Seq<char>) -> Seq<Seq<char>>
    decreases s.len(),
{
    if s.len() == 0 {
        seq![]
    } else {
        let k = index_of(s, '\n');
        if k >= s.len() {
            seq![s]
        } else {
            proof {
                lemma_index_of(s, '\n');
            }
            seq![strip_cr(s.take(k as int))] + lines(s.skip(k as int + 1))
        }
    }
}

/// Number of occurrences of `c` in `s`.
pub open spec fn count_of(s: Seq<char>, c: char) -> nat
    decreases s.len(),
{
    if s.len() == 0 {
        0
    } else {
        count_of(s.drop_last(), c) + if s.last() == c {
            1nat
        } else {
            0nat
        }
    }
}

/// The pieces of `parts` with `sep` between each two of them.
pub open spec fn join(parts: Seq<Seq<char>>, sep: char) -> Seq<char>
    decreases parts.len(),
{
    if parts.len() == 0 {
        seq![]
    } else if parts.len() == 1 {
        parts[0]
    } else {
        join(parts.drop_last(), sep) + seq![sep] + parts.last()
    }
}

/// No carriage return stands directly before a line feed.
pub open spec fn has_no_crlf(s: Seq<char>) -> bool {
    forall|i: int| 0 < i < s.len() && #[trigger] s[i] == '\n' ==> s[i - 1] != '\r'
}

/// The text does not end with a line feed.
pub open spec fn has_no_final_newline(s: Seq<char>) -> bool {
    s.len() == 0 || s.last() != '\n'
}

/// `index_of` is the first occurrence, or the length where there is none.
pub proof fn lemma_index_of(s: Seq<char>, c: char)
    ensures
        index_of(s, c) <= s.len(),
        forall|j: int| 0 <= j < index_of(s, c) ==> s[j] != c,
        index_of(s, c) < s.len() ==> s[index_of(s, c) as int] == c,
    decreases s.len(),
{
    if s.len() > 0 && s[0] != c {
        lemma_index_of(s.drop_first(), c);
        assert forall|j: int| 0 <= j < index_of(s, c) implies s[j] != c by {
            if j > 0 {
                assert(s[j] == s.drop_first()[j - 1]);
            }
        }
    }
}

/// Any first occurrence (or its absence) is what `index_of` finds.
pub proof fn lemma_index_of_is(s: Seq<char>, c: char, k: int)
    requires
        0 <= k <= s.len(),
        forall|j: int| 0 <= j < k ==> s[j] != c,
        k < s.len() ==> s[k] == c,
    ensures
        index_of(s, c) == k,
{
    lemma_index_of(s, c);
    let i = index_of(s, c) as int;
    if i < k {
        assert(s[i] != c);
    } else if k < i {
        assert(s[k] != c);
    }
}

/// A text has lines exactly when it is not empty.
pub proof fn lemma_lines_empty(s: Seq<char>)
    ensures
        (lines(s).len() == 0) == (s.len() == 0),
{
}

/// Joining a first piece in front of a non-empty list.
pub proof fn lemma_join_prepend(a: Seq<char>, rest: Seq<Seq<char>>, sep: char)
    requires
        rest.len() > 0,
    ensures
        join(seq![a] + rest, sep) == a + seq![sep] + join(rest, sep),
    decreases rest.len(),
{
    let all = seq![a] + rest;
    if rest.len() == 1 {
        assert(all.drop_last() =~= seq![a]);
        assert(all.last() == rest[0]);
        assert(join(all, sep) == join(all.drop_last(), sep) + seq![sep] + all.last());
        assert(join(seq![a], sep) == a);
    } else {
        lemma_join_prepend(a, rest.drop_last(), sep);
        assert(all.drop_last() =~= seq![a] + rest.drop_last());
        assert(all.last() == rest.last());
        assert(join(all, sep) == join(all.drop_last(), sep) + seq![sep] + all.last());
        assert(join(rest, sep) == join(rest.drop_last(), sep) + seq![sep] + rest.last());
        assert(a + seq![sep] + join(rest, sep) =~= a + seq![sep] + join(rest.drop_last(), sep)
            + seq![sep] + rest.last());
    }
}

/// Joining the lines of a text with line feeds gives the text back, where it
/// has no `\r\n` and does not end with a line feed.
pub proof fn lemma_join_lines(s: Seq<char>)
    requires
        has_no_crlf(s),
        has_no_final_newline(s),
    ensures
        join(lines(s), '\n') == s,
    decreases s.len(),
{
    if s.len() > 0 {
        lemma_index_of(s, '\n');
        let k = index_of(s, '\n');
        if k < s.len() {
            let head = s.take(k as int);
            let rest = s.skip(k as int + 1);
            assert(k + 1 < s.len());
            assert forall|i: int| 0 < i < rest.len() && #[trigger] rest[i] == '\n' implies rest[i - 1]
                != '\r' by {
                assert(rest[i] == s[k + 1 + i]);
                assert(rest[i - 1] == s[k + i]);
            }
            assert(rest.last() == s.last());
            lemma_join_lines(rest);
            if k > 0 {
                assert(s[k as int - 1] != '\r');
            }
            assert(strip_cr(head) == head);
            lemma_lines_empty(rest);
            lemma_join_prepend(head, lines(rest), '\n');
            assert(head + seq!['\n'] + rest =~= s);
        }
    }
}


/// Counting over a concatenation adds the counts.
pub proof fn lemma_count_concat(a: Seq<char>, b: Seq<char>, c: char)
    ensures
        count_of(a + b, c) == count_of(a, c) + count_of(b, c),
    decreases b.len(),
{
    if b.len() == 0 {
        assert(a + b =~= a);
    } else {
        assert((a + b).drop_last() =~= a + b.drop_last());
        assert((a + b).last() == b.last());
        lemma_count_concat(a, b.drop_last(), c);
    }
}

/// A text without `c` counts none of it.
pub proof fn lemma_count_absent(s: Seq<char>, c: char)
    requires
        forall|j: int| 0 <= j < s.len() ==> s[j] != c,
    ensures
        count_of(s, c) == 0,
    decreases s.len(),
{
    if s.len() > 0 {
        assert(s.last() == s[s.len() - 1]);
        lemma_count_absent(s.drop_last(), c);
    }
}

/// No line holds a line feed.
pub proof fn law_lines_have_no_line_feed(s: Seq<char>)
    ensures
        forall|i: int, j: int|
            0 <= i < lines(s).len() && 0 <= j < lines(s)[i].len() ==> #[trigger] lines(s)[i][j]
                != '\n',
    decreases s.len(),
{
    if s.len() > 0 {
        lemma_index_of(s, '\n');
        let k = index_of(s, '\n');
        if k < s.len() {
            let rest = s.skip(k as int + 1);
            law_lines_have_no_line_feed(rest);
            let head = strip_cr(s.take(k as int));
            assert forall|i: int, j: int|
                0 <= i < lines(s).len() && 0 <= j < lines(s)[i].len() implies #[trigger] lines(s)[i][j]
                != '\n' by {
                if i == 0 {
                    assert(lines(s)[0] == head);
                    assert(head[j] == s[j]);
                } else {
                    assert(lines(s)[i] == lines(rest)[i - 1]);
                }
            }
        }
    }
}

/// A text has one line per line feed, and one more where it does not end
/// with a line feed; the empty text has none.
pub proof fn law_line_count(s: Seq<char>)
    ensures
        lines(s).len() == if s.len() == 0 {
            0
        } else if s.last() == '\n' {
            count_of(s, '\n') as int
        } else {
            count_of(s, '\n') + 1int
        },
    decreases s.len(),
{
    if s.len() > 0 {
        lemma_index_of(s, '\n');
        let k = index_of(s, '\n');
        if k >= s.len() {
            lemma_count_absent(s, '\n');
            assert(s.last() == s[s.len() - 1]);
        } else {
            let head = s.take(k as int);
            let rest = s.skip(k as int + 1);
            law_line_count(rest);
            lemma_count_absent(head, '\n');
            assert(s =~= head + seq!['\n'] + rest);
            lemma_count_concat(head, seq!['\n'], '\n');
            lemma_count_concat(head + seq!['\n'], rest, '\n');
            assert(count_of(seq!['\n'], '\n') == 1) by {
                let one = seq!['\n'];
                assert(one.drop_last() =~= Seq::<char>::empty());
                assert(one.last() == '\n');
                assert(count_of(one.drop_last(), '\n') == 0);
            }
            if rest.len() > 0 {
                assert(rest.last() == s.last());
            } else {
                assert(s.last() == s[k as int]);
            }
        }
    }
}

/// The lines of a text ended by a character other than `\n` and `\r`,
/// followed by a line feed and more text, are its own lines, then those of
/// the rest.
pub proof fn lemma_lines_append(a: Seq<char>, b: Seq<char>)
    requires
        a.len() > 0,
        a.last() != '\n',
        a.last() != '\r',
    ensures
        lines(a + seq!['\n'] + b) == lines(a) + lines(b),
    decreases a.len(),
{
    let s = a + seq!['\n'] + b;
    lemma_index_of(a, '\n');
    let k = index_of(a, '\n');
    if k >= a.len() {
        lemma_index_of_is(s, '\n', a.len() as int);
        assert(s.take(a.len() as int) =~= a);
        assert(s.skip(a.len() as int + 1) =~= b);
        assert(strip_cr(a) == a);
    } else {
        assert(a[a.len() - 1] == a.last());
        let rest = a.skip(k as int + 1);
        assert(rest.len() > 0);
        assert(rest.last() == a.last());
        lemma_index_of_is(s, '\n', k as int);
        assert(s.take(k as int) =~= a.take(k as int));
        assert(s.skip(k as int + 1) =~= rest + seq!['\n'] + b);
        lemma_lines_append(rest, b);
        assert(lines(a) == seq![strip_cr(a.take(k as int))] + lines(rest));
        assert(lines(s) =~= lines(a) + lines(b));
    }
}

/// Every character of `w` is whitespace.
pub open spec fn all_space(w: Seq<char>) -> bool {
    forall|i: int| 0 <= i < w.len() ==> is_space(#[trigger] w[i])
}

/// Leading whitespace before `x` is trimmed away.
pub proof fn lemma_trim_start_skips(w: Seq<char>, x: Seq<char>)
    requires
        all_space(w),
    ensures
        trim_start(w + x) == trim_start(x),
    decreases w.len(),
{
    if w.len() == 0 {
        assert(w + x =~= x);
    } else {
        assert((w + x)[0] == w[0]);
        assert((w + x).drop_first() =~= w.drop_first() + x);
        lemma_trim_start_skips(w.drop_first(), x);
    }
}

/// Trailing whitespace after `x` is trimmed away.
pub proof fn lemma_trim_end_skips(x: Seq<char>, w: Seq<char>)
    requires
        all_space(w),
    ensures
        trim_end(x + w) == trim_end(x),
    decreases w.len(),
{
    if w.len() == 0 {
        assert(x + w =~= x);
    } else {
        assert((x + w).last() == w.last());
        assert((x + w).drop_last() =~= x + w.drop_last());
        lemma_trim_end_skips(x, w.drop_last());
    }
}

/// Trimming the start of `x + w` where `x` has a non-space character.
pub proof fn lemma_trim_start_append(x: Seq<char>, w: Seq<char>)
    ensures
        trim_start(x).len() > 0 ==> trim_start(x + w) == trim_start(x) + w,
        trim_start(x).len() == 0 ==> trim_start(x + w) == trim_start(w),
    decreases x.len(),
{
    if x.len() == 0 {
        assert(x + w =~= w);
    } else {
        assert((x + w)[0] == x[0]);
        assert((x + w).drop_first() =~= x.drop_first() + w);
        lemma_trim_start_append(x.drop_first(), w);
    }
}

/// What `trim_end` leaves is a prefix, ending in a non-space character.
pub proof fn lemma_trim_end_shape(y: Seq<char>)
    ensures
        trim_end(y).len() <= y.len(),
        trim_end(y) == y.take(trim_end(y).len() as int),
        trim_end(y).len() > 0 ==> !is_space(trim_end(y).last()),
    decreases y.len(),
{
    if y.len() > 0 && is_space(y.last()) {
        lemma_trim_end_shape(y.drop_last());
        assert(y.drop_last().take(trim_end(y).len() as int) =~= y.take(trim_end(y).len() as int));
    } else {
        assert(y.take(y.len() as int) =~= y);
    }
}

/// What `trim_start` leaves begins with a non-space character.
pub proof fn lemma_trim_start_shape(y: Seq<char>)
    ensures
        trim_start(y).len() > 0 ==> !is_space(trim_start(y)[0]),
    decreases y.len(),
{
    if y.len() > 0 && is_space(y[0]) {
        lemma_trim_start_shape(y.drop_first());
    }
}

/// Trimming twice is trimming once.
pub proof fn lemma_trim_idempotent(s: Seq<char>)
    ensures
        trim(trim(s)) == trim(s),
{
    let y = trim_start(s);
    let t = trim_end(y);
    lemma_trim_start_shape(s);
    lemma_trim_end_shape(y);
    if t.len() > 0 {
        assert(t[0] == y[0]);
    }
    assert(trim_start(t) == t);
    lemma_trim_end_shape(t);
    assert(trim_end(t) == t);
}

/// Whitespace around a text does not change its trimmed form.
pub proof fn lemma_trim_ignores_space(w1: Seq<char>, c: Seq<char>, w2: Seq<char>)
    requires
        all_space(w1),
        all_space(w2),
    ensures
        trim(w1 + c + w2) == trim(c),
{
    assert(w1 + c + w2 =~= w1 + (c + w2));
    lemma_trim_start_skips(w1, c + w2);
    lemma_trim_start_append(c, w2);
    if trim_start(c).len() > 0 {
        lemma_trim_end_skips(trim_start(c), w2);
    } else {
        lemma_trim_start_skips(w2, Seq::<char>::empty());
        assert(w2 + Seq::<char>::empty() =~= w2);
    }
}

/// The views of a list of character vectors.
pub open spec fn char_views(v: Seq<Vec<char>>) -> Seq<Seq<char>> {
    v.map_values(|x: Vec<char>| x@)
}

/// The views of a list of strings.
pub open spec fn string_views(v: Seq<String>) -> Seq<Seq<char>> {
    v.map_values(|x: String| x@)
}

/// Appends `c` to `s` (`String::push`).
#[verifier::external_body]
fn push_char(s: &mut String, c: char)
    ensures
        final(s)@ == old(s)@.push(c),
{
    s.push(c);
}

/// The characters of `s`, in order.
pub fn chars_of(s: &str) -> (out: Vec<char>)
    ensures
        out@ == s@,
{
    let mut out: Vec<char> = Vec::new();
    for c in it: s.chars()
        invariant
            out@ == it.seq().take(it.index() as int),
    {
        out.push(c);
    }
    out
}

/// The string made of the characters `s[lo..hi]`.
pub fn string_of(s: &Vec<char>, lo: usize, hi: usize) -> (out: String)
    requires
        lo <= hi <= s.len(),
    ensures
        out@ == s@.subrange(lo as int, hi as int),
{
    let mut out = String::new();
    let mut i = lo;
    while i < hi
        invariant
            lo <= i <= hi <= s.len(),
            out@ == s@.subrange(lo as int, i as int),
        decreases hi - i,
    {
        push_char(&mut out, s[i]);
        assert(s@.subrange(lo as int, i + 1) =~= s@.subrange(lo as int, i as int).push(s@[i as int]));
        i = i + 1;
    }
    out
}

/// The characters `s[lo..hi]`.
pub fn slice_of(s: &Vec<char>, lo: usize, hi: usize) -> (out: Vec<char>)
    requires
        lo <= hi <= s.len(),
    ensures
        out@ == s@.subrange(lo as int, hi as int),
{
    let mut out: Vec<char> = Vec::new();
    let mut i = lo;
    while i < hi
        invariant
            lo <= i <= hi <= s.len(),
            out@ == s@.subrange(lo as int, i as int),
        decreases hi - i,
    {
        out.push(s[i]);
        assert(s@.subrange(lo as int, i + 1) =~= s@.subrange(lo as int, i as int).push(s@[i as int]));
        i = i + 1;
    }
    out
}

/// Whether `c` is whitespace (`char::is_whitespace`).
pub fn is_space_char(c: char) -> (b: bool)
    ensures
        b == is_space(c),
{
    ('\t' <= c && c <= '\r') || c == ' ' || c == '\u{85}' || c == '\u{A0}' || c == '\u{1680}'
        || ('\u{2000}' <= c && c <= '\u{200A}') || c == '\u{2028}' || c == '\u{2029}'
        || c == '\u{202F}' || c == '\u{205F}' || c == '\u{3000}'
}

/// The bounds `(lo, hi)` of `trim(s)` inside `s`.
pub fn trim_bounds(s: &Vec<char>) -> (r: (usize, usize))
    ensures
        r.0 <= r.1 <= s.len(),
        s@.subrange(r.0 as int, r.1 as int) == trim(s@),
{
    let n = s.len();
    let mut lo: usize = 0;
    assert(s@.subrange(0, n as int) =~= s@);
    while lo < n && is_space_char(s[lo])
        invariant
            lo <= n == s.len(),
            trim_start(s@) == trim_start(s@.subrange(lo as int, n as int)),
        decreases n - lo,
    {
        assert(s@.subrange(lo as int, n as int).drop_first() =~= s@.subrange(lo + 1, n as int));
        lo = lo + 1;
    }
    assert(trim_start(s@) == s@.subrange(lo as int, n as int));
    let mut hi: usize = n;
    while hi > lo && is_space_char(s[hi - 1])
        invariant
            lo <= hi <= n == s.len(),
            trim(s@) == trim_end(s@.subrange(lo as int, hi as int)),
        decreases hi,
    {
        assert(s@.subrange(lo as int, hi as int).drop_last() =~= s@.subrange(lo as int, hi - 1));
        hi = hi - 1;
    }
    (lo, hi)
}

/// `trim(s)` as characters.
pub fn trim_chars(s: &Vec<char>) -> (out: Vec<char>)
    ensures
        out@ == trim(s@),
{
    let (lo, hi) = trim_bounds(s);
    slice_of(s, lo, hi)
}

/// The number of times `c` occurs in `s`.
pub fn count_char(s: &Vec<char>, c: char) -> (n: usize)
    ensures
        n == count_of(s@, c),
{
    let mut n: usize = 0;
    let mut i: usize = 0;
    while i < s.len()
        invariant
            i <= s.len(),
            n == count_of(s@.take(i as int), c),
            n <= i,
        decreases s.len() - i,
    {
        assert(s@.take(i + 1).drop_last() =~= s@.take(i as int));
        if s[i] == c {
            n = n + 1;
        }
        i = i + 1;
    }
    assert(s@.take(s.len() as int) =~= s@);
    n
}

/// The pieces of `s` between occurrences of `c` (`str::split`).
pub fn split_chars(s: &Vec<char>, c: char) -> (out: Vec<Vec<char>>)
    ensures
        char_views(out@) == split(s@, c),
{
    let n = s.len();
    let mut out: Vec<Vec<char>> = Vec::new();
    let mut start: usize = 0;
    let mut i: usize = 0;
    assert(s@.skip(0) =~= s@);
    assert(char_views(out@) + split(s@, c) =~= split(s@, c));
    while i < n
        invariant
            start <= i <= n == s.len(),
            forall|j: int| start <= j < i ==> s@[j] != c,
            split(s@, c) == char_views(out@) + split(s@.skip(start as int), c),
        decreases n - i,
    {
        if s[i] == c {
            let ghost t = s@.skip(start as int);
            proof {
                lemma_index_of_is(t, c, i - start);
                assert(t.take(i - start) =~= s@.subrange(start as int, i as int));
                assert(t.skip(i - start + 1) =~= s@.skip(i + 1));
            }
            let piece = slice_of(s, start, i);
            let ghost before = out@;
            out.push(piece);
            assert(char_views(out@) =~= char_views(before) + seq![piece@]);
            start = i + 1;
        }
        i = i + 1;
    }
    let ghost t = s@.skip(start as int);
    proof {
        lemma_index_of_is(t, c, t.len() as int);
        assert(t =~= s@.subrange(start as int, n as int));
    }
    let last = slice_of(s, start, n);
    let ghost before = out@;
    out.push(last);
    assert(char_views(out@) =~= char_views(before) + seq![last@]);
    out
}

/// The lines of `s` (`str::lines`).
pub fn lines_of(s: &Vec<char>) -> (out: Vec<Vec<char>>)
    ensures
        char_views(out@) == lines(s@),
{
    let n = s.len();
    let mut out: Vec<Vec<char>> = Vec::new();
    let mut start: usize = 0;
    let mut i: usize = 0;
    assert(s@.skip(0) =~= s@);
    assert(char_views(out@) + lines(s@) =~= lines(s@));
    while i < n
        invariant
            start <= i <= n == s.len(),
            forall|j: int| start <= j < i ==> s@[j] != '\n',
            lines(s@) == char_views(out@) + lines(s@.skip(start as int)),
        decreases n - i,
    {
        if s[i] == '\n' {
            let ghost t = s@.skip(start as int);
            proof {
                lemma_index_of_is(t, '\n', i - start);
                assert(t.take(i - start) =~= s@.subrange(start as int, i as int));
                assert(t.skip(i - start + 1) =~= s@.skip(i + 1));
            }
            let end = if i > start && s[i - 1] == '\r' {
                i - 1
            } else {
                i
            };
            assert(strip_cr(s@.subrange(start as int, i as int)) =~= s@.subrange(
                start as int,
                end as int,
            ));
            let piece = slice_of(s, start, end);
            let ghost before = out@;
            out.push(piece);
            assert(char_views(out@) =~= char_views(before) + seq![piece@]);
            start = i + 1;
        }
        i = i + 1;
    }
    let ghost t = s@.skip(start as int);
    if start < n {
        proof {
            lemma_index_of_is(t, '\n', t.len() as int);
            assert(t =~= s@.subrange(start as int, n as int));
        }
        let last = slice_of(s, start, n);
        let ghost before = out@;
        out.push(last);
        assert(char_views(out@) =~= char_views(before) + seq![last@]);
    } else {
        assert(char_views(out@) + lines(t) =~= char_views(out@));
    }
    out
}

/// The pieces of `parts` joined by `sep`, as a string.
pub fn join_strings(parts: &Vec<String>, sep: char) -> (out: String)
    ensures
        out@ == join(string_views(parts@), sep),
{
    let mut out = String::new();
    let mut i: usize = 0;
    while i < parts.len()
        invariant
            i <= parts.len(),
            out@ == join(string_views(parts@).take(i as int), sep),
        decreases parts.len() - i,
    {
        let ghost views = string_views(parts@);
        assert(views.take(i + 1).drop_last() =~= views.take(i as int));
        if i > 0 {
            push_char(&mut out, sep);
        } else {
            assert(out@ =~= Seq::<char>::empty());
        }
        out.append(parts[i].as_str());
        if i == 0 {
            assert(out@ =~= join(views.take(1), sep));
        }
        i = i + 1;
    }
    assert(string_views(parts@).take(parts.len() as int) =~= string_views(parts@));
    out
}

} // verus!
