//! Statistics over the sizes of tiles, in bytes of UTF-8.
use vstd::prelude::*;
use vstd::utf8::encode_utf8;
use crate::tile::{Tile, TileStats, TileView, tile_contents, tiles_view};

verus! {

/// The length of `s` in bytes of UTF-8 (`str::len`).
pub open spec fn byte_len(s: Seq<char>) -> usize {
    encode_utf8(s).len() as usize
}

/// The byte sizes of a list of contents.
pub open spec fn content_sizes(contents: Seq<Seq<char>>) -> Seq<usize> {
    contents.map_values(|c: Seq<char>| byte_len(c))
}

/// The byte sizes of the tiles' contents.
pub open spec fn tile_sizes(ts: Seq<TileView>) -> Seq<usize> {
    content_sizes(tile_contents(ts))
}

/// The sum of `s`.
pub open spec fn sum_of(s: Seq<usize>) -> int
    decreases s.len(),
{
    if s.len() == 0 {
        0
    } else {
        sum_of(s.drop_last()) + s.last()
    }
}

/// `m` is the least of `s`, or 0 where `s` is empty.
pub open spec fn is_least(s: Seq<usize>, m: usize) -> bool {
    if s.len() == 0 {
        m == 0
    } else {
        (exists|i: int| 0 <= i < s.len() && s[i] == m) && forall|i: int|
            0 <= i < s.len() ==> m <= #[trigger] s[i]
    }
}

/// `m` is the greatest of `s`, or 0 where `s` is empty.
pub open spec fn is_greatest(s: Seq<usize>, m: usize) -> bool {
    if s.len() == 0 {
        m == 0
    } else {
        (exists|i: int| 0 <= i < s.len() && s[i] == m) && forall|i: int|
            0 <= i < s.len() ==> #[trigger] s[i] <= m
    }
}

/// `stats` describes tiles of the given contents, decomposed from `source`
/// by `format`.
pub open spec fn describes(
    stats: TileStats,
    format: Seq<char>,
    source: Seq<char>,
    contents: Seq<Seq<char>>,
) -> bool {
    let sizes = content_sizes(contents);
    &&& stats.format@ == format
    &&& stats.source@ == source
    &&& stats.tile_count == contents.len()
    &&& stats.total_bytes == sum_of(sizes)
    &&& is_least(sizes, stats.min_tile_bytes)
    &&& is_greatest(sizes, stats.max_tile_bytes)
}

/// A sum lies between its length times a lower bound and its length times
/// an upper bound of its terms.
proof fn lemma_sum_bounds(s: Seq<usize>, lo: int, hi: int)
    requires
        forall|i: int| 0 <= i < s.len() ==> lo <= #[trigger] s[i] <= hi,
    ensures
        lo * s.len() <= sum_of(s) <= hi * s.len(),
    decreases s.len(),
{
    if s.len() > 0 {
        let r = s.drop_last();
        assert forall|i: int| 0 <= i < r.len() implies lo <= #[trigger] r[i] <= hi by {
            assert(r[i] == s[i]);
        }
        lemma_sum_bounds(r, lo, hi);
        let n = r.len() as int;
        assert(lo * (n + 1) == lo * n + lo) by (nonlinear_arith);
        assert(hi * (n + 1) == hi * n + hi) by (nonlinear_arith);
    }
}

/// The statistics of a file's tiles are consistent: with no tiles, total,
/// least and greatest are 0; otherwise the least is at most the greatest,
/// and the total lies between count times least and count times greatest.
pub proof fn law_stats_bounds(
    stats: TileStats,
    format: Seq<char>,
    source: Seq<char>,
    contents: Seq<Seq<char>>,
)
    requires
        describes(stats, format, source, contents),
    ensures
        stats.tile_count == 0 ==> stats.total_bytes == 0 && stats.min_tile_bytes == 0
            && stats.max_tile_bytes == 0,
        stats.tile_count > 0 ==> stats.min_tile_bytes <= stats.max_tile_bytes
            && stats.min_tile_bytes * stats.tile_count <= stats.total_bytes
            <= stats.max_tile_bytes * stats.tile_count,
{
    let sizes = content_sizes(contents);
    lemma_sum_bounds(sizes, stats.min_tile_bytes as int, stats.max_tile_bytes as int);
    if sizes.len() > 0 {
        assert(stats.min_tile_bytes <= sizes[0] <= stats.max_tile_bytes);
    }
}

/// The total is additive: one more size adds that size to the total.
pub proof fn law_total_is_additive(s: Seq<usize>, x: usize)
    ensures
        sum_of(s.push(x)) == sum_of(s) + x,
{
    assert(s.push(x).drop_last() =~= s);
}

/// The total of two lists one after the other is the sum of their totals.
pub proof fn law_total_of_concat(a: Seq<usize>, b: Seq<usize>)
    ensures
        sum_of(a + b) == sum_of(a) + sum_of(b),
    decreases b.len(),
{
    if b.len() == 0 {
        assert(a + b =~= a);
    } else {
        law_total_of_concat(a, b.drop_last());
        law_total_is_additive(a + b.drop_last(), b.last());
        law_total_is_additive(b.drop_last(), b.last());
        assert((a + b.drop_last()).push(b.last()) =~= a + b);
        assert(b.drop_last().push(b.last()) =~= b);
    }
}

/// A partial sum is no more than the whole.
proof fn lemma_sum_prefix(s: Seq<usize>, i: int)
    requires
        0 <= i <= s.len(),
    ensures
        sum_of(s.take(i)) <= sum_of(s),
    decreases s.len() - i,
{
    if i < s.len() {
        lemma_sum_prefix(s, i + 1);
        assert(s.take(i + 1).drop_last() =~= s.take(i));
    } else {
        assert(s.take(i) =~= s);
    }
}

/// The byte size of tile `i`'s content.
fn tile_size(tiles: &Vec<Tile>, i: usize) -> (n: usize)
    requires
        i < tiles.len(),
    ensures
        n == tile_sizes(tiles_view(tiles@))[i as int],
{
    tiles[i].content.as_str().len()
}

/// The total byte size of the tiles, or `None` where it exceeds `usize::MAX`.
pub fn total_bytes(tiles: &Vec<Tile>) -> (total: Option<usize>)
    ensures
        match total {
            Some(t) => t == sum_of(tile_sizes(tiles_view(tiles@))),
            None => sum_of(tile_sizes(tiles_view(tiles@))) > usize::MAX,
        },
{
    let ghost sizes = tile_sizes(tiles_view(tiles@));
    let mut total: usize = 0;
    let mut i: usize = 0;
    while i < tiles.len()
        invariant
            i <= tiles.len() == sizes.len(),
            sizes == tile_sizes(tiles_view(tiles@)),
            total == sum_of(sizes.take(i as int)),
        decreases tiles.len() - i,
    {
        let n = tile_size(tiles, i);
        assert(sizes.take(i + 1).drop_last() =~= sizes.take(i as int));
        if total > usize::MAX - n {
            proof {
                lemma_sum_prefix(sizes, i + 1);
            }
            return None;
        }
        total = total + n;
        i = i + 1;
    }
    assert(sizes.take(tiles.len() as int) =~= sizes);
    Some(total)
}

/// The statistics of `tiles`: their count, total, least and greatest size.
pub fn tile_stats(format: String, source: String, tiles: &Vec<Tile>) -> (stats: TileStats)
    requires
        sum_of(tile_sizes(tiles_view(tiles@))) <= usize::MAX,
    ensures
        describes(stats, format@, source@, tile_contents(tiles_view(tiles@))),
{
    let ghost sizes = tile_sizes(tiles_view(tiles@));
    let mut total: usize = 0;
    let mut least: usize = 0;
    let mut greatest: usize = 0;
    let mut i: usize = 0;
    while i < tiles.len()
        invariant
            i <= tiles.len() == sizes.len(),
            sizes == tile_sizes(tiles_view(tiles@)),
            sum_of(sizes) <= usize::MAX,
            total == sum_of(sizes.take(i as int)),
            is_least(sizes.take(i as int), least),
            is_greatest(sizes.take(i as int), greatest),
        decreases tiles.len() - i,
    {
        let n = tile_size(tiles, i);
        let ghost prefix = sizes.take(i + 1);
        assert(prefix.drop_last() =~= sizes.take(i as int));
        proof {
            lemma_sum_prefix(sizes, i + 1);
        }
        total = total + n;
        if i == 0 || n < least {
            least = n;
        }
        if i == 0 || n > greatest {
            greatest = n;
        }
        assert(prefix[i as int] == n);
        assert forall|k: int| 0 <= k < prefix.len() implies least <= #[trigger] prefix[k] by {
            if k < i {
                assert(prefix[k] == sizes.take(i as int)[k]);
            }
        }
        assert forall|k: int| 0 <= k < prefix.len() implies #[trigger] prefix[k] <= greatest by {
            if k < i {
                assert(prefix[k] == sizes.take(i as int)[k]);
            }
        }
        assert(exists|k: int| 0 <= k < prefix.len() && prefix[k] == least) by {
            if i > 0 && least != n {
                let k = choose|k: int| 0 <= k < i && sizes.take(i as int)[k] == least;
                assert(prefix[k] == least);
            }
        }
        assert(exists|k: int| 0 <= k < prefix.len() && prefix[k] == greatest) by {
            if i > 0 && greatest != n {
                let k = choose|k: int| 0 <= k < i && sizes.take(i as int)[k] == greatest;
                assert(prefix[k] == greatest);
            }
        }
        i = i + 1;
    }
    assert(sizes.take(tiles.len() as int) =~= sizes);
    TileStats {
        format,
        source,
        tile_count: tiles.len(),
        total_bytes: total,
        min_tile_bytes: least,
        max_tile_bytes: greatest,
    }
}

} // verus!
