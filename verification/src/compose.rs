//! Reassembly of tiles: a stable sort by tile index, then the contents joined
//! by line feeds.
use vstd::prelude::*;
use crate::text::{has_no_crlf, has_no_final_newline, join, join_strings, lemma_join_lines, lines, string_views};
use crate::tile::{Tile, TileView, lemma_fit_contents, tile_contents, tiles_fit, tiles_view};
use crate::decompose::{decomposer_for, decomposition, law_row_tiles_hold_lines};
use vstd::seq_lib::seq_to_set_is_finite;
use vstd::set_lib::{lemma_int_range, lemma_subset_equality, set_int_range};

verus! {

/// `order` lists the positions of `keys` sorted by key, ties in the
/// order they stand in.
pub open spec fn is_stable_order(keys: Seq<usize>, order: Seq<usize>) -> bool {
    &&& order.len() == keys.len()
    &&& forall|k: int| 0 <= k < order.len() ==> #[trigger] order[k] < keys.len()
    &&& forall|a: int, b: int| 0 <= a < b < order.len() ==> order[a] != order[b]
    &&& forall|a: int, b: int|
        0 <= a < b < order.len() ==> keys[order[a] as int] <= keys[order[b] as int]
    &&& forall|a: int, b: int|
        0 <= a < b < order.len() && keys[order[a] as int] == keys[order[b] as int] ==> order[a]
            < order[b]
}

/// The tile indices of a list of tiles.
pub open spec fn tile_keys(ts: Seq<TileView>) -> Seq<usize> {
    ts.map_values(|t: TileView| t.index)
}

/// `output` is `input` sorted by tile index, tiles of equal index kept in
/// their order (`sort_by_key`, a stable sort).
pub open spec fn is_stable_sort(input: Seq<TileView>, output: Seq<TileView>) -> bool {
    exists|order: Seq<usize>|
        {
            &&& #[trigger] is_stable_order(tile_keys(input), order)
            &&& output == order.map_values(|k: usize| input[k as int])
        }
}

/// `text` is the contents of `tiles`, sorted stably by index, joined by
/// line feeds.
pub open spec fn composed_from(tiles: Seq<TileView>, text: Seq<char>) -> bool {
    exists|sorted: Seq<TileView>|
        #[trigger] is_stable_sort(tiles, sorted) && text == join(tile_contents(sorted), '\n')
}

/// The positions of `keys` in stable sorted order (insertion sort).
pub fn stable_order(keys: &Vec<usize>) -> (order: Vec<usize>)
    ensures
        is_stable_order(keys@, order@),
{
    let mut order: Vec<usize> = Vec::new();
    let n = keys.len();
    let mut i: usize = 0;
    while i < n
        invariant
            i <= n == keys.len(),
            order.len() == i,
            forall|k: int| 0 <= k < order.len() ==> #[trigger] order@[k] < i,
            forall|a: int, b: int| 0 <= a < b < order.len() ==> order@[a] != order@[b],
            forall|a: int, b: int|
                0 <= a < b < order.len() ==> keys@[order@[a] as int] <= keys@[order@[b] as int],
            forall|a: int, b: int|
                0 <= a < b < order.len() && keys@[order@[a] as int] == keys@[order@[b] as int]
                    ==> order@[a] < order@[b],
        decreases n - i,
    {
        let key = keys[i];
        let mut pos: usize = 0;
        while pos < order.len() && keys[order[pos]] <= key
            invariant
                pos <= order.len() == i,
                i < n == keys.len(),
                key == keys@[i as int],
                forall|k: int| 0 <= k < order.len() ==> #[trigger] order@[k] < i,
                forall|k: int| 0 <= k < pos ==> keys@[#[trigger] order@[k] as int] <= key,
            decreases order.len() - pos,
        {
            pos = pos + 1;
        }
        let ghost old_order = order@;
        assert(forall|k: int| pos <= k < old_order.len() ==> keys@[old_order[k] as int] > key) by {
            if pos < old_order.len() {
                assert(keys@[old_order[pos as int] as int] > key);
            }
        }
        order.insert(pos, i);
        assert(order@ == old_order.insert(pos as int, i));
        assert forall|k: int| 0 <= k < order.len() implies #[trigger] order@[k] < i + 1 by {
            if k < pos {
                assert(order@[k] == old_order[k]);
            } else if k > pos {
                assert(order@[k] == old_order[k - 1]);
            }
        }
        assert forall|a: int, b: int| 0 <= a < b < order.len() implies order@[a] != order@[b]
            && keys@[order@[a] as int] <= keys@[order@[b] as int] && (keys@[order@[a] as int]
            == keys@[order@[b] as int] ==> order@[a] < order@[b]) by {
            let oa = if a < pos { a } else { a - 1 };
            let ob = if b < pos { b } else { b - 1 };
            if a == pos {
                assert(order@[b] == old_order[ob]);
                assert(old_order[ob] < i);
            } else if b == pos {
                assert(order@[a] == old_order[oa]);
                assert(old_order[oa] < i);
            } else {
                assert(order@[a] == old_order[oa]);
                assert(order@[b] == old_order[ob]);
            }
        }
        i = i + 1;
    }
    order
}

/// The contents of `tiles` in stable index order, joined by line feeds.
pub fn compose_tiles(tiles: &Vec<Tile>) -> (text: String)
    ensures
        composed_from(tiles_view(tiles@), text@),
{
    let ghost input = tiles_view(tiles@);
    let mut keys: Vec<usize> = Vec::new();
    let mut i: usize = 0;
    while i < tiles.len()
        invariant
            i <= tiles.len(),
            input == tiles_view(tiles@),
            keys@ == tile_keys(input).take(i as int),
        decreases tiles.len() - i,
    {
        keys.push(tiles[i].index);
        assert(tile_keys(input).take(i + 1) =~= tile_keys(input).take(i as int).push(
            input[i as int].index,
        ));
        i = i + 1;
    }
    assert(tile_keys(input).take(tiles.len() as int) =~= tile_keys(input));
    let order = stable_order(&keys);
    let ghost sorted = order@.map_values(|k: usize| input[k as int]);
    let mut parts: Vec<String> = Vec::new();
    let mut j: usize = 0;
    while j < order.len()
        invariant
            j <= order.len() == tiles.len(),
            input == tiles_view(tiles@),
            is_stable_order(keys@, order@),
            keys@ == tile_keys(input),
            sorted == order@.map_values(|k: usize| input[k as int]),
            string_views(parts@) == tile_contents(sorted).take(j as int),
        decreases order.len() - j,
    {
        let k = order[j];
        assert(order@[j as int] < keys@.len());
        assert(sorted[j as int] == input[k as int]);
        assert(input[k as int].content == tiles@[k as int].content@);
        let ghost before = parts@;
        parts.push(tiles[k].content.clone());
        assert(string_views(parts@) =~= string_views(before).push(tiles@[k as int].content@));
        assert(string_views(parts@) =~= tile_contents(sorted).take(j + 1));
        j = j + 1;
    }
    assert(tile_contents(sorted).take(order.len() as int) =~= tile_contents(sorted));
    let text = join_strings(&parts, '\n');
    assert(is_stable_order(tile_keys(input), order@));
    assert(is_stable_sort(input, sorted));
    text
}

/// A strictly increasing list of `n` positions below `n` lists them all in
/// order.
proof fn lemma_increasing_is_identity(order: Seq<usize>, n: int)
    requires
        order.len() == n,
        forall|k: int| 0 <= k < n ==> #[trigger] order[k] < n,
        forall|a: int, b: int| 0 <= a < b < n ==> order[a] < order[b],
    ensures
        forall|k: int| 0 <= k < n ==> #[trigger] order[k] == k,
{
    assert forall|k: int| 0 <= k < n implies order[k] >= k by {
        lemma_increasing_lower(order, n, k);
    }
    assert forall|k: int| 0 <= k < n implies order[k] <= k by {
        lemma_increasing_upper(order, n, k);
    }
}

proof fn lemma_increasing_lower(order: Seq<usize>, n: int, k: int)
    requires
        order.len() == n,
        0 <= k < n,
        forall|a: int, b: int| 0 <= a < b < n ==> order[a] < order[b],
    ensures
        order[k] >= k,
    decreases k,
{
    if k > 0 {
        lemma_increasing_lower(order, n, k - 1);
        assert(order[k - 1] < order[k]);
    }
}

proof fn lemma_increasing_upper(order: Seq<usize>, n: int, k: int)
    requires
        order.len() == n,
        0 <= k < n,
        forall|j: int| 0 <= j < n ==> #[trigger] order[j] < n,
        forall|a: int, b: int| 0 <= a < b < n ==> order[a] < order[b],
    ensures
        order[k] <= k,
    decreases n - k,
{
    if k < n - 1 {
        lemma_increasing_upper(order, n, k + 1);
        assert(order[k] < order[k + 1]);
    } else {
        assert(order[k] < n);
    }
}

/// Composing the tiles that decomposing `content` by lines or by CSV rows
/// yields gives `content` back, where `content` holds no `\r\n` and does
/// not end with a line feed.
pub proof fn law_compose_undoes_decomposition(
    content: Seq<char>,
    format: Seq<char>,
    tiles: Seq<TileView>,
    text: Seq<char>,
)
    requires
        !(decomposer_for(format) is Json),
        tiles_fit(tiles, decomposition(content, format)),
        has_no_crlf(content),
        has_no_final_newline(content),
        composed_from(tiles, text),
    ensures
        text == content,
{
    let sorted = choose|sorted: Seq<TileView>|
        #[trigger] is_stable_sort(tiles, sorted) && text == join(tile_contents(sorted), '\n');
    let keys = tile_keys(tiles);
    let order = choose|order: Seq<usize>|
        #[trigger] is_stable_order(keys, order) && sorted == order.map_values(
            |k: usize| tiles[k as int],
        );
    let n = tiles.len() as int;
    assert forall|j: int| 0 <= j < n implies #[trigger] keys[j] == j by {
        assert(tiles[j].index == j);
    }
    assert forall|a: int, b: int| 0 <= a < b < n implies order[a] < order[b] by {
        assert(order[a] < n && order[b] < n);
        assert(keys[order[a] as int] <= keys[order[b] as int]);
        assert(order[a] != order[b]);
    }
    lemma_increasing_is_identity(order, n);
    assert(sorted =~= tiles);
    lemma_fit_contents(tiles, decomposition(content, format));
    law_row_tiles_hold_lines(content, format);
    lemma_join_lines(content);
}

/// A stable order lists every position.
proof fn lemma_order_covers(keys: Seq<usize>, order: Seq<usize>, j: int)
    requires
        is_stable_order(keys, order),
        0 <= j < keys.len(),
    ensures
        exists|m: int| 0 <= m < order.len() && order[m] == j,
{
    let n = keys.len() as int;
    let s = order.map_values(|x: usize| x as int);
    assert(s.no_duplicates()) by {
        assert forall|a: int, b: int| 0 <= a < s.len() && 0 <= b < s.len() && a != b implies s[a]
            != s[b] by {
            if a < b {
                assert(order[a] != order[b]);
            } else {
                assert(order[b] != order[a]);
            }
        }
    }
    s.unique_seq_to_set();
    lemma_int_range(0, n);
    let r = set_int_range(0, n);
    assert(s.to_set().subset_of(r)) by {
        assert forall|x: int| s.to_set().contains(x) implies r.contains(x) by {
            let i = choose|i: int| 0 <= i < s.len() && s[i] == x;
            assert(order[i] < n);
        }
    }
    seq_to_set_is_finite(s);
    lemma_subset_equality(s.to_set(), r);
    assert(r.contains(j));
    assert(s.to_set().contains(j));
    let m = choose|m: int| 0 <= m < s.len() && s[m] == j;
    assert(order[m] == j);
}

/// Two stable orders of the same keys agree up to position `k`.
proof fn lemma_orders_agree(keys: Seq<usize>, o1: Seq<usize>, o2: Seq<usize>, k: int)
    requires
        is_stable_order(keys, o1),
        is_stable_order(keys, o2),
        0 <= k < keys.len(),
    ensures
        forall|j: int| 0 <= j <= k ==> o1[j] == o2[j],
    decreases k,
{
    if k > 0 {
        lemma_orders_agree(keys, o1, o2, k - 1);
    }
    let x = o1[k];
    let y = o2[k];
    if x != y {
        lemma_order_covers(keys, o2, x as int);
        lemma_order_covers(keys, o1, y as int);
        let m1 = choose|m: int| 0 <= m < o2.len() && o2[m] == x;
        let m2 = choose|m: int| 0 <= m < o1.len() && o1[m] == y;
        if m1 < k {
            assert(o1[m1] == o2[m1]);
            assert(o1[m1] != o1[k]);
        }
        if m2 < k {
            assert(o1[m2] == o2[m2]);
            assert(o2[m2] != o2[k]);
        }
        assert(m1 > k && m2 > k);
        assert(keys[y as int] <= keys[x as int]);
        assert(keys[x as int] <= keys[y as int]);
        assert(x < y && y < x);
    }
}

/// Keys have one stable order only.
pub proof fn lemma_stable_order_unique(keys: Seq<usize>, o1: Seq<usize>, o2: Seq<usize>)
    requires
        is_stable_order(keys, o1),
        is_stable_order(keys, o2),
    ensures
        o1 == o2,
{
    if keys.len() > 0 {
        lemma_orders_agree(keys, o1, o2, keys.len() - 1);
    }
    assert(o1 =~= o2);
}

/// Tiles compose to one text only: the composition of a tile list is a
/// function of the list.
pub proof fn law_composition_is_unique(tiles: Seq<TileView>, t1: Seq<char>, t2: Seq<char>)
    requires
        composed_from(tiles, t1),
        composed_from(tiles, t2),
    ensures
        t1 == t2,
{
    let s1 = choose|sorted: Seq<TileView>|
        #[trigger] is_stable_sort(tiles, sorted) && t1 == join(tile_contents(sorted), '\n');
    let s2 = choose|sorted: Seq<TileView>|
        #[trigger] is_stable_sort(tiles, sorted) && t2 == join(tile_contents(sorted), '\n');
    let keys = tile_keys(tiles);
    let o1 = choose|order: Seq<usize>|
        #[trigger] is_stable_order(keys, order) && s1 == order.map_values(
            |k: usize| tiles[k as int],
        );
    let o2 = choose|order: Seq<usize>|
        #[trigger] is_stable_order(keys, order) && s2 == order.map_values(
            |k: usize| tiles[k as int],
        );
    lemma_stable_order_unique(keys, o1, o2);
    assert(s1 == s2);
}

/// `p` carries `a` onto `b`: tile `k` of `b` is tile `p[k]` of `a`, and no
/// tile of `a` is used twice.
pub open spec fn permutes(a: Seq<TileView>, b: Seq<TileView>, p: Seq<usize>) -> bool {
    &&& a.len() == b.len()
    &&& p.len() == b.len()
    &&& forall|k: int| 0 <= k < p.len() ==> #[trigger] p[k] < a.len() && b[k] == a[p[k] as int]
    &&& forall|x: int, y: int| 0 <= x < y < p.len() ==> p[x] != p[y]
}

/// `b` holds the tiles of `a` in some order.
pub open spec fn is_permutation(a: Seq<TileView>, b: Seq<TileView>) -> bool {
    exists|p: Seq<usize>| #[trigger] permutes(a, b, p)
}

/// No two tiles share an index.
pub open spec fn has_distinct_indices(a: Seq<TileView>) -> bool {
    forall|x: int, y: int| 0 <= x < y < a.len() ==> a[x].index != a[y].index
}

/// Tile lists that hold the same tiles in different orders, no two of them
/// with the same index, compose to the same text.
pub proof fn law_permuted_tiles_compose_alike(
    t1: Seq<TileView>,
    t2: Seq<TileView>,
    text1: Seq<char>,
    text2: Seq<char>,
)
    requires
        is_permutation(t1, t2),
        has_distinct_indices(t1),
        composed_from(t1, text1),
        composed_from(t2, text2),
    ensures
        text1 == text2,
{
    let p = choose|p: Seq<usize>| #[trigger] permutes(t1, t2, p);
    let s1 = choose|sorted: Seq<TileView>|
        #[trigger] is_stable_sort(t1, sorted) && text1 == join(tile_contents(sorted), '\n');
    let s2 = choose|sorted: Seq<TileView>|
        #[trigger] is_stable_sort(t2, sorted) && text2 == join(tile_contents(sorted), '\n');
    let k1 = tile_keys(t1);
    let k2 = tile_keys(t2);
    let o1 = choose|order: Seq<usize>|
        #[trigger] is_stable_order(k1, order) && s1 == order.map_values(|k: usize| t1[k as int]);
    let o2 = choose|order: Seq<usize>|
        #[trigger] is_stable_order(k2, order) && s2 == order.map_values(|k: usize| t2[k as int]);
    let n = t1.len() as int;
    let q = o2.map_values(|j: usize| p[j as int]);
    assert forall|k: int| 0 <= k < n implies #[trigger] q[k] < n && k1[q[k] as int] == k2[o2[k]
        as int] && t1[q[k] as int] == t2[o2[k] as int] by {
        assert(o2[k] < n);
        assert(p[o2[k] as int] < n);
    }
    assert forall|a: int, b: int| 0 <= a < b < n implies q[a] != q[b] && k1[q[a] as int] <= k1[
        q[b] as int] && (k1[q[a] as int] == k1[q[b] as int] ==> q[a] < q[b]) by {
        assert(q[a] < n && q[b] < n);
        assert(o2[a] != o2[b]);
        if o2[a] < o2[b] {
            assert(p[o2[a] as int] != p[o2[b] as int]);
        } else {
            assert(p[o2[b] as int] != p[o2[a] as int]);
        }
        assert(k2[o2[a] as int] <= k2[o2[b] as int]);
        if q[a] < q[b] {
            assert(t1[q[a] as int].index != t1[q[b] as int].index);
        } else {
            assert(t1[q[b] as int].index != t1[q[a] as int].index);
        }
    }
    assert(is_stable_order(k1, q));
    lemma_stable_order_unique(k1, o1, q);
    assert(s1 =~= s2);
}

} // verus!
