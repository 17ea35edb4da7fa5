//! Tiles, the pieces a text is decomposed into, and their sets and statistics.
use vstd::prelude::*;

verus! {

/// One `key: value` pair of a tile's metadata, in the order it was recorded;
/// a later pair with the same key replaces an earlier one (see [`meta_map`]).
pub struct MetaEntry {
    pub key: String,
    pub value: String,
}

/// Metadata as recorded pairs of key and value.
pub type MetaView = Seq<(Seq<char>, Seq<char>)>;

impl View for MetaEntry {
    type V = (Seq<char>, Seq<char>);

    open spec fn view(&self) -> (Seq<char>, Seq<char>) {
        (self.key@, self.value@)
    }
}

/// The key-value map that recorded pairs make, each pair inserted in turn,
/// so that a later pair with the same key replaces an earlier one.
pub open spec fn meta_map(m: MetaView) -> Map<Seq<char>, Seq<char>>
    decreases m.len(),
{
    if m.len() == 0 {
        Map::empty()
    } else {
        meta_map(m.drop_last()).insert(m.last().0, m.last().1)
    }
}

/// The map holds exactly the recorded keys, each with the value of its
/// last pair.
pub proof fn lemma_meta_map(m: MetaView)
    ensures
        forall|k: Seq<char>|
            #[trigger] meta_map(m).dom().contains(k) <==> exists|i: int|
                0 <= i < m.len() && m[i].0 == k,
        forall|i: int|
            0 <= i < m.len() && (forall|j: int| i < j < m.len() ==> m[j].0 != m[i].0) ==> meta_map(
                m,
            )[#[trigger] m[i].0] == m[i].1,
    decreases m.len(),
{
    if m.len() > 0 {
        let r = m.drop_last();
        lemma_meta_map(r);
        assert forall|k: Seq<char>| #[trigger] meta_map(m).dom().contains(k) <==> exists|i: int|
            0 <= i < m.len() && m[i].0 == k by {
            assert(meta_map(m) == meta_map(r).insert(m.last().0, m.last().1));
            if meta_map(m).dom().contains(k) && k != m.last().0 {
                assert(meta_map(r).dom().contains(k));
                let i = choose|i: int| 0 <= i < r.len() && r[i].0 == k;
                assert(m[i].0 == k);
            }
            if exists|i: int| 0 <= i < m.len() && m[i].0 == k {
                let i = choose|i: int| 0 <= i < m.len() && m[i].0 == k;
                if i < r.len() {
                    assert(r[i].0 == k);
                    assert(meta_map(r).dom().contains(k));
                }
            }
        }
        assert forall|i: int|
            0 <= i < m.len() && (forall|j: int| i < j < m.len() ==> m[j].0 != m[i].0) implies meta_map(
            m,
        )[#[trigger] m[i].0] == m[i].1 by {
            assert(meta_map(m) == meta_map(r).insert(m.last().0, m.last().1));
            if i < r.len() {
                assert(m[i].0 != m.last().0);
                assert(r[i] == m[i]);
                assert forall|j: int| i < j < r.len() implies r[j].0 != r[i].0 by {
                    assert(r[j] == m[j]);
                }
                assert(meta_map(r)[r[i].0] == r[i].1);
            }
        }
    }
}

/// One piece of decomposed content.
pub struct Tile {
    pub id: String,
    pub index: usize,
    pub content: String,
    pub metadata: Option<Vec<MetaEntry>>,
}

/// The view of a [`Tile`].
pub struct TileView {
    pub id: Seq<char>,
    pub index: usize,
    pub content: Seq<char>,
    pub metadata: Option<MetaView>,
}

/// The view of optional metadata.
pub open spec fn meta_view(m: Option<Vec<MetaEntry>>) -> Option<MetaView> {
    match m {
        Some(v) => Some(v@.map_values(|e: MetaEntry| e@)),
        None => None,
    }
}

impl View for Tile {
    type V = TileView;

    open spec fn view(&self) -> TileView {
        TileView {
            id: self.id@,
            index: self.index,
            content: self.content@,
            metadata: meta_view(self.metadata),
        }
    }
}

/// The views of a list of tiles.
pub open spec fn tiles_view(v: Seq<Tile>) -> Seq<TileView> {
    v.map_values(|t: Tile| t@)
}

/// The contents of a list of tiles.
pub open spec fn tile_contents(ts: Seq<TileView>) -> Seq<Seq<char>> {
    ts.map_values(|t: TileView| t.content)
}

/// The contents of a list of shapes.
pub open spec fn shape_contents(shapes: Seq<TileShape>) -> Seq<Seq<char>> {
    shapes.map_values(|s: TileShape| s.0)
}

/// Tiles that hold the shapes hold their contents.
pub proof fn lemma_fit_contents(tiles: Seq<TileView>, shapes: Seq<TileShape>)
    requires
        tiles_fit(tiles, shapes),
    ensures
        tile_contents(tiles) == shape_contents(shapes),
{
    assert(tile_contents(tiles) =~= shape_contents(shapes));
}

/// The tiles of one source, with the format they were decomposed by.
pub struct TileSet {
    pub format: String,
    pub source: String,
    pub tile_count: usize,
    pub tiles: Vec<Tile>,
}

/// Sizes of the tiles of one source, in bytes of UTF-8.
pub struct TileStats {
    pub format: String,
    pub source: String,
    pub tile_count: usize,
    pub total_bytes: usize,
    pub min_tile_bytes: usize,
    pub max_tile_bytes: usize,
}

/// What a tile is to hold: its content and its metadata.
pub type TileShape = (Seq<char>, Option<MetaView>);

/// Whether `c` is a lower-case hexadecimal digit.
pub open spec fn is_lower_hex(c: char) -> bool {
    ('0' <= c && c <= '9') || ('a' <= c && c <= 'f')
}

/// The hyphenated lower-case text of a version-4 UUID:
/// `xxxxxxxx-xxxx-4xxx-yxxx-xxxxxxxxxxxx` with `y` one of `8 9 a b`.
pub open spec fn is_uuid_v4_text(s: Seq<char>) -> bool {
    &&& s.len() == 36
    &&& forall|i: int|
        0 <= i < 36 ==> if i == 8 || i == 13 || i == 18 || i == 23 {
            #[trigger] s[i] == '-'
        } else {
            is_lower_hex(s[i])
        }
    &&& s[14] == '4'
    &&& (s[19] == '8' || s[19] == '9' || s[19] == 'a' || s[19] == 'b')
}

/// The tiles hold the given shapes in order: tile `i` has index `i`, the
/// `i`th content and metadata, and a fresh UUID for its id.
pub open spec fn tiles_fit(tiles: Seq<TileView>, shapes: Seq<TileShape>) -> bool {
    &&& tiles.len() == shapes.len()
    &&& forall|i: int|
        0 <= i < tiles.len() ==> {
            &&& (#[trigger] tiles[i]).index == i
            &&& tiles[i].content == shapes[i].0
            &&& tiles[i].metadata == shapes[i].1
            &&& is_uuid_v4_text(tiles[i].id)
        }
}

/// A fresh tile id: `uuid::Uuid::new_v4().to_string()`. The UUID is random;
/// the contract states only the textual form that `uuid`'s `Display` gives
/// every version-4 UUID (hyphenated, lower-case, version and variant digits).
/// That two ids differ is not stated: it rests on chance. `uuid` panics
/// where the system's random source fails.
#[verifier::external_body]
fn new_tile_id() -> (id: String)
    ensures
        is_uuid_v4_text(id@),
{
    uuid::Uuid::new_v4().to_string()
}

/// A tile with a fresh id.
pub fn make_tile(index: usize, content: String, metadata: Option<Vec<MetaEntry>>) -> (t: Tile)
    ensures
        t@.index == index,
        t@.content == content@,
        t@.metadata == meta_view(metadata),
        is_uuid_v4_text(t@.id),
{
    Tile { id: new_tile_id(), index, content, metadata }
}

} // verus!
