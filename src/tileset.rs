use vstd::prelude::*;
use crate::connection::Connection;
use crate::geom::{dir_x, dir_y, direction, IVec2, UVec2, DIRECTION_COUNT};
use crate::rules::Tile;

verus! {

/// An occupancy map: which tile name, if any, stands at each cell.
pub trait TileMap {
    /// The tile name at `pos`, `None` for an unoccupied cell.
    spec fn tile_at(&self, pos: IVec2) -> Option<Seq<char>>;

    /// Every occupied cell, each one once, in any order.
    fn non_empty_tiles(&self) -> (r: Vec<IVec2>)
        ensures
            r@.no_duplicates(),
            forall|p: IVec2| #[trigger] r@.contains(p) <==> self.tile_at(p) is Some,
    ;

    /// The tile name at `pos`.
    fn get_at(&self, pos: IVec2) -> (r: Option<String>)
        ensures
            match r {
                Some(s) => self.tile_at(pos) == Some(s@),
                None => self.tile_at(pos) is None,
            },
    ;
}

/// One resolved cell of the mesh: the world cell and the atlas cell drawn there.
#[derive(Clone, Copy, Debug, PartialEq, Eq, Structural)]
pub struct TexturedTile {
    pub pos: IVec2,
    pub tileset_pos: UVec2,
}

/// A rectangle of the padded atlas in texels, with the vertical axis pointing up from
/// the texture's bottom edge. Divided by the texture's width and height it gives
/// normalised texture coordinates.
#[derive(Clone, Copy, Debug, PartialEq, Eq, Structural)]
pub struct TexelRect {
    pub min_x: i128,
    pub min_y: i128,
    pub max_x: i128,
    pub max_y: i128,
}

/// The texel rectangle of atlas cell `p` in a texture of `size` texels, with each side
/// moved inwards by `shrink` texels.
pub open spec fn texel_rect(ts: UVec2, p: UVec2, size: UVec2, shrink: int) -> TexelRect {
    TexelRect {
        min_x: (p.x * (ts.x + 2) + shrink) as i128,
        min_y: (size.y - ((p.y + 1) * (ts.y + 2) - shrink)) as i128,
        max_x: ((p.x + 1) * (ts.x + 2) - shrink) as i128,
        max_y: (size.y - (p.y * (ts.y + 2) + shrink)) as i128,
    }
}

/// The padded cell of atlas cell `p` has texel coordinates that fit in `usize`.
pub open spec fn cell_addressable(ts: UVec2, p: UVec2) -> bool {
    (p.x + 1) * (ts.x + 2) <= usize::MAX && (p.y + 1) * (ts.y + 2) <= usize::MAX
}

/// The rule database of a tileset: the size of a source tile in pixels, and the
/// tile types by name.
#[derive(Clone, Debug)]
pub struct TilesetDef {
    pub tile_size: UVec2,
    pub tiles: Vec<(String, Tile)>,
}

/// What a cell named `here` observes in a neighbour holding `there`.
pub open spec fn connection_to(here: Seq<char>, there: Option<Seq<char>>) -> Connection {
    match there {
        Some(other) => if other == here {
            Connection::Same
        } else {
            Connection::Different
        },
        None => Connection::Empty,
    }
}

/// The cell in direction `d` from `pos`, if it has 32-bit coordinates.
pub open spec fn neighbor(pos: IVec2, d: int) -> Option<IVec2> {
    let x = pos.x + dir_x(d);
    let y = pos.y + dir_y(d);
    if i32::MIN <= x <= i32::MAX && i32::MIN <= y <= i32::MAX {
        Some(IVec2 { x: x as i32, y: y as i32 })
    } else {
        None
    }
}

/// The connections that a cell named `here` at `pos` observes, one per direction.
/// A neighbour beyond the 32-bit grid is empty.
pub open spec fn surroundings<M: TileMap>(map: &M, pos: IVec2, here: Seq<char>) -> Seq<Connection> {
    Seq::new(
        8,
        |d: int|
            match neighbor(pos, d) {
                Some(q) => connection_to(here, map.tile_at(q)),
                None => Connection::Empty,
            },
    )
}

/// `i` is the first entry of `tiles` with the given name.
pub open spec fn is_first_named(tiles: Seq<(String, Tile)>, name: Seq<char>, i: int) -> bool {
    &&& 0 <= i < tiles.len()
    &&& tiles[i].0@ == name
    &&& forall|j: int| 0 <= j < i ==> tiles[j].0@ != name
}

impl TilesetDef {
    /// Whether some tile has the given name.
    pub open spec fn has_tile(self, name: Seq<char>) -> bool {
        exists|i: int| 0 <= i < self.tiles@.len() && (#[trigger] self.tiles@[i]).0@ == name
    }

    /// No two tiles share a name.
    pub open spec fn names_distinct(self) -> bool {
        forall|i: int, j: int|
            0 <= i < self.tiles@.len() && 0 <= j < self.tiles@.len() && i != j ==> (
            #[trigger] self.tiles@[i]).0@ != (#[trigger] self.tiles@[j]).0@
    }

    /// A cell named `name` at `pos` of `map` may be drawn with atlas cell `p`.
    pub open spec fn may_draw<M: TileMap>(self, map: &M, pos: IVec2, name: Seq<char>, p: UVec2) -> bool {
        exists|i: int|
            #[trigger] is_first_named(self.tiles@, name, i) && self.tiles@[i].1.may_show(
                surroundings(map, pos, name),
                p,
            )
    }

    /// A cell named `name` at `pos` of `map` is drawn with some atlas cell.
    pub open spec fn draws<M: TileMap>(self, map: &M, pos: IVec2, name: Seq<char>) -> bool {
        exists|i: int|
            #[trigger] is_first_named(self.tiles@, name, i) && self.tiles@[i].1.resolves(
                surroundings(map, pos, name),
            )
    }

    fn uv_impl(&self, tileset_pos: UVec2, texture_size: UVec2, shrink: usize) -> (r: TexelRect)
        requires
            shrink <= 1,
            cell_addressable(self.tile_size, tileset_pos),
        ensures
            r == texel_rect(self.tile_size, tileset_pos, texture_size, shrink as int),
    {
        let ts = self.tile_size;
        let p = tileset_pos;
        proof {
            assert(p.x * (ts.x + 2) + ts.x + 2 == (p.x + 1) * (ts.x + 2)) by (nonlinear_arith);
            assert(p.y * (ts.y + 2) + ts.y + 2 == (p.y + 1) * (ts.y + 2)) by (nonlinear_arith);
            assert(0 <= p.x * (ts.x + 2) && 0 <= p.y * (ts.y + 2)) by (nonlinear_arith);
        }
        let min_x = p.x as i128 * (ts.x as i128 + 2) + shrink as i128;
        let max_x = (p.x as i128 + 1) * (ts.x as i128 + 2) - shrink as i128;
        let min_y = p.y as i128 * (ts.y as i128 + 2) + shrink as i128;
        let max_y = (p.y as i128 + 1) * (ts.y as i128 + 2) - shrink as i128;
        let h = texture_size.y as i128;
        TexelRect { min_x, min_y: h - max_y, max_x, max_y: h - min_y }
    }

    /// The texels of atlas cell `tileset_pos` without its one-texel border, for
    /// ordinary drawing.
    pub fn uv_texels(&self, tileset_pos: UVec2, texture_size: UVec2) -> (r: TexelRect)
        requires
            cell_addressable(self.tile_size, tileset_pos),
        ensures
            r == texel_rect(self.tile_size, tileset_pos, texture_size, 1),
    {
        self.uv_impl(tileset_pos, texture_size, 1)
    }

    /// The texels of atlas cell `tileset_pos` with its border, where cells must abut
    /// without a gap.
    pub fn uv_texels_with_border(&self, tileset_pos: UVec2, texture_size: UVec2) -> (r: TexelRect)
        requires
            cell_addressable(self.tile_size, tileset_pos),
        ensures
            r == texel_rect(self.tile_size, tileset_pos, texture_size, 0),
    {
        self.uv_impl(tileset_pos, texture_size, 0)
    }

    /// An empty database for source tiles of the given size.
    pub fn new(tile_size: UVec2) -> (r: TilesetDef)
        ensures
            r.tile_size == tile_size,
            r.tiles@.len() == 0,
    {
        TilesetDef { tile_size, tiles: Vec::new() }
    }

    /// The index of the first tile with the given name.
    pub fn find(&self, name: &String) -> (r: Option<usize>)
        ensures
            match r {
                Some(i) => is_first_named(self.tiles@, name@, i as int),
                None => !self.has_tile(name@),
            },
    {
        let mut i: usize = 0;
        while i < self.tiles.len()
            invariant
                i <= self.tiles.len(),
                forall|j: int| 0 <= j < i ==> (#[trigger] self.tiles@[j]).0@ != name@,
            decreases self.tiles.len() - i,
        {
            if self.tiles[i].0 == *name {
                return Some(i);
            }
            i = i + 1;
        }
        None
    }

    /// Adds a tile type under `name`, replacing the one of that name if there is one.
    pub fn insert_tile(&mut self, name: String, tile: Tile)
        requires
            old(self).names_distinct(),
        ensures
            final(self).names_distinct(),
            final(self).tile_size == old(self).tile_size,
            exists|i: int|
                #[trigger] is_first_named(final(self).tiles@, name@, i) && final(self).tiles@[i].1
                    == tile,
            forall|other: Seq<char>|
                other != name@ ==> (final(self).has_tile(other) <==> old(self).has_tile(other)),
    {
        match self.find(&name) {
            Some(i) => {
                self.tiles.set(i, (name, tile));
                assert(is_first_named(self.tiles@, name@, i as int));
                assert forall|other: Seq<char>|
                    other != name@ implies (self.has_tile(other) <==> old(self).has_tile(other)) by {
                    if old(self).has_tile(other) {
                        let k = choose|k: int|
                            0 <= k < old(self).tiles@.len() && (#[trigger] old(self).tiles@[k]).0@
                                == other;
                        assert(self.tiles@[k].0@ == other);
                    }
                    if self.has_tile(other) {
                        let k = choose|k: int|
                            0 <= k < self.tiles@.len() && (#[trigger] self.tiles@[k]).0@ == other;
                        assert(old(self).tiles@[k].0@ == other);
                    }
                }
            },
            None => {
                let ghost n = self.tiles@.len();
                self.tiles.push((name, tile));
                assert(is_first_named(self.tiles@, name@, n as int));
                assert forall|other: Seq<char>|
                    other != name@ implies (self.has_tile(other) <==> old(self).has_tile(other)) by {
                    if old(self).has_tile(other) {
                        let k = choose|k: int|
                            0 <= k < old(self).tiles@.len() && (#[trigger] old(self).tiles@[k]).0@
                                == other;
                        assert(self.tiles@[k].0@ == other);
                    }
                    if self.has_tile(other) {
                        let k = choose|k: int|
                            0 <= k < self.tiles@.len() && (#[trigger] self.tiles@[k]).0@ == other;
                        assert(old(self).tiles@[k].0@ == other);
                    }
                }
            },
        }
    }

    /// The mesh of `tile_map`: one textured cell for each occupied cell that resolves
    /// to an atlas cell, none for the others. Every occupied cell's tile name must have
    /// an entry in the database.
    pub fn generate_mesh<M: TileMap>(&self, tile_map: &M) -> (r: Vec<TexturedTile>)
        requires
            forall|p: IVec2|
                (#[trigger] tile_map.tile_at(p)) is Some ==> self.has_tile(
                    tile_map.tile_at(p).unwrap(),
                ),
        ensures
            forall|k: int|
                0 <= k < r@.len() ==> tile_map.tile_at((#[trigger] r@[k]).pos) is Some
                    && self.may_draw(
                    tile_map,
                    r@[k].pos,
                    tile_map.tile_at(r@[k].pos).unwrap(),
                    r@[k].tileset_pos,
                ),
            forall|p: IVec2|
                (#[trigger] tile_map.tile_at(p)) is Some && self.draws(
                    tile_map,
                    p,
                    tile_map.tile_at(p).unwrap(),
                ) ==> exists|k: int| 0 <= k < r@.len() && (#[trigger] r@[k]).pos == p,
            forall|k: int, l: int|
                0 <= k < r@.len() && 0 <= l < r@.len() && k != l ==> (#[trigger] r@[k]).pos != (
                #[trigger] r@[l]).pos,
    {
        let positions = tile_map.non_empty_tiles();
        let mut out: Vec<TexturedTile> = Vec::new();
        let mut i: usize = 0;
        while i < positions.len()
            invariant
                i <= positions.len(),
                positions@.no_duplicates(),
                forall|p: IVec2| #[trigger] positions@.contains(p) <==> tile_map.tile_at(p) is Some,
                forall|p: IVec2|
                    (#[trigger] tile_map.tile_at(p)) is Some ==> self.has_tile(
                        tile_map.tile_at(p).unwrap(),
                    ),
                forall|k: int|
                    0 <= k < out@.len() ==> tile_map.tile_at((#[trigger] out@[k]).pos) is Some
                        && self.may_draw(
                        tile_map,
                        out@[k].pos,
                        tile_map.tile_at(out@[k].pos).unwrap(),
                        out@[k].tileset_pos,
                    ),
                forall|k: int|
                    0 <= k < out@.len() ==> exists|j: int|
                        0 <= j < i && positions@[j] == (#[trigger] out@[k]).pos,
                forall|j: int|
                    0 <= j < i && self.draws(
                        tile_map,
                        #[trigger] positions@[j],
                        tile_map.tile_at(positions@[j]).unwrap(),
                    ) ==> exists|k: int| 0 <= k < out@.len() && (#[trigger] out@[k]).pos == positions@[j],
                forall|k: int, l: int|
                    0 <= k < out@.len() && 0 <= l < out@.len() && k != l ==> (#[trigger] out@[k]).pos
                        != (#[trigger] out@[l]).pos,
            decreases positions.len() - i,
        {
            let pos = positions[i];
            assert(positions@.contains(pos));
            let ghost old_out = out@;
            match tile_map.get_at(pos) {
                Some(name) => {
                    match self.find(&name) {
                        Some(t) => {
                            let around = observe(tile_map, pos, &name);
                            let tile = &self.tiles[t].1;
                            match tile.tileset_pos(&around) {
                                Some(uv) => {
                                    out.push(TexturedTile { pos, tileset_pos: uv });
                                    assert(self.may_draw(tile_map, pos, name@, uv));
                                },
                                None => {
                                    assert(!self.draws(tile_map, pos, name@)) by {
                                        if self.draws(tile_map, pos, name@) {
                                            let w = choose|w: int|
                                                #[trigger] is_first_named(self.tiles@, name@, w)
                                                    && self.tiles@[w].1.resolves(
                                                    surroundings(tile_map, pos, name@),
                                                );
                                            lemma_first_named_unique(self.tiles@, name@, w, t as int);
                                        }
                                    }
                                },
                            }
                        },
                        None => {},
                    }
                },
                None => {},
            }
            assert forall|k: int| 0 <= k < out@.len() implies exists|j: int|
                0 <= j < i + 1 && positions@[j] == (#[trigger] out@[k]).pos by {
                if k < old_out.len() {
                    assert(old_out[k] == out@[k]);
                } else {
                    assert(positions@[i as int] == out@[k].pos);
                }
            }
            assert forall|k: int, l: int|
                0 <= k < out@.len() && 0 <= l < out@.len() && k != l implies (#[trigger] out@[k]).pos
                    != (#[trigger] out@[l]).pos by {
                if k < old_out.len() && l < old_out.len() {
                    assert(old_out[k] == out@[k] && old_out[l] == out@[l]);
                } else if k < old_out.len() {
                    assert(old_out[k] == out@[k]);
                    let j = choose|j: int| 0 <= j < i && positions@[j] == (#[trigger] old_out[k]).pos;
                    assert(positions@[j] != positions@[i as int]);
                } else if l < old_out.len() {
                    assert(old_out[l] == out@[l]);
                    let j = choose|j: int| 0 <= j < i && positions@[j] == (#[trigger] old_out[l]).pos;
                    assert(positions@[j] != positions@[i as int]);
                }
            }
            assert forall|j: int|
                0 <= j < i + 1 && self.draws(
                    tile_map,
                    #[trigger] positions@[j],
                    tile_map.tile_at(positions@[j]).unwrap(),
                ) implies exists|k: int| 0 <= k < out@.len() && (#[trigger] out@[k]).pos == positions@[j] by {
                if j < i {
                    let k = choose|k: int| 0 <= k < old_out.len() && (#[trigger] old_out[k]).pos == positions@[j];
                    assert(out@[k] == old_out[k]);
                } else {
                    assert(out@[old_out.len() as int].pos == positions@[j]);
                }
            }
            i = i + 1;
        }
        assert forall|p: IVec2|
            (#[trigger] tile_map.tile_at(p)) is Some && self.draws(
                tile_map,
                p,
                tile_map.tile_at(p).unwrap(),
            ) implies exists|k: int| 0 <= k < out@.len() && (#[trigger] out@[k]).pos == p by {
            assert(positions@.contains(p));
            let j = choose|j: int| 0 <= j < positions@.len() && positions@[j] == p;
            assert(self.draws(tile_map, positions@[j], tile_map.tile_at(positions@[j]).unwrap()));
        }
        out
    }
}

/// At most one entry is the first with a given name.
proof fn lemma_first_named_unique(tiles: Seq<(String, Tile)>, name: Seq<char>, i: int, j: int)
    requires
        is_first_named(tiles, name, i),
        is_first_named(tiles, name, j),
    ensures
        i == j,
{
}

/// The connections observed around a cell named `here` at `pos`.
fn observe<M: TileMap>(map: &M, pos: IVec2, here: &String) -> (r: [Connection; 8])
    ensures
        r@ == surroundings(map, pos, here@),
{
    let mut out: [Connection; 8] = [Connection::Empty; 8];
    let mut d: usize = 0;
    while d < DIRECTION_COUNT
        invariant
            d <= DIRECTION_COUNT,
            out@.len() == 8,
            forall|e: int| 0 <= e < d ==> out@[e] == #[trigger] surroundings(map, pos, here@)[e],
        decreases DIRECTION_COUNT - d,
    {
        let v = direction(d);
        let x = pos.x as i64 + v.x as i64;
        let y = pos.y as i64 + v.y as i64;
        if i32::MIN as i64 <= x && x <= i32::MAX as i64 && i32::MIN as i64 <= y && y
            <= i32::MAX as i64 {
            let q = IVec2 { x: x as i32, y: y as i32 };
            assert(neighbor(pos, d as int) == Some(q));
            out[d] = match map.get_at(q) {
                Some(other) => if other == *here {
                    Connection::Same
                } else {
                    Connection::Different
                },
                None => Connection::Empty,
            };
        } else {
            out[d] = Connection::Empty;
        }
        d = d + 1;
    }
    assert(out@ =~= surroundings(map, pos, here@));
    out
}

} // verus!
