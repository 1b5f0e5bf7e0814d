use std::collections::{HashMap, HashSet};

use autotile::{
    ConnectionFilter, IVec2, Rule, SparseTileMap, TexelRect, Tile, TileMap, TilesetDef, UVec2,
};

fn block_def() -> TilesetDef {
    let mut def = TilesetDef::new(UVec2::new(16, 16));
    // "Same" to the right, "Empty" everywhere else
    let mut right = Rule::new(UVec2::new(0, 0));
    // "Same" to the left, "Empty" everywhere else
    let mut left = Rule::new(UVec2::new(1, 0));
    for dx in -1..=1 {
        for dy in -1..=1 {
            if (dx, dy) == (0, 0) {
                continue;
            }
            let o = IVec2::new(dx, dy);
            let fr = if (dx, dy) == (1, 0) { ConnectionFilter::Same } else { ConnectionFilter::Empty };
            let fl = if (dx, dy) == (-1, 0) { ConnectionFilter::Same } else { ConnectionFilter::Empty };
            assert!(right.set_filter(o, fr));
            assert!(left.set_filter(o, fl));
        }
    }
    def.insert_tile("block".to_string(), Tile { rules: vec![right, left], default: None });
    def
}

#[test]
fn test() {
    let def = block_def();
    let mut map = SparseTileMap::new();
    map.insert(IVec2::new(0, 0), "block".to_string());
    map.insert(IVec2::new(1, 0), "block".to_string());
    let mesh: HashMap<IVec2, UVec2> =
        def.generate_mesh(&map).into_iter().map(|tile| (tile.pos, tile.tileset_pos)).collect();
    assert_eq!(
        map.non_empty_tiles().into_iter().collect::<HashSet<_>>(),
        mesh.keys().copied().collect::<HashSet<_>>(),
    );
}

#[test]
fn scenario_a_adjacent_blocks_resolve() {
    let def = block_def();
    let mut map = SparseTileMap::new();
    map.insert(IVec2::new(0, 0), "block".to_string());
    map.insert(IVec2::new(1, 0), "block".to_string());
    let mesh = def.generate_mesh(&map);
    assert_eq!(mesh.len(), 2);
    let at = |p: IVec2| mesh.iter().find(|t| t.pos == p).unwrap().tileset_pos;
    assert_eq!(at(IVec2::new(0, 0)), UVec2::new(0, 0));
    assert_eq!(at(IVec2::new(1, 0)), UVec2::new(1, 0));
}

#[test]
fn scenario_b_unmatched_cell_is_omitted() {
    let def = block_def();
    let mut map = SparseTileMap::new();
    map.insert(IVec2::new(4, 4), "block".to_string());
    assert!(def.generate_mesh(&map).is_empty());
}

#[test]
fn mesh_is_subset_of_occupied() {
    let mut def = block_def();
    def.insert_tile("rock".to_string(), Tile { rules: vec![], default: Some(UVec2::new(2, 3)) });
    let mut map = SparseTileMap::new();
    map.insert(IVec2::new(0, 0), "block".to_string());
    map.insert(IVec2::new(1, 0), "rock".to_string());
    map.insert(IVec2::new(5, 5), "block".to_string());
    map.insert(IVec2::new(i32::MAX, i32::MIN), "rock".to_string());
    let mesh = def.generate_mesh(&map);
    let occupied: HashSet<IVec2> = map.non_empty_tiles().into_iter().collect();
    for t in &mesh {
        assert!(occupied.contains(&t.pos));
    }
    let drawn: HashSet<IVec2> = mesh.iter().map(|t| t.pos).collect();
    assert_eq!(drawn.len(), mesh.len());
    // the rocks always resolve through their default; the blocks have no matching rule
    let expected: HashSet<IVec2> =
        [IVec2::new(1, 0), IVec2::new(i32::MAX, i32::MIN)].into_iter().collect();
    assert_eq!(drawn, expected);
}

#[test]
fn different_names_are_different_neighbours() {
    let mut def = TilesetDef::new(UVec2::new(8, 8));
    let mut r = Rule::new(UVec2::new(4, 0));
    r.set_filter(IVec2::new(1, 0), ConnectionFilter::Different);
    r.set_filter(IVec2::new(-1, 0), ConnectionFilter::Empty);
    def.insert_tile("a".to_string(), Tile { rules: vec![r], default: None });
    def.insert_tile("b".to_string(), Tile { rules: vec![], default: Some(UVec2::new(0, 1)) });
    let mut map = SparseTileMap::new();
    map.insert(IVec2::new(0, 0), "a".to_string());
    map.insert(IVec2::new(1, 0), "b".to_string());
    let mesh = def.generate_mesh(&map);
    assert_eq!(mesh.len(), 2);
    assert!(mesh.iter().any(|t| t.pos == IVec2::new(0, 0) && t.tileset_pos == UVec2::new(4, 0)));
}

#[test]
fn insert_tile_replaces_by_name() {
    let mut def = TilesetDef::new(UVec2::new(8, 8));
    def.insert_tile("a".to_string(), Tile { rules: vec![], default: Some(UVec2::new(0, 0)) });
    def.insert_tile("b".to_string(), Tile { rules: vec![], default: None });
    def.insert_tile("a".to_string(), Tile { rules: vec![], default: Some(UVec2::new(7, 7)) });
    assert_eq!(def.tiles.len(), 2);
    let i = def.find(&"a".to_string()).unwrap();
    assert_eq!(def.tiles[i].1.default, Some(UVec2::new(7, 7)));
    assert_eq!(def.find(&"c".to_string()), None);
}

#[test]
fn sparse_map_lookups() {
    let mut map = SparseTileMap::new();
    map.insert(IVec2::new(1, 2), "a".to_string());
    map.insert(IVec2::new(1, 2), "b".to_string());
    map.insert(IVec2::new(-3, 0), "a".to_string());
    assert_eq!(map.get_at(IVec2::new(1, 2)), Some("b".to_string()));
    assert_eq!(map.get_at(IVec2::new(0, 0)), None);
    assert_eq!(map.non_empty_tiles().len(), 2);
}

#[test]
fn uv_texels_exclude_border() {
    let def = TilesetDef::new(UVec2::new(16, 8));
    // cell (1, 2): pixels x 18..36, y 20..30 in a 72 by 40 texture
    let r = def.uv_texels(UVec2::new(1, 2), UVec2::new(72, 40));
    assert_eq!(r, TexelRect { min_x: 19, min_y: 40 - 29, max_x: 35, max_y: 40 - 21 });
    let b = def.uv_texels_with_border(UVec2::new(1, 2), UVec2::new(72, 40));
    assert_eq!(b, TexelRect { min_x: 18, min_y: 40 - 30, max_x: 36, max_y: 40 - 20 });
}
