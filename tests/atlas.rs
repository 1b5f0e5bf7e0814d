use autotile::{
    AtlasError, ConnectionFilter, IVec2, Picture, Rgba, Rule, Tile, TilesetDef, UVec2,
};

const CLEAR: Rgba = Rgba { r: 0, g: 0, b: 0, a: 0 };

/// A source image of `cols` by `rows` tiles of 2 by 2 pixels, each pixel distinct.
fn source(cols: usize, rows: usize) -> Picture {
    let (w, h) = (cols * 2, rows * 2);
    let mut pixels = Vec::new();
    for y in 0..h {
        for x in 0..w {
            pixels.push(Rgba { r: x as u8, g: y as u8, b: 7, a: 255 });
        }
    }
    Picture { width: w, height: h, pixels }
}

fn at(p: &Picture, x: usize, y: usize) -> Rgba {
    p.pixels[y * p.width + x]
}

fn src_px(x: usize, y: usize) -> Rgba {
    Rgba { r: x as u8, g: y as u8, b: 7, a: 255 }
}

#[test]
fn default_is_copied_and_clamped() {
    let mut def = TilesetDef::new(UVec2::new(2, 2));
    def.insert_tile("rock".to_string(), Tile { rules: vec![], default: Some(UVec2::new(1, 0)) });
    let atlas = def.build_atlas(&source(2, 1)).unwrap();
    assert_eq!((atlas.width, atlas.height), (8, 4));
    // the padded cell of (1, 0) spans x 4..8, y 0..4; its tile is source x 2..4, y 0..2
    for y in 0..4 {
        for x in 0..4 {
            let sx = 2 + x.max(1).min(2) - 1;
            let sy = y.max(1).min(2) - 1;
            assert_eq!(at(&atlas, 4 + x, y), src_px(sx, sy), "at {x},{y}");
        }
    }
    // cell (0, 0) is unused
    for y in 0..4 {
        for x in 0..4 {
            assert_eq!(at(&atlas, x, y), CLEAR);
        }
    }
}

#[test]
fn rule_border_only_on_same_sides() {
    let mut rule = Rule::new(UVec2::new(0, 0));
    rule.set_filter(IVec2::new(1, 0), ConnectionFilter::Same);
    rule.set_filter(IVec2::new(0, 1), ConnectionFilter::Same);
    rule.set_filter(IVec2::new(-1, 0), ConnectionFilter::Empty);
    let mut def = TilesetDef::new(UVec2::new(2, 2));
    def.insert_tile("block".to_string(), Tile { rules: vec![rule], default: None });
    let atlas = def.build_atlas(&source(1, 1)).unwrap();
    assert_eq!((atlas.width, atlas.height), (4, 4));
    // the tile itself
    assert_eq!(at(&atlas, 1, 1), src_px(0, 0));
    assert_eq!(at(&atlas, 2, 2), src_px(1, 1));
    // "Same" to the right: the right border repeats the last column
    assert_eq!(at(&atlas, 3, 1), src_px(1, 0));
    assert_eq!(at(&atlas, 3, 2), src_px(1, 1));
    // "Same" above (world up is image row 0): the top border repeats the first row
    assert_eq!(at(&atlas, 1, 0), src_px(0, 0));
    assert_eq!(at(&atlas, 2, 0), src_px(1, 0));
    // no "Same" to the left or below, nor on the corners
    assert_eq!(at(&atlas, 0, 1), CLEAR);
    assert_eq!(at(&atlas, 1, 3), CLEAR);
    assert_eq!(at(&atlas, 3, 0), CLEAR);
}

#[test]
fn atlas_build_is_idempotent() {
    let mut def = TilesetDef::new(UVec2::new(2, 2));
    let mut rule = Rule::new(UVec2::new(1, 1));
    rule.set_filter(IVec2::new(-1, -1), ConnectionFilter::Same);
    def.insert_tile("a".to_string(), Tile { rules: vec![rule], default: Some(UVec2::new(0, 0)) });
    let src = source(2, 2);
    let a = def.build_atlas(&src).unwrap();
    let b = def.build_atlas(&src).unwrap();
    assert_eq!((a.width, a.height), (b.width, b.height));
    assert_eq!(a.pixels, b.pixels);
    // the lower-left corner of cell (1, 1) repeats its lower-left pixel
    assert_eq!(at(&a, 4, 7), src_px(2, 3));
}

#[test]
fn scenario_d_source_not_whole_tiles() {
    let mut def = TilesetDef::new(UVec2::new(2, 2));
    def.insert_tile("a".to_string(), Tile { rules: vec![], default: Some(UVec2::new(0, 0)) });
    let src = Picture { width: 3, height: 2, pixels: vec![CLEAR; 6] };
    assert_eq!(def.build_atlas(&src).unwrap_err(), AtlasError::NotWholeTiles);
    let zero = TilesetDef::new(UVec2::new(0, 2));
    assert_eq!(zero.build_atlas(&source(1, 1)).unwrap_err(), AtlasError::NotWholeTiles);
}

#[test]
fn cell_outside_source() {
    let mut def = TilesetDef::new(UVec2::new(2, 2));
    def.insert_tile("a".to_string(), Tile { rules: vec![], default: Some(UVec2::new(2, 0)) });
    assert_eq!(def.build_atlas(&source(2, 1)).unwrap_err(), AtlasError::CellOutside);
    let mut def2 = TilesetDef::new(UVec2::new(2, 2));
    def2.insert_tile("b".to_string(), Tile { rules: vec![Rule::new(UVec2::new(0, 1))], default: None });
    assert_eq!(def2.build_atlas(&source(2, 1)).unwrap_err(), AtlasError::CellOutside);
}

#[test]
fn atlas_too_large() {
    let def = TilesetDef::new(UVec2::new(1, 1));
    let src = Picture { width: usize::MAX / 2, height: 0, pixels: vec![] };
    assert_eq!(def.build_atlas(&src).unwrap_err(), AtlasError::TooLarge);
}
