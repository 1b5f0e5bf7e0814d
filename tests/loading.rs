use autotile::{
    load_rules_from_image, rules_from_picture, ColorRules, ConnectionFilter, IVec2, LoadError,
    Picture, Rgba, UVec2,
};

const CLEAR: Rgba = Rgba { r: 0, g: 0, b: 0, a: 0 };
const WHITE: Rgba = Rgba { r: 255, g: 255, b: 255, a: 255 };
const BLACK: Rgba = Rgba { r: 0, g: 0, b: 0, a: 255 };
const RED: Rgba = Rgba { r: 255, g: 0, b: 0, a: 255 };
const GREY: Rgba = Rgba { r: 128, g: 128, b: 128, a: 255 };

fn palette() -> ColorRules {
    let mut c = ColorRules::new();
    c.insert(WHITE, Some(ConnectionFilter::Empty));
    c.insert(BLACK, None);
    c.insert(RED, Some(ConnectionFilter::Same));
    c
}

fn picture(width: usize, height: usize, fill: Rgba) -> Picture {
    Picture { width, height, pixels: vec![fill; width * height] }
}

fn put(p: &mut Picture, x: usize, y: usize, c: Rgba) {
    p.pixels[y * p.width + x] = c;
}

/// Paints the eight sample pixels of cell (cx, cy) of a 3 by 3 tile grid.
fn paint_samples(p: &mut Picture, cx: usize, cy: usize, c: Rgba) {
    for sx in [0, 1, 2] {
        for sy in [0, 1, 2] {
            if (sx, sy) != (1, 1) {
                put(p, cx * 3 + sx, cy * 3 + sy, c);
            }
        }
    }
}

fn png(p: &Picture) -> Vec<u8> {
    let mut raw = Vec::new();
    for px in &p.pixels {
        raw.extend_from_slice(&[px.r, px.g, px.b, px.a]);
    }
    let img = image::RgbaImage::from_raw(p.width as u32, p.height as u32, raw).unwrap();
    let mut out = std::io::Cursor::new(Vec::new());
    image::DynamicImage::ImageRgba8(img).write_to(&mut out, image::ImageOutputFormat::Png).unwrap();
    out.into_inner()
}

#[test]
fn test_color_rules_parse() {
    let rules = palette();
    assert_eq!(rules.get(WHITE), Some(Some(ConnectionFilter::Empty)));
    assert_eq!(rules.get(BLACK), Some(None));
    assert_eq!(rules.get(GREY), None);
}

#[test]
fn color_insert_replaces() {
    let mut rules = palette();
    rules.insert(WHITE, Some(ConnectionFilter::Different));
    assert_eq!(rules.get(WHITE), Some(Some(ConnectionFilter::Different)));
    assert_eq!(rules.get(RED), Some(Some(ConnectionFilter::Same)));
}

#[test]
fn scenario_c_white_samples_require_empty_everywhere() {
    let mut p = picture(3, 3, CLEAR);
    paint_samples(&mut p, 0, 0, WHITE);
    let rules = rules_from_picture(&p, UVec2::new(3, 3), &palette()).unwrap();
    assert_eq!(rules.len(), 1);
    assert_eq!(rules[0].tileset_pos, UVec2::new(0, 0));
    for dx in -1..=1 {
        for dy in -1..=1 {
            if (dx, dy) != (0, 0) {
                assert_eq!(rules[0].filter(IVec2::new(dx, dy)), Some(ConnectionFilter::Empty));
            }
        }
    }
}

#[test]
fn vertical_axis_is_mirrored() {
    // red at the top edge midpoint of the image cell means "Same" above, in world axes
    let mut p = picture(3, 3, CLEAR);
    put(&mut p, 1, 0, RED);
    put(&mut p, 2, 1, WHITE);
    let rules = rules_from_picture(&p, UVec2::new(3, 3), &palette()).unwrap();
    assert_eq!(rules.len(), 1);
    assert_eq!(rules[0].filter(IVec2::new(0, 1)), Some(ConnectionFilter::Same));
    assert_eq!(rules[0].filter(IVec2::new(0, -1)), None);
    assert_eq!(rules[0].filter(IVec2::new(1, 0)), Some(ConnectionFilter::Empty));
}

#[test]
fn transparent_and_reserved_cells_are_dropped() {
    // 2 columns by 2 rows of 3 by 3 tiles
    let mut p = picture(6, 6, CLEAR);
    paint_samples(&mut p, 1, 0, BLACK);
    put(&mut p, 3 * 0 + 1, 3 * 1 + 1, GREY); // the centre pixel is never sampled
    paint_samples(&mut p, 1, 1, WHITE);
    let rules = rules_from_picture(&p, UVec2::new(3, 3), &palette()).unwrap();
    assert_eq!(rules.len(), 1);
    assert_eq!(rules[0].tileset_pos, UVec2::new(1, 1));
}

#[test]
fn rules_come_column_by_column() {
    let mut p = picture(6, 6, CLEAR);
    put(&mut p, 0, 0, WHITE); // cell (0, 0)
    put(&mut p, 0, 3, WHITE); // cell (0, 1)
    put(&mut p, 3, 0, WHITE); // cell (1, 0)
    let rules = rules_from_picture(&p, UVec2::new(3, 3), &palette()).unwrap();
    let cells: Vec<UVec2> = rules.iter().map(|r| r.tileset_pos).collect();
    assert_eq!(cells, vec![UVec2::new(0, 0), UVec2::new(0, 1), UVec2::new(1, 0)]);
}

#[test]
fn unknown_color_is_an_error() {
    let mut p = picture(3, 3, CLEAR);
    put(&mut p, 2, 2, GREY);
    assert_eq!(
        rules_from_picture(&p, UVec2::new(3, 3), &palette()).unwrap_err(),
        LoadError::UnknownColor(GREY)
    );
    // a transparent pixel of an unknown colour is skipped
    let mut q = picture(3, 3, CLEAR);
    put(&mut q, 2, 2, Rgba { r: 1, g: 2, b: 3, a: 0 });
    assert_eq!(rules_from_picture(&q, UVec2::new(3, 3), &palette()).unwrap().len(), 0);
}

#[test]
fn size_not_whole_tiles_is_an_error() {
    let p = picture(4, 3, WHITE);
    assert_eq!(rules_from_picture(&p, UVec2::new(3, 3), &palette()).unwrap_err(), LoadError::ImageSize);
    assert_eq!(rules_from_picture(&p, UVec2::new(0, 3), &palette()).unwrap_err(), LoadError::ImageSize);
}

#[test]
fn decoding_png_bytes() {
    let mut p = picture(6, 3, CLEAR);
    paint_samples(&mut p, 1, 0, WHITE);
    put(&mut p, 3, 1, RED);
    let bytes = png(&p);
    let rules = load_rules_from_image(&bytes, UVec2::new(3, 3), &palette()).unwrap();
    assert_eq!(rules.len(), 1);
    assert_eq!(rules[0].tileset_pos, UVec2::new(1, 0));
    assert_eq!(rules[0].filter(IVec2::new(-1, 0)), Some(ConnectionFilter::Same));
    assert_eq!(rules[0].filter(IVec2::new(1, 0)), Some(ConnectionFilter::Empty));
}

#[test]
fn decoding_is_deterministic() {
    let mut p = picture(6, 6, CLEAR);
    paint_samples(&mut p, 0, 1, RED);
    put(&mut p, 5, 5, WHITE);
    let bytes = png(&p);
    let a = load_rules_from_image(&bytes, UVec2::new(3, 3), &palette()).unwrap();
    let b = load_rules_from_image(&bytes, UVec2::new(3, 3), &palette()).unwrap();
    assert_eq!(a.len(), 2);
    assert_eq!(format!("{a:?}"), format!("{b:?}"));
}

#[test]
fn undecodable_bytes_are_an_error() {
    let bytes = vec![1u8, 2, 3, 4, 5];
    assert_eq!(load_rules_from_image(&bytes, UVec2::new(3, 3), &palette()).unwrap_err(), LoadError::Decode);
}
