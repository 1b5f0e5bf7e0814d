use autotile::{Picture, Rgba};

#[test]
fn hex_colors_parse() {
    assert_eq!(Rgba::from_hex("#ffffff"), Some(Rgba { r: 255, g: 255, b: 255, a: 255 }));
    assert_eq!(Rgba::from_hex("#000000"), Some(Rgba { r: 0, g: 0, b: 0, a: 255 }));
    assert_eq!(Rgba::from_hex("#1A2b3C80"), Some(Rgba { r: 0x1a, g: 0x2b, b: 0x3c, a: 0x80 }));
    assert_eq!(Rgba::from_hex("ffffff"), None);
    assert_eq!(Rgba::from_hex("#fffff"), None);
    assert_eq!(Rgba::from_hex("#ffffzz"), None);
    assert_eq!(Rgba::from_hex("#ffffffff0"), None);
}

#[test]
fn decode_gives_pixels_row_by_row() {
    let raw = vec![1u8, 2, 3, 4, 5, 6, 7, 8, 9, 10, 11, 12];
    let img = image::RgbaImage::from_raw(3, 1, raw).unwrap();
    let mut out = std::io::Cursor::new(Vec::new());
    image::DynamicImage::ImageRgba8(img).write_to(&mut out, image::ImageOutputFormat::Png).unwrap();
    let p = Picture::decode(&out.into_inner()).unwrap();
    assert_eq!((p.width, p.height), (3, 1));
    assert_eq!(p.get_pixel(2, 0), Rgba { r: 9, g: 10, b: 11, a: 12 });
    assert_eq!(p.get_pixel(0, 0), Rgba { r: 1, g: 2, b: 3, a: 4 });
    assert!(Picture::decode(&[0u8, 1, 2]).is_none());
}

#[test]
fn blank_is_transparent() {
    let p = Picture::blank(3, 2);
    assert_eq!(p.pixels.len(), 6);
    assert!(p.pixels.iter().all(|px| *px == Rgba { r: 0, g: 0, b: 0, a: 0 }));
}
