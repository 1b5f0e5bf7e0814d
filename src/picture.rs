use vstd::prelude::*;
use vstd::string::StrSliceExecFns;

verus! {

/// One pixel: red, green, blue and alpha channels.
#[derive(Clone, Copy, Debug, PartialEq, Eq, Structural, Hash)]
pub struct Rgba {
    pub r: u8,
    pub g: u8,
    pub b: u8,
    pub a: u8,
}

/// An RGBA image, row by row from the top-left pixel.
#[derive(Clone, Debug)]
pub struct Picture {
    pub width: usize,
    pub height: usize,
    pub pixels: Vec<Rgba>,
}

#[verifier::external_type_specification]
#[verifier::external_body]
pub struct ExImageError(image::ImageError);

/// The size and pixels that the image crate decodes from `bytes`, `None` where it
/// cannot decode them.
pub uninterp spec fn decoded_rgba(bytes: Seq<u8>) -> Option<(nat, nat, Seq<Rgba>)>;

/// Relies on `image::load_from_memory` and `DynamicImage::to_rgba8`: the format is
/// guessed from the bytes, and the decoded image is converted to 8-bit RGBA, one
/// pixel for each column and row, row by row.
#[verifier::external_body]
pub(crate) fn decode_rgba(bytes: &[u8]) -> (r: Result<Picture, image::ImageError>)
    ensures
        match r {
            Ok(p) => p.wf() && decoded_rgba(bytes@) == Some(
                (p.width as nat, p.height as nat, p.pixels@),
            ),
            Err(_) => decoded_rgba(bytes@) is None,
        },
{
    let img = image::load_from_memory(bytes)?.to_rgba8();
    let (w, h) = img.dimensions();
    let pixels = img.pixels().map(|p| Rgba { r: p.0[0], g: p.0[1], b: p.0[2], a: p.0[3] });
    Ok(Picture { width: w as usize, height: h as usize, pixels: pixels.collect() })
}

/// The pixel at column `x` and row `y` of a row-major pixel sequence of width `width`.
pub open spec fn pixel(pixels: Seq<Rgba>, width: int, x: int, y: int) -> Rgba {
    pixels[y * width + x]
}

/// The value of a hexadecimal digit, either case.
pub open spec fn hex_value(c: char) -> Option<u8> {
    if '0' <= c && c <= '9' {
        Some((c as u32 - '0' as u32) as u8)
    } else if 'a' <= c && c <= 'f' {
        Some((c as u32 - 'a' as u32 + 10) as u8)
    } else if 'A' <= c && c <= 'F' {
        Some((c as u32 - 'A' as u32 + 10) as u8)
    } else {
        None
    }
}

/// The byte written by the two hexadecimal digits at `i` and `i + 1`.
pub open spec fn hex_byte(s: Seq<char>, i: int) -> u8 {
    (hex_value(s[i]).unwrap() * 16 + hex_value(s[i + 1]).unwrap()) as u8
}

/// The colour written as `#rrggbb` (opaque) or `#rrggbbaa`, in hexadecimal digits of
/// either case.
pub open spec fn hex_color(s: Seq<char>) -> Option<Rgba> {
    if (s.len() == 7 || s.len() == 9) && s[0] == '#' && (forall|i: int|
        1 <= i < s.len() ==> (#[trigger] hex_value(s[i])) is Some) {
        Some(
            Rgba {
                r: hex_byte(s, 1),
                g: hex_byte(s, 3),
                b: hex_byte(s, 5),
                a: if s.len() == 9 {
                    hex_byte(s, 7)
                } else {
                    255
                },
            },
        )
    } else {
        None
    }
}

fn hex_value_exec(c: char) -> (r: Option<u8>)
    ensures
        r == hex_value(c),
{
    if '0' <= c && c <= '9' {
        Some((c as u32 - '0' as u32) as u8)
    } else if 'a' <= c && c <= 'f' {
        Some((c as u32 - 'a' as u32 + 10) as u8)
    } else if 'A' <= c && c <= 'F' {
        Some((c as u32 - 'A' as u32 + 10) as u8)
    } else {
        None
    }
}

impl Rgba {
    /// Parses a colour written as `#rrggbb` (opaque) or `#rrggbbaa`.
    pub fn from_hex(s: &str) -> (r: Option<Rgba>)
        ensures
            r == hex_color(s@),
    {
        let n = s.unicode_len();
        if !(n == 7 || n == 9) || s.get_char(0) != '#' {
            return None;
        }
        let mut digits: Vec<u8> = Vec::new();
        let mut i: usize = 1;
        while i < n
            invariant
                n == s@.len(),
                1 <= i <= n,
                digits@.len() == i - 1,
                forall|k: int| 1 <= k < i ==> (#[trigger] hex_value(s@[k])) == Some(digits@[k - 1]),
            decreases n - i,
        {
            match hex_value_exec(s.get_char(i)) {
                Some(v) => digits.push(v),
                None => {
                    return None;
                },
            }
            i = i + 1;
        }
        let a = if n == 9 {
            digits[6] * 16 + digits[7]
        } else {
            255
        };
        proof {
            assert(hex_value(s@[1]) == Some(digits@[0]));
            assert(hex_value(s@[2]) == Some(digits@[1]));
            assert(hex_value(s@[3]) == Some(digits@[2]));
            assert(hex_value(s@[4]) == Some(digits@[3]));
            assert(hex_value(s@[5]) == Some(digits@[4]));
            assert(hex_value(s@[6]) == Some(digits@[5]));
            if n == 9 {
                assert(hex_value(s@[7]) == Some(digits@[6]));
                assert(hex_value(s@[8]) == Some(digits@[7]));
            }
        }
        Some(
            Rgba {
                r: digits[0] * 16 + digits[1],
                g: digits[2] * 16 + digits[3],
                b: digits[4] * 16 + digits[5],
                a,
            },
        )
    }
}

impl Picture {
    /// Decodes an image file's bytes into RGBA pixels; `None` where they cannot be
    /// decoded.
    pub fn decode(bytes: &[u8]) -> (r: Option<Picture>)
        ensures
            match r {
                Some(p) => p.wf() && decoded_rgba(bytes@) == Some(
                    (p.width as nat, p.height as nat, p.pixels@),
                ),
                None => decoded_rgba(bytes@) is None,
            },
    {
        match decode_rgba(bytes) {
            Ok(p) => Some(p),
            Err(_) => None,
        }
    }

    /// The pixel buffer holds exactly one pixel per column and row.
    pub open spec fn wf(&self) -> bool {
        self.pixels@.len() == self.width * self.height
    }

    /// A fully transparent picture of the given size.
    pub fn blank(width: usize, height: usize) -> (r: Picture)
        requires
            width * height <= usize::MAX,
        ensures
            r.wf(),
            r.width == width,
            r.height == height,
            forall|i: int| 0 <= i < r.pixels@.len() ==> #[trigger] r.pixels@[i] == (Rgba { r: 0, g: 0, b: 0, a: 0 }),
    {
        let n = width * height;
        let mut pixels: Vec<Rgba> = Vec::with_capacity(n);
        let mut i: usize = 0;
        while i < n
            invariant
                i <= n,
                pixels@.len() == i,
                forall|k: int| 0 <= k < i ==> #[trigger] pixels@[k] == (Rgba { r: 0, g: 0, b: 0, a: 0 }),
            decreases n - i,
        {
            pixels.push(Rgba { r: 0, g: 0, b: 0, a: 0 });
            i = i + 1;
        }
        Picture { width, height, pixels }
    }

    /// The pixel at column `x` and row `y`.
    pub fn get_pixel(&self, x: usize, y: usize) -> (r: Rgba)
        requires
            self.wf(),
            x < self.width,
            y < self.height,
        ensures
            r == pixel(self.pixels@, self.width as int, x as int, y as int),
    {
        proof {
            assert(self.pixels@.len() == self.pixels.len());
            assert(y * self.width + x < self.width * self.height) by (nonlinear_arith)
                requires
                    x < self.width,
                    y < self.height,
            ;
        }
        self.pixels[y * self.width + x]
    }
}

} // verus!
