use vstd::prelude::*;
use vstd::arithmetic::div_mod::{
    lemma_fundamental_div_mod, lemma_fundamental_div_mod_converse_div,
    lemma_fundamental_div_mod_converse_mod,
};
use crate::colors::ColorRules;
use crate::connection::ConnectionFilter;
use crate::geom::{dir_x, dir_y, direction, UVec2, DIRECTION_COUNT};
use crate::picture::{decode_rgba, decoded_rgba, pixel, Picture, Rgba};
use crate::rules::Rule;

verus! {

/// Why a colour-coded rule image could not be turned into rules.
#[derive(Clone, Copy, Debug, PartialEq, Eq, Structural)]
pub enum LoadError {
    /// The bytes are not an image that can be decoded.
    Decode,
    /// The tile size is zero, or the image is not a whole number of tiles.
    ImageSize,
    /// A sampled, non-transparent pixel has a colour that the palette lacks.
    UnknownColor(Rgba),
}

/// A rule as plain values: its atlas cell and its constraint in each direction.
pub type RuleView = (UVec2, Seq<Option<ConnectionFilter>>);

pub open spec fn rule_view(r: Rule) -> RuleView {
    (r.tileset_pos, r.connections@)
}

/// The pixel sampled along one axis of a cell of `size` pixels for direction component
/// `delta`: the first pixel for -1, the middle one for 0, the last one for +1.
pub open spec fn sample_offset(delta: int, size: int) -> int {
    if delta < 0 {
        0
    } else if delta == 0 {
        size / 2
    } else {
        size - 1
    }
}

/// The tile size is positive and divides the image's size on both axes.
pub open spec fn sizes_fit(width: int, height: int, ts: UVec2) -> bool {
    &&& ts.x > 0
    &&& ts.y > 0
    &&& width % (ts.x as int) == 0
    &&& height % (ts.y as int) == 0
}

/// The pixel that encodes, in cell (`cx`, `cy`), the constraint for world direction `d`.
/// Image rows grow downwards and world offsets upwards, so the vertical component is
/// mirrored.
pub open spec fn sampled(pixels: Seq<Rgba>, width: int, ts: UVec2, cx: int, cy: int, d: int) -> Rgba {
    pixel(
        pixels,
        width,
        cx * ts.x + sample_offset(dir_x(d), ts.x as int),
        cy * ts.y + sample_offset(-dir_y(d), ts.y as int),
    )
}

/// The sampled pixel is opaque and its colour is not in the palette.
pub open spec fn unknown_at(
    pixels: Seq<Rgba>,
    width: int,
    ts: UVec2,
    colors: ColorRules,
    cx: int,
    cy: int,
    d: int,
) -> bool {
    let c = sampled(pixels, width, ts, cx, cy, d);
    c.a != 0 && colors.rule_for(c) is None
}

/// The constraint that cell (`cx`, `cy`) places on direction `d`: none for a
/// transparent pixel or a reserved colour, else the palette's filter.
pub open spec fn sampled_filter(
    pixels: Seq<Rgba>,
    width: int,
    ts: UVec2,
    colors: ColorRules,
    cx: int,
    cy: int,
    d: int,
) -> Option<ConnectionFilter> {
    let c = sampled(pixels, width, ts, cx, cy, d);
    if c.a == 0 {
        None
    } else {
        match colors.rule_for(c) {
            Some(f) => f,
            None => None,
        }
    }
}

/// Cell `k` of the grid, column by column: its position and its constraints.
pub open spec fn cell_view(
    pixels: Seq<Rgba>,
    width: int,
    height: int,
    ts: UVec2,
    colors: ColorRules,
    k: int,
) -> RuleView {
    let rows = height / (ts.y as int);
    (
        UVec2 { x: (k / rows) as usize, y: (k % rows) as usize },
        Seq::new(8, |d: int| sampled_filter(pixels, width, ts, colors, k / rows, k % rows, d)),
    )
}

/// A rule view constrains at least one direction.
pub open spec fn constrains(v: RuleView) -> bool {
    exists|d: int| 0 <= d < v.1.len() && (#[trigger] v.1[d]) is Some
}

/// The number of cells of the grid.
pub open spec fn cell_count(width: int, height: int, ts: UVec2) -> int {
    (width / (ts.x as int)) * (height / (ts.y as int))
}

/// The rules that the first `k` cells of an image decode to: one per cell that
/// constrains some direction, column by column.
pub open spec fn decoded_prefix(
    pixels: Seq<Rgba>,
    width: int,
    height: int,
    ts: UVec2,
    colors: ColorRules,
    k: int,
) -> Seq<RuleView> {
    Seq::new(k as nat, |j: int| cell_view(pixels, width, height, ts, colors, j)).filter(
        |v: RuleView| constrains(v),
    )
}

/// The rules that an image decodes to: one per cell that constrains some direction,
/// column by column.
pub open spec fn decoded_rules(
    pixels: Seq<Rgba>,
    width: int,
    height: int,
    ts: UVec2,
    colors: ColorRules,
) -> Seq<RuleView> {
    decoded_prefix(pixels, width, height, ts, colors, cell_count(width, height, ts))
}

/// Some sampled pixel of some cell has a colour that the palette lacks.
pub open spec fn has_unknown_color(
    pixels: Seq<Rgba>,
    width: int,
    height: int,
    ts: UVec2,
    colors: ColorRules,
) -> bool {
    exists|cx: int, cy: int, d: int|
        0 <= cx < width / (ts.x as int) && 0 <= cy < height / (ts.y as int) && 0 <= d < 8
            && #[trigger] unknown_at(pixels, width, ts, colors, cx, cy, d)
}

/// `r` is what loading rules from the given image gives.
pub open spec fn loaded(
    pixels: Seq<Rgba>,
    width: int,
    height: int,
    ts: UVec2,
    colors: ColorRules,
    r: Result<Vec<Rule>, LoadError>,
) -> bool {
    match r {
        Ok(rules) => {
            &&& sizes_fit(width, height, ts)
            &&& !has_unknown_color(pixels, width, height, ts, colors)
            &&& rules@.map_values(|x: Rule| rule_view(x)) == decoded_rules(
                pixels,
                width,
                height,
                ts,
                colors,
            )
        },
        Err(LoadError::ImageSize) => !sizes_fit(width, height, ts),
        Err(LoadError::UnknownColor(c)) => {
            &&& sizes_fit(width, height, ts)
            &&& exists|cx: int, cy: int, d: int|
                0 <= cx < width / (ts.x as int) && 0 <= cy < height / (ts.y as int) && 0 <= d < 8
                    && #[trigger] unknown_at(pixels, width, ts, colors, cx, cy, d) && sampled(
                    pixels,
                    width,
                    ts,
                    cx,
                    cy,
                    d,
                ) == c
        },
        Err(LoadError::Decode) => false,
    }
}

fn sample_offset_exec(delta: i32, size: usize) -> (r: usize)
    requires
        size > 0,
    ensures
        r == sample_offset(delta as int, size as int),
        r < size,
{
    if delta < 0 {
        0
    } else if delta == 0 {
        size / 2
    } else {
        size - 1
    }
}

proof fn lemma_in_cell(c: int, count: int, size: int, off: int)
    requires
        0 <= c < count,
        0 <= off < size,
    ensures
        0 <= c * size + off < count * size,
        count * size == size * count,
{
    assert(0 <= c * size + off < count * size) by (nonlinear_arith)
        requires
            0 <= c < count,
            0 <= off < size,
    ;
}

proof fn lemma_cell_of_index(k: int, cols: int, rows: int)
    requires
        0 <= k < cols * rows,
        rows > 0,
    ensures
        0 <= k / rows < cols,
        0 <= k % rows < rows,
{
    lemma_fundamental_div_mod(k, rows);
    assert(0 <= k % rows < rows);
    let q = k / rows;
    assert(0 <= q < cols) by (nonlinear_arith)
        requires
            k == rows * q + k % rows,
            0 <= k % rows < rows,
            0 <= k < cols * rows,
            rows > 0,
    ;
}

proof fn lemma_index_of_cell(cx: int, cy: int, cols: int, rows: int)
    requires
        0 <= cx < cols,
        0 <= cy < rows,
    ensures
        0 <= cx * rows + cy < cols * rows,
        (cx * rows + cy) / rows == cx,
        (cx * rows + cy) % rows == cy,
{
    lemma_in_cell(cx, cols, rows, cy);
    lemma_fundamental_div_mod_converse_div(cx * rows + cy, rows, cx, cy);
    lemma_fundamental_div_mod_converse_mod(cx * rows + cy, rows, cx, cy);
}

/// The constraints of cell (`cx`, `cy`), or an unknown colour sampled there.
fn cell_filters(pic: &Picture, ts: UVec2, colors: &ColorRules, cx: usize, cy: usize) -> (r: Result<
    [Option<ConnectionFilter>; 8],
    Rgba,
>)
    requires
        pic.wf(),
        sizes_fit(pic.width as int, pic.height as int, ts),
        cx < pic.width / ts.x,
        cy < pic.height / ts.y,
    ensures
        match r {
            Ok(a) => forall|d: int|
                0 <= d < 8 ==> #[trigger] a@[d] == sampled_filter(
                    pic.pixels@,
                    pic.width as int,
                    ts,
                    *colors,
                    cx as int,
                    cy as int,
                    d,
                ) && !unknown_at(pic.pixels@, pic.width as int, ts, *colors, cx as int, cy as int, d),
            Err(c) => exists|d: int|
                0 <= d < 8 && #[trigger] unknown_at(
                    pic.pixels@,
                    pic.width as int,
                    ts,
                    *colors,
                    cx as int,
                    cy as int,
                    d,
                ) && sampled(pic.pixels@, pic.width as int, ts, cx as int, cy as int, d) == c,
        },
{
    let mut out: [Option<ConnectionFilter>; 8] = [None, None, None, None, None, None, None, None];
    let mut d: usize = 0;
    proof {
        lemma_fundamental_div_mod(pic.width as int, ts.x as int);
        lemma_fundamental_div_mod(pic.height as int, ts.y as int);
    }
    while d < DIRECTION_COUNT
        invariant
            d <= DIRECTION_COUNT,
            out@.len() == 8,
            forall|e: int| d <= e < 8 ==> (#[trigger] out@[e]) is None,
            pic.wf(),
            sizes_fit(pic.width as int, pic.height as int, ts),
            cx < pic.width / ts.x,
            cy < pic.height / ts.y,
            pic.width == ts.x * (pic.width / ts.x),
            pic.height == ts.y * (pic.height / ts.y),
            forall|e: int|
                0 <= e < d ==> #[trigger] out@[e] == sampled_filter(
                    pic.pixels@,
                    pic.width as int,
                    ts,
                    *colors,
                    cx as int,
                    cy as int,
                    e,
                ) && !unknown_at(pic.pixels@, pic.width as int, ts, *colors, cx as int, cy as int, e),
        decreases DIRECTION_COUNT - d,
    {
        let v = direction(d);
        let ox = sample_offset_exec(v.x, ts.x);
        let oy = sample_offset_exec(-v.y, ts.y);
        proof {
            lemma_in_cell(cx as int, (pic.width / ts.x) as int, ts.x as int, ox as int);
            lemma_in_cell(cy as int, (pic.height / ts.y) as int, ts.y as int, oy as int);
        }
        let c = pic.get_pixel(cx * ts.x + ox, cy * ts.y + oy);
        assert(c == sampled(pic.pixels@, pic.width as int, ts, cx as int, cy as int, d as int));
        if c.a != 0 {
            match colors.get(c) {
                Some(f) => {
                    out[d] = f;
                },
                None => {
                    assert(unknown_at(pic.pixels@, pic.width as int, ts, *colors, cx as int, cy as int, d as int));
                    return Err(c);
                },
            }
        }
        assert(out@[d as int] == sampled_filter(pic.pixels@, pic.width as int, ts, *colors, cx as int, cy as int, d as int));
        assert(!unknown_at(pic.pixels@, pic.width as int, ts, *colors, cx as int, cy as int, d as int));
        d = d + 1;
    }
    Ok(out)
}

/// Whether some direction is constrained.
fn any_constraint(a: &[Option<ConnectionFilter>; 8]) -> (r: bool)
    ensures
        r == exists|d: int| 0 <= d < 8 && (#[trigger] a@[d]) is Some,
{
    let mut d: usize = 0;
    while d < DIRECTION_COUNT
        invariant
            d <= DIRECTION_COUNT,
            forall|e: int| 0 <= e < d ==> (#[trigger] a@[e]) is None,
        decreases DIRECTION_COUNT - d,
    {
        if a[d].is_some() {
            return true;
        }
        d = d + 1;
    }
    false
}

/// The rules encoded by a colour-coded picture: one per grid cell of `tile_size`
/// pixels whose sampled pixels constrain some direction, tagged with the cell's
/// column and row. Fails where the picture is not a whole number of tiles, or where a
/// sampled opaque pixel has a colour that `colors` lacks.
pub fn rules_from_picture(pic: &Picture, tile_size: UVec2, colors: &ColorRules) -> (r: Result<
    Vec<Rule>,
    LoadError,
>)
    requires
        pic.wf(),
    ensures
        loaded(pic.pixels@, pic.width as int, pic.height as int, tile_size, *colors, r),
        r is Ok <==> sizes_fit(pic.width as int, pic.height as int, tile_size) && !has_unknown_color(
            pic.pixels@,
            pic.width as int,
            pic.height as int,
            tile_size,
            *colors,
        ),
{
    let ts = tile_size;
    if ts.x == 0 || ts.y == 0 || pic.width % ts.x != 0 || pic.height % ts.y != 0 {
        return Err(LoadError::ImageSize);
    }
    let cols = pic.width / ts.x;
    let rows = pic.height / ts.y;
    let ghost w = pic.width as int;
    let ghost h = pic.height as int;
    let ghost px = pic.pixels@;
    proof {
        assert(pic.pixels@.len() == pic.pixels.len());
        assert(cols * rows <= pic.width * pic.height) by (nonlinear_arith)
            requires
                cols <= pic.width,
                rows <= pic.height,
        ;
        assert(cols <= pic.width) by {
            vstd::arithmetic::div_mod::lemma_div_is_ordered_by_denominator(w, 1, ts.x as int);
        }
        assert(rows <= pic.height) by {
            vstd::arithmetic::div_mod::lemma_div_is_ordered_by_denominator(h, 1, ts.y as int);
        }
    }
    proof {
        if rows == 0 {
            assert(cols * rows == 0) by (nonlinear_arith)
                requires
                    rows == 0,
            ;
        }
    }
    let n = cols * rows;
    let mut out: Vec<Rule> = Vec::new();
    let mut k: usize = 0;
    while k < n
        invariant
            pic.wf(),
            px == pic.pixels@,
            w == pic.width,
            h == pic.height,
            sizes_fit(w, h, ts),
            ts == tile_size,
            cols == w / (ts.x as int),
            rows == h / (ts.y as int),
            rows > 0 || n == 0,
            n == cols * rows,
            k <= n,
            out@.map_values(|x: Rule| rule_view(x)) == decoded_prefix(px, w, h, ts, *colors, k as int),
            forall|j: int, d: int|
                0 <= j < k && 0 <= d < 8 ==> !#[trigger] unknown_at(
                    px,
                    w,
                    ts,
                    *colors,
                    j / (rows as int),
                    j % (rows as int),
                    d,
                ),
        decreases n - k,
    {
        proof {
            lemma_cell_of_index(k as int, cols as int, rows as int);
        }
        let cx = k / rows;
        let cy = k % rows;
        let ghost f = |j: int| cell_view(px, w, h, ts, *colors, j);
        let ghost cells = Seq::new((k + 1) as nat, f);
        proof {
            reveal(Seq::filter);
            assert(cells.drop_last() =~= Seq::new(k as nat, f));
        }
        match cell_filters(pic, ts, colors, cx, cy) {
            Ok(a) => {
                let ghost v = cell_view(px, w, h, ts, *colors, k as int);
                assert(a@ =~= v.1);
                assert forall|d: int| 0 <= d < 8 implies !#[trigger] unknown_at(
                    px,
                    w,
                    ts,
                    *colors,
                    k as int / (rows as int),
                    k as int % (rows as int),
                    d,
                ) by {
                    assert(a@[d] == v.1[d]);
                }
                let ghost before = out@;
                if any_constraint(&a) {
                    assert(constrains(v));
                    out.push(Rule { connections: a, tileset_pos: UVec2 { x: cx, y: cy } });
                    assert(out@.map_values(|x: Rule| rule_view(x)) =~= before.map_values(
                        |x: Rule| rule_view(x),
                    ).push(v));
                } else {
                    assert(!constrains(v));
                }
                assert(cells.last() == v);
            },
            Err(c) => {
                proof {
                    let d = choose|d: int|
                        0 <= d < 8 && #[trigger] unknown_at(px, w, ts, *colors, cx as int, cy as int, d)
                            && sampled(px, w, ts, cx as int, cy as int, d) == c;
                    assert(0 <= cx < w / (ts.x as int) && 0 <= cy < h / (ts.y as int));
                    assert(unknown_at(px, w, ts, *colors, cx as int, cy as int, d));
                    assert(has_unknown_color(px, w, h, ts, *colors));
                }
                let r = Err(LoadError::UnknownColor(c));
                return r;
            },
        }
        k = k + 1;
    }
    proof {
        assert forall|cx: int, cy: int, d: int|
            0 <= cx < w / (ts.x as int) && 0 <= cy < h / (ts.y as int) && 0 <= d < 8 implies !#[trigger] unknown_at(
            px,
            w,
            ts,
            *colors,
            cx,
            cy,
            d,
        ) by {
            lemma_index_of_cell(cx, cy, cols as int, rows as int);
            let j = cx * rows + cy;
            assert(!unknown_at(px, w, ts, *colors, j / (rows as int), j % (rows as int), d));
        }
    }
    Ok(out)
}

/// The rules encoded by a colour-coded image file's bytes, as `rules_from_picture`
/// gives them for the decoded picture; `Decode` where the bytes cannot be decoded.
pub fn load_rules_from_image(bytes: &[u8], tile_size: UVec2, colors: &ColorRules) -> (r: Result<
    Vec<Rule>,
    LoadError,
>)
    ensures
        loaded_from_bytes(bytes@, tile_size, *colors, r),
{
    match decode_rgba(bytes) {
        Ok(pic) => rules_from_picture(&pic, tile_size, colors),
        Err(_) => Err(LoadError::Decode),
    }
}

/// `r` is what loading rules from the image file `bytes` gives.
pub open spec fn loaded_from_bytes(
    bytes: Seq<u8>,
    ts: UVec2,
    colors: ColorRules,
    r: Result<Vec<Rule>, LoadError>,
) -> bool {
    match decoded_rgba(bytes) {
        None => r == Err::<Vec<Rule>, LoadError>(LoadError::Decode),
        Some((w, h, px)) => loaded(px, w as int, h as int, ts, colors, r),
    }
}

/// Loading rules is deterministic: two outcomes of loading the same bytes with the
/// same palette and tile size agree on success, and where they succeed they hold the
/// same rules in the same order.
pub proof fn lemma_decoding_deterministic(
    bytes: Seq<u8>,
    ts: UVec2,
    colors: ColorRules,
    r1: Result<Vec<Rule>, LoadError>,
    r2: Result<Vec<Rule>, LoadError>,
)
    requires
        loaded_from_bytes(bytes, ts, colors, r1),
        loaded_from_bytes(bytes, ts, colors, r2),
    ensures
        r1 is Ok <==> r2 is Ok,
        r1 is Ok ==> r1.unwrap()@.map_values(|x: Rule| rule_view(x)) == r2.unwrap()@.map_values(
            |x: Rule| rule_view(x),
        ),
{
}

/// A cell whose sampled pixels are all fully transparent yields no rule, whatever
/// the palette.
pub proof fn lemma_transparent_cell_dropped(
    pixels: Seq<Rgba>,
    width: int,
    height: int,
    ts: UVec2,
    colors: ColorRules,
    cx: int,
    cy: int,
)
    requires
        sizes_fit(width, height, ts),
        0 <= width <= usize::MAX,
        0 <= height <= usize::MAX,
        0 <= cx < width / (ts.x as int),
        0 <= cy < height / (ts.y as int),
        forall|d: int| 0 <= d < 8 ==> (#[trigger] sampled(pixels, width, ts, cx, cy, d)).a == 0,
    ensures
        forall|i: int|
            0 <= i < decoded_rules(pixels, width, height, ts, colors).len() ==> (
            #[trigger] decoded_rules(pixels, width, height, ts, colors)[i]).0 != (UVec2 {
                x: cx as usize,
                y: cy as usize,
            }),
{
    broadcast use vstd::seq_lib::group_filter_ensures;

    let rows = height / (ts.y as int);
    let cols = width / (ts.x as int);
    let f = |j: int| cell_view(pixels, width, height, ts, colors, j);
    let cells = Seq::new(cell_count(width, height, ts) as nat, f);
    let out = decoded_rules(pixels, width, height, ts, colors);
    assert forall|i: int| 0 <= i < out.len() implies (#[trigger] out[i]).0 != (UVec2 {
        x: cx as usize,
        y: cy as usize,
    }) by {
        let e = out[i];
        assert(constrains(e));
        assert(out.contains(e));
        cells.lemma_filter_contains_rev(|v: RuleView| constrains(v), e);
        let j = choose|j: int| 0 <= j < cells.len() && cells[j] == e;
        if e.0 == (UVec2 { x: cx as usize, y: cy as usize }) {
            lemma_cell_of_index(j, cols, rows);
            vstd::arithmetic::div_mod::lemma_div_is_ordered_by_denominator(width, 1, ts.x as int);
            vstd::arithmetic::div_mod::lemma_div_is_ordered_by_denominator(height, 1, ts.y as int);
            assert(j / rows == cx && j % rows == cy);
            let dd = choose|dd: int| 0 <= dd < e.1.len() && (#[trigger] e.1[dd]) is Some;
            assert(sampled(pixels, width, ts, cx, cy, dd).a == 0);
        }
    }
}

} // verus!
