use vstd::prelude::*;
use vstd::arithmetic::div_mod::{
    lemma_fundamental_div_mod, lemma_fundamental_div_mod_converse_div,
    lemma_fundamental_div_mod_converse_mod,
};
use crate::connection::ConnectionFilter;
use crate::geom::{dir_x, dir_y, direction, UVec2, DIRECTION_COUNT};
use crate::loader::sizes_fit;
use crate::picture::{pixel, Picture, Rgba};
use crate::rules::{Rule, Tile};
use crate::tileset::TilesetDef;

verus! {

/// A copy of a rectangle of `width` by `height` pixels from (`from_x`, `from_y`) of the
/// source image to (`to_x`, `to_y`) of the atlas.
#[derive(Clone, Copy, Debug, PartialEq, Eq, Structural)]
pub struct CopyOp {
    pub from_x: usize,
    pub from_y: usize,
    pub width: usize,
    pub height: usize,
    pub to_x: usize,
    pub to_y: usize,
}

/// Pixel (`x`, `y`) of the atlas lies in the rectangle that `op` writes.
pub open spec fn in_target(op: CopyOp, x: int, y: int) -> bool {
    op.to_x <= x < op.to_x + op.width && op.to_y <= y < op.to_y + op.height
}

/// The position of pixel (`x`, `y`) of the target rectangle in its row-by-row order.
pub open spec fn local_index(op: CopyOp, x: int, y: int) -> int {
    (y - op.to_y) * op.width + (x - op.to_x)
}

/// The atlas pixels `dst` (of width `dw`) after the first `t` pixels of `op`'s
/// rectangle, row by row, have been copied from `src` (of width `sw`).
pub open spec fn apply_op_upto(
    dst: Seq<Rgba>,
    dw: int,
    src: Seq<Rgba>,
    sw: int,
    op: CopyOp,
    t: int,
) -> Seq<Rgba> {
    Seq::new(
        dst.len(),
        |i: int|
            {
                let x = i % dw;
                let y = i / dw;
                if in_target(op, x, y) && local_index(op, x, y) < t {
                    pixel(src, sw, op.from_x + (x - op.to_x), op.from_y + (y - op.to_y))
                } else {
                    dst[i]
                }
            },
    )
}

/// The atlas pixels `dst` (of width `dw`) after `op` has copied its whole rectangle
/// from `src` (of width `sw`).
pub open spec fn apply_op(dst: Seq<Rgba>, dw: int, src: Seq<Rgba>, sw: int, op: CopyOp) -> Seq<
    Rgba,
> {
    apply_op_upto(dst, dw, src, sw, op, op.width * op.height)
}

/// `op` reads inside the source and writes inside the atlas.
pub open spec fn op_fits(op: CopyOp, sw: int, sh: int, dw: int, dh: int) -> bool {
    &&& op.from_x + op.width <= sw
    &&& op.from_y + op.height <= sh
    &&& op.to_x + op.width <= dw
    &&& op.to_y + op.height <= dh
}

proof fn lemma_coords(i: int, w: int, x: int, y: int)
    requires
        0 <= x < w,
        i == y * w + x,
    ensures
        i % w == x,
        i / w == y,
{
    lemma_fundamental_div_mod_converse_div(i, w, y, x);
    lemma_fundamental_div_mod_converse_mod(i, w, y, x);
}

/// Copies the rectangle of `op` from `src` into `dst`.
pub fn copy_rect(dst: &mut Picture, src: &Picture, op: CopyOp)
    requires
        old(dst).wf(),
        src.wf(),
        op_fits(op, src.width as int, src.height as int, old(dst).width as int, old(dst).height as int),
    ensures
        final(dst).wf(),
        final(dst).width == old(dst).width,
        final(dst).height == old(dst).height,
        final(dst).pixels@ == apply_op(
            old(dst).pixels@,
            old(dst).width as int,
            src.pixels@,
            src.width as int,
            op,
        ),
{
    let ghost before = dst.pixels@;
    let dw = dst.width;
    let sw = src.width;
    proof {
        assert(op.width * op.height <= dst.width * dst.height) by (nonlinear_arith)
            requires
                op.width <= dst.width,
                op.height <= dst.height,
        ;
        assert(dst.pixels@.len() == dst.pixels.len());
    }
    let n = op.width * op.height;
    let mut t: usize = 0;
    while t < n
        invariant
            t <= n,
            n == op.width * op.height,
            dst.wf(),
            src.wf(),
            dw == dst.width,
            sw == src.width,
            dst.width == old(dst).width,
            dst.height == old(dst).height,
            before == old(dst).pixels@,
            op_fits(op, src.width as int, src.height as int, dw as int, dst.height as int),
            dst.pixels@ == apply_op_upto(before, dw as int, src.pixels@, sw as int, op, t as int),
        decreases n - t,
    {
        proof {
            assert(op.width > 0) by (nonlinear_arith)
                requires
                    t < op.width * op.height,
                    t >= 0,
            ;
            lemma_fundamental_div_mod(t as int, op.width as int);
        }
        let xx = t % op.width;
        let yy = t / op.width;
        proof {
            assert(yy < op.height) by (nonlinear_arith)
                requires
                    t == op.width * yy + xx,
                    t < op.width * op.height,
                    0 <= xx,
                    op.width > 0,
            ;
        }
        let x = op.to_x + xx;
        let y = op.to_y + yy;
        proof {
            assert(dst.pixels@.len() == dst.pixels.len());
            assert(y * dw + x < dst.width * dst.height) by (nonlinear_arith)
                requires
                    x < dst.width,
                    y < dst.height,
                    dw == dst.width,
            ;
        }
        let i0 = y * dw + x;
        let p = src.get_pixel(op.from_x + xx, op.from_y + yy);
        let ghost cur = dst.pixels@;
        dst.pixels.set(i0, p);
        proof {
            lemma_coords(i0 as int, dw as int, x as int, y as int);
            assert(yy * op.width == op.width * yy) by (nonlinear_arith);
            assert(local_index(op, x as int, y as int) == t);
            assert forall|i: int| 0 <= i < before.len() implies #[trigger] dst.pixels@[i]
                == apply_op_upto(before, dw as int, src.pixels@, sw as int, op, t + 1)[i] by {
                let ix = i % (dw as int);
                let iy = i / (dw as int);
                lemma_fundamental_div_mod(i, dw as int);
                if i != i0 && in_target(op, ix, iy) && local_index(op, ix, iy) == t {
                    lemma_coords(t as int, op.width as int, ix - op.to_x, iy - op.to_y);
                    assert(ix == x && iy == y);
                    assert(iy * dw == dw * iy) by (nonlinear_arith);
                    assert(false);
                }
            }
            assert(dst.pixels@ =~= apply_op_upto(before, dw as int, src.pixels@, sw as int, op, t + 1));
        }
        t = t + 1;
    }
    proof {
        assert forall|i: int| 0 <= i < before.len() implies #[trigger] apply_op_upto(before, dw as int, src.pixels@, sw as int, op, n as int)[i]
            == apply_op(before, dw as int, src.pixels@, sw as int, op)[i] by {
            let ix = i % (dw as int);
            let iy = i / (dw as int);
            if in_target(op, ix, iy) {
                assert(local_index(op, ix, iy) < op.width * op.height) by (nonlinear_arith)
                    requires
                        0 <= ix - op.to_x < op.width,
                        0 <= iy - op.to_y < op.height,
                        local_index(op, ix, iy) == (iy - op.to_y) * op.width + (ix - op.to_x),
                ;
            }
        }
        assert(dst.pixels@ =~= apply_op(before, dw as int, src.pixels@, sw as int, op));
    }
}

/// The pixels `dst` after the copies `ops`, in order.
pub open spec fn apply_all(dst: Seq<Rgba>, dw: int, src: Seq<Rgba>, sw: int, ops: Seq<CopyOp>) -> Seq<
    Rgba,
>
    decreases ops.len(),
{
    if ops.len() == 0 {
        dst
    } else {
        apply_op(apply_all(dst, dw, src, sw, ops.drop_last()), dw, src, sw, ops.last())
    }
}

proof fn lemma_apply_all_concat(
    dst: Seq<Rgba>,
    dw: int,
    src: Seq<Rgba>,
    sw: int,
    a: Seq<CopyOp>,
    b: Seq<CopyOp>,
)
    ensures
        apply_all(dst, dw, src, sw, a + b) == apply_all(apply_all(dst, dw, src, sw, a), dw, src, sw, b),
    decreases b.len(),
{
    if b.len() == 0 {
        assert(a + b =~= a);
    } else {
        lemma_apply_all_concat(dst, dw, src, sw, a, b.drop_last());
        assert((a + b).drop_last() =~= a + b.drop_last());
        assert((a + b).last() == b.last());
    }
}

/// Offset, within a tile of `size` pixels, of the first pixel read for part `a` of
/// an axis: the last pixel for the border after the tile, else the first.
pub open spec fn part_from(a: int, size: int) -> int {
    if a == 1 {
        size - 1
    } else {
        0
    }
}

/// Length along an axis of part `a`: the whole tile for 0, one pixel for a border.
pub open spec fn part_len(a: int, size: int) -> int {
    if a == 0 {
        size
    } else {
        1
    }
}

/// Offset, within a padded cell of `size + 2` pixels, of part `a` of an axis: the
/// border before the tile for -1, the tile for 0, the border after it for +1.
pub open spec fn part_to(a: int, size: int) -> int {
    if a == -1 {
        0
    } else if a == 0 {
        1
    } else {
        size + 1
    }
}

/// The copy that fills part (`ax`, `ay`) of the padded cell of atlas cell `p`, in
/// image axes (rows grow downwards). Part (0, 0) is the tile itself; a border part
/// repeats the tile's outermost pixel column, row or corner on that side.
pub open spec fn part_copy(ts: UVec2, p: UVec2, ax: int, ay: int) -> CopyOp {
    CopyOp {
        from_x: (p.x * ts.x + part_from(ax, ts.x as int)) as usize,
        from_y: (p.y * ts.y + part_from(ay, ts.y as int)) as usize,
        width: part_len(ax, ts.x as int) as usize,
        height: part_len(ay, ts.y as int) as usize,
        to_x: (p.x * (ts.x + 2) + part_to(ax, ts.x as int)) as usize,
        to_y: (p.y * (ts.y + 2) + part_to(ay, ts.y as int)) as usize,
    }
}

/// The border copy of cell `p` on the side of world direction `d`.
pub open spec fn side_copy(ts: UVec2, p: UVec2, d: int) -> CopyOp {
    part_copy(ts, p, dir_x(d), -dir_y(d))
}

/// The tile of cell `p` with its border clamped on all eight sides.
pub open spec fn clamped_ops(ts: UVec2, p: UVec2) -> Seq<CopyOp> {
    seq![part_copy(ts, p, 0, 0)] + Seq::new(8, |d: int| side_copy(ts, p, d))
}

/// The copies for an optional default cell.
pub open spec fn default_ops(ts: UVec2, default: Option<UVec2>) -> Seq<CopyOp> {
    match default {
        Some(p) => clamped_ops(ts, p),
        None => Seq::empty(),
    }
}

/// The border copies of a rule's cell on each of its first `n` directions whose
/// constraint is `Same`.
pub open spec fn same_sides(ts: UVec2, rule: Rule, n: int) -> Seq<CopyOp>
    decreases n,
{
    if n <= 0 {
        Seq::empty()
    } else {
        let head = same_sides(ts, rule, n - 1);
        if rule.connections@[n - 1] == Some(ConnectionFilter::Same) {
            head.push(side_copy(ts, rule.tileset_pos, n - 1))
        } else {
            head
        }
    }
}

/// The copies for one rule: its tile, then its border on each side constrained to
/// `Same`, so that it joins a neighbour of the same kind without a seam.
pub open spec fn rule_ops(ts: UVec2, rule: Rule) -> Seq<CopyOp> {
    seq![part_copy(ts, rule.tileset_pos, 0, 0)] + same_sides(ts, rule, 8)
}

/// The copies for a sequence of rules, in order.
pub open spec fn rules_ops(ts: UVec2, rules: Seq<Rule>) -> Seq<CopyOp>
    decreases rules.len(),
{
    if rules.len() == 0 {
        Seq::empty()
    } else {
        rules_ops(ts, rules.drop_last()) + rule_ops(ts, rules.last())
    }
}

/// The copies for one tile type: its default, clamped, then its rules.
pub open spec fn tile_ops(ts: UVec2, tile: Tile) -> Seq<CopyOp> {
    default_ops(ts, tile.default) + rules_ops(ts, tile.rules@)
}

/// The copies that build the atlas of a tileset, tile type by tile type.
pub open spec fn atlas_plan(ts: UVec2, tiles: Seq<(String, Tile)>) -> Seq<CopyOp>
    decreases tiles.len(),
{
    if tiles.len() == 0 {
        Seq::empty()
    } else {
        atlas_plan(ts, tiles.drop_last()) + tile_ops(ts, tiles.last().1)
    }
}

/// Cell `p` lies within a source grid of `cols` by `rows` tiles.
pub open spec fn in_grid(p: UVec2, cols: int, rows: int) -> bool {
    p.x < cols && p.y < rows
}

/// Every default and every rule of the tileset names a cell of the source grid.
pub open spec fn all_in_grid(tiles: Seq<(String, Tile)>, cols: int, rows: int) -> bool {
    &&& forall|i: int|
        0 <= i < tiles.len() ==> match (#[trigger] tiles[i]).1.default {
            Some(p) => in_grid(p, cols, rows),
            None => true,
        }
    &&& forall|i: int, j: int|
        0 <= i < tiles.len() && 0 <= j < tiles[i].1.rules@.len() ==> in_grid(
            (#[trigger] tiles[i].1.rules@[j]).tileset_pos,
            cols,
            rows,
        )
}

/// The padded atlas of `src` is `dst`: source and atlas fit the tile size, and the
/// atlas has a one-pixel border around each tile.
pub open spec fn padded_layout(ts: UVec2, sw: int, sh: int, dw: int, dh: int) -> bool {
    &&& sizes_fit(sw, sh, ts)
    &&& dw == (sw / (ts.x as int)) * (ts.x + 2)
    &&& dh == (sh / (ts.y as int)) * (ts.y + 2)
}

proof fn lemma_part_fits(ts: UVec2, p: UVec2, ax: int, ay: int, sw: int, sh: int, dw: int, dh: int)
    requires
        padded_layout(ts, sw, sh, dw, dh),
        in_grid(p, sw / (ts.x as int), sh / (ts.y as int)),
        -1 <= ax <= 1,
        -1 <= ay <= 1,
    ensures
        op_fits(part_copy(ts, p, ax, ay), sw, sh, dw, dh),
{
    let cols = sw / (ts.x as int);
    let rows = sh / (ts.y as int);
    lemma_fundamental_div_mod(sw, ts.x as int);
    lemma_fundamental_div_mod(sh, ts.y as int);
    assert(p.x * ts.x + ts.x <= cols * ts.x) by (nonlinear_arith)
        requires
            p.x < cols,
    ;
    assert(p.y * ts.y + ts.y <= rows * ts.y) by (nonlinear_arith)
        requires
            p.y < rows,
    ;
    assert(p.x * (ts.x + 2) + ts.x + 2 <= cols * (ts.x + 2)) by (nonlinear_arith)
        requires
            p.x < cols,
    ;
    assert(p.y * (ts.y + 2) + ts.y + 2 <= rows * (ts.y + 2)) by (nonlinear_arith)
        requires
            p.y < rows,
    ;
    assert(cols * ts.x == ts.x * cols) by (nonlinear_arith);
    assert(rows * ts.y == ts.y * rows) by (nonlinear_arith);
    assert(0 <= p.x * ts.x && 0 <= p.y * ts.y) by (nonlinear_arith);
}

fn part_from_exec(a: i32, size: usize) -> (r: usize)
    requires
        size > 0,
    ensures
        r == part_from(a as int, size as int),
{
    if a == 1 {
        size - 1
    } else {
        0
    }
}

fn part_len_exec(a: i32, size: usize) -> (r: usize)
    ensures
        r == part_len(a as int, size as int),
{
    if a == 0 {
        size
    } else {
        1
    }
}

fn part_to_exec(a: i32, size: usize) -> (r: usize)
    requires
        size < usize::MAX,
    ensures
        r == part_to(a as int, size as int),
{
    if a == -1 {
        0
    } else if a == 0 {
        1
    } else {
        size + 1
    }
}

/// Performs the copy for part (`ax`, `ay`) of the padded cell of `p`.
fn apply_part(atlas: &mut Picture, src: &Picture, ts: UVec2, p: UVec2, ax: i32, ay: i32)
    requires
        old(atlas).wf(),
        src.wf(),
        padded_layout(
            ts,
            src.width as int,
            src.height as int,
            old(atlas).width as int,
            old(atlas).height as int,
        ),
        in_grid(p, (src.width / ts.x) as int, (src.height / ts.y) as int),
        -1 <= ax <= 1,
        -1 <= ay <= 1,
    ensures
        final(atlas).wf(),
        final(atlas).width == old(atlas).width,
        final(atlas).height == old(atlas).height,
        final(atlas).pixels@ == apply_op(
            old(atlas).pixels@,
            old(atlas).width as int,
            src.pixels@,
            src.width as int,
            part_copy(ts, p, ax as int, ay as int),
        ),
{
    proof {
        lemma_part_fits(
            ts,
            p,
            ax as int,
            ay as int,
            src.width as int,
            src.height as int,
            atlas.width as int,
            atlas.height as int,
        );
        lemma_fundamental_div_mod(src.width as int, ts.x as int);
        lemma_fundamental_div_mod(src.height as int, ts.y as int);
        assert(p.x * (ts.x + 2) + ts.x + 2 <= atlas.width) by (nonlinear_arith)
            requires
                p.x < src.width / ts.x,
                atlas.width == (src.width / ts.x) * (ts.x + 2),
        ;
        assert(p.y * (ts.y + 2) + ts.y + 2 <= atlas.height) by (nonlinear_arith)
            requires
                p.y < src.height / ts.y,
                atlas.height == (src.height / ts.y) * (ts.y + 2),
        ;
        assert(p.x * ts.x + ts.x <= src.width) by (nonlinear_arith)
            requires
                p.x < src.width / ts.x,
                src.width == ts.x * (src.width / ts.x),
        ;
        assert(p.y * ts.y + ts.y <= src.height) by (nonlinear_arith)
            requires
                p.y < src.height / ts.y,
                src.height == ts.y * (src.height / ts.y),
        ;
    }
    let op = CopyOp {
        from_x: p.x * ts.x + part_from_exec(ax, ts.x),
        from_y: p.y * ts.y + part_from_exec(ay, ts.y),
        width: part_len_exec(ax, ts.x),
        height: part_len_exec(ay, ts.y),
        to_x: p.x * (ts.x + 2) + part_to_exec(ax, ts.x),
        to_y: p.y * (ts.y + 2) + part_to_exec(ay, ts.y),
    };
    assert(op == part_copy(ts, p, ax as int, ay as int));
    copy_rect(atlas, src, op);
}

/// The atlas and source agree with the tile size, and cell `p` lies in the grid.
pub open spec fn frame(atlas: Picture, src: Picture, ts: UVec2) -> bool {
    &&& atlas.wf()
    &&& src.wf()
    &&& padded_layout(ts, src.width as int, src.height as int, atlas.width as int, atlas.height as int)
}

/// Copies the tile of cell `p` and clamps its border on all sides.
fn pad_clamped(atlas: &mut Picture, src: &Picture, ts: UVec2, p: UVec2)
    requires
        frame(*old(atlas), *src, ts),
        in_grid(p, (src.width / ts.x) as int, (src.height / ts.y) as int),
    ensures
        frame(*final(atlas), *src, ts),
        final(atlas).width == old(atlas).width,
        final(atlas).height == old(atlas).height,
        final(atlas).pixels@ == apply_all(
            old(atlas).pixels@,
            old(atlas).width as int,
            src.pixels@,
            src.width as int,
            clamped_ops(ts, p),
        ),
{
    let ghost a0 = atlas.pixels@;
    let ghost dw = atlas.width as int;
    let ghost sw = src.width as int;
    let ghost first = seq![part_copy(ts, p, 0, 0)];
    let ghost f = |e: int| side_copy(ts, p, e);
    apply_part(atlas, src, ts, p, 0, 0);
    proof {
        assert(first.drop_last() =~= Seq::<CopyOp>::empty());
        assert(apply_all(a0, dw, src.pixels@, sw, Seq::<CopyOp>::empty()) == a0);
        assert(apply_all(a0, dw, src.pixels@, sw, first) == apply_op(a0, dw, src.pixels@, sw, part_copy(ts, p, 0, 0)));
        assert(first + Seq::new(0, f) =~= first);
    }
    let mut d: usize = 0;
    while d < DIRECTION_COUNT
        invariant
            d <= DIRECTION_COUNT,
            frame(*atlas, *src, ts),
            atlas.width == dw,
            atlas.height == old(atlas).height,
            in_grid(p, (src.width / ts.x) as int, (src.height / ts.y) as int),
            sw == src.width,
            dw == old(atlas).width,
            a0 == old(atlas).pixels@,
            first == seq![part_copy(ts, p, 0, 0)],
            f == (|e: int| side_copy(ts, p, e)),
            atlas.pixels@ == apply_all(a0, dw, src.pixels@, sw, first + Seq::new(d as nat, f)),
        decreases DIRECTION_COUNT - d,
    {
        let v = direction(d);
        apply_part(atlas, src, ts, p, v.x, -v.y);
        proof {
            let ops = first + Seq::new((d + 1) as nat, f);
            assert(ops.drop_last() =~= first + Seq::new(d as nat, f));
            assert(ops.last() == side_copy(ts, p, d as int));
        }
        d = d + 1;
    }
    assert(first + Seq::new(8, f) =~= clamped_ops(ts, p));
}

/// Copies the tile of a rule's cell, and its border on each side constrained to `Same`.
fn pad_rule(atlas: &mut Picture, src: &Picture, ts: UVec2, rule: &Rule)
    requires
        frame(*old(atlas), *src, ts),
        in_grid(rule.tileset_pos, (src.width / ts.x) as int, (src.height / ts.y) as int),
    ensures
        frame(*final(atlas), *src, ts),
        final(atlas).width == old(atlas).width,
        final(atlas).height == old(atlas).height,
        final(atlas).pixels@ == apply_all(
            old(atlas).pixels@,
            old(atlas).width as int,
            src.pixels@,
            src.width as int,
            rule_ops(ts, *rule),
        ),
{
    let ghost a0 = atlas.pixels@;
    let ghost dw = atlas.width as int;
    let ghost sw = src.width as int;
    let p = rule.tileset_pos;
    let ghost first = seq![part_copy(ts, p, 0, 0)];
    apply_part(atlas, src, ts, p, 0, 0);
    proof {
        assert(first.drop_last() =~= Seq::<CopyOp>::empty());
        assert(apply_all(a0, dw, src.pixels@, sw, Seq::<CopyOp>::empty()) == a0);
        assert(apply_all(a0, dw, src.pixels@, sw, first) == apply_op(a0, dw, src.pixels@, sw, part_copy(ts, p, 0, 0)));
        assert(first + same_sides(ts, *rule, 0) =~= first);
    }
    let mut d: usize = 0;
    while d < DIRECTION_COUNT
        invariant
            d <= DIRECTION_COUNT,
            frame(*atlas, *src, ts),
            atlas.width == dw,
            atlas.height == old(atlas).height,
            p == rule.tileset_pos,
            in_grid(p, (src.width / ts.x) as int, (src.height / ts.y) as int),
            sw == src.width,
            dw == old(atlas).width,
            a0 == old(atlas).pixels@,
            first == seq![part_copy(ts, p, 0, 0)],
            atlas.pixels@ == apply_all(a0, dw, src.pixels@, sw, first + same_sides(ts, *rule, d as int)),
        decreases DIRECTION_COUNT - d,
    {
        match rule.connections[d] {
            Some(ConnectionFilter::Same) => {
                let v = direction(d);
                apply_part(atlas, src, ts, p, v.x, -v.y);
                proof {
                    let ops = first + same_sides(ts, *rule, d + 1);
                    assert(ops.drop_last() =~= first + same_sides(ts, *rule, d as int));
                    assert(ops.last() == side_copy(ts, p, d as int));
                }
            },
            _ => {
                assert(first + same_sides(ts, *rule, d + 1) == first + same_sides(ts, *rule, d as int));
            },
        }
        d = d + 1;
    }
}

/// Copies the default of a tile type, clamped, then the cells of its rules.
fn pad_tile(atlas: &mut Picture, src: &Picture, ts: UVec2, tile: &Tile)
    requires
        frame(*old(atlas), *src, ts),
        match tile.default {
            Some(p) => in_grid(p, (src.width / ts.x) as int, (src.height / ts.y) as int),
            None => true,
        },
        forall|j: int|
            0 <= j < tile.rules@.len() ==> in_grid(
                (#[trigger] tile.rules@[j]).tileset_pos,
                (src.width / ts.x) as int,
                (src.height / ts.y) as int,
            ),
    ensures
        frame(*final(atlas), *src, ts),
        final(atlas).width == old(atlas).width,
        final(atlas).height == old(atlas).height,
        final(atlas).pixels@ == apply_all(
            old(atlas).pixels@,
            old(atlas).width as int,
            src.pixels@,
            src.width as int,
            tile_ops(ts, *tile),
        ),
{
    let ghost a0 = atlas.pixels@;
    let ghost dw = atlas.width as int;
    let ghost sw = src.width as int;
    let ghost dops = default_ops(ts, tile.default);
    match tile.default {
        Some(p) => {
            pad_clamped(atlas, src, ts, p);
        },
        None => {},
    }
    proof {
        assert(rules_ops(ts, tile.rules@.take(0)) =~= Seq::<CopyOp>::empty());
        assert(dops + rules_ops(ts, tile.rules@.take(0)) =~= dops);
    }
    let mut j: usize = 0;
    while j < tile.rules.len()
        invariant
            j <= tile.rules.len(),
            frame(*atlas, *src, ts),
            atlas.width == dw,
            atlas.height == old(atlas).height,
            sw == src.width,
            dw == old(atlas).width,
            a0 == old(atlas).pixels@,
            dops == default_ops(ts, tile.default),
            forall|k: int|
                0 <= k < tile.rules@.len() ==> in_grid(
                    (#[trigger] tile.rules@[k]).tileset_pos,
                    (src.width / ts.x) as int,
                    (src.height / ts.y) as int,
                ),
            atlas.pixels@ == apply_all(
                a0,
                dw,
                src.pixels@,
                sw,
                dops + rules_ops(ts, tile.rules@.take(j as int)),
            ),
        decreases tile.rules.len() - j,
    {
        let rule = &tile.rules[j];
        pad_rule(atlas, src, ts, rule);
        proof {
            let done = dops + rules_ops(ts, tile.rules@.take(j as int));
            let rs = tile.rules@.take(j + 1);
            assert(rs.drop_last() =~= tile.rules@.take(j as int));
            assert(rs.last() == *rule);
            assert(rules_ops(ts, rs) == rules_ops(ts, tile.rules@.take(j as int)) + rule_ops(ts, *rule));
            lemma_apply_all_concat(a0, dw, src.pixels@, sw, done, rule_ops(ts, *rule));
            assert(done + rule_ops(ts, *rule) =~= dops + rules_ops(ts, rs));
        }
        j = j + 1;
    }
    proof {
        assert(tile.rules@.take(tile.rules.len() as int) =~= tile.rules@);
        if tile.default is None {
            assert(dops =~= Seq::<CopyOp>::empty());
        }
    }
}

/// Why a padded atlas could not be built.
#[derive(Clone, Copy, Debug, PartialEq, Eq, Structural)]
pub enum AtlasError {
    /// The tile size is zero, or the source image is not a whole number of tiles.
    NotWholeTiles,
    /// The padded atlas would have more pixels than memory can index.
    TooLarge,
    /// A default or a rule names a cell outside the source image.
    CellOutside,
}

/// The size of the padded atlas of a source image of `sw` by `sh` pixels.
pub open spec fn padded_size(ts: UVec2, sw: int, sh: int) -> (int, int) {
    ((sw / (ts.x as int)) * (ts.x + 2), (sh / (ts.y as int)) * (ts.y + 2))
}

/// A padded atlas of the given size can be held in memory.
pub open spec fn padded_fits(ts: UVec2, sw: int, sh: int) -> bool {
    let (w, h) = padded_size(ts, sw, sh);
    w <= usize::MAX && h <= usize::MAX && w * h <= usize::MAX
}

/// `n` fully transparent pixels.
pub open spec fn blank_pixels(n: int) -> Seq<Rgba> {
    Seq::new(n as nat, |i: int| Rgba { r: 0, g: 0, b: 0, a: 0 })
}

/// `r` is what building the padded atlas of the tileset (`ts`, `tiles`) over the source
/// image `src` gives: each copy of the plan applied in order to a transparent atlas.
pub open spec fn built(ts: UVec2, tiles: Seq<(String, Tile)>, src: Picture, r: Result<Picture, AtlasError>) -> bool {
    let sw = src.width as int;
    let sh = src.height as int;
    match r {
        Err(AtlasError::NotWholeTiles) => !sizes_fit(sw, sh, ts),
        Err(AtlasError::TooLarge) => sizes_fit(sw, sh, ts) && !padded_fits(ts, sw, sh),
        Err(AtlasError::CellOutside) => {
            &&& sizes_fit(sw, sh, ts)
            &&& padded_fits(ts, sw, sh)
            &&& !all_in_grid(tiles, sw / (ts.x as int), sh / (ts.y as int))
        },
        Ok(p) => {
            let (w, h) = padded_size(ts, sw, sh);
            &&& sizes_fit(sw, sh, ts)
            &&& padded_fits(ts, sw, sh)
            &&& all_in_grid(tiles, sw / (ts.x as int), sh / (ts.y as int))
            &&& p.wf()
            &&& p.width == w
            &&& p.height == h
            &&& p.pixels@ == apply_all(blank_pixels(w * h), w, src.pixels@, sw, atlas_plan(ts, tiles))
        },
    }
}

/// Whether every default and rule of `tiles` names a cell of the grid.
fn cells_in_grid(tiles: &Vec<(String, Tile)>, cols: usize, rows: usize) -> (r: bool)
    ensures
        r == all_in_grid(tiles@, cols as int, rows as int),
{
    let mut i: usize = 0;
    while i < tiles.len()
        invariant
            i <= tiles.len(),
            all_in_grid(tiles@.take(i as int), cols as int, rows as int),
        decreases tiles.len() - i,
    {
        let tile = &tiles[i].1;
        match tile.default {
            Some(p) => {
                if p.x >= cols || p.y >= rows {
                    assert(tiles@[i as int].1.default == Some(p));
                    return false;
                }
            },
            None => {},
        }
        let mut j: usize = 0;
        while j < tile.rules.len()
            invariant
                i < tiles.len(),
                *tile == tiles@[i as int].1,
                j <= tile.rules.len(),
                forall|k: int|
                    0 <= k < j ==> in_grid((#[trigger] tile.rules@[k]).tileset_pos, cols as int, rows as int),
            decreases tile.rules.len() - j,
        {
            let q = tile.rules[j].tileset_pos;
            if q.x >= cols || q.y >= rows {
                assert(!in_grid(tiles@[i as int].1.rules@[j as int].tileset_pos, cols as int, rows as int));
                return false;
            }
            j = j + 1;
        }
        proof {
            let t = tiles@.take(i + 1);
            assert forall|a: int| 0 <= a < t.len() implies match (#[trigger] t[a]).1.default {
                Some(p) => in_grid(p, cols as int, rows as int),
                None => true,
            } by {
                if a < i {
                    assert(t[a] == tiles@.take(i as int)[a]);
                }
            }
            assert forall|a: int, b: int|
                0 <= a < t.len() && 0 <= b < t[a].1.rules@.len() implies in_grid(
                (#[trigger] t[a].1.rules@[b]).tileset_pos,
                cols as int,
                rows as int,
            ) by {
                if a < i {
                    assert(t[a] == tiles@.take(i as int)[a]);
                }
            }
        }
        i = i + 1;
    }
    assert(tiles@.take(tiles.len() as int) =~= tiles@);
    true
}

impl TilesetDef {
    /// The padded atlas of a source image: each tile cell grows by a one-pixel border on
    /// every side. Each tile type's default cell is copied with its border clamped to
    /// its outermost pixels; each rule's cell is copied, and its border repeats its own
    /// edge on each side where the rule asks for `Same`, so that neighbours of one kind
    /// join without a seam. Fails, before any pixel is copied, where the source is not a
    /// whole number of tiles, where the atlas would not fit in memory, or where a cell
    /// lies outside the source.
    pub fn build_atlas(&self, source: &Picture) -> (r: Result<Picture, AtlasError>)
        requires
            source.wf(),
        ensures
            built(self.tile_size, self.tiles@, *source, r),
    {
        let ts = self.tile_size;
        if ts.x == 0 || ts.y == 0 || source.width % ts.x != 0 || source.height % ts.y != 0 {
            return Err(AtlasError::NotWholeTiles);
        }
        let cols = source.width / ts.x;
        let rows = source.height / ts.y;
        proof {
            lemma_fundamental_div_mod(source.width as int, ts.x as int);
            lemma_fundamental_div_mod(source.height as int, ts.y as int);
            assert(cols * (ts.x + 2) <= 3 * source.width) by (nonlinear_arith)
                requires
                    source.width == ts.x * cols,
                    ts.x >= 1,
            ;
            assert(rows * (ts.y + 2) <= 3 * source.height) by (nonlinear_arith)
                requires
                    source.height == ts.y * rows,
                    ts.y >= 1,
            ;
        }
        let w128: u128 = cols as u128 * (ts.x as u128 + 2);
        let h128: u128 = rows as u128 * (ts.y as u128 + 2);
        if w128 > usize::MAX as u128 || h128 > usize::MAX as u128 {
            return Err(AtlasError::TooLarge);
        }
        proof {
            assert(w128 * h128 <= usize::MAX as int * usize::MAX as int) by (nonlinear_arith)
                requires
                    w128 <= usize::MAX,
                    h128 <= usize::MAX,
            ;
        }
        if w128 * h128 > usize::MAX as u128 {
            return Err(AtlasError::TooLarge);
        }
        if !cells_in_grid(&self.tiles, cols, rows) {
            return Err(AtlasError::CellOutside);
        }
        let w = w128 as usize;
        let h = h128 as usize;
        let mut atlas = Picture::blank(w, h);
        let ghost sw = source.width as int;
        let ghost blank = atlas.pixels@;
        proof {
            assert(blank =~= blank_pixels(w * h));
            assert(atlas_plan(ts, self.tiles@.take(0)) =~= Seq::<CopyOp>::empty());
        }
        let mut i: usize = 0;
        while i < self.tiles.len()
            invariant
                i <= self.tiles.len(),
                ts == self.tile_size,
                source.wf(),
                sw == source.width,
                cols == source.width / ts.x,
                rows == source.height / ts.y,
                all_in_grid(self.tiles@, cols as int, rows as int),
                frame(atlas, *source, ts),
                atlas.width == w,
                atlas.height == h,
                atlas.pixels@ == apply_all(blank, w as int, source.pixels@, sw, atlas_plan(ts, self.tiles@.take(i as int))),
            decreases self.tiles.len() - i,
        {
            let tile = &self.tiles[i].1;
            proof {
                assert(self.tiles@[i as int].1 == *tile);
                assert forall|j: int| 0 <= j < tile.rules@.len() implies in_grid(
                    (#[trigger] tile.rules@[j]).tileset_pos,
                    (source.width / ts.x) as int,
                    (source.height / ts.y) as int,
                ) by {
                    assert(in_grid(self.tiles@[i as int].1.rules@[j].tileset_pos, cols as int, rows as int));
                }
            }
            pad_tile(&mut atlas, source, ts, tile);
            proof {
                let done = atlas_plan(ts, self.tiles@.take(i as int));
                let t = self.tiles@.take(i + 1);
                assert(t.drop_last() =~= self.tiles@.take(i as int));
                assert(t.last().1 == *tile);
                lemma_apply_all_concat(blank, w as int, source.pixels@, sw, done, tile_ops(ts, *tile));
            }
            i = i + 1;
        }
        assert(self.tiles@.take(self.tiles.len() as int) =~= self.tiles@);
        Ok(atlas)
    }
}

/// Building the padded atlas is idempotent: two builds from the same tile database and
/// source image agree on success, and where they succeed they are pixel-identical.
pub proof fn lemma_atlas_idempotent(
    ts: UVec2,
    tiles: Seq<(String, Tile)>,
    src: Picture,
    r1: Result<Picture, AtlasError>,
    r2: Result<Picture, AtlasError>,
)
    requires
        built(ts, tiles, src, r1),
        built(ts, tiles, src, r2),
    ensures
        r1 is Ok <==> r2 is Ok,
        r1 is Ok ==> r1.unwrap().width == r2.unwrap().width && r1.unwrap().height
            == r2.unwrap().height && r1.unwrap().pixels@ == r2.unwrap().pixels@,
{
}

} // verus!
