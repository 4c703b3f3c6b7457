//! Alpha-over compositing of an ordered layer stack into one RGBA raster.
//!
//! Stacks are stored bottom-to-top. Compositing walks the stack from the
//! topmost layer downward: the topmost pixel seeds the accumulator and each
//! layer below it is blended underneath, stopping as soon as the accumulator
//! turns fully opaque, since layers below an opaque result cannot show.

use vstd::prelude::*;

use crate::px::{clear_px, Px};
use crate::raster::{grid_px, grid_wf, grids_of, stack_wf, Grid, Raster};

verus! {

/// One channel of Porter-Duff "over" on premultiplied channels, rounded to
/// nearest and capped at the channel maximum: the front (accumulated)
/// channel plus the back channel scaled by what the front lets through.
pub open spec fn over_channel(front: int, back: int, front_a: int) -> int {
    let sum = front + (back * (255 - front_a) + 127) / 255;
    if sum > 255 {
        255
    } else {
        sum
    }
}

/// Porter-Duff "over": `front` is the accumulator (the layers already
/// composited, nearer the viewer), `back` the next layer below it.
pub open spec fn blend_over(front: Px, back: Px) -> Px {
    Px {
        r: over_channel(front.r as int, back.r as int, front.a as int) as u8,
        g: over_channel(front.g as int, back.g as int, front.a as int) as u8,
        b: over_channel(front.b as int, back.b as int, front.a as int) as u8,
        a: over_channel(front.a as int, back.a as int, front.a as int) as u8,
    }
}

/// Fold the layers below the accumulator into it, topmost of `below` first,
/// stopping once the accumulator is fully opaque. Layers that are fully
/// transparent at this position are skipped outright.
pub open spec fn composite_below(acc: Px, below: Seq<Grid>, x: int, y: int) -> Px
    decreases below.len(),
{
    if below.len() == 0 || acc.a == 255 {
        acc
    } else {
        let lp = grid_px(below.last(), x, y);
        let acc2 = if lp.a == 0 {
            acc
        } else {
            blend_over(acc, lp)
        };
        composite_below(acc2, below.drop_last(), x, y)
    }
}

/// The composited color of a bottom-to-top stack at (x, y): zero for an
/// empty stack, otherwise the topmost pixel with everything below blended
/// underneath it.
pub open spec fn composited_px(stack: Seq<Grid>, x: int, y: int) -> Px {
    if stack.len() == 0 {
        clear_px()
    } else {
        composite_below(grid_px(stack.last(), x, y), stack.drop_last(), x, y)
    }
}

/// One blended channel; see `over_channel`.
fn blend_channel(front: u8, back: u8, front_a: u8) -> (r: u8)
    ensures
        r as int == over_channel(front as int, back as int, front_a as int),
{
    proof {
        assert((back as int) * (255 - front_a as int) <= 255 * 255) by (nonlinear_arith)
            requires
                0 <= back as int <= 255,
                0 <= 255 - front_a as int <= 255,
        ;
        assert(0 <= (back as int) * (255 - front_a as int)) by (nonlinear_arith)
            requires
                0 <= back as int,
                0 <= 255 - front_a as int,
        ;
    }
    let scaled: u32 = ((back as u32) * (255 - front_a as u32) + 127) / 255;
    let sum: u32 = front as u32 + scaled;
    if sum > 255 {
        255
    } else {
        sum as u8
    }
}

/// Blend the pixel of the next layer down underneath the accumulated pixel.
pub fn blend_px(front: Px, back: Px) -> (r: Px)
    ensures
        r == blend_over(front, back),
{
    Px {
        r: blend_channel(front.r, back.r, front.a),
        g: blend_channel(front.g, back.g, front.a),
        b: blend_channel(front.b, back.b, front.a),
        a: blend_channel(front.a, back.a, front.a),
    }
}

/// The composited color of the stack at one position.
pub fn composite_pixel(stack: &Vec<Raster>, width: usize, height: usize, x: usize, y: usize) -> (p:
    Px)
    requires
        stack_wf(stack@, width as int, height as int),
        x < width,
        y < height,
    ensures
        p == composited_px(grids_of(stack@), x as int, y as int),
{
    let ghost gs = grids_of(stack@);
    proof {
        assert(gs.len() == stack@.len());
    }
    if stack.len() == 0 {
        return Px::transparent();
    }
    let mut i: usize = stack.len() - 1;
    proof {
        assert(gs[i as int] == stack@[i as int].grid());
        assert(gs.last() == gs[i as int]);
        assert(gs.drop_last() =~= gs.take(i as int));
    }
    let mut acc = stack[i].get(x, y);
    while 0 < i && acc.a != 255
        invariant
            stack_wf(stack@, width as int, height as int),
            gs == grids_of(stack@),
            gs.len() == stack@.len(),
            x < width,
            y < height,
            i <= stack@.len(),
            composited_px(gs, x as int, y as int) == composite_below(
                acc,
                gs.take(i as int),
                x as int,
                y as int,
            ),
        decreases i,
    {
        i = i - 1;
        let lp = stack[i].get(x, y);
        proof {
            let t = gs.take(i + 1);
            assert(gs[i as int] == stack@[i as int].grid());
            assert(t.last() == gs[i as int]);
            assert(t.drop_last() =~= gs.take(i as int));
        }
        if lp.a != 0 {
            acc = blend_px(acc, lp);
        }
    }
    proof {
        if acc.a == 255 {
            assert(composite_below(acc, gs.take(i as int), x as int, y as int) == acc);
        } else {
            assert(i == 0);
            assert(gs.take(0).len() == 0);
        }
    }
    acc
}

/// Flatten a whole stack into one freshly allocated raster.
pub fn composite(stack: &Vec<Raster>, width: usize, height: usize) -> (r: Raster)
    requires
        stack_wf(stack@, width as int, height as int),
    ensures
        r.wf(),
        r.spec_width() == width,
        r.spec_height() == height,
        forall|x: int, y: int|
            0 <= x < width && 0 <= y < height ==> grid_px(r.grid(), x, y) == composited_px(
                grids_of(stack@),
                x,
                y,
            ),
{
    let mut out = Raster::new(width, height);
    proof {
        out.lemma_wf_grid();
    }
    let mut y: usize = 0;
    while y < height
        invariant
            stack_wf(stack@, width as int, height as int),
            out.wf(),
            out.spec_width() == width,
            out.spec_height() == height,
            grid_wf(out.grid(), width as int, height as int),
            y <= height,
            forall|xx: int, yy: int|
                0 <= xx < width && 0 <= yy < y ==> grid_px(out.grid(), xx, yy) == composited_px(
                    grids_of(stack@),
                    xx,
                    yy,
                ),
        decreases height - y,
    {
        let mut x: usize = 0;
        while x < width
            invariant
                stack_wf(stack@, width as int, height as int),
                out.wf(),
                out.spec_width() == width,
                out.spec_height() == height,
                grid_wf(out.grid(), width as int, height as int),
                y < height,
                x <= width,
                forall|xx: int, yy: int|
                    0 <= xx < width && 0 <= yy < y ==> grid_px(out.grid(), xx, yy) == composited_px(
                        grids_of(stack@),
                        xx,
                        yy,
                    ),
                forall|xx: int|
                    0 <= xx < x ==> grid_px(out.grid(), xx, y as int) == composited_px(
                        grids_of(stack@),
                        xx,
                        y as int,
                    ),
            decreases width - x,
        {
            let p = composite_pixel(stack, width, height, x, y);
            let ghost g0 = out.grid();
            out.set(x, y, p);
            proof {
                out.lemma_wf_grid();
                let gs = grids_of(stack@);
                assert forall|xx: int, yy: int|
                    0 <= xx < width && 0 <= yy < y as int implies grid_px(out.grid(), xx, yy)
                    == composited_px(gs, xx, yy) by {
                    assert(out.grid()[yy] == g0[yy]);
                    assert(grid_px(g0, xx, yy) == composited_px(gs, xx, yy));
                }
                assert forall|xx: int| 0 <= xx <= x as int implies grid_px(
                    out.grid(),
                    xx,
                    y as int,
                ) == composited_px(gs, xx, y as int) by {
                    assert(out.grid()[y as int] == g0[y as int].update(x as int, p));
                    if xx < x as int {
                        assert(grid_px(g0, xx, y as int) == composited_px(gs, xx, y as int));
                    }
                }
            }
            x = x + 1;
        }
        y = y + 1;
    }
    out
}

/// Blending anything underneath an already fully opaque accumulator leaves
/// the accumulator unchanged.
pub proof fn lemma_blend_under_opaque(front: Px, back: Px)
    requires
        front.a == 255,
    ensures
        blend_over(front, back) == front,
{
    assert((back.r as int) * (255 - 255) == 0) by (nonlinear_arith);
    assert((back.g as int) * (255 - 255) == 0) by (nonlinear_arith);
    assert((back.b as int) * (255 - 255) == 0) by (nonlinear_arith);
    assert((back.a as int) * (255 - 255) == 0) by (nonlinear_arith);
}

/// Blending a fully opaque layer underneath any accumulator yields a fully
/// opaque result.
pub proof fn lemma_blend_opaque_back(front: Px, back: Px)
    requires
        back.a == 255,
    ensures
        blend_over(front, back).a == 255,
{
    let fa = front.a as int;
    assert((255 * (255 - fa) + 127) / 255 == 255 - fa) by (nonlinear_arith)
        requires
            0 <= fa <= 255,
    ;
}

/// An opaque accumulator absorbs every stack below it.
pub proof fn lemma_composite_below_opaque(acc: Px, below: Seq<Grid>, x: int, y: int)
    requires
        acc.a == 255,
    ensures
        composite_below(acc, below, x, y) == acc,
{
}

/// Layers that are all fully transparent at (x, y) leave the accumulator
/// untouched there.
pub proof fn lemma_composite_below_transparent(acc: Px, below: Seq<Grid>, x: int, y: int)
    requires
        forall|i: int| 0 <= i < below.len() ==> grid_px(#[trigger] below[i], x, y).a == 0,
    ensures
        composite_below(acc, below, x, y) == acc,
    decreases below.len(),
{
    if below.len() == 0 || acc.a == 255 {
    } else {
        assert(grid_px(below[below.len() - 1], x, y).a == 0);
        assert(below.last() == below[below.len() - 1]);
        assert forall|i: int| 0 <= i < below.drop_last().len() implies grid_px(
            #[trigger] below.drop_last()[i],
            x,
            y,
        ).a == 0 by {
            assert(below.drop_last()[i] == below[i]);
        }
        lemma_composite_below_transparent(acc, below.drop_last(), x, y);
    }
}

/// Compositing correctness: where the topmost layer is fully opaque, the
/// composited pixel is exactly that layer's pixel, whatever lies below it.
pub proof fn lemma_composite_opaque_top(stack: Seq<Grid>, x: int, y: int)
    requires
        stack.len() > 0,
        grid_px(stack.last(), x, y).a == 255,
    ensures
        composited_px(stack, x, y) == grid_px(stack.last(), x, y),
{
    lemma_composite_below_opaque(grid_px(stack.last(), x, y), stack.drop_last(), x, y);
}

/// Compositing transparency: where every layer of the stack has alpha 0,
/// the composited pixel has alpha 0.
pub proof fn lemma_composite_transparent(stack: Seq<Grid>, x: int, y: int)
    requires
        forall|i: int| 0 <= i < stack.len() ==> grid_px(#[trigger] stack[i], x, y).a == 0,
    ensures
        composited_px(stack, x, y).a == 0,
{
    if stack.len() > 0 {
        assert(grid_px(stack[stack.len() - 1], x, y).a == 0);
        assert(stack.last() == stack[stack.len() - 1]);
        assert forall|i: int| 0 <= i < stack.drop_last().len() implies grid_px(
            #[trigger] stack.drop_last()[i],
            x,
            y,
        ).a == 0 by {
            assert(stack.drop_last()[i] == stack[i]);
        }
        lemma_composite_below_transparent(grid_px(stack.last(), x, y), stack.drop_last(), x, y);
    }
}

/// Helper for the early-exit law: once a fully opaque layer is reached,
/// whatever lies below it never changes the accumulator's fold.
proof fn lemma_below_opaque_cut(acc: Px, below: Seq<Grid>, g: Grid, above: Seq<Grid>, x: int, y: int)
    requires
        grid_px(g, x, y).a == 255,
    ensures
        composite_below(acc, below + seq![g] + above, x, y) == composite_below(
            acc,
            seq![g] + above,
            x,
            y,
        ),
    decreases above.len(),
{
    let full = below + seq![g] + above;
    let short = seq![g] + above;
    if acc.a == 255 {
        assert(composite_below(acc, full, x, y) == acc);
        assert(composite_below(acc, short, x, y) == acc);
    } else if above.len() == 0 {
        assert(full.last() == g);
        assert(full.drop_last() =~= below);
        assert(short.last() == g);
        assert(short.drop_last() =~= Seq::<Grid>::empty());
        let lp = grid_px(g, x, y);
        let acc2 = blend_over(acc, lp);
        lemma_blend_opaque_back(acc, lp);
        lemma_composite_below_opaque(acc2, below, x, y);
        assert(full.len() > 0);
        assert(composite_below(acc, full, x, y) == composite_below(acc2, full.drop_last(), x, y));
        assert(composite_below(acc, full, x, y) == acc2);
        assert(composite_below(acc, short, x, y) == composite_below(acc2, short.drop_last(), x, y));
        assert(composite_below(acc2, short.drop_last(), x, y) == acc2);
    } else {
        assert(full.last() == above.last());
        assert(short.last() == above.last());
        assert(full.drop_last() =~= below + seq![g] + above.drop_last());
        assert(short.drop_last() =~= seq![g] + above.drop_last());
        let lp = grid_px(above.last(), x, y);
        let acc2 = if lp.a == 0 {
            acc
        } else {
            blend_over(acc, lp)
        };
        lemma_below_opaque_cut(acc2, below, g, above.drop_last(), x, y);
    }
}

/// Compositing associativity with early exit: a layer that is fully opaque
/// at (x, y) hides everything below it, so the layers underneath can be
/// dropped without changing the composited pixel.
pub proof fn lemma_opaque_hides_below(below: Seq<Grid>, g: Grid, above: Seq<Grid>, x: int, y: int)
    requires
        grid_px(g, x, y).a == 255,
    ensures
        composited_px(below + seq![g] + above, x, y) == composited_px(seq![g] + above, x, y),
{
    let full = below + seq![g] + above;
    let short = seq![g] + above;
    if above.len() == 0 {
        assert(full.last() == g);
        assert(full.drop_last() =~= below);
        assert(short.last() == g);
        assert(short.drop_last() =~= Seq::<Grid>::empty());
        lemma_composite_below_opaque(grid_px(g, x, y), below, x, y);
    } else {
        assert(full.last() == above.last());
        assert(short.last() == above.last());
        assert(full.drop_last() =~= below + seq![g] + above.drop_last());
        assert(short.drop_last() =~= seq![g] + above.drop_last());
        lemma_below_opaque_cut(grid_px(above.last(), x, y), below, g, above.drop_last(), x, y);
    }
}

} // verus!
