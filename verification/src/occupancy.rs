//! Footprint-dilated occupancy: a pixel is blocked when any wall layer has
//! an opaque sample inside the rectangular neighborhood that the movable
//! actor's half-extents span around it.

use vstd::prelude::*;

use crate::px::{blocked_px, clear_px, Px};
use crate::raster::{grid_px, grid_wf, grids_of, stack_wf, Grid, Raster};

verus! {

/// Some wall layer has an opaque pixel inside the half-open neighborhood
/// `[x - hw, x + hw) x [y - hh, y + hh)`, clamped to the raster at 0 on the
/// low side and at the raster edge on the high side.
pub open spec fn blocked_at(
    walls: Seq<Grid>,
    hw: int,
    hh: int,
    w: int,
    h: int,
    x: int,
    y: int,
) -> bool {
    exists|i: int, wx: int, wy: int|
        {
            &&& 0 <= i < walls.len()
            &&& x - hw <= wx < x + hw
            &&& 0 <= wx < w
            &&& y - hh <= wy < y + hh
            &&& 0 <= wy < h
            &&& (#[trigger] grid_px(walls[i], wx, wy)).a > 0
        }
}

/// Scan the neighborhood of (x, y) across all wall layers for an opaque
/// sample. The row scan runs top-down and the column scan left-right, so
/// stopping at the raster edge is exact: everything past the edge is out of
/// bounds anyway.
pub fn occ_pixel(
    walls: &Vec<Raster>,
    hw: usize,
    hh: usize,
    width: usize,
    height: usize,
    x: usize,
    y: usize,
) -> (b: bool)
    requires
        stack_wf(walls@, width as int, height as int),
        x < width,
        y < height,
    ensures
        b == blocked_at(
            grids_of(walls@),
            hw as int,
            hh as int,
            width as int,
            height as int,
            x as int,
            y as int,
        ),
{
    let ghost gs = grids_of(walls@);
    let y0 = y.saturating_sub(hh);
    let y1 = y.saturating_add(hh);
    let x0 = x.saturating_sub(hw);
    let x1 = x.saturating_add(hw);
    let mut i: usize = 0;
    while i < walls.len()
        invariant
            stack_wf(walls@, width as int, height as int),
            gs == grids_of(walls@),
            gs.len() == walls@.len(),
            x < width,
            y < height,
            y0 == if y >= hh {
                y - hh
            } else {
                0
            },
            y1 as int == if y + hh <= usize::MAX {
                y + hh
            } else {
                usize::MAX as int
            },
            x0 == if x >= hw {
                x - hw
            } else {
                0
            },
            x1 as int == if x + hw <= usize::MAX {
                x + hw
            } else {
                usize::MAX as int
            },
            i <= walls@.len(),
            forall|ii: int, wx: int, wy: int|
                0 <= ii < i && x - hw <= wx < x + hw && 0 <= wx < width && y - hh <= wy < y + hh
                    && 0 <= wy < height ==> (#[trigger] grid_px(gs[ii], wx, wy)).a == 0,
        decreases walls@.len() - i,
    {
        let layer = &walls[i];
        let mut ly = y0;
        while ly < y1 && ly < height
            invariant
                stack_wf(walls@, width as int, height as int),
                gs == grids_of(walls@),
                gs.len() == walls@.len(),
                i < walls@.len(),
                layer == walls@[i as int],
                x < width,
                y < height,
                y0 <= ly,
                y0 == if y >= hh {
                    y - hh
                } else {
                    0
                },
                y1 as int == if y + hh <= usize::MAX {
                    y + hh
                } else {
                    usize::MAX as int
                },
                x0 == if x >= hw {
                    x - hw
                } else {
                    0
                },
                x1 as int == if x + hw <= usize::MAX {
                    x + hw
                } else {
                    usize::MAX as int
                },
                forall|wx: int, wy: int|
                    x - hw <= wx < x + hw && 0 <= wx < width && y - hh <= wy < ly && 0 <= wy < height
                        ==> grid_px(gs[i as int], wx, wy).a == 0,
            decreases y1 - ly,
        {
            let mut lx = x0;
            while lx < x1 && lx < width
                invariant
                    stack_wf(walls@, width as int, height as int),
                    gs == grids_of(walls@),
                    gs.len() == walls@.len(),
                    i < walls@.len(),
                    layer == walls@[i as int],
                    x < width,
                    y < height,
                    ly < height,
                    x0 <= lx,
                    x0 == if x >= hw {
                        x - hw
                    } else {
                        0
                    },
                    x1 as int == if x + hw <= usize::MAX {
                        x + hw
                    } else {
                        usize::MAX as int
                    },
                    y0 == if y >= hh {
                        y - hh
                    } else {
                        0
                    },
                    y1 as int == if y + hh <= usize::MAX {
                        y + hh
                    } else {
                        usize::MAX as int
                    },
                    y0 <= ly,
                    ly < y1,
                    forall|wx: int|
                        x - hw <= wx < lx && 0 <= wx < width ==> grid_px(
                            gs[i as int],
                            wx,
                            ly as int,
                        ).a == 0,
                decreases x1 - lx,
            {
                if layer.get(lx, ly).a > 0 {
                    proof {
                        assert(gs[i as int] == walls@[i as int].grid());
                        assert(grid_px(gs[i as int], lx as int, ly as int).a > 0);
                    }
                    return true;
                }
                lx = lx + 1;
            }
            proof {
                assert(gs[i as int] == walls@[i as int].grid());
            }
            ly = ly + 1;
        }
        i = i + 1;
    }
    false
}

/// Fill a whole occupancy raster: blocked pixels carry `blocked_px`, free
/// pixels stay zero-initialized.
pub fn rasterize_occupancy(
    walls: &Vec<Raster>,
    hw: usize,
    hh: usize,
    width: usize,
    height: usize,
) -> (r: Raster)
    requires
        stack_wf(walls@, width as int, height as int),
    ensures
        r.wf(),
        r.spec_width() == width,
        r.spec_height() == height,
        forall|x: int, y: int|
            0 <= x < width && 0 <= y < height ==> grid_px(r.grid(), x, y) == (if blocked_at(
                grids_of(walls@),
                hw as int,
                hh as int,
                width as int,
                height as int,
                x,
                y,
            ) {
                blocked_px()
            } else {
                clear_px()
            }),
{
    let mut out = Raster::new(width, height);
    proof {
        out.lemma_wf_grid();
    }
    let ghost gs = grids_of(walls@);
    let mut y: usize = 0;
    while y < height
        invariant
            stack_wf(walls@, width as int, height as int),
            gs == grids_of(walls@),
            out.wf(),
            out.spec_width() == width,
            out.spec_height() == height,
            grid_wf(out.grid(), width as int, height as int),
            y <= height,
            forall|xx: int, yy: int|
                0 <= xx < width && 0 <= yy < y ==> grid_px(out.grid(), xx, yy) == (if blocked_at(
                    gs,
                    hw as int,
                    hh as int,
                    width as int,
                    height as int,
                    xx,
                    yy,
                ) {
                    blocked_px()
                } else {
                    clear_px()
                }),
        decreases height - y,
    {
        let mut x: usize = 0;
        while x < width
            invariant
                stack_wf(walls@, width as int, height as int),
                gs == grids_of(walls@),
                out.wf(),
                out.spec_width() == width,
                out.spec_height() == height,
                grid_wf(out.grid(), width as int, height as int),
                y < height,
                x <= width,
                forall|xx: int, yy: int|
                    0 <= xx < width && 0 <= yy < y ==> grid_px(out.grid(), xx, yy) == (
                    if blocked_at(gs, hw as int, hh as int, width as int, height as int, xx, yy) {
                        blocked_px()
                    } else {
                        clear_px()
                    }),
                forall|xx: int|
                    0 <= xx < x ==> grid_px(out.grid(), xx, y as int) == (if blocked_at(
                        gs,
                        hw as int,
                        hh as int,
                        width as int,
                        height as int,
                        xx,
                        y as int,
                    ) {
                        blocked_px()
                    } else {
                        clear_px()
                    }),
            decreases width - x,
        {
            let blocked = occ_pixel(walls, hw, hh, width, height, x, y);
            let p = if blocked {
                Px::blocked()
            } else {
                Px::transparent()
            };
            let ghost g0 = out.grid();
            out.set(x, y, p);
            proof {
                out.lemma_wf_grid();
                assert forall|xx: int, yy: int|
                    0 <= xx < width && 0 <= yy < y as int implies grid_px(out.grid(), xx, yy) == (
                if blocked_at(gs, hw as int, hh as int, width as int, height as int, xx, yy) {
                    blocked_px()
                } else {
                    clear_px()
                }) by {
                    assert(out.grid()[yy] == g0[yy]);
                    assert(grid_px(g0, xx, yy) == (if blocked_at(
                        gs,
                        hw as int,
                        hh as int,
                        width as int,
                        height as int,
                        xx,
                        yy,
                    ) {
                        blocked_px()
                    } else {
                        clear_px()
                    }));
                }
                assert forall|xx: int| 0 <= xx <= x as int implies grid_px(
                    out.grid(),
                    xx,
                    y as int,
                ) == (if blocked_at(
                    gs,
                    hw as int,
                    hh as int,
                    width as int,
                    height as int,
                    xx,
                    y as int,
                ) {
                    blocked_px()
                } else {
                    clear_px()
                }) by {
                    assert(out.grid()[y as int] == g0[y as int].update(x as int, p));
                    if xx < x as int {
                        assert(grid_px(g0, xx, y as int) == (if blocked_at(
                            gs,
                            hw as int,
                            hh as int,
                            width as int,
                            height as int,
                            xx,
                            y as int,
                        ) {
                            blocked_px()
                        } else {
                            clear_px()
                        }));
                    } else {
                        assert(grid_px(out.grid(), x as int, y as int) == p);
                    }
                }
            }
            x = x + 1;
        }
        y = y + 1;
    }
    out
}

/// Occupancy monotonicity: enlarging the half-extents can only add blocked
/// pixels, never remove any.
pub proof fn lemma_occupancy_monotonic(
    walls: Seq<Grid>,
    hw1: int,
    hh1: int,
    hw2: int,
    hh2: int,
    w: int,
    h: int,
    x: int,
    y: int,
)
    requires
        hw1 <= hw2,
        hh1 <= hh2,
        blocked_at(walls, hw1, hh1, w, h, x, y),
    ensures
        blocked_at(walls, hw2, hh2, w, h, x, y),
{
    let (i, wx, wy) = choose|i: int, wx: int, wy: int|
        {
            &&& 0 <= i < walls.len()
            &&& x - hw1 <= wx < x + hw1
            &&& 0 <= wx < w
            &&& y - hh1 <= wy < y + hh1
            &&& 0 <= wy < h
            &&& (#[trigger] grid_px(walls[i], wx, wy)).a > 0
        };
    assert(x - hw2 <= wx < x + hw2);
    assert(y - hh2 <= wy < y + hh2);
}

/// Occupancy symmetry: an opaque wall pixel blocks every pixel whose
/// distance to it is under the half-extents in both axes.
pub proof fn lemma_occupancy_symmetry(
    walls: Seq<Grid>,
    hw: int,
    hh: int,
    w: int,
    h: int,
    i: int,
    wx: int,
    wy: int,
    x: int,
    y: int,
)
    requires
        0 <= i < walls.len(),
        0 <= wx < w,
        0 <= wy < h,
        grid_px(walls[i], wx, wy).a > 0,
        -hw < x - wx < hw,
        -hh < y - wy < hh,
    ensures
        blocked_at(walls, hw, hh, w, h, x, y),
{
    assert(x - hw <= wx < x + hw);
    assert(y - hh <= wy < y + hh);
}

} // verus!
