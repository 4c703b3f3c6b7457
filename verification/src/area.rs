//! Area classification: the closed set of semantic area kinds, and the
//! per-pixel resolution of the topmost covering area layer.

use vstd::prelude::*;

use crate::codec::{encode_cell, encoded_cell};
use crate::px::Px;
use crate::raster::{grid_px, grid_wf, Grid, Raster};

verus! {

/// The closed enumeration of level-area kinds.
#[derive(Clone, Copy, PartialEq, Eq, Structural, Debug)]
pub enum AreaType {
    DiningArea,
    Kitchen,
    Bedroom,
    Bathroom,
    Jail,
    Crypt,
}

/// The small integer tag of each area kind, as stored in the packed raster.
pub open spec fn tag_of(t: AreaType) -> u8 {
    match t {
        AreaType::DiningArea => 0,
        AreaType::Kitchen => 1,
        AreaType::Bedroom => 2,
        AreaType::Bathroom => 3,
        AreaType::Jail => 4,
        AreaType::Crypt => 5,
    }
}

/// The inverse of `tag_of`: the area kind a stored tag stands for, if any.
pub open spec fn area_type_from_tag(tag: u8) -> Option<AreaType> {
    if tag == 0 {
        Some(AreaType::DiningArea)
    } else if tag == 1 {
        Some(AreaType::Kitchen)
    } else if tag == 2 {
        Some(AreaType::Bedroom)
    } else if tag == 3 {
        Some(AreaType::Bathroom)
    } else if tag == 4 {
        Some(AreaType::Jail)
    } else if tag == 5 {
        Some(AreaType::Crypt)
    } else {
        None
    }
}

/// The area kind a layer name denotes, by exact match against the
/// enumeration's names.
pub open spec fn area_type_of_name(s: Seq<char>) -> Option<AreaType> {
    if s == "DiningArea"@ {
        Some(AreaType::DiningArea)
    } else if s == "Kitchen"@ {
        Some(AreaType::Kitchen)
    } else if s == "Bedroom"@ {
        Some(AreaType::Bedroom)
    } else if s == "Bathroom"@ {
        Some(AreaType::Bathroom)
    } else if s == "Jail"@ {
        Some(AreaType::Jail)
    } else if s == "Crypt"@ {
        Some(AreaType::Crypt)
    } else {
        None
    }
}

impl AreaType {
    /// The tag stored in the packed raster for this area kind.
    pub fn tag(self) -> (t: u8)
        ensures
            t == tag_of(self),
    {
        match self {
            AreaType::DiningArea => 0,
            AreaType::Kitchen => 1,
            AreaType::Bedroom => 2,
            AreaType::Bathroom => 3,
            AreaType::Jail => 4,
            AreaType::Crypt => 5,
        }
    }

    /// The area kind a stored tag stands for, if any.
    pub fn from_tag(tag: u8) -> (r: Option<AreaType>)
        ensures
            r == area_type_from_tag(tag),
    {
        if tag == 0 {
            Some(AreaType::DiningArea)
        } else if tag == 1 {
            Some(AreaType::Kitchen)
        } else if tag == 2 {
            Some(AreaType::Bedroom)
        } else if tag == 3 {
            Some(AreaType::Bathroom)
        } else if tag == 4 {
            Some(AreaType::Jail)
        } else if tag == 5 {
            Some(AreaType::Crypt)
        } else {
            None
        }
    }

    /// Resolve a layer name to its area kind; an unknown name is an error.
    pub fn from_str(s: &str) -> (r: Result<AreaType, ()>)
        ensures
            match area_type_of_name(s@) {
                Some(t) => r == Ok::<AreaType, ()>(t),
                None => r == Err::<AreaType, ()>(()),
            },
    {
        let owned = s.to_owned();
        if owned == "DiningArea".to_owned() {
            Ok(AreaType::DiningArea)
        } else if owned == "Kitchen".to_owned() {
            Ok(AreaType::Kitchen)
        } else if owned == "Bedroom".to_owned() {
            Ok(AreaType::Bedroom)
        } else if owned == "Bathroom".to_owned() {
            Ok(AreaType::Bathroom)
        } else if owned == "Jail".to_owned() {
            Ok(AreaType::Jail)
        } else if owned == "Crypt".to_owned() {
            Ok(AreaType::Crypt)
        } else {
            Err(())
        }
    }
}

/// One eligible area layer: its resolved kind and its pixel buffer.
pub struct AreaLayer {
    pub ty: AreaType,
    pub pixels: Raster,
}

/// Every layer of the area stack is well formed with dimensions `w` x `h`.
pub open spec fn area_stack_wf(stack: Seq<AreaLayer>, w: int, h: int) -> bool {
    forall|i: int|
        0 <= i < stack.len() ==> {
            &&& (#[trigger] stack[i]).pixels.wf()
            &&& stack[i].pixels.spec_width() == w
            &&& stack[i].pixels.spec_height() == h
        }
}

/// The mathematical view of an area stack: kind and grid per layer,
/// bottom-to-top.
pub open spec fn area_grids_of(stack: Seq<AreaLayer>) -> Seq<(AreaType, Grid)> {
    stack.map_values(|l: AreaLayer| (l.ty, l.pixels.grid()))
}

/// The topmost layer covering (x, y), as `Some((rank, kind))` where rank is
/// the winner's 1-based position counted from the bottom of the stack, or
/// `None` when no layer covers the pixel.
pub open spec fn resolved_at(layers: Seq<(AreaType, Grid)>, x: int, y: int) -> Option<
    (int, AreaType),
>
    decreases layers.len(),
{
    if layers.len() == 0 {
        None
    } else if grid_px(layers.last().1, x, y).a > 0 {
        Some((layers.len() as int, layers.last().0))
    } else {
        resolved_at(layers.drop_last(), x, y)
    }
}

/// Find the topmost area layer covering (x, y) and its rank.
pub fn resolve_pixel(layers: &Vec<AreaLayer>, width: usize, height: usize, x: usize, y: usize) -> (r:
    Option<(u8, AreaType)>)
    requires
        area_stack_wf(layers@, width as int, height as int),
        layers@.len() <= 254,
        x < width,
        y < height,
    ensures
        ({
            let m = resolved_at(area_grids_of(layers@), x as int, y as int);
            match r {
                Some(p) => m == Some((p.0 as int, p.1)),
                None => m is None,
            }
        }),
{
    let ghost gs = area_grids_of(layers@);
    proof {
        assert(gs.len() == layers@.len());
        assert(gs.take(gs.len() as int) =~= gs);
    }
    let mut i: usize = layers.len();
    while i > 0
        invariant
            area_stack_wf(layers@, width as int, height as int),
            gs == area_grids_of(layers@),
            gs.len() == layers@.len(),
            layers@.len() <= 254,
            x < width,
            y < height,
            i <= layers@.len(),
            resolved_at(gs, x as int, y as int) == resolved_at(
                gs.take(i as int),
                x as int,
                y as int,
            ),
        decreases i,
    {
        i = i - 1;
        let lp = layers[i].pixels.get(x, y);
        proof {
            let t = gs.take(i + 1);
            assert(gs[i as int] == (layers@[i as int].ty, layers@[i as int].pixels.grid()));
            assert(t.last() == gs[i as int]);
            assert(t.drop_last() =~= gs.take(i as int));
        }
        if lp.a > 0 {
            return Some(((i + 1) as u8, layers[i].ty));
        }
    }
    proof {
        assert(gs.take(0).len() == 0);
    }
    None
}

/// What one collision-raster pixel becomes after area resolution: a pixel
/// already marked (nonzero alpha, i.e. blocked) is left alone; otherwise
/// the topmost covering area layer is encoded, or the pixel stays unset.
pub open spec fn area_cell_px(prev: Px, m: Option<(int, AreaType)>) -> Px {
    if prev.a != 0 {
        prev
    } else {
        match m {
            Some((rank, t)) => encoded_cell(rank as u8, t),
            None => prev,
        }
    }
}

/// Resolve every unblocked pixel of the collision raster against the area
/// stack, encoding the winner's rank and kind in place.
pub fn resolve_areas(raster: &mut Raster, layers: &Vec<AreaLayer>)
    requires
        old(raster).wf(),
        area_stack_wf(
            layers@,
            old(raster).spec_width() as int,
            old(raster).spec_height() as int,
        ),
        layers@.len() <= 254,
    ensures
        final(raster).wf(),
        final(raster).spec_width() == old(raster).spec_width(),
        final(raster).spec_height() == old(raster).spec_height(),
        forall|x: int, y: int|
            0 <= x < old(raster).spec_width() && 0 <= y < old(raster).spec_height() ==> grid_px(
                final(raster).grid(),
                x,
                y,
            ) == area_cell_px(
                grid_px(old(raster).grid(), x, y),
                resolved_at(area_grids_of(layers@), x, y),
            ),
{
    let width = raster.width();
    let height = raster.height();
    let ghost g_in = raster.grid();
    let ghost gs = area_grids_of(layers@);
    proof {
        raster.lemma_wf_grid();
    }
    let mut y: usize = 0;
    while y < height
        invariant
            raster.wf(),
            raster.spec_width() == width,
            raster.spec_height() == height,
            grid_wf(raster.grid(), width as int, height as int),
            grid_wf(g_in, width as int, height as int),
            area_stack_wf(layers@, width as int, height as int),
            layers@.len() <= 254,
            gs == area_grids_of(layers@),
            y <= height,
            forall|xx: int, yy: int|
                0 <= xx < width && 0 <= yy < y ==> grid_px(raster.grid(), xx, yy) == area_cell_px(
                    grid_px(g_in, xx, yy),
                    resolved_at(gs, xx, yy),
                ),
            forall|xx: int, yy: int|
                0 <= xx < width && y <= yy < height ==> grid_px(raster.grid(), xx, yy) == grid_px(
                    g_in,
                    xx,
                    yy,
                ),
        decreases height - y,
    {
        let mut x: usize = 0;
        while x < width
            invariant
                raster.wf(),
                raster.spec_width() == width,
                raster.spec_height() == height,
                grid_wf(raster.grid(), width as int, height as int),
                grid_wf(g_in, width as int, height as int),
                area_stack_wf(layers@, width as int, height as int),
                layers@.len() <= 254,
                gs == area_grids_of(layers@),
                y < height,
                x <= width,
                forall|xx: int, yy: int|
                    0 <= xx < width && 0 <= yy < y ==> grid_px(raster.grid(), xx, yy)
                        == area_cell_px(grid_px(g_in, xx, yy), resolved_at(gs, xx, yy)),
                forall|xx: int|
                    0 <= xx < x ==> grid_px(raster.grid(), xx, y as int) == area_cell_px(
                        grid_px(g_in, xx, y as int),
                        resolved_at(gs, xx, y as int),
                    ),
                forall|xx: int|
                    x <= xx < width ==> grid_px(raster.grid(), xx, y as int) == grid_px(
                        g_in,
                        xx,
                        y as int,
                    ),
                forall|xx: int, yy: int|
                    0 <= xx < width && y < yy < height ==> grid_px(raster.grid(), xx, yy)
                        == grid_px(g_in, xx, yy),
            decreases width - x,
        {
            let p = raster.get(x, y);
            proof {
                assert(p == grid_px(g_in, x as int, y as int));
            }
            if p.a == 0 {
                match resolve_pixel(layers, width, height, x, y) {
                    Some((rank, ty)) => {
                        let cell = encode_cell(rank, ty);
                        let ghost g0 = raster.grid();
                        raster.set(x, y, cell);
                        proof {
                            raster.lemma_wf_grid();
                            assert forall|xx: int, yy: int|
                                0 <= xx < width && 0 <= yy < y as int implies grid_px(
                                raster.grid(),
                                xx,
                                yy,
                            ) == area_cell_px(grid_px(g_in, xx, yy), resolved_at(gs, xx, yy)) by {
                                assert(raster.grid()[yy] == g0[yy]);
                                assert(grid_px(g0, xx, yy) == area_cell_px(
                                    grid_px(g_in, xx, yy),
                                    resolved_at(gs, xx, yy),
                                ));
                            }
                            assert forall|xx: int| 0 <= xx <= x as int implies grid_px(
                                raster.grid(),
                                xx,
                                y as int,
                            ) == area_cell_px(
                                grid_px(g_in, xx, y as int),
                                resolved_at(gs, xx, y as int),
                            ) by {
                                assert(raster.grid()[y as int] == g0[y as int].update(
                                    x as int,
                                    cell,
                                ));
                                if xx < x as int {
                                    assert(grid_px(g0, xx, y as int) == area_cell_px(
                                        grid_px(g_in, xx, y as int),
                                        resolved_at(gs, xx, y as int),
                                    ));
                                } else {
                                    assert(grid_px(raster.grid(), x as int, y as int) == cell);
                                }
                            }
                            assert forall|xx: int| (x as int) < xx < width implies grid_px(
                                raster.grid(),
                                xx,
                                y as int,
                            ) == grid_px(g_in, xx, y as int) by {
                                assert(raster.grid()[y as int] == g0[y as int].update(
                                    x as int,
                                    cell,
                                ));
                                assert(grid_px(g0, xx, y as int) == grid_px(g_in, xx, y as int));
                            }
                            assert forall|xx: int, yy: int|
                                0 <= xx < width && (y as int) < yy < height implies grid_px(
                                raster.grid(),
                                xx,
                                yy,
                            ) == grid_px(g_in, xx, yy) by {
                                assert(raster.grid()[yy] == g0[yy]);
                                assert(grid_px(g0, xx, yy) == grid_px(g_in, xx, yy));
                            }
                        }
                    },
                    None => {
                        proof {
                            assert(area_cell_px(
                                grid_px(g_in, x as int, y as int),
                                resolved_at(gs, x as int, y as int),
                            ) == grid_px(g_in, x as int, y as int));
                        }
                    },
                }
            } else {
                proof {
                    assert(area_cell_px(
                        grid_px(g_in, x as int, y as int),
                        resolved_at(gs, x as int, y as int),
                    ) == grid_px(g_in, x as int, y as int));
                }
            }
            x = x + 1;
        }
        y = y + 1;
    }
}

/// Area rank ordering: when every layer of the stack covers (x, y), the
/// topmost layer wins, with rank equal to the stack's length and its own
/// kind as the resolved kind.
pub proof fn lemma_rank_ordering(layers: Seq<(AreaType, Grid)>, x: int, y: int)
    requires
        layers.len() > 0,
        grid_px(layers.last().1, x, y).a > 0,
    ensures
        resolved_at(layers, x, y) == Some((layers.len() as int, layers.last().0)),
{
}

} // verus!
