//! End-to-end baking of one document: the background branch (compositing)
//! and the collision branch (occupancy dilation, then area resolution into
//! the same raster).

use vstd::prelude::*;

use crate::area::{
    area_cell_px, area_grids_of, area_stack_wf, area_type_of_name, resolve_areas, resolved_at,
    AreaLayer, AreaType,
};
use crate::compositor::{composite, composited_px};
use crate::model::{
    build_stack, doc_wf, group_wf, kept_grids, locate_group, role_index, role_keeps, Document,
    Group, Layer, LevelConfig, Role,
};
use crate::occupancy::{blocked_at, rasterize_occupancy};
use crate::px::{blocked_px, clear_px, Px};
use crate::raster::{grid_px, Grid, Raster};

verus! {

/// Why a document's branch could not be baked.
#[derive(Clone, Copy, PartialEq, Eq, Structural, Debug)]
pub enum BakeError {
    /// The document has no group at the role's fixed position.
    MissingGroup(Role),
    /// The area layer at this index (in stored group order) has a name
    /// outside the area enumeration.
    UnknownAreaType(usize),
    /// The area group keeps this many eligible layers, more than the 254
    /// the rank encoding can represent.
    TooManyAreaLayers(usize),
}

/// The greatest rank the packed encoding can represent: one byte, with 0
/// reserved for "no area".
pub const MAX_AREA_LAYERS: usize = 254;

/// The kind and grid of each area layer the visibility predicate keeps and
/// whose name resolves, in stored (bottom-to-top) order.
pub open spec fn kept_area_grids(layers: Seq<Layer>) -> Seq<(AreaType, Grid)>
    decreases layers.len(),
{
    if layers.len() == 0 {
        Seq::empty()
    } else {
        let rest = kept_area_grids(layers.drop_last());
        if role_keeps(Role::Areas, layers.last().visible) {
            match area_type_of_name(layers.last().name@) {
                Some(t) => rest.push((t, layers.last().pixels.grid())),
                None => rest,
            }
        } else {
            rest
        }
    }
}

/// Every kept area layer's name resolves to an area kind.
pub open spec fn area_names_ok(layers: Seq<Layer>) -> bool {
    forall|i: int|
        0 <= i < layers.len() && role_keeps(Role::Areas, (#[trigger] layers[i]).visible)
            ==> area_type_of_name(layers[i].name@) is Some
}

/// Build the area stack of a group: the kept layers with their resolved
/// kinds. Fails on the first kept layer whose name is no area kind.
pub fn build_area_stack(group: &Group, width: usize, height: usize) -> (r: Result<
    Vec<AreaLayer>,
    BakeError,
>)
    requires
        group_wf(*group, width as int, height as int),
    ensures
        match r {
            Ok(stack) => {
                &&& area_names_ok(group.layers@)
                &&& area_stack_wf(stack@, width as int, height as int)
                &&& area_grids_of(stack@) == kept_area_grids(group.layers@)
                &&& stack@.len() <= group.layers@.len()
            },
            Err(e) => match e {
                BakeError::UnknownAreaType(bi) => {
                    &&& 0 <= bi < group.layers@.len()
                    &&& role_keeps(Role::Areas, group.layers@[bi as int].visible)
                    &&& area_type_of_name(group.layers@[bi as int].name@) is None
                    &&& forall|j: int|
                        0 <= j < bi && role_keeps(
                            Role::Areas,
                            (#[trigger] group.layers@[j]).visible,
                        ) ==> area_type_of_name(group.layers@[j].name@) is Some
                },
                _ => false,
            },
        },
{
    let mut out: Vec<AreaLayer> = Vec::new();
    let mut i: usize = 0;
    proof {
        assert(area_grids_of(out@) =~= kept_area_grids(group.layers@.take(0)));
    }
    while i < group.layers.len()
        invariant
            group_wf(*group, width as int, height as int),
            i <= group.layers@.len(),
            out@.len() <= i,
            area_stack_wf(out@, width as int, height as int),
            area_grids_of(out@) == kept_area_grids(group.layers@.take(i as int)),
            forall|j: int|
                0 <= j < i && role_keeps(Role::Areas, (#[trigger] group.layers@[j]).visible)
                    ==> area_type_of_name(group.layers@[j].name@) is Some,
        decreases group.layers@.len() - i,
    {
        let ghost pre = out@;
        let layer = &group.layers[i];
        if Role::Areas.keeps(layer.visible) {
            let ty = match AreaType::from_str(layer.name.as_str()) {
                Ok(ty) => ty,
                Err(()) => {
                    return Err(BakeError::UnknownAreaType(i));
                },
            };
            out.push(AreaLayer { ty, pixels: layer.pixels.clone() });
        }
        proof {
            let t = group.layers@.take(i + 1);
            assert(t.last() == group.layers@[i as int]);
            assert(t.drop_last() =~= group.layers@.take(i as int));
            if role_keeps(Role::Areas, group.layers@[i as int].visible) {
                assert(area_grids_of(out@) =~= area_grids_of(pre).push(
                    (
                        area_type_of_name(group.layers@[i as int].name@).unwrap(),
                        group.layers@[i as int].pixels.grid(),
                    ),
                ));
            }
        }
        i = i + 1;
    }
    proof {
        assert(group.layers@.take(group.layers@.len() as int) =~= group.layers@);
    }
    Ok(out)
}

/// Bake the background branch: composite the background group's stack.
pub fn bake_background(doc: &Document) -> (r: Result<Raster, BakeError>)
    requires
        doc_wf(*doc),
    ensures
        match r {
            Ok(ras) => {
                &&& doc.groups@.len() > role_index(Role::Background)
                &&& ras.wf()
                &&& ras.spec_width() == doc.width
                &&& ras.spec_height() == doc.height
                &&& forall|x: int, y: int|
                    0 <= x < doc.width && 0 <= y < doc.height ==> grid_px(ras.grid(), x, y)
                        == composited_px(
                        kept_grids(
                            doc.groups@[role_index(Role::Background)].layers@,
                            Role::Background,
                        ),
                        x,
                        y,
                    )
            },
            Err(e) => {
                &&& e == BakeError::MissingGroup(Role::Background)
                &&& doc.groups@.len() <= role_index(Role::Background)
            },
        },
{
    let group = match locate_group(doc, Role::Background) {
        Some(g) => g,
        None => {
            return Err(BakeError::MissingGroup(Role::Background));
        },
    };
    let stack = build_stack(group, Role::Background, doc.width, doc.height);
    Ok(composite(&stack, doc.width, doc.height))
}

/// What one collision-raster pixel holds after both passes: the blocked
/// mark where the dilated walls reach, otherwise the encoded topmost area
/// layer, otherwise the unset (fully transparent) value.
pub open spec fn collision_px(
    walls: Seq<Grid>,
    areas: Seq<(AreaType, Grid)>,
    hw: int,
    hh: int,
    w: int,
    h: int,
    x: int,
    y: int,
) -> Px {
    if blocked_at(walls, hw, hh, w, h, x, y) {
        blocked_px()
    } else {
        area_cell_px(clear_px(), resolved_at(areas, x, y))
    }
}

/// Bake the collision branch: the occupancy pass over the walls group,
/// then area resolution of the unblocked pixels, in one raster.
pub fn bake_collision(doc: &Document, cfg: LevelConfig) -> (r: Result<Raster, BakeError>)
    requires
        doc_wf(*doc),
    ensures
        match r {
            Ok(ras) => {
                &&& doc.groups@.len() > role_index(Role::Areas)
                &&& area_names_ok(doc.groups@[role_index(Role::Areas)].layers@)
                &&& kept_area_grids(doc.groups@[role_index(Role::Areas)].layers@).len()
                    <= MAX_AREA_LAYERS
                &&& ras.wf()
                &&& ras.spec_width() == doc.width
                &&& ras.spec_height() == doc.height
                &&& forall|x: int, y: int|
                    0 <= x < doc.width && 0 <= y < doc.height ==> grid_px(ras.grid(), x, y)
                        == collision_px(
                        kept_grids(doc.groups@[role_index(Role::Walls)].layers@, Role::Walls),
                        kept_area_grids(doc.groups@[role_index(Role::Areas)].layers@),
                        cfg.character_half_width as int,
                        cfg.character_half_height as int,
                        doc.width as int,
                        doc.height as int,
                        x,
                        y,
                    )
            },
            Err(e) => match e {
                BakeError::MissingGroup(role) => {
                    ||| (role == Role::Walls && doc.groups@.len() <= role_index(Role::Walls))
                    ||| (role == Role::Areas && role_index(Role::Walls) < doc.groups@.len()
                        <= role_index(Role::Areas))
                },
                BakeError::UnknownAreaType(bi) => {
                    let layers = doc.groups@[role_index(Role::Areas)].layers@;
                    &&& doc.groups@.len() > role_index(Role::Areas)
                    &&& 0 <= bi < layers.len()
                    &&& role_keeps(Role::Areas, layers[bi as int].visible)
                    &&& area_type_of_name(layers[bi as int].name@) is None
                    &&& forall|j: int|
                        0 <= j < bi && role_keeps(Role::Areas, (#[trigger] layers[j]).visible)
                            ==> area_type_of_name(layers[j].name@) is Some
                },
                BakeError::TooManyAreaLayers(c) => {
                    let layers = doc.groups@[role_index(Role::Areas)].layers@;
                    &&& doc.groups@.len() > role_index(Role::Areas)
                    &&& area_names_ok(layers)
                    &&& c as int == kept_area_grids(layers).len()
                    &&& c > MAX_AREA_LAYERS
                },
            },
        },
{
    let walls_group = match locate_group(doc, Role::Walls) {
        Some(g) => g,
        None => {
            return Err(BakeError::MissingGroup(Role::Walls));
        },
    };
    let area_group = match locate_group(doc, Role::Areas) {
        Some(g) => g,
        None => {
            return Err(BakeError::MissingGroup(Role::Areas));
        },
    };
    let area_stack = match build_area_stack(area_group, doc.width, doc.height) {
        Ok(stack) => stack,
        Err(e) => {
            return Err(e);
        },
    };
    if area_stack.len() > MAX_AREA_LAYERS {
        return Err(BakeError::TooManyAreaLayers(area_stack.len()));
    }
    let walls_stack = build_stack(walls_group, Role::Walls, doc.width, doc.height);
    let mut raster = rasterize_occupancy(
        &walls_stack,
        cfg.character_half_width,
        cfg.character_half_height,
        doc.width,
        doc.height,
    );
    let ghost occ_grid = raster.grid();
    resolve_areas(&mut raster, &area_stack);
    proof {
        let walls = kept_grids(doc.groups@[role_index(Role::Walls)].layers@, Role::Walls);
        let areas = kept_area_grids(doc.groups@[role_index(Role::Areas)].layers@);
        assert forall|x: int, y: int| 0 <= x < doc.width && 0 <= y < doc.height implies grid_px(
            raster.grid(),
            x,
            y,
        ) == collision_px(
            walls,
            areas,
            cfg.character_half_width as int,
            cfg.character_half_height as int,
            doc.width as int,
            doc.height as int,
            x,
            y,
        ) by {
            assert(grid_px(raster.grid(), x, y) == area_cell_px(
                grid_px(occ_grid, x, y),
                resolved_at(areas, x, y),
            ));
            if blocked_at(
                walls,
                cfg.character_half_width as int,
                cfg.character_half_height as int,
                doc.width as int,
                doc.height as int,
                x,
                y,
            ) {
                assert(grid_px(occ_grid, x, y) == blocked_px());
            } else {
                assert(grid_px(occ_grid, x, y) == clear_px());
            }
        }
    }
    Ok(raster)
}

/// Area gating: a pixel the occupancy pass marks blocked keeps the blocked
/// mark, whose rank channel is 0 — it is never assigned a non-zero area
/// rank, whatever the area stack holds.
pub proof fn lemma_area_gating(
    walls: Seq<Grid>,
    areas: Seq<(AreaType, Grid)>,
    hw: int,
    hh: int,
    w: int,
    h: int,
    x: int,
    y: int,
)
    requires
        blocked_at(walls, hw, hh, w, h, x, y),
    ensures
        collision_px(walls, areas, hw, hh, w, h, x, y) == blocked_px(),
        collision_px(walls, areas, hw, hh, w, h, x, y).r == 0,
{
}

} // verus!
