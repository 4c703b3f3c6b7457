//! The parsed document as the baking engine sees it: groups of named
//! layers, each with a raw visibility flag and a full-size pixel buffer.

use vstd::prelude::*;

use crate::raster::{grids_of, stack_wf, Grid, Raster};

verus! {

/// One image plane of a document group.
pub struct Layer {
    /// The layer's name as authored; area layers are classified by it.
    pub name: String,
    /// The visibility flag exactly as read from the container.
    pub visible: bool,
    /// The layer's pixels, at the document's full dimensions.
    pub pixels: Raster,
}

/// An ordered collection of layers, processed as a unit.
pub struct Group {
    pub layers: Vec<Layer>,
}

/// A parsed layered document: its dimensions and its top-level groups in
/// authoring order.
pub struct Document {
    pub width: usize,
    pub height: usize,
    pub groups: Vec<Group>,
}

/// Per-level parameters: the half-extents, in pixels, of the movable
/// actor's footprint, by which the collision pass dilates the walls.
#[derive(Clone, Copy, PartialEq, Eq, Structural, Debug)]
pub struct LevelConfig {
    pub character_half_width: usize,
    pub character_half_height: usize,
}

/// The three semantic groups, found at fixed positions of the document's
/// group order.
#[derive(Clone, Copy, PartialEq, Eq, Structural, Debug)]
pub enum Role {
    Walls,
    Areas,
    Background,
}

/// The fixed position of each semantic group.
pub open spec fn role_index(role: Role) -> int {
    match role {
        Role::Walls => 0,
        Role::Areas => 1,
        Role::Background => 2,
    }
}

/// Whether a layer whose container flag reads `visible` belongs to a
/// role's stack. The flag is inverted for the walls and background groups
/// (a quirk of the upstream container) and read at face value for the area
/// group.
pub open spec fn role_keeps(role: Role, visible: bool) -> bool {
    match role {
        Role::Areas => visible,
        _ => !visible,
    }
}

impl Role {
    /// The fixed position of this semantic group.
    pub fn index(self) -> (i: usize)
        ensures
            i as int == role_index(self),
    {
        match self {
            Role::Walls => 0,
            Role::Areas => 1,
            Role::Background => 2,
        }
    }

    /// Whether a layer with raw flag `visible` belongs to this role's stack.
    pub fn keeps(self, visible: bool) -> (b: bool)
        ensures
            b == role_keeps(self, visible),
    {
        match self {
            Role::Areas => visible,
            _ => !visible,
        }
    }
}

/// Every layer of the group carries a well-formed buffer of dimensions
/// `w` x `h`.
pub open spec fn group_wf(group: Group, w: int, h: int) -> bool {
    forall|l: int|
        0 <= l < group.layers@.len() ==> {
            &&& (#[trigger] group.layers@[l]).pixels.wf()
            &&& group.layers@[l].pixels.spec_width() == w
            &&& group.layers@[l].pixels.spec_height() == h
        }
}

/// Every layer of every group matches the document's dimensions.
pub open spec fn doc_wf(doc: Document) -> bool {
    forall|g: int|
        0 <= g < doc.groups@.len() ==> group_wf(
            #[trigger] doc.groups@[g],
            doc.width as int,
            doc.height as int,
        )
}

/// The grids of the layers a role keeps, in stored (bottom-to-top) order.
pub open spec fn kept_grids(layers: Seq<Layer>, role: Role) -> Seq<Grid>
    decreases layers.len(),
{
    if layers.len() == 0 {
        Seq::empty()
    } else {
        let rest = kept_grids(layers.drop_last(), role);
        if role_keeps(role, layers.last().visible) {
            rest.push(layers.last().pixels.grid())
        } else {
            rest
        }
    }
}

/// The group at a role's fixed position, or `None` when the document has
/// too few groups.
pub fn locate_group<'a>(doc: &'a Document, role: Role) -> (r: Option<&'a Group>)
    ensures
        match r {
            Some(g) => role_index(role) < doc.groups@.len() && *g == doc.groups@[role_index(role)],
            None => doc.groups@.len() <= role_index(role),
        },
{
    let i = role.index();
    if i < doc.groups.len() {
        Some(&doc.groups[i])
    } else {
        None
    }
}

/// Build a role's layer stack: the pixel buffers of the layers the role's
/// visibility predicate keeps, in their stored order.
pub fn build_stack(group: &Group, role: Role, width: usize, height: usize) -> (r: Vec<Raster>)
    requires
        group_wf(*group, width as int, height as int),
    ensures
        stack_wf(r@, width as int, height as int),
        grids_of(r@) == kept_grids(group.layers@, role),
        r@.len() <= group.layers@.len(),
{
    let mut out: Vec<Raster> = Vec::new();
    let mut i: usize = 0;
    proof {
        assert(grids_of(out@) =~= kept_grids(group.layers@.take(0), role));
    }
    while i < group.layers.len()
        invariant
            group_wf(*group, width as int, height as int),
            i <= group.layers@.len(),
            out@.len() <= i,
            stack_wf(out@, width as int, height as int),
            grids_of(out@) == kept_grids(group.layers@.take(i as int), role),
        decreases group.layers@.len() - i,
    {
        let ghost pre = out@;
        let layer = &group.layers[i];
        if role.keeps(layer.visible) {
            out.push(layer.pixels.clone());
        }
        proof {
            let t = group.layers@.take(i + 1);
            assert(t.last() == group.layers@[i as int]);
            assert(t.drop_last() =~= group.layers@.take(i as int));
            if role_keeps(role, group.layers@[i as int].visible) {
                assert(grids_of(out@) =~= grids_of(pre).push(
                    group.layers@[i as int].pixels.grid(),
                ));
            }
        }
        i = i + 1;
    }
    proof {
        assert(group.layers@.take(group.layers@.len() as int) =~= group.layers@);
    }
    out
}

} // verus!
