//! The packed cell encoding of the collision raster: the area rank in the
//! first channel, the area-type tag in the second, a full-alpha mark in the
//! last. Rank 0 with full alpha is how a blocked pixel reads back.

use vstd::prelude::*;

use crate::area::{area_type_from_tag, tag_of, AreaType};
use crate::px::Px;

verus! {

/// The pixel that encodes an area cell: rank, tag, 0, 255.
pub open spec fn encoded_cell(rank: u8, t: AreaType) -> Px {
    Px { r: rank, g: tag_of(t), b: 0, a: 255 }
}

/// The cell a pixel decodes to: `Some((rank, kind))` for a written cell
/// with a recognized tag, `None` for an unset pixel or an unknown tag.
pub open spec fn decoded_cell(p: Px) -> Option<(u8, AreaType)> {
    if p.a == 255 {
        match area_type_from_tag(p.g) {
            Some(t) => Some((p.r, t)),
            None => None,
        }
    } else {
        None
    }
}

/// Pack an area rank and kind into one raster pixel.
pub fn encode_cell(rank: u8, t: AreaType) -> (p: Px)
    ensures
        p == encoded_cell(rank, t),
{
    Px { r: rank, g: t.tag(), b: 0, a: 255 }
}

/// Read an area rank and kind back out of a raster pixel.
pub fn decode_cell(p: Px) -> (r: Option<(u8, AreaType)>)
    ensures
        r == decoded_cell(p),
{
    if p.a == 255 {
        match AreaType::from_tag(p.g) {
            Some(t) => Some((p.r, t)),
            None => None,
        }
    } else {
        None
    }
}

/// Round-trip decode: decoding an encoded cell yields exactly the rank and
/// kind that were encoded.
pub proof fn lemma_cell_round_trip(rank: u8, t: AreaType)
    ensures
        decoded_cell(encoded_cell(rank, t)) == Some((rank, t)),
{
}

} // verus!
