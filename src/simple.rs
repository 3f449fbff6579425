//! The payload shared by multi-points, line strings and polygons: a bounding box
//! followed by a run of coordinates.
use vstd::prelude::*;
use vstd::slice::slice_subrange;

use crate::bounding_box::{bbox_of, enc_box, enc_coord, BoundingBox, BOUNDING_BOX_SIZE_IN_BYTES};
use crate::coord::{coord_at, Coord};
use crate::coords::{
    coords_in, enc_coords, lemma_coord_at_prefix, lemma_coord_at_suffix, lemma_enc_coord,
    lemma_enc_coords, write_coords, Coords,
};

verus! {

/// The encoding of a run of coordinates with its bounding box in front.
#[verifier::opaque]
pub open spec fn enc_simple(s: Seq<Coord>) -> Seq<u8> {
    enc_box(bbox_of(s)) + enc_coords(s)
}

/// The length of that encoding.
pub open spec fn simple_len(s: Seq<Coord>) -> int {
    32 + 16 * s.len() as int
}

/// The bytes have the shape of such a payload.
pub open spec fn simple_ok(b: Seq<u8>) -> bool {
    b.len() >= 32 && (b.len() - 32) % 16 == 0
}

/// The box encoded at byte offset `off`.
pub open spec fn box_at(b: Seq<u8>, off: int) -> BoundingBox {
    BoundingBox { bottom_left: coord_at(b, off), top_right: coord_at(b, off + 16) }
}

/// The coordinates of such a payload.
pub open spec fn simple_coords(b: Seq<u8>) -> Seq<Coord> {
    coords_in(b.subrange(32, b.len() as int))
}

/// An encoded box reads back as itself.
pub proof fn lemma_enc_box(bb: BoundingBox, rest: Seq<u8>)
    ensures
        enc_box(bb).len() == 32,
        box_at(enc_box(bb) + rest, 0) == bb,
{
    lemma_enc_coord(bb.bottom_left);
    lemma_enc_coord(bb.top_right);
    let e = enc_box(bb);
    lemma_coord_at_prefix(enc_coord(bb.bottom_left), enc_coord(bb.top_right), 0);
    lemma_coord_at_suffix(enc_coord(bb.bottom_left), enc_coord(bb.top_right), 0);
    lemma_coord_at_prefix(e, rest, 0);
    lemma_coord_at_prefix(e, rest, 16);
}

/// A payload reads back as the box and the coordinates it was written from.
pub proof fn lemma_simple_round_trip(s: Seq<Coord>)
    ensures
        enc_simple(s).len() == simple_len(s),
        simple_ok(enc_simple(s)),
        box_at(enc_simple(s), 0) == bbox_of(s),
        simple_coords(enc_simple(s)) == s,
{
    reveal(enc_simple);
    lemma_enc_box(bbox_of(s), enc_coords(s));
    lemma_enc_coords(s);
    let e = enc_simple(s);
    assert(e.subrange(32, e.len() as int) =~= enc_coords(s));
}

/// Appends the payload of `points`: their box, then the points in order.
pub fn write_simple(writer: &mut Vec<u8>, points: &[Coord])
    ensures
        final(writer)@ == old(writer)@ + enc_simple(points@),
{
    BoundingBox::write_from_geometry(writer, points);
    write_coords(writer, points);
    reveal(enc_simple);
    assert(final(writer)@ =~= old(writer)@ + enc_simple(points@));
}

/// Reads the payload in `data`, if the bytes have its shape.
pub fn read_simple<'a>(data: &'a [u8]) -> (r: Option<(BoundingBox, Coords<'a>)>)
    ensures
        r is Some <==> simple_ok(data@),
        r matches Some((bb, c)) ==> bb == box_at(data@, 0) && c.data@ == data@.subrange(
            32,
            data@.len() as int,
        ),
{
    let len = data.len();
    if len < BOUNDING_BOX_SIZE_IN_BYTES || (len - BOUNDING_BOX_SIZE_IN_BYTES) % 16 != 0 {
        return None;
    }
    let bb = BoundingBox::read_at(data, 0);
    let coords = Coords::from_bytes(slice_subrange(data, BOUNDING_BOX_SIZE_IN_BYTES, len));
    Some((bb, coords))
}

} // verus!
