use vstd::prelude::*;

use crate::bounding_box::BoundingBox;
use crate::coord::Coord;
use crate::coords::Coords;
use crate::segment::{consecutive_pairs, segments_of, Segment};
use crate::simple::{box_at, enc_simple, read_simple, simple_coords, simple_ok, write_simple};

verus! {

/// A view over the encoding of a polygon without holes: the vertices of its exterior ring, the first repeated at the end.
#[derive(Debug, Clone, Copy)]
pub struct Zolygon<'a> {
    pub bounding_box: BoundingBox,
    pub coords: Coords<'a>,
}

impl<'a> View for Zolygon<'a> {
    type V = Seq<Coord>;

    open spec fn view(&self) -> Seq<Coord> {
        self.coords@
    }
}

impl<'a> Zolygon<'a> {
    /// The view decoded from `data`: its box and its coordinates.
    pub open spec fn denotes(self, data: Seq<u8>) -> bool {
        self.bounding_box == box_at(data, 0) && self@ == simple_coords(data)
    }

    pub fn new(bounding_box: BoundingBox, coords: Coords<'a>) -> (r: Self)
        ensures
            r.bounding_box == bounding_box,
            r@ == coords@,
    {
        Zolygon { bounding_box, coords }
    }

    /// Reads the payload in `data`; `None` when it is too short or does not
    /// hold a whole number of coordinates after the box.
    pub fn from_bytes(data: &'a [u8]) -> (r: Option<Self>)
        ensures
            r is Some <==> simple_ok(data@),
            r matches Some(v) ==> v.denotes(data@),
    {
        match read_simple(data) {
            Some((bounding_box, coords)) => Some(Zolygon { bounding_box, coords }),
            None => None,
        }
    }

    /// Appends the payload of `points`: their bounding box, then the points in order.
    pub fn write_from_geometry(writer: &mut Vec<u8>, points: &[Coord])
        ensures
            final(writer)@ == old(writer)@ + enc_simple(points@),
    {
        write_simple(writer, points);
    }

    pub fn bounding_box(&self) -> (r: BoundingBox)
        ensures
            r == self.bounding_box,
    {
        self.bounding_box
    }

    pub fn coords(&self) -> (r: Coords<'a>)
        ensures
            r@ == self@,
    {
        self.coords
    }

    /// The number of coordinates.
    pub fn len(&self) -> (r: usize)
        ensures
            r == self@.len(),
    {
        self.coords.len()
    }

    pub fn is_empty(&self) -> (r: bool)
        ensures
            r == (self@.len() == 0),
    {
        self.coords.is_empty()
    }

    /// The segments between consecutive coordinates.
    pub fn segments(&self) -> (r: Vec<Segment>)
        ensures
            r@ == segments_of(self@),
    {
        consecutive_pairs(&self.coords)
    }
}

} // verus!
