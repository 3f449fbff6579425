use vstd::prelude::*;

use crate::bounding_box::{enc_coord, write_coord};
use crate::coord::{coord_at, Coord, COORD_SIZE_IN_BYTES};

verus! {

/// A point: one coordinate.
#[derive(Debug, Clone, Copy, PartialEq, Eq, Structural)]
pub struct Zoint {
    pub coord: Coord,
}

impl Zoint {
    pub fn new(coord: Coord) -> (r: Self)
        ensures
            r.coord == coord,
    {
        Zoint { coord }
    }

    /// Reads a point from its 16 encoded bytes; `None` for any other length.
    pub fn from_bytes(data: &[u8]) -> (r: Option<Self>)
        ensures
            r is Some <==> data@.len() == 16,
            r matches Some(p) ==> p.coord == coord_at(data@, 0),
    {
        if data.len() != COORD_SIZE_IN_BYTES {
            return None;
        }
        Some(Zoint { coord: Coord::from_bytes(data) })
    }

    /// Appends the 16 bytes of the point.
    pub fn write_from_geometry(writer: &mut Vec<u8>, point: Coord)
        ensures
            final(writer)@ == old(writer)@ + enc_coord(point),
    {
        write_coord(writer, point);
    }

    pub fn coord(&self) -> (r: Coord)
        ensures
            r == self.coord,
    {
        self.coord
    }

    /// The latitude.
    pub fn lat(&self) -> (r: u64)
        ensures
            r == self.coord.y,
    {
        self.coord.y
    }

    /// The longitude.
    pub fn lng(&self) -> (r: u64)
        ensures
            r == self.coord.x,
    {
        self.coord.x
    }

    pub fn x(&self) -> (r: u64)
        ensures
            r == self.coord.x,
    {
        self.coord.x
    }

    pub fn y(&self) -> (r: u64)
        ensures
            r == self.coord.y,
    {
        self.coord.y
    }
}

} // verus!
