use vstd::prelude::*;

use crate::coord::{coord_at, Coord};
use crate::coords::Coords;

verus! {

/// The straight segment between two coordinates.
#[derive(Debug, Clone, Copy, PartialEq, Eq, Structural)]
pub struct Segment {
    pub start: Coord,
    pub end: Coord,
}

/// The segments between consecutive coordinates: `(s[0], s[1]), (s[1], s[2]), ...`.
pub open spec fn segments_of(s: Seq<Coord>) -> Seq<Segment> {
    Seq::new(
        if s.len() == 0 {
            0
        } else {
            (s.len() - 1) as nat
        },
        |i: int| Segment { start: s[i], end: s[i + 1] },
    )
}

impl Segment {
    /// Reads a segment from its 32 encoded bytes.
    pub fn from_bytes(data: &[u8]) -> (r: Self)
        requires
            data@.len() == 32,
        ensures
            r == (Segment { start: coord_at(data@, 0), end: coord_at(data@, 16) }),
    {
        Segment { start: Coord::read_at(data, 0), end: Coord::read_at(data, 16) }
    }

    /// The segment between the two coordinates of `coords`.
    pub fn from_coords(coords: &Coords) -> (r: Self)
        requires
            coords@.len() == 2,
        ensures
            r == (Segment { start: coords@[0], end: coords@[1] }),
    {
        Segment { start: coords.get(0), end: coords.get(1) }
    }

    pub fn from_coord_pair(start: Coord, end: Coord) -> (r: Self)
        ensures
            r == (Segment { start, end }),
    {
        Segment { start, end }
    }

    pub fn start(&self) -> (r: Coord)
        ensures
            r == self.start,
    {
        self.start
    }

    pub fn end(&self) -> (r: Coord)
        ensures
            r == self.end,
    {
        self.end
    }
}

impl<'a> Coords<'a> {
    /// The segments between consecutive coordinates, in order.
    pub fn consecutive_pairs(&self) -> (r: Vec<Segment>)
        ensures
            r@ == segments_of(self@),
    {
        consecutive_pairs(self)
    }
}

/// The segments between consecutive coordinates of `coords`, in order.
pub fn consecutive_pairs(coords: &Coords) -> (r: Vec<Segment>)
    ensures
        r@ == segments_of(coords@),
{
    let n = coords.len();
    let mut out: Vec<Segment> = Vec::new();
    if n == 0 {
        assert(out@ =~= segments_of(coords@));
        return out;
    }
    let mut i: usize = 0;
    while i + 1 < n
        invariant
            n == coords@.len(),
            n > 0,
            i + 1 <= n,
            out@ == segments_of(coords@).take(i as int),
        decreases n - i,
    {
        out.push(Segment { start: coords.get(i), end: coords.get(i + 1) });
        assert(out@ =~= segments_of(coords@).take(i + 1));
        i = i + 1;
    }
    assert(out@ =~= segments_of(coords@));
    out
}

} // verus!
