use vstd::bytes::{lemma_auto_spec_u64_to_from_le_bytes, spec_u64_to_le_bytes};
use vstd::prelude::*;

use crate::bounding_box::{enc_coord, write_coord};
use crate::coord::{coord_at, u64_at, Coord, COORD_SIZE_IN_BYTES};

verus! {

/// The encoding of a run of coordinates, one after the other.
pub open spec fn enc_coords(s: Seq<Coord>) -> Seq<u8>
    decreases s.len(),
{
    if s.len() == 0 {
        Seq::empty()
    } else {
        enc_coords(s.drop_last()) + enc_coord(s.last())
    }
}

/// The coordinates that a run of bytes holds, 16 bytes each.
pub open spec fn coords_in(b: Seq<u8>) -> Seq<Coord> {
    Seq::new((b.len() / 16) as nat, |i: int| coord_at(b, 16 * i))
}

/// A view over a run of encoded coordinates.
#[derive(Debug, Clone, Copy)]
pub struct Coords<'a> {
    pub data: &'a [u8],
}

impl<'a> View for Coords<'a> {
    type V = Seq<Coord>;

    open spec fn view(&self) -> Seq<Coord> {
        coords_in(self.data@)
    }
}

/// Appends the encoding of each coordinate of `points`, in order.
pub fn write_coords(writer: &mut Vec<u8>, points: &[Coord])
    ensures
        final(writer)@ == old(writer)@ + enc_coords(points@),
{
    let ghost start = writer@;
    let mut i: usize = 0;
    while i < points.len()
        invariant
            i <= points@.len(),
            writer@ == start + enc_coords(points@.take(i as int)),
        decreases points@.len() - i,
    {
        assert(points@.take(i + 1).drop_last() =~= points@.take(i as int));
        write_coord(writer, points[i]);
        assert(writer@ =~= start + enc_coords(points@.take(i + 1)));
        i = i + 1;
    }
    assert(points@.take(points@.len() as int) =~= points@);
}

/// Reading a `u64` back from the front of a longer run gives the run's own value.
pub proof fn lemma_u64_at_prefix(p: Seq<u8>, q: Seq<u8>, off: int)
    requires
        0 <= off,
        off + 8 <= p.len(),
    ensures
        u64_at(p + q, off) == u64_at(p, off),
{
    assert((p + q).subrange(off, off + 8) =~= p.subrange(off, off + 8));
}

/// Reading a coordinate within the front of a longer run.
pub proof fn lemma_coord_at_prefix(p: Seq<u8>, q: Seq<u8>, off: int)
    requires
        0 <= off,
        off + 16 <= p.len(),
    ensures
        coord_at(p + q, off) == coord_at(p, off),
{
    lemma_u64_at_prefix(p, q, off);
    lemma_u64_at_prefix(p, q, off + 8);
}

/// Reading a coordinate within the back of a longer run.
pub proof fn lemma_coord_at_suffix(p: Seq<u8>, q: Seq<u8>, off: int)
    requires
        0 <= off,
        off + 16 <= q.len(),
    ensures
        coord_at(p + q, p.len() + off) == coord_at(q, off),
{
    assert((p + q).subrange(p.len() + off, p.len() + off + 8) =~= q.subrange(off, off + 8));
    assert((p + q).subrange(p.len() + off + 8, p.len() + off + 16) =~= q.subrange(
        off + 8,
        off + 16,
    ));
}

/// An encoded coordinate reads back as itself.
pub proof fn lemma_enc_coord(c: Coord)
    ensures
        enc_coord(c).len() == 16,
        coord_at(enc_coord(c), 0) == c,
{
    lemma_auto_spec_u64_to_from_le_bytes();
    let b = enc_coord(c);
    assert(b.subrange(0, 8) =~= spec_u64_to_le_bytes(c.x));
    assert(b.subrange(8, 16) =~= spec_u64_to_le_bytes(c.y));
}

/// Encoded coordinates read back as themselves.
pub proof fn lemma_enc_coords(s: Seq<Coord>)
    ensures
        enc_coords(s).len() == 16 * s.len(),
        coords_in(enc_coords(s)) == s,
    decreases s.len(),
{
    if s.len() > 0 {
        let p = s.drop_last();
        lemma_enc_coords(p);
        lemma_enc_coord(s.last());
        let e = enc_coords(s);
        assert forall|i: int| 0 <= i < s.len() implies coord_at(e, 16 * i) == s[i] by {
            if i < p.len() {
                lemma_coord_at_prefix(enc_coords(p), enc_coord(s.last()), 16 * i);
                assert(coords_in(enc_coords(p))[i] == p[i]);
            } else {
                lemma_coord_at_suffix(enc_coords(p), enc_coord(s.last()), 0);
            }
        }
        assert(coords_in(e) =~= s);
    }
}

impl<'a> Coords<'a> {
    /// A view over `data`, which must hold a whole number of coordinates.
    pub fn from_bytes(data: &'a [u8]) -> (r: Self)
        requires
            data@.len() % 16 == 0,
        ensures
            r.data@ == data@,
    {
        Coords { data }
    }

    /// The number of coordinates.
    pub fn len(&self) -> (r: usize)
        ensures
            r == self@.len(),
    {
        self.data.len() / COORD_SIZE_IN_BYTES
    }

    pub fn is_empty(&self) -> (r: bool)
        ensures
            r == (self@.len() == 0),
    {
        self.len() == 0
    }

    /// The coordinate at `index`.
    pub fn get(&self, index: usize) -> (r: Coord)
        requires
            index < self@.len(),
        ensures
            r == self@[index as int],
    {
        let len = self.data.len();
        assert(index * 16 + 16 <= len) by (nonlinear_arith)
            requires
                index < len / 16,
        ;
        Coord::read_at(self.data, index * COORD_SIZE_IN_BYTES)
    }

    /// The coordinates, copied out in order.
    pub fn to_vec(&self) -> (r: Vec<Coord>)
        ensures
            r@ == self@,
    {
        let n = self.len();
        let mut out: Vec<Coord> = Vec::new();
        let mut i: usize = 0;
        while i < n
            invariant
                n == self@.len(),
                i <= n,
                out@ == self@.take(i as int),
            decreases n - i,
        {
            out.push(self.get(i));
            assert(out@ =~= self@.take(i + 1));
            i = i + 1;
        }
        assert(self@.take(n as int) =~= self@);
        out
    }
}

} // verus!
