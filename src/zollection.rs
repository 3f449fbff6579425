use vstd::bytes::{lemma_auto_spec_u32_to_from_le_bytes, spec_u32_to_le_bytes, u32_to_le_bytes};
use vstd::prelude::*;
use vstd::slice::slice_subrange;

use crate::bounding_box::{
    bbox_of, box_or_origin, enc_box, fold_points, lemma_fold_box_append, BoundingBox,
};
use crate::coord::Coord;
use crate::error::EncodeError;
use crate::geometry::{flatten_first, flatten_geometry_collection, Buckets, Geometry};
use crate::multi::{
    enc_multi, flat, fold_parts, header_len, lemma_multi_round_trip, multi_fits, multi_ok,
    offset_of, read_u32, seqs_of, u32_at, write_multi,
};
use crate::simple::{box_at, enc_simple, lemma_enc_box, lemma_simple_round_trip, simple_len, simple_ok, write_simple};
use crate::zulti_lines::ZultiLines;
use crate::zulti_points::ZultiPoints;
use crate::zulti_polygons::ZultiPolygons;

verus! {

/// Every coordinate of the three buckets, points first, then lines, then polygons.
pub open spec fn all_coords(b: Buckets) -> Seq<Coord> {
    b.points + flat(b.lines) + flat(b.polygons)
}

/// Length of the encoded line strings' region.
pub open spec fn multi_len(parts: Seq<Seq<Coord>>) -> int {
    header_len(parts.len()) + offset_of(parts, parts.len() as int)
}

/// The encoding of a flattened collection: the box of every coordinate, the
/// end of the points' region, the end of the lines' region, then the three
/// regions.
pub open spec fn enc_collection(b: Buckets) -> Seq<u8> {
    let ep = enc_simple(b.points);
    let el = enc_multi(b.lines);
    enc_box(bbox_of(all_coords(b))) + spec_u32_to_le_bytes(ep.len() as u32)
        + spec_u32_to_le_bytes((ep.len() + el.len()) as u32) + ep + el + enc_multi(b.polygons)
}

/// The buckets can be encoded: both multi regions fit, and so do both region ends.
pub open spec fn collection_fits(b: Buckets) -> bool {
    &&& multi_fits(b.lines)
    &&& multi_fits(b.polygons)
    &&& simple_len(b.points) + multi_len(b.lines) <= u32::MAX
}

/// End of the points' region, from the start of the regions.
pub open spec fn points_end(b: Seq<u8>) -> int {
    u32_at(b, 32) as int
}

/// End of the lines' region, from the start of the regions.
pub open spec fn lines_end(b: Seq<u8>) -> int {
    u32_at(b, 36) as int
}

pub open spec fn points_bytes(b: Seq<u8>) -> Seq<u8> {
    b.subrange(40, 40 + points_end(b))
}

pub open spec fn lines_bytes(b: Seq<u8>) -> Seq<u8> {
    b.subrange(40 + points_end(b), 40 + lines_end(b))
}

pub open spec fn polygons_bytes(b: Seq<u8>) -> Seq<u8> {
    b.subrange(40 + lines_end(b), b.len() as int)
}

/// The bytes have the shape of a collection payload.
pub open spec fn collection_ok(b: Seq<u8>) -> bool {
    &&& b.len() >= 40
    &&& points_end(b) <= lines_end(b) <= b.len() - 40
    &&& simple_ok(points_bytes(b))
    &&& multi_ok(lines_bytes(b))
    &&& multi_ok(polygons_bytes(b))
}

/// A view over a geometry collection, flattened into its points, line strings
/// and polygons; neither the nesting nor the kind of each member is kept.
#[derive(Debug, Clone, Copy)]
pub struct Zollection<'a> {
    pub bounding_box: BoundingBox,
    pub points: ZultiPoints<'a>,
    pub lines: ZultiLines<'a>,
    pub polygons: ZultiPolygons<'a>,
}

impl<'a> Zollection<'a> {
    /// The view reads well-formed regions.
    pub open spec fn wf(self) -> bool {
        self.lines.wf() && self.polygons.wf()
    }

    /// The view decoded from `data`.
    pub open spec fn denotes(self, data: Seq<u8>) -> bool {
        &&& self.bounding_box == box_at(data, 0)
        &&& self.points.denotes(points_bytes(data))
        &&& self.lines.denotes(lines_bytes(data))
        &&& self.polygons.denotes(polygons_bytes(data))
    }

    pub fn new(
        bounding_box: BoundingBox,
        points: ZultiPoints<'a>,
        lines: ZultiLines<'a>,
        polygons: ZultiPolygons<'a>,
    ) -> (r: Self)
        ensures
            r == (Zollection { bounding_box, points, lines, polygons }),
    {
        Zollection { bounding_box, points, lines, polygons }
    }

    /// Reads a collection payload; `None` when its region ends or any region
    /// do not match the bytes.
    pub fn from_bytes(data: &'a [u8]) -> (r: Option<Self>)
        ensures
            r is Some <==> collection_ok(data@),
            r matches Some(v) ==> v.denotes(data@) && v.wf(),
    {
        let len = data.len();
        if len < 40 {
            return None;
        }
        let p = read_u32(data, 32) as usize;
        let l = read_u32(data, 36) as usize;
        if p > l || l > len - 40 {
            return None;
        }
        let points = ZultiPoints::from_bytes(slice_subrange(data, 40, 40 + p));
        let lines = ZultiLines::from_bytes(slice_subrange(data, 40 + p, 40 + l));
        let polygons = ZultiPolygons::from_bytes(slice_subrange(data, 40 + l, len));
        match (points, lines, polygons) {
            (Some(points), Some(lines), Some(polygons)) => {
                let bounding_box = BoundingBox::read_at(data, 0);
                Some(Zollection { bounding_box, points, lines, polygons })
            },
            _ => None,
        }
    }

    /// Flattens `items` and appends the collection's payload; see
    /// [`write_buckets`].
    pub fn write_from_geometry(writer: &mut Vec<u8>, items: &Vec<Geometry>) -> (r: Result<
        (),
        EncodeError,
    >)
        ensures
            r is Ok <==> collection_fits(flatten_first(items@, items@.len() as int)),
            r is Ok ==> final(writer)@ == old(writer)@ + enc_collection(
                flatten_first(items@, items@.len() as int),
            ),
            r is Err ==> final(writer)@ == old(writer)@,
    {
        let (points, lines, polygons) = flatten_geometry_collection(items);
        let ghost b = flatten_first(items@, items@.len() as int);
        assert(b == Buckets { points: points@, lines: seqs_of(lines@), polygons: seqs_of(polygons@) });
        write_buckets(writer, &points, &lines, &polygons)
    }

    pub fn bounding_box(&self) -> (r: BoundingBox)
        ensures
            r == self.bounding_box,
    {
        self.bounding_box
    }

    /// The number of points, line strings and polygons together.
    pub fn len(&self) -> (r: usize)
        requires
            self.wf(),
            self.points@.len() + self.lines@.len() + self.polygons@.len() <= usize::MAX,
        ensures
            r == self.points@.len() + self.lines@.len() + self.polygons@.len(),
    {
        self.points.len() + self.lines.len() + self.polygons.len()
    }

    pub fn is_empty(&self) -> (r: bool)
        requires
            self.wf(),
        ensures
            r == (self.points@.len() + self.lines@.len() + self.polygons@.len() == 0),
    {
        self.points.is_empty() && self.lines.is_empty() && self.polygons.is_empty()
    }

    pub fn points(&self) -> (r: ZultiPoints<'a>)
        ensures
            r == self.points,
    {
        self.points
    }

    pub fn lines(&self) -> (r: ZultiLines<'a>)
        ensures
            r == self.lines,
    {
        self.lines
    }

    pub fn polygons(&self) -> (r: ZultiPolygons<'a>)
        ensures
            r == self.polygons,
    {
        self.polygons
    }
}

/// Appends the payload of a flattened collection: the box of every coordinate,
/// the two region ends, then the points, the line strings and the polygons.
/// Nothing is written, and `TooLarge` comes back, when a count, an offset or a
/// region end would not fit in a `u32`.
pub fn write_buckets(
    writer: &mut Vec<u8>,
    points: &Vec<Coord>,
    lines: &Vec<Vec<Coord>>,
    polygons: &Vec<Vec<Coord>>,
) -> (r: Result<(), EncodeError>)
    ensures
        ({
            let b = Buckets { points: points@, lines: seqs_of(lines@), polygons: seqs_of(polygons@) };
            &&& r is Ok <==> collection_fits(b)
            &&& r is Ok ==> final(writer)@ == old(writer)@ + enc_collection(b)
            &&& r is Err ==> final(writer)@ == old(writer)@
        }),
{
    let ghost b = Buckets { points: points@, lines: seqs_of(lines@), polygons: seqs_of(polygons@) };
    let mut body: Vec<u8> = Vec::new();
    write_simple(&mut body, points.as_slice());
    let p_end = body.len();
    proof {
        lemma_simple_round_trip(points@);
    }
    match write_multi(&mut body, lines.as_slice()) {
        Ok(()) => {},
        Err(e) => {
            return Err(e);
        },
    }
    let l_end = body.len();
    proof {
        lemma_multi_round_trip(b.lines);
    }
    match write_multi(&mut body, polygons.as_slice()) {
        Ok(()) => {},
        Err(e) => {
            return Err(e);
        },
    }
    if l_end > 0xFFFF_FFFF {
        return Err(EncodeError::TooLarge);
    }
    let acc = fold_points(None, points.as_slice());
    let acc = fold_parts(acc, lines.as_slice());
    let acc = fold_parts(acc, polygons.as_slice());
    proof {
        lemma_fold_box_append(None, points@, flat(b.lines));
        lemma_fold_box_append(None, points@ + flat(b.lines), flat(b.polygons));
    }
    let bb = box_or_origin(acc);
    let ghost start = writer@;
    bb.write(writer);
    let mut p_bytes = u32_to_le_bytes(p_end as u32);
    writer.append(&mut p_bytes);
    let mut l_bytes = u32_to_le_bytes(l_end as u32);
    writer.append(&mut l_bytes);
    writer.append(&mut body);
    assert(writer@ =~= start + enc_collection(b));
    Ok(())
}

/// A collection's payload reads back as its three buckets, under the box of
/// all their coordinates.
pub proof fn lemma_collection_round_trip(b: Buckets)
    requires
        collection_fits(b),
    ensures
        collection_ok(enc_collection(b)),
        box_at(enc_collection(b), 0) == bbox_of(all_coords(b)),
        points_bytes(enc_collection(b)) == enc_simple(b.points),
        lines_bytes(enc_collection(b)) == enc_multi(b.lines),
        polygons_bytes(enc_collection(b)) == enc_multi(b.polygons),
{
    lemma_auto_spec_u32_to_from_le_bytes();
    lemma_simple_round_trip(b.points);
    lemma_multi_round_trip(b.lines);
    lemma_multi_round_trip(b.polygons);
    let ep = enc_simple(b.points);
    let el = enc_multi(b.lines);
    let eq = enc_multi(b.polygons);
    let c1 = spec_u32_to_le_bytes(ep.len() as u32);
    let c2 = spec_u32_to_le_bytes((ep.len() + el.len()) as u32);
    let e = enc_collection(b);
    lemma_enc_box(bbox_of(all_coords(b)), c1 + c2 + ep + el + eq);
    assert(e =~= enc_box(bbox_of(all_coords(b))) + (c1 + c2 + ep + el + eq));
    assert(e.subrange(32, 36) =~= c1);
    assert(e.subrange(36, 40) =~= c2);
    assert(points_end(e) == ep.len());
    assert(lines_end(e) == ep.len() + el.len());
    assert(points_bytes(e) =~= ep);
    assert(lines_bytes(e) =~= el);
    assert(polygons_bytes(e) =~= eq);
}

} // verus!
