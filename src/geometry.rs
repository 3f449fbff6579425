//! The geometries that the encoder takes, and the flattening of collections.
use vstd::prelude::*;
use vstd::slice::slice_to_vec;

use crate::coord::Coord;
use crate::multi::seqs_of;

verus! {

broadcast use vstd::std_specs::vec::axiom_vec_index_decreases,
    vstd::std_specs::vec::axiom_vec_decreases_to_view, vstd::seq::axiom_seq_index_decreases;

/// A geometry to encode. Line strings and polygon rings are lists of
/// coordinates; a polygon is given by its exterior ring alone.
#[derive(Debug)]
pub enum Geometry {
    Point(Coord),
    MultiPoint(Vec<Coord>),
    LineString(Vec<Coord>),
    MultiLineString(Vec<Vec<Coord>>),
    Polygon(Vec<Coord>),
    MultiPolygon(Vec<Vec<Coord>>),
    GeometryCollection(Vec<Geometry>),
}

/// The points, line strings and polygon rings that a geometry holds, each in
/// the order met when walking it depth first.
pub struct Buckets {
    pub points: Seq<Coord>,
    pub lines: Seq<Seq<Coord>>,
    pub polygons: Seq<Seq<Coord>>,
}

pub open spec fn no_buckets() -> Buckets {
    Buckets { points: Seq::empty(), lines: Seq::empty(), polygons: Seq::empty() }
}

pub open spec fn join(a: Buckets, b: Buckets) -> Buckets {
    Buckets {
        points: a.points + b.points,
        lines: a.lines + b.lines,
        polygons: a.polygons + b.polygons,
    }
}

/// What a geometry holds, nested collections merged into the three buckets.
pub open spec fn flatten(g: Geometry) -> Buckets
    decreases g,
{
    match g {
        Geometry::Point(c) => Buckets { points: seq![c], ..no_buckets() },
        Geometry::MultiPoint(v) => Buckets { points: v@, ..no_buckets() },
        Geometry::LineString(v) => Buckets { lines: seq![v@], ..no_buckets() },
        Geometry::MultiLineString(v) => Buckets { lines: seqs_of(v@), ..no_buckets() },
        Geometry::Polygon(v) => Buckets { polygons: seq![v@], ..no_buckets() },
        Geometry::MultiPolygon(v) => Buckets { polygons: seqs_of(v@), ..no_buckets() },
        Geometry::GeometryCollection(items) => flatten_first(items@, items@.len() as int),
    }
}

/// What the first `k` items hold, merged.
pub open spec fn flatten_first(items: Seq<Geometry>, k: int) -> Buckets
    decreases items, k,
{
    if k <= 0 || k > items.len() {
        no_buckets()
    } else {
        join(flatten_first(items, k - 1), flatten(items[k - 1]))
    }
}

/// Appends a copy of each part.
fn push_parts(out: &mut Vec<Vec<Coord>>, parts: &Vec<Vec<Coord>>)
    ensures
        seqs_of(final(out)@) == seqs_of(old(out)@) + seqs_of(parts@),
{
    let ghost start = seqs_of(out@);
    let mut i: usize = 0;
    while i < parts.len()
        invariant
            i <= parts@.len(),
            seqs_of(out@) == start + seqs_of(parts@).take(i as int),
        decreases parts@.len() - i,
    {
        let ghost before = out@;
        let v = slice_to_vec(parts[i].as_slice());
        out.push(v);
        assert(seqs_of(out@) =~= seqs_of(before).push(parts@[i as int]@));
        assert(seqs_of(out@) =~= start + seqs_of(parts@).take(i + 1));
        i = i + 1;
    }
    assert(seqs_of(parts@).take(parts@.len() as int) =~= seqs_of(parts@));
}

/// Appends what `g` holds to the three buckets.
pub fn flatten_into(
    g: &Geometry,
    points: &mut Vec<Coord>,
    lines: &mut Vec<Vec<Coord>>,
    polygons: &mut Vec<Vec<Coord>>,
)
    ensures
        final(points)@ == old(points)@ + flatten(*g).points,
        seqs_of(final(lines)@) == seqs_of(old(lines)@) + flatten(*g).lines,
        seqs_of(final(polygons)@) == seqs_of(old(polygons)@) + flatten(*g).polygons,
    decreases g,
{
    match g {
        Geometry::Point(c) => {
            points.push(*c);
            assert(seqs_of(lines@) =~= seqs_of(lines@) + Seq::<Seq<Coord>>::empty());
            assert(seqs_of(polygons@) =~= seqs_of(polygons@) + Seq::<Seq<Coord>>::empty());
        },
        Geometry::MultiPoint(v) => {
            let mut copy = slice_to_vec(v.as_slice());
            points.append(&mut copy);
            assert(seqs_of(lines@) =~= seqs_of(lines@) + Seq::<Seq<Coord>>::empty());
            assert(seqs_of(polygons@) =~= seqs_of(polygons@) + Seq::<Seq<Coord>>::empty());
        },
        Geometry::LineString(v) => {
            lines.push(slice_to_vec(v.as_slice()));
            assert(points@ =~= points@ + Seq::<Coord>::empty());
            assert(seqs_of(polygons@) =~= seqs_of(polygons@) + Seq::<Seq<Coord>>::empty());
            assert(seqs_of(lines@) =~= seqs_of(old(lines)@) + seq![v@]);
        },
        Geometry::MultiLineString(v) => {
            push_parts(lines, v);
            assert(points@ =~= points@ + Seq::<Coord>::empty());
            assert(seqs_of(polygons@) =~= seqs_of(polygons@) + Seq::<Seq<Coord>>::empty());
        },
        Geometry::Polygon(v) => {
            polygons.push(slice_to_vec(v.as_slice()));
            assert(points@ =~= points@ + Seq::<Coord>::empty());
            assert(seqs_of(lines@) =~= seqs_of(lines@) + Seq::<Seq<Coord>>::empty());
            assert(seqs_of(polygons@) =~= seqs_of(old(polygons)@) + seq![v@]);
        },
        Geometry::MultiPolygon(v) => {
            push_parts(polygons, v);
            assert(points@ =~= points@ + Seq::<Coord>::empty());
            assert(seqs_of(lines@) =~= seqs_of(lines@) + Seq::<Seq<Coord>>::empty());
        },
        Geometry::GeometryCollection(items) => {
            let ghost p0 = points@;
            let ghost l0 = seqs_of(lines@);
            let ghost q0 = seqs_of(polygons@);
            let mut i: usize = 0;
            while i < items.len()
                invariant
                    *g == Geometry::GeometryCollection(*items),
                    i <= items@.len(),
                    points@ == p0 + flatten_first(items@, i as int).points,
                    seqs_of(lines@) == l0 + flatten_first(items@, i as int).lines,
                    seqs_of(polygons@) == q0 + flatten_first(items@, i as int).polygons,
                decreases items@.len() - i,
            {
                proof {
                    assert(decreases_to!(*g => (*g)->GeometryCollection_0@[i as int]));
                }
                flatten_into(&items[i], points, lines, polygons);
                assert(points@ =~= p0 + flatten_first(items@, i + 1).points);
                assert(seqs_of(lines@) =~= l0 + flatten_first(items@, i + 1).lines);
                assert(seqs_of(polygons@) =~= q0 + flatten_first(items@, i + 1).polygons);
                i = i + 1;
            }
        },
    }
}

/// Flattens a collection into its points, line strings and polygon rings:
/// the nesting and the kind of each member are not kept.
pub fn flatten_geometry_collection(items: &Vec<Geometry>) -> (r: (
    Vec<Coord>,
    Vec<Vec<Coord>>,
    Vec<Vec<Coord>>,
))
    ensures
        r.0@ == flatten_first(items@, items@.len() as int).points,
        seqs_of(r.1@) == flatten_first(items@, items@.len() as int).lines,
        seqs_of(r.2@) == flatten_first(items@, items@.len() as int).polygons,
{
    let mut points: Vec<Coord> = Vec::new();
    let mut lines: Vec<Vec<Coord>> = Vec::new();
    let mut polygons: Vec<Vec<Coord>> = Vec::new();
    let mut i: usize = 0;
    while i < items.len()
        invariant
            i <= items@.len(),
            points@ == flatten_first(items@, i as int).points,
            seqs_of(lines@) == flatten_first(items@, i as int).lines,
            seqs_of(polygons@) == flatten_first(items@, i as int).polygons,
        decreases items@.len() - i,
    {
        flatten_into(&items[i], &mut points, &mut lines, &mut polygons);
        i = i + 1;
    }
    (points, lines, polygons)
}

} // verus!
