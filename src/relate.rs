//! The relation engine: how any two decoded geometries stand to each other.
//!
//! Every answer here is built from bounding-box tests, which this crate decides
//! itself, and from segment-intersection tests, which it asks of a
//! [`SegmentIntersection`]. Each relation is stated exactly as a spec function
//! of the test's answers (`meets`), and soundness holds whatever they are.
use vstd::prelude::*;

use crate::bounding_box::{
    box_contains, lemma_placement_antisymmetric, placement, BoundingBox, Placement,
};
use crate::coord::{next_down, next_down_bits, Coord};
use crate::relation::{answers, strict_implies_plain, InputRelation, OutputRelation};
use crate::segment::{segments_of, Segment};
use crate::zerometry::Zerometry;
use crate::zine::Zine;
use crate::zoint::Zoint;
use crate::zollection::Zollection;
use crate::zolygon::Zolygon;
use crate::zulti_lines::ZultiLines;
use crate::zulti_points::ZultiPoints;
use crate::zulti_polygons::ZultiPolygons;

verus! {

/// Decides whether two segments meet; shared endpoints and overlapping
/// collinear segments count as meeting. The answer depends on the two segments
/// alone.
pub trait SegmentIntersection {
    /// Whether the two segments meet, as this test decides it.
    spec fn meets(&self, a: Segment, b: Segment) -> bool;

    fn intersects(&self, a: &Segment, b: &Segment) -> (r: bool)
        ensures
            r == self.meets(*a, *b),
    ;
}

/// Some segment of `a` meets some segment of `b`.
pub open spec fn any_meet<O: SegmentIntersection>(o: O, a: Seq<Segment>, b: Seq<Segment>) -> bool {
    exists|i: int, j: int| 0 <= i < a.len() && 0 <= j < b.len() && o.meets(a[i], b[j])
}

/// How many of `segs` meet `ray`.
pub open spec fn meet_count<O: SegmentIntersection>(o: O, segs: Seq<Segment>, ray: Segment) -> nat
    decreases segs.len(),
{
    if segs.len() == 0 {
        0
    } else {
        meet_count(o, segs.drop_last(), ray) + if o.meets(segs.last(), ray) {
            1nat
        } else {
            0nat
        }
    }
}

/// The horizontal ray cast to `c`: from one step left of the box's left edge,
/// at the latitude of `c`, to `c`.
pub open spec fn ray_to(bb: BoundingBox, c: Coord) -> Segment {
    Segment { start: Coord { x: next_down(bb.bottom_left.x), y: c.y }, end: c }
}

/// The even-odd rule: `c` lies inside the ring (with box `bb`) when the ring is
/// not empty, `c` lies in the box, and the ray to `c` meets an odd number of
/// the ring's edges.
pub open spec fn inside_ring<O: SegmentIntersection>(
    o: O,
    bb: BoundingBox,
    ring: Seq<Coord>,
    c: Coord,
) -> bool {
    ring.len() > 0 && box_contains(bb, c) && meet_count(o, segments_of(ring), ray_to(bb, c)) % 2
        == 1
}

/// Either shape is empty, or their boxes are disjoint.
pub open spec fn apart(a: Seq<Coord>, abb: BoundingBox, b: Seq<Coord>, bbb: BoundingBox) -> bool {
    a.len() == 0 || b.len() == 0 || placement(abb, bbb) == Placement::Disjoint
}

/// The relation of two line strings.
pub open spec fn line_line<O: SegmentIntersection>(
    o: O,
    abb: BoundingBox,
    a: Seq<Coord>,
    bbb: BoundingBox,
    b: Seq<Coord>,
    req: InputRelation,
) -> OutputRelation {
    if apart(a, abb, b, bbb) {
        disjoint_answer(req)
    } else {
        crossing_answer_spec(any_meet(o, segments_of(a), segments_of(b)), req)
    }
}

/// The relation of a line string to a polygon.
pub open spec fn line_polygon<O: SegmentIntersection>(
    o: O,
    abb: BoundingBox,
    a: Seq<Coord>,
    pbb: BoundingBox,
    p: Seq<Coord>,
    req: InputRelation,
) -> OutputRelation {
    if apart(a, abb, p, pbb) {
        disjoint_answer(req)
    } else {
        line_polygon_answer_spec(
            any_meet(o, segments_of(a), segments_of(p)),
            inside_ring(o, pbb, p, a[0]),
            req,
        )
    }
}

/// The relation of a polygon to another.
pub open spec fn polygon_polygon<O: SegmentIntersection>(
    o: O,
    abb: BoundingBox,
    a: Seq<Coord>,
    bbb: BoundingBox,
    b: Seq<Coord>,
    req: InputRelation,
) -> OutputRelation {
    if apart(a, abb, b, bbb) {
        disjoint_answer(req)
    } else {
        polygons_answer_spec(
            any_meet(o, segments_of(a), segments_of(b)),
            inside_ring(o, bbb, b, a[0]),
            inside_ring(o, abb, a, b[0]),
            req,
        )
    }
}

/// The running answer of a composite relation after the members' answers
/// `rs`, and whether it stopped early: each answer is OR-combined in turn, and
/// with early exit the combination stops once a relation besides `disjoint`
/// shows.
pub open spec fn fold_answers(acc: OutputRelation, rs: Seq<OutputRelation>, early: bool) -> (
    OutputRelation,
    bool,
)
    decreases rs.len(),
{
    if rs.len() == 0 {
        (acc, false)
    } else {
        let prev = fold_answers(acc, rs.drop_last(), early);
        if prev.1 {
            prev
        } else {
            let next = prev.0.spec_or(rs.last());
            (next, early && next.spec_any_relation())
        }
    }
}

/// How many answers have `contains` holding.
pub open spec fn count_contains(rs: Seq<OutputRelation>) -> nat
    decreases rs.len(),
{
    if rs.len() == 0 {
        0
    } else {
        count_contains(rs.drop_last()) + if rs.last().contains == Some(true) {
            1nat
        } else {
            0nat
        }
    }
}

/// How many answers have `contained` holding.
pub open spec fn count_contained(rs: Seq<OutputRelation>) -> nat
    decreases rs.len(),
{
    if rs.len() == 0 {
        0
    } else {
        count_contained(rs.drop_last()) + if rs.last().contained == Some(true) {
            1nat
        } else {
            0nat
        }
    }
}

/// A composite relation over the members' answers `rs`: folded from the
/// all-false answer, returned as it stands when it stopped early, else
/// concluded with the strict flags that the caller's counts decide.
pub open spec fn composite(
    req: InputRelation,
    rs: Seq<OutputRelation>,
    all_contain: bool,
    all_contained: bool,
) -> OutputRelation {
    let f = fold_answers(OutputRelation::spec_all_false(req), rs, req.early_exit);
    if f.1 {
        f.0
    } else {
        conclude_spec(f.0, all_contain, all_contained)
    }
}

/// No shape holds anything to relate: one of them is empty, or their boxes are
/// disjoint.
pub open spec fn apart_n(na: nat, abb: BoundingBox, nb: nat, bbb: BoundingBox) -> bool {
    na == 0 || nb == 0 || placement(abb, bbb) == Placement::Disjoint
}

/// The request for members' answers that a composite combines: the plain
/// flags only, without `disjoint`.
pub open spec fn plain_request(req: InputRelation) -> InputRelation {
    InputRelation { strict_contains: false, strict_contained: false, disjoint: false, ..req }
}

/// The request without `disjoint`.
pub open spec fn undisjoint(req: InputRelation) -> InputRelation {
    InputRelation { disjoint: false, ..req }
}

/// The request without `disjoint` nor `strict_contained`.
pub open spec fn polygon_member_request(req: InputRelation) -> InputRelation {
    InputRelation { disjoint: false, strict_contained: false, ..req }
}

/// The members' answers of a double loop, row after row.
pub open spec fn flatten_rows(rows: Seq<Seq<OutputRelation>>) -> Seq<OutputRelation>
    decreases rows.len(),
{
    if rows.len() == 0 {
        Seq::empty()
    } else {
        flatten_rows(rows.drop_last()) + rows.last()
    }
}

/// The relation of a polygon to the points of a multi-point.
pub open spec fn polygon_points<O: SegmentIntersection>(
    o: O,
    bb: BoundingBox,
    ring: Seq<Coord>,
    pbb: BoundingBox,
    pts: Seq<Coord>,
    req: InputRelation,
) -> OutputRelation {
    let rs = Seq::new(
        pts.len(),
        |k: int| point_answer_spec(inside_ring(o, bb, ring, pts[k]), plain_request(req)),
    );
    if apart_n(ring.len(), bb, pts.len(), pbb) {
        disjoint_answer(req)
    } else {
        composite(req, rs, count_contains(rs) == pts.len(), false)
    }
}

/// The relation of a multi-polygon to a coordinate.
pub open spec fn multi_polygon_point<O: SegmentIntersection>(
    o: O,
    z: ZultiPolygons,
    c: Coord,
    req: InputRelation,
) -> OutputRelation {
    if z@.len() == 0 || !box_contains(z.multi.bounding_box, c) {
        disjoint_answer(req)
    } else {
        point_answer_spec(
            exists|i: int| 0 <= i < z@.len() && inside_ring(o, z.multi.member_box(i), z@[i], c),
            req,
        )
    }
}

/// The members' answers of a multi-polygon about the points of a multi-point.
pub open spec fn multi_polygon_points_rows<O: SegmentIntersection>(
    o: O,
    z: ZultiPolygons,
    pts: Seq<Coord>,
    req: InputRelation,
) -> Seq<Seq<OutputRelation>> {
    Seq::new(
        z@.len(),
        |i: int|
            Seq::new(
                pts.len(),
                |k: int|
                    point_answer_spec(
                        inside_ring(o, z.multi.member_box(i), z@[i], pts[k]),
                        plain_request(req),
                    ),
            ),
    )
}

/// The relation of a multi-polygon to a multi-point.
pub open spec fn multi_polygon_points<O: SegmentIntersection>(
    o: O,
    z: ZultiPolygons,
    pbb: BoundingBox,
    pts: Seq<Coord>,
    req: InputRelation,
) -> OutputRelation {
    let f = flatten_rows(multi_polygon_points_rows(o, z, pts, req));
    if apart_n(z@.len(), z.multi.bounding_box, pts.len(), pbb) {
        disjoint_answer(req)
    } else {
        composite(req, f, count_contains(f) == pts.len(), false)
    }
}

/// The members' answers of a multi-polygon about a polygon.
pub open spec fn multi_polygon_polygon_answers<O: SegmentIntersection>(
    o: O,
    z: ZultiPolygons,
    pbb: BoundingBox,
    p: Seq<Coord>,
    req: InputRelation,
) -> Seq<OutputRelation> {
    Seq::new(
        z@.len(),
        |i: int|
            polygon_polygon(o, z.multi.member_box(i), z@[i], pbb, p, polygon_member_request(req)),
    )
}

/// The relation of a multi-polygon to a polygon.
pub open spec fn multi_polygon_polygon<O: SegmentIntersection>(
    o: O,
    z: ZultiPolygons,
    pbb: BoundingBox,
    p: Seq<Coord>,
    req: InputRelation,
) -> OutputRelation {
    let rs = multi_polygon_polygon_answers(o, z, pbb, p, req);
    if apart_n(z@.len(), z.multi.bounding_box, p.len(), pbb) {
        disjoint_answer(req)
    } else {
        composite(req, rs, false, count_contained(rs) == z@.len())
    }
}

/// The members' answers of a multi-polygon about another, pair by pair.
pub open spec fn multi_polygons_rows<O: SegmentIntersection>(
    o: O,
    a: ZultiPolygons,
    b: ZultiPolygons,
    req: InputRelation,
) -> Seq<Seq<OutputRelation>> {
    Seq::new(
        a@.len(),
        |i: int|
            Seq::new(
                b@.len(),
                |j: int|
                    polygon_polygon(
                        o,
                        a.multi.member_box(i),
                        a@[i],
                        b.multi.member_box(j),
                        b@[j],
                        plain_request(req),
                    ),
            ),
    )
}

/// The relation of a multi-polygon to another.
pub open spec fn multi_polygon_multi_polygon<O: SegmentIntersection>(
    o: O,
    a: ZultiPolygons,
    b: ZultiPolygons,
    req: InputRelation,
) -> OutputRelation {
    let f = flatten_rows(multi_polygons_rows(o, a, b, req));
    if apart_n(a@.len(), a.multi.bounding_box, b@.len(), b.multi.bounding_box) {
        disjoint_answer(req)
    } else {
        composite(req, f, count_contains(f) == b@.len(), count_contained(f) == a@.len())
    }
}

/// The members' answers of a line string about the polygons of a multi-polygon.
pub open spec fn line_multi_polygon_answers<O: SegmentIntersection>(
    o: O,
    lbb: BoundingBox,
    l: Seq<Coord>,
    z: ZultiPolygons,
    req: InputRelation,
) -> Seq<OutputRelation> {
    Seq::new(
        z@.len(),
        |i: int| line_polygon(o, lbb, l, z.multi.member_box(i), z@[i], undisjoint(req)),
    )
}

/// The relation of a line string to a multi-polygon.
pub open spec fn line_multi_polygon<O: SegmentIntersection>(
    o: O,
    lbb: BoundingBox,
    l: Seq<Coord>,
    z: ZultiPolygons,
    req: InputRelation,
) -> OutputRelation {
    if apart_n(l.len(), lbb, z@.len(), z.multi.bounding_box) {
        disjoint_answer(req)
    } else {
        composite(req, line_multi_polygon_answers(o, lbb, l, z, req), false, false)
    }
}

/// The relation of a multi-line-string to a line string.
pub open spec fn multi_line_line<O: SegmentIntersection>(
    o: O,
    z: ZultiLines,
    lbb: BoundingBox,
    l: Seq<Coord>,
    req: InputRelation,
) -> OutputRelation {
    if apart_n(z@.len(), z.multi.bounding_box, l.len(), lbb) {
        disjoint_answer(req)
    } else {
        crossing_answer_spec(
            exists|i: int|
                0 <= i < z@.len() && any_meet(o, segments_of(z@[i]), segments_of(l)),
            req,
        )
    }
}

/// The relation of a multi-line-string to another.
pub open spec fn multi_line_multi_line<O: SegmentIntersection>(
    o: O,
    a: ZultiLines,
    b: ZultiLines,
    req: InputRelation,
) -> OutputRelation {
    if apart_n(a@.len(), a.multi.bounding_box, b@.len(), b.multi.bounding_box) {
        disjoint_answer(req)
    } else {
        crossing_answer_spec(
            exists|i: int, j: int|
                0 <= i < a@.len() && 0 <= j < b@.len() && any_meet(
                    o,
                    segments_of(a@[i]),
                    segments_of(b@[j]),
                ),
            req,
        )
    }
}

/// The members' answers of a multi-line-string about a polygon.
pub open spec fn multi_line_polygon_answers<O: SegmentIntersection>(
    o: O,
    z: ZultiLines,
    pbb: BoundingBox,
    p: Seq<Coord>,
    req: InputRelation,
) -> Seq<OutputRelation> {
    Seq::new(
        z@.len(),
        |i: int| line_polygon(o, z.multi.member_box(i), z@[i], pbb, p, plain_request(req)),
    )
}

/// The relation of a multi-line-string to a polygon.
pub open spec fn multi_line_polygon<O: SegmentIntersection>(
    o: O,
    z: ZultiLines,
    pbb: BoundingBox,
    p: Seq<Coord>,
    req: InputRelation,
) -> OutputRelation {
    let rs = multi_line_polygon_answers(o, z, pbb, p, req);
    if apart_n(z@.len(), z.multi.bounding_box, p.len(), pbb) {
        disjoint_answer(req)
    } else {
        composite(req, rs, false, count_contained(rs) == z@.len())
    }
}

/// The members' answers of a multi-line-string about a multi-polygon.
pub open spec fn multi_line_multi_polygon_rows<O: SegmentIntersection>(
    o: O,
    a: ZultiLines,
    b: ZultiPolygons,
    req: InputRelation,
) -> Seq<Seq<OutputRelation>> {
    Seq::new(
        a@.len(),
        |i: int|
            Seq::new(
                b@.len(),
                |j: int|
                    line_polygon(
                        o,
                        a.multi.member_box(i),
                        a@[i],
                        b.multi.member_box(j),
                        b@[j],
                        plain_request(req),
                    ),
            ),
    )
}

/// The relation of a multi-line-string to a multi-polygon.
pub open spec fn multi_line_multi_polygon<O: SegmentIntersection>(
    o: O,
    a: ZultiLines,
    b: ZultiPolygons,
    req: InputRelation,
) -> OutputRelation {
    let f = flatten_rows(multi_line_multi_polygon_rows(o, a, b, req));
    if apart_n(a@.len(), a.multi.bounding_box, b@.len(), b.multi.bounding_box) {
        disjoint_answer(req)
    } else {
        composite(req, f, false, count_contained(f) == a@.len())
    }
}

/// The rows so far are a prefix of all the rows, once flattened.
pub proof fn lemma_flatten_rows_prefix(rows: Seq<Seq<OutputRelation>>, i: int)
    requires
        0 <= i <= rows.len(),
    ensures
        flatten_rows(rows.take(i)).len() <= flatten_rows(rows).len(),
        flatten_rows(rows).take(flatten_rows(rows.take(i)).len() as int) == flatten_rows(
            rows.take(i),
        ),
    decreases rows.len(),
{
    if i == rows.len() {
        assert(rows.take(i) =~= rows);
        assert(flatten_rows(rows).take(flatten_rows(rows).len() as int) =~= flatten_rows(rows));
    } else {
        let d = rows.drop_last();
        assert(rows.take(i) =~= d.take(i));
        lemma_flatten_rows_prefix(d, i);
        let a = flatten_rows(d);
        let b = flatten_rows(rows.take(i));
        assert(flatten_rows(rows) == a + rows.last());
        assert((a + rows.last()).take(b.len() as int) =~= a.take(b.len() as int));
    }
}

/// One row more, flattened.
pub proof fn lemma_flatten_rows_step(rows: Seq<Seq<OutputRelation>>, i: int)
    requires
        0 <= i < rows.len(),
    ensures
        flatten_rows(rows.take(i + 1)) == flatten_rows(rows.take(i)) + rows[i],
{
    assert(rows.take(i + 1).drop_last() =~= rows.take(i));
}

/// Counting never exceeds the number of answers.
pub proof fn lemma_count_bounds(rs: Seq<OutputRelation>)
    ensures
        count_contains(rs) <= rs.len(),
        count_contained(rs) <= rs.len(),
    decreases rs.len(),
{
    if rs.len() > 0 {
        lemma_count_bounds(rs.drop_last());
    }
}

/// The relation between two geometries, neither of them a collection: the
/// per-kind relation, read the other way round (flags swapped in the request
/// and the answer) for pairs that are computed from the other side; a point,
/// or a line and a point, relate as disjoint.
pub open spec fn parts_relation<O: SegmentIntersection>(
    o: O,
    a: Zerometry,
    b: Zerometry,
    req: InputRelation,
) -> OutputRelation {
    let sw = req.swapped();
    match (a, b) {
        (Zerometry::Point(p), Zerometry::Polygon(q)) => point_answer_spec(
            inside_ring(o, q.bounding_box, q@, p.coord),
            sw,
        ).swapped(),
        (Zerometry::Point(p), Zerometry::MultiPolygon(q)) => multi_polygon_point(
            o,
            q,
            p.coord,
            sw,
        ).swapped(),
        (Zerometry::MultiPoints(p), Zerometry::Polygon(q)) => polygon_points(
            o,
            q.bounding_box,
            q@,
            p.bounding_box,
            p@,
            sw,
        ).swapped(),
        (Zerometry::MultiPoints(p), Zerometry::MultiPolygon(q)) => multi_polygon_points(
            o,
            q,
            p.bounding_box,
            p@,
            sw,
        ).swapped(),
        (Zerometry::Line(l), Zerometry::Line(m)) => line_line(
            o,
            l.bounding_box,
            l@,
            m.bounding_box,
            m@,
            req,
        ),
        (Zerometry::Line(l), Zerometry::MultiLines(m)) => multi_line_line(
            o,
            m,
            l.bounding_box,
            l@,
            req,
        ),
        (Zerometry::Line(l), Zerometry::Polygon(q)) => line_polygon(
            o,
            l.bounding_box,
            l@,
            q.bounding_box,
            q@,
            req,
        ),
        (Zerometry::Line(l), Zerometry::MultiPolygon(q)) => line_multi_polygon(
            o,
            l.bounding_box,
            l@,
            q,
            req,
        ),
        (Zerometry::MultiLines(l), Zerometry::Line(m)) => multi_line_line(
            o,
            l,
            m.bounding_box,
            m@,
            req,
        ),
        (Zerometry::MultiLines(l), Zerometry::MultiLines(m)) => multi_line_multi_line(o, l, m, req),
        (Zerometry::MultiLines(l), Zerometry::Polygon(q)) => multi_line_polygon(
            o,
            l,
            q.bounding_box,
            q@,
            req,
        ),
        (Zerometry::MultiLines(l), Zerometry::MultiPolygon(q)) => multi_line_multi_polygon(
            o,
            l,
            q,
            req,
        ),
        (Zerometry::Polygon(q), Zerometry::Point(p)) => point_answer_spec(
            inside_ring(o, q.bounding_box, q@, p.coord),
            req,
        ),
        (Zerometry::Polygon(q), Zerometry::MultiPoints(p)) => polygon_points(
            o,
            q.bounding_box,
            q@,
            p.bounding_box,
            p@,
            req,
        ),
        (Zerometry::Polygon(q), Zerometry::Line(l)) => line_polygon(
            o,
            l.bounding_box,
            l@,
            q.bounding_box,
            q@,
            sw,
        ).swapped(),
        (Zerometry::Polygon(q), Zerometry::MultiLines(l)) => multi_line_polygon(
            o,
            l,
            q.bounding_box,
            q@,
            sw,
        ).swapped(),
        (Zerometry::Polygon(q), Zerometry::Polygon(p)) => polygon_polygon(
            o,
            q.bounding_box,
            q@,
            p.bounding_box,
            p@,
            req,
        ),
        (Zerometry::Polygon(q), Zerometry::MultiPolygon(p)) => multi_polygon_polygon(
            o,
            p,
            q.bounding_box,
            q@,
            sw,
        ).swapped(),
        (Zerometry::MultiPolygon(q), Zerometry::Point(p)) => multi_polygon_point(
            o,
            q,
            p.coord,
            req,
        ),
        (Zerometry::MultiPolygon(q), Zerometry::MultiPoints(p)) => multi_polygon_points(
            o,
            q,
            p.bounding_box,
            p@,
            req,
        ),
        (Zerometry::MultiPolygon(q), Zerometry::Line(l)) => line_multi_polygon(
            o,
            l.bounding_box,
            l@,
            q,
            sw,
        ).swapped(),
        (Zerometry::MultiPolygon(q), Zerometry::MultiLines(l)) => multi_line_multi_polygon(
            o,
            l,
            q,
            sw,
        ).swapped(),
        (Zerometry::MultiPolygon(q), Zerometry::Polygon(p)) => multi_polygon_polygon(
            o,
            q,
            p.bounding_box,
            p@,
            req,
        ),
        (Zerometry::MultiPolygon(q), Zerometry::MultiPolygon(p)) => multi_polygon_multi_polygon(
            o,
            q,
            p,
            req,
        ),
        _ => disjoint_answer(req),
    }
}

/// A collection's three parts, as geometries.
pub open spec fn collection_parts<'a>(c: Zollection<'a>) -> Seq<Zerometry<'a>> {
    seq![
        Zerometry::MultiPoints(c.points),
        Zerometry::MultiLines(c.lines),
        Zerometry::MultiPolygon(c.polygons),
    ]
}

/// The answers of a collection's three parts about a geometry.
pub open spec fn collection_answers<O: SegmentIntersection>(
    o: O,
    c: Zollection,
    b: Zerometry,
    req: InputRelation,
) -> Seq<OutputRelation> {
    Seq::new(3, |i: int| parts_relation(o, collection_parts(c)[i], b, undisjoint(req)))
}

/// The relation of a collection to a geometry that is not one: the answers of
/// its points, line strings and polygons, combined.
pub open spec fn collection_relation<O: SegmentIntersection>(
    o: O,
    c: Zollection,
    b: Zerometry,
    req: InputRelation,
) -> OutputRelation {
    composite(req, collection_answers(o, c, b, req), false, false)
}

/// The answers of a collection's three parts about another collection.
pub open spec fn collections_answers<O: SegmentIntersection>(
    o: O,
    c: Zollection,
    d: Zollection,
    req: InputRelation,
) -> Seq<OutputRelation> {
    Seq::new(
        3,
        |i: int| collection_relation(o, d, collection_parts(c)[i], undisjoint(req).swapped()).swapped(),
    )
}

/// The relation between any two geometries.
pub open spec fn zerometry_relation<O: SegmentIntersection>(
    o: O,
    a: Zerometry,
    b: Zerometry,
    req: InputRelation,
) -> OutputRelation {
    match (a, b) {
        (Zerometry::Collection(c), Zerometry::Collection(d)) => composite(
            req,
            collections_answers(o, c, d, req),
            false,
            false,
        ),
        (Zerometry::Collection(c), _) => collection_relation(o, c, b, req),
        (_, Zerometry::Collection(d)) => collection_relation(o, d, a, req.swapped()).swapped(),
        _ => parts_relation(o, a, b, req),
    }
}

/// Once the fold has stopped, later answers change nothing.
pub proof fn lemma_fold_stopped(acc: OutputRelation, rs: Seq<OutputRelation>, k: int, early: bool)
    requires
        0 <= k <= rs.len(),
        fold_answers(acc, rs.take(k), early).1,
    ensures
        fold_answers(acc, rs, early) == fold_answers(acc, rs.take(k), early),
    decreases rs.len() - k,
{
    if k < rs.len() {
        assert(rs.take(k + 1).drop_last() =~= rs.take(k));
        lemma_fold_stopped(acc, rs, k + 1, early);
    } else {
        assert(rs.take(k) =~= rs);
    }
}

/// One more member answer extends a fold that has not stopped.
pub proof fn lemma_fold_step(acc: OutputRelation, rs: Seq<OutputRelation>, i: int, early: bool)
    requires
        0 <= i < rs.len(),
    ensures
        rs.take(i + 1).drop_last() == rs.take(i),
        fold_answers(acc, rs.take(i + 1), early) == (if fold_answers(acc, rs.take(i), early).1 {
            fold_answers(acc, rs.take(i), early)
        } else {
            let next = fold_answers(acc, rs.take(i), early).0.spec_or(rs[i]);
            (next, early && next.spec_any_relation())
        }),
        count_contains(rs.take(i + 1)) == count_contains(rs.take(i)) + if rs[i].contains == Some(
            true,
        ) {
            1nat
        } else {
            0nat
        },
        count_contained(rs.take(i + 1)) == count_contained(rs.take(i)) + if rs[i].contained
            == Some(true) {
            1nat
        } else {
            0nat
        },
{
    assert(rs.take(i + 1).drop_last() =~= rs.take(i));
}


/// The answer that reports the shapes disjoint.
pub open spec fn disjoint_answer(req: InputRelation) -> OutputRelation {
    OutputRelation::spec_all_false(req).spec_with_disjoint()
}

/// The answer that reports strict containment of the second shape.
pub open spec fn contains_answer(req: InputRelation) -> OutputRelation {
    OutputRelation::spec_all_false(req).spec_with_strict_contains()
}

/// The answer that reports the first shape strictly contained in the second.
pub open spec fn contained_answer(req: InputRelation) -> OutputRelation {
    OutputRelation::spec_all_false(req).spec_with_strict_contained()
}

/// The answer that reports the shapes crossing.
pub open spec fn intersect_answer(req: InputRelation) -> OutputRelation {
    OutputRelation::spec_all_false(req).spec_with_intersect()
}

/// `disjoint` never holds together with another relation.
pub open spec fn consistent(r: OutputRelation) -> bool {
    r.disjoint == Some(true) ==> !r.spec_any_relation()
}

/// Every flag asked for is set, a strict flag never holds without its plain
/// one, and `disjoint` never holds together with another relation.
pub open spec fn sound(r: OutputRelation, req: InputRelation) -> bool {
    answers(r, req) && strict_implies_plain(r) && consistent(r)
}

/// Neither the contains, the strict contains nor the intersect flag holds:
/// what a shape without an interior can answer.
pub open spec fn covers_nothing(r: OutputRelation) -> bool {
    r.contains != Some(true) && r.strict_contains != Some(true) && r.intersect != Some(true)
}

/// Neither the contains nor the strict contains flag holds: what a line can
/// answer about an areal shape.
pub open spec fn contains_nothing(r: OutputRelation) -> bool {
    r.contains != Some(true) && r.strict_contains != Some(true)
}

/// The answer about a coordinate: strict containment when it lies inside.
pub open spec fn point_answer_spec(inside: bool, req: InputRelation) -> OutputRelation {
    if inside {
        contains_answer(req)
    } else {
        disjoint_answer(req)
    }
}

/// The answer of two non-empty shapes with overlapping boxes, from whether
/// their edges cross.
pub open spec fn crossing_answer_spec(crossing: bool, req: InputRelation) -> OutputRelation {
    if crossing {
        intersect_answer(req)
    } else {
        disjoint_answer(req)
    }
}

/// The answer of a line string about a polygon, from whether their edges cross
/// and whether the line's first vertex lies inside the polygon.
pub open spec fn line_polygon_answer_spec(
    crossing: bool,
    first_inside: bool,
    req: InputRelation,
) -> OutputRelation {
    if crossing {
        intersect_answer(req)
    } else if first_inside {
        contained_answer(req)
    } else {
        disjoint_answer(req)
    }
}

/// The answer of a polygon about another, from whether their edges cross, and
/// whether a vertex of the first lies inside the second, or one of the second
/// inside the first.
pub open spec fn polygons_answer_spec(
    crossing: bool,
    inside_other: bool,
    holds_other: bool,
    req: InputRelation,
) -> OutputRelation {
    if crossing {
        intersect_answer(req)
    } else if inside_other {
        contained_answer(req)
    } else if holds_other {
        contains_answer(req)
    } else {
        disjoint_answer(req)
    }
}

/// The end of a composite relation: strict containment raised where every
/// member took part, then `disjoint` raised when no relation was found.
pub open spec fn conclude_spec(
    output: OutputRelation,
    all_contain: bool,
    all_contained: bool,
) -> OutputRelation {
    let a = if all_contain {
        output.spec_with_strict_contains()
    } else {
        output
    };
    let b = if all_contained {
        a.spec_with_strict_contained()
    } else {
        a
    };
    if b.spec_any_relation() {
        b
    } else {
        b.spec_with_disjoint()
    }
}

/// The answer about a coordinate, from whether it lies inside.
pub fn point_answer(inside: bool, relation: InputRelation) -> (r: OutputRelation)
    ensures
        r == point_answer_spec(inside, relation),
{
    if inside {
        relation.to_false().make_strict_contains_if_set()
    } else {
        relation.to_false().make_disjoint_if_set()
    }
}

/// The answer of two shapes from whether their edges cross.
pub fn crossing_answer(crossing: bool, relation: InputRelation) -> (r: OutputRelation)
    ensures
        r == crossing_answer_spec(crossing, relation),
{
    if crossing {
        relation.to_false().make_intersect_if_set()
    } else {
        relation.to_false().make_disjoint_if_set()
    }
}

/// The answer of a line string about a polygon; see [`line_polygon_answer_spec`].
pub fn line_polygon_answer(crossing: bool, first_inside: bool, relation: InputRelation) -> (r:
    OutputRelation)
    ensures
        r == line_polygon_answer_spec(crossing, first_inside, relation),
{
    if crossing {
        relation.to_false().make_intersect_if_set()
    } else if first_inside {
        relation.to_false().make_strict_contained_if_set()
    } else {
        relation.to_false().make_disjoint_if_set()
    }
}

/// The answer of a polygon about another; see [`polygons_answer_spec`].
pub fn polygons_answer(
    crossing: bool,
    inside_other: bool,
    holds_other: bool,
    relation: InputRelation,
) -> (r: OutputRelation)
    ensures
        r == polygons_answer_spec(crossing, inside_other, holds_other, relation),
{
    if crossing {
        relation.to_false().make_intersect_if_set()
    } else if inside_other {
        relation.to_false().make_strict_contained_if_set()
    } else if holds_other {
        relation.to_false().make_strict_contains_if_set()
    } else {
        relation.to_false().make_disjoint_if_set()
    }
}

/// One step of a composite relation: the running answer combined with a
/// member's answer, and whether the computation stops there, which it does
/// when early exit was asked and some relation besides `disjoint` shows.
pub fn absorb(output: OutputRelation, member: OutputRelation, relation: InputRelation) -> (r: (
    OutputRelation,
    bool,
))
    ensures
        r.0 == output.spec_or(member),
        r.1 == (relation.early_exit && output.spec_or(member).spec_any_relation()),
{
    let combined = output.union(member);
    let stop = relation.early_exit && combined.any_relation();
    (combined, stop)
}

/// The end of a composite relation; see [`conclude_spec`].
pub fn conclude(output: OutputRelation, all_contain: bool, all_contained: bool) -> (r:
    OutputRelation)
    ensures
        r == conclude_spec(output, all_contain, all_contained),
{
    let mut out = output;
    if all_contain {
        out = out.make_strict_contains_if_set();
    }
    if all_contained {
        out = out.make_strict_contained_if_set();
    }
    if out.any_relation() {
        out
    } else {
        out.make_disjoint_if_set()
    }
}

/// Combining a sound running answer with a sub-answer that asked for no strict flag.
proof fn lemma_or_sound(a: OutputRelation, b: OutputRelation, req: InputRelation, sub: InputRelation)
    requires
        sound(a, req),
        a.disjoint != Some(true),
        sound(b, sub),
        !sub.strict_contains,
        !sub.strict_contained,
        !sub.disjoint,
    ensures
        sound(a.spec_or(b), req),
        a.spec_or(b).disjoint != Some(true),
{
}

/// Combining a sound running answer with a sub-answer that asked for the same
/// plain containment flags.
proof fn lemma_or_sound_strict(
    a: OutputRelation,
    b: OutputRelation,
    req: InputRelation,
    sub: InputRelation,
)
    requires
        sound(a, req),
        a.disjoint != Some(true),
        sound(b, sub),
        sub.contains == req.contains,
        sub.contained == req.contained,
        !sub.disjoint,
    ensures
        sound(a.spec_or(b), req),
        a.spec_or(b).disjoint != Some(true),
{
}

/// Some segment of `a` meets some segment of `b`.
pub fn any_crossing<O: SegmentIntersection>(a: &Vec<Segment>, b: &Vec<Segment>, o: &O) -> (r:
    bool)
    ensures
        r == any_meet(*o, a@, b@),
{
    let mut i: usize = 0;
    while i < a.len()
        invariant
            i <= a@.len(),
            forall|p: int, q: int| 0 <= p < i && 0 <= q < b@.len() ==> !o.meets(a@[p], b@[q]),
        decreases a@.len() - i,
    {
        let mut j: usize = 0;
        while j < b.len()
            invariant
                i < a@.len(),
                j <= b@.len(),
                forall|p: int, q: int| 0 <= p < i && 0 <= q < b@.len() ==> !o.meets(a@[p], b@[q]),
                forall|q: int| 0 <= q < j ==> !o.meets(a@[i as int], b@[q]),
            decreases b@.len() - j,
        {
            if o.intersects(&a[i], &b[j]) {
                return true;
            }
            j = j + 1;
        }
        i = i + 1;
    }
    false
}

/// Ray casting: a horizontal ray runs from a point just left of the polygon's
/// box to the coordinate, and the coordinate is inside when the ray meets an odd
/// number of the ring's edges. An empty polygon, or a coordinate outside the
/// box, is never inside.
pub fn ring_contains<O: SegmentIntersection>(polygon: &Zolygon, coord: &Coord, o: &O) -> (r: bool)
    ensures
        r == inside_ring(*o, polygon.bounding_box, polygon@, *coord),
{
    if polygon.is_empty() || !polygon.bounding_box.contains_coord(coord) {
        return false;
    }
    let start = Coord { x: next_down_bits(polygon.bounding_box.left()), y: coord.y };
    let ray = Segment { start, end: *coord };
    let segments = polygon.segments();
    let mut crossings: usize = 0;
    let mut i: usize = 0;
    while i < segments.len()
        invariant
            i <= segments@.len(),
            crossings <= i,
            crossings == meet_count(*o, segments@.take(i as int), ray),
        decreases segments@.len() - i,
    {
        assert(segments@.take(i + 1).drop_last() =~= segments@.take(i as int));
        if o.intersects(&segments[i], &ray) {
            crossings = crossings + 1;
        }
        i = i + 1;
    }
    assert(segments@.take(segments@.len() as int) =~= segments@);
    crossings % 2 == 1
}

impl<'a> Zolygon<'a> {
    /// A polygon strictly contains a coordinate inside its ring, and is
    /// disjoint from any other.
    pub fn relation_to_coord<O: SegmentIntersection>(
        &self,
        coord: &Coord,
        relation: InputRelation,
        o: &O,
    ) -> (r: OutputRelation)
        ensures
            sound(r, relation),
            r == point_answer_spec(inside_ring(*o, self.bounding_box, self@, *coord), relation),
            self@.len() == 0 || !box_contains(self.bounding_box, *coord) ==> r == disjoint_answer(
                relation,
            ),
    {
        point_answer(ring_contains(self, coord, o), relation)
    }

    pub fn relation_to_zoint<O: SegmentIntersection>(
        &self,
        other: &Zoint,
        relation: InputRelation,
        o: &O,
    ) -> (r: OutputRelation)
        ensures
            sound(r, relation),
            r == point_answer_spec(inside_ring(*o, self.bounding_box, self@, other.coord), relation),
            self@.len() == 0 || !box_contains(self.bounding_box, other.coord) ==> r
                == disjoint_answer(relation),
    {
        self.relation_to_coord(&other.coord, relation, o)
    }

    /// The polygon contains the multi-point when it holds any of its points,
    /// strictly when it holds all of them.
    #[verifier::loop_isolation(false)]
    pub fn relation_to_zulti_points<O: SegmentIntersection>(
        &self,
        other: &ZultiPoints,
        relation: InputRelation,
        o: &O,
    ) -> (r: OutputRelation)
        ensures
            sound(r, relation),
            covers_nothing(r.swapped()),
            r == polygon_points(*o, self.bounding_box, self@, other.bounding_box, other@, relation),
    {
        if self.is_empty() || other.is_empty() || self.bounding_box.disjoint_from(
            &other.bounding_box,
        ) {
            return relation.to_false().make_disjoint_if_set();
        }
        let ghost rs = Seq::new(
            other@.len(),
            |k: int|
                point_answer_spec(
                    inside_ring(*o, self.bounding_box, self@, other@[k]),
                    plain_request(relation),
                ),
        );
        let ghost seed = OutputRelation::spec_all_false(relation);
        let sub = relation.strip_strict().strip_disjoint();
        let mut output = relation.to_false();
        let n = other.len();
        let mut contains: usize = 0;
        let mut i: usize = 0;
        while i < n
            invariant
                sub == plain_request(relation),
                n == other@.len(),
                rs.len() == n,
                i <= n,
                contains <= i,
                contains == count_contains(rs.take(i as int)),
                fold_answers(seed, rs.take(i as int), relation.early_exit) == (output, false),
                sound(output, relation),
                output.disjoint != Some(true),
                output.contained == seed.contained,
                output.strict_contained == seed.strict_contained,
                output.intersect == seed.intersect,
            decreases n - i,
        {
            let point = other.coords.get(i);
            let r = point_answer(ring_contains(self, &point, o), sub);
            proof {
                lemma_or_sound(output, r, relation, sub);
                lemma_fold_step(seed, rs, i as int, relation.early_exit);
            }
            let (combined, stop) = absorb(output, r, relation);
            output = combined;
            if r.contains == Some(true) {
                contains = contains + 1;
            }
            if stop {
                proof {
                    lemma_fold_stopped(seed, rs, i + 1, relation.early_exit);
                }
                return output;
            }
            i = i + 1;
        }
        assert(rs.take(rs.len() as int) =~= rs);
        conclude(output, contains == n, false)
    }

    /// Two polygons whose edges cross intersect. When no edges cross, one
    /// vertex of each, tested against the other, tells containment from
    /// disjointness; this holds for simple polygons only.
    pub fn relation_to_zolygon<O: SegmentIntersection>(
        &self,
        other: &Zolygon,
        relation: InputRelation,
        o: &O,
    ) -> (r: OutputRelation)
        ensures
            sound(r, relation),
            r == polygon_polygon(*o, self.bounding_box, self@, other.bounding_box, other@, relation),
            self@.len() == 0 || other@.len() == 0 || placement(self.bounding_box, other.bounding_box)
                == Placement::Disjoint ==> r == disjoint_answer(relation),
    {
        let out = relation.to_false();
        if self.is_empty() || other.is_empty() || self.bounding_box.disjoint_from(&other.bounding_box) {
            return out.make_disjoint_if_set();
        }
        let crossing = any_crossing(&self.segments(), &other.segments(), o);
        let inside_other = !crossing && ring_contains(other, &self.coords.get(0), o);
        let holds_other = !crossing && !inside_other && ring_contains(
            self,
            &other.coords.get(0),
            o,
        );
        polygons_answer(crossing, inside_other, holds_other, relation)
    }
}

impl<'a> ZultiPolygons<'a> {
    /// A multi-polygon strictly contains a point that one of its polygons holds.
    #[verifier::loop_isolation(false)]
    pub fn relation_to_zoint<O: SegmentIntersection>(
        &self,
        other: &Zoint,
        relation: InputRelation,
        o: &O,
    ) -> (r: OutputRelation)
        requires
            self.wf(),
        ensures
            sound(r, relation),
            r == multi_polygon_point(*o, *self, other.coord, relation),
    {
        let out = relation.to_false();
        if self.is_empty() || !self.multi.bounding_box.contains_coord(&other.coord) {
            return out.make_disjoint_if_set();
        }
        let polygons = self.polygons();
        let mut i: usize = 0;
        while i < polygons.len()
            invariant
                i <= polygons@.len(),
                forall|k: int|
                    0 <= k < i ==> !inside_ring(*o, self.multi.member_box(k), self@[k], other.coord),
            decreases polygons@.len() - i,
        {
            if ring_contains(&polygons[i], &other.coord, o) {
                return point_answer(true, relation);
            }
            i = i + 1;
        }
        point_answer(false, relation)
    }

    /// The multi-polygon contains the multi-point when one of its polygons
    /// holds one of the points; strictly when the points held, counted per
    /// polygon, number as many as the points.
    #[verifier::loop_isolation(false)]
    #[verifier::rlimit(80)]
    pub fn relation_to_zulti_points<O: SegmentIntersection>(
        &self,
        other: &ZultiPoints,
        relation: InputRelation,
        o: &O,
    ) -> (r: OutputRelation)
        requires
            self.wf(),
        ensures
            sound(r, relation),
            covers_nothing(r.swapped()),
            r == multi_polygon_points(*o, *self, other.bounding_box, other@, relation),
    {
        if self.is_empty() || other.is_empty() || self.multi.bounding_box.disjoint_from(
            &other.bounding_box,
        ) {
            return relation.to_false().make_disjoint_if_set();
        }
        let ghost rows = multi_polygon_points_rows(*o, *self, other@, relation);
        let ghost f = flatten_rows(rows);
        let ghost seed = OutputRelation::spec_all_false(relation);
        let sub = relation.strip_strict().strip_disjoint();
        let mut output = relation.to_false();
        let left = self.polygons();
        let right_n = other.len();
        let mut contains: u128 = 0;
        let mut i: usize = 0;
        while i < left.len()
            invariant
                sub == plain_request(relation),
                i <= left@.len(),
                rows.len() == left@.len(),
                right_n == other@.len(),
                left@.len() <= u32::MAX,

                contains <= i * other@.len(),
                contains == count_contains(flatten_rows(rows.take(i as int))),
                fold_answers(seed, flatten_rows(rows.take(i as int)), relation.early_exit) == (
                    output,
                    false,
                ),
                sound(output, relation),
                output.disjoint != Some(true),
                output.contained == seed.contained,
                output.strict_contained == seed.strict_contained,
                output.intersect == seed.intersect,
            decreases left@.len() - i,
        {
            let ghost u = flatten_rows(rows.take(i as int)) + rows[i as int];
            let ghost base = flatten_rows(rows.take(i as int)).len() as int;
            proof {
                assert(u.take(base) =~= flatten_rows(rows.take(i as int)));
                lemma_flatten_rows_step(rows, i as int);
            }
            let mut j: usize = 0;
            while j < right_n
                invariant
                    sub == plain_request(relation),
                    i < left@.len(),
                    j <= right_n,
                    right_n == other@.len(),
                    rows.len() == left@.len(),
                    u == flatten_rows(rows.take(i + 1)),
                    u == flatten_rows(rows.take(i as int)) + rows[i as int],
                    base == flatten_rows(rows.take(i as int)).len(),
                    rows[i as int].len() == right_n,
                    left@.len() <= u32::MAX,

                    contains <= i * other@.len() + j,
                    contains == count_contains(u.take(base + j)),
                    fold_answers(seed, u.take(base + j), relation.early_exit) == (output, false),
                    sound(output, relation),
                    output.disjoint != Some(true),
                    output.contained == seed.contained,
                    output.strict_contained == seed.strict_contained,
                    output.intersect == seed.intersect,
                decreases right_n - j,
            {
                proof {
                    assert(i * other@.len() + j < 0x1_0000_0000 * 0x1_0000_0000_0000_0000)
                        by (nonlinear_arith)
                        requires
                            i < left@.len(),
                            j < other@.len(),
                            left@.len() <= u32::MAX,
                            other@.len() <= usize::MAX,
                    ;
                }
                let point = other.coords.get(j);
                let r = point_answer(ring_contains(&left[i], &point, o), sub);
                proof {
                    lemma_or_sound(output, r, relation, sub);
                    assert(u[base + j] == rows[i as int][j as int]);
                    lemma_fold_step(seed, u, base + j, relation.early_exit);
                    assert(u.take(base + j + 1) =~= u.take(base + j).push(r));
                }
                let (combined, stop) = absorb(output, r, relation);
                output = combined;
                if r.contains == Some(true) {
                    contains = contains + 1;
                }
                if stop {
                    proof {
                        lemma_fold_stopped(seed, u, base + j + 1, relation.early_exit);
                        lemma_flatten_rows_prefix(rows, i + 1);
                        assert(f.take(u.len() as int) == u);
                        lemma_fold_stopped(seed, f, u.len() as int, relation.early_exit);
                    }
                    return output;
                }
                j = j + 1;
            }
            proof {
                assert(u.take(base + j) =~= u);
                assert((i + 1) * other@.len() == i * other@.len() + other@.len())
                    by (nonlinear_arith);
            }
            i = i + 1;
        }
        assert(rows.take(rows.len() as int) =~= rows);
        conclude(output, contains == right_n as u128, false)
    }

    /// Each polygon is related to the other polygon and the answers are
    /// combined; the multi-polygon is strictly contained when every one of its
    /// polygons is.
    #[verifier::loop_isolation(false)]
    pub fn relation_to_zolygon<O: SegmentIntersection>(
        &self,
        other: &Zolygon,
        relation: InputRelation,
        o: &O,
    ) -> (r: OutputRelation)
        requires
            self.wf(),
        ensures
            sound(r, relation),
            r == multi_polygon_polygon(*o, *self, other.bounding_box, other@, relation),
    {
        if self.is_empty() || other.is_empty() || self.multi.bounding_box.disjoint_from(
            &other.bounding_box,
        ) {
            return relation.to_false().make_disjoint_if_set();
        }
        let ghost rs = multi_polygon_polygon_answers(*o, *self, other.bounding_box, other@, relation);
        let ghost seed = OutputRelation::spec_all_false(relation);
        let sub = relation.strip_disjoint().strip_strict_contained();
        let mut output = relation.to_false();
        let polygons = self.polygons();
        let mut contained: usize = 0;
        let mut i: usize = 0;
        while i < polygons.len()
            invariant
                sub == polygon_member_request(relation),
                i <= polygons@.len(),
                rs.len() == polygons@.len(),
                contained <= i,
                contained == count_contained(rs.take(i as int)),
                fold_answers(seed, rs.take(i as int), relation.early_exit) == (output, false),
                sound(output, relation),
                output.disjoint != Some(true),
            decreases polygons@.len() - i,
        {
            let r = polygons[i].relation_to_zolygon(other, sub, o);
            proof {
                lemma_or_sound_strict(output, r, relation, sub);
                lemma_fold_step(seed, rs, i as int, relation.early_exit);
            }
            let (combined, stop) = absorb(output, r, relation);
            output = combined;
            if r.contained == Some(true) {
                contained = contained + 1;
            }
            if stop {
                proof {
                    lemma_fold_stopped(seed, rs, i + 1, relation.early_exit);
                }
                return output;
            }
            i = i + 1;
        }
        assert(rs.take(rs.len() as int) =~= rs);
        conclude(output, false, contained == polygons.len())
    }

    /// Every pair of polygons is related and the answers are combined. The
    /// first strictly contains the second when the pairs that contain number
    /// as many as the second's polygons, and is strictly contained when the
    /// pairs that are contained number as many as its own.
    #[verifier::loop_isolation(false)]
    #[verifier::rlimit(80)]
    pub fn relation_to_zulti_polygons<O: SegmentIntersection>(
        &self,
        other: &ZultiPolygons,
        relation: InputRelation,
        o: &O,
    ) -> (r: OutputRelation)
        requires
            self.wf(),
            other.wf(),
        ensures
            sound(r, relation),
            r == multi_polygon_multi_polygon(*o, *self, *other, relation),
    {
        if self.is_empty() || other.is_empty() || self.multi.bounding_box.disjoint_from(
            &other.multi.bounding_box,
        ) {
            return relation.to_false().make_disjoint_if_set();
        }
        let ghost rows = multi_polygons_rows(*o, *self, *other, relation);
        let ghost f = flatten_rows(rows);
        let ghost seed = OutputRelation::spec_all_false(relation);
        let sub = relation.strip_strict().strip_disjoint();
        let mut output = relation.to_false();
        let left = self.polygons();
        let right_n = other.multi.count;
        let right = other.polygons();
        let mut contains: u128 = 0;
        let mut contained: u128 = 0;
        let mut i: usize = 0;
        while i < left.len()
            invariant
                sub == plain_request(relation),
                i <= left@.len(),
                rows.len() == left@.len(),
                right_n == other@.len(),
                left@.len() <= u32::MAX,
                other@.len() <= u32::MAX,
                contains <= i * other@.len(),
                contains == count_contains(flatten_rows(rows.take(i as int))),
                contained <= i * other@.len(),
                contained == count_contained(flatten_rows(rows.take(i as int))),
                fold_answers(seed, flatten_rows(rows.take(i as int)), relation.early_exit) == (
                    output,
                    false,
                ),
                sound(output, relation),
                output.disjoint != Some(true),

            decreases left@.len() - i,
        {
            let ghost u = flatten_rows(rows.take(i as int)) + rows[i as int];
            let ghost base = flatten_rows(rows.take(i as int)).len() as int;
            proof {
                assert(u.take(base) =~= flatten_rows(rows.take(i as int)));
                lemma_flatten_rows_step(rows, i as int);
            }
            let mut j: usize = 0;
            while j < right_n
                invariant
                    sub == plain_request(relation),
                    i < left@.len(),
                    j <= right_n,
                    right_n == other@.len(),
                    rows.len() == left@.len(),
                    u == flatten_rows(rows.take(i + 1)),
                    u == flatten_rows(rows.take(i as int)) + rows[i as int],
                    base == flatten_rows(rows.take(i as int)).len(),
                    rows[i as int].len() == right_n,
                    right@.len() == right_n,
                    left@.len() <= u32::MAX,
                other@.len() <= u32::MAX,
                    contains <= i * other@.len() + j,
                    contains == count_contains(u.take(base + j)),
                    contained <= i * other@.len() + j,
                    contained == count_contained(u.take(base + j)),
                    fold_answers(seed, u.take(base + j), relation.early_exit) == (output, false),
                    sound(output, relation),
                    output.disjoint != Some(true),

                decreases right_n - j,
            {
                proof {
                    assert(i * other@.len() + j < 0x1_0000_0000 * 0x1_0000_0000_0000_0000)
                        by (nonlinear_arith)
                        requires
                            i < left@.len(),
                            j < other@.len(),
                            left@.len() <= u32::MAX,
                            other@.len() <= usize::MAX,
                    ;
                }
                let r = left[i].relation_to_zolygon(&right[j], sub, o);
                proof {
                    lemma_or_sound(output, r, relation, sub);
                    assert(u[base + j] == rows[i as int][j as int]);
                    lemma_fold_step(seed, u, base + j, relation.early_exit);
                    assert(u.take(base + j + 1) =~= u.take(base + j).push(r));
                }
                let (combined, stop) = absorb(output, r, relation);
                output = combined;
                if r.contains == Some(true) {
                    contains = contains + 1;
                }
                if r.contained == Some(true) {
                    contained = contained + 1;
                }
                if stop {
                    proof {
                        lemma_fold_stopped(seed, u, base + j + 1, relation.early_exit);
                        lemma_flatten_rows_prefix(rows, i + 1);
                        assert(f.take(u.len() as int) == u);
                        lemma_fold_stopped(seed, f, u.len() as int, relation.early_exit);
                    }
                    return output;
                }
                j = j + 1;
            }
            proof {
                assert(u.take(base + j) =~= u);
                assert((i + 1) * other@.len() == i * other@.len() + other@.len())
                    by (nonlinear_arith);
            }
            i = i + 1;
        }
        assert(rows.take(rows.len() as int) =~= rows);
        conclude(output, contains == right_n as u128, contained == left.len() as u128)
    }
}


impl<'a> Zine<'a> {
    /// Two line strings intersect when some of their segments meet, and are
    /// disjoint otherwise.
    pub fn relation_to_zine<O: SegmentIntersection>(
        &self,
        other: &Zine,
        relation: InputRelation,
        o: &O,
    ) -> (r: OutputRelation)
        ensures
            sound(r, relation),
            r == line_line(*o, self.bounding_box, self@, other.bounding_box, other@, relation),
            self@.len() == 0 || other@.len() == 0 || placement(self.bounding_box, other.bounding_box)
                == Placement::Disjoint ==> r == disjoint_answer(relation),
    {
        let out = relation.to_false();
        if self.is_empty() || other.is_empty() || self.bounding_box.disjoint_from(&other.bounding_box) {
            return out.make_disjoint_if_set();
        }
        crossing_answer(any_crossing(&self.segments(), &other.segments(), o), relation)
    }

    /// A line string that crosses the polygon's edges intersects it; one that
    /// does not, and whose first vertex lies inside, is strictly contained.
    /// A line never contains a polygon.
    pub fn relation_to_zolygon<O: SegmentIntersection>(
        &self,
        other: &Zolygon,
        relation: InputRelation,
        o: &O,
    ) -> (r: OutputRelation)
        ensures
            sound(r, relation),
            r == line_polygon(*o, self.bounding_box, self@, other.bounding_box, other@, relation),
            self@.len() == 0 || other@.len() == 0 || placement(self.bounding_box, other.bounding_box)
                == Placement::Disjoint ==> r == disjoint_answer(relation),
    {
        let out = relation.to_false();
        if self.is_empty() || other.is_empty() || self.bounding_box.disjoint_from(&other.bounding_box) {
            return out.make_disjoint_if_set();
        }
        let crossing = any_crossing(&self.segments(), &other.segments(), o);
        let first_inside = !crossing && ring_contains(other, &self.coords.get(0), o);
        line_polygon_answer(crossing, first_inside, relation)
    }

    /// The line string is related to each polygon and the answers are combined.
    #[verifier::loop_isolation(false)]
    pub fn relation_to_zulti_polygons<O: SegmentIntersection>(
        &self,
        other: &ZultiPolygons,
        relation: InputRelation,
        o: &O,
    ) -> (r: OutputRelation)
        requires
            other.wf(),
        ensures
            sound(r, relation),
            contains_nothing(r),
            r == line_multi_polygon(*o, self.bounding_box, self@, *other, relation),
    {
        let mut output = relation.to_false();
        if self.is_empty() || other.is_empty() || self.bounding_box.disjoint_from(
            &other.multi.bounding_box,
        ) {
            return output.make_disjoint_if_set();
        }
        let ghost rs = line_multi_polygon_answers(*o, self.bounding_box, self@, *other, relation);
        let ghost seed = OutputRelation::spec_all_false(relation);
        let sub = relation.strip_disjoint();
        let polygons = other.polygons();
        let mut i: usize = 0;
        while i < polygons.len()
            invariant
                sub == undisjoint(relation),
                i <= polygons@.len(),
                rs.len() == polygons@.len(),
                fold_answers(seed, rs.take(i as int), relation.early_exit) == (output, false),
                sound(output, relation),
                output.disjoint != Some(true),
                output.contains == OutputRelation::spec_all_false(relation).contains,
                output.strict_contains == OutputRelation::spec_all_false(relation).strict_contains,
            decreases polygons@.len() - i,
        {
            let r = self.relation_to_zolygon(&polygons[i], sub, o);
            proof {
                lemma_or_sound_strict(output, r, relation, sub);
                lemma_fold_step(seed, rs, i as int, relation.early_exit);
            }
            let (combined, stop) = absorb(output, r, relation);
            output = combined;
            if stop {
                proof {
                    lemma_fold_stopped(seed, rs, i + 1, relation.early_exit);
                }
                return output;
            }
            i = i + 1;
        }
        assert(rs.take(rs.len() as int) =~= rs);
        conclude(output, false, false)
    }
}

impl<'a> ZultiLines<'a> {
    /// Intersects when one of its line strings meets the other line string.
    #[verifier::loop_isolation(false)]
    pub fn relation_to_zine<O: SegmentIntersection>(
        &self,
        other: &Zine,
        relation: InputRelation,
        o: &O,
    ) -> (r: OutputRelation)
        requires
            self.wf(),
        ensures
            sound(r, relation),
            r == multi_line_line(*o, *self, other.bounding_box, other@, relation),
    {
        let out = relation.to_false();
        if self.is_empty() || other.is_empty() || self.multi.bounding_box.disjoint_from(
            &other.bounding_box,
        ) {
            return out.make_disjoint_if_set();
        }
        let lines = self.lines();
        let theirs = other.segments();
        let mut i: usize = 0;
        while i < lines.len()
            invariant
                i <= lines@.len(),
                forall|k: int|
                    0 <= k < i ==> !any_meet(*o, segments_of(self@[k]), segments_of(other@)),
            decreases lines@.len() - i,
        {
            if any_crossing(&lines[i].segments(), &theirs, o) {
                return crossing_answer(true, relation);
            }
            i = i + 1;
        }
        crossing_answer(false, relation)
    }

    /// Intersects when a line string of one meets a line string of the other.
    #[verifier::loop_isolation(false)]
    pub fn relation_to_zulti_lines<O: SegmentIntersection>(
        &self,
        other: &ZultiLines,
        relation: InputRelation,
        o: &O,
    ) -> (r: OutputRelation)
        requires
            self.wf(),
            other.wf(),
        ensures
            sound(r, relation),
            r == multi_line_multi_line(*o, *self, *other, relation),
    {
        let out = relation.to_false();
        if self.is_empty() || other.is_empty() || self.multi.bounding_box.disjoint_from(
            &other.multi.bounding_box,
        ) {
            return out.make_disjoint_if_set();
        }
        let left = self.lines();
        let right = other.lines();
        let mut i: usize = 0;
        while i < left.len()
            invariant
                i <= left@.len(),
                forall|k: int, m: int|
                    0 <= k < i && 0 <= m < other@.len() ==> !any_meet(
                        *o,
                        segments_of(self@[k]),
                        segments_of(other@[m]),
                    ),
            decreases left@.len() - i,
        {
            let mine = left[i].segments();
            let mut j: usize = 0;
            while j < right.len()
                invariant
                    i < left@.len(),
                    j <= right@.len(),
                    mine@ == segments_of(self@[i as int]),
                    forall|k: int, m: int|
                        0 <= k < i && 0 <= m < other@.len() ==> !any_meet(
                            *o,
                            segments_of(self@[k]),
                            segments_of(other@[m]),
                        ),
                    forall|m: int|
                        0 <= m < j ==> !any_meet(
                            *o,
                            segments_of(self@[i as int]),
                            segments_of(other@[m]),
                        ),
                decreases right@.len() - j,
            {
                if any_crossing(&mine, &right[j].segments(), o) {
                    return crossing_answer(true, relation);
                }
                j = j + 1;
            }
            i = i + 1;
        }
        crossing_answer(false, relation)
    }

    /// Each line string is related to the polygon and the answers are
    /// combined; the multi-line-string is strictly contained when every one of
    /// its line strings is contained.
    #[verifier::loop_isolation(false)]
    #[verifier::rlimit(60)]
    pub fn relation_to_zolygon<O: SegmentIntersection>(
        &self,
        other: &Zolygon,
        relation: InputRelation,
        o: &O,
    ) -> (r: OutputRelation)
        requires
            self.wf(),
        ensures
            sound(r, relation),
            contains_nothing(r),
            r == multi_line_polygon(*o, *self, other.bounding_box, other@, relation),
    {
        let mut output = relation.to_false();
        if self.is_empty() || other.is_empty() || self.multi.bounding_box.disjoint_from(
            &other.bounding_box,
        ) {
            return output.make_disjoint_if_set();
        }
        let ghost rs = multi_line_polygon_answers(*o, *self, other.bounding_box, other@, relation);
        let ghost seed = OutputRelation::spec_all_false(relation);
        let sub = relation.strip_strict().strip_disjoint();
        let lines = self.lines();
        let mut contained: usize = 0;
        let mut i: usize = 0;
        while i < lines.len()
            invariant
                sub == plain_request(relation),
                i <= lines@.len(),
                rs.len() == lines@.len(),
                contained <= i,
                contained == count_contained(rs.take(i as int)),
                fold_answers(seed, rs.take(i as int), relation.early_exit) == (output, false),
                sound(output, relation),
                output.disjoint != Some(true),
                output.contains == OutputRelation::spec_all_false(relation).contains,
                output.strict_contains == OutputRelation::spec_all_false(relation).strict_contains,
            decreases lines@.len() - i,
        {
            let r = lines[i].relation_to_zolygon(other, sub, o);
            proof {
                lemma_or_sound(output, r, relation, sub);
                lemma_fold_step(seed, rs, i as int, relation.early_exit);
            }
            let (combined, stop) = absorb(output, r, relation);
            output = combined;
            if r.contained == Some(true) {
                contained = contained + 1;
            }
            if stop {
                proof {
                    lemma_fold_stopped(seed, rs, i + 1, relation.early_exit);
                }
                return output;
            }
            i = i + 1;
        }
        assert(rs.take(rs.len() as int) =~= rs);
        conclude(output, false, contained == lines.len())
    }

    /// Every line string is related to every polygon and the answers are
    /// combined; the multi-line-string is strictly contained when the
    /// contained pairs number as many as its line strings.
    #[verifier::loop_isolation(false)]
    #[verifier::rlimit(80)]
    pub fn relation_to_zulti_polygons<O: SegmentIntersection>(
        &self,
        other: &ZultiPolygons,
        relation: InputRelation,
        o: &O,
    ) -> (r: OutputRelation)
        requires
            self.wf(),
            other.wf(),
        ensures
            sound(r, relation),
            contains_nothing(r),
            r == multi_line_multi_polygon(*o, *self, *other, relation),
    {
        if self.is_empty() || other.is_empty() || self.multi.bounding_box.disjoint_from(
            &other.multi.bounding_box,
        ) {
            return relation.to_false().make_disjoint_if_set();
        }
        let ghost rows = multi_line_multi_polygon_rows(*o, *self, *other, relation);
        let ghost f = flatten_rows(rows);
        let ghost seed = OutputRelation::spec_all_false(relation);
        let sub = relation.strip_strict().strip_disjoint();
        let mut output = relation.to_false();
        let left = self.lines();
        let right_n = other.multi.count;
        let right = other.polygons();
        let mut contained: u128 = 0;
        let mut i: usize = 0;
        while i < left.len()
            invariant
                sub == plain_request(relation),
                i <= left@.len(),
                rows.len() == left@.len(),
                right_n == other@.len(),
                left@.len() <= u32::MAX,
                other@.len() <= u32::MAX,
                contained <= i * other@.len(),
                contained == count_contained(flatten_rows(rows.take(i as int))),
                fold_answers(seed, flatten_rows(rows.take(i as int)), relation.early_exit) == (
                    output,
                    false,
                ),
                sound(output, relation),
                output.disjoint != Some(true),
                output.contains == seed.contains,
                output.strict_contains == seed.strict_contains,
            decreases left@.len() - i,
        {
            let ghost u = flatten_rows(rows.take(i as int)) + rows[i as int];
            let ghost base = flatten_rows(rows.take(i as int)).len() as int;
            proof {
                assert(u.take(base) =~= flatten_rows(rows.take(i as int)));
                lemma_flatten_rows_step(rows, i as int);
            }
            let mut j: usize = 0;
            while j < right_n
                invariant
                    sub == plain_request(relation),
                    i < left@.len(),
                    j <= right_n,
                    right_n == other@.len(),
                    rows.len() == left@.len(),
                    u == flatten_rows(rows.take(i + 1)),
                    u == flatten_rows(rows.take(i as int)) + rows[i as int],
                    base == flatten_rows(rows.take(i as int)).len(),
                    rows[i as int].len() == right_n,
                    right@.len() == right_n,
                    left@.len() <= u32::MAX,
                other@.len() <= u32::MAX,
                    contained <= i * other@.len() + j,
                    contained == count_contained(u.take(base + j)),
                    fold_answers(seed, u.take(base + j), relation.early_exit) == (output, false),
                    sound(output, relation),
                    output.disjoint != Some(true),
                    output.contains == seed.contains,
                    output.strict_contains == seed.strict_contains,
                decreases right_n - j,
            {
                proof {
                    assert(i * other@.len() + j < 0x1_0000_0000 * 0x1_0000_0000_0000_0000)
                        by (nonlinear_arith)
                        requires
                            i < left@.len(),
                            j < other@.len(),
                            left@.len() <= u32::MAX,
                            other@.len() <= usize::MAX,
                    ;
                }
                let r = left[i].relation_to_zolygon(&right[j], sub, o);
                proof {
                    lemma_or_sound(output, r, relation, sub);
                    assert(u[base + j] == rows[i as int][j as int]);
                    lemma_fold_step(seed, u, base + j, relation.early_exit);
                    assert(u.take(base + j + 1) =~= u.take(base + j).push(r));
                }
                let (combined, stop) = absorb(output, r, relation);
                output = combined;
                if r.contained == Some(true) {
                    contained = contained + 1;
                }
                if stop {
                    proof {
                        lemma_fold_stopped(seed, u, base + j + 1, relation.early_exit);
                        lemma_flatten_rows_prefix(rows, i + 1);
                        assert(f.take(u.len() as int) == u);
                        lemma_fold_stopped(seed, f, u.len() as int, relation.early_exit);
                    }
                    return output;
                }
                j = j + 1;
            }
            proof {
                assert(u.take(base + j) =~= u);
                assert((i + 1) * other@.len() == i * other@.len() + other@.len())
                    by (nonlinear_arith);
            }
            i = i + 1;
        }
        assert(rows.take(rows.len() as int) =~= rows);
        conclude(output, false, contained == left.len() as u128)
    }
}


/// The relation between two geometries, neither of them a collection. Pairs
/// that are computed one way round are answered the other way round by
/// swapping the contains and contained flags, in the request and the answer.
fn relate_parts<O: SegmentIntersection>(
    a: &Zerometry,
    b: &Zerometry,
    relation: InputRelation,
    o: &O,
) -> (r: OutputRelation)
    requires
        a.wf(),
        b.wf(),
        !(a is Collection),
        !(b is Collection),
    ensures
        sound(r, relation),
        a is Point || a is MultiPoints ==> covers_nothing(r),
        a is Line || a is MultiLines ==> contains_nothing(r),
        r == parts_relation(*o, *a, *b, relation),
{
    let swapped = relation.swap_contains_relation();
    match (a, b) {
        (Zerometry::Point(p), Zerometry::Polygon(q)) => q.relation_to_zoint(
            p,
            swapped,
            o,
        ).swap_contains_relation(),
        (Zerometry::Point(p), Zerometry::MultiPolygon(q)) => q.relation_to_zoint(
            p,
            swapped,
            o,
        ).swap_contains_relation(),
        (Zerometry::MultiPoints(p), Zerometry::Polygon(q)) => q.relation_to_zulti_points(
            p,
            swapped,
            o,
        ).swap_contains_relation(),
        (Zerometry::MultiPoints(p), Zerometry::MultiPolygon(q)) => q.relation_to_zulti_points(
            p,
            swapped,
            o,
        ).swap_contains_relation(),
        (Zerometry::Line(l), Zerometry::Line(m)) => l.relation_to_zine(m, relation, o),
        (Zerometry::Line(l), Zerometry::MultiLines(m)) => m.relation_to_zine(l, relation, o),
        (Zerometry::Line(l), Zerometry::Polygon(q)) => l.relation_to_zolygon(q, relation, o),
        (Zerometry::Line(l), Zerometry::MultiPolygon(q)) => l.relation_to_zulti_polygons(
            q,
            relation,
            o,
        ),
        (Zerometry::MultiLines(l), Zerometry::Line(m)) => l.relation_to_zine(m, relation, o),
        (Zerometry::MultiLines(l), Zerometry::MultiLines(m)) => l.relation_to_zulti_lines(
            m,
            relation,
            o,
        ),
        (Zerometry::MultiLines(l), Zerometry::Polygon(q)) => l.relation_to_zolygon(
            q,
            relation,
            o,
        ),
        (Zerometry::MultiLines(l), Zerometry::MultiPolygon(q)) => l.relation_to_zulti_polygons(
            q,
            relation,
            o,
        ),
        (Zerometry::Polygon(q), Zerometry::Point(p)) => q.relation_to_zoint(p, relation, o),
        (Zerometry::Polygon(q), Zerometry::MultiPoints(p)) => q.relation_to_zulti_points(
            p,
            relation,
            o,
        ),
        (Zerometry::Polygon(q), Zerometry::Line(l)) => l.relation_to_zolygon(
            q,
            swapped,
            o,
        ).swap_contains_relation(),
        (Zerometry::Polygon(q), Zerometry::MultiLines(l)) => l.relation_to_zolygon(
            q,
            swapped,
            o,
        ).swap_contains_relation(),
        (Zerometry::Polygon(q), Zerometry::Polygon(p)) => q.relation_to_zolygon(p, relation, o),
        (Zerometry::Polygon(q), Zerometry::MultiPolygon(p)) => p.relation_to_zolygon(
            q,
            swapped,
            o,
        ).swap_contains_relation(),
        (Zerometry::MultiPolygon(q), Zerometry::Point(p)) => q.relation_to_zoint(p, relation, o),
        (Zerometry::MultiPolygon(q), Zerometry::MultiPoints(p)) => q.relation_to_zulti_points(
            p,
            relation,
            o,
        ),
        (Zerometry::MultiPolygon(q), Zerometry::Line(l)) => l.relation_to_zulti_polygons(
            q,
            swapped,
            o,
        ).swap_contains_relation(),
        (Zerometry::MultiPolygon(q), Zerometry::MultiLines(l)) => l.relation_to_zulti_polygons(
            q,
            swapped,
            o,
        ).swap_contains_relation(),
        (Zerometry::MultiPolygon(q), Zerometry::Polygon(p)) => q.relation_to_zolygon(
            p,
            relation,
            o,
        ),
        (Zerometry::MultiPolygon(q), Zerometry::MultiPolygon(p)) => q.relation_to_zulti_polygons(
            p,
            relation,
            o,
        ),
        // A point has no interior, and a line cannot cover a point: whenever a
        // point is involved and no polygon is, the shapes are disjoint.
        _ => relation.to_false().make_disjoint_if_set(),
    }
}

/// The relation between a collection and a geometry that is not one: the
/// answers of the collection's points, line strings and polygons, combined.
#[verifier::loop_isolation(false)]
fn relate_collection<O: SegmentIntersection>(
    c: &Zollection,
    b: &Zerometry,
    relation: InputRelation,
    o: &O,
) -> (r: OutputRelation)
    requires
        c.wf(),
        b.wf(),
        !(b is Collection),
    ensures
        sound(r, relation),
        r == collection_relation(*o, *c, *b, relation),
{
    let ghost rs = collection_answers(*o, *c, *b, relation);
    let ghost seed = OutputRelation::spec_all_false(relation);
    let sub = relation.strip_disjoint();
    let parts = [
        Zerometry::MultiPoints(c.points),
        Zerometry::MultiLines(c.lines),
        Zerometry::MultiPolygon(c.polygons),
    ];
    assert(parts@ =~= collection_parts(*c));
    let mut output = relation.to_false();
    let mut i: usize = 0;
    while i < 3
        invariant
            i <= 3,
            sub == undisjoint(relation),
            parts@ == collection_parts(*c),
            rs.len() == 3,
            fold_answers(seed, rs.take(i as int), relation.early_exit) == (output, false),
            sound(output, relation),
            output.disjoint != Some(true),
        decreases 3 - i,
    {
        let r = relate_parts(&parts[i], b, sub, o);
        proof {
            lemma_or_sound_strict(output, r, relation, sub);
            lemma_fold_step(seed, rs, i as int, relation.early_exit);
        }
        let (combined, stop) = absorb(output, r, relation);
        output = combined;
        if stop {
            proof {
                lemma_fold_stopped(seed, rs, i + 1, relation.early_exit);
            }
            return output;
        }
        i = i + 1;
    }
    assert(rs.take(3) =~= rs);
    conclude(output, false, false)
}

impl<'a> Zerometry<'a> {
    /// The relation between two decoded geometries, answered for the flags of
    /// `relation`. Every flag asked for comes back set, a strict flag never
    /// holds without its plain flag, and `disjoint` never holds together with
    /// another relation. A collection answers with its points, line
    /// strings and polygons combined. When `relation.early_exit` is set the
    /// answer may come as soon as any relation besides `disjoint` is found, the
    /// flags not reached keeping their `false`.
    #[verifier::loop_isolation(false)]
    pub fn relation<O: SegmentIntersection>(
        &self,
        other: &Zerometry,
        relation: InputRelation,
        o: &O,
    ) -> (r: OutputRelation)
        requires
            self.wf(),
            other.wf(),
        ensures
            sound(r, relation),
            !(other is Collection) && (self is Point || self is MultiPoints) ==> covers_nothing(r),
            r == zerometry_relation(*o, *self, *other, relation),
    {
        match (self, other) {
            (Zerometry::Collection(c), Zerometry::Collection(d)) => {
                let ghost rs = collections_answers(*o, *c, *d, relation);
                let ghost seed = OutputRelation::spec_all_false(relation);
                let sub = relation.strip_disjoint();
                let parts = [
                    Zerometry::MultiPoints(c.points),
                    Zerometry::MultiLines(c.lines),
                    Zerometry::MultiPolygon(c.polygons),
                ];
                assert(parts@ =~= collection_parts(*c));
                let mut output = relation.to_false();
                let mut i: usize = 0;
                while i < 3
                    invariant
                        i <= 3,
                        sub == undisjoint(relation),
                        parts@ == collection_parts(*c),
                        rs.len() == 3,
                        fold_answers(seed, rs.take(i as int), relation.early_exit) == (output, false),
                        sound(output, relation),
                        output.disjoint != Some(true),
                    decreases 3 - i,
                {
                    let r = relate_collection(
                        d,
                        &parts[i],
                        sub.swap_contains_relation(),
                        o,
                    ).swap_contains_relation();
                    proof {
                        lemma_or_sound_strict(output, r, relation, sub);
                        lemma_fold_step(seed, rs, i as int, relation.early_exit);
                    }
                    let (combined, stop) = absorb(output, r, relation);
                    output = combined;
                    if stop {
                        proof {
                            lemma_fold_stopped(seed, rs, i + 1, relation.early_exit);
                        }
                        return output;
                    }
                    i = i + 1;
                }
                assert(rs.take(3) =~= rs);
                conclude(output, false, false)
            },
            (Zerometry::Collection(c), _) => relate_collection(c, other, relation, o),
            (_, Zerometry::Collection(d)) => relate_collection(
                d,
                self,
                relation.swap_contains_relation(),
                o,
            ).swap_contains_relation(),
            _ => relate_parts(self, other, relation, o),
        }
    }
}

} // verus!

verus! {

impl<'a> Zerometry<'a> {
    /// The view holds no coordinate; a point is never empty.
    pub open spec fn spec_is_empty(self) -> bool {
        match self {
            Zerometry::Point(_) => false,
            Zerometry::MultiPoints(z) => z@.len() == 0,
            Zerometry::Line(z) => z@.len() == 0,
            Zerometry::Polygon(z) => z@.len() == 0,
            Zerometry::MultiLines(z) => z@.len() == 0,
            Zerometry::MultiPolygon(z) => z@.len() == 0,
            Zerometry::Collection(z) => z.points@.len() + z.lines@.len() + z.polygons@.len() == 0,
        }
    }
}

/// Two geometries, neither a collection, of which one is empty or whose boxes
/// are disjoint, relate as disjoint, whatever the segment test answers.
pub proof fn lemma_relation_apart<O: SegmentIntersection>(
    o: O,
    a: Zerometry,
    b: Zerometry,
    req: InputRelation,
)
    requires
        !(a is Collection),
        !(b is Collection),
        a.spec_is_empty() || b.spec_is_empty() || placement(
            a.spec_bounding_box(),
            b.spec_bounding_box(),
        ) == Placement::Disjoint,
    ensures
        zerometry_relation(o, a, b, req) == disjoint_answer(req),
{
    lemma_placement_antisymmetric(a.spec_bounding_box(), b.spec_bounding_box());
    let sw = req.swapped();
    assert(disjoint_answer(sw).swapped() == disjoint_answer(req));
    match a {
        Zerometry::Point(_) => {},
        Zerometry::MultiPoints(_) => {},
        Zerometry::Line(_) => lemma_apart_line(o, a, b, req),
        Zerometry::MultiLines(_) => lemma_apart_multi_line(o, a, b, req),
        Zerometry::Polygon(_) => lemma_apart_polygon(o, a, b, req),
        Zerometry::MultiPolygon(_) => lemma_apart_multi_polygon(o, a, b, req),
        Zerometry::Collection(_) => {},
    }
}


proof fn lemma_apart_line<O: SegmentIntersection>(o: O, a: Zerometry, b: Zerometry, req: InputRelation)
    requires
        a is Line,
        !(b is Collection),
        a.spec_is_empty() || b.spec_is_empty() || placement(
            a.spec_bounding_box(),
            b.spec_bounding_box(),
        ) == Placement::Disjoint,
    ensures
        parts_relation(o, a, b, req) == disjoint_answer(req),
{
}

proof fn lemma_apart_multi_line<O: SegmentIntersection>(
    o: O,
    a: Zerometry,
    b: Zerometry,
    req: InputRelation,
)
    requires
        a is MultiLines,
        !(b is Collection),
        a.spec_is_empty() || b.spec_is_empty() || placement(
            a.spec_bounding_box(),
            b.spec_bounding_box(),
        ) == Placement::Disjoint,
    ensures
        parts_relation(o, a, b, req) == disjoint_answer(req),
{
}

proof fn lemma_apart_polygon<O: SegmentIntersection>(
    o: O,
    a: Zerometry,
    b: Zerometry,
    req: InputRelation,
)
    requires
        a is Polygon,
        !(b is Collection),
        a.spec_is_empty() || b.spec_is_empty() || placement(
            a.spec_bounding_box(),
            b.spec_bounding_box(),
        ) == Placement::Disjoint,
        (placement(a.spec_bounding_box(), b.spec_bounding_box()) == Placement::Disjoint) == (
        placement(b.spec_bounding_box(), a.spec_bounding_box()) == Placement::Disjoint),
    ensures
        parts_relation(o, a, b, req) == disjoint_answer(req),
{
    assert(disjoint_answer(req.swapped()).swapped() == disjoint_answer(req));
}

proof fn lemma_apart_multi_polygon<O: SegmentIntersection>(
    o: O,
    a: Zerometry,
    b: Zerometry,
    req: InputRelation,
)
    requires
        a is MultiPolygon,
        !(b is Collection),
        a.spec_is_empty() || b.spec_is_empty() || placement(
            a.spec_bounding_box(),
            b.spec_bounding_box(),
        ) == Placement::Disjoint,
        (placement(a.spec_bounding_box(), b.spec_bounding_box()) == Placement::Disjoint) == (
        placement(b.spec_bounding_box(), a.spec_bounding_box()) == Placement::Disjoint),
    ensures
        parts_relation(o, a, b, req) == disjoint_answer(req),
{
    assert(disjoint_answer(req.swapped()).swapped() == disjoint_answer(req));
}

} // verus!

verus! {

/// The closed ring `r` listed from its vertex `k` on.
pub open spec fn rotate_ring(r: Seq<Coord>, k: int) -> Seq<Coord> {
    r.subrange(k, r.len() - 1) + r.subrange(0, k + 1)
}

/// Counting over two runs of segments one after the other.
pub proof fn lemma_meet_count_append<O: SegmentIntersection>(
    o: O,
    a: Seq<Segment>,
    b: Seq<Segment>,
    ray: Segment,
)
    ensures
        meet_count(o, a + b, ray) == meet_count(o, a, ray) + meet_count(o, b, ray),
    decreases b.len(),
{
    if b.len() == 0 {
        assert(a + b =~= a);
    } else {
        assert((a + b).drop_last() =~= a + b.drop_last());
        lemma_meet_count_append(o, a, b.drop_last(), ray);
    }
}

/// Point-in-polygon does not depend on which vertex of a closed ring is listed
/// first: the rotated ring has the same edges, in another order.
pub proof fn lemma_inside_ring_rotation<O: SegmentIntersection>(
    o: O,
    bb: BoundingBox,
    r: Seq<Coord>,
    k: int,
    c: Coord,
)
    requires
        r.len() >= 2,
        r[0] == r[r.len() - 1],
        0 <= k < r.len() - 1,
    ensures
        inside_ring(o, bb, rotate_ring(r, k), c) == inside_ring(o, bb, r, c),
{
    let n = r.len() - 1;
    let rk = rotate_ring(r, k);
    let segs = segments_of(r);
    assert(segments_of(rk) =~= segs.subrange(k, n) + segs.subrange(0, k)) by {
        assert forall|i: int| 0 <= i < n implies #[trigger] segments_of(rk)[i] == (
        segs.subrange(k, n) + segs.subrange(0, k))[i] by {
            if i < n - k - 1 {
            } else if i == n - k - 1 {
                assert(rk[i + 1] == r[0]);
            } else {
            }
        }
    }
    assert(segs =~= segs.subrange(0, k) + segs.subrange(k, n));
    let ray = ray_to(bb, c);
    lemma_meet_count_append(o, segs.subrange(k, n), segs.subrange(0, k), ray);
    lemma_meet_count_append(o, segs.subrange(0, k), segs.subrange(k, n), ray);
}

} // verus!
