use vstd::bytes::{spec_u64_to_le_bytes, u64_to_le_bytes};
use vstd::prelude::*;

use crate::coord::{
    coord_at, float_le, float_le_bits, float_lt, float_lt_bits, is_nan, ordinal, Coord,
    COORD_SIZE_IN_BYTES,
};
use crate::coords::Coords;
use crate::relation::{answers, InputRelation, OutputRelation, RelationBetweenShapes};

verus! {

/// Size in bytes of an encoded bounding box: two coordinates.
pub const BOUNDING_BOX_SIZE_IN_BYTES: usize = 32;

/// The rectangle that covers a geometry, given by its bottom-left and top-right
/// corners. Edges are closed: a coordinate on an edge is inside.
#[derive(Debug, Clone, Copy, PartialEq, Eq, Structural)]
pub struct BoundingBox {
    pub bottom_left: Coord,
    pub top_right: Coord,
}

/// Where one box stands with respect to another.
#[derive(Debug, Clone, Copy, PartialEq, Eq, Structural)]
pub enum Placement {
    Contains,
    Contained,
    Intersects,
    Disjoint,
}

/// The encoding of one coordinate: x then y, each 8 little-endian bytes.
pub open spec fn enc_coord(c: Coord) -> Seq<u8> {
    spec_u64_to_le_bytes(c.x) + spec_u64_to_le_bytes(c.y)
}

/// The encoding of a box: bottom-left then top-right.
pub open spec fn enc_box(b: BoundingBox) -> Seq<u8> {
    enc_coord(b.bottom_left) + enc_coord(b.top_right)
}

/// The box reduced to one coordinate.
pub open spec fn point_box(c: Coord) -> BoundingBox {
    BoundingBox { bottom_left: c, top_right: c }
}

/// The box stretched, edge by edge, to a coordinate lying beyond it.
pub open spec fn stretch(b: BoundingBox, c: Coord) -> BoundingBox {
    BoundingBox {
        bottom_left: Coord {
            x: if float_lt(c.x, b.bottom_left.x) {
                c.x
            } else {
                b.bottom_left.x
            },
            y: if float_lt(c.y, b.bottom_left.y) {
                c.y
            } else {
                b.bottom_left.y
            },
        },
        top_right: Coord {
            x: if float_lt(b.top_right.x, c.x) {
                c.x
            } else {
                b.top_right.x
            },
            y: if float_lt(b.top_right.y, c.y) {
                c.y
            } else {
                b.top_right.y
            },
        },
    }
}

/// One step of the box computation: the first coordinate opens the box, each
/// later one stretches it.
pub open spec fn box_step(acc: Option<BoundingBox>, c: Coord) -> Option<BoundingBox> {
    match acc {
        None => Some(point_box(c)),
        Some(b) => Some(stretch(b, c)),
    }
}

/// The box computation run over `s`, from `acc`.
pub open spec fn fold_box(acc: Option<BoundingBox>, s: Seq<Coord>) -> Option<BoundingBox>
    decreases s.len(),
{
    if s.len() == 0 {
        acc
    } else {
        box_step(fold_box(acc, s.drop_last()), s.last())
    }
}

/// The box at the origin that stands for a geometry with no coordinate.
pub open spec fn origin_box() -> BoundingBox {
    BoundingBox { bottom_left: Coord { x: 0, y: 0 }, top_right: Coord { x: 0, y: 0 } }
}

/// The bounding box written for a geometry whose coordinates are `s`, in order.
pub open spec fn bbox_of(s: Seq<Coord>) -> BoundingBox {
    match fold_box(None, s) {
        None => origin_box(),
        Some(b) => b,
    }
}

/// Closed-interval containment of a coordinate.
pub open spec fn box_contains(b: BoundingBox, c: Coord) -> bool {
    &&& float_le(b.bottom_left.y, c.y)
    &&& float_le(c.y, b.top_right.y)
    &&& float_le(b.bottom_left.x, c.x)
    &&& float_le(c.x, b.top_right.x)
}

/// All four edges of `b` fall within the ranges of `a`.
pub open spec fn all_edges_in(a: BoundingBox, b: BoundingBox) -> bool {
    &&& float_le(a.bottom_left.y, b.bottom_left.y) && float_le(b.bottom_left.y, a.top_right.y)
    &&& float_le(a.bottom_left.y, b.top_right.y) && float_le(b.top_right.y, a.top_right.y)
    &&& float_le(a.bottom_left.x, b.bottom_left.x) && float_le(b.bottom_left.x, a.top_right.x)
    &&& float_le(a.bottom_left.x, b.top_right.x) && float_le(b.top_right.x, a.top_right.x)
}

/// No edge of `b` falls within the ranges of `a`.
pub open spec fn no_edge_in(a: BoundingBox, b: BoundingBox) -> bool {
    &&& !(float_le(a.bottom_left.y, b.bottom_left.y) && float_le(b.bottom_left.y, a.top_right.y))
    &&& !(float_le(a.bottom_left.y, b.top_right.y) && float_le(b.top_right.y, a.top_right.y))
    &&& !(float_le(a.bottom_left.x, b.bottom_left.x) && float_le(b.bottom_left.x, a.top_right.x))
    &&& !(float_le(a.bottom_left.x, b.top_right.x) && float_le(b.top_right.x, a.top_right.x))
}

/// The placement of `b` with respect to `a`.
pub open spec fn placement(a: BoundingBox, b: BoundingBox) -> Placement {
    if all_edges_in(a, b) {
        Placement::Contains
    } else if all_edges_in(b, a) {
        Placement::Contained
    } else if no_edge_in(a, b) && no_edge_in(b, a) {
        Placement::Disjoint
    } else {
        Placement::Intersects
    }
}

/// The answer to `req` for a placement: every flag asked for is false but the
/// one (or, for containment, the two) that the placement names.
pub open spec fn placement_answer(p: Placement, req: InputRelation) -> OutputRelation {
    let out = OutputRelation::spec_all_false(req);
    match p {
        Placement::Contains => out.spec_with_strict_contains(),
        Placement::Contained => out.spec_with_strict_contained(),
        Placement::Intersects => out.spec_with_intersect(),
        Placement::Disjoint => out.spec_with_disjoint(),
    }
}

/// A box with no NaN edge and its corners in order.
pub open spec fn box_valid(b: BoundingBox) -> bool {
    &&& !is_nan(b.bottom_left.x) && !is_nan(b.bottom_left.y)
    &&& !is_nan(b.top_right.x) && !is_nan(b.top_right.y)
    &&& float_le(b.bottom_left.x, b.top_right.x)
    &&& float_le(b.bottom_left.y, b.top_right.y)
}

fn in_range(lo: u64, hi: u64, v: u64) -> (r: bool)
    ensures
        r == (float_le(lo, v) && float_le(v, hi)),
{
    float_le_bits(lo, v) && float_le_bits(v, hi)
}

/// Appends the 16 bytes of a coordinate.
pub fn write_coord(writer: &mut Vec<u8>, c: Coord)
    ensures
        final(writer)@ == old(writer)@ + enc_coord(c),
{
    let mut x = u64_to_le_bytes(c.x);
    let mut y = u64_to_le_bytes(c.y);
    writer.append(&mut x);
    writer.append(&mut y);
}

/// Extends a running box computation with every coordinate of `points`.
pub fn fold_points(acc: Option<BoundingBox>, points: &[Coord]) -> (r: Option<BoundingBox>)
    ensures
        r == fold_box(acc, points@),
{
    let mut cur = acc;
    let mut i: usize = 0;
    while i < points.len()
        invariant
            i <= points@.len(),
            cur == fold_box(acc, points@.take(i as int)),
        decreases points@.len() - i,
    {
        let c = points[i];
        assert(points@.take(i + 1).drop_last() =~= points@.take(i as int));
        cur = match cur {
            None => Some(BoundingBox { bottom_left: c, top_right: c }),
            Some(b) => Some(b.stretched(c)),
        };
        i = i + 1;
    }
    assert(points@.take(points@.len() as int) =~= points@);
    cur
}

/// The box of the coordinates folded so far, or the origin box when there was none.
pub fn box_or_origin(acc: Option<BoundingBox>) -> (r: BoundingBox)
    ensures
        r == (match acc {
            None => origin_box(),
            Some(b) => b,
        }),
{
    match acc {
        None => BoundingBox {
            bottom_left: Coord { x: 0, y: 0 },
            top_right: Coord { x: 0, y: 0 },
        },
        Some(b) => b,
    }
}

impl BoundingBox {
    /// Reads a box from its 32 encoded bytes.
    pub fn from_bytes(data: &[u8]) -> (r: Self)
        requires
            data@.len() == BOUNDING_BOX_SIZE_IN_BYTES,
        ensures
            r == (BoundingBox { bottom_left: coord_at(data@, 0), top_right: coord_at(data@, 16) }),
    {
        Self::read_at(data, 0)
    }

    /// Reads the box encoded at byte offset `off`.
    pub fn read_at(data: &[u8], off: usize) -> (r: Self)
        requires
            off + BOUNDING_BOX_SIZE_IN_BYTES <= data@.len(),
        ensures
            r == (BoundingBox {
                bottom_left: coord_at(data@, off as int),
                top_right: coord_at(data@, off + 16),
            }),
    {
        let _len = data.len();
        BoundingBox {
            bottom_left: Coord::read_at(data, off),
            top_right: Coord::read_at(data, off + COORD_SIZE_IN_BYTES),
        }
    }

    /// The box whose corners are the two coordinates of `coords`, bottom-left first.
    pub fn from_coords(coords: &Coords) -> (r: Self)
        requires
            coords@.len() == 2,
        ensures
            r == (BoundingBox { bottom_left: coords@[0], top_right: coords@[1] }),
    {
        BoundingBox { bottom_left: coords.get(0), top_right: coords.get(1) }
    }

    /// The box of a sequence of coordinates: the smallest rectangle that holds
    /// them all, or the origin box when there is none.
    pub fn of_points(points: &[Coord]) -> (r: Self)
        ensures
            r == bbox_of(points@),
    {
        box_or_origin(fold_points(None, points))
    }

    /// Appends the encoded box of `points`.
    pub fn write_from_geometry(writer: &mut Vec<u8>, points: &[Coord])
        ensures
            final(writer)@ == old(writer)@ + enc_box(bbox_of(points@)),
    {
        let b = Self::of_points(points);
        b.write(writer);
    }

    /// Appends the 32 bytes of this box.
    pub fn write(&self, writer: &mut Vec<u8>)
        ensures
            final(writer)@ == old(writer)@ + enc_box(*self),
    {
        write_coord(writer, self.bottom_left);
        write_coord(writer, self.top_right);
        assert(final(writer)@ =~= old(writer)@ + enc_box(*self));
    }

    /// This box stretched to hold `c`.
    pub fn stretched(&self, c: Coord) -> (r: Self)
        ensures
            r == stretch(*self, c),
    {
        let left = if float_lt_bits(c.x, self.bottom_left.x) {
            c.x
        } else {
            self.bottom_left.x
        };
        let bottom = if float_lt_bits(c.y, self.bottom_left.y) {
            c.y
        } else {
            self.bottom_left.y
        };
        let right = if float_lt_bits(self.top_right.x, c.x) {
            c.x
        } else {
            self.top_right.x
        };
        let top = if float_lt_bits(self.top_right.y, c.y) {
            c.y
        } else {
            self.top_right.y
        };
        BoundingBox { bottom_left: Coord { x: left, y: bottom }, top_right: Coord { x: right, y: top } }
    }

    pub fn bottom_left(&self) -> (r: Coord)
        ensures
            r == self.bottom_left,
    {
        self.bottom_left
    }

    pub fn top_right(&self) -> (r: Coord)
        ensures
            r == self.top_right,
    {
        self.top_right
    }

    /// The bottom latitude.
    pub fn bottom(&self) -> (r: u64)
        ensures
            r == self.bottom_left.y,
    {
        self.bottom_left.y
    }

    /// The top latitude.
    pub fn top(&self) -> (r: u64)
        ensures
            r == self.top_right.y,
    {
        self.top_right.y
    }

    /// The left longitude.
    pub fn left(&self) -> (r: u64)
        ensures
            r == self.bottom_left.x,
    {
        self.bottom_left.x
    }

    /// The right longitude.
    pub fn right(&self) -> (r: u64)
        ensures
            r == self.top_right.x,
    {
        self.top_right.x
    }

    /// Returns `true` if the coordinate lies in the box, edges included.
    pub fn contains_coord(&self, coord: &Coord) -> (r: bool)
        ensures
            r == box_contains(*self, *coord),
    {
        in_range(self.bottom_left.y, self.top_right.y, coord.y) && in_range(
            self.bottom_left.x,
            self.top_right.x,
            coord.x,
        )
    }

    /// Where `other` stands with respect to this box, by the closed ranges of
    /// each axis: all four edges of `other` inside means Contains, all four of
    /// this box inside `other` means Contained, none either way means Disjoint,
    /// anything else Intersects.
    pub fn placement(&self, other: &BoundingBox) -> (r: Placement)
        ensures
            r == placement(*self, *other),
    {
        let a = self.edges_inside(other);
        let b = other.edges_inside(self);
        if a == 4 {
            Placement::Contains
        } else if b == 4 {
            Placement::Contained
        } else if a == 0 && b == 0 {
            Placement::Disjoint
        } else {
            Placement::Intersects
        }
    }

    /// How many of the four edges of `other` fall within this box's ranges.
    fn edges_inside(&self, other: &BoundingBox) -> (r: u8)
        ensures
            r <= 4,
            r == 4 <==> all_edges_in(*self, *other),
            r == 0 <==> no_edge_in(*self, *other),
    {
        let t1 = in_range(self.bottom_left.y, self.top_right.y, other.bottom_left.y);
        let t2 = in_range(self.bottom_left.y, self.top_right.y, other.top_right.y);
        let t3 = in_range(self.bottom_left.x, self.top_right.x, other.bottom_left.x);
        let t4 = in_range(self.bottom_left.x, self.top_right.x, other.top_right.x);
        (t1 as u8) + (t2 as u8) + (t3 as u8) + (t4 as u8)
    }

    /// The relation between two boxes, answered for the flags of `relation`.
    pub fn relation_to_box(&self, other: &BoundingBox, relation: InputRelation) -> (r: OutputRelation)
        ensures
            r == placement_answer(placement(*self, *other), relation),
            answers(r, relation),
    {
        let out = relation.to_false();
        match self.placement(other) {
            Placement::Contains => out.make_strict_contains_if_set(),
            Placement::Contained => out.make_strict_contained_if_set(),
            Placement::Intersects => out.make_intersect_if_set(),
            Placement::Disjoint => out.make_disjoint_if_set(),
        }
    }

    /// The relation between this box and a coordinate: strict containment when
    /// the coordinate lies in the box, else disjoint.
    pub fn relation_to_coord(&self, other: &Coord, relation: InputRelation) -> (r: OutputRelation)
        ensures
            r == (if box_contains(*self, *other) {
                OutputRelation::spec_all_false(relation).spec_with_strict_contains()
            } else {
                OutputRelation::spec_all_false(relation).spec_with_disjoint()
            }),
            answers(r, relation),
    {
        if self.contains_coord(other) {
            relation.to_false().make_strict_contains_if_set()
        } else {
            relation.to_false().make_disjoint_if_set()
        }
    }

    /// Returns `true` if the two boxes are disjoint.
    pub fn disjoint_from(&self, other: &BoundingBox) -> (r: bool)
        ensures
            r == (placement(*self, *other) == Placement::Disjoint),
    {
        match self.placement(other) {
            Placement::Disjoint => true,
            _ => false,
        }
    }
}

impl RelationBetweenShapes<BoundingBox> for BoundingBox {
    open spec fn relation_spec(&self, other: &BoundingBox, relation: InputRelation) -> OutputRelation {
        placement_answer(placement(*self, *other), relation)
    }

    fn relation(&self, other: &BoundingBox, relation: InputRelation) -> (r: OutputRelation) {
        self.relation_to_box(other, relation)
    }
}

impl RelationBetweenShapes<Coord> for BoundingBox {
    open spec fn relation_spec(&self, other: &Coord, relation: InputRelation) -> OutputRelation {
        if box_contains(*self, *other) {
            OutputRelation::spec_all_false(relation).spec_with_strict_contains()
        } else {
            OutputRelation::spec_all_false(relation).spec_with_disjoint()
        }
    }

    fn relation(&self, other: &Coord, relation: InputRelation) -> (r: OutputRelation) {
        self.relation_to_coord(other, relation)
    }
}

/// Running the box computation over `a + b` is running it over `a`, then over `b`.
pub proof fn lemma_fold_box_append(acc: Option<BoundingBox>, a: Seq<Coord>, b: Seq<Coord>)
    ensures
        fold_box(acc, a + b) == fold_box(fold_box(acc, a), b),
    decreases b.len(),
{
    if b.len() == 0 {
        assert(a + b =~= a);
    } else {
        assert((a + b).drop_last() =~= a + b.drop_last());
        lemma_fold_box_append(acc, a, b.drop_last());
    }
}

/// Every coordinate folded into a box lies in it, and the box stays valid.
proof fn lemma_fold_box_covers(s: Seq<Coord>)
    requires
        forall|i: int| 0 <= i < s.len() ==> !is_nan(#[trigger] s[i].x) && !is_nan(s[i].y),
    ensures
        s.len() > 0 ==> fold_box(None, s) is Some,
        fold_box(None, s) matches Some(b) ==> box_valid(b) && forall|i: int|
            0 <= i < s.len() ==> box_contains(b, #[trigger] s[i]),
    decreases s.len(),
{
    if s.len() > 0 {
        let p = s.drop_last();
        assert forall|i: int| 0 <= i < p.len() implies !is_nan(#[trigger] p[i].x) && !is_nan(
            p[i].y,
        ) by {
            assert(p[i] == s[i]);
        }
        lemma_fold_box_covers(p);
        let last = s.last();
        match fold_box(None, p) {
            None => {},
            Some(b) => {
                let nb = stretch(b, last);
                assert forall|i: int| 0 <= i < s.len() implies box_contains(nb, #[trigger] s[i]) by {
                    if i < p.len() {
                        assert(p[i] == s[i]);
                        assert(box_contains(b, p[i]));
                    }
                }
            },
        }
    }
}

/// Every vertex of a geometry lies in its bounding box, edges included, when
/// no coordinate is a NaN.
pub proof fn lemma_bbox_contains_vertices(s: Seq<Coord>)
    requires
        forall|i: int| 0 <= i < s.len() ==> !is_nan(#[trigger] s[i].x) && !is_nan(s[i].y),
    ensures
        forall|i: int| 0 <= i < s.len() ==> box_contains(bbox_of(s), #[trigger] s[i]),
        box_valid(bbox_of(s)),
{
    lemma_fold_box_covers(s);
}

/// The placement of two boxes is the same read from either side: Disjoint and
/// Intersects are symmetric, and Contains one way is Contained the other way,
/// but for two boxes with the same edges, which contain each other.
pub proof fn lemma_placement_antisymmetric(a: BoundingBox, b: BoundingBox)
    ensures
        (placement(a, b) == Placement::Disjoint) == (placement(b, a) == Placement::Disjoint),
        (placement(a, b) == Placement::Intersects) == (placement(b, a) == Placement::Intersects),
        !(all_edges_in(a, b) && all_edges_in(b, a)) ==> {
            &&& (placement(a, b) == Placement::Contains) == (placement(b, a)
                == Placement::Contained)
            &&& (placement(a, b) == Placement::Contained) == (placement(b, a)
                == Placement::Contains)
        },
{
}

/// For valid boxes, Contains means the second box lies inside the first,
/// edges included, and Contained the reverse.
pub proof fn lemma_placement_contains_inside(a: BoundingBox, b: BoundingBox)
    requires
        box_valid(a),
        box_valid(b),
    ensures
        all_edges_in(a, b) <==> (float_le(a.bottom_left.x, b.bottom_left.x) && float_le(
            b.top_right.x,
            a.top_right.x,
        ) && float_le(a.bottom_left.y, b.bottom_left.y) && float_le(b.top_right.y, a.top_right.y)),
        placement(a, b) == Placement::Contained ==> all_edges_in(b, a),
{
}

} // verus!
