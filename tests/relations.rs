use geo::Intersects;
use zerometry::relate::SegmentIntersection;
use zerometry::{
    BoundingBox, Coord, Geometry, InputRelation, OutputRelation, RelationBetweenShapes, Segment,
    Zerometry, Zine, Zoint, Zolygon, ZultiLines, ZultiPolygons,
};

/// Segment intersection as the geometry library decides it.
struct GeoSegments;

fn geo_coord(c: Coord) -> geo_types::Coord<f64> {
    geo_types::Coord { x: f64::from_bits(c.x), y: f64::from_bits(c.y) }
}

impl SegmentIntersection for GeoSegments {
    fn meets(&self, a: Segment, b: Segment) -> bool {
        self.intersects(&a, &b)
    }

    fn intersects(&self, a: &Segment, b: &Segment) -> bool {
        let a = geo_types::Line::new(geo_coord(a.start), geo_coord(a.end));
        let b = geo_types::Line::new(geo_coord(b.start), geo_coord(b.end));
        a.intersects(&b)
    }
}

fn c(x: f64, y: f64) -> Coord {
    Coord::new(x.to_bits(), y.to_bits())
}

fn pts(values: &[(f64, f64)]) -> Vec<Coord> {
    values.iter().map(|(x, y)| c(*x, *y)).collect()
}

fn ring(values: &[(f64, f64)]) -> Vec<Coord> {
    let mut out = pts(values);
    if let (Some(first), Some(last)) = (out.first().copied(), out.last().copied()) {
        if (f64::from_bits(first.x), f64::from_bits(first.y))
            != (f64::from_bits(last.x), f64::from_bits(last.y))
        {
            out.push(first);
        }
    }
    out
}

fn bbox(l: f64, b: f64, r: f64, t: f64) -> BoundingBox {
    BoundingBox { bottom_left: c(l, b), top_right: c(r, t) }
}

fn encode(g: Geometry) -> Vec<u8> {
    let mut buf = Vec::new();
    Zerometry::write_from_geometry(&mut buf, &g).unwrap();
    buf
}

fn polygon_bytes(values: &[(f64, f64)]) -> Vec<u8> {
    let mut buf = Vec::new();
    Zolygon::write_from_geometry(&mut buf, &ring(values));
    buf
}

fn line_bytes(values: &[(f64, f64)]) -> Vec<u8> {
    let mut buf = Vec::new();
    Zine::write_from_geometry(&mut buf, &pts(values));
    buf
}

fn multi_polygon_bytes(polygons: &[&[(f64, f64)]]) -> Vec<u8> {
    let parts: Vec<Vec<Coord>> = polygons.iter().map(|p| ring(p)).collect();
    let mut buf = Vec::new();
    ZultiPolygons::write_from_geometry(&mut buf, &parts).unwrap();
    buf
}

fn multi_line_bytes(lines: &[&[(f64, f64)]]) -> Vec<u8> {
    let parts: Vec<Vec<Coord>> = lines.iter().map(|l| pts(l)).collect();
    let mut buf = Vec::new();
    ZultiLines::write_from_geometry(&mut buf, &parts).unwrap();
    buf
}

fn out(flags: [bool; 6]) -> OutputRelation {
    OutputRelation {
        contains: Some(flags[0]),
        strict_contains: Some(flags[1]),
        contained: Some(flags[2]),
        strict_contained: Some(flags[3]),
        intersect: Some(flags[4]),
        disjoint: Some(flags[5]),
    }
}

const SQUARE: &[(f64, f64)] = &[(0.0, 0.0), (10.0, 0.0), (10.0, 10.0), (0.0, 10.0)];
const UNIT: &[(f64, f64)] = &[(0., 0.), (1., 0.), (1., 1.), (0., 1.)];
const FAR: &[(f64, f64)] = &[(5., 5.), (6., 5.), (6., 6.), (5., 6.)];
const SMALL: &[(f64, f64)] = &[(0.5, 0.5), (0.6, 0.5), (0.6, 0.6), (0.5, 0.6)];
const INSIDE_LINE: &[(f64, f64)] = &[(0.4, 0.4), (0.6, 0.4), (0.6, 0.6), (0.4, 0.6)];
const OUTSIDE_LINE: &[(f64, f64)] = &[(-0.4, -0.4), (-0.6, -0.4), (-0.6, -0.6), (-0.4, -0.6)];

fn all(a: &Zerometry, b: &Zerometry) -> OutputRelation {
    a.relation(b, InputRelation::all(), &GeoSegments)
}

fn any(a: &Zerometry, b: &Zerometry) -> OutputRelation {
    a.relation(b, InputRelation::any(), &GeoSegments)
}

#[test]
fn test_bounding_box_contains_coord() {
    let bb = bbox(1.0, 2.0, 3.0, 4.0);
    assert!(bb.contains_coord(&c(2.0, 3.0)));
    assert!(!bb.contains_coord(&c(0.0, 0.0)));
}

#[test]
fn test_bounding_box_relation_to_coord() {
    let bb = bbox(0.0, 0.0, 10.0, 10.0);
    assert!(bb.contains(&c(2.0, 3.0)));
    assert!(bb.contains(&c(0.0, 0.0)));
    assert!(bb.contains(&c(10.0, 10.0)));
    assert!(bb.disjoint(&c(11.0, 11.0)));
    assert!(bb.disjoint(&c(-1.0, -1.0)));
}

#[test]
fn test_bounding_box_relation_to_bounding_box() {
    let bb = bbox(0.0, 0.0, 10.0, 10.0);
    assert!(bb.contains(&bbox(1.0, 1.0, 3.0, 3.0)));
    assert!(bb.intersects(&bbox(-1.0, 0.0, 1.0, 2.0)));
    assert!(bb.intersects(&bbox(10.0, 0.0, 20.0, 10.0)));
    assert!(bb.contains(&bbox(0.0, 0.0, 10.0, 10.0)));
    assert!(bb.contained(&bbox(-1.0, -1.0, 11.0, 11.0)));
    assert!(bb.disjoint(&bbox(11.0, 11.0, 12.0, 12.0)));
}

#[test]
fn bounding_box_placement_read_from_both_sides() {
    let outer = bbox(0.0, 0.0, 10.0, 10.0);
    let inner = bbox(1.0, 1.0, 9.0, 9.0);
    assert_eq!(outer.all_relation(&inner), out([true, true, false, false, false, false]));
    assert_eq!(inner.all_relation(&outer), out([false, false, true, true, false, false]));
    let crossing = bbox(5.0, 5.0, 15.0, 15.0);
    assert!(outer.intersects(&crossing) && crossing.intersects(&outer));
    let far = bbox(20.0, 20.0, 30.0, 30.0);
    assert!(outer.disjoint(&far) && far.disjoint(&outer));
    // Shared edges: still containment, read from both sides.
    let touching = bbox(0.0, 0.0, 5.0, 5.0);
    assert!(outer.contains(&touching));
    assert!(touching.contained(&outer));
    assert_eq!(touching.all_relation(&outer), out([false, false, true, true, false, false]));
}

#[test]
fn test_zolygon_relation_to_zoint() {
    let buf = polygon_bytes(SQUARE);
    let zolygon = Zolygon::from_bytes(&buf).unwrap();
    let inside = Zoint::new(c(5.0, 5.0));
    let outside = Zoint::new(c(15.0, 15.0));
    let r = zolygon.relation_to_zoint(&inside, InputRelation::all(), &GeoSegments);
    assert_eq!(r.contains, Some(true));
    assert_eq!(r.disjoint, Some(false));
    let r = zolygon.relation_to_zoint(&outside, InputRelation::all(), &GeoSegments);
    assert_eq!(r.disjoint, Some(true));
    assert_eq!(r.contains, Some(false));
}

fn polygon_pair(first: &[(f64, f64)], second: &[(f64, f64)]) -> (OutputRelation, OutputRelation) {
    let a = encode(Geometry::Polygon(ring(first)));
    let b = encode(Geometry::Polygon(ring(second)));
    let a = Zerometry::from_bytes(&a).unwrap();
    let b = Zerometry::from_bytes(&b).unwrap();
    (all(&a, &b), all(&b, &a))
}

#[test]
fn test_zolygon_relation_to_zolygon_intersects_basic() {
    let (ab, ba) = polygon_pair(SQUARE, &[(5.0, 5.0), (15.0, 5.0), (15.0, 15.0), (5.0, 15.0)]);
    assert_eq!(ab, out([false, false, false, false, true, false]));
    assert_eq!(ba, out([false, false, false, false, true, false]));
}

#[test]
fn test_zolygon_relation_to_zolygon_intersects_diagonal() {
    let (ab, ba) = polygon_pair(SQUARE, &[(5.0, 7.0), (8.0, 10.0), (5.0, 13.0), (2.0, 10.0)]);
    assert_eq!(ab.intersect, Some(true));
    assert_eq!(ba.intersect, Some(true));
}

#[test]
fn test_zolygon_relation_to_zolygon_intersects_on_edge() {
    let (ab, ba) = polygon_pair(SQUARE, &[(10.0, 0.0), (15.0, 0.0), (15.0, 10.0), (10.0, 10.0)]);
    assert_eq!(ab.intersect, Some(true));
    assert_eq!(ba.intersect, Some(true));
}

#[test]
fn test_zolygon_relation_to_zolygon_contains() {
    let (ab, ba) = polygon_pair(SQUARE, &[(1.0, 1.0), (1.0, 9.0), (9.0, 9.0), (9.0, 1.0)]);
    assert_eq!(ab, out([true, true, false, false, false, false]));
    assert_eq!(ba, out([false, false, true, true, false, false]));
}

#[test]
fn test_zolygon_relation_to_zolygon_disjoint_basic() {
    let (ab, ba) =
        polygon_pair(SQUARE, &[(15.0, 15.0), (15.0, 25.0), (25.0, 25.0), (25.0, 15.0)]);
    assert_eq!(ab, out([false, false, false, false, false, true]));
    assert_eq!(ba, out([false, false, false, false, false, true]));
}

#[test]
fn test_zolygon_relation_to_zolygon_disjoint_near() {
    let (ab, ba) = polygon_pair(
        &[(0.0, 0.0), (10.0, 0.0), (10.0, 10.0)],
        &[(0.0, 1.0), (10.0, 11.0), (0.0, 11.0)],
    );
    assert_eq!(ab.disjoint, Some(true));
    assert_eq!(ba.disjoint, Some(true));
}

#[test]
fn test_zine_in_polygon() {
    let line = line_bytes(INSIDE_LINE);
    let polygon = polygon_bytes(UNIT);
    let zine = Zine::from_bytes(&line).unwrap();
    let zolygon = Zolygon::from_bytes(&polygon).unwrap();
    // A line never contains a polygon: lying inside it, it is contained.
    assert_eq!(
        zine.relation_to_zolygon(&zolygon, InputRelation::all(), &GeoSegments),
        out([false, false, true, true, false, false])
    );
}

#[test]
fn test_zine_and_multipolygon() {
    let line = line_bytes(INSIDE_LINE);
    let zine = Zine::from_bytes(&line).unwrap();
    let rel = |polygons: &[&[(f64, f64)]], req: InputRelation| {
        let buf = multi_polygon_bytes(polygons);
        let multi = ZultiPolygons::from_bytes(&buf).unwrap();
        zine.relation_to_zulti_polygons(&multi, req, &GeoSegments)
    };
    assert_eq!(rel(&[UNIT], InputRelation::all()), out([false, false, true, true, false, false]));
    assert_eq!(rel(&[FAR], InputRelation::all()), out([false, false, false, false, false, true]));
    assert_eq!(rel(&[SMALL], InputRelation::all()), out([false, false, false, false, true, false]));
    assert_eq!(
        rel(&[UNIT, FAR], InputRelation::all()),
        out([false, false, true, true, false, false])
    );
    assert_eq!(
        rel(&[UNIT, FAR, SMALL], InputRelation::all()),
        out([false, false, true, true, true, false])
    );
    // With early exit the answer comes at the first polygon: `intersect` keeps
    // its seeded `false` although the third polygon would have set it.
    assert_eq!(
        rel(&[UNIT, FAR, SMALL], InputRelation::any()),
        out([false, false, true, true, false, false])
    );
}

#[test]
fn test_multi_lines_and_multipolygon() {
    let strict_inside = multi_line_bytes(&[INSIDE_LINE, INSIDE_LINE]);
    let outside = multi_line_bytes(&[OUTSIDE_LINE, OUTSIDE_LINE]);
    let inside = multi_line_bytes(&[OUTSIDE_LINE, INSIDE_LINE]);
    let strict_inside = ZultiLines::from_bytes(&strict_inside).unwrap();
    let outside = ZultiLines::from_bytes(&outside).unwrap();
    let inside = ZultiLines::from_bytes(&inside).unwrap();
    let rel = |lines: &ZultiLines, polygons: &[&[(f64, f64)]], req: InputRelation| {
        let buf = multi_polygon_bytes(polygons);
        let multi = ZultiPolygons::from_bytes(&buf).unwrap();
        lines.relation_to_zulti_polygons(&multi, req, &GeoSegments)
    };
    let all = InputRelation::all();
    let any = InputRelation::any();
    assert_eq!(rel(&strict_inside, &[UNIT], all), out([false, false, true, true, false, false]));
    assert_eq!(rel(&strict_inside, &[FAR], all), out([false, false, false, false, false, true]));
    assert_eq!(rel(&strict_inside, &[SMALL], all), out([false, false, false, false, true, false]));
    assert_eq!(
        rel(&strict_inside, &[UNIT, FAR], all),
        out([false, false, true, true, false, false])
    );
    assert_eq!(
        rel(&strict_inside, &[UNIT, FAR, SMALL], all),
        out([false, false, true, true, true, false])
    );
    assert_eq!(
        rel(&strict_inside, &[UNIT, FAR, SMALL], any),
        out([false, false, true, false, false, false])
    );
    for polygons in [&[UNIT][..], &[FAR][..], &[SMALL][..], &[UNIT, FAR][..], &[UNIT, FAR, SMALL][..]]
    {
        assert_eq!(rel(&outside, polygons, all), out([false, false, false, false, false, true]));
    }
    assert_eq!(rel(&outside, &[UNIT, FAR, SMALL], any), out([false, false, false, false, false, true]));
    assert_eq!(rel(&inside, &[UNIT], all), out([false, false, true, false, false, false]));
    assert_eq!(rel(&inside, &[FAR], all), out([false, false, false, false, false, true]));
}

#[test]
fn test_multi_polygon_contains_polygon() {
    let polygon: &[(f64, f64)] = UNIT;
    let unrelated: &[(f64, f64)] = &[(100., 100.), (150., 100.), (150., 150.), (100., 150.)];
    let contained: &[(f64, f64)] = &[(0.4, 0.4), (0.6, 0.4), (0.6, 0.6), (0.4, 0.6)];
    let contained_contained: &[(f64, f64)] =
        &[(0.45, 0.45), (0.55, 0.45), (0.55, 0.55), (0.45, 0.55)];
    let zolygon_buf = polygon_bytes(polygon);
    let zolygon = Zolygon::from_bytes(&zolygon_buf).unwrap();
    let contained_buf = polygon_bytes(contained);
    let contained_zolygon = Zolygon::from_bytes(&contained_buf).unwrap();
    let unrelated_buf = polygon_bytes(unrelated);
    let unrelated_zolygon = Zolygon::from_bytes(&unrelated_buf).unwrap();
    let b1 = multi_polygon_bytes(&[polygon, unrelated]);
    let multi_contains = ZultiPolygons::from_bytes(&b1).unwrap();
    let b2 = multi_polygon_bytes(&[polygon, contained_contained]);
    let multi_contains_and_contained = ZultiPolygons::from_bytes(&b2).unwrap();
    let b3 = multi_polygon_bytes(&[polygon, contained]);
    let multi_contains_twice = ZultiPolygons::from_bytes(&b3).unwrap();
    let b4 = multi_polygon_bytes(&[contained, contained_contained]);
    let multi_contained_twice = ZultiPolygons::from_bytes(&b4).unwrap();
    let all = InputRelation::all();
    let g = &GeoSegments;
    assert_eq!(
        multi_contains.relation_to_zolygon(&contained_zolygon, all, g),
        out([true, true, false, false, false, false])
    );
    assert_eq!(
        multi_contains_and_contained.relation_to_zolygon(&contained_zolygon, all, g),
        out([true, true, true, false, false, false])
    );
    assert_eq!(
        multi_contains_twice.relation_to_zolygon(&contained_zolygon, all, g),
        out([true, true, false, false, true, false])
    );
    assert_eq!(
        multi_contains_and_contained.relation_to_zolygon(&unrelated_zolygon, all, g),
        out([false, false, false, false, false, true])
    );
    assert_eq!(
        multi_contained_twice.relation_to_zolygon(&zolygon, all, g),
        out([false, false, true, true, false, false])
    );
    assert_eq!(
        multi_contained_twice.relation_to_zulti_polygons(&multi_contains, all, g),
        out([false, false, true, true, false, false])
    );
    assert_eq!(
        multi_contains_and_contained.relation_to_zulti_polygons(&multi_contained_twice, all, g),
        out([true, true, true, false, true, false])
    );
}

#[test]
fn test_mono_multipolygon_contains_points() {
    let point = Zerometry::Point(Zoint::new(c(6.0197316417968105, 49.63676497357687)));
    let wrong = encode(Geometry::MultiPolygon(vec![ring(&[
        (-6.436337296790293, 55.37739041554851),
        (-4.889760342933786, 51.22372845966178),
        (1.188509553443464, 49.47027919866874),
        (3.6300086390995316, 50.610463312569514),
        (6.259687055981991, 51.96477015603749),
        (5.52364654929031, 55.70676846515227),
        (-0.9315871635106105, 57.689497374592854),
        (-6.436337296790293, 55.37739041554851),
    ])]));
    let wrong = Zerometry::from_bytes(&wrong).unwrap();
    assert_eq!(all(&wrong, &point).disjoint, Some(true));

    let right = encode(Geometry::MultiPolygon(vec![ring(&[
        (7.509948481928903, 43.78660935394501),
        (12.677317810359865, 46.406957457982266),
        (12.345747364400054, 50.55427508726938),
        (6.259687055981991, 51.96477015603749),
        (3.630008639099554, 50.610463312569486),
        (1.188509553443464, 49.47027919866874),
        (2.026568965384611, 45.18424868970644),
        (7.509948481928903, 43.78660935394501),
    ])]));
    let right = Zerometry::from_bytes(&right).unwrap();
    let r = all(&right, &point);
    assert_eq!(r.contains, Some(true));
    assert_eq!(r.disjoint, Some(false));
}

#[test]
fn point_in_square_and_outside_it() {
    let polygon = encode(Geometry::Polygon(ring(SQUARE)));
    let polygon = Zerometry::from_bytes(&polygon).unwrap();
    let inside = Zerometry::Point(Zoint::new(c(5.0, 5.0)));
    let outside = Zerometry::Point(Zoint::new(c(15.0, 15.0)));
    let r = all(&polygon, &inside);
    assert_eq!((r.contains, r.disjoint), (Some(true), Some(false)));
    assert_eq!(all(&polygon, &outside).disjoint, Some(true));
    // Read from the point's side, the point is contained.
    let r = all(&inside, &polygon);
    assert_eq!(r, out([false, false, true, true, false, false]));
}

#[test]
fn point_in_polygon_ignores_where_the_ring_starts() {
    let rings = [
        vec![(0.0, 0.0), (10.0, 0.0), (10.0, 10.0), (0.0, 10.0)],
        vec![(10.0, 0.0), (10.0, 10.0), (0.0, 10.0), (0.0, 0.0)],
        vec![(10.0, 10.0), (0.0, 10.0), (0.0, 0.0), (10.0, 0.0)],
        vec![(0.0, 10.0), (0.0, 0.0), (10.0, 0.0), (10.0, 10.0)],
    ];
    for (x, y, expected) in [(5.0, 5.0, true), (2.5, 7.5, true), (12.0, 5.0, false), (5.0, -1.0, false)] {
        for r in &rings {
            let buf = polygon_bytes(r);
            let zolygon = Zolygon::from_bytes(&buf).unwrap();
            let got = zolygon.relation_to_coord(&c(x, y), InputRelation::all(), &GeoSegments);
            assert_eq!(got.contains, Some(expected), "({x}, {y}) with ring {r:?}");
        }
    }
}

#[test]
fn segment_intersection_reads_the_same_both_ways() {
    let cases = [
        ((0.0, 0.0), (10.0, 10.0), (0.0, 10.0), (10.0, 0.0)),
        ((0.0, 0.0), (10.0, 0.0), (5.0, 0.0), (15.0, 0.0)),
        ((0.0, 0.0), (10.0, 0.0), (0.0, 1.0), (10.0, 1.0)),
        ((0.0, 0.0), (5.0, 5.0), (5.0, 5.0), (9.0, 0.0)),
    ];
    for (a0, a1, b0, b1) in cases {
        let a = encode(Geometry::LineString(pts(&[a0, a1])));
        let b = encode(Geometry::LineString(pts(&[b0, b1])));
        let a = Zerometry::from_bytes(&a).unwrap();
        let b = Zerometry::from_bytes(&b).unwrap();
        assert_eq!(all(&a, &b), all(&b, &a));
    }
}

#[test]
fn strict_flags_come_with_their_plain_flags() {
    let shapes = [
        encode(Geometry::Polygon(ring(SQUARE))),
        encode(Geometry::MultiPolygon(vec![ring(UNIT), ring(FAR)])),
        encode(Geometry::MultiLineString(vec![pts(INSIDE_LINE), pts(OUTSIDE_LINE)])),
        encode(Geometry::MultiPoint(pts(&[(0.5, 0.5), (5.5, 5.5)]))),
        encode(Geometry::LineString(pts(INSIDE_LINE))),
        encode(Geometry::GeometryCollection(vec![
            Geometry::Point(c(0.5, 0.5)),
            Geometry::Polygon(ring(UNIT)),
        ])),
    ];
    let views: Vec<Zerometry> = shapes.iter().map(|b| Zerometry::from_bytes(b).unwrap()).collect();
    for a in &views {
        for b in &views {
            for r in [all(a, b), any(a, b)] {
                if r.strict_contains == Some(true) {
                    assert_eq!(r.contains, Some(true));
                }
                if r.strict_contained == Some(true) {
                    assert_eq!(r.contained, Some(true));
                }
            }
        }
    }
}

#[test]
fn early_exit_leaves_unreached_flags_false() {
    // The square contains the point strictly inside it and crosses the line.
    let collection = encode(Geometry::GeometryCollection(vec![
        Geometry::Point(c(5.0, 5.0)),
        Geometry::LineString(pts(&[(5.0, 5.0), (20.0, 5.0)])),
    ]));
    let collection = Zerometry::from_bytes(&collection).unwrap();
    let square = encode(Geometry::Polygon(ring(SQUARE)));
    let square = Zerometry::from_bytes(&square).unwrap();
    let req = InputRelation { contains: true, intersect: true, early_exit: true, ..InputRelation::none() };
    let r = square.relation(&collection, req, &GeoSegments);
    assert_eq!(r.contains, Some(true));
    assert_eq!(r.intersect, Some(false));
    let req = InputRelation { early_exit: false, ..req };
    let r = square.relation(&collection, req, &GeoSegments);
    assert_eq!(r.contains, Some(true));
    assert_eq!(r.intersect, Some(true));
}

#[test]
fn disjoint_boxes_short_circuit() {
    let a = encode(Geometry::Polygon(ring(SQUARE)));
    let b = encode(Geometry::Polygon(ring(&[(20.0, 20.0), (30.0, 20.0), (30.0, 30.0)])));
    let a = Zerometry::from_bytes(&a).unwrap();
    let b = Zerometry::from_bytes(&b).unwrap();
    /// An intersection test that must not be reached.
    struct Unreachable;
    impl SegmentIntersection for Unreachable {
        fn meets(&self, _: Segment, _: Segment) -> bool {
            panic!("no segment test is needed for disjoint boxes")
        }

        fn intersects(&self, _: &Segment, _: &Segment) -> bool {
            panic!("no segment test is needed for disjoint boxes")
        }
    }
    let r = a.relation(&b, InputRelation::all(), &Unreachable);
    assert_eq!(r, out([false, false, false, false, false, true]));
}

#[test]
fn multipolygon_strict_containment_counts_members() {
    let line = encode(Geometry::LineString(pts(INSIDE_LINE)));
    let line = Zerometry::from_bytes(&line).unwrap();
    let two = encode(Geometry::MultiPolygon(vec![ring(UNIT), ring(FAR)]));
    let two = Zerometry::from_bytes(&two).unwrap();
    let three = encode(Geometry::MultiPolygon(vec![
        ring(UNIT),
        ring(FAR),
        ring(&[(20.0, 20.0), (21.0, 20.0), (21.0, 21.0), (20.0, 21.0)]),
    ]));
    let three = Zerometry::from_bytes(&three).unwrap();
    // The line lies in one member of each: contained, strictly, as one line.
    assert_eq!(all(&line, &two), out([false, false, true, true, false, false]));
    assert_eq!(all(&line, &three), out([false, false, true, true, false, false]));
    // Read from the multi-polygon's side: it contains the line, and is not
    // contained in it.
    assert_eq!(all(&two, &line), out([true, true, false, false, false, false]));
    // Two lines, only one of which lies in a member: contained, not strictly.
    let lines = encode(Geometry::MultiLineString(vec![pts(INSIDE_LINE), pts(OUTSIDE_LINE)]));
    let lines = Zerometry::from_bytes(&lines).unwrap();
    assert_eq!(all(&lines, &two), out([false, false, true, false, false, false]));
    assert_eq!(all(&lines, &three), out([false, false, true, false, false, false]));
}

#[test]
fn empty_shapes_relate_as_disjoint() {
    let square = encode(Geometry::Polygon(ring(SQUARE)));
    let square = Zerometry::from_bytes(&square).unwrap();
    for g in [
        Geometry::LineString(vec![]),
        Geometry::Polygon(vec![]),
        Geometry::MultiPoint(vec![]),
        Geometry::GeometryCollection(vec![]),
    ] {
        let buf = encode(g);
        let empty = Zerometry::from_bytes(&buf).unwrap();
        assert_eq!(all(&empty, &square), out([false, false, false, false, false, true]));
        assert_eq!(all(&square, &empty), out([false, false, false, false, false, true]));
    }
}

#[test]
fn points_never_contain_or_intersect() {
    let point = Zerometry::Point(Zoint::new(c(1.0, 1.0)));
    let points = encode(Geometry::MultiPoint(pts(&[(1.0, 1.0), (2.0, 2.0)])));
    let points = Zerometry::from_bytes(&points).unwrap();
    let line = encode(Geometry::LineString(pts(&[(0.0, 0.0), (2.0, 2.0)])));
    let line = Zerometry::from_bytes(&line).unwrap();
    for (a, b) in [(&point, &point), (&point, &points), (&points, &line), (&point, &line)] {
        assert_eq!(all(a, b), out([false, false, false, false, false, true]));
    }
}
