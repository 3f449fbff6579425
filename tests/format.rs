use zerometry::coord::{float_le_bits, float_lt_bits, next_down_bits};
use zerometry::{
    BoundingBox, Coord, Coords, DecodeError, Geometry, Segment, Zerometry, Zine, Zoint, Zollection,
    Zolygon, ZultiLines, ZultiPoints, ZultiPolygons,
};

fn c(x: f64, y: f64) -> Coord {
    Coord::new(x.to_bits(), y.to_bits())
}

fn xy(coord: Coord) -> (f64, f64) {
    (f64::from_bits(coord.x), f64::from_bits(coord.y))
}

fn pts(values: &[(f64, f64)]) -> Vec<Coord> {
    values.iter().map(|(x, y)| c(*x, *y)).collect()
}

/// A polygon ring closed the way the geometry library closes it.
fn ring(values: &[(f64, f64)]) -> Vec<Coord> {
    let mut out = pts(values);
    if let (Some(first), Some(last)) = (out.first().copied(), out.last().copied()) {
        if xy(first) != xy(last) {
            out.push(first);
        }
    }
    out
}

fn floats(bytes: &[u8]) -> Vec<f64> {
    bytes.chunks(8).map(|b| f64::from_le_bytes(b.try_into().unwrap())).collect()
}

fn u32_at(bytes: &[u8], off: usize) -> u32 {
    u32::from_le_bytes(bytes[off..off + 4].try_into().unwrap())
}

fn box_values(bb: BoundingBox) -> [f64; 4] {
    let (l, b) = xy(bb.bottom_left);
    let (r, t) = xy(bb.top_right);
    [l, b, r, t]
}

fn coords_of(coords: &Coords) -> Vec<(f64, f64)> {
    coords.to_vec().into_iter().map(xy).collect()
}

fn encode(g: &Geometry) -> Vec<u8> {
    let mut buf = Vec::new();
    Zerometry::write_from_geometry(&mut buf, g).unwrap();
    buf
}

fn create_lines(n: f64) -> Vec<Vec<Coord>> {
    vec![
        pts(&[(n, n), (n + 1.0, n + 1.0), (n + 2.0, n + 1.0)]),
        pts(&[(n + 3.0, n + 1.0), (n + 4.0, n + 1.0)]),
    ]
}

fn create_polygons(n: f64) -> Vec<Vec<Coord>> {
    vec![
        ring(&[(n, n), (n + 1.0, n + 1.0), (n + 2.0, n + 2.0)]),
        ring(&[(n + 3.0, n + 3.0), (n + 4.0, n + 4.0), (n + 5.0, n + 5.0)]),
    ]
}

#[test]
fn test_basic_create_coord_from_bytes() {
    let mut data = Vec::new();
    data.extend_from_slice(&1.0f64.to_le_bytes());
    data.extend_from_slice(&2.0f64.to_le_bytes());
    let coord = Coord::from_bytes(&data);
    assert_eq!(f64::from_bits(coord.lng()), 1.0);
    assert_eq!(f64::from_bits(coord.lat()), 2.0);
}

#[test]
fn test_basic_create_coords_from_bytes() {
    let mut data = Vec::new();
    for v in [1.0f64, 2.0, 3.0, 4.0] {
        data.extend_from_slice(&v.to_le_bytes());
    }
    let coords = Coords::from_bytes(&data);
    assert_eq!(coords.len(), 2);
    assert!(!coords.is_empty());
    assert_eq!(xy(coords.get(0)), (1.0, 2.0));
    assert_eq!(xy(coords.get(1)), (3.0, 4.0));
    assert_eq!(coords_of(&coords), vec![(1.0, 2.0), (3.0, 4.0)]);
    let empty = Coords::from_bytes(&[]);
    assert_eq!(empty.len(), 0);
    assert!(empty.is_empty());
}

#[test]
fn test_bounding_box_from_bytes() {
    let mut data = Vec::new();
    for v in [1.0f64, 2.0, 3.0, 4.0] {
        data.extend_from_slice(&v.to_le_bytes());
    }
    let bb = BoundingBox::from_bytes(&data);
    assert_eq!(box_values(bb), [1.0, 2.0, 3.0, 4.0]);
}

#[test]
fn test_segment_from_bytes() {
    let mut data = Vec::new();
    for v in [1.0f64, 2.0, 3.0, 4.0] {
        data.extend_from_slice(&v.to_le_bytes());
    }
    let segment = Segment::from_bytes(&data);
    assert_eq!(xy(segment.start()), (1.0, 2.0));
    assert_eq!(xy(segment.end()), (3.0, 4.0));
}

#[test]
fn test_zoint_binary_format() {
    let mut buffer = Vec::new();
    Zoint::write_from_geometry(&mut buffer, c(1.0, 2.0));
    assert_eq!(floats(&buffer), vec![1.0, 2.0]);
    let zoint = Zoint::from_bytes(&buffer).unwrap();
    assert_eq!(xy(zoint.coord()), (1.0, 2.0));
    assert_eq!(f64::from_bits(zoint.lng()), 1.0);
    assert_eq!(f64::from_bits(zoint.lat()), 2.0);
}

#[test]
fn test_zulti_points_binary_format() {
    let mut buffer = Vec::new();
    ZultiPoints::write_from_geometry(&mut buffer, &pts(&[(1.0, 2.0), (3.0, 4.0)]));
    assert_eq!(floats(&buffer), vec![1.0, 2.0, 3.0, 4.0, 1.0, 2.0, 3.0, 4.0]);
    let zulti_points = ZultiPoints::from_bytes(&buffer).unwrap();
    assert_eq!(box_values(zulti_points.bounding_box()), [1.0, 2.0, 3.0, 4.0]);
    assert_eq!(coords_of(&zulti_points.coords()), vec![(1.0, 2.0), (3.0, 4.0)]);
}

#[test]
fn test_zine_binary_format() {
    let mut buffer = Vec::new();
    Zine::write_from_geometry(&mut buffer, &pts(&[(1.0, 2.0), (3.0, 4.0)]));
    assert_eq!(floats(&buffer), vec![1.0, 2.0, 3.0, 4.0, 1.0, 2.0, 3.0, 4.0]);
    let zine = Zine::from_bytes(&buffer).unwrap();
    assert_eq!(box_values(zine.bounding_box()), [1.0, 2.0, 3.0, 4.0]);
    assert_eq!(coords_of(&zine.coords()), vec![(1.0, 2.0), (3.0, 4.0)]);
}

#[test]
fn test_zolygon_binary_format() {
    let mut buffer = Vec::new();
    let polygon = ring(&[(-10.0, 0.0), (10.0, -10.0), (10.0, 10.0), (0.0, 10.0)]);
    Zolygon::write_from_geometry(&mut buffer, &polygon);
    assert_eq!(
        floats(&buffer),
        vec![
            -10.0, -10.0, 10.0, 10.0, -10.0, 0.0, 10.0, -10.0, 10.0, 10.0, 0.0, 10.0, -10.0, 0.0
        ]
    );
    let zolygon = Zolygon::from_bytes(&buffer).unwrap();
    assert_eq!(box_values(zolygon.bounding_box()), [-10.0, -10.0, 10.0, 10.0]);
    assert_eq!(
        coords_of(&zolygon.coords()),
        vec![(-10.0, 0.0), (10.0, -10.0), (10.0, 10.0), (0.0, 10.0), (-10.0, 0.0)]
    );
}

#[test]
fn test_zolygon_empty_binary_format() {
    let mut buffer = Vec::new();
    Zolygon::write_from_geometry(&mut buffer, &[]);
    assert_eq!(floats(&buffer), vec![0.0, 0.0, 0.0, 0.0]);
    let zolygon = Zolygon::from_bytes(&buffer).unwrap();
    assert_eq!(box_values(zolygon.bounding_box()), [0.0, 0.0, 0.0, 0.0]);
    assert!(zolygon.coords().to_vec().is_empty());
    assert!(zolygon.is_empty());
}

fn check_multi_even(writer: &[u8], second_offset: u32) {
    assert_eq!(&floats(&writer[..32])[..], &[0.0, 0.0, 20.0, 10.0]);
    assert_eq!(u32_at(writer, 32), 2);
    assert_eq!([u32_at(writer, 36), u32_at(writer, 40)], [0, second_offset]);
    assert_eq!(&writer[44..48], &[0, 0, 0, 0]);
}

#[test]
fn zulti_lines_test_write_from_geometry_with_even_number_of_elements() {
    let first_line = pts(&[(0.0, 0.0), (10.0, 0.0), (0.0, 10.0)]);
    let second_line = pts(&[(10.0, 10.0), (20.0, 0.0), (20.0, 10.0)]);
    let mut writer = Vec::new();
    ZultiLines::write_from_geometry(&mut writer, &[first_line.clone(), second_line.clone()])
        .unwrap();
    check_multi_even(&writer, 80);
    let zulti_lines = ZultiLines::from_bytes(&writer).unwrap();
    assert_eq!(zulti_lines.len(), 2);
    assert_eq!(box_values(zulti_lines.bounding_box()), [0.0, 0.0, 20.0, 10.0]);
    let first = zulti_lines.get(0).unwrap();
    assert_eq!(box_values(first.bounding_box()), [0.0, 0.0, 10.0, 10.0]);
    assert_eq!(first.coords().to_vec(), first_line);
    let second = zulti_lines.get(1).unwrap();
    assert_eq!(box_values(second.bounding_box()), [10.0, 0.0, 20.0, 10.0]);
    assert_eq!(second.coords().to_vec(), second_line);
    assert!(zulti_lines.get(2).is_none());
    assert_eq!(zulti_lines.lines().len(), 2);
}

#[test]
fn zulti_lines_test_write_from_geometry_with_odd_number_of_elements() {
    let line = pts(&[(0.0, 0.0), (10.0, 0.0), (0.0, 10.0)]);
    let mut writer = Vec::new();
    ZultiLines::write_from_geometry(&mut writer, &[line.clone()]).unwrap();
    assert_eq!(&floats(&writer[..32])[..], &[0.0, 0.0, 10.0, 10.0]);
    assert_eq!(u32_at(&writer, 32), 1);
    assert_eq!(u32_at(&writer, 36), 0);
    // No padding: the member starts right after the single offset.
    assert_eq!(writer.len(), 40 + 80);
    let zulti_lines = ZultiLines::from_bytes(&writer).unwrap();
    assert_eq!(zulti_lines.len(), 1);
    assert_eq!(zulti_lines.get(0).unwrap().coords().to_vec(), line);
    assert!(zulti_lines.get(1).is_none());
}

#[test]
fn zulti_lines_test_write_from_geometry_with_no_elements() {
    let mut writer = Vec::new();
    ZultiLines::write_from_geometry(&mut writer, &[]).unwrap();
    assert_eq!(&floats(&writer[..32])[..], &[0.0, 0.0, 0.0, 0.0]);
    assert_eq!(u32_at(&writer, 32), 0);
    assert_eq!(&writer[36..40], &[0, 0, 0, 0]);
    assert_eq!(writer.len(), 40);
    let zulti_lines = ZultiLines::from_bytes(&writer).unwrap();
    assert_eq!(zulti_lines.len(), 0);
    assert!(zulti_lines.is_empty());
    assert!(zulti_lines.get(0).is_none());
}

#[test]
fn zulti_polygons_test_write_from_geometry_with_even_number_of_elements() {
    let first = ring(&[(0.0, 0.0), (10.0, 0.0), (10.0, 10.0)]);
    let second = ring(&[(10.0, 10.0), (20.0, 0.0), (20.0, 10.0)]);
    let mut writer = Vec::new();
    ZultiPolygons::write_from_geometry(&mut writer, &[first.clone(), second.clone()]).unwrap();
    check_multi_even(&writer, 96);
    let zulti_polygons = ZultiPolygons::from_bytes(&writer).unwrap();
    assert_eq!(zulti_polygons.len(), 2);
    assert_eq!(zulti_polygons.get(0).unwrap().coords().to_vec(), first);
    assert_eq!(zulti_polygons.get(1).unwrap().coords().to_vec(), second);
    assert!(zulti_polygons.get(2).is_none());
}

#[test]
fn zulti_polygons_test_write_from_geometry_with_odd_number_of_elements() {
    let polygon = ring(&[(0.0, 0.0), (10.0, 0.0), (10.0, 10.0)]);
    let mut writer = Vec::new();
    ZultiPolygons::write_from_geometry(&mut writer, &[polygon.clone()]).unwrap();
    assert_eq!(&floats(&writer[..32])[..], &[0.0, 0.0, 10.0, 10.0]);
    assert_eq!(u32_at(&writer, 32), 1);
    assert_eq!(u32_at(&writer, 36), 0);
    let zulti_polygons = ZultiPolygons::from_bytes(&writer).unwrap();
    assert_eq!(zulti_polygons.len(), 1);
    assert_eq!(zulti_polygons.get(0).unwrap().coords().to_vec(), polygon);
    assert!(zulti_polygons.get(1).is_none());
}

#[test]
fn zulti_polygons_test_write_from_geometry_with_no_elements() {
    let mut writer = Vec::new();
    ZultiPolygons::write_from_geometry(&mut writer, &[]).unwrap();
    assert_eq!(&floats(&writer[..32])[..], &[0.0, 0.0, 0.0, 0.0]);
    assert_eq!(u32_at(&writer, 32), 0);
    assert_eq!(&writer[36..40], &[0, 0, 0, 0]);
    let zulti_polygons = ZultiPolygons::from_bytes(&writer).unwrap();
    assert!(zulti_polygons.is_empty());
    assert!(zulti_polygons.get(0).is_none());
}

#[test]
fn test_write_from_geometry_with_simple_collection() {
    let multi_points = pts(&[(1.0, 2.0), (3.0, 4.0)]);
    let collection = vec![
        Geometry::MultiPoint(multi_points.clone()),
        Geometry::MultiLineString(create_lines(0.0)),
        Geometry::MultiPolygon(create_polygons(0.0)),
    ];
    let mut writer = Vec::new();
    Zollection::write_from_geometry(&mut writer, &collection).unwrap();
    assert_eq!(&floats(&writer[..32])[..], &[0.0, 0.0, 5.0, 5.0]);
    let lines_offset = u32_at(&writer, 32);
    let polygons_offset = u32_at(&writer, 36);
    assert_eq!(lines_offset, 64);
    assert_eq!(polygons_offset, 256);
    let points_bytes = &writer[40..40 + lines_offset as usize];
    assert_eq!(floats(points_bytes), vec![1.0, 2.0, 3.0, 4.0, 1.0, 2.0, 3.0, 4.0]);
    let zollection = Zollection::from_bytes(&writer).unwrap();
    assert_eq!(box_values(zollection.bounding_box()), [0.0, 0.0, 5.0, 5.0]);
    assert_eq!(zollection.points().coords().to_vec(), multi_points);
    let lines = zollection.lines();
    assert_eq!(box_values(lines.bounding_box()), [0.0, 0.0, 4.0, 1.0]);
    let expected = create_lines(0.0);
    assert_eq!(lines.len(), 2);
    assert_eq!(lines.get(0).unwrap().coords().to_vec(), expected[0]);
    assert_eq!(lines.get(1).unwrap().coords().to_vec(), expected[1]);
    let polygons = zollection.polygons();
    assert_eq!(box_values(polygons.bounding_box()), [0.0, 0.0, 5.0, 5.0]);
    let expected = create_polygons(0.0);
    assert_eq!(polygons.len(), 2);
    assert_eq!(polygons.get(0).unwrap().coords().to_vec(), expected[0]);
    assert_eq!(polygons.get(1).unwrap().coords().to_vec(), expected[1]);
    assert_eq!(zollection.len(), 6);
}

#[test]
fn empty_collection() {
    let mut writer = Vec::new();
    Zollection::write_from_geometry(&mut writer, &Vec::new()).unwrap();
    assert_eq!(&floats(&writer[..32])[..], &[0.0, 0.0, 0.0, 0.0]);
    assert_eq!(u32_at(&writer, 32), 32);
    assert_eq!(u32_at(&writer, 36), 72);
    assert_eq!(floats(&writer[40..72]), vec![0.0, 0.0, 0.0, 0.0]);
    assert_eq!(&writer[72..112], &[0u8; 40][..]);
    assert_eq!(&writer[112..], &[0u8; 40][..]);
    let zollection = Zollection::from_bytes(&writer).unwrap();
    assert_eq!(box_values(zollection.bounding_box()), [0.0, 0.0, 0.0, 0.0]);
    assert!(zollection.points().is_empty());
    assert!(zollection.lines().is_empty());
    assert!(zollection.polygons().is_empty());
    assert!(zollection.is_empty());
}

#[test]
fn nested_stuff() {
    let collection = vec![Geometry::GeometryCollection(vec![Geometry::GeometryCollection(vec![
        Geometry::GeometryCollection(vec![
            Geometry::GeometryCollection(vec![Geometry::Point(c(1.0, 2.0))]),
            Geometry::Point(c(3.0, 4.0)),
        ]),
    ])])];
    let mut writer = Vec::new();
    Zollection::write_from_geometry(&mut writer, &collection).unwrap();
    let zollection = Zollection::from_bytes(&writer).unwrap();
    assert_eq!(box_values(zollection.bounding_box()), [1.0, 2.0, 3.0, 4.0]);
    assert_eq!(zollection.points().coords().to_vec(), pts(&[(1.0, 2.0), (3.0, 4.0)]));
    assert!(zollection.lines().is_empty());
    assert!(zollection.polygons().is_empty());
    assert!(!zollection.is_empty());
}

#[test]
fn naive_point_roundtrip() {
    let buf = encode(&Geometry::Point(c(45.0, 65.0)));
    let zoint = Zerometry::from_bytes(&buf).unwrap().to_point().unwrap();
    assert_eq!(xy(zoint.coord()), (45.0, 65.0));
}

#[test]
fn naive_multi_point_roundtrip() {
    let buf = encode(&Geometry::MultiPoint(vec![]));
    let z = Zerometry::from_bytes(&buf).unwrap().to_multi_points().unwrap();
    assert!(z.coords().is_empty());

    let points = pts(&[(45.0, 65.0), (46.0, 66.0), (44.0, 64.0)]);
    let buf = encode(&Geometry::MultiPoint(points.clone()));
    let z = Zerometry::from_bytes(&buf).unwrap().to_multi_points().unwrap();
    assert_eq!(z.coords().to_vec(), points);
    assert_eq!(box_values(z.bounding_box()), [44.0, 64.0, 46.0, 66.0]);
}

#[test]
fn naive_line_string_roundtrip() {
    let buf = encode(&Geometry::LineString(vec![]));
    let z = Zerometry::from_bytes(&buf).unwrap().to_line().unwrap();
    assert!(z.is_empty());

    let line = pts(&[(45.0, 25.0), (46.0, 24.0)]);
    let buf = encode(&Geometry::LineString(line.clone()));
    let z = Zerometry::from_bytes(&buf).unwrap().to_line().unwrap();
    assert_eq!(z.coords().to_vec(), line);
}

#[test]
fn naive_multi_line_string_roundtrip() {
    let buf = encode(&Geometry::MultiLineString(vec![]));
    let z = Zerometry::from_bytes(&buf).unwrap().to_zulti_lines().unwrap();
    assert!(z.is_empty());

    let lines = vec![pts(&[(45.0, 25.0), (46.0, 24.0)])];
    let buf = encode(&Geometry::MultiLineString(lines.clone()));
    let z = Zerometry::from_bytes(&buf).unwrap().to_zulti_lines().unwrap();
    assert_eq!(z.get(0).unwrap().coords().to_vec(), lines[0]);

    let lines = vec![
        pts(&[(45.0, 25.0), (46.0, 24.0)]),
        pts(&[(66.0, 47.0), (34.0, 26.0), (55.0, 25.0)]),
    ];
    let buf = encode(&Geometry::MultiLineString(lines.clone()));
    let z = Zerometry::from_bytes(&buf).unwrap().to_zulti_lines().unwrap();
    assert_eq!(z.len(), 2);
    assert_eq!(z.get(0).unwrap().coords().to_vec(), lines[0]);
    assert_eq!(z.get(1).unwrap().coords().to_vec(), lines[1]);
}

#[test]
fn naive_polygon_roundtrip() {
    let buf = encode(&Geometry::Polygon(vec![]));
    let z = Zerometry::from_bytes(&buf).unwrap().to_polygon().unwrap();
    assert!(z.is_empty());

    let polygon = ring(&[(66.0, 46.0), (47.0, 34.0), (26.0, 66.0)]);
    let buf = encode(&Geometry::Polygon(polygon.clone()));
    let z = Zerometry::from_bytes(&buf).unwrap().to_polygon().unwrap();
    assert_eq!(z.coords().to_vec(), polygon);
}

#[test]
fn naive_multi_polygon_roundtrip() {
    let buf = encode(&Geometry::MultiPolygon(vec![]));
    let z = Zerometry::from_bytes(&buf).unwrap().to_multi_polygon().unwrap();
    assert!(z.is_empty());

    let polygons = vec![
        ring(&[(66.0, 46.0), (47.0, 34.0), (26.0, 66.0)]),
        ring(&[(86.0, 48.0), (67.0, 36.0), (28.0, 86.0)]),
    ];
    let buf = encode(&Geometry::MultiPolygon(polygons.clone()));
    let z = Zerometry::from_bytes(&buf).unwrap().to_multi_polygon().unwrap();
    assert_eq!(z.len(), 2);
    assert_eq!(z.get(0).unwrap().coords().to_vec(), polygons[0]);
    assert_eq!(z.get(1).unwrap().coords().to_vec(), polygons[1]);
}

#[test]
fn naive_geometry_collection_roundtrip() {
    let collection = Geometry::GeometryCollection(vec![
        Geometry::Point(c(45.0, 65.0)),
        Geometry::LineString(pts(&[(45.0, 25.0), (46.0, 24.0)])),
        Geometry::GeometryCollection(vec![Geometry::Polygon(ring(&[
            (66.0, 46.0),
            (47.0, 34.0),
            (26.0, 66.0),
        ]))]),
    ]);
    let buf = encode(&collection);
    let z = Zerometry::from_bytes(&buf).unwrap();
    match z {
        Zerometry::Collection(zollection) => {
            assert_eq!(zollection.points().coords().to_vec(), pts(&[(45.0, 65.0)]));
            assert_eq!(zollection.lines().len(), 1);
            assert_eq!(
                zollection.lines().get(0).unwrap().coords().to_vec(),
                pts(&[(45.0, 25.0), (46.0, 24.0)])
            );
            assert_eq!(zollection.polygons().len(), 1);
            assert_eq!(
                zollection.polygons().get(0).unwrap().coords().to_vec(),
                ring(&[(66.0, 46.0), (47.0, 34.0), (26.0, 66.0)])
            );
            assert_eq!(box_values(zollection.bounding_box()), [26.0, 24.0, 66.0, 66.0]);
        }
        other => panic!("expected a collection, got {:?}", other),
    }
}

#[test]
fn decode_rejects_unknown_tag() {
    let mut buf = 7u64.to_le_bytes().to_vec();
    buf.extend_from_slice(&[0u8; 16]);
    assert_eq!(Zerometry::from_bytes(&buf).unwrap_err(), DecodeError::InvalidTag);
}

#[test]
fn decode_rejects_short_or_misshapen_buffers() {
    assert_eq!(Zerometry::from_bytes(&[0u8; 4]).unwrap_err(), DecodeError::InvalidLayout);
    // A point needs exactly 16 bytes of payload.
    let mut buf = 0u64.to_le_bytes().to_vec();
    buf.extend_from_slice(&[0u8; 15]);
    assert_eq!(Zerometry::from_bytes(&buf).unwrap_err(), DecodeError::InvalidLayout);
    // A line string whose coordinates do not fill whole pairs.
    let mut buf = encode(&Geometry::LineString(pts(&[(1.0, 2.0)])));
    buf.push(0);
    assert_eq!(Zerometry::from_bytes(&buf).unwrap_err(), DecodeError::InvalidLayout);
    // A multi-line-string whose offset points past the end.
    let mut buf = encode(&Geometry::MultiLineString(vec![pts(&[(1.0, 2.0)])]));
    buf[8 + 36] = 200;
    assert_eq!(Zerometry::from_bytes(&buf).unwrap_err(), DecodeError::InvalidLayout);
}

#[test]
fn encoding_starts_with_the_kind_tag() {
    let tag = |g: &Geometry| u64::from_le_bytes(encode(g)[..8].try_into().unwrap());
    assert_eq!(tag(&Geometry::Point(c(0.0, 0.0))), 0);
    assert_eq!(tag(&Geometry::MultiPoint(vec![])), 1);
    assert_eq!(tag(&Geometry::Polygon(vec![])), 2);
    assert_eq!(tag(&Geometry::MultiPolygon(vec![])), 3);
    assert_eq!(tag(&Geometry::LineString(vec![])), 4);
    assert_eq!(tag(&Geometry::MultiLineString(vec![])), 5);
    assert_eq!(tag(&Geometry::GeometryCollection(vec![])), 6);
}

#[test]
fn bounding_box_holds_every_vertex() {
    let points = pts(&[(3.0, -1.0), (-2.5, 4.0), (0.0, 0.0), (7.25, 2.0)]);
    let bb = BoundingBox::of_points(&points);
    assert_eq!(box_values(bb), [-2.5, -1.0, 7.25, 4.0]);
    for p in &points {
        assert!(bb.contains_coord(p));
    }
    assert_eq!(box_values(BoundingBox::of_points(&[])), [0.0, 0.0, 0.0, 0.0]);
}

#[test]
fn empty_shapes_have_an_origin_box_and_no_length() {
    for g in [Geometry::LineString(vec![]), Geometry::Polygon(vec![]), Geometry::MultiPoint(vec![])] {
        let buf = encode(&g);
        assert_eq!(floats(&buf[8..40]), vec![0.0, 0.0, 0.0, 0.0]);
        match Zerometry::from_bytes(&buf).unwrap() {
            Zerometry::Line(z) => assert_eq!(z.len(), 0),
            Zerometry::Polygon(z) => assert_eq!(z.len(), 0),
            Zerometry::MultiPoints(z) => assert_eq!(z.len(), 0),
            other => panic!("unexpected {:?}", other),
        }
    }
}

#[test]
fn float_order_on_bit_patterns() {
    let b = |v: f64| v.to_bits();
    assert!(float_le_bits(b(1.0), b(2.0)));
    assert!(!float_le_bits(b(2.0), b(1.0)));
    assert!(float_le_bits(b(-0.0), b(0.0)) && float_le_bits(b(0.0), b(-0.0)));
    assert!(float_lt_bits(b(-3.5), b(-1.0)));
    assert!(!float_lt_bits(b(1.0), b(1.0)));
    assert!(!float_le_bits(b(f64::NAN), b(f64::NAN)));
    assert!(float_le_bits(b(f64::NEG_INFINITY), b(f64::MIN)));
    for v in [1.0f64, -1.0, 0.0, -0.0, 1e-300, f64::MAX, f64::INFINITY] {
        assert_eq!(f64::from_bits(next_down_bits(b(v))), v.next_down(), "{v}");
    }
}
