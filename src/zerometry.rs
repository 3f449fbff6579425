use vstd::bytes::{lemma_auto_spec_u64_to_from_le_bytes, spec_u64_to_le_bytes, u64_to_le_bytes};
use vstd::prelude::*;
use vstd::slice::slice_subrange;

use crate::bounding_box::{
    bbox_of, box_contains, enc_coord, lemma_bbox_contains_vertices, BoundingBox,
};
use crate::coord::{coord_at, is_nan, read_u64, u64_at, Coord};
use crate::coords::lemma_enc_coord;
use crate::error::{DecodeError, EncodeError};
use crate::geometry::{flatten_first, Geometry};
use crate::multi::{
    enc_multi, flat, lemma_multi_round_trip, multi_fits, multi_ok, seqs_of,
    write_multi,
};
use crate::simple::{
    enc_simple, lemma_simple_round_trip, simple_ok, write_simple,
};
use crate::zine::Zine;
use crate::zoint::Zoint;
use crate::zollection::{
    all_coords, collection_fits, collection_ok, enc_collection, lemma_collection_round_trip,
    Zollection,
};
use crate::zolygon::Zolygon;
use crate::zulti_lines::ZultiLines;
use crate::zulti_points::ZultiPoints;
use crate::zulti_polygons::ZultiPolygons;

verus! {

/// Size in bytes of the tag that starts every encoded geometry.
pub const TAG_SIZE_IN_BYTES: usize = 8;

pub const POINT_TAG: u64 = 0;

pub const MULTI_POINT_TAG: u64 = 1;

pub const POLYGON_TAG: u64 = 2;

pub const MULTI_POLYGON_TAG: u64 = 3;

pub const LINE_STRING_TAG: u64 = 4;

pub const MULTI_LINE_STRING_TAG: u64 = 5;

pub const COLLECTION_TAG: u64 = 6;

/// What a geometry denotes once encoded: its kind, its box and its coordinates.
/// A collection denotes its three flattened buckets.
pub enum Shape {
    Point(Coord),
    MultiPoint(BoundingBox, Seq<Coord>),
    Line(BoundingBox, Seq<Coord>),
    MultiLine(BoundingBox, Seq<Seq<Coord>>),
    Polygon(BoundingBox, Seq<Coord>),
    MultiPolygon(BoundingBox, Seq<Seq<Coord>>),
    Collection(BoundingBox, Seq<Coord>, Seq<Seq<Coord>>, Seq<Seq<Coord>>),
}

/// The tag written before a geometry's payload.
pub open spec fn tag_of(g: Geometry) -> u64 {
    match g {
        Geometry::Point(_) => POINT_TAG,
        Geometry::MultiPoint(_) => MULTI_POINT_TAG,
        Geometry::Polygon(_) => POLYGON_TAG,
        Geometry::MultiPolygon(_) => MULTI_POLYGON_TAG,
        Geometry::LineString(_) => LINE_STRING_TAG,
        Geometry::MultiLineString(_) => MULTI_LINE_STRING_TAG,
        Geometry::GeometryCollection(_) => COLLECTION_TAG,
    }
}

/// The payload written for a geometry.
pub open spec fn payload_of(g: Geometry) -> Seq<u8> {
    match g {
        Geometry::Point(c) => enc_coord(c),
        Geometry::MultiPoint(v) => enc_simple(v@),
        Geometry::LineString(v) => enc_simple(v@),
        Geometry::Polygon(v) => enc_simple(v@),
        Geometry::MultiLineString(v) => enc_multi(seqs_of(v@)),
        Geometry::MultiPolygon(v) => enc_multi(seqs_of(v@)),
        Geometry::GeometryCollection(items) => enc_collection(
            flatten_first(items@, items@.len() as int),
        ),
    }
}

/// The encoding of a geometry: its tag, then its payload.
pub open spec fn enc_geometry(g: Geometry) -> Seq<u8> {
    spec_u64_to_le_bytes(tag_of(g)) + payload_of(g)
}

/// The geometry can be encoded: every count, offset and region end fits in a `u32`.
pub open spec fn geometry_fits(g: Geometry) -> bool {
    match g {
        Geometry::MultiLineString(v) => multi_fits(seqs_of(v@)),
        Geometry::MultiPolygon(v) => multi_fits(seqs_of(v@)),
        Geometry::GeometryCollection(items) => collection_fits(
            flatten_first(items@, items@.len() as int),
        ),
        _ => true,
    }
}

/// What a geometry denotes once encoded.
pub open spec fn shape_of(g: Geometry) -> Shape {
    match g {
        Geometry::Point(c) => Shape::Point(c),
        Geometry::MultiPoint(v) => Shape::MultiPoint(bbox_of(v@), v@),
        Geometry::LineString(v) => Shape::Line(bbox_of(v@), v@),
        Geometry::Polygon(v) => Shape::Polygon(bbox_of(v@), v@),
        Geometry::MultiLineString(v) => Shape::MultiLine(bbox_of(flat(seqs_of(v@))), seqs_of(v@)),
        Geometry::MultiPolygon(v) => Shape::MultiPolygon(
            bbox_of(flat(seqs_of(v@))),
            seqs_of(v@),
        ),
        Geometry::GeometryCollection(items) => {
            let b = flatten_first(items@, items@.len() as int);
            Shape::Collection(bbox_of(all_coords(b)), b.points, b.lines, b.polygons)
        },
    }
}

/// The tag of an encoded geometry.
pub open spec fn tag_in(b: Seq<u8>) -> u64 {
    u64_at(b, 0)
}

/// The payload of an encoded geometry.
pub open spec fn payload_in(b: Seq<u8>) -> Seq<u8> {
    b.subrange(8, b.len() as int)
}

/// The payload has the shape that the tag names.
pub open spec fn payload_ok(tag: u64, p: Seq<u8>) -> bool {
    if tag == POINT_TAG {
        p.len() == 16
    } else if tag == MULTI_POINT_TAG || tag == POLYGON_TAG || tag == LINE_STRING_TAG {
        simple_ok(p)
    } else if tag == MULTI_POLYGON_TAG || tag == MULTI_LINE_STRING_TAG {
        multi_ok(p)
    } else if tag == COLLECTION_TAG {
        collection_ok(p)
    } else {
        false
    }
}

/// The bytes are an encoded geometry.
pub open spec fn geometry_ok(b: Seq<u8>) -> bool {
    b.len() >= 8 && payload_ok(tag_in(b), payload_in(b))
}

/// The decoding of a geometry: a view of the kind that its tag names.
#[derive(Debug, Clone, Copy)]
pub enum Zerometry<'a> {
    Point(Zoint),
    MultiPoints(ZultiPoints<'a>),
    Line(Zine<'a>),
    MultiLines(ZultiLines<'a>),
    Polygon(Zolygon<'a>),
    MultiPolygon(ZultiPolygons<'a>),
    Collection(Zollection<'a>),
}

impl<'a> Zerometry<'a> {
    /// Every view inside reads a well-formed payload.
    pub open spec fn wf(self) -> bool {
        match self {
            Zerometry::MultiLines(z) => z.wf(),
            Zerometry::MultiPolygon(z) => z.wf(),
            Zerometry::Collection(z) => z.wf(),
            _ => true,
        }
    }

    /// The view decoded from `data`.
    pub open spec fn denotes(self, data: Seq<u8>) -> bool {
        let p = payload_in(data);
        match self {
            Zerometry::Point(z) => tag_in(data) == POINT_TAG && z.coord == coord_at(p, 0),
            Zerometry::MultiPoints(z) => tag_in(data) == MULTI_POINT_TAG && z.denotes(p),
            Zerometry::Line(z) => tag_in(data) == LINE_STRING_TAG && z.denotes(p),
            Zerometry::Polygon(z) => tag_in(data) == POLYGON_TAG && z.denotes(p),
            Zerometry::MultiLines(z) => tag_in(data) == MULTI_LINE_STRING_TAG && z.denotes(p),
            Zerometry::MultiPolygon(z) => tag_in(data) == MULTI_POLYGON_TAG && z.denotes(p),
            Zerometry::Collection(z) => tag_in(data) == COLLECTION_TAG && z.denotes(p),
        }
    }

    /// What the view denotes.
    pub open spec fn shape(self) -> Shape {
        match self {
            Zerometry::Point(z) => Shape::Point(z.coord),
            Zerometry::MultiPoints(z) => Shape::MultiPoint(z.bounding_box, z@),
            Zerometry::Line(z) => Shape::Line(z.bounding_box, z@),
            Zerometry::Polygon(z) => Shape::Polygon(z.bounding_box, z@),
            Zerometry::MultiLines(z) => Shape::MultiLine(z.multi.bounding_box, z@),
            Zerometry::MultiPolygon(z) => Shape::MultiPolygon(z.multi.bounding_box, z@),
            Zerometry::Collection(z) => Shape::Collection(
                z.bounding_box,
                z.points@,
                z.lines@,
                z.polygons@,
            ),
        }
    }

    /// Checks that every view inside reads a well-formed payload, as the views
    /// that [`Self::from_bytes`] returns do.
    pub fn is_well_formed(&self) -> (r: bool)
        ensures
            r == self.wf(),
    {
        match self {
            Zerometry::MultiLines(z) => z.multi.is_well_formed(),
            Zerometry::MultiPolygon(z) => z.multi.is_well_formed(),
            Zerometry::Collection(z) => z.lines.multi.is_well_formed()
                && z.polygons.multi.is_well_formed(),
            _ => true,
        }
    }

    /// Decodes a buffer written by [`Self::write_from_geometry`]. The layout is
    /// checked once here: `InvalidTag` when the first 8 bytes hold no known tag,
    /// `InvalidLayout` when the buffer is shorter than a tag or its payload does
    /// not have the shape that the tag names.
    pub fn from_bytes(data: &'a [u8]) -> (r: Result<Self, DecodeError>)
        ensures
            r is Ok <==> geometry_ok(data@),
            r == Err::<Self, DecodeError>(DecodeError::InvalidTag) <==> data@.len() >= 8
                && tag_in(data@) > COLLECTION_TAG,
            r matches Ok(z) ==> z.denotes(data@) && z.wf(),
    {
        let len = data.len();
        if len < TAG_SIZE_IN_BYTES {
            return Err(DecodeError::InvalidLayout);
        }
        let tag = read_u64(data, 0);
        let payload = slice_subrange(data, TAG_SIZE_IN_BYTES, len);
        let decoded = if tag == POINT_TAG {
            match Zoint::from_bytes(payload) {
                Some(z) => Some(Zerometry::Point(z)),
                None => None,
            }
        } else if tag == MULTI_POINT_TAG {
            match ZultiPoints::from_bytes(payload) {
                Some(z) => Some(Zerometry::MultiPoints(z)),
                None => None,
            }
        } else if tag == POLYGON_TAG {
            match Zolygon::from_bytes(payload) {
                Some(z) => Some(Zerometry::Polygon(z)),
                None => None,
            }
        } else if tag == MULTI_POLYGON_TAG {
            match ZultiPolygons::from_bytes(payload) {
                Some(z) => Some(Zerometry::MultiPolygon(z)),
                None => None,
            }
        } else if tag == LINE_STRING_TAG {
            match Zine::from_bytes(payload) {
                Some(z) => Some(Zerometry::Line(z)),
                None => None,
            }
        } else if tag == MULTI_LINE_STRING_TAG {
            match ZultiLines::from_bytes(payload) {
                Some(z) => Some(Zerometry::MultiLines(z)),
                None => None,
            }
        } else if tag == COLLECTION_TAG {
            match Zollection::from_bytes(payload) {
                Some(z) => Some(Zerometry::Collection(z)),
                None => None,
            }
        } else {
            return Err(DecodeError::InvalidTag);
        };
        match decoded {
            Some(z) => Ok(z),
            None => Err(DecodeError::InvalidLayout),
        }
    }

    /// Appends the encoding of `geometry`: its tag as 8 bytes, then its payload.
    /// A collection is flattened first. Nothing is written, and `TooLarge`
    /// comes back, when a count, an offset or a region end would not fit in a
    /// `u32`.
    pub fn write_from_geometry(writer: &mut Vec<u8>, geometry: &Geometry) -> (r: Result<
        (),
        EncodeError,
    >)
        ensures
            r is Ok <==> geometry_fits(*geometry),
            r is Ok ==> final(writer)@ == old(writer)@ + enc_geometry(*geometry),
            r is Err ==> final(writer)@ == old(writer)@,
    {
        let mut body: Vec<u8> = Vec::new();
        let tag = match geometry {
            Geometry::Point(c) => {
                Zoint::write_from_geometry(&mut body, *c);
                POINT_TAG
            },
            Geometry::MultiPoint(v) => {
                write_simple(&mut body, v.as_slice());
                MULTI_POINT_TAG
            },
            Geometry::Polygon(v) => {
                write_simple(&mut body, v.as_slice());
                POLYGON_TAG
            },
            Geometry::LineString(v) => {
                write_simple(&mut body, v.as_slice());
                LINE_STRING_TAG
            },
            Geometry::MultiPolygon(v) => {
                match write_multi(&mut body, v.as_slice()) {
                    Ok(()) => {},
                    Err(e) => {
                        return Err(e);
                    },
                }
                MULTI_POLYGON_TAG
            },
            Geometry::MultiLineString(v) => {
                match write_multi(&mut body, v.as_slice()) {
                    Ok(()) => {},
                    Err(e) => {
                        return Err(e);
                    },
                }
                MULTI_LINE_STRING_TAG
            },
            Geometry::GeometryCollection(items) => {
                match Zollection::write_from_geometry(&mut body, items) {
                    Ok(()) => {},
                    Err(e) => {
                        return Err(e);
                    },
                }
                COLLECTION_TAG
            },
        };
        assert(body@ =~= payload_of(*geometry));
        let mut tag_bytes = u64_to_le_bytes(tag);
        writer.append(&mut tag_bytes);
        writer.append(&mut body);
        Ok(())
    }

    pub fn to_point(&self) -> (r: Option<Zoint>)
        ensures
            r == (match *self {
                Zerometry::Point(z) => Some(z),
                _ => None,
            }),
    {
        match self {
            Zerometry::Point(z) => Some(*z),
            _ => None,
        }
    }

    pub fn to_multi_points(&self) -> (r: Option<ZultiPoints<'a>>)
        ensures
            r == (match *self {
                Zerometry::MultiPoints(z) => Some(z),
                _ => None,
            }),
    {
        match self {
            Zerometry::MultiPoints(z) => Some(*z),
            _ => None,
        }
    }

    pub fn to_line(&self) -> (r: Option<Zine<'a>>)
        ensures
            r == (match *self {
                Zerometry::Line(z) => Some(z),
                _ => None,
            }),
    {
        match self {
            Zerometry::Line(z) => Some(*z),
            _ => None,
        }
    }

    pub fn to_zulti_lines(&self) -> (r: Option<ZultiLines<'a>>)
        ensures
            r == (match *self {
                Zerometry::MultiLines(z) => Some(z),
                _ => None,
            }),
    {
        match self {
            Zerometry::MultiLines(z) => Some(*z),
            _ => None,
        }
    }

    pub fn to_polygon(&self) -> (r: Option<Zolygon<'a>>)
        ensures
            r == (match *self {
                Zerometry::Polygon(z) => Some(z),
                _ => None,
            }),
    {
        match self {
            Zerometry::Polygon(z) => Some(*z),
            _ => None,
        }
    }

    pub fn to_multi_polygon(&self) -> (r: Option<ZultiPolygons<'a>>)
        ensures
            r == (match *self {
                Zerometry::MultiPolygon(z) => Some(z),
                _ => None,
            }),
    {
        match self {
            Zerometry::MultiPolygon(z) => Some(*z),
            _ => None,
        }
    }
}

/// Round trip: the encoding of any geometry that fits the format decodes, and
/// whatever view decodes it denotes that geometry: the same kind, the same
/// coordinates in the same order, and the bounding box of those coordinates.
/// A collection comes back as its three flattened buckets.
pub proof fn lemma_round_trip(g: Geometry, z: Zerometry)
    requires
        geometry_fits(g),
    ensures
        geometry_ok(enc_geometry(g)),
        z.denotes(enc_geometry(g)) ==> z.shape() == shape_of(g),
{
    lemma_auto_spec_u64_to_from_le_bytes();
    let e = enc_geometry(g);
    let t = spec_u64_to_le_bytes(tag_of(g));
    assert(e.subrange(0, 8) =~= t);
    assert(tag_in(e) == tag_of(g));
    assert(payload_in(e) =~= payload_of(g));
    match g {
        Geometry::Point(c) => {
            lemma_enc_coord(c);
        },
        Geometry::MultiPoint(v) => {
            lemma_simple_round_trip(v@);
        },
        Geometry::LineString(v) => {
            lemma_simple_round_trip(v@);
        },
        Geometry::Polygon(v) => {
            lemma_simple_round_trip(v@);
        },
        Geometry::MultiLineString(v) => {
            lemma_multi_round_trip(seqs_of(v@));
        },
        Geometry::MultiPolygon(v) => {
            lemma_multi_round_trip(seqs_of(v@));
        },
        Geometry::GeometryCollection(items) => {
            let b = flatten_first(items@, items@.len() as int);
            lemma_collection_round_trip(b);
            lemma_simple_round_trip(b.points);
            lemma_multi_round_trip(b.lines);
            lemma_multi_round_trip(b.polygons);
        },
    }
}

} // verus!

verus! {

/// Every coordinate of a geometry, in the order the encoder meets them; a
/// collection's are those of its flattened points, line strings and polygons.
pub open spec fn vertices(g: Geometry) -> Seq<Coord> {
    match g {
        Geometry::Point(c) => seq![c],
        Geometry::MultiPoint(v) => v@,
        Geometry::LineString(v) => v@,
        Geometry::Polygon(v) => v@,
        Geometry::MultiLineString(v) => flat(seqs_of(v@)),
        Geometry::MultiPolygon(v) => flat(seqs_of(v@)),
        Geometry::GeometryCollection(items) => all_coords(
            flatten_first(items@, items@.len() as int),
        ),
    }
}

impl<'a> Zerometry<'a> {
    /// The bounding box a decoded view carries; a point is its own box.
    pub open spec fn spec_bounding_box(self) -> BoundingBox {
        match self {
            Zerometry::Point(z) => BoundingBox { bottom_left: z.coord, top_right: z.coord },
            Zerometry::MultiPoints(z) => z.bounding_box,
            Zerometry::Line(z) => z.bounding_box,
            Zerometry::Polygon(z) => z.bounding_box,
            Zerometry::MultiLines(z) => z.multi.bounding_box,
            Zerometry::MultiPolygon(z) => z.multi.bounding_box,
            Zerometry::Collection(z) => z.bounding_box,
        }
    }
}

/// The bounding box of any encoded geometry holds every one of its vertices,
/// edges included, when no coordinate is a NaN.
pub proof fn lemma_encoded_box_holds_vertices(g: Geometry, z: Zerometry)
    requires
        geometry_fits(g),
        forall|i: int|
            0 <= i < vertices(g).len() ==> !is_nan(#[trigger] vertices(g)[i].x) && !is_nan(
                vertices(g)[i].y,
            ),
        z.denotes(enc_geometry(g)),
    ensures
        forall|i: int|
            0 <= i < vertices(g).len() ==> box_contains(
                z.spec_bounding_box(),
                #[trigger] vertices(g)[i],
            ),
{
    lemma_round_trip(g, z);
    lemma_bbox_contains_vertices(vertices(g));
    match g {
        Geometry::Point(c) => {
            assert(vertices(g)[0] == c);
        },
        _ => {},
    }
}

} // verus!
