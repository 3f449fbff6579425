//! A binary encoding for two-dimensional geometries (points, line strings,
//! polygons, their multi variants and collections) that is read in place:
//! decoding checks the layout once and hands out views over the buffer, and
//! bounding-box lookups and relation queries work on those views directly.
//!
//! Coordinates are held as the bit patterns of IEEE-754 binary64 values, and
//! every number of the encoding is written little-endian.
pub mod bounding_box;
pub mod coord;
pub mod coords;
pub mod error;
pub mod geometry;
pub mod multi;
pub mod relate;
pub mod relation;
pub mod segment;
pub mod simple;
pub mod zerometry;
pub mod zine;
pub mod zoint;
pub mod zollection;
pub mod zolygon;
pub mod zulti_lines;
pub mod zulti_points;
pub mod zulti_polygons;

pub use bounding_box::BoundingBox;
pub use coord::Coord;
pub use coords::Coords;
pub use error::{DecodeError, EncodeError};
pub use geometry::Geometry;
pub use relation::{InputRelation, OutputRelation, RelationBetweenShapes};
pub use segment::Segment;
pub use zerometry::Zerometry;
pub use zine::Zine;
pub use zoint::Zoint;
pub use zollection::Zollection;
pub use zolygon::Zolygon;
pub use zulti_lines::ZultiLines;
pub use zulti_points::ZultiPoints;
pub use zulti_polygons::ZultiPolygons;
