//! Procedural node-graph layouts and their rasterisation: integer
//! coordinates, pixel shapes, nodes gathered in groups, randomised links
//! with a line-based text format, and drawing onto an RGBA pixel surface.

pub mod coordinate;
pub mod group;
pub mod node;
pub mod nodelink;
pub mod roundtrip;
pub mod shape;
pub mod surface;
pub mod text;
pub mod tools;

pub use crate::coordinate::Coordinate;
pub use crate::group::Group;
pub use crate::node::Node;
pub use crate::nodelink::NodeLink;
pub use crate::shape::{Circle, Shape, Square};
