//! Solids in three dimensions: faces are polygons of at least three
//! coplanar vertices.

pub mod bsp_node;
pub mod csg;
pub mod plane;
pub mod polygon;
pub mod vector;
pub mod vertex;

pub use bsp_node::BspNode;
pub use csg::Csg;
pub use plane::Plane;
pub use polygon::Polygon;
pub use vector::IVector;
pub use vector::Vector;
pub use vertex::Vertex;
