//! Solids in two dimensions: faces are line segments, planes are
//! oriented lines.

pub mod bsp_node;
pub mod csg;
pub mod line;
pub mod line_strip;
pub mod plane;
pub mod point;

pub use bsp_node::BspNode;
pub use csg::Csg;
pub use line::Line;
pub use line_strip::LineStrip;
pub use plane::Plane;
pub use point::Point;
