pub mod cells;
pub mod geometry;
pub mod laws;
pub mod parse;
pub mod polygon;
pub mod tracer;

pub use geometry::{Direction, Vec2};
pub use parse::parse_squares;
pub use polygon::Polygon;
pub use tracer::{trace, OutlineError};
