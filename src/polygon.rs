use vstd::prelude::*;
use vstd::utf8::encode_utf8;
use crate::geometry::Vec2;
use crate::parse::{parse_squares, parsed_squares};
use crate::tracer::{trace, traced, vertices_view, OutlineError};

verus! {

/// A closed polygon: consecutive vertices are joined, and the last joins
/// the first.
#[derive(Debug)]
pub struct Polygon {
    vertices: Vec<Vec2>,
}

impl View for Polygon {
    type V = Seq<(int, int)>;

    closed spec fn view(&self) -> Seq<(int, int)> {
        vertices_view(self.vertices@)
    }
}

/// What the square list `text` traces to at `scaling`.
pub open spec fn squares_outline(text: Seq<u8>, scaling: Option<i32>) -> Result<Seq<(int, int)>, OutlineError> {
    match parsed_squares(text) {
        Err(e) => Err(e),
        Ok(sq) => traced(sq, scaling),
    }
}

impl Polygon {
    /// The outline of the squares that `squares` lists as `x,y` pairs,
    /// separated by `|` or `,`, scaled by `scaling` (1 when absent).
    pub fn from_enclosed_squares_string(squares: String, scaling: Option<i32>) -> (r: Result<Polygon, OutlineError>)
        ensures
            match r {
                Ok(p) => squares_outline(encode_utf8(squares@), scaling) == Ok::<Seq<(int, int)>, OutlineError>(p@),
                Err(e) => squares_outline(encode_utf8(squares@), scaling) == Err::<Seq<(int, int)>, OutlineError>(e),
            },
    {
        let cells = match parse_squares(squares.as_str().as_bytes()) {
            Ok(cells) => cells,
            Err(e) => return Err(e),
        };
        match trace(&cells, scaling) {
            Ok(vertices) => Ok(Polygon { vertices }),
            Err(e) => Err(e),
        }
    }

    pub fn vertices(&self) -> (r: &Vec<Vec2>)
        ensures
            vertices_view(r@) == self@,
    {
        &self.vertices
    }
}

} // verus!
