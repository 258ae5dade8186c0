//! A calculator's front end: the grammar of arithmetic expressions, a
//! recursive-descent parser that is proved to follow it, and laws about the
//! trees that the parser builds.

use vstd::prelude::*;

pub mod ast;
pub mod chars;
pub mod cursor;
pub mod grammar;
pub mod laws;
pub mod parser;
pub mod render;
pub mod round_trip;

pub use ast::{Expr, MathConst, MathFunction};
pub use parser::stparse;

verus! {

/// Reads a line of input: deletes every space, wherever it stands, and
/// parses the expression with which the rest begins.
pub fn calc(expression: &str) -> (r: Result<Expr, String>)
    ensures
        parser::agrees(r, grammar::read(expression@)),
        r matches Ok(tree) ==> tree.wf(),
{
    let bindstring = chars::strip_spaces(expression);
    stparse(bindstring.as_str())
}

} // verus!
