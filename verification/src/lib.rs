//! An interpreter for a small whitespace-token imperative scripting language:
//! integer, float, string, array and struct variables, arithmetic, conditional
//! branches, bounded-condition loops, and user-defined functions with
//! positional parameters.
//!
//! Source text is lexed into tokens, parsed into a block-structured statement
//! tree, and executed by a small-step stack machine whose every transition is
//! specified by a ghost step function.

pub mod ast;
pub mod err;
pub mod parse;
pub mod floats;
pub mod interp;
pub mod laws;
pub mod lexeme;
pub mod sem;
pub mod lexer;
pub mod text;

use vstd::prelude::*;

verus! {

/// The characters the lexer treats as token separators.
pub open spec fn is_ws(c: char) -> bool {
    c == ' ' || c == '\n' || c == '\t' || c == '\r'
}

/// Whether `c` separates tokens, as the lexer sees it.
pub fn ws_char(c: char) -> (r: bool)
    ensures
        r == is_ws(c),
{
    c == ' ' || c == '\n' || c == '\t' || c == '\r'
}

} // verus!
