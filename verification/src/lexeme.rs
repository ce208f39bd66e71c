//! The keywords of the language and its comparison operators.

use vstd::prelude::*;
use crate::text::str_eq;

verus! {

/// A statement keyword. Every statement begins with one of these tokens.
#[derive(Clone, Copy, Debug, PartialEq, Eq, Structural)]
pub enum Lexeme {
    Var,
    Print,
    If,
    Else,
    Add,
    Sub,
    Mul,
    Div,
    End,
    Loop,
    Array,
    String,
    Endstring,
    Sqrt,
    Float,
    Function,
    Call,
    Struct,
    Endstruct,
    AddF,
    SubF,
    MulF,
    DivF,
    ABS,
    POW,
}

/// The keyword that token `s` spells, if any.
pub open spec fn spec_keyword(s: Seq<char>) -> Option<Lexeme> {
    if s == "var"@ {
        Some(Lexeme::Var)
    } else if s == "print"@ {
        Some(Lexeme::Print)
    } else if s == "if"@ {
        Some(Lexeme::If)
    } else if s == "else"@ {
        Some(Lexeme::Else)
    } else if s == "add"@ {
        Some(Lexeme::Add)
    } else if s == "sub"@ {
        Some(Lexeme::Sub)
    } else if s == "mul"@ {
        Some(Lexeme::Mul)
    } else if s == "div"@ {
        Some(Lexeme::Div)
    } else if s == "end"@ {
        Some(Lexeme::End)
    } else if s == "loop"@ {
        Some(Lexeme::Loop)
    } else if s == "array"@ {
        Some(Lexeme::Array)
    } else if s == "string"@ {
        Some(Lexeme::String)
    } else if s == "endstring"@ {
        Some(Lexeme::Endstring)
    } else if s == "sqrt"@ {
        Some(Lexeme::Sqrt)
    } else if s == "float"@ {
        Some(Lexeme::Float)
    } else if s == "function"@ {
        Some(Lexeme::Function)
    } else if s == "call"@ {
        Some(Lexeme::Call)
    } else if s == "struct"@ {
        Some(Lexeme::Struct)
    } else if s == "endstruct"@ {
        Some(Lexeme::Endstruct)
    } else if s == "add_f"@ {
        Some(Lexeme::AddF)
    } else if s == "sub_f"@ {
        Some(Lexeme::SubF)
    } else if s == "mul_f"@ {
        Some(Lexeme::MulF)
    } else if s == "div_f"@ {
        Some(Lexeme::DivF)
    } else if s == "abs"@ {
        Some(Lexeme::ABS)
    } else if s == "pow"@ {
        Some(Lexeme::POW)
    } else {
        None
    }
}

/// The keyword that token `s` spells, or `None` for any other token.
pub fn keyword_of(s: &str) -> (r: Option<Lexeme>)
    ensures
        r == spec_keyword(s@),
{
    if str_eq(s, "var") {
        Some(Lexeme::Var)
    } else if str_eq(s, "print") {
        Some(Lexeme::Print)
    } else if str_eq(s, "if") {
        Some(Lexeme::If)
    } else if str_eq(s, "else") {
        Some(Lexeme::Else)
    } else if str_eq(s, "add") {
        Some(Lexeme::Add)
    } else if str_eq(s, "sub") {
        Some(Lexeme::Sub)
    } else if str_eq(s, "mul") {
        Some(Lexeme::Mul)
    } else if str_eq(s, "div") {
        Some(Lexeme::Div)
    } else if str_eq(s, "end") {
        Some(Lexeme::End)
    } else if str_eq(s, "loop") {
        Some(Lexeme::Loop)
    } else if str_eq(s, "array") {
        Some(Lexeme::Array)
    } else if str_eq(s, "string") {
        Some(Lexeme::String)
    } else if str_eq(s, "endstring") {
        Some(Lexeme::Endstring)
    } else if str_eq(s, "sqrt") {
        Some(Lexeme::Sqrt)
    } else if str_eq(s, "float") {
        Some(Lexeme::Float)
    } else if str_eq(s, "function") {
        Some(Lexeme::Function)
    } else if str_eq(s, "call") {
        Some(Lexeme::Call)
    } else if str_eq(s, "struct") {
        Some(Lexeme::Struct)
    } else if str_eq(s, "endstruct") {
        Some(Lexeme::Endstruct)
    } else if str_eq(s, "add_f") {
        Some(Lexeme::AddF)
    } else if str_eq(s, "sub_f") {
        Some(Lexeme::SubF)
    } else if str_eq(s, "mul_f") {
        Some(Lexeme::MulF)
    } else if str_eq(s, "div_f") {
        Some(Lexeme::DivF)
    } else if str_eq(s, "abs") {
        Some(Lexeme::ABS)
    } else if str_eq(s, "pow") {
        Some(Lexeme::POW)
    } else {
        None
    }
}

impl Lexeme {
    /// The keyword named by `s`. `s` must spell a keyword; programs with an
    /// unrecognized leading token are rejected through [`keyword_of`] instead.
    pub fn from_str(s: &str) -> (r: Self)
        requires
            spec_keyword(s@) is Some,
        ensures
            Some(r) == spec_keyword(s@),
    {
        keyword_of(s).unwrap()
    }
}

/// A comparison operator between a named integer variable and a literal.
#[derive(Clone, Copy, Debug, PartialEq, Eq, Structural)]
pub enum Comparison {
    Equal,
    NotEqual,
    LessThan,
    LessThanOrEqual,
    GreaterThan,
    GreaterThanOrEqual,
}

/// The comparison operator that token `s` spells, if any.
pub open spec fn spec_cmp(s: Seq<char>) -> Option<Comparison> {
    if s == "=="@ {
        Some(Comparison::Equal)
    } else if s == "!="@ {
        Some(Comparison::NotEqual)
    } else if s == "<"@ {
        Some(Comparison::LessThan)
    } else if s == "<="@ {
        Some(Comparison::LessThanOrEqual)
    } else if s == ">"@ {
        Some(Comparison::GreaterThan)
    } else if s == ">="@ {
        Some(Comparison::GreaterThanOrEqual)
    } else {
        None
    }
}

/// The comparison operator that token `s` spells, or `None` otherwise.
pub fn cmp_of(s: &str) -> (r: Option<Comparison>)
    ensures
        r == spec_cmp(s@),
{
    if str_eq(s, "==") {
        Some(Comparison::Equal)
    } else if str_eq(s, "!=") {
        Some(Comparison::NotEqual)
    } else if str_eq(s, "<") {
        Some(Comparison::LessThan)
    } else if str_eq(s, "<=") {
        Some(Comparison::LessThanOrEqual)
    } else if str_eq(s, ">") {
        Some(Comparison::GreaterThan)
    } else if str_eq(s, ">=") {
        Some(Comparison::GreaterThanOrEqual)
    } else {
        None
    }
}

impl Comparison {
    /// Whether `a cmp b` holds.
    pub open spec fn spec_holds(self, a: i32, b: i32) -> bool {
        match self {
            Comparison::Equal => a == b,
            Comparison::NotEqual => a != b,
            Comparison::LessThan => a < b,
            Comparison::LessThanOrEqual => a <= b,
            Comparison::GreaterThan => a > b,
            Comparison::GreaterThanOrEqual => a >= b,
        }
    }

    /// The comparison operator named by `s`. `s` must spell an operator;
    /// statements with a malformed operator are rejected through [`cmp_of`]
    /// instead.
    pub fn from_str(s: &str) -> (r: Self)
        requires
            spec_cmp(s@) is Some,
        ensures
            Some(r) == spec_cmp(s@),
    {
        cmp_of(s).unwrap()
    }

    /// Evaluates the comparison on two integers.
    pub fn holds(self, a: i32, b: i32) -> (r: bool)
        ensures
            r == self.spec_holds(a, b),
    {
        match self {
            Comparison::Equal => a == b,
            Comparison::NotEqual => a != b,
            Comparison::LessThan => a < b,
            Comparison::LessThanOrEqual => a <= b,
            Comparison::GreaterThan => a > b,
            Comparison::GreaterThanOrEqual => a >= b,
        }
    }
}

} // verus!
