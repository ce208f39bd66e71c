//! The statement tree the parser produces and the ghost form the semantics
//! speaks about.

use vstd::prelude::*;
use std::rc::Rc;
use crate::lexeme::Comparison;

verus! {

broadcast use
    vstd::seq::axiom_seq_index_decreases,
    vstd::seq::axiom_seq_subrange_decreases,
    vstd::std_specs::vec::axiom_vec_decreases_to_view,
    vstd::std_specs::vec::axiom_vec_index_decreases,
;

/// An arithmetic operation over two named operands.
#[derive(Clone, Copy, Debug, PartialEq, Eq, Structural)]
pub enum BinOp {
    Add,
    Sub,
    Mul,
    Div,
}

/// One statement, with nested blocks captured as data.
#[derive(Debug)]
pub enum Stmt {
    /// `var NAME INT`: declare or overwrite an integer.
    DeclInt { name: String, value: i32 },
    /// `float NAME FLOAT`: declare or overwrite a float, held as bits.
    DeclFloat { name: String, bits: u32 },
    /// `string NAME w1 .. wN endstring`: declare or overwrite a string.
    DeclStr { name: String, value: String },
    /// `array NAME SIZE v1 .. vSIZE`: declare a fixed-size integer array.
    DeclArray { name: String, items: Vec<i32> },
    /// `struct NAME (field value).. endstruct`: declare an integer-field struct.
    DeclStruct { name: String, fields: Vec<(String, i32)> },
    /// `print NAME`: emit the value bound to `NAME`.
    Print { name: String },
    /// `add|sub|mul|div NAME1 NAME2`: integer arithmetic into `NAME1`.
    IntOp { op: BinOp, dst: String, src: String },
    /// `add_f|sub_f|mul_f|div_f NAME1 NAME2`: float arithmetic into `NAME1`.
    FloatOp { op: BinOp, dst: String, src: String },
    /// `sqrt NAME`: truncated square root of a nonnegative integer.
    Sqrt { name: String },
    /// `abs NAME`: absolute value of an integer.
    Abs { name: String },
    /// `pow NAME1 NAME2`: raise `NAME1` to the nonnegative power `NAME2`.
    Pow { dst: String, src: String },
    /// `function NAME params.. with body.. end`: register a function.
    DeclFun { name: String, params: Vec<String>, body: Rc<Vec<Stmt>> },
    /// `call NAME args..`: run a declared function on integer arguments.
    Call { name: String, args: Vec<i32> },
    /// `if NAME CMP INT then.. [else else..] end`: run exactly one branch.
    If {
        name: String,
        cmp: Comparison,
        value: i32,
        then_body: Rc<Vec<Stmt>>,
        else_body: Rc<Vec<Stmt>>,
    },
    /// `loop NAME CMP INT body.. end`: rerun the body while the condition holds.
    Loop { name: String, cmp: Comparison, value: i32, body: Rc<Vec<Stmt>> },
}

/// The ghost form of a statement, over sequences of characters.
pub enum GStmt {
    DeclInt { name: Seq<char>, value: i32 },
    DeclFloat { name: Seq<char>, bits: u32 },
    DeclStr { name: Seq<char>, value: Seq<char> },
    DeclArray { name: Seq<char>, items: Seq<i32> },
    DeclStruct { name: Seq<char>, fields: Seq<(Seq<char>, i32)> },
    Print { name: Seq<char> },
    IntOp { op: BinOp, dst: Seq<char>, src: Seq<char> },
    FloatOp { op: BinOp, dst: Seq<char>, src: Seq<char> },
    Sqrt { name: Seq<char> },
    Abs { name: Seq<char> },
    Pow { dst: Seq<char>, src: Seq<char> },
    DeclFun { name: Seq<char>, params: Seq<Seq<char>>, body: Seq<GStmt> },
    Call { name: Seq<char>, args: Seq<i32> },
    If {
        name: Seq<char>,
        cmp: Comparison,
        value: i32,
        then_body: Seq<GStmt>,
        else_body: Seq<GStmt>,
    },
    Loop { name: Seq<char>, cmp: Comparison, value: i32, body: Seq<GStmt> },
}

/// The ghost form of statement `s`.
pub open spec fn stmt_view(s: &Stmt) -> GStmt
    decreases s, 0int,
    via stmt_view_decreases
{
    match s {
            Stmt::DeclInt { name, value } => GStmt::DeclInt { name: name@, value: *value },
            Stmt::DeclFloat { name, bits } => GStmt::DeclFloat { name: name@, bits: *bits },
            Stmt::DeclStr { name, value } => GStmt::DeclStr { name: name@, value: value@ },
            Stmt::DeclArray { name, items } => GStmt::DeclArray { name: name@, items: items@ },
            Stmt::DeclStruct { name, fields } => GStmt::DeclStruct {
                name: name@,
                fields: fields.deep_view(),
            },
            Stmt::Print { name } => GStmt::Print { name: name@ },
            Stmt::IntOp { op, dst, src } => GStmt::IntOp { op: *op, dst: dst@, src: src@ },
            Stmt::FloatOp { op, dst, src } => GStmt::FloatOp { op: *op, dst: dst@, src: src@ },
            Stmt::Sqrt { name } => GStmt::Sqrt { name: name@ },
            Stmt::Abs { name } => GStmt::Abs { name: name@ },
            Stmt::Pow { dst, src } => GStmt::Pow { dst: dst@, src: src@ },
            Stmt::DeclFun { name, params, body } => GStmt::DeclFun {
                name: name@,
                params: params.deep_view(),
                body: view_block(body@),
            },
            Stmt::Call { name, args } => GStmt::Call { name: name@, args: args@ },
            Stmt::If { name, cmp, value, then_body, else_body } => GStmt::If {
                name: name@,
                cmp: *cmp,
                value: *value,
                then_body: view_block(then_body@),
                else_body: view_block(else_body@),
            },
            Stmt::Loop { name, cmp, value, body } => GStmt::Loop {
                name: name@,
                cmp: *cmp,
                value: *value,
                body: view_block(body@),
            },
    }
}

impl View for Stmt {
    type V = GStmt;

    open spec fn view(&self) -> GStmt {
        stmt_view(self)
    }
}

/// Each nested block stands below the statement that holds it, so the view
/// recursion terminates.
#[via_fn]
proof fn stmt_view_decreases(s: &Stmt) {
    match s {
        Stmt::DeclFun { name, params, body } => {
            assert(decreases_to!(s => body@));
        },
        Stmt::If { name, cmp, value, then_body, else_body } => {
            assert(decreases_to!(s => then_body@));
            assert(decreases_to!(s => else_body@));
        },
        Stmt::Loop { name, cmp, value, body } => {
            assert(decreases_to!(s => body@));
        },
        _ => {},
    }
}

/// The ghost form of a whole block of statements.
pub open spec fn view_block(b: Seq<Stmt>) -> Seq<GStmt>
    decreases b, 1int,
{
    if b.len() == 0 {
        Seq::empty()
    } else {
        seq![stmt_view(&b[0])] + view_block(b.drop_first())
    }
}

/// `view_block` views every statement in place.
pub broadcast proof fn lemma_view_block(b: Seq<Stmt>)
    ensures
        (#[trigger] view_block(b)).len() == b.len(),
        forall|i: int| 0 <= i < b.len() ==> view_block(b)[i] == stmt_view(&b[i]),
    decreases b.len(),
{
    if b.len() > 0 {
        lemma_view_block(b.drop_first());
    }
}

} // verus!
