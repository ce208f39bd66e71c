//! The parser: from tokens to a block-structured statement tree. The ghost
//! functions define the grammar; the executable parser mirrors them and is
//! proved to return exactly what they describe.

use vstd::prelude::*;
use crate::ast::{view_block, BinOp, GStmt, Stmt};
use crate::err::InterpreterError;
use crate::floats::f32_of_text;
use crate::lexeme::{spec_cmp, spec_keyword, Lexeme};
use crate::sem::GErr;
use crate::text::spec_parse_i32;

verus! {

/// The words of a `string` declaration, up to its `endstring`.
pub open spec fn spec_scan_words(t: Seq<Seq<char>>, j: int) -> Result<
    (Seq<Seq<char>>, int),
    GErr,
>
    decreases t.len() - j,
{
    if j < 0 || j >= t.len() {
        Err(GErr::MissingOperand)
    } else if t[j] == "endstring"@ {
        Ok((Seq::empty(), j + 1))
    } else {
        match spec_scan_words(t, j + 1) {
            Err(e) => Err(e),
            Ok((ws, k)) => Ok((seq![t[j]] + ws, k)),
        }
    }
}

/// Those words joined by single spaces.
pub open spec fn join_words(ws: Seq<Seq<char>>) -> Seq<char>
    decreases ws.len(),
{
    if ws.len() == 0 {
        Seq::empty()
    } else if ws.len() == 1 {
        ws[0]
    } else {
        ws[0] + " "@ + join_words(ws.drop_first())
    }
}

/// Exactly `k` integer literals of an `array` declaration.
pub open spec fn spec_scan_ints(t: Seq<Seq<char>>, j: int, k: nat) -> Result<
    (Seq<i32>, int),
    GErr,
>
    decreases k,
{
    if k == 0 {
        Ok((Seq::empty(), j))
    } else if j < 0 || j >= t.len() {
        Err(GErr::MissingOperand)
    } else {
        match spec_parse_i32(t[j]) {
            None => Err(GErr::ParseLiteral),
            Some(v) => match spec_scan_ints(t, j + 1, (k - 1) as nat) {
                Err(e) => Err(e),
                Ok((vs, k2)) => Ok((seq![v] + vs, k2)),
            },
        }
    }
}

/// The parameter names of a `function` declaration, up to its `with`.
pub open spec fn spec_scan_params(t: Seq<Seq<char>>, j: int) -> Result<
    (Seq<Seq<char>>, int),
    GErr,
>
    decreases t.len() - j,
{
    if j < 0 || j >= t.len() {
        Err(GErr::MissingOperand)
    } else if t[j] == "with"@ {
        Ok((Seq::empty(), j + 1))
    } else {
        match spec_scan_params(t, j + 1) {
            Err(e) => Err(e),
            Ok((ps, k)) => Ok((seq![t[j]] + ps, k)),
        }
    }
}

/// The arguments of a `call`: the longest run of integer literals after the
/// callee's name. How many a call takes is settled when it runs.
pub open spec fn spec_scan_args(t: Seq<Seq<char>>, j: int) -> (Seq<i32>, int)
    decreases t.len() - j,
{
    if j < 0 || j >= t.len() || spec_parse_i32(t[j]) is None {
        (Seq::empty(), j)
    } else {
        let (vs, k) = spec_scan_args(t, j + 1);
        (seq![spec_parse_i32(t[j])->0] + vs, k)
    }
}

/// The field pairs of a `struct` declaration, in source order, up to its
/// `endstruct`.
pub open spec fn spec_scan_fields(t: Seq<Seq<char>>, j: int) -> Result<
    (Seq<(Seq<char>, i32)>, int),
    GErr,
>
    decreases t.len() - j,
{
    if j < 0 || j >= t.len() {
        Err(GErr::MissingOperand)
    } else if t[j] == "endstruct"@ {
        Ok((Seq::empty(), j + 1))
    } else if j + 1 >= t.len() {
        Err(GErr::MissingOperand)
    } else {
        match spec_parse_i32(t[j + 1]) {
            None => Err(GErr::ParseLiteral),
            Some(v) => match spec_scan_fields(t, j + 2) {
                Err(e) => Err(e),
                Ok((fs, k)) => Ok((seq![(t[j], v)] + fs, k)),
            },
        }
    }
}

/// The first position of field `name`, or `-1` when absent.
pub open spec fn field_idx(fs: Seq<(Seq<char>, i32)>, name: Seq<char>) -> int
    decreases fs.len(),
{
    if fs.len() == 0 {
        -1
    } else if fs[0].0 == name {
        0
    } else {
        let r = field_idx(fs.drop_first(), name);
        if r < 0 {
            -1
        } else {
            1 + r
        }
    }
}

/// Sets field `name` to `v`: in place where it already stands, at the end
/// where it is new.
pub open spec fn upsert_field(
    fs: Seq<(Seq<char>, i32)>,
    name: Seq<char>,
    v: i32,
) -> Seq<(Seq<char>, i32)> {
    let i = field_idx(fs, name);
    if i < 0 {
        fs.push((name, v))
    } else {
        fs.update(i, (name, v))
    }
}

/// The field list a struct declaration produces: each field once, at its
/// first position, holding the last value the source gave it.
pub open spec fn norm_fields(raw: Seq<(Seq<char>, i32)>) -> Seq<(Seq<char>, i32)>
    decreases raw.len(),
{
    if raw.len() == 0 {
        Seq::empty()
    } else {
        upsert_field(norm_fields(raw.drop_last()), raw.last().0, raw.last().1)
    }
}

/// One statement starting at `t[i]`, and the position after it.
pub open spec fn spec_parse_stmt(t: Seq<Seq<char>>, i: int) -> Result<(GStmt, int), GErr>
    decreases t.len() - i, 1int,
{
    if i < 0 || i >= t.len() {
        Err(GErr::MissingOperand)
    } else {
        match spec_keyword(t[i]) {
            None => Err(GErr::UnknownCommand(t[i])),
            Some(kw) => match kw {
                Lexeme::Var => if i + 2 >= t.len() {
                    Err(GErr::MissingOperand)
                } else {
                    match spec_parse_i32(t[i + 2]) {
                        None => Err(GErr::ParseLiteral),
                        Some(v) => Ok((GStmt::DeclInt { name: t[i + 1], value: v }, i + 3)),
                    }
                },
                Lexeme::Float => if i + 2 >= t.len() {
                    Err(GErr::MissingOperand)
                } else {
                    match f32_of_text(t[i + 2]) {
                        None => Err(GErr::ParseLiteral),
                        Some(bits) => Ok((GStmt::DeclFloat { name: t[i + 1], bits }, i + 3)),
                    }
                },
                Lexeme::String => if i + 1 >= t.len() {
                    Err(GErr::MissingOperand)
                } else {
                    match spec_scan_words(t, i + 2) {
                        Err(e) => Err(e),
                        Ok((ws, j)) => Ok(
                            (GStmt::DeclStr { name: t[i + 1], value: join_words(ws) }, j),
                        ),
                    }
                },
                Lexeme::Array => if i + 2 >= t.len() {
                    Err(GErr::MissingOperand)
                } else {
                    match spec_parse_i32(t[i + 2]) {
                        None => Err(GErr::ParseLiteral),
                        Some(n) => if n < 0 {
                            Err(GErr::ParseLiteral)
                        } else {
                            match spec_scan_ints(t, i + 3, n as nat) {
                                Err(e) => Err(e),
                                Ok((vs, j)) => Ok(
                                    (GStmt::DeclArray { name: t[i + 1], items: vs }, j),
                                ),
                            }
                        },
                    }
                },
                Lexeme::Struct => if i + 1 >= t.len() {
                    Err(GErr::MissingOperand)
                } else {
                    match spec_scan_fields(t, i + 2) {
                        Err(e) => Err(e),
                        Ok((raw, j)) => Ok(
                            (GStmt::DeclStruct { name: t[i + 1], fields: norm_fields(raw) }, j),
                        ),
                    }
                },
                Lexeme::Print => if i + 1 >= t.len() {
                    Err(GErr::MissingOperand)
                } else {
                    Ok((GStmt::Print { name: t[i + 1] }, i + 2))
                },
                Lexeme::Add => spec_int_op(t, i, BinOp::Add),
                Lexeme::Sub => spec_int_op(t, i, BinOp::Sub),
                Lexeme::Mul => spec_int_op(t, i, BinOp::Mul),
                Lexeme::Div => spec_int_op(t, i, BinOp::Div),
                Lexeme::AddF => spec_float_op(t, i, BinOp::Add),
                Lexeme::SubF => spec_float_op(t, i, BinOp::Sub),
                Lexeme::MulF => spec_float_op(t, i, BinOp::Mul),
                Lexeme::DivF => spec_float_op(t, i, BinOp::Div),
                Lexeme::Sqrt => if i + 1 >= t.len() {
                    Err(GErr::MissingOperand)
                } else {
                    Ok((GStmt::Sqrt { name: t[i + 1] }, i + 2))
                },
                Lexeme::ABS => if i + 1 >= t.len() {
                    Err(GErr::MissingOperand)
                } else {
                    Ok((GStmt::Abs { name: t[i + 1] }, i + 2))
                },
                Lexeme::POW => if i + 2 >= t.len() {
                    Err(GErr::MissingOperand)
                } else {
                    Ok((GStmt::Pow { dst: t[i + 1], src: t[i + 2] }, i + 3))
                },
                Lexeme::Function => if i + 1 >= t.len() {
                    Err(GErr::MissingOperand)
                } else {
                    match spec_scan_params(t, i + 2) {
                        Err(e) => Err(e),
                        Ok((ps, j)) => {
                            let j2 = if i < j && j <= t.len() {
                                j
                            } else {
                                i + 1
                            };
                            match spec_parse_block(t, j2, false) {
                                Err(e) => Err(e),
                                Ok((body, k, _)) => Ok(
                                    (
                                        GStmt::DeclFun { name: t[i + 1], params: ps, body },
                                        k,
                                    ),
                                ),
                            }
                        },
                    }
                },
                Lexeme::Call => if i + 1 >= t.len() {
                    Err(GErr::MissingOperand)
                } else {
                    let (args, j) = spec_scan_args(t, i + 2);
                    Ok((GStmt::Call { name: t[i + 1], args }, j))
                },
                Lexeme::If => spec_if_stmt(t, i),
                Lexeme::Loop => if i + 3 >= t.len() {
                    Err(GErr::MissingOperand)
                } else {
                    match spec_cmp(t[i + 2]) {
                        None => Err(GErr::InvalidOperand),
                        Some(cmp) => match spec_parse_i32(t[i + 3]) {
                            None => Err(GErr::ParseLiteral),
                            Some(v) => match spec_parse_block(t, i + 4, false) {
                                Err(e) => Err(e),
                                Ok((body, k, _)) => Ok(
                                    (
                                        GStmt::Loop {
                                            name: t[i + 1],
                                            cmp,
                                            value: v,
                                            body,
                                        },
                                        k,
                                    ),
                                ),
                            },
                        },
                    }
                },
                // `end` is consumed by the block that it closes, or skipped
                // at top level; the remaining sentinels open no statement.
                _ => Err(GErr::UnknownCommand(t[i])),
            },
        }
    }
}

/// An integer arithmetic statement: two names after the keyword.
pub open spec fn spec_int_op(t: Seq<Seq<char>>, i: int, op: BinOp) -> Result<
    (GStmt, int),
    GErr,
> {
    if i + 2 >= t.len() {
        Err(GErr::MissingOperand)
    } else {
        Ok((GStmt::IntOp { op, dst: t[i + 1], src: t[i + 2] }, i + 3))
    }
}

/// A float arithmetic statement: two names after the keyword.
pub open spec fn spec_float_op(t: Seq<Seq<char>>, i: int, op: BinOp) -> Result<
    (GStmt, int),
    GErr,
> {
    if i + 2 >= t.len() {
        Err(GErr::MissingOperand)
    } else {
        Ok((GStmt::FloatOp { op, dst: t[i + 1], src: t[i + 2] }, i + 3))
    }
}

/// An `if` statement: the condition triple, the then-branch up to `else` or
/// `end`, and on `else` the else-branch up to `end`.
pub open spec fn spec_if_stmt(t: Seq<Seq<char>>, i: int) -> Result<(GStmt, int), GErr>
    decreases t.len() - i, 0int,
{
    if i + 3 >= t.len() {
        Err(GErr::MissingOperand)
    } else {
        match spec_cmp(t[i + 2]) {
            None => Err(GErr::InvalidOperand),
            Some(cmp) => match spec_parse_i32(t[i + 3]) {
                None => Err(GErr::ParseLiteral),
                Some(v) => match spec_parse_block(t, i + 4, true) {
                    Err(e) => Err(e),
                    Ok((then_body, j, saw_else)) => if !saw_else {
                        Ok(
                            (
                                GStmt::If {
                                    name: t[i + 1],
                                    cmp,
                                    value: v,
                                    then_body,
                                    else_body: Seq::empty(),
                                },
                                j,
                            ),
                        )
                    } else {
                        let j2 = if i + 4 < j && j <= t.len() {
                            j
                        } else {
                            i + 4
                        };
                        match spec_parse_block(t, j2, false) {
                            Err(e) => Err(e),
                            Ok((else_body, k, _)) => Ok(
                                (
                                    GStmt::If {
                                        name: t[i + 1],
                                        cmp,
                                        value: v,
                                        then_body,
                                        else_body,
                                    },
                                    k,
                                ),
                            ),
                        }
                    },
                },
            },
        }
    }
}

/// The statements of a block, up to the `end` that closes it; inside an
/// `if`, an `else` closes the then-branch instead. Running out of tokens
/// first is an error: every block is closed.
pub open spec fn spec_parse_block(t: Seq<Seq<char>>, i: int, allow_else: bool) -> Result<
    (Seq<GStmt>, int, bool),
    GErr,
>
    decreases t.len() - i, 2int,
{
    if i < 0 || i >= t.len() {
        Err(GErr::MissingOperand)
    } else if t[i] == "end"@ {
        Ok((Seq::empty(), i + 1, false))
    } else if allow_else && t[i] == "else"@ {
        Ok((Seq::empty(), i + 1, true))
    } else {
        match spec_parse_stmt(t, i) {
            Err(e) => Err(e),
            Ok((s, j)) => {
                let j2 = if i < j && j <= t.len() {
                    j
                } else {
                    i + 1
                };
                match spec_parse_block(t, j2, allow_else) {
                    Err(e) => Err(e),
                    Ok((ss, k, saw_else)) => Ok((seq![s] + ss, k, saw_else)),
                }
            },
        }
    }
}

/// The whole program: statements to the end of the tokens, with stray `end`
/// tokens consumed as no-ops.
pub open spec fn spec_parse_prog_from(t: Seq<Seq<char>>, i: int) -> Result<Seq<GStmt>, GErr>
    decreases t.len() - i,
{
    if i < 0 || i >= t.len() {
        Ok(Seq::empty())
    } else if t[i] == "end"@ {
        spec_parse_prog_from(t, i + 1)
    } else {
        match spec_parse_stmt(t, i) {
            Err(e) => Err(e),
            Ok((s, j)) => {
                let j2 = if i < j && j <= t.len() {
                    j
                } else {
                    i + 1
                };
                match spec_parse_prog_from(t, j2) {
                    Err(e) => Err(e),
                    Ok(ss) => Ok(seq![s] + ss),
                }
            },
        }
    }
}

/// The statement tree of a token sequence.
pub open spec fn spec_parse_program(t: Seq<Seq<char>>) -> Result<Seq<GStmt>, GErr> {
    spec_parse_prog_from(t, 0)
}

} // verus!

verus! {

/// Reads the words of a `string` declaration, up to its `endstring`.
fn scan_words(toks: &Vec<String>, j: usize) -> (r: Result<(Vec<String>, usize), InterpreterError>)
    ensures
        match r {
            Ok(p) => spec_scan_words(toks.deep_view(), j as int) == Ok::<_, GErr>(
                (p.0.deep_view(), p.1 as int),
            ) && j < p.1 <= toks.len(),
            Err(e) => spec_scan_words(toks.deep_view(), j as int) == Err::<(Seq<Seq<char>>, int), GErr>(e@),
        },
    decreases toks.len() - j,
{
    if j >= toks.len() {
        Err(InterpreterError::MissingOperand)
    } else if crate::text::str_eq(toks[j].as_str(), "endstring") {
        let ws: Vec<String> = Vec::new();
        proof {
            assert(ws.deep_view() =~= Seq::<Seq<char>>::empty());
            assert(toks.deep_view()[j as int] == toks@[j as int]@);
        }
        Ok((ws, j + 1))
    } else {
        proof {
            assert(toks.deep_view()[j as int] == toks@[j as int]@);
        }
        match scan_words(toks, j + 1) {
            Err(e) => Err(e),
            Ok((mut ws, k)) => {
                let ghost pre = ws.deep_view();
                ws.insert(0, toks[j].clone());
                proof {
                    assert(ws.deep_view() =~= seq![toks.deep_view()[j as int]] + pre);
                }
                Ok((ws, k))
            },
        }
    }
}

/// Reads exactly `k` integer literals of an `array` declaration.
fn scan_ints(toks: &Vec<String>, j: usize, k: usize) -> (r: Result<
    (Vec<i32>, usize),
    InterpreterError,
>)
    requires
        j <= toks.len(),
    ensures
        match r {
            Ok(p) => spec_scan_ints(toks.deep_view(), j as int, k as nat) == Ok::<_, GErr>(
                (p.0@, p.1 as int),
            ) && j <= p.1 <= toks.len(),
            Err(e) => spec_scan_ints(toks.deep_view(), j as int, k as nat) == Err::<(Seq<i32>, int), GErr>(e@),
        },
    decreases k,
{
    if k == 0 {
        let vs: Vec<i32> = Vec::new();
        proof {
            assert(vs@ =~= Seq::<i32>::empty());
        }
        Ok((vs, j))
    } else if j >= toks.len() {
        Err(InterpreterError::MissingOperand)
    } else {
        proof {
            assert(toks.deep_view()[j as int] == toks@[j as int]@);
        }
        match crate::text::parse_i32(toks[j].as_str()) {
            None => Err(InterpreterError::ParseLiteral),
            Some(v) => match scan_ints(toks, j + 1, k - 1) {
                Err(e) => Err(e),
                Ok((mut vs, k2)) => {
                    let ghost pre = vs@;
                    vs.insert(0, v);
                    proof {
                        assert(vs@ =~= seq![v] + pre);
                    }
                    Ok((vs, k2))
                },
            },
        }
    }
}

/// Reads the parameter names of a `function`, up to its `with`.
fn scan_params(toks: &Vec<String>, j: usize) -> (r: Result<
    (Vec<String>, usize),
    InterpreterError,
>)
    ensures
        match r {
            Ok(p) => spec_scan_params(toks.deep_view(), j as int) == Ok::<_, GErr>(
                (p.0.deep_view(), p.1 as int),
            ) && j < p.1 <= toks.len(),
            Err(e) => spec_scan_params(toks.deep_view(), j as int) == Err::<(Seq<Seq<char>>, int), GErr>(e@),
        },
    decreases toks.len() - j,
{
    if j >= toks.len() {
        Err(InterpreterError::MissingOperand)
    } else if crate::text::str_eq(toks[j].as_str(), "with") {
        let ps: Vec<String> = Vec::new();
        proof {
            assert(ps.deep_view() =~= Seq::<Seq<char>>::empty());
            assert(toks.deep_view()[j as int] == toks@[j as int]@);
        }
        Ok((ps, j + 1))
    } else {
        proof {
            assert(toks.deep_view()[j as int] == toks@[j as int]@);
        }
        match scan_params(toks, j + 1) {
            Err(e) => Err(e),
            Ok((mut ps, k)) => {
                let ghost pre = ps.deep_view();
                ps.insert(0, toks[j].clone());
                proof {
                    assert(ps.deep_view() =~= seq![toks.deep_view()[j as int]] + pre);
                }
                Ok((ps, k))
            },
        }
    }
}

/// Reads the arguments of a `call`: the longest run of integer literals.
fn scan_args(toks: &Vec<String>, j: usize) -> (r: (Vec<i32>, usize))
    requires
        j <= toks.len(),
    ensures
        spec_scan_args(toks.deep_view(), j as int) == (r.0@, r.1 as int),
        j <= r.1 <= toks.len(),
    decreases toks.len() - j,
{
    if j >= toks.len() {
        let vs: Vec<i32> = Vec::new();
        proof {
            assert(vs@ =~= Seq::<i32>::empty());
            assert(spec_scan_args(toks.deep_view(), j as int) == (vs@, j as int));
        }
        return (vs, j);
    }
    proof {
        assert(toks.deep_view()[j as int] == toks@[j as int]@);
    }
    match crate::text::parse_i32(toks[j].as_str()) {
        None => {
            let vs: Vec<i32> = Vec::new();
            proof {
                assert(vs@ =~= Seq::<i32>::empty());
                assert(spec_scan_args(toks.deep_view(), j as int) == (vs@, j as int));
            }
            (vs, j)
        },
        Some(v) => {
            let (mut vs, k) = scan_args(toks, j + 1);
            let ghost pre = vs@;
            vs.insert(0, v);
            proof {
                assert(vs@ =~= seq![v] + pre);
            }
            (vs, k)
        },
    }
}

/// Reads the raw field pairs of a `struct`, up to its `endstruct`.
fn scan_fields(toks: &Vec<String>, j: usize) -> (r: Result<
    (Vec<(String, i32)>, usize),
    InterpreterError,
>)
    ensures
        match r {
            Ok(p) => spec_scan_fields(toks.deep_view(), j as int) == Ok::<_, GErr>(
                (p.0.deep_view(), p.1 as int),
            ) && j < p.1 <= toks.len(),
            Err(e) => spec_scan_fields(toks.deep_view(), j as int) == Err::<(Seq<(Seq<char>, i32)>, int), GErr>(e@),
        },
    decreases toks.len() - j,
{
    if j >= toks.len() {
        Err(InterpreterError::MissingOperand)
    } else if crate::text::str_eq(toks[j].as_str(), "endstruct") {
        let fs: Vec<(String, i32)> = Vec::new();
        proof {
            assert(fs.deep_view() =~= Seq::<(Seq<char>, i32)>::empty());
            assert(toks.deep_view()[j as int] == toks@[j as int]@);
        }
        Ok((fs, j + 1))
    } else if j + 1 >= toks.len() {
        proof {
            assert(toks.deep_view()[j as int] == toks@[j as int]@);
        }
        Err(InterpreterError::MissingOperand)
    } else {
        proof {
            assert(toks.deep_view()[j as int] == toks@[j as int]@);
            assert(toks.deep_view()[j + 1] == toks@[j + 1]@);
        }
        match crate::text::parse_i32(toks[j + 1].as_str()) {
            None => Err(InterpreterError::ParseLiteral),
            Some(v) => match scan_fields(toks, j + 2) {
                Err(e) => Err(e),
                Ok((mut fs, k)) => {
                    let ghost pre = fs.deep_view();
                    fs.insert(0, (toks[j].clone(), v));
                    proof {
                        assert(fs.deep_view() =~= seq![(toks.deep_view()[j as int], v)] + pre);
                    }
                    Ok((fs, k))
                },
            },
        }
    }
}

} // verus!

verus! {

/// A field found at `i`, with no earlier occurrence, is the first.
proof fn lemma_field_idx_found(fs: Seq<(Seq<char>, i32)>, name: Seq<char>, i: int)
    requires
        0 <= i < fs.len(),
        fs[i].0 == name,
        forall|k: int| 0 <= k < i ==> (#[trigger] fs[k]).0 != name,
    ensures
        field_idx(fs, name) == i,
    decreases i,
{
    if i > 0 {
        lemma_field_idx_found(fs.drop_first(), name, i - 1);
    }
}

/// A name no field carries has no first position.
proof fn lemma_field_idx_absent(fs: Seq<(Seq<char>, i32)>, name: Seq<char>)
    requires
        forall|k: int| 0 <= k < fs.len() ==> (#[trigger] fs[k]).0 != name,
    ensures
        field_idx(fs, name) == -1,
    decreases fs.len(),
{
    if fs.len() > 0 {
        lemma_field_idx_absent(fs.drop_first(), name);
    }
}

/// The first position of field `name` in `v`, if any.
fn find_field(v: &Vec<(String, i32)>, name: &str) -> (r: Option<usize>)
    ensures
        match r {
            Some(i) => i < v.len() && field_idx(v.deep_view(), name@) == i as int,
            None => field_idx(v.deep_view(), name@) == -1,
        },
{
    let mut i: usize = 0;
    while i < v.len()
        invariant
            i <= v.len(),
            forall|k: int| 0 <= k < i ==> (#[trigger] v.deep_view()[k]).0 != name@,
        decreases v.len() - i,
    {
        proof {
            assert(v.deep_view()[i as int].0 == v@[i as int].0@);
        }
        if crate::text::str_eq(v[i].0.as_str(), name) {
            proof {
                lemma_field_idx_found(v.deep_view(), name@, i as int);
            }
            return Some(i);
        }
        i = i + 1;
    }
    proof {
        lemma_field_idx_absent(v.deep_view(), name@);
    }
    None
}

/// Folds a raw field list into the declared field set: each name once, at
/// its first position, holding the last value given.
fn normalize_fields(raw: &Vec<(String, i32)>) -> (r: Vec<(String, i32)>)
    ensures
        r.deep_view() == norm_fields(raw.deep_view()),
{
    let mut acc: Vec<(String, i32)> = Vec::new();
    let mut i: usize = 0;
    proof {
        assert(acc.deep_view() =~= Seq::<(Seq<char>, i32)>::empty());
        assert(raw.deep_view().take(0) =~= Seq::<(Seq<char>, i32)>::empty());
    }
    while i < raw.len()
        invariant
            i <= raw.len(),
            acc.deep_view() == norm_fields(raw.deep_view().take(i as int)),
        decreases raw.len() - i,
    {
        let ghost pre = acc.deep_view();
        let name = raw[i].0.clone();
        let value = raw[i].1;
        proof {
            assert(raw.deep_view()[i as int] == (raw@[i as int].0@, raw@[i as int].1));
        }
        match find_field(&acc, name.as_str()) {
            Some(k) => {
                let _ = acc.remove(k);
                acc.insert(k, (name, value));
                proof {
                    assert(acc.deep_view() =~= pre.update(
                        k as int,
                        (raw.deep_view()[i as int].0, value),
                    ));
                }
            },
            None => {
                acc.push((name, value));
                proof {
                    assert(acc.deep_view() =~= pre.push((raw.deep_view()[i as int].0, value)));
                }
            },
        }
        proof {
            assert(raw.deep_view().take(i + 1).drop_last() =~= raw.deep_view().take(i as int));
            assert(raw.deep_view().take(i + 1).last() == raw.deep_view()[i as int]);
            assert(acc.deep_view() =~= norm_fields(raw.deep_view().take(i + 1)));
        }
        i = i + 1;
    }
    proof {
        assert(raw.deep_view().take(raw.len() as int) =~= raw.deep_view());
    }
    acc
}

} // verus!

verus! {

/// Reads one statement starting at `toks[i]`.
fn parse_stmt(toks: &Vec<String>, i: usize) -> (r: Result<(Stmt, usize), InterpreterError>)
    requires
        i < toks.len(),
    ensures
        match r {
            Ok(p) => spec_parse_stmt(toks.deep_view(), i as int) == Ok::<_, GErr>(
                (p.0@, p.1 as int),
            ) && i < p.1 <= toks.len(),
            Err(e) => spec_parse_stmt(toks.deep_view(), i as int) == Err::<(GStmt, int), GErr>(
                e@,
            ),
        },
    decreases toks.len() - i, 1int,
{
    let ghost t = toks.deep_view();
    proof {
        assert(t[i as int] == toks@[i as int]@);
    }
    let kw = match crate::lexeme::keyword_of(toks[i].as_str()) {
        None => {
            return Err(InterpreterError::UnknownCommand(toks[i].clone()));
        },
        Some(kw) => kw,
    };
    match kw {
        Lexeme::Var => {
            if toks.len() - i < 3 {
                return Err(InterpreterError::MissingOperand);
            }
            proof {
                assert(t[i + 1] == toks@[i + 1]@);
                assert(t[i + 2] == toks@[i + 2]@);
            }
            match crate::text::parse_i32(toks[i + 2].as_str()) {
                None => Err(InterpreterError::ParseLiteral),
                Some(value) => Ok((Stmt::DeclInt { name: toks[i + 1].clone(), value }, i + 3)),
            }
        },
        Lexeme::Float => {
            if toks.len() - i < 3 {
                return Err(InterpreterError::MissingOperand);
            }
            proof {
                assert(t[i + 1] == toks@[i + 1]@);
                assert(t[i + 2] == toks@[i + 2]@);
            }
            match crate::floats::parse_f32(toks[i + 2].as_str()) {
                None => Err(InterpreterError::ParseLiteral),
                Some(bits) => Ok((Stmt::DeclFloat { name: toks[i + 1].clone(), bits }, i + 3)),
            }
        },
        Lexeme::String => {
            if toks.len() - i < 2 {
                return Err(InterpreterError::MissingOperand);
            }
            proof {
                assert(t[i + 1] == toks@[i + 1]@);
            }
            match scan_words(toks, i + 2) {
                Err(e) => Err(e),
                Ok((ws, j)) => {
                    let value = join_word_list(&ws);
                    Ok((Stmt::DeclStr { name: toks[i + 1].clone(), value }, j))
                },
            }
        },
        Lexeme::Array => {
            if toks.len() - i < 3 {
                return Err(InterpreterError::MissingOperand);
            }
            proof {
                assert(t[i + 1] == toks@[i + 1]@);
                assert(t[i + 2] == toks@[i + 2]@);
            }
            match crate::text::parse_i32(toks[i + 2].as_str()) {
                None => Err(InterpreterError::ParseLiteral),
                Some(n) => {
                    if n < 0 {
                        return Err(InterpreterError::ParseLiteral);
                    }
                    match scan_ints(toks, i + 3, n as usize) {
                        Err(e) => Err(e),
                        Ok((items, j)) => Ok(
                            (Stmt::DeclArray { name: toks[i + 1].clone(), items }, j),
                        ),
                    }
                },
            }
        },
        Lexeme::Struct => {
            if toks.len() - i < 2 {
                return Err(InterpreterError::MissingOperand);
            }
            proof {
                assert(t[i + 1] == toks@[i + 1]@);
            }
            match scan_fields(toks, i + 2) {
                Err(e) => Err(e),
                Ok((raw, j)) => {
                    let fields = normalize_fields(&raw);
                    Ok((Stmt::DeclStruct { name: toks[i + 1].clone(), fields }, j))
                },
            }
        },
        Lexeme::Print => {
            if toks.len() - i < 2 {
                return Err(InterpreterError::MissingOperand);
            }
            proof {
                assert(t[i + 1] == toks@[i + 1]@);
            }
            Ok((Stmt::Print { name: toks[i + 1].clone() }, i + 2))
        },
        Lexeme::Add => int_op_stmt(toks, i, BinOp::Add),
        Lexeme::Sub => int_op_stmt(toks, i, BinOp::Sub),
        Lexeme::Mul => int_op_stmt(toks, i, BinOp::Mul),
        Lexeme::Div => int_op_stmt(toks, i, BinOp::Div),
        Lexeme::AddF => float_op_stmt(toks, i, BinOp::Add),
        Lexeme::SubF => float_op_stmt(toks, i, BinOp::Sub),
        Lexeme::MulF => float_op_stmt(toks, i, BinOp::Mul),
        Lexeme::DivF => float_op_stmt(toks, i, BinOp::Div),
        Lexeme::Sqrt => {
            if toks.len() - i < 2 {
                return Err(InterpreterError::MissingOperand);
            }
            proof {
                assert(t[i + 1] == toks@[i + 1]@);
            }
            Ok((Stmt::Sqrt { name: toks[i + 1].clone() }, i + 2))
        },
        Lexeme::ABS => {
            if toks.len() - i < 2 {
                return Err(InterpreterError::MissingOperand);
            }
            proof {
                assert(t[i + 1] == toks@[i + 1]@);
            }
            Ok((Stmt::Abs { name: toks[i + 1].clone() }, i + 2))
        },
        Lexeme::POW => {
            if toks.len() - i < 3 {
                return Err(InterpreterError::MissingOperand);
            }
            proof {
                assert(t[i + 1] == toks@[i + 1]@);
                assert(t[i + 2] == toks@[i + 2]@);
            }
            Ok((Stmt::Pow { dst: toks[i + 1].clone(), src: toks[i + 2].clone() }, i + 3))
        },
        Lexeme::Function => {
            if toks.len() - i < 2 {
                return Err(InterpreterError::MissingOperand);
            }
            proof {
                assert(t[i + 1] == toks@[i + 1]@);
            }
            match scan_params(toks, i + 2) {
                Err(e) => Err(e),
                Ok((params, j)) => match parse_block(toks, j, false) {
                    Err(e) => Err(e),
                    Ok((body, k, _)) => Ok(
                        (
                            Stmt::DeclFun {
                                name: toks[i + 1].clone(),
                                params,
                                body: std::rc::Rc::new(body),
                            },
                            k,
                        ),
                    ),
                },
            }
        },
        Lexeme::Call => {
            if toks.len() - i < 2 {
                return Err(InterpreterError::MissingOperand);
            }
            proof {
                assert(t[i + 1] == toks@[i + 1]@);
            }
            let (args, j) = scan_args(toks, i + 2);
            Ok((Stmt::Call { name: toks[i + 1].clone(), args }, j))
        },
        Lexeme::If => {
            if toks.len() - i < 4 {
                return Err(InterpreterError::MissingOperand);
            }
            proof {
                assert(t[i + 1] == toks@[i + 1]@);
                assert(t[i + 2] == toks@[i + 2]@);
                assert(t[i + 3] == toks@[i + 3]@);
            }
            let cmp = match crate::lexeme::cmp_of(toks[i + 2].as_str()) {
                None => {
                    return Err(InterpreterError::InvalidOperand);
                },
                Some(c) => c,
            };
            let value = match crate::text::parse_i32(toks[i + 3].as_str()) {
                None => {
                    return Err(InterpreterError::ParseLiteral);
                },
                Some(v) => v,
            };
            match parse_block(toks, i + 4, true) {
                Err(e) => Err(e),
                Ok((then_body, j, saw_else)) => {
                    if !saw_else {
                        let else_body: Vec<Stmt> = Vec::new();
                        proof {
                            assert(view_block(else_body@) =~= Seq::<GStmt>::empty());
                        }
                        return Ok(
                            (
                                Stmt::If {
                                    name: toks[i + 1].clone(),
                                    cmp,
                                    value,
                                    then_body: std::rc::Rc::new(then_body),
                                    else_body: std::rc::Rc::new(else_body),
                                },
                                j,
                            ),
                        );
                    }
                    match parse_block(toks, j, false) {
                        Err(e) => Err(e),
                        Ok((else_body, k, _)) => Ok(
                            (
                                Stmt::If {
                                    name: toks[i + 1].clone(),
                                    cmp,
                                    value,
                                    then_body: std::rc::Rc::new(then_body),
                                    else_body: std::rc::Rc::new(else_body),
                                },
                                k,
                            ),
                        ),
                    }
                },
            }
        },
        Lexeme::Loop => {
            if toks.len() - i < 4 {
                return Err(InterpreterError::MissingOperand);
            }
            proof {
                assert(t[i + 1] == toks@[i + 1]@);
                assert(t[i + 2] == toks@[i + 2]@);
                assert(t[i + 3] == toks@[i + 3]@);
            }
            let cmp = match crate::lexeme::cmp_of(toks[i + 2].as_str()) {
                None => {
                    return Err(InterpreterError::InvalidOperand);
                },
                Some(c) => c,
            };
            let value = match crate::text::parse_i32(toks[i + 3].as_str()) {
                None => {
                    return Err(InterpreterError::ParseLiteral);
                },
                Some(v) => v,
            };
            match parse_block(toks, i + 4, false) {
                Err(e) => Err(e),
                Ok((body, k, _)) => Ok(
                    (
                        Stmt::Loop {
                            name: toks[i + 1].clone(),
                            cmp,
                            value,
                            body: std::rc::Rc::new(body),
                        },
                        k,
                    ),
                ),
            }
        },
        _ => Err(InterpreterError::UnknownCommand(toks[i].clone())),
    }
}

/// Reads an integer arithmetic statement.
fn int_op_stmt(toks: &Vec<String>, i: usize, op: BinOp) -> (r: Result<
    (Stmt, usize),
    InterpreterError,
>)
    requires
        i < toks.len(),
    ensures
        match r {
            Ok(p) => spec_int_op(toks.deep_view(), i as int, op) == Ok::<_, GErr>(
                (p.0@, p.1 as int),
            ) && i < p.1 <= toks.len(),
            Err(e) => spec_int_op(toks.deep_view(), i as int, op) == Err::<(GStmt, int), GErr>(
                e@,
            ),
        },
{
    if toks.len() - i < 3 {
        return Err(InterpreterError::MissingOperand);
    }
    proof {
        assert(toks.deep_view()[i + 1] == toks@[i + 1]@);
        assert(toks.deep_view()[i + 2] == toks@[i + 2]@);
    }
    Ok((Stmt::IntOp { op, dst: toks[i + 1].clone(), src: toks[i + 2].clone() }, i + 3))
}

/// Reads a float arithmetic statement.
fn float_op_stmt(toks: &Vec<String>, i: usize, op: BinOp) -> (r: Result<
    (Stmt, usize),
    InterpreterError,
>)
    requires
        i < toks.len(),
    ensures
        match r {
            Ok(p) => spec_float_op(toks.deep_view(), i as int, op) == Ok::<_, GErr>(
                (p.0@, p.1 as int),
            ) && i < p.1 <= toks.len(),
            Err(e) => spec_float_op(toks.deep_view(), i as int, op) == Err::<(GStmt, int), GErr>(
                e@,
            ),
        },
{
    if toks.len() - i < 3 {
        return Err(InterpreterError::MissingOperand);
    }
    proof {
        assert(toks.deep_view()[i + 1] == toks@[i + 1]@);
        assert(toks.deep_view()[i + 2] == toks@[i + 2]@);
    }
    Ok((Stmt::FloatOp { op, dst: toks[i + 1].clone(), src: toks[i + 2].clone() }, i + 3))
}

/// Reads the statements of a block, up to the `end` (or, inside an `if`,
/// `else`) that closes it.
fn parse_block(toks: &Vec<String>, i: usize, allow_else: bool) -> (r: Result<
    (Vec<Stmt>, usize, bool),
    InterpreterError,
>)
    ensures
        match r {
            Ok(p) => spec_parse_block(toks.deep_view(), i as int, allow_else) == Ok::<_, GErr>(
                (view_block(p.0@), p.1 as int, p.2),
            ) && i < p.1 <= toks.len(),
            Err(e) => spec_parse_block(toks.deep_view(), i as int, allow_else) == Err::<
                (Seq<GStmt>, int, bool),
                GErr,
            >(e@),
        },
    decreases toks.len() - i, 2int,
{
    if i >= toks.len() {
        return Err(InterpreterError::MissingOperand);
    }
    proof {
        assert(toks.deep_view()[i as int] == toks@[i as int]@);
    }
    if crate::text::str_eq(toks[i].as_str(), "end") {
        let ss: Vec<Stmt> = Vec::new();
        proof {
            assert(view_block(ss@) =~= Seq::<GStmt>::empty());
        }
        return Ok((ss, i + 1, false));
    }
    if allow_else && crate::text::str_eq(toks[i].as_str(), "else") {
        let ss: Vec<Stmt> = Vec::new();
        proof {
            assert(view_block(ss@) =~= Seq::<GStmt>::empty());
        }
        return Ok((ss, i + 1, true));
    }
    match parse_stmt(toks, i) {
        Err(e) => Err(e),
        Ok((s, j)) => match parse_block(toks, j, allow_else) {
            Err(e) => Err(e),
            Ok((mut ss, k, saw_else)) => {
                let ghost pre = ss@;
                ss.insert(0, s);
                proof {
                    crate::ast::lemma_view_block(pre);
                    crate::ast::lemma_view_block(ss@);
                    assert forall|q: int| 0 <= q < ss@.len() implies view_block(ss@)[q] == (
                    seq![s@] + view_block(pre))[q] by {
                        if q > 0 {
                            assert(ss@[q] == pre[q - 1]);
                        }
                    }
                    assert(view_block(ss@) =~= seq![s@] + view_block(pre));
                }
                Ok((ss, k, saw_else))
            },
        },
    }
}

/// Reads a whole program: statements to the end of the tokens, with stray
/// `end` tokens consumed as no-ops.
pub fn parse_program(toks: &Vec<String>) -> (r: Result<Vec<Stmt>, InterpreterError>)
    ensures
        match r {
            Ok(p) => spec_parse_program(toks.deep_view()) == Ok::<_, GErr>(view_block(p@)),
            Err(e) => spec_parse_program(toks.deep_view()) == Err::<Seq<GStmt>, GErr>(e@),
        },
{
    parse_prog_from(toks, 0)
}

/// Reads the statements from `toks[i]` on.
fn parse_prog_from(toks: &Vec<String>, i: usize) -> (r: Result<Vec<Stmt>, InterpreterError>)
    ensures
        match r {
            Ok(p) => spec_parse_prog_from(toks.deep_view(), i as int) == Ok::<_, GErr>(
                view_block(p@),
            ),
            Err(e) => spec_parse_prog_from(toks.deep_view(), i as int) == Err::<Seq<GStmt>, GErr>(
                e@,
            ),
        },
    decreases toks.len() - i,
{
    if i >= toks.len() {
        let ss: Vec<Stmt> = Vec::new();
        proof {
            assert(view_block(ss@) =~= Seq::<GStmt>::empty());
        }
        return Ok(ss);
    }
    proof {
        assert(toks.deep_view()[i as int] == toks@[i as int]@);
    }
    if crate::text::str_eq(toks[i].as_str(), "end") {
        return parse_prog_from(toks, i + 1);
    }
    match parse_stmt(toks, i) {
        Err(e) => Err(e),
        Ok((s, j)) => match parse_prog_from(toks, j) {
            Err(e) => Err(e),
            Ok(mut ss) => {
                let ghost pre = ss@;
                ss.insert(0, s);
                proof {
                    crate::ast::lemma_view_block(pre);
                    crate::ast::lemma_view_block(ss@);
                    assert forall|q: int| 0 <= q < ss@.len() implies view_block(ss@)[q] == (
                    seq![s@] + view_block(pre))[q] by {
                        if q > 0 {
                            assert(ss@[q] == pre[q - 1]);
                        }
                    }
                    assert(view_block(ss@) =~= seq![s@] + view_block(pre));
                }
                Ok(ss)
            },
        },
    }
}

} // verus!

verus! {

/// Appending one more word to a join appends one space and the word.
proof fn lemma_join_push(ws: Seq<Seq<char>>, w: Seq<char>)
    ensures
        join_words(ws.push(w)) == if ws.len() == 0 {
            w
        } else {
            join_words(ws) + " "@ + w
        },
    decreases ws.len(),
{
    let p = ws.push(w);
    if ws.len() == 0 {
        assert(p.len() == 1);
        assert(p[0] == w);
    } else if ws.len() == 1 {
        assert(p.len() == 2);
        assert(p[0] == ws[0]);
        assert(p.drop_first() =~= seq![w]);
        assert(join_words(p.drop_first()) == w) by {
            assert(p.drop_first().len() == 1);
            assert(p.drop_first()[0] == w);
        }
        assert(join_words(p) == ws[0] + " "@ + w);
        assert(join_words(ws) == ws[0]);
    } else {
        assert(p.drop_first() =~= ws.drop_first().push(w));
        lemma_join_push(ws.drop_first(), w);
        assert(join_words(p) == p[0] + " "@ + (join_words(ws.drop_first()) + " "@ + w));
        assert(p[0] == ws[0]);
        assert(ws[0] + " "@ + (join_words(ws.drop_first()) + " "@ + w) =~= (ws[0] + " "@
            + join_words(ws.drop_first())) + " "@ + w);
    }
}

/// Joins words with single spaces: the value of a `string` declaration.
fn join_word_list(ws: &Vec<String>) -> (r: String)
    ensures
        r@ == join_words(ws.deep_view()),
{
    let mut r = String::new();
    let mut k: usize = 0;
    proof {
        assert(ws.deep_view().take(0) =~= Seq::<Seq<char>>::empty());
        assert(r@ =~= join_words(ws.deep_view().take(0)));
    }
    while k < ws.len()
        invariant
            k <= ws.len(),
            r@ == join_words(ws.deep_view().take(k as int)),
        decreases ws.len() - k,
    {
        proof {
            assert(ws.deep_view()[k as int] == ws@[k as int]@);
        }
        if k > 0 {
            r.append(" ");
        }
        r.append(ws[k].as_str());
        proof {
            lemma_join_push(ws.deep_view().take(k as int), ws.deep_view()[k as int]);
            assert(ws.deep_view().take(k + 1) =~= ws.deep_view().take(k as int).push(
                ws.deep_view()[k as int],
            ));
            if k == 0 {
                assert(r@ =~= join_words(ws.deep_view().take(k + 1)));
            } else {
                assert(r@ =~= join_words(ws.deep_view().take(k + 1)));
            }
        }
        k = k + 1;
    }
    proof {
        assert(ws.deep_view().take(ws.len() as int) =~= ws.deep_view());
    }
    r
}

} // verus!
