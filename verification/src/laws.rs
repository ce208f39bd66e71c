//! Laws of the language, proved against the semantics: printing is
//! repeatable, division prints the truncating quotient or fails on a zero
//! divisor, and a declared string reproduces its words verbatim.

use vstd::prelude::*;
use crate::ast::{BinOp, GStmt};
use crate::sem::{
    print_lines, reaches_done, reaches_failure, spec_step, steps, tdiv, Config, GEnv, GErr,
    GFrame, GFrameKind, GStatus,
};
use crate::text::{i32_text, lemma_i32_text_round_trip};

verus! {

/// Printing a name twice, with nothing in between, emits the same lines
/// twice: `print` reads the environment and never changes it.
pub proof fn lemma_print_twice(
    env: GEnv,
    locals: Option<Map<Seq<char>, i32>>,
    out: Seq<Seq<char>>,
    name: Seq<char>,
)
    requires
        print_lines(env, locals, name) is Some,
    ensures
        ({
            let c = Config {
                frames: seq![
                    GFrame {
                        stmts: seq![GStmt::Print { name }, GStmt::Print { name }],
                        kind: GFrameKind::Block,
                    },
                ],
                env,
                locals,
                out,
                status: GStatus::Running,
            };
            let ls = print_lines(env, locals, name)->0;
            steps(c, 2).out == out + ls + ls && steps(c, 2).env == env && steps(
                c,
                2,
            ).status is Running
        }),
{
    let c = Config {
        frames: seq![
            GFrame {
                stmts: seq![GStmt::Print { name }, GStmt::Print { name }],
                kind: GFrameKind::Block,
            },
        ],
        env,
        locals,
        out,
        status: GStatus::Running,
    };
    let ls = print_lines(env, locals, name)->0;
    let c1 = spec_step(c);
    assert(c.frames.last().stmts[0] == GStmt::Print { name });
    assert(c1.out == out + ls);
    assert(c1.env == env);
    assert(c1.locals == locals);
    assert(c1.frames.last().stmts[0] == GStmt::Print { name });
    let c2 = spec_step(c1);
    assert(c2.out == (out + ls) + ls);
    assert(c2.out =~= out + ls + ls);
    reveal_with_fuel(steps, 3);
    assert(steps(c, 2) == spec_step(spec_step(c)));
}

/// The truncating quotient of two in-range operands is in range whenever the
/// one overflowing pair is excluded.
proof fn lemma_tdiv_range(a: i32, b: i32)
    requires
        b != 0,
        !(a == i32::MIN && b == -1),
    ensures
        i32::MIN <= tdiv(a as int, b as int) <= i32::MAX,
{
    let m: int = if a < 0 {
        -(a as int)
    } else {
        a as int
    };
    let n: int = if b < 0 {
        -(b as int)
    } else {
        b as int
    };
    assert(m / n >= 0 && m / n <= m) by (nonlinear_arith)
        requires
            m >= 0,
            n >= 1,
    ;
    if a == i32::MIN && (a < 0) == (b < 0) {
        assert(n >= 2);
        assert(m / n <= m / 2) by (nonlinear_arith)
            requires
                m >= 0,
                n >= 2,
        ;
    }
}

/// The tokens of the one-statement-per-line program
/// `var x A  var y B  div x y  print x`.
pub open spec fn div_program_tokens(a: i32, b: i32) -> Seq<Seq<char>> {
    seq![
        "var"@,
        "x"@,
        i32_text(a),
        "var"@,
        "y"@,
        i32_text(b),
        "div"@,
        "x"@,
        "y"@,
        "print"@,
        "x"@,
    ]
}

/// The statement tree of the division program.
pub open spec fn div_program(a: i32, b: i32) -> Seq<GStmt> {
    seq![
        GStmt::DeclInt { name: "x"@, value: a },
        GStmt::DeclInt { name: "y"@, value: b },
        GStmt::IntOp { op: BinOp::Div, dst: "x"@, src: "y"@ },
        GStmt::Print { name: "x"@ },
    ]
}

/// The division program parses to its four statements.
#[verifier::rlimit(100)]
proof fn lemma_div_program_parses(a: i32, b: i32)
    ensures
        crate::parse::spec_parse_program(div_program_tokens(a, b)) == Ok::<Seq<GStmt>, GErr>(
            div_program(a, b),
        ),
{
    reveal_strlit("var");
    reveal_strlit("print");
    reveal_strlit("if");
    reveal_strlit("else");
    reveal_strlit("add");
    reveal_strlit("sub");
    reveal_strlit("mul");
    reveal_strlit("div");
    reveal_strlit("end");
    reveal_strlit("x");
    reveal_strlit("y");
    lemma_i32_text_round_trip(a);
    lemma_i32_text_round_trip(b);
    let toks = div_program_tokens(a, b);
    let prog = div_program(a, b);
    lemma_numeral_head(a);
    lemma_numeral_head(b);
    assert(toks[0] != "end"@ && toks[3] != "end"@ && toks[6] != "end"@ && toks[9] != "end"@);
    assert(crate::parse::spec_parse_stmt(toks, 0) == Ok::<_, GErr>((prog[0], 3int)));
    assert(crate::parse::spec_parse_stmt(toks, 3) == Ok::<_, GErr>((prog[1], 6int)));
    assert(crate::parse::spec_parse_stmt(toks, 6) == Ok::<_, GErr>((prog[2], 9int)));
    assert(crate::parse::spec_parse_stmt(toks, 9) == Ok::<_, GErr>((prog[3], 11int)));
    assert(crate::parse::spec_parse_prog_from(toks, 11) == Ok::<Seq<GStmt>, GErr>(Seq::empty()));
    assert(crate::parse::spec_parse_prog_from(toks, 9) == Ok::<Seq<GStmt>, GErr>(
        seq![prog[3]] + Seq::empty(),
    ));
    assert(crate::parse::spec_parse_prog_from(toks, 6) == Ok::<Seq<GStmt>, GErr>(
        seq![prog[2]] + (seq![prog[3]] + Seq::empty()),
    ));
    assert(crate::parse::spec_parse_prog_from(toks, 3) == Ok::<Seq<GStmt>, GErr>(
        seq![prog[1]] + (seq![prog[2]] + (seq![prog[3]] + Seq::empty())),
    ));
    assert(crate::parse::spec_parse_prog_from(toks, 0) == Ok::<Seq<GStmt>, GErr>(
        seq![prog[0]] + (seq![prog[1]] + (seq![prog[2]] + (seq![prog[3]] + Seq::empty()))),
    ));
    assert(seq![prog[0]] + (seq![prog[1]] + (seq![prog[2]] + (seq![prog[3]] + Seq::empty())))
        =~= prog);
}

/// Declaring `x` and `y`, dividing and printing `x` emits exactly the
/// truncating-toward-zero quotient; with a zero divisor the run fails with
/// `DivisionByZero` and prints nothing.
#[verifier::rlimit(100)]
pub proof fn lemma_div_prints_quotient(a: i32, b: i32)
    requires
        !(a == i32::MIN && b == -1),
    ensures
        crate::parse::spec_parse_program(div_program_tokens(a, b)) matches Ok(prog) && {
            let c0 = Config::init(prog, GEnv::empty(), Seq::empty());
            &&& b != 0 ==> reaches_done(
                c0,
                GEnv {
                    ints: Map::empty().insert("x"@, (tdiv(a as int, b as int)) as i32).insert(
                        "y"@,
                        b,
                    ),
                    ..GEnv::empty()
                },
                seq![i32_text((tdiv(a as int, b as int)) as i32)],
            )
            &&& b == 0 ==> reaches_failure(
                c0,
                GErr::DivisionByZero,
                GEnv {
                    ints: Map::empty().insert("x"@, a).insert("y"@, b),
                    ..GEnv::empty()
                },
                Seq::empty(),
            )
        },
{
    reveal_strlit("x");
    reveal_strlit("y");
    lemma_div_program_parses(a, b);
    let prog = div_program(a, b);
    let c0 = Config::init(prog, GEnv::empty(), Seq::empty());
    assert("x"@[0] == 'x' && "y"@[0] == 'y');
    assert("x"@ != "y"@);
    let c1 = spec_step(c0);
    assert(c1.env.ints =~= Map::empty().insert("x"@, a));
    let c2 = spec_step(c1);
    assert(c2.env.ints =~= Map::empty().insert("x"@, a).insert("y"@, b));
    let c3 = spec_step(c2);
    reveal_with_fuel(steps, 7);
    assert(steps(c0, 3) == spec_step(spec_step(spec_step(c0))));
    if b == 0 {
        assert(c3.status == GStatus::Failed(GErr::DivisionByZero));
        assert(c3.env =~~= GEnv {
            ints: Map::empty().insert("x"@, a).insert("y"@, b),
            ..GEnv::empty()
        });
        assert(c3.out =~= Seq::<Seq<char>>::empty());
    } else {
        lemma_tdiv_range(a, b);
        let q = (tdiv(a as int, b as int)) as i32;
        assert(c3.env.ints =~= Map::empty().insert("x"@, a).insert("y"@, b).insert("x"@, q));
        assert(c3.env.ints =~= Map::empty().insert("y"@, b).insert("x"@, q));
        assert(c3.env.ints =~= Map::empty().insert("x"@, q).insert("y"@, b));
        let c4 = spec_step(c3);
        assert(c4.out =~= seq![i32_text(q)]);
        let c5 = spec_step(c4);
        let c6 = spec_step(c5);
        assert(c6.status is Done);
        assert(c6.env =~~= GEnv {
            ints: Map::empty().insert("x"@, q).insert("y"@, b),
            ..GEnv::empty()
        });
        assert(steps(c0, 6) == spec_step(spec_step(spec_step(spec_step(spec_step(spec_step(
            c0,
        )))))));
        assert(steps(c0, 6).status is Done);
    }
}

/// A numeral begins with a sign or a digit, so it spells no keyword and no
/// block terminator.
proof fn lemma_numeral_head(v: i32)
    ensures
        i32_text(v).len() > 0,
        i32_text(v)[0] == '-' || crate::text::is_digit(i32_text(v)[0]),
{
    crate::text::lemma_i32_text_head(v);
}

} // verus!

verus! {

/// Scanning words up to the first `endstring` collects exactly the tokens
/// before it.
proof fn lemma_scan_words_exact(t: Seq<Seq<char>>, j: int, m: int)
    requires
        0 <= j <= m < t.len(),
        t[m] == "endstring"@,
        forall|k: int| j <= k < m ==> t[k] != "endstring"@,
    ensures
        crate::parse::spec_scan_words(t, j) == Ok::<(Seq<Seq<char>>, int), GErr>(
            (t.subrange(j, m), m + 1),
        ),
    decreases m - j,
{
    if j == m {
        assert(t.subrange(j, m) =~= Seq::<Seq<char>>::empty());
    } else {
        lemma_scan_words_exact(t, j + 1, m);
        assert(seq![t[j]] + t.subrange(j + 1, m) =~= t.subrange(j, m));
    }
}

/// The tokens of `string NAME w1 .. wN endstring  print NAME`.
pub open spec fn string_program_tokens(name: Seq<char>, words: Seq<Seq<char>>) -> Seq<
    Seq<char>,
> {
    seq!["string"@, name] + words + seq!["endstring"@, "print"@, name]
}

/// A string declared from words and printed reproduces those words joined
/// by single spaces, verbatim.
/// The statement tree of the string program.
pub open spec fn string_program(name: Seq<char>, words: Seq<Seq<char>>) -> Seq<GStmt> {
    seq![
        GStmt::DeclStr { name, value: crate::parse::join_words(words) },
        GStmt::Print { name },
    ]
}

/// `string` and `print` spell their keywords and neither spells `end`.
proof fn lemma_string_print_keywords()
    ensures
        crate::lexeme::spec_keyword("string"@) == Some(crate::lexeme::Lexeme::String),
        crate::lexeme::spec_keyword("print"@) == Some(crate::lexeme::Lexeme::Print),
        "string"@ != "end"@,
        "print"@ != "end"@,
{
    reveal_strlit("var");
    reveal_strlit("print");
    reveal_strlit("if");
    reveal_strlit("else");
    reveal_strlit("add");
    reveal_strlit("sub");
    reveal_strlit("mul");
    reveal_strlit("div");
    reveal_strlit("end");
    reveal_strlit("loop");
    reveal_strlit("array");
    reveal_strlit("string");
    assert("string"@.len() == 6 && "print"@.len() == 5 && "end"@.len() == 3);
}

/// The string program parses to a declaration and a print.
#[verifier::rlimit(100)]
proof fn lemma_string_program_parses(name: Seq<char>, words: Seq<Seq<char>>)
    requires
        forall|k: int| 0 <= k < words.len() ==> words[k] != "endstring"@,
    ensures
        crate::parse::spec_parse_program(string_program_tokens(name, words)) == Ok::<
            Seq<GStmt>,
            GErr,
        >(string_program(name, words)),
{
    lemma_string_print_keywords();
    let toks = string_program_tokens(name, words);
    let nw = words.len() as int;
    assert(toks.len() == nw + 5);
    assert(toks[0] == "string"@ && toks[2 + nw] == "endstring"@ && toks[3 + nw] == "print"@);
    assert(toks[1] == name && toks[4 + nw] == name);
    assert(forall|k: int| 2 <= k < 2 + nw ==> toks[k] == words[k - 2]);
    lemma_scan_words_exact(toks, 2, 2 + nw);
    assert(toks.subrange(2, 2 + nw) =~= words);
    let d = GStmt::DeclStr { name, value: crate::parse::join_words(words) };
    let p = GStmt::Print { name };
    assert(crate::parse::spec_scan_words(toks, 2) == Ok::<(Seq<Seq<char>>, int), GErr>(
        (words, 3 + nw),
    ));
    assert(crate::parse::spec_parse_stmt(toks, 0) == Ok::<_, GErr>((d, 3 + nw)));
    assert(crate::parse::spec_parse_stmt(toks, 3 + nw) == Ok::<_, GErr>((p, 5 + nw)));
    assert(crate::parse::spec_parse_prog_from(toks, 5 + nw) == Ok::<Seq<GStmt>, GErr>(
        Seq::empty(),
    ));
    assert(crate::parse::spec_parse_prog_from(toks, 3 + nw) == Ok::<Seq<GStmt>, GErr>(
        seq![p] + Seq::empty(),
    ));
    assert(crate::parse::spec_parse_prog_from(toks, 0) == Ok::<Seq<GStmt>, GErr>(
        seq![d] + (seq![p] + Seq::empty()),
    ));
    assert(seq![d] + (seq![p] + Seq::empty()) =~= string_program(name, words));
}

/// A string declared from words and printed reproduces those words joined
/// by single spaces, verbatim.
#[verifier::rlimit(100)]
pub proof fn lemma_string_round_trip(name: Seq<char>, words: Seq<Seq<char>>)
    requires
        forall|k: int| 0 <= k < words.len() ==> words[k] != "endstring"@,
    ensures
        crate::parse::spec_parse_program(string_program_tokens(name, words)) matches Ok(prog)
            && reaches_done(
            Config::init(prog, GEnv::empty(), Seq::empty()),
            GEnv {
                strs: Map::empty().insert(name, crate::parse::join_words(words)),
                ..GEnv::empty()
            },
            seq![crate::parse::join_words(words)],
        ),
{
    lemma_string_program_parses(name, words);
    let prog = string_program(name, words);
    let c0 = Config::init(prog, GEnv::empty(), Seq::empty());
    let c1 = spec_step(c0);
    assert(c1.env.strs == Map::empty().insert(name, crate::parse::join_words(words)));
    let c2 = spec_step(c1);
    assert(c2.out =~= seq![crate::parse::join_words(words)]);
    let c3 = spec_step(c2);
    let c4 = spec_step(c3);
    assert(c4.status is Done);
    assert(c4.env =~~= GEnv {
        strs: Map::empty().insert(name, crate::parse::join_words(words)),
        ..GEnv::empty()
    });
    reveal_with_fuel(steps, 5);
    assert(steps(c0, 4) == spec_step(spec_step(spec_step(spec_step(c0)))));
    assert(steps(c0, 4).status is Done);
}

} // verus!

