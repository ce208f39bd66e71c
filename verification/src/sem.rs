//! The ghost semantics: a small-step stack machine over the statement tree.
//! Every transition of the interpreter is one application of [`spec_step`].

use vstd::prelude::*;
use crate::ast::{BinOp, GStmt};
use crate::floats::{f32_diff, f32_prod, f32_quot, f32_sum, f32_text};
use crate::lexeme::Comparison;
use crate::text::{dec_text, i32_text};

verus! {

/// An execution error, over ghost text. Each run ends with the first of
/// these it meets; there is no recovery.
pub enum GErr {
    /// The statement began with an unrecognized keyword.
    UnknownCommand(Seq<char>),
    /// The token stream ended in the middle of a statement.
    MissingOperand,
    /// An operand could not be read as a value of the expected type.
    ParseLiteral,
    /// A name was used before any declaration bound it.
    UndefinedName,
    /// A call supplied more or fewer arguments than the function declares.
    ArityMismatch,
    /// An integer division had a zero divisor.
    DivisionByZero,
    /// An operand outside the operation's domain: a negative square root or
    /// exponent, or an integer result outside the 32-bit range.
    InvalidOperand,
    /// The output sink refused a write. The library's own sink never fails;
    /// hosts that write through a fallible sink report this.
    IOFailure,
    /// The machine's transition budget ran out. The step function never
    /// produces this; the executable machine reports it after `u64::MAX`
    /// transitions, a count no real run reaches.
    StepLimit,
}

/// A declared function: positional parameter names and a captured body.
#[verifier::ext_equal]
pub struct GFun {
    pub params: Seq<Seq<char>>,
    pub body: Seq<GStmt>,
}

/// The five value namespaces and the function table. A name may stand in
/// several namespaces at once; `print` probes them in a fixed order.
#[verifier::ext_equal]
pub struct GEnv {
    pub ints: Map<Seq<char>, i32>,
    pub floats: Map<Seq<char>, u32>,
    pub strs: Map<Seq<char>, Seq<char>>,
    pub arrays: Map<Seq<char>, Seq<i32>>,
    pub structs: Map<Seq<char>, Seq<(Seq<char>, i32)>>,
    pub funs: Map<Seq<char>, GFun>,
}

impl GEnv {
    /// The empty environment a fresh interpreter starts with.
    pub open spec fn empty() -> GEnv {
        GEnv {
            ints: Map::empty(),
            floats: Map::empty(),
            strs: Map::empty(),
            arrays: Map::empty(),
            structs: Map::empty(),
            funs: Map::empty(),
        }
    }
}

/// What a frame does when its statements run out.
pub enum GFrameKind {
    /// A plain block: nothing.
    Block,
    /// A loop body: retest the condition, and rerun `body` if it holds.
    LoopFrame { name: Seq<char>, cmp: Comparison, value: i32, body: Seq<GStmt> },
    /// A call body: restore the caller's local scope.
    CallFrame { saved: Option<Map<Seq<char>, i32>> },
}

/// One frame of the execution stack: the statements still to run, and what
/// to do when they are done.
#[verifier::ext_equal]
pub struct GFrame {
    pub stmts: Seq<GStmt>,
    pub kind: GFrameKind,
}

/// Whether the machine is still running, finished, or stopped on an error.
pub enum GStatus {
    Running,
    Done,
    Failed(GErr),
}

/// A machine configuration: the stack, the environment, the local scope of
/// the innermost call (if any), and the output so far.
#[verifier::ext_equal]
pub struct Config {
    pub frames: Seq<GFrame>,
    pub env: GEnv,
    pub locals: Option<Map<Seq<char>, i32>>,
    pub out: Seq<Seq<char>>,
    pub status: GStatus,
}

impl Config {
    /// The starting configuration for a program, on an environment and the
    /// output already written.
    pub open spec fn init(prog: Seq<GStmt>, env: GEnv, out: Seq<Seq<char>>) -> Config {
        Config {
            frames: seq![GFrame { stmts: prog, kind: GFrameKind::Block }],
            env,
            locals: None,
            out,
            status: GStatus::Running,
        }
    }

    /// Whether the machine has stopped, well or badly.
    pub open spec fn terminal(self) -> bool {
        !(self.status is Running)
    }
}

/// The integer bound to `name`: the local scope of the innermost call wins
/// over the shared environment.
pub open spec fn read_int(
    env: GEnv,
    locals: Option<Map<Seq<char>, i32>>,
    name: Seq<char>,
) -> Option<i32> {
    if locals is Some && locals->0.contains_key(name) {
        Some(locals->0[name])
    } else if env.ints.contains_key(name) {
        Some(env.ints[name])
    } else {
        None
    }
}

/// Declares `name`: inside a call the binding is local to it, otherwise it
/// lands in the shared environment.
pub open spec fn decl_int(
    env: GEnv,
    locals: Option<Map<Seq<char>, i32>>,
    name: Seq<char>,
    v: i32,
) -> (GEnv, Option<Map<Seq<char>, i32>>) {
    match locals {
        Some(l) => (env, Some(l.insert(name, v))),
        None => (GEnv { ints: env.ints.insert(name, v), ..env }, None),
    }
}

/// Stores into an already-resolved `name`: the binding that `read_int`
/// found is the one replaced.
pub open spec fn store_int(
    env: GEnv,
    locals: Option<Map<Seq<char>, i32>>,
    name: Seq<char>,
    v: i32,
) -> (GEnv, Option<Map<Seq<char>, i32>>) {
    if locals is Some && locals->0.contains_key(name) {
        (env, Some(locals->0.insert(name, v)))
    } else {
        (GEnv { ints: env.ints.insert(name, v), ..env }, locals)
    }
}

/// Truncating-toward-zero integer division.
pub open spec fn tdiv(a: int, b: int) -> int {
    let m = if a < 0 {
        -a
    } else {
        a
    };
    let n = if b < 0 {
        -b
    } else {
        b
    };
    if (a < 0) != (b < 0) {
        -(m / n)
    } else {
        m / n
    }
}

/// One integer operation, with the error it stops on: a zero divisor, or a
/// result outside the 32-bit range.
pub open spec fn eval_iop(op: BinOp, a: i32, b: i32) -> Result<i32, GErr> {
    match op {
        BinOp::Add => in_i32(a + b),
        BinOp::Sub => in_i32(a - b),
        BinOp::Mul => in_i32(a * b),
        BinOp::Div => if b == 0 {
            Err(GErr::DivisionByZero)
        } else {
            in_i32(tdiv(a as int, b as int))
        },
    }
}

/// `v` as an `i32` result, or the error for a value out of range.
pub open spec fn in_i32(v: int) -> Result<i32, GErr> {
    if i32::MIN <= v <= i32::MAX {
        Ok(v as i32)
    } else {
        Err(GErr::InvalidOperand)
    }
}

/// One float operation on bit patterns. IEEE 754 arithmetic is total.
pub open spec fn eval_fop(op: BinOp, a: u32, b: u32) -> u32 {
    match op {
        BinOp::Add => f32_sum(a, b),
        BinOp::Sub => f32_diff(a, b),
        BinOp::Mul => f32_prod(a, b),
        BinOp::Div => f32_quot(a, b),
    }
}

/// The truncated square root: the greatest `r` with `r * r <= n`.
pub open spec fn isqrt(n: nat) -> nat
    decreases n,
{
    if n == 0 {
        0
    } else {
        let p = isqrt((n - 1) as nat);
        if (p + 1) * (p + 1) <= n {
            p + 1
        } else {
            p
        }
    }
}

/// `base` raised to `e`, stepwise, stopping where a partial product leaves
/// the 32-bit range.
pub open spec fn pow_checked(base: i32, e: nat) -> Option<i32>
    decreases e,
{
    if e == 0 {
        Some(1)
    } else {
        match pow_checked(base, (e - 1) as nat) {
            None => None,
            Some(p) => match in_i32(p * base) {
                Ok(v) => Some(v),
                Err(_) => None,
            },
        }
    }
}

/// The line `print` emits for element `i` of array `name`.
pub open spec fn array_line(name: Seq<char>, i: int, v: i32) -> Seq<char> {
    name + "["@ + dec_text(i as nat) + "] = "@ + i32_text(v)
}

/// The line `print` emits for field `f` of struct `name`.
pub open spec fn struct_line(name: Seq<char>, f: Seq<char>, v: i32) -> Seq<char> {
    name + "."@ + f + " = "@ + i32_text(v)
}

/// What `print name` emits: the namespaces are probed in the fixed order
/// integer, array, float, struct, string, and the first that holds the name
/// wins. `None` when no namespace holds it.
pub open spec fn print_lines(
    env: GEnv,
    locals: Option<Map<Seq<char>, i32>>,
    name: Seq<char>,
) -> Option<Seq<Seq<char>>> {
    if read_int(env, locals, name) is Some {
        Some(seq![i32_text(read_int(env, locals, name)->0)])
    } else if env.arrays.contains_key(name) {
        let a = env.arrays[name];
        Some(Seq::new(a.len(), |i: int| array_line(name, i, a[i])))
    } else if env.floats.contains_key(name) {
        Some(seq![f32_text(env.floats[name])])
    } else if env.structs.contains_key(name) {
        let fs = env.structs[name];
        Some(Seq::new(fs.len(), |i: int| struct_line(name, fs[i].0, fs[i].1)))
    } else if env.strs.contains_key(name) {
        Some(seq![env.strs[name]])
    } else {
        None
    }
}

/// The local scope a call starts with: each parameter bound to its argument.
pub open spec fn bind_params(params: Seq<Seq<char>>, args: Seq<i32>) -> Map<Seq<char>, i32>
    decreases params.len(),
{
    if params.len() == 0 || args.len() == 0 {
        Map::empty()
    } else {
        bind_params(params.drop_last(), args.drop_last()).insert(params.last(), args.last())
    }
}

/// `c`, stopped on error `e`.
pub open spec fn fail(c: Config, e: GErr) -> Config {
    Config { status: GStatus::Failed(e), ..c }
}

/// One transition of the machine. Terminal configurations are fixed points.
pub open spec fn spec_step(c: Config) -> Config {
    if c.terminal() {
        c
    } else if c.frames.len() == 0 {
        Config { status: GStatus::Done, ..c }
    } else {
        let fr = c.frames.last();
        if fr.stmts.len() == 0 {
            step_frame_done(c, fr)
        } else {
            let rest = GFrame { stmts: fr.stmts.drop_first(), kind: fr.kind };
            let adv = c.frames.update(c.frames.len() - 1, rest);
            step_stmt(Config { frames: adv, ..c }, fr.stmts[0])
        }
    }
}

/// The transition when the top frame has no statement left.
pub open spec fn step_frame_done(c: Config, fr: GFrame) -> Config {
    match fr.kind {
        GFrameKind::Block => Config { frames: c.frames.drop_last(), ..c },
        GFrameKind::LoopFrame { name, cmp, value, body } => match read_int(
            c.env,
            c.locals,
            name,
        ) {
            None => fail(c, GErr::UndefinedName),
            Some(v) => if cmp.spec_holds(v, value) {
                Config {
                    frames: c.frames.update(
                        c.frames.len() - 1,
                        GFrame { stmts: body, kind: fr.kind },
                    ),
                    ..c
                }
            } else {
                Config { frames: c.frames.drop_last(), ..c }
            },
        },
        GFrameKind::CallFrame { saved } => Config {
            frames: c.frames.drop_last(),
            locals: saved,
            ..c
        },
    }
}

/// The transition for one statement, on the configuration whose top frame
/// has already moved past it.
pub open spec fn step_stmt(c: Config, st: GStmt) -> Config {
    match st {
        GStmt::DeclInt { name, value } => {
            let (env, locals) = decl_int(c.env, c.locals, name, value);
            Config { env, locals, ..c }
        },
        GStmt::DeclFloat { name, bits } => Config {
            env: GEnv { floats: c.env.floats.insert(name, bits), ..c.env },
            ..c
        },
        GStmt::DeclStr { name, value } => Config {
            env: GEnv { strs: c.env.strs.insert(name, value), ..c.env },
            ..c
        },
        GStmt::DeclArray { name, items } => Config {
            env: GEnv { arrays: c.env.arrays.insert(name, items), ..c.env },
            ..c
        },
        GStmt::DeclStruct { name, fields } => Config {
            env: GEnv { structs: c.env.structs.insert(name, fields), ..c.env },
            ..c
        },
        GStmt::DeclFun { name, params, body } => Config {
            env: GEnv { funs: c.env.funs.insert(name, GFun { params, body }), ..c.env },
            ..c
        },
        GStmt::Print { name } => match print_lines(c.env, c.locals, name) {
            None => fail(c, GErr::UndefinedName),
            Some(lines) => Config { out: c.out + lines, ..c },
        },
        GStmt::IntOp { op, dst, src } => match (
            read_int(c.env, c.locals, dst),
            read_int(c.env, c.locals, src),
        ) {
            (Some(a), Some(b)) => match eval_iop(op, a, b) {
                Ok(v) => {
                    let (env, locals) = store_int(c.env, c.locals, dst, v);
                    Config { env, locals, ..c }
                },
                Err(e) => fail(c, e),
            },
            _ => fail(c, GErr::UndefinedName),
        },
        GStmt::FloatOp { op, dst, src } => if c.env.floats.contains_key(dst)
            && c.env.floats.contains_key(src) {
            let v = eval_fop(op, c.env.floats[dst], c.env.floats[src]);
            Config { env: GEnv { floats: c.env.floats.insert(dst, v), ..c.env }, ..c }
        } else {
            fail(c, GErr::UndefinedName)
        },
        GStmt::Sqrt { name } => match read_int(c.env, c.locals, name) {
            None => fail(c, GErr::UndefinedName),
            Some(v) => if v < 0 {
                fail(c, GErr::InvalidOperand)
            } else {
                let (env, locals) = store_int(c.env, c.locals, name, isqrt(v as nat) as i32);
                Config { env, locals, ..c }
            },
        },
        GStmt::Abs { name } => match read_int(c.env, c.locals, name) {
            None => fail(c, GErr::UndefinedName),
            Some(v) => if v == i32::MIN {
                fail(c, GErr::InvalidOperand)
            } else {
                let a: i32 = if v < 0 {
                    (-v) as i32
                } else {
                    v
                };
                let (env, locals) = store_int(c.env, c.locals, name, a);
                Config { env, locals, ..c }
            },
        },
        GStmt::Pow { dst, src } => match (
            read_int(c.env, c.locals, dst),
            read_int(c.env, c.locals, src),
        ) {
            (Some(a), Some(b)) => if b < 0 {
                fail(c, GErr::InvalidOperand)
            } else {
                match pow_checked(a, b as nat) {
                    None => fail(c, GErr::InvalidOperand),
                    Some(v) => {
                        let (env, locals) = store_int(c.env, c.locals, dst, v);
                        Config { env, locals, ..c }
                    },
                }
            },
            _ => fail(c, GErr::UndefinedName),
        },
        GStmt::Call { name, args } => if !c.env.funs.contains_key(name) {
            fail(c, GErr::UndefinedName)
        } else {
            let f = c.env.funs[name];
            if args.len() != f.params.len() {
                fail(c, GErr::ArityMismatch)
            } else {
                Config {
                    frames: c.frames.push(
                        GFrame {
                            stmts: f.body,
                            kind: GFrameKind::CallFrame { saved: c.locals },
                        },
                    ),
                    locals: Some(bind_params(f.params, args)),
                    ..c
                }
            }
        },
        GStmt::If { name, cmp, value, then_body, else_body } => match read_int(
            c.env,
            c.locals,
            name,
        ) {
            None => fail(c, GErr::UndefinedName),
            Some(v) => {
                let chosen = if cmp.spec_holds(v, value) {
                    then_body
                } else {
                    else_body
                };
                Config {
                    frames: c.frames.push(GFrame { stmts: chosen, kind: GFrameKind::Block }),
                    ..c
                }
            },
        },
        GStmt::Loop { name, cmp, value, body } => Config {
            frames: c.frames.push(
                GFrame {
                    stmts: Seq::empty(),
                    kind: GFrameKind::LoopFrame { name, cmp, value, body },
                },
            ),
            ..c
        },
    }
}

/// `n` transitions from `c`.
pub open spec fn steps(c: Config, n: nat) -> Config
    decreases n,
{
    if n == 0 {
        c
    } else {
        spec_step(steps(c, (n - 1) as nat))
    }
}

/// A machine that has stopped stays where it stopped: any later step count
/// shows the same configuration.
pub proof fn lemma_steps_stable(c: Config, n: nat, m: nat)
    requires
        steps(c, n).terminal(),
        n <= m,
    ensures
        steps(c, m) == steps(c, n),
    decreases m,
{
    if m > n {
        lemma_steps_stable(c, n, (m - 1) as nat);
    }
}

/// Two stopped views of one run agree, whatever step counts found them.
pub proof fn lemma_terminal_agree(c: Config, n: nat, m: nat)
    requires
        steps(c, n).terminal(),
        steps(c, m).terminal(),
    ensures
        steps(c, n) == steps(c, m),
{
    if n <= m {
        lemma_steps_stable(c, n, m);
    } else {
        lemma_steps_stable(c, m, n);
    }
}

} // verus!

verus! {

/// Some number of steps from `c0` ends well, with this environment and
/// output.
pub open spec fn reaches_done(c0: Config, env: GEnv, out: Seq<Seq<char>>) -> bool {
    exists|n: nat|
        (#[trigger] steps(c0, n)).status is Done && steps(c0, n).env == env && steps(c0, n).out
            == out
}

/// Some number of steps from `c0` stops on error `e`, with this environment
/// and output.
pub open spec fn reaches_failure(c0: Config, e: GErr, env: GEnv, out: Seq<Seq<char>>) -> bool {
    exists|n: nat|
        (#[trigger] steps(c0, n)).status == GStatus::Failed(e) && steps(c0, n).env == env
            && steps(c0, n).out == out
}

} // verus!
