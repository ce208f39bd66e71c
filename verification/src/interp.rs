//! The interpreter: the environment, the execution stack, `run` and direct
//! function invocation. The machine takes exactly the transitions of
//! [`crate::sem::spec_step`], one per loop iteration.

use vstd::prelude::*;
use std::rc::Rc;
use crate::ast::{view_block, Stmt};
use crate::err::InterpreterError;
use crate::sem::{GEnv, GFun};
use crate::text::str_eq;

verus! {

broadcast use vstd::std_specs::vec::group_vec_axioms, crate::ast::lemma_view_block;

/// The map an association list denotes: a later entry for a name replaces
/// an earlier one.
pub open spec fn amap<V: DeepView>(s: Seq<(String, V)>) -> Map<Seq<char>, V::V>
    decreases s.len(),
{
    if s.len() == 0 {
        Map::empty()
    } else {
        amap(s.drop_last()).insert(s.last().0@, s.last().1.deep_view())
    }
}

/// An entry with no later entry for the same name gives that name's value.
proof fn lemma_amap_found<V: DeepView>(s: Seq<(String, V)>, k: Seq<char>, j: int)
    requires
        0 <= j < s.len(),
        s[j].0@ == k,
        forall|m: int| j < m < s.len() ==> (#[trigger] s[m]).0@ != k,
    ensures
        amap(s).contains_key(k),
        amap(s)[k] == s[j].1.deep_view(),
    decreases s.len(),
{
    if j == s.len() - 1 {
    } else {
        assert(s[s.len() - 1].0@ != k);
        lemma_amap_found(s.drop_last(), k, j);
    }
}

/// A name no entry carries is not in the map.
proof fn lemma_amap_absent<V: DeepView>(s: Seq<(String, V)>, k: Seq<char>)
    requires
        forall|m: int| 0 <= m < s.len() ==> (#[trigger] s[m]).0@ != k,
    ensures
        !amap(s).contains_key(k),
    decreases s.len(),
{
    if s.len() > 0 {
        lemma_amap_absent(s.drop_last(), k);
    }
}

/// The value bound to `name`, reading the latest binding.
fn alist_get<'a, V: DeepView>(list: &'a Vec<(String, V)>, name: &str) -> (r: Option<&'a V>)
    ensures
        match r {
            Some(v) => amap(list@).contains_key(name@) && v.deep_view() == amap(list@)[name@],
            None => !amap(list@).contains_key(name@),
        },
{
    let mut j: usize = list.len();
    while j > 0
        invariant
            j <= list.len(),
            forall|m: int| j <= m < list.len() ==> (#[trigger] list@[m]).0@ != name@,
        decreases j,
    {
        j = j - 1;
        if str_eq(list[j].0.as_str(), name) {
            proof {
                lemma_amap_found(list@, name@, j as int);
            }
            return Some(&list[j].1);
        }
    }
    proof {
        lemma_amap_absent(list@, name@);
    }
    None
}

/// Whether `name` is bound.
fn alist_has<V: DeepView>(list: &Vec<(String, V)>, name: &str) -> (r: bool)
    ensures
        r == amap(list@).contains_key(name@),
{
    alist_get(list, name).is_some()
}

/// Binds `name`, replacing any earlier binding.
fn alist_set<V: DeepView>(list: &mut Vec<(String, V)>, name: String, value: V)
    ensures
        amap(final(list)@) == amap(old(list)@).insert(name@, value.deep_view()),
{
    let ghost gname = name@;
    let ghost gval = value.deep_view();
    list.push((name, value));
    proof {
        assert(final(list)@.drop_last() =~= old(list)@);
        assert(amap(final(list)@) =~= amap(old(list)@).insert(gname, gval));
    }
}

/// A declared function: its positional parameter names and its captured,
/// already-parsed body.
pub struct Function {
    pub parameters: Vec<String>,
    pub code: Rc<Vec<Stmt>>,
}

impl View for Function {
    type V = GFun;

    open spec fn view(&self) -> GFun {
        GFun { params: self.parameters.deep_view(), body: view_block(self.code@) }
    }
}

impl DeepView for Function {
    type V = GFun;

    open spec fn deep_view(&self) -> GFun {
        self.view()
    }
}

/// The value stores, one per kind, plus the function table. The same name
/// may be bound in several stores at once.
pub struct Env {
    pub ints: Vec<(String, i32)>,
    pub floats: Vec<(String, u32)>,
    pub strs: Vec<(String, String)>,
    pub arrays: Vec<(String, Vec<i32>)>,
    pub structs: Vec<(String, Vec<(String, i32)>)>,
    pub funs: Vec<(String, Function)>,
}

impl View for Env {
    type V = GEnv;

    open spec fn view(&self) -> GEnv {
        GEnv {
            ints: amap(self.ints@),
            floats: amap(self.floats@),
            strs: amap(self.strs@),
            arrays: amap(self.arrays@),
            structs: amap(self.structs@),
            funs: amap(self.funs@),
        }
    }
}

impl Env {
    /// The empty environment.
    pub fn new() -> (r: Env)
        ensures
            r@ == GEnv::empty(),
    {
        let r = Env {
            ints: Vec::new(),
            floats: Vec::new(),
            strs: Vec::new(),
            arrays: Vec::new(),
            structs: Vec::new(),
            funs: Vec::new(),
        };
        proof {
            assert(amap(r.ints@) =~= Map::<Seq<char>, i32>::empty());
            assert(amap(r.floats@) =~= Map::<Seq<char>, u32>::empty());
            assert(amap(r.strs@) =~= Map::<Seq<char>, Seq<char>>::empty());
            assert(amap(r.arrays@) =~= Map::<Seq<char>, Seq<i32>>::empty());
            assert(amap(r.structs@) =~= Map::<Seq<char>, Seq<(Seq<char>, i32)>>::empty());
            assert(amap(r.funs@) =~= Map::<Seq<char>, GFun>::empty());
            assert(r@ =~= GEnv::empty());
        }
        r
    }
}

/// Relies on `Rc::clone`: the new handle leads to the same shared value.
#[verifier::external_body]
pub fn share<T>(rc: &Rc<T>) -> (r: Rc<T>)
    ensures
        r == *rc,
{
    Rc::clone(rc)
}

/// Relies on `Rc`'s `Deref`: a reference to the shared value.
#[verifier::external_body]
pub fn rc_ref<T>(rc: &Rc<T>) -> (r: &T)
    ensures
        *r == **rc,
{
    &**rc
}

/// A copy of one statement: names and scalars are copied, nested blocks are
/// shared.
fn clone_stmt(s: &Stmt) -> (r: Stmt)
    ensures
        r@ == s@,
{
    match s {
        Stmt::DeclInt { name, value } => Stmt::DeclInt { name: name.clone(), value: *value },
        Stmt::DeclFloat { name, bits } => Stmt::DeclFloat { name: name.clone(), bits: *bits },
        Stmt::DeclStr { name, value } => Stmt::DeclStr {
            name: name.clone(),
            value: value.clone(),
        },
        Stmt::DeclArray { name, items } => {
            let c = items.clone();
            proof {
                assert(c@ =~= items@);
            }
            Stmt::DeclArray { name: name.clone(), items: c }
        },
        Stmt::DeclStruct { name, fields } => {
            let c = clone_fields(fields);
            Stmt::DeclStruct { name: name.clone(), fields: c }
        },
        Stmt::Print { name } => Stmt::Print { name: name.clone() },
        Stmt::IntOp { op, dst, src } => Stmt::IntOp {
            op: *op,
            dst: dst.clone(),
            src: src.clone(),
        },
        Stmt::FloatOp { op, dst, src } => Stmt::FloatOp {
            op: *op,
            dst: dst.clone(),
            src: src.clone(),
        },
        Stmt::Sqrt { name } => Stmt::Sqrt { name: name.clone() },
        Stmt::Abs { name } => Stmt::Abs { name: name.clone() },
        Stmt::Pow { dst, src } => Stmt::Pow { dst: dst.clone(), src: src.clone() },
        Stmt::DeclFun { name, params, body } => {
            let ps = params.clone();
            proof {
                assert(ps.deep_view() =~= params.deep_view());
            }
            Stmt::DeclFun { name: name.clone(), params: ps, body: share(body) }
        },
        Stmt::Call { name, args } => {
            let a = args.clone();
            proof {
                assert(a@ =~= args@);
            }
            Stmt::Call { name: name.clone(), args: a }
        },
        Stmt::If { name, cmp, value, then_body, else_body } => Stmt::If {
            name: name.clone(),
            cmp: *cmp,
            value: *value,
            then_body: share(then_body),
            else_body: share(else_body),
        },
        Stmt::Loop { name, cmp, value, body } => Stmt::Loop {
            name: name.clone(),
            cmp: *cmp,
            value: *value,
            body: share(body),
        },
    }
}

/// A copy of a struct's field list.
fn clone_fields(fields: &Vec<(String, i32)>) -> (r: Vec<(String, i32)>)
    ensures
        r.deep_view() == fields.deep_view(),
{
    let mut r: Vec<(String, i32)> = Vec::new();
    let mut i: usize = 0;
    while i < fields.len()
        invariant
            i <= fields.len(),
            r.deep_view() == fields.deep_view().take(i as int),
        decreases fields.len() - i,
    {
        let ghost pre = r.deep_view();
        r.push((fields[i].0.clone(), fields[i].1));
        proof {
            assert(r.deep_view() =~= pre.push(fields.deep_view()[i as int]));
            assert(fields.deep_view().take(i + 1) =~= pre.push(fields.deep_view()[i as int]));
        }
        i = i + 1;
    }
    proof {
        assert(fields.deep_view().take(fields.len() as int) =~= fields.deep_view());
    }
    r
}

} // verus!

verus! {

/// The ghost view of an optional local scope.
pub open spec fn locals_view(l: Option<Vec<(String, i32)>>) -> Option<Map<Seq<char>, i32>> {
    match l {
        Some(v) => Some(amap(v@)),
        None => None,
    }
}

/// Reads the integer bound to `name`, local scope first.
fn read_int_exec(env: &Env, locals: &Option<Vec<(String, i32)>>, name: &str) -> (r: Option<i32>)
    ensures
        r == crate::sem::read_int(env@, locals_view(*locals), name@),
{
    match locals {
        Some(l) => match alist_get(l, name) {
            Some(v) => Some(*v),
            None => match alist_get(&env.ints, name) {
                Some(v) => Some(*v),
                None => None,
            },
        },
        None => match alist_get(&env.ints, name) {
            Some(v) => Some(*v),
            None => None,
        },
    }
}

/// Declares `name` as an integer: local inside a call, shared outside.
fn decl_int_exec(env: &mut Env, locals: &mut Option<Vec<(String, i32)>>, name: String, v: i32)
    ensures
        (final(env)@, locals_view(*final(locals))) == crate::sem::decl_int(
            old(env)@,
            locals_view(*old(locals)),
            name@,
            v,
        ),
{
    let ghost gname = name@;
    match locals {
        Some(l) => {
            alist_set(l, name, v);
            proof {
                assert(final(env)@ =~= crate::sem::decl_int(
                    old(env)@,
                    locals_view(*old(locals)),
                    gname,
                    v,
                ).0);
            }
        },
        None => {
            alist_set(&mut env.ints, name, v);
            proof {
                assert(final(env)@ =~= crate::sem::decl_int(
                    old(env)@,
                    locals_view(*old(locals)),
                    gname,
                    v,
                ).0);
            }
        },
    }
}

/// Stores into an already-resolved integer `name`.
fn store_int_exec(env: &mut Env, locals: &mut Option<Vec<(String, i32)>>, name: String, v: i32)
    ensures
        (final(env)@, locals_view(*final(locals))) == crate::sem::store_int(
            old(env)@,
            locals_view(*old(locals)),
            name@,
            v,
        ),
{
    let ghost gname = name@;
    let in_local = match locals {
        Some(l) => alist_has(l, name.as_str()),
        None => false,
    };
    if in_local {
        match locals {
            Some(l) => {
                alist_set(l, name, v);
                proof {
                    assert(final(env)@ =~= crate::sem::store_int(
                        old(env)@,
                        locals_view(*old(locals)),
                        gname,
                        v,
                    ).0);
                }
            },
            None => {
                proof {
                    assert(false);
                }
            },
        }
    } else {
        alist_set(&mut env.ints, name, v);
        proof {
            assert(final(env)@ =~= crate::sem::store_int(
                old(env)@,
                locals_view(*old(locals)),
                gname,
                v,
            ).0);
        }
    }
}

/// One integer operation, as `add`, `sub`, `mul` and `div` perform it.
fn iop_exec(op: crate::ast::BinOp, a: i32, b: i32) -> (r: Result<i32, InterpreterError>)
    ensures
        match r {
            Ok(v) => crate::sem::eval_iop(op, a, b) == Ok::<i32, crate::sem::GErr>(v),
            Err(e) => crate::sem::eval_iop(op, a, b) == Err::<i32, crate::sem::GErr>(e@),
        },
{
    match op {
        crate::ast::BinOp::Add => fit_i32((a as i64) + (b as i64)),
        crate::ast::BinOp::Sub => fit_i32((a as i64) - (b as i64)),
        crate::ast::BinOp::Mul => fit_i32(wide_mul(a, b)),
        crate::ast::BinOp::Div => {
            if b == 0 {
                return Err(InterpreterError::DivisionByZero);
            }
            let ma: u64 = if a < 0 {
                (-(a as i64)) as u64
            } else {
                a as u64
            };
            let mb: u64 = if b < 0 {
                (-(b as i64)) as u64
            } else {
                b as u64
            };
            let q: u64 = ma / mb;
            if (a < 0) != (b < 0) {
                fit_i32(-(q as i64))
            } else {
                fit_i32(q as i64)
            }
        },
    }
}

/// The exact product of two 32-bit values, in 64 bits.
fn wide_mul(a: i32, b: i32) -> (r: i64)
    ensures
        r == (a as int) * (b as int),
{
    proof {
        assert((a as int) * (b as int) <= 2147483648 * 2147483648 && (a as int) * (b as int)
            >= -(2147483648 * 2147483648)) by (nonlinear_arith)
            requires
                -2147483648 <= a <= 2147483647,
                -2147483648 <= b <= 2147483647,
        ;
    }
    (a as i64) * (b as i64)
}

/// A 64-bit value squeezed back into `i32`, or the error for one that does
/// not fit.
fn fit_i32(v: i64) -> (r: Result<i32, InterpreterError>)
    ensures
        match r {
            Ok(x) => crate::sem::in_i32(v as int) == Ok::<i32, crate::sem::GErr>(x),
            Err(e) => crate::sem::in_i32(v as int) == Err::<i32, crate::sem::GErr>(e@),
        },
{
    if v < -2147483648i64 || v > 2147483647i64 {
        Err(InterpreterError::InvalidOperand)
    } else {
        Ok(v as i32)
    }
}

/// The truncated square root keeps its defining bounds.
proof fn lemma_isqrt_bounds(n: nat)
    ensures
        crate::sem::isqrt(n) * crate::sem::isqrt(n) <= n,
        n < (crate::sem::isqrt(n) + 1) * (crate::sem::isqrt(n) + 1),
    decreases n,
{
    let s = crate::sem::isqrt(n);
    if n == 0 {
        assert(s == 0);
        assert(s * s <= n && n < (s + 1) * (s + 1)) by (nonlinear_arith)
            requires
                s == 0,
                n == 0,
        ;
    } else {
        lemma_isqrt_bounds((n - 1) as nat);
        let p = crate::sem::isqrt((n - 1) as nat);
        if (p + 1) * (p + 1) <= n {
            assert(s == p + 1);
            assert(n - 1 < (p + 1) * (p + 1));
            assert(n == (p + 1) * (p + 1));
            assert(s * s <= n && n < (s + 1) * (s + 1)) by (nonlinear_arith)
                requires
                    s == p + 1,
                    n == (p + 1) * (p + 1),
                    p >= 0,
            ;
        } else {
            assert(s == p);
            assert(p * p <= n - 1);
            assert(s * s <= n && n < (s + 1) * (s + 1)) by (nonlinear_arith)
                requires
                    s == p,
                    p * p <= n - 1,
                    !((p + 1) * (p + 1) <= n),
                    n >= 1,
            ;
        }
    }
}

/// Two roots with the defining bounds are the same root.
proof fn lemma_isqrt_unique(n: nat, r: nat)
    requires
        r * r <= n,
        n < (r + 1) * (r + 1),
    ensures
        crate::sem::isqrt(n) == r,
{
    lemma_isqrt_bounds(n);
    let s = crate::sem::isqrt(n);
    if s < r {
        assert((s + 1) * (s + 1) <= r * r) by (nonlinear_arith)
            requires
                s + 1 <= r,
        ;
    }
    if r < s {
        assert((r + 1) * (r + 1) <= s * s) by (nonlinear_arith)
            requires
                r + 1 <= s,
        ;
    }
}

/// The truncated square root of a nonnegative integer.
fn isqrt_exec(v: i32) -> (r: i32)
    requires
        v >= 0,
    ensures
        r == crate::sem::isqrt(v as nat) as i32,
        0 <= r <= 46340,
{
    let n: u64 = v as u64;
    let mut lo: u64 = 0;
    let mut hi: u64 = 46341;
    proof {
        assert(46341u64 * 46341u64 > v) by (nonlinear_arith)
            requires
                v <= 2147483647,
        ;
    }
    while lo + 1 < hi
        invariant
            lo < hi <= 46341,
            n == v,
            lo * lo <= n,
            n < hi * hi,
        decreases hi - lo,
    {
        let mid: u64 = lo + (hi - lo) / 2;
        proof {
            assert(mid * mid <= 46341 * 46341) by (nonlinear_arith)
                requires
                    mid <= 46341,
            ;
        }
        if mid * mid <= n {
            lo = mid;
        } else {
            hi = mid;
        }
    }
    proof {
        assert(hi == lo + 1);
        lemma_isqrt_unique(v as nat, lo as nat);
    }
    lo as i32
}

/// A partial power that left the range never comes back.
proof fn lemma_pow_checked_absorbs(b: i32, k: nat, e: nat)
    requires
        k <= e,
        crate::sem::pow_checked(b, k) is None,
    ensures
        crate::sem::pow_checked(b, e) is None,
    decreases e,
{
    if e > k {
        lemma_pow_checked_absorbs(b, k, (e - 1) as nat);
    }
}

/// `a` raised to the nonnegative power `e`, stepwise.
fn pow_exec(a: i32, e: i32) -> (r: Result<i32, InterpreterError>)
    requires
        e >= 0,
    ensures
        match r {
            Ok(v) => crate::sem::pow_checked(a, e as nat) == Some(v),
            Err(err) => crate::sem::pow_checked(a, e as nat) is None && err@
                == crate::sem::GErr::InvalidOperand,
        },
{
    let mut acc: i32 = 1;
    let mut k: i32 = 0;
    while k < e
        invariant
            0 <= k <= e,
            crate::sem::pow_checked(a, k as nat) == Some(acc),
        decreases e - k,
    {
        let wide: i64 = wide_mul(acc, a);
        match fit_i32(wide) {
            Ok(v) => {
                acc = v;
            },
            Err(_) => {
                proof {
                    assert(crate::sem::pow_checked(a, (k + 1) as nat) is None);
                    lemma_pow_checked_absorbs(a, (k + 1) as nat, e as nat);
                }
                return Err(InterpreterError::InvalidOperand);
            },
        }
        k = k + 1;
    }
    Ok(acc)
}

/// The local scope a call starts with.
fn bind_params_exec(params: &Vec<String>, args: &Vec<i32>) -> (r: Vec<(String, i32)>)
    requires
        params.len() == args.len(),
    ensures
        amap(r@) == crate::sem::bind_params(params.deep_view(), args@),
{
    let mut r: Vec<(String, i32)> = Vec::new();
    let mut i: usize = 0;
    proof {
        assert(amap(r@) =~= Map::<Seq<char>, i32>::empty());
        assert(crate::sem::bind_params(
            params.deep_view().take(0),
            args@.take(0),
        ) =~= Map::<Seq<char>, i32>::empty());
    }
    while i < params.len()
        invariant
            i <= params.len(),
            params.len() == args.len(),
            amap(r@) == crate::sem::bind_params(params.deep_view().take(i as int), args@.take(i as int)),
        decreases params.len() - i,
    {
        let ghost pre = r@;
        r.push((params[i].clone(), args[i]));
        proof {
            assert(r@.drop_last() =~= pre);
            assert(params.deep_view().take(i + 1).drop_last() =~= params.deep_view().take(i as int));
            assert(args@.take(i + 1).drop_last() =~= args@.take(i as int));
            assert(params.deep_view()[i as int] == params@[i as int]@);
            assert(amap(r@) =~= crate::sem::bind_params(
                params.deep_view().take(i + 1),
                args@.take(i + 1),
            ));
        }
        i = i + 1;
    }
    proof {
        assert(params.deep_view().take(params.len() as int) =~= params.deep_view());
        assert(args@.take(args.len() as int) =~= args@);
    }
    r
}

} // verus!

verus! {

/// What a frame does when its statements run out.
pub enum FrameKind {
    /// A plain block: nothing.
    Block,
    /// A loop body: retest the condition, and rerun `body` if it holds.
    LoopF { name: String, cmp: crate::lexeme::Comparison, value: i32, body: Rc<Vec<Stmt>> },
    /// A call body: restore the caller's local scope.
    CallF { saved: Option<Vec<(String, i32)>> },
}

/// One frame of the execution stack: a shared block, the position reached
/// in it, and what to do at its end.
pub struct Frame {
    pub block: Rc<Vec<Stmt>>,
    pub pc: usize,
    pub kind: FrameKind,
}

/// The ghost form of a frame kind.
pub open spec fn kind_view(k: FrameKind) -> crate::sem::GFrameKind {
    match k {
        FrameKind::Block => crate::sem::GFrameKind::Block,
        FrameKind::LoopF { name, cmp, value, body } => crate::sem::GFrameKind::LoopFrame {
            name: name@,
            cmp,
            value,
            body: view_block(body@),
        },
        FrameKind::CallF { saved } => crate::sem::GFrameKind::CallFrame {
            saved: locals_view(saved),
        },
    }
}

/// The ghost form of a frame: the statements still to run.
pub open spec fn frame_view(f: Frame) -> crate::sem::GFrame {
    crate::sem::GFrame {
        stmts: view_block(f.block@).skip(f.pc as int),
        kind: kind_view(f.kind),
    }
}

/// The ghost form of the whole stack.
pub open spec fn frames_view(fs: Seq<Frame>) -> Seq<crate::sem::GFrame> {
    Seq::new(fs.len(), |i: int| frame_view(fs[i]))
}

/// Every frame's position lies inside its block.
pub open spec fn frames_wf(fs: Seq<Frame>) -> bool {
    forall|i: int| 0 <= i < fs.len() ==> (#[trigger] fs[i]).pc <= fs[i].block@.len()
}

/// The running configuration the machine state denotes.
pub open spec fn cfg_of(
    fs: Seq<Frame>,
    env: Env,
    locals: Option<Vec<(String, i32)>>,
    out: Vec<String>,
) -> crate::sem::Config {
    crate::sem::Config {
        frames: frames_view(fs),
        env: env@,
        locals: locals_view(locals),
        out: out.deep_view(),
        status: crate::sem::GStatus::Running,
    }
}

/// Emits what `print name` prints, or the error when nothing holds `name`.
fn do_print(
    env: &Env,
    locals: &Option<Vec<(String, i32)>>,
    name: &str,
    out: &mut Vec<String>,
) -> (r: Result<(), InterpreterError>)
    ensures
        match r {
            Ok(_) => crate::sem::print_lines(env@, locals_view(*locals), name@) matches Some(ls)
                && final(out).deep_view() == old(out).deep_view() + ls,
            Err(e) => crate::sem::print_lines(env@, locals_view(*locals), name@) is None && e@
                == crate::sem::GErr::UndefinedName && final(out)@ == old(out)@,
        },
{
    let ghost pre = out.deep_view();
    match read_int_exec(env, locals, name) {
        Some(v) => {
            out.push(crate::text::i32_string(v));
            proof {
                assert(out.deep_view() =~= pre + seq![crate::text::i32_text(v)]);
            }
            return Ok(());
        },
        None => {},
    }
    match alist_get(&env.arrays, name) {
        Some(arr) => {
            let ghost a = env@.arrays[name@];
            let ghost lines = Seq::new(a.len(), |i: int| crate::sem::array_line(name@, i, a[i]));
            proof {
                assert(a =~= arr@);
            }
            let mut k: usize = 0;
            while k < arr.len()
                invariant
                    k <= arr.len(),
                    a == arr@,
                    lines == Seq::new(
                        a.len(),
                        |i: int| crate::sem::array_line(name@, i, a[i]),
                    ),
                    out.deep_view() == pre + lines.take(k as int),
                decreases arr.len() - k,
            {
                let mut line = String::new();
                line.append(name);
                line.append("[");
                crate::text::push_usize(&mut line, k);
                line.append("] = ");
                crate::text::push_i32(&mut line, arr[k]);
                proof {
                    assert(line@ =~= crate::sem::array_line(name@, k as int, a[k as int]));
                }
                let ghost mid = out.deep_view();
                out.push(line);
                proof {
                    assert(out.deep_view() =~= mid.push(lines[k as int]));
                    assert(out.deep_view() =~= pre + lines.take(k + 1));
                }
                k = k + 1;
            }
            proof {
                assert(lines.take(arr.len() as int) =~= lines);
            }
            return Ok(());
        },
        None => {},
    }
    match alist_get(&env.floats, name) {
        Some(bits) => {
            let b = *bits;
            out.push(crate::floats::format_f32(b));
            proof {
                assert(out.deep_view() =~= pre + seq![crate::floats::f32_text(b)]);
            }
            return Ok(());
        },
        None => {},
    }
    match alist_get(&env.structs, name) {
        Some(fields) => {
            let ghost fs = env@.structs[name@];
            let ghost lines = Seq::new(
                fs.len(),
                |i: int| crate::sem::struct_line(name@, fs[i].0, fs[i].1),
            );
            proof {
                assert(fs =~= fields.deep_view());
            }
            let mut k: usize = 0;
            while k < fields.len()
                invariant
                    k <= fields.len(),
                    fs == fields.deep_view(),
                    lines == Seq::new(
                        fs.len(),
                        |i: int| crate::sem::struct_line(name@, fs[i].0, fs[i].1),
                    ),
                    out.deep_view() == pre + lines.take(k as int),
                decreases fields.len() - k,
            {
                let mut line = String::new();
                line.append(name);
                line.append(".");
                line.append(fields[k].0.as_str());
                line.append(" = ");
                crate::text::push_i32(&mut line, fields[k].1);
                proof {
                    assert(fields.deep_view()[k as int] == (fields@[k as int].0@, fields@[k as int].1));
                    assert(line@ =~= crate::sem::struct_line(name@, fs[k as int].0, fs[k as int].1));
                }
                let ghost mid = out.deep_view();
                out.push(line);
                proof {
                    assert(out.deep_view() =~= mid.push(lines[k as int]));
                    assert(out.deep_view() =~= pre + lines.take(k + 1));
                }
                k = k + 1;
            }
            proof {
                assert(lines.take(fields.len() as int) =~= lines);
            }
            return Ok(());
        },
        None => {},
    }
    match alist_get(&env.strs, name) {
        Some(s) => {
            let ghost sv = env@.strs[name@];
            let line = s.clone();
            proof {
                assert(line@ == sv);
            }
            out.push(line);
            proof {
                assert(out.deep_view() =~= pre + seq![sv]);
            }
            return Ok(());
        },
        None => {},
    }
    Err(InterpreterError::UndefinedName)
}

} // verus!

verus! {

/// Each line followed by a newline, as one text.
pub open spec fn lines_text(ls: Seq<Seq<char>>) -> Seq<char>
    decreases ls.len(),
{
    if ls.len() == 0 {
        Seq::empty()
    } else {
        lines_text(ls.drop_last()) + ls.last() + seq!['\n']
    }
}

/// One interpreter instance: its environment and everything it has printed.
/// Instances are fully independent; there is no shared or ambient state.
pub struct Interpreter {
    env: Env,
    output: Vec<String>,
}

impl Interpreter {
    /// The environment this interpreter holds.
    pub closed spec fn env_model(&self) -> GEnv {
        self.env@
    }

    /// The lines printed so far.
    pub closed spec fn out_model(&self) -> Seq<Seq<char>> {
        self.output.deep_view()
    }

    /// A fresh interpreter: empty environment, empty output.
    pub fn new() -> (r: Interpreter)
        ensures
            r.env_model() == GEnv::empty(),
            r.out_model() == Seq::<Seq<char>>::empty(),
    {
        let r = Interpreter { env: Env::new(), output: Vec::new() };
        proof {
            assert(r.output.deep_view() =~= Seq::<Seq<char>>::empty());
        }
        r
    }

    /// The lines printed so far, in order.
    pub fn output_lines(&self) -> (r: &Vec<String>)
        ensures
            r.deep_view() == self.out_model(),
    {
        &self.output
    }

    /// Everything printed so far as one text, each line closed by a newline.
    pub fn output_text(&self) -> (r: String)
        ensures
            r@ == lines_text(self.out_model()),
    {
        let mut r = String::new();
        let mut k: usize = 0;
        proof {
            assert(self.output.deep_view().take(0) =~= Seq::<Seq<char>>::empty());
            assert(r@ =~= lines_text(self.output.deep_view().take(0)));
        }
        while k < self.output.len()
            invariant
                k <= self.output.len(),
                r@ == lines_text(self.output.deep_view().take(k as int)),
            decreases self.output.len() - k,
        {
            r.append(self.output[k].as_str());
            crate::text::push_char(&mut r, '\n');
            proof {
                let d = self.output.deep_view();
                assert(d[k as int] == self.output@[k as int]@);
                assert(d.take(k + 1).drop_last() =~= d.take(k as int));
                assert(d.take(k + 1).last() == d[k as int]);
                assert(r@ =~= lines_text(d.take(k + 1)));
            }
            k = k + 1;
        }
        proof {
            assert(self.output.deep_view().take(self.output.len() as int) =~= self.output.deep_view());
        }
        r
    }

}

} // verus!

verus! {

/// Runs one statement against the machine state, whose top frame has
/// already moved past it: exactly [`crate::sem::step_stmt`].
#[verifier::rlimit(100)]
fn exec_stmt(
    env: &mut Env,
    locals: &mut Option<Vec<(String, i32)>>,
    out: &mut Vec<String>,
    frames: &mut Vec<Frame>,
    stmt: Stmt,
) -> (r: Result<(), InterpreterError>)
    ensures
        match r {
            Ok(_) => crate::sem::step_stmt(
                cfg_of(old(frames)@, *old(env), *old(locals), *old(out)),
                stmt@,
            ) == cfg_of(final(frames)@, *final(env), *final(locals), *final(out)) && (
            frames_wf(old(frames)@) ==> frames_wf(final(frames)@)),
            Err(e) => {
                &&& crate::sem::step_stmt(
                    cfg_of(old(frames)@, *old(env), *old(locals), *old(out)),
                    stmt@,
                ) == crate::sem::fail(
                    cfg_of(old(frames)@, *old(env), *old(locals), *old(out)),
                    e@,
                )
                &&& final(frames)@ == old(frames)@
                &&& *final(env) == *old(env)
                &&& *final(locals) == *old(locals)
                &&& final(out)@ == old(out)@
            },
        },
{
    let ghost adv = cfg_of(frames@, *env, *locals, *out);
    let ghost gstmt = stmt@;
    match stmt {
        Stmt::DeclInt { name, value } => {
            decl_int_exec(env, locals, name, value);
            proof {
                assert(crate::sem::step_stmt(adv, gstmt) =~~= cfg_of(
                    frames@,
                    *env,
                    *locals,
                    *out,
                ));
            }
            Ok(())
        },
        Stmt::DeclFloat { name, bits } => {
            alist_set(&mut env.floats, name, bits);
            proof {
                assert(crate::sem::step_stmt(adv, gstmt) =~~= cfg_of(
                    frames@,
                    *env,
                    *locals,
                    *out,
                ));
            }
            Ok(())
        },
        Stmt::DeclStr { name, value } => {
            alist_set(&mut env.strs, name, value);
            proof {
                assert(crate::sem::step_stmt(adv, gstmt) =~~= cfg_of(
                    frames@,
                    *env,
                    *locals,
                    *out,
                ));
            }
            Ok(())
        },
        Stmt::DeclArray { name, items } => {
            alist_set(&mut env.arrays, name, items);
            proof {
                assert(crate::sem::step_stmt(adv, gstmt) =~~= cfg_of(
                    frames@,
                    *env,
                    *locals,
                    *out,
                ));
            }
            Ok(())
        },
        Stmt::DeclStruct { name, fields } => {
            alist_set(&mut env.structs, name, fields);
            proof {
                assert(crate::sem::step_stmt(adv, gstmt) =~~= cfg_of(
                    frames@,
                    *env,
                    *locals,
                    *out,
                ));
            }
            Ok(())
        },
        Stmt::DeclFun { name, params, body } => {
            alist_set(&mut env.funs, name, Function { parameters: params, code: body });
            proof {
                assert(crate::sem::step_stmt(adv, gstmt) =~~= cfg_of(
                    frames@,
                    *env,
                    *locals,
                    *out,
                ));
            }
            Ok(())
        },
        Stmt::Print { name } => {
            match do_print(env, locals, name.as_str(), out) {
                Ok(_) => {
                    proof {
                        assert(crate::sem::step_stmt(adv, gstmt) =~~= cfg_of(
                            frames@,
                            *env,
                            *locals,
                            *out,
                        ));
                    }
                    Ok(())
                },
                Err(e) => {
                    proof {
                        assert(crate::sem::step_stmt(adv, gstmt) =~~= crate::sem::fail(adv, e@));
                    }
                    Err(e)
                },
            }
        },
        Stmt::IntOp { op, dst, src } => {
            let a = match read_int_exec(env, locals, dst.as_str()) {
                Some(a) => a,
                None => {
                    return Err(InterpreterError::UndefinedName);
                },
            };
            let b = match read_int_exec(env, locals, src.as_str()) {
                Some(b) => b,
                None => {
                    return Err(InterpreterError::UndefinedName);
                },
            };
            match iop_exec(op, a, b) {
                Ok(v) => {
                    store_int_exec(env, locals, dst, v);
                    proof {
                        assert(crate::sem::step_stmt(adv, gstmt) =~~= cfg_of(
                            frames@,
                            *env,
                            *locals,
                            *out,
                        ));
                    }
                    Ok(())
                },
                Err(e) => {
                    proof {
                        assert(crate::sem::step_stmt(adv, gstmt) =~~= crate::sem::fail(adv, e@));
                    }
                    Err(e)
                },
            }
        },
        Stmt::FloatOp { op, dst, src } => {
            let a = match alist_get(&env.floats, dst.as_str()) {
                Some(a) => *a,
                None => {
                    return Err(InterpreterError::UndefinedName);
                },
            };
            let b = match alist_get(&env.floats, src.as_str()) {
                Some(b) => *b,
                None => {
                    return Err(InterpreterError::UndefinedName);
                },
            };
            let v = match op {
                crate::ast::BinOp::Add => crate::floats::add_f32(a, b),
                crate::ast::BinOp::Sub => crate::floats::sub_f32(a, b),
                crate::ast::BinOp::Mul => crate::floats::mul_f32(a, b),
                crate::ast::BinOp::Div => crate::floats::div_f32(a, b),
            };
            alist_set(&mut env.floats, dst, v);
            proof {
                assert(crate::sem::step_stmt(adv, gstmt) =~~= cfg_of(
                    frames@,
                    *env,
                    *locals,
                    *out,
                ));
            }
            Ok(())
        },
        Stmt::Sqrt { name } => {
            let v = match read_int_exec(env, locals, name.as_str()) {
                Some(v) => v,
                None => {
                    return Err(InterpreterError::UndefinedName);
                },
            };
            if v < 0 {
                return Err(InterpreterError::InvalidOperand);
            }
            let rt = isqrt_exec(v);
            store_int_exec(env, locals, name, rt);
            proof {
                assert(crate::sem::step_stmt(adv, gstmt) =~~= cfg_of(
                    frames@,
                    *env,
                    *locals,
                    *out,
                ));
            }
            Ok(())
        },
        Stmt::Abs { name } => {
            let v = match read_int_exec(env, locals, name.as_str()) {
                Some(v) => v,
                None => {
                    return Err(InterpreterError::UndefinedName);
                },
            };
            if v == i32::MIN {
                return Err(InterpreterError::InvalidOperand);
            }
            let a: i32 = if v < 0 {
                -v
            } else {
                v
            };
            store_int_exec(env, locals, name, a);
            proof {
                assert(crate::sem::step_stmt(adv, gstmt) =~~= cfg_of(
                    frames@,
                    *env,
                    *locals,
                    *out,
                ));
            }
            Ok(())
        },
        Stmt::Pow { dst, src } => {
            let a = match read_int_exec(env, locals, dst.as_str()) {
                Some(a) => a,
                None => {
                    return Err(InterpreterError::UndefinedName);
                },
            };
            let e = match read_int_exec(env, locals, src.as_str()) {
                Some(e) => e,
                None => {
                    return Err(InterpreterError::UndefinedName);
                },
            };
            if e < 0 {
                return Err(InterpreterError::InvalidOperand);
            }
            match pow_exec(a, e) {
                Ok(v) => {
                    store_int_exec(env, locals, dst, v);
                    proof {
                        assert(crate::sem::step_stmt(adv, gstmt) =~~= cfg_of(
                            frames@,
                            *env,
                            *locals,
                            *out,
                        ));
                    }
                    Ok(())
                },
                Err(e2) => Err(e2),
            }
        },
        Stmt::Call { name, args } => {
            let (new_locals, body) = match alist_get(&env.funs, name.as_str()) {
                Some(f) => {
                    if args.len() != f.parameters.len() {
                        return Err(InterpreterError::ArityMismatch);
                    }
                    (bind_params_exec(&f.parameters, &args), share(&f.code))
                },
                None => {
                    return Err(InterpreterError::UndefinedName);
                },
            };
            let ghost gbody = body@;
            let ghost gsaved = locals_view(*locals);
            let saved = locals.take();
            *locals = Some(new_locals);
            frames.push(Frame { block: body, pc: 0, kind: FrameKind::CallF { saved } });
            proof {
                assert(frames_view(frames@) =~~= adv.frames.push(
                    crate::sem::GFrame {
                        stmts: view_block(gbody),
                        kind: crate::sem::GFrameKind::CallFrame { saved: gsaved },
                    },
                ));
                assert(crate::sem::step_stmt(adv, gstmt) =~~= cfg_of(
                    frames@,
                    *env,
                    *locals,
                    *out,
                ));
            }
            Ok(())
        },
        Stmt::If { name, cmp, value, then_body, else_body } => {
            let v = match read_int_exec(env, locals, name.as_str()) {
                Some(v) => v,
                None => {
                    return Err(InterpreterError::UndefinedName);
                },
            };
            let chosen = if cmp.holds(v, value) {
                then_body
            } else {
                else_body
            };
            let ghost gchosen = chosen@;
            frames.push(Frame { block: chosen, pc: 0, kind: FrameKind::Block });
            proof {
                assert(frames_view(frames@) =~~= adv.frames.push(
                    crate::sem::GFrame {
                        stmts: view_block(gchosen),
                        kind: crate::sem::GFrameKind::Block,
                    },
                ));
                assert(crate::sem::step_stmt(adv, gstmt) =~~= cfg_of(
                    frames@,
                    *env,
                    *locals,
                    *out,
                ));
            }
            Ok(())
        },
        Stmt::Loop { name, cmp, value, body } => {
            let b2 = share(&body);
            let bl = rc_ref(&b2).len();
            let ghost gname = name@;
            let ghost gbody = body@;
            frames.push(
                Frame { block: b2, pc: bl, kind: FrameKind::LoopF { name, cmp, value, body } },
            );
            proof {
                assert(view_block(gbody).skip(gbody.len() as int) =~= Seq::<
                    crate::ast::GStmt,
                >::empty());
                assert(frames_view(frames@) =~~= adv.frames.push(
                    crate::sem::GFrame {
                        stmts: Seq::empty(),
                        kind: crate::sem::GFrameKind::LoopFrame {
                            name: gname,
                            cmp,
                            value,
                            body: view_block(gbody),
                        },
                    },
                ));
                assert(crate::sem::step_stmt(adv, gstmt) =~~= cfg_of(
                    frames@,
                    *env,
                    *locals,
                    *out,
                ));
            }
            Ok(())
        },
    }
}

/// Unwinds a frame whose statements have run out: exactly
/// [`crate::sem::step_frame_done`] on a stack whose top frame is `fr`.
#[verifier::rlimit(100)]
fn finish_frame(
    env: &Env,
    locals: &mut Option<Vec<(String, i32)>>,
    frames: &mut Vec<Frame>,
    fr: Frame,
    gout: Ghost<Seq<Seq<char>>>,
) -> (r: Result<(), InterpreterError>)
    requires
        frame_view(fr).stmts.len() == 0,
        fr.pc <= fr.block@.len(),
        frames_wf(old(frames)@),
    ensures
        frames_wf(final(frames)@),
        ({
            let pre = crate::sem::Config {
                frames: frames_view(old(frames)@.push(fr)),
                env: env@,
                locals: locals_view(*old(locals)),
                out: gout@,
                status: crate::sem::GStatus::Running,
            };
            match r {
                Ok(_) => crate::sem::step_frame_done(pre, frame_view(fr))
                    == crate::sem::Config {
                    frames: frames_view(final(frames)@),
                    env: env@,
                    locals: locals_view(*final(locals)),
                    out: gout@,
                    status: crate::sem::GStatus::Running,
                },
                Err(e) => {
                    &&& crate::sem::step_frame_done(pre, frame_view(fr)) == crate::sem::fail(
                        pre,
                        e@,
                    )
                    &&& final(frames)@ == old(frames)@
                    &&& *final(locals) == *old(locals)
                },
            }
        }),
{
    let ghost pre = crate::sem::Config {
        frames: frames_view(frames@.push(fr)),
        env: env@,
        locals: locals_view(*locals),
        out: gout@,
        status: crate::sem::GStatus::Running,
    };
    let ghost gfr = frame_view(fr);
    proof {
        assert(pre.frames.last() == gfr);
        assert(pre.frames.drop_last() =~~= frames_view(frames@));
    }
    match fr.kind {
        FrameKind::Block => {
            proof {
                assert(crate::sem::step_frame_done(pre, gfr) =~~= crate::sem::Config {
                    frames: frames_view(frames@),
                    env: env@,
                    locals: locals_view(*locals),
                    out: gout@,
                    status: crate::sem::GStatus::Running,
                });
            }
            Ok(())
        },
        FrameKind::LoopF { name, cmp, value, body } => {
            match read_int_exec(env, locals, name.as_str()) {
                None => {
                    proof {
                        assert(crate::sem::step_frame_done(pre, gfr) =~~= crate::sem::fail(
                            pre,
                            crate::sem::GErr::UndefinedName,
                        ));
                    }
                    Err(InterpreterError::UndefinedName)
                },
                Some(v) => {
                    if cmp.holds(v, value) {
                        let b2 = share(&body);
                        let ghost gbody = body@;
                        frames.push(
                            Frame {
                                block: b2,
                                pc: 0,
                                kind: FrameKind::LoopF { name, cmp, value, body },
                            },
                        );
                        proof {
                            assert(forall|i: int|
                                0 <= i < frames@.len() - 1 ==> (#[trigger] frames@[i])
                                    == old(frames)@[i]);
                            assert(frames_wf(frames@));
                            assert(frames_view(frames@) =~~= pre.frames.update(
                                pre.frames.len() - 1,
                                crate::sem::GFrame { stmts: view_block(gbody), kind: gfr.kind },
                            ));
                            assert(crate::sem::step_frame_done(pre, gfr) =~~= crate::sem::Config {
                                frames: frames_view(frames@),
                                env: env@,
                                locals: locals_view(*locals),
                                out: gout@,
                                status: crate::sem::GStatus::Running,
                            });
                        }
                        Ok(())
                    } else {
                        proof {
                            assert(crate::sem::step_frame_done(pre, gfr) =~~= crate::sem::Config {
                                frames: frames_view(frames@),
                                env: env@,
                                locals: locals_view(*locals),
                                out: gout@,
                                status: crate::sem::GStatus::Running,
                            });
                        }
                        Ok(())
                    }
                },
            }
        },
        FrameKind::CallF { saved } => {
            *locals = saved;
            proof {
                assert(crate::sem::step_frame_done(pre, gfr) =~~= crate::sem::Config {
                    frames: frames_view(frames@),
                    env: env@,
                    locals: locals_view(*locals),
                    out: gout@,
                    status: crate::sem::GStatus::Running,
                });
            }
            Ok(())
        },
    }
}

} // verus!

verus! {

impl Interpreter {
    /// Runs a parsed program: the machine of [`crate::sem::spec_step`], one
    /// transition per loop iteration.
    #[verifier::rlimit(100)]
    fn run_machine(&mut self, prog: Vec<Stmt>) -> (r: Result<(), InterpreterError>)
        ensures
            ({
                let c0 = crate::sem::Config::init(
                    view_block(prog@),
                    old(self).env_model(),
                    old(self).out_model(),
                );
                match r {
                    Ok(_) => crate::sem::reaches_done(
                        c0,
                        final(self).env_model(),
                        final(self).out_model(),
                    ),
                    Err(e) => crate::sem::reaches_failure(
                        c0,
                        e@,
                        final(self).env_model(),
                        final(self).out_model(),
                    ) || (e@ == crate::sem::GErr::StepLimit && !crate::sem::steps(
                        c0,
                        u64::MAX as nat,
                    ).terminal()),
                }
            }),
    {
        let ghost c0 = crate::sem::Config::init(
            view_block(prog@),
            self.env@,
            self.output.deep_view(),
        );
        let mut frames: Vec<Frame> = Vec::new();
        frames.push(Frame { block: Rc::new(prog), pc: 0, kind: FrameKind::Block });
        let mut locals: Option<Vec<(String, i32)>> = None;
        let mut fuel: u64 = u64::MAX;
        let ghost mut n: nat = 0;
        proof {
            assert(frames_view(frames@) =~~= c0.frames);
            assert(crate::sem::steps(c0, n) =~~= cfg_of(frames@, self.env, locals, self.output));
        }
        while frames.len() != 0
            invariant
                frames_wf(frames@),
                c0 == crate::sem::Config::init(
                    view_block(prog@),
                    old(self).env_model(),
                    old(self).out_model(),
                ),
                crate::sem::steps(c0, n) == cfg_of(frames@, self.env, locals, self.output),
                n + fuel == u64::MAX,
            decreases fuel,
        {
            let ghost c = crate::sem::steps(c0, n);
            if fuel == 0 {
                return Err(InterpreterError::StepLimit);
            }
            fuel = fuel - 1;
            let fr = match frames.pop() {
                Some(fr) => fr,
                None => {
                    proof {
                        assert(false);
                    }
                    return Err(InterpreterError::StepLimit);
                },
            };
            proof {
                assert(c.frames.last() == frame_view(fr));
                assert(c.frames.drop_last() =~~= frames_view(frames@));
                assert(fr.pc <= fr.block@.len());
            }
            let pc = fr.pc;
            if pc >= rc_ref(&fr.block).len() {
                proof {
                    assert(frame_view(fr).stmts =~~= Seq::<crate::ast::GStmt>::empty());
                    assert(crate::sem::spec_step(c) == crate::sem::step_frame_done(
                        c,
                        frame_view(fr),
                    ));
                }
                let ghost pre_frames = frames@;
                match finish_frame(&self.env, &mut locals, &mut frames, fr, Ghost(c.out)) {
                    Ok(_) => {
                        proof {
                            assert(frames_view(pre_frames.push(fr)) =~~= c.frames);
                            assert(crate::sem::spec_step(c) =~~= cfg_of(
                                frames@,
                                self.env,
                                locals,
                                self.output,
                            ));
                            n = n + 1;
                        }
                    },
                    Err(e) => {
                        proof {
                            assert(frames_view(pre_frames.push(fr)) =~~= c.frames);
                            assert(crate::sem::steps(c0, n + 1) == crate::sem::spec_step(c));
                            assert(crate::sem::spec_step(c).status == crate::sem::GStatus::Failed(
                                e@,
                            ));
                            assert(crate::sem::spec_step(c).env == self.env@);
                            assert(crate::sem::spec_step(c).out == self.output.deep_view());
                        }
                        return Err(e);
                    },
                }
                continue;
            }
            // the frame still holds statements: run the one at `pc`
            let stmt = clone_stmt(&rc_ref(&fr.block)[pc]);
            let ghost gstmt = stmt@;
            let ghost gfr = frame_view(fr);
            frames.push(Frame { block: fr.block, pc: pc + 1, kind: fr.kind });
            proof {
                assert(gfr.stmts[0] == gstmt);
                assert(gfr.stmts.drop_first() =~= view_block(frames@.last().block@).skip(
                    pc + 1,
                ));
                assert(frames_view(frames@) =~~= c.frames.update(
                    c.frames.len() - 1,
                    crate::sem::GFrame { stmts: gfr.stmts.drop_first(), kind: gfr.kind },
                ));
                assert(crate::sem::spec_step(c) == crate::sem::step_stmt(
                    cfg_of(frames@, self.env, locals, self.output),
                    gstmt,
                ));
            }
            let ghost adv = cfg_of(frames@, self.env, locals, self.output);
            match exec_stmt(&mut self.env, &mut locals, &mut self.output, &mut frames, stmt) {
                Ok(_) => {
                    proof {
                        assert(crate::sem::spec_step(c) == cfg_of(
                            frames@,
                            self.env,
                            locals,
                            self.output,
                        ));
                        n = n + 1;
                    }
                },
                Err(e) => {
                    proof {
                        assert(crate::sem::steps(c0, n + 1) == crate::sem::spec_step(c));
                        assert(crate::sem::spec_step(c) == crate::sem::fail(adv, e@));
                        assert(crate::sem::spec_step(c).status == crate::sem::GStatus::Failed(e@));
                        assert(crate::sem::spec_step(c).env == self.env@);
                        assert(crate::sem::spec_step(c).out == self.output.deep_view());
                    }
                    return Err(e);
                },
            }
        }
        proof {
            let c = crate::sem::steps(c0, n);
            assert(frames_view(frames@).len() == 0);
            assert(crate::sem::steps(c0, n + 1) == crate::sem::spec_step(c));
            assert(crate::sem::spec_step(c).status is Done);
            assert(crate::sem::spec_step(c).env == self.env@);
            assert(crate::sem::spec_step(c).out == self.output.deep_view());
        }
        Ok(())
    }

    /// Executes a whole program: lex, parse, then run. A parse error leaves
    /// the environment and the output untouched; a runtime error keeps all
    /// output and mutations made before it.
    pub fn run(&mut self, source: &str) -> (r: Result<(), InterpreterError>)
        ensures
            ({
                let toks = crate::lexer::tokens_of(source@);
                match crate::parse::spec_parse_program(toks) {
                    Err(pe) => {
                        &&& r matches Err(e) && e@ == pe
                        &&& final(self).env_model() == old(self).env_model()
                        &&& final(self).out_model() == old(self).out_model()
                    },
                    Ok(prog) => {
                        let c0 = crate::sem::Config::init(
                            prog,
                            old(self).env_model(),
                            old(self).out_model(),
                        );
                        match r {
                            Ok(_) => crate::sem::reaches_done(
                                c0,
                                final(self).env_model(),
                                final(self).out_model(),
                            ),
                            Err(e) => crate::sem::reaches_failure(
                                c0,
                                e@,
                                final(self).env_model(),
                                final(self).out_model(),
                            ) || (e@ == crate::sem::GErr::StepLimit && !crate::sem::steps(
                                c0,
                                u64::MAX as nat,
                            ).terminal()),
                        }
                    },
                }
            }),
    {
        let toks = crate::lexer::tokenize(source);
        match crate::parse::parse_program(&toks) {
            Err(e) => Err(e),
            Ok(prog) => self.run_machine(prog),
        }
    }

    /// Invokes a declared function directly, with the semantics of a source
    /// `call`: positional integer arguments bound into a fresh local scope.
    pub fn call_function(&mut self, name: &str, parameters: &[i32]) -> (r: Result<
        (),
        InterpreterError,
    >)
        ensures
            ({
                let c0 = crate::sem::Config::init(
                    seq![crate::ast::GStmt::Call { name: name@, args: parameters@ }],
                    old(self).env_model(),
                    old(self).out_model(),
                );
                match r {
                    Ok(_) => crate::sem::reaches_done(
                        c0,
                        final(self).env_model(),
                        final(self).out_model(),
                    ),
                    Err(e) => crate::sem::reaches_failure(
                        c0,
                        e@,
                        final(self).env_model(),
                        final(self).out_model(),
                    ) || (e@ == crate::sem::GErr::StepLimit && !crate::sem::steps(
                        c0,
                        u64::MAX as nat,
                    ).terminal()),
                }
            }),
    {
        let mut args: Vec<i32> = Vec::new();
        let mut i: usize = 0;
        while i < parameters.len()
            invariant
                i <= parameters.len(),
                args@ == parameters@.take(i as int),
            decreases parameters.len() - i,
        {
            args.push(parameters[i]);
            proof {
                assert(args@ =~= parameters@.take(i + 1));
            }
            i = i + 1;
        }
        proof {
            assert(parameters@.take(parameters@.len() as int) =~= parameters@);
        }
        let stmt = Stmt::Call { name: name.to_owned(), args };
        let mut prog: Vec<Stmt> = Vec::new();
        prog.push(stmt);
        proof {
            assert(view_block(prog@) =~= seq![
                crate::ast::GStmt::Call { name: name@, args: parameters@ },
            ]);
        }
        self.run_machine(prog)
    }
}

} // verus!
