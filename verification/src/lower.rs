//! Lowering the typed AST into the IR. Temps are numbered in the order they are
//! created, from 0; a variable names the temp its `let` bound, found in the
//! innermost enclosing block that binds it.
//!
//! `+`, `*` and `-` are implemented by the built-ins `add`, `mul` and `sub`, so they
//! lower to calls; `/` has no built-in and stays an inline operation. `print(e);`
//! lowers to a call of the built-in `print`, whose result temp nothing reads.

use vstd::prelude::*;

use crate::ast::{BinOp, Expr, ExprV, Stmt, StmtV};
use crate::ir::{
    instr_view, instrs_view, lemma_if_view, temp_view, temps_view, Block, Instr, InstrV, Program,
    Temp,
};
use crate::resolve::{block_errors, expr_errors, in_scope, spec_resolve, Scopes};
use crate::text::str_eq;

verus! {

/// One scope of the lowering environment: each `let`'s name and the temp holding its
/// value, in binding order.
pub type Frame = Seq<(Seq<char>, nat)>;

/// The lowering environment: the open scopes, outermost first.
pub type Env = Seq<Frame>;

/// The temp the latest binding of `name` in `frame` holds.
pub open spec fn frame_find(frame: Frame, name: Seq<char>) -> Option<nat>
    decreases frame.len(),
{
    if frame.len() == 0 {
        None
    } else if frame.last().0 == name {
        Some(frame.last().1)
    } else {
        frame_find(frame.drop_last(), name)
    }
}

/// The temp `name` stands for: its binding in the innermost scope that has one.
pub open spec fn env_lookup(env: Env, name: Seq<char>) -> Option<nat>
    decreases env.len(),
{
    if env.len() == 0 {
        None
    } else {
        match frame_find(env.last(), name) {
            Some(t) => Some(t),
            None => env_lookup(env.drop_last(), name),
        }
    }
}

/// The names a frame binds.
pub open spec fn frame_names(f: Frame) -> Seq<Seq<char>> {
    f.map_values(|b: (Seq<char>, nat)| b.0)
}

/// The names each scope of `env` binds.
pub open spec fn env_names(env: Env) -> Scopes {
    env.map_values(|f: Frame| frame_names(f))
}

/// The built-in an operator calls, if any.
pub open spec fn spec_builtin_for(op: BinOp) -> Option<Seq<char>> {
    match op {
        BinOp::Add => Some("add"@),
        BinOp::Mul => Some("mul"@),
        BinOp::Sub => Some("sub"@),
        BinOp::Div => None,
    }
}

/// The instruction computing `lhs op rhs` into `dst`.
pub open spec fn op_instr(op: BinOp, dst: nat, lhs: nat, rhs: nat) -> InstrV {
    match spec_builtin_for(op) {
        Some(name) => InstrV::CallBuiltin { dst, name, args: seq![lhs, rhs] },
        None => InstrV::BinOp { dst, op, lhs, rhs },
    }
}

/// What lowering `e` under `env`, with `next` the first unused temp, appends: the
/// instructions, the temp holding `e`'s value, and the next unused temp after it.
pub open spec fn lower_spec(e: ExprV, env: Env, next: nat) -> (Seq<InstrV>, nat, nat)
    decreases e, 1int, 0int,
{
    match e {
        ExprV::Number(value) => (seq![InstrV::Const { dst: next, value }], next, next + 1),
        ExprV::Var(name) => (
            Seq::empty(),
            match env_lookup(env, name) {
                Some(t) => t,
                None => 0,
            },
            next,
        ),
        ExprV::BinOp(l, op, r) => {
            let a = lower_spec(*l, env, next);
            let b = lower_spec(*r, env, a.2);
            (a.0 + b.0 + seq![op_instr(op, b.2, a.1, b.1)], b.2, b.2 + 1)
        },
        ExprV::If { cond, then_branch, else_branch } => {
            let c = lower_spec(*cond, env, next);
            let dst = c.2;
            let t = lower_spec(*then_branch, env, dst + 1);
            let f = lower_spec(*else_branch, env, t.2);
            (
                c.0 + seq![
                    InstrV::If {
                        dst,
                        cond: c.1,
                        then_block: t.0.push(InstrV::Copy { dst, src: t.1 }),
                        else_block: f.0.push(InstrV::Copy { dst, src: f.1 }),
                    },
                ],
                dst,
                f.2,
            )
        },
        ExprV::Block { .. } => lower_block_spec(e, 0, env, Seq::empty(), next),
    }
}

/// Lowering statement `i` of `block` on, then its result: `outer` are the enclosing
/// scopes, `cur` the bindings the block's statements before `i` made.
pub open spec fn lower_block_spec(block: ExprV, i: int, outer: Env, cur: Frame, next: nat) -> (
    Seq<InstrV>,
    nat,
    nat,
)
    decreases block, 0int, (if block is Block { block->stmts.len() - i } else { 0 }),
{
    match block {
        ExprV::Block { stmts, result } => {
            let env = outer.push(cur);
            if i < 0 || i >= stmts.len() {
                lower_spec(*result, env, next)
            } else {
                match stmts[i] {
                    StmtV::Let { name, value } => {
                        let v = lower_spec(value, env, next);
                        let rest = lower_block_spec(block, i + 1, outer, cur.push((name, v.1)), v.2);
                        (v.0 + rest.0, rest.1, rest.2)
                    },
                    StmtV::Print(value) => {
                        let v = lower_spec(value, env, next);
                        let dst = v.2;
                        let rest = lower_block_spec(block, i + 1, outer, cur, dst + 1);
                        (
                            v.0 + seq![InstrV::CallBuiltin { dst, name: "print"@, args: seq![v.1] }]
                                + rest.0,
                            rest.1,
                            rest.2,
                        )
                    },
                }
            }
        },
        _ => (Seq::empty(), 0, next),
    }
}

/// How many temps lowering `e` creates.
pub open spec fn temp_count(e: ExprV) -> nat
    decreases e, 1int, 0int,
{
    match e {
        ExprV::Number(_) => 1,
        ExprV::Var(_) => 0,
        ExprV::BinOp(l, _, r) => temp_count(*l) + temp_count(*r) + 1,
        ExprV::If { cond, then_branch, else_branch } => temp_count(*cond) + temp_count(
            *then_branch,
        ) + temp_count(*else_branch) + 1,
        ExprV::Block { .. } => block_temp_count(e, 0),
    }
}

/// How many temps lowering statement `i` of `block` on, then its result, creates.
pub open spec fn block_temp_count(block: ExprV, i: int) -> nat
    decreases block, 0int, (if block is Block { block->stmts.len() - i } else { 0 }),
{
    match block {
        ExprV::Block { stmts, result } => if i < 0 || i >= stmts.len() {
            temp_count(*result)
        } else {
            match stmts[i] {
                StmtV::Let { value, .. } => temp_count(value) + block_temp_count(block, i + 1),
                StmtV::Print(value) => temp_count(value) + 1 + block_temp_count(block, i + 1),
            }
        },
        _ => 0,
    }
}

/// Every variable `e` uses is bound where it is used, under `scopes`.
pub open spec fn vars_bound(e: ExprV, scopes: Scopes) -> bool
    decreases e, 1int, 0int,
{
    match e {
        ExprV::Number(_) => true,
        ExprV::Var(name) => in_scope(scopes, name),
        ExprV::BinOp(l, _, r) => vars_bound(*l, scopes) && vars_bound(*r, scopes),
        ExprV::If { cond, then_branch, else_branch } => vars_bound(*cond, scopes) && vars_bound(
            *then_branch,
            scopes,
        ) && vars_bound(*else_branch, scopes),
        ExprV::Block { .. } => block_vars_bound(e, 0, scopes, Seq::empty()),
    }
}

/// Every variable statement `i` of `block` on, and its result, use is bound where
/// used: `outer` are the enclosing scopes, `cur` the names bound before `i`.
pub open spec fn block_vars_bound(block: ExprV, i: int, outer: Scopes, cur: Seq<Seq<char>>) -> bool
    decreases block, 0int, (if block is Block { block->stmts.len() - i } else { 0 }),
{
    match block {
        ExprV::Block { stmts, result } => {
            let scopes = outer.push(cur);
            if i < 0 || i >= stmts.len() {
                vars_bound(*result, scopes)
            } else {
                match stmts[i] {
                    StmtV::Let { name, value } => vars_bound(value, scopes) && block_vars_bound(
                        block,
                        i + 1,
                        outer,
                        cur.push(name),
                    ),
                    StmtV::Print(value) => vars_bound(value, scopes) && block_vars_bound(
                        block,
                        i + 1,
                        outer,
                        cur,
                    ),
                }
            }
        },
        _ => true,
    }
}

/// Lowering `e` creates exactly `temp_count(e)` temps, numbered on from `next`.
pub proof fn lemma_lower_count(e: ExprV, env: Env, next: nat)
    ensures
        lower_spec(e, env, next).2 == next + temp_count(e),
    decreases e, 1int, 0int,
{
    match e {
        ExprV::Number(_) => {},
        ExprV::Var(_) => {},
        ExprV::BinOp(l, _, r) => {
            lemma_lower_count(*l, env, next);
            lemma_lower_count(*r, env, lower_spec(*l, env, next).2);
        },
        ExprV::If { cond, then_branch, else_branch } => {
            lemma_lower_count(*cond, env, next);
            let c = lower_spec(*cond, env, next);
            lemma_lower_count(*then_branch, env, c.2 + 1);
            let t = lower_spec(*then_branch, env, c.2 + 1);
            lemma_lower_count(*else_branch, env, t.2);
        },
        ExprV::Block { .. } => {
            lemma_lower_block_count(e, 0, env, Seq::empty(), next);
        },
    }
}

/// The block part of [`lemma_lower_count`].
pub proof fn lemma_lower_block_count(block: ExprV, i: int, outer: Env, cur: Frame, next: nat)
    requires
        0 <= i,
    ensures
        lower_block_spec(block, i, outer, cur, next).2 == next + block_temp_count(block, i),
    decreases block, 0int, (if block is Block { block->stmts.len() - i } else { 0 }),
{
    match block {
        ExprV::Block { stmts, result } => {
            let env = outer.push(cur);
            if i >= stmts.len() {
                lemma_lower_count(*result, env, next);
            } else {
                match stmts[i] {
                    StmtV::Let { name, value } => {
                        lemma_lower_count(value, env, next);
                        let v = lower_spec(value, env, next);
                        lemma_lower_block_count(block, i + 1, outer, cur.push((name, v.1)), v.2);
                    },
                    StmtV::Print(value) => {
                        lemma_lower_count(value, env, next);
                        let v = lower_spec(value, env, next);
                        lemma_lower_block_count(block, i + 1, outer, cur, v.2 + 1);
                    },
                }
            }
        },
        _ => {},
    }
}

/// A name has a binding in a frame exactly when the frame binds it.
pub proof fn lemma_frame_find(frame: Frame, name: Seq<char>)
    ensures
        frame_find(frame, name) is Some <==> frame_names(frame).contains(
            name,
        ),
    decreases frame.len(),
{
    let names = frame_names(frame);
    if frame.len() > 0 {
        let rest = frame.drop_last();
        lemma_frame_find(rest, name);
        let rest_names = frame_names(rest);
        assert(rest_names =~= names.drop_last());
        if frame.last().0 == name {
            assert(names[names.len() - 1] == name);
        } else {
            if names.contains(name) {
                let k = choose|k: int| 0 <= k < names.len() && names[k] == name;
                assert(k < names.len() - 1);
                assert(rest_names[k] == name);
            }
            if rest_names.contains(name) {
                let k = choose|k: int| 0 <= k < rest_names.len() && rest_names[k] == name;
                assert(names[k] == name);
            }
        }
    }
}

/// A name has a binding in an environment exactly when some scope binds it.
pub proof fn lemma_env_lookup(env: Env, name: Seq<char>)
    ensures
        env_lookup(env, name) is Some <==> in_scope(env_names(env), name),
    decreases env.len(),
{
    let scopes = env_names(env);
    if env.len() > 0 {
        let rest = env.drop_last();
        lemma_env_lookup(rest, name);
        lemma_frame_find(env.last(), name);
        assert(env_names(rest) =~= scopes.drop_last());
        assert(scopes[scopes.len() - 1] == frame_names(env.last()));
        if in_scope(scopes, name) {
            let k = choose|k: int| 0 <= k < scopes.len() && #[trigger] scopes[k].contains(name);
            if k < scopes.len() - 1 {
                assert(env_names(rest)[k] == scopes[k]);
            }
        }
        if in_scope(env_names(rest), name) {
            let k = choose|k: int|
                0 <= k < env_names(rest).len() && #[trigger] env_names(rest)[k].contains(name);
            assert(scopes[k] == env_names(rest)[k]);
        }
    }
}

/// Opening a scope adds its names to the environment's.
pub proof fn lemma_env_names_push(env: Env, f: Frame)
    ensures
        env_names(env.push(f)) == env_names(env).push(frame_names(f)),
{
    assert(env_names(env.push(f)) =~= env_names(env).push(frame_names(f)));
}

/// The plain value of one scope of the lowering environment.
pub open spec fn frame_view(f: Seq<(String, Temp)>) -> Frame {
    f.map_values(|b: (String, Temp)| (b.0@, temp_view(b.1)))
}

/// The plain value of the lowering environment.
pub open spec fn env_view(env: Seq<Vec<(String, Temp)>>) -> Env {
    env.map_values(|f: Vec<(String, Temp)>| frame_view(f@))
}

/// The built-in `op` is implemented by, if any.
fn builtin_for(op: BinOp) -> (r: Option<&'static str>)
    ensures
        match spec_builtin_for(op) {
            Some(name) => r matches Some(s) && s@ == name,
            None => r is None,
        },
{
    match op {
        BinOp::Add => Some("add"),
        BinOp::Mul => Some("mul"),
        BinOp::Sub => Some("sub"),
        BinOp::Div => None,
    }
}

/// A new temp: the next unused number.
fn fresh(next: &mut u32) -> (t: Temp)
    requires
        *old(next) < u32::MAX,
    ensures
        t.0 == *old(next),
        *final(next) == *old(next) + 1,
{
    let t = Temp(*next);
    *next = *next + 1;
    t
}

fn frame_find_exec(frame: &Vec<(String, Temp)>, name: &String) -> (r: Option<Temp>)
    ensures
        match frame_find(frame_view(frame@), name@) {
            Some(t) => r matches Some(x) && temp_view(x) == t,
            None => r is None,
        },
{
    let ghost fv = frame_view(frame@);
    let mut j: usize = frame.len();
    assert(fv.take(j as int) =~= fv);
    while j > 0
        invariant
            j <= frame@.len(),
            fv == frame_view(frame@),
            frame_find(fv, name@) == frame_find(fv.take(j as int), name@),
        decreases j,
    {
        let ghost t = fv.take(j as int);
        assert(t.drop_last() =~= fv.take(j - 1));
        assert(t.last() == fv[j - 1]);
        if str_eq(frame[j - 1].0.as_str(), name.as_str()) {
            return Some(frame[j - 1].1);
        }
        j = j - 1;
    }
    assert(fv.take(0) =~= Seq::<(Seq<char>, nat)>::empty());
    None
}

/// The temp `name` stands for; `name` must be bound.
fn lookup(env: &Vec<Vec<(String, Temp)>>, name: &String) -> (t: Temp)
    requires
        env_lookup(env_view(env@), name@) is Some,
    ensures
        env_lookup(env_view(env@), name@) == Some(temp_view(t)),
{
    let ghost ev = env_view(env@);
    let mut k: usize = env.len();
    assert(ev.take(k as int) =~= ev);
    while k > 0
        invariant
            k <= env@.len(),
            ev == env_view(env@),
            env_lookup(ev, name@) == env_lookup(ev.take(k as int), name@),
        decreases k,
    {
        let ghost t = ev.take(k as int);
        assert(t.drop_last() =~= ev.take(k - 1));
        assert(t.last() == ev[k - 1]);
        match frame_find_exec(&env[k - 1], name) {
            Some(temp) => {
                return temp;
            },
            None => {},
        }
        k = k - 1;
    }
    assert(ev.take(0) =~= Seq::<Frame>::empty());
    Temp(0)
}

/// Appends `instr` to `instrs`.
fn emit(instrs: &mut Vec<Instr>, instr: Instr)
    ensures
        instrs_view(final(instrs)@) == instrs_view(old(instrs)@).push(instr@),
{
    let ghost before = instrs@;
    instrs.push(instr);
    assert(instrs_view(instrs@) =~= instrs_view(before).push(instr@));
}

fn lower_expr(
    e: &Expr,
    env: &mut Vec<Vec<(String, Temp)>>,
    instrs: &mut Vec<Instr>,
    next: &mut u32,
) -> (t: Temp)
    requires
        vars_bound(e@, env_names(env_view(old(env)@))),
        *old(next) + temp_count(e@) <= u32::MAX,
    ensures
        env_view(final(env)@) == env_view(old(env)@),
        instrs_view(final(instrs)@) == instrs_view(old(instrs)@) + lower_spec(
            e@,
            env_view(old(env)@),
            *old(next) as nat,
        ).0,
        temp_view(t) == lower_spec(e@, env_view(old(env)@), *old(next) as nat).1,
        *final(next) == lower_spec(e@, env_view(old(env)@), *old(next) as nat).2,
    decreases e,
{
    let ghost ev = env_view(env@);
    let ghost iv = instrs_view(instrs@);
    let ghost n0 = *next as nat;
    proof {
        lemma_lower_count(e@, ev, n0);
    }
    match e {
        Expr::Number(value) => {
            let dst = fresh(next);
            emit(instrs, Instr::Const { dst, value: value.clone() });
            dst
        },
        Expr::Var(name) => {
            proof {
                lemma_env_lookup(ev, name@);
            }
            assert(iv + Seq::<InstrV>::empty() =~= iv);
            lookup(env, name)
        },
        Expr::BinOp(l, op, r) => {
            proof {
                lemma_lower_count(l@, ev, n0);
            }
            let lt = lower_expr(l, env, instrs, next);
            let ghost n1 = *next as nat;
            proof {
                lemma_lower_count(r@, ev, n1);
            }
            let rt = lower_expr(r, env, instrs, next);
            let ghost a = lower_spec(l@, ev, n0);
            let ghost b = lower_spec(r@, ev, n1);
            let dst = fresh(next);
            let instr = match builtin_for(*op) {
                Some(name) => Instr::CallBuiltin { dst, name: name.to_owned(), args: vec![lt, rt] },
                None => Instr::BinOp { dst, op: *op, lhs: lt, rhs: rt },
            };
            assert(instr@ == op_instr(*op, b.2, a.1, b.1)) by {
                if let Instr::CallBuiltin { args, .. } = instr {
                    assert(temps_view(args@) =~= seq![a.1, b.1]);
                }
            }
            emit(instrs, instr);
            assert(iv + a.0 + b.0 + seq![instr@] =~= iv + (a.0 + b.0 + seq![op_instr(*op, b.2, a.1, b.1)]));
            dst
        },
        Expr::If { cond, then_branch, else_branch } => {
            proof {
                lemma_lower_count(cond@, ev, n0);
            }
            let ct = lower_expr(cond, env, instrs, next);
            let ghost c = lower_spec(cond@, ev, n0);
            let dst = fresh(next);
            proof {
                lemma_lower_count(then_branch@, ev, c.2 + 1);
            }
            let mut then_instrs: Vec<Instr> = Vec::new();
            assert(instrs_view(then_instrs@) =~= Seq::<InstrV>::empty());
            let tt = lower_expr(then_branch, env, &mut then_instrs, next);
            let ghost t = lower_spec(then_branch@, ev, c.2 + 1);
            emit(&mut then_instrs, Instr::Copy { dst, src: tt });
            proof {
                lemma_lower_count(else_branch@, ev, t.2);
            }
            let mut else_instrs: Vec<Instr> = Vec::new();
            assert(instrs_view(else_instrs@) =~= Seq::<InstrV>::empty());
            let et = lower_expr(else_branch, env, &mut else_instrs, next);
            let ghost f = lower_spec(else_branch@, ev, t.2);
            emit(&mut else_instrs, Instr::Copy { dst, src: et });
            let then_block = Block(then_instrs);
            let else_block = Block(else_instrs);
            proof {
                lemma_if_view(dst, ct, then_block, else_block);
            }
            let instr = Instr::If { dst, cond: ct, then_block, else_block };
            emit(instrs, instr);
            assert(iv + c.0 + seq![instr@] =~= iv + (c.0 + seq![instr@]));
            dst
        },
        Expr::Block { stmts, result } => {
            let ghost names0 = env_names(ev);
            let fresh_frame: Vec<(String, Temp)> = Vec::new();
            assert(frame_view(fresh_frame@) =~= Seq::<(Seq<char>, nat)>::empty());
            env.push(fresh_frame);
            assert(env_view(env@) =~= ev.push(Seq::empty()));
            proof {
                lemma_env_names_push(ev, Seq::empty());
                assert(frame_names(Seq::empty()) =~= Seq::<Seq<char>>::empty());
            }
            proof {
                lemma_lower_block_count(e@, 0, ev, Seq::empty(), n0);
            }
            let mut i: usize = 0;
            while i < stmts.len()
                invariant
                    names0 == env_names(ev),
                    *e is Block && e->stmts == *stmts,
                    e@ is Block && e@->stmts.len() == stmts@.len(),
                    forall|j: int| 0 <= j < stmts@.len() ==> e@->stmts[j] == (#[trigger] stmts@[j])@,
                    i <= stmts@.len(),
                    env@.len() == ev.len() + 1,
                    env_view(env@) == ev.push(env_view(env@).last()),
                    block_vars_bound(
                        e@,
                        i as int,
                        names0,
                        frame_names(env_view(env@).last()),
                    ),
                    *next + block_temp_count(e@, i as int) <= u32::MAX,
                    instrs_view(instrs@) + lower_block_spec(
                        e@,
                        i as int,
                        ev,
                        env_view(env@).last(),
                        *next as nat,
                    ).0 == iv + lower_spec(e@, ev, n0).0,
                    lower_block_spec(e@, i as int, ev, env_view(env@).last(), *next as nat).1
                        == lower_spec(e@, ev, n0).1,
                    lower_block_spec(e@, i as int, ev, env_view(env@).last(), *next as nat).2
                        == lower_spec(e@, ev, n0).2,
                decreases stmts@.len() - i,
            {
                let ghost cur = env_view(env@).last();
                let ghost inner = env_view(env@);
                let ghost nx = *next as nat;
                let ghost before = instrs_view(instrs@);
                proof {
                    lemma_env_names_push(ev, cur);
                }
                match &stmts[i] {
                    Stmt::Let { name, value } => {
                        proof {
                            assert(*stmts == e->stmts);
                            assert(decreases_to!(*e => e->stmts));
                            assert(decreases_to!(*stmts => stmts@));
                            assert(decreases_to!(stmts@ => stmts@[i as int]));
                            assert(decreases_to!(stmts@[i as int] => *value));
                            lemma_lower_count(value@, inner, nx);
                            lemma_lower_block_count(e@, i + 1, ev, cur, nx);
                            assert(e@->stmts[i as int] == stmts@[i as int]@);
                            assert(e@->stmts[i as int] == (StmtV::Let { name: name@, value: value@ }));
                        }
                        let vt = lower_expr(value, env, instrs, next);
                        let ghost v = lower_spec(value@, inner, nx);
                        let ghost mid = env@;
                        assert(env_view(mid) == inner);
                        let mut last = env.pop().unwrap();
                        assert(env@ == mid.drop_last() && last == mid.last());
                        assert forall|k: int| 0 <= k < ev.len() implies env_view(env@)[k] == ev[k] by {
                            assert(env_view(mid)[k] == inner[k]);
                        }
                        last.push((name.clone(), vt));
                        assert(frame_view(last@) =~= cur.push((name@, v.1)));
                        env.push(last);
                        assert(env_view(env@) =~= ev.push(cur.push((name@, v.1))));
                        assert(frame_names(cur.push((name@, v.1)))
                            =~= frame_names(cur).push(name@));
                        proof {
                            lemma_lower_block_count(e@, i + 1, ev, cur.push((name@, v.1)), v.2);
                        }
                        assert(before + v.0 + lower_block_spec(e@, i + 1, ev, cur.push((name@, v.1)), v.2).0
                            =~= before + (v.0 + lower_block_spec(e@, i + 1, ev, cur.push((name@, v.1)), v.2).0));
                    },
                    Stmt::Print(value) => {
                        proof {
                            assert(*stmts == e->stmts);
                            assert(decreases_to!(*e => e->stmts));
                            assert(decreases_to!(*stmts => stmts@));
                            assert(decreases_to!(stmts@ => stmts@[i as int]));
                            assert(decreases_to!(stmts@[i as int] => *value));
                            lemma_lower_count(value@, inner, nx);
                            assert(e@->stmts[i as int] == stmts@[i as int]@);
                            assert(e@->stmts[i as int] == StmtV::Print(value@));
                        }
                        let vt = lower_expr(value, env, instrs, next);
                        let ghost v = lower_spec(value@, inner, nx);
                        proof {
                            lemma_lower_block_count(e@, i + 1, ev, cur, v.2 + 1);
                        }
                        let dst = fresh(next);
                        let args = vec![vt];
                        assert(temps_view(args@) =~= seq![v.1]);
                        let instr = Instr::CallBuiltin { dst, name: "print".to_owned(), args };
                        emit(instrs, instr);
                        let ghost call = InstrV::CallBuiltin { dst: v.2, name: "print"@, args: seq![v.1] };
                        assert(instr@ == call);
                        assert(before + v.0 + seq![call] + lower_block_spec(e@, i + 1, ev, cur, v.2 + 1).0
                            =~= before + (v.0 + seq![call] + lower_block_spec(e@, i + 1, ev, cur, v.2 + 1).0));
                    },
                }
                i = i + 1;
            }
            let ghost cur = env_view(env@).last();
            let ghost inner = env_view(env@);
            proof {
                lemma_env_names_push(ev, cur);
            }
            proof {
                lemma_lower_count(result@, inner, *next as nat);
            }
            let rt = lower_expr(result, env, instrs, next);
            let ghost full = env@;
            assert(env_view(full) == inner);
            let _ = env.pop();
            assert(env@ =~= full.drop_last());
            assert forall|k: int| 0 <= k < ev.len() implies env_view(env@)[k] == ev[k] by {
                assert(env_view(full)[k] == inner[k]);
            }
            assert(env_view(env@) =~= ev);
            rt
        },
    }
}

/// Lowers a program that name resolution accepts into the IR: every variable must
/// be bound where it is used, and the temps it needs must be countable in a `u32`.
pub fn lower(expr: &Expr) -> (p: Program)
    requires
        vars_bound(expr@, Seq::empty()),
        temp_count(expr@) <= u32::MAX,
    ensures
        p.body@ == lower_spec(expr@, Seq::empty(), 0).0,
        temp_view(p.result) == lower_spec(expr@, Seq::empty(), 0).1,
{
    let mut env: Vec<Vec<(String, Temp)>> = Vec::new();
    let mut instrs: Vec<Instr> = Vec::new();
    let mut next: u32 = 0;
    assert(env_view(env@) =~= Seq::<Frame>::empty());
    assert(env_names(Seq::<Frame>::empty()) =~= Seq::<Seq<Seq<char>>>::empty());
    assert(instrs_view(instrs@) =~= Seq::<InstrV>::empty());
    let result = lower_expr(expr, &mut env, &mut instrs, &mut next);
    assert(instrs_view(instrs@) =~= lower_spec(expr@, Seq::empty(), 0).0);
    Program { body: Block(instrs), result }
}

/// An expression in which resolution finds no error uses only bound variables.
proof fn lemma_no_errors_bound(e: ExprV, scopes: Scopes)
    requires
        expr_errors(e, scopes).len() == 0,
    ensures
        vars_bound(e, scopes),
    decreases e, 1int, 0int,
{
    match e {
        ExprV::Number(_) => {},
        ExprV::Var(_) => {},
        ExprV::BinOp(l, _, r) => {
            lemma_no_errors_bound(*l, scopes);
            lemma_no_errors_bound(*r, scopes);
        },
        ExprV::If { cond, then_branch, else_branch } => {
            lemma_no_errors_bound(*cond, scopes);
            lemma_no_errors_bound(*then_branch, scopes);
            lemma_no_errors_bound(*else_branch, scopes);
        },
        ExprV::Block { .. } => {
            lemma_block_no_errors_bound(e, 0, scopes, Seq::empty());
        },
    }
}

/// The block part of [`lemma_no_errors_bound`].
proof fn lemma_block_no_errors_bound(block: ExprV, i: int, outer: Scopes, cur: Seq<Seq<char>>)
    requires
        0 <= i,
        block_errors(block, i, outer, cur).len() == 0,
    ensures
        block_vars_bound(block, i, outer, cur),
    decreases block, 0int, (if block is Block { block->stmts.len() - i } else { 0 }),
{
    match block {
        ExprV::Block { stmts, result } => {
            let scopes = outer.push(cur);
            if i >= stmts.len() {
                lemma_no_errors_bound(*result, scopes);
            } else {
                match stmts[i] {
                    StmtV::Let { name, value } => {
                        lemma_no_errors_bound(value, scopes);
                        if !cur.contains(name) {
                            lemma_block_no_errors_bound(block, i + 1, outer, cur.push(name));
                        }
                    },
                    StmtV::Print(value) => {
                        lemma_no_errors_bound(value, scopes);
                        lemma_block_no_errors_bound(block, i + 1, outer, cur);
                    },
                }
            }
        },
        _ => {},
    }
}

/// Lowering accepts every program that name resolution accepts: a program without
/// resolution errors binds every variable it uses.
pub proof fn lemma_resolved_programs_lower(e: ExprV)
    requires
        spec_resolve(e) is Ok,
    ensures
        vars_bound(e, Seq::empty()),
{
    lemma_no_errors_bound(e, Seq::empty());
}

/// `a + b`, or `u64::MAX` when that overflows.
fn saturating_add(a: u64, b: u64) -> (r: u64)
    ensures
        r == if a + b <= u64::MAX { (a + b) as u64 } else { u64::MAX },
{
    if a <= u64::MAX - b {
        a + b
    } else {
        u64::MAX
    }
}

/// `n` as a `u64`, or `u64::MAX` when it doesn't fit.
pub open spec fn capped(n: nat) -> u64 {
    if n <= u64::MAX {
        n as u64
    } else {
        u64::MAX
    }
}

/// How many temps lowering `e` creates, capped at `u64::MAX`: what a caller checks
/// against `u32::MAX` before lowering.
pub fn temps_needed(e: &Expr) -> (n: u64)
    ensures
        n == capped(temp_count(e@)),
    decreases e,
{
    match e {
        Expr::Number(_) => 1,
        Expr::Var(_) => 0,
        Expr::BinOp(l, _, r) => saturating_add(saturating_add(temps_needed(l), temps_needed(r)), 1),
        Expr::If { cond, then_branch, else_branch } => saturating_add(
            saturating_add(
                saturating_add(temps_needed(cond), temps_needed(then_branch)),
                temps_needed(else_branch),
            ),
            1,
        ),
        Expr::Block { stmts, result } => {
            let mut total = temps_needed(result);
            assert(total == capped(block_temp_count(e@, stmts@.len() as int)));
            let mut i: usize = stmts.len();
            while i > 0
                invariant
                    *e is Block && e->stmts == *stmts && e->result == *result,
                    e@ is Block && e@->stmts.len() == stmts@.len(),
                    forall|j: int| 0 <= j < stmts@.len() ==> e@->stmts[j] == (#[trigger] stmts@[j])@,
                    i <= stmts@.len(),
                    total == capped(block_temp_count(e@, i as int)),
                decreases i,
            {
                let k = i - 1;
                proof {
                    assert(*stmts == e->stmts);
                    assert(decreases_to!(*e => e->stmts));
                    assert(decreases_to!(*stmts => stmts@));
                    assert(decreases_to!(stmts@ => stmts@[k as int]));
                }
                assert(e@->stmts[k as int] == stmts@[k as int]@);
                match &stmts[k] {
                    Stmt::Let { value, .. } => {
                        proof {
                            assert(decreases_to!(stmts@[k as int] => *value));
                        }
                        total = saturating_add(temps_needed(value), total);
                    },
                    Stmt::Print(value) => {
                        proof {
                            assert(decreases_to!(stmts@[k as int] => *value));
                        }
                        total = saturating_add(saturating_add(temps_needed(value), 1), total);
                    },
                }
                i = k;
            }
            total
        },
    }
}

} // verus!
