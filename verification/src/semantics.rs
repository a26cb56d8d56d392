//! What programs mean, and that lowering keeps it. The meaning is given for any kind
//! of value: how a literal reads (`lit`), how an operator computes (`apply`), when a
//! condition holds (`truthy`), and what a built-in call gives (`call`). An
//! expression's value is computed from its sub-expressions; an `if` takes the branch
//! its condition selects; a block's value is its result's, with each `let` binding
//! its name for the rest of the block; `print` is run for its effect and its value
//! is dropped. Running the lowered IR computes the same value, provided the
//! built-ins that implement `+`, `*` and `-` compute what those operators do.

use vstd::prelude::*;

use crate::ast::{BinOp, ExprV, StmtV};
use crate::ir::InstrV;
use crate::lower::{
    block_vars_bound, env_lookup, env_names, frame_find, frame_names, lemma_env_lookup,
    lemma_env_names_push, lower_block_spec, lower_spec, op_instr, spec_builtin_for, vars_bound, Env,
    Frame,
};

verus! {

/// The value the latest binding of `name` in `frame` holds.
pub open spec fn frame_value<V>(frame: Seq<(Seq<char>, V)>, name: Seq<char>) -> Option<V>
    decreases frame.len(),
{
    if frame.len() == 0 {
        None
    } else if frame.last().0 == name {
        Some(frame.last().1)
    } else {
        frame_value(frame.drop_last(), name)
    }
}

/// The value `name` has: its binding in the innermost scope that has one.
pub open spec fn env_value<V>(env: Seq<Seq<(Seq<char>, V)>>, name: Seq<char>) -> Option<V>
    decreases env.len(),
{
    if env.len() == 0 {
        None
    } else {
        match frame_value(env.last(), name) {
            Some(v) => Some(v),
            None => env_value(env.drop_last(), name),
        }
    }
}

/// The value of `e` where `env` gives each bound name's value.
pub open spec fn eval<V>(
    e: ExprV,
    env: Seq<Seq<(Seq<char>, V)>>,
    lit: spec_fn(Seq<char>) -> V,
    apply: spec_fn(BinOp, V, V) -> V,
    truthy: spec_fn(V) -> bool,
) -> V
    decreases e, 1int, 0int,
{
    match e {
        ExprV::Number(s) => lit(s),
        ExprV::Var(name) => match env_value(env, name) {
            Some(v) => v,
            None => lit(Seq::empty()),
        },
        ExprV::BinOp(l, op, r) => apply(
            op,
            eval(*l, env, lit, apply, truthy),
            eval(*r, env, lit, apply, truthy),
        ),
        ExprV::If { cond, then_branch, else_branch } => if truthy(
            eval(*cond, env, lit, apply, truthy),
        ) {
            eval(*then_branch, env, lit, apply, truthy)
        } else {
            eval(*else_branch, env, lit, apply, truthy)
        },
        ExprV::Block { .. } => eval_block(e, 0, env, Seq::empty(), lit, apply, truthy),
    }
}

/// The value of `block` from statement `i` on: `outer` are the enclosing scopes'
/// bindings, `cur` those the block's statements before `i` made.
pub open spec fn eval_block<V>(
    block: ExprV,
    i: int,
    outer: Seq<Seq<(Seq<char>, V)>>,
    cur: Seq<(Seq<char>, V)>,
    lit: spec_fn(Seq<char>) -> V,
    apply: spec_fn(BinOp, V, V) -> V,
    truthy: spec_fn(V) -> bool,
) -> V
    decreases block, 0int, (if block is Block { block->stmts.len() - i } else { 0 }),
{
    match block {
        ExprV::Block { stmts, result } => {
            let env = outer.push(cur);
            if i < 0 || i >= stmts.len() {
                eval(*result, env, lit, apply, truthy)
            } else {
                match stmts[i] {
                    StmtV::Let { name, value } => eval_block(
                        block,
                        i + 1,
                        outer,
                        cur.push((name, eval(value, env, lit, apply, truthy))),
                        lit,
                        apply,
                        truthy,
                    ),
                    StmtV::Print(_) => eval_block(block, i + 1, outer, cur, lit, apply, truthy),
                }
            }
        },
        _ => lit(Seq::empty()),
    }
}

/// The store after running `block` from store `s`.
pub open spec fn run<V>(
    block: Seq<InstrV>,
    s: spec_fn(nat) -> V,
    lit: spec_fn(Seq<char>) -> V,
    apply: spec_fn(BinOp, V, V) -> V,
    truthy: spec_fn(V) -> bool,
    call: spec_fn(Seq<char>, Seq<V>) -> V,
) -> spec_fn(nat) -> V
    decreases block,
{
    if block.len() == 0 {
        s
    } else {
        step(block.last(), run(block.drop_last(), s, lit, apply, truthy, call), lit, apply, truthy, call)
    }
}

/// The values store `s` holds in temps `args`.
pub open spec fn read_args<V>(s: spec_fn(nat) -> V, args: Seq<nat>) -> Seq<V> {
    args.map_values(|a: nat| s(a))
}

/// `s` with temp `t` holding `v`.
pub open spec fn write<V>(s: spec_fn(nat) -> V, t: nat, v: V) -> spec_fn(nat) -> V {
    |x: nat| if x == t { v } else { s(x) }
}

/// The store after running one instruction from store `s`.
pub open spec fn step<V>(
    i: InstrV,
    s: spec_fn(nat) -> V,
    lit: spec_fn(Seq<char>) -> V,
    apply: spec_fn(BinOp, V, V) -> V,
    truthy: spec_fn(V) -> bool,
    call: spec_fn(Seq<char>, Seq<V>) -> V,
) -> spec_fn(nat) -> V
    decreases i,
{
    match i {
        InstrV::Const { dst, value } => write(s, dst, lit(value)),
        InstrV::BinOp { dst, op, lhs, rhs } => write(s, dst, apply(op, s(lhs), s(rhs))),
        InstrV::CallBuiltin { dst, name, args } => write(s, dst, call(name, read_args(s, args))),
        InstrV::Copy { dst, src } => write(s, dst, s(src)),
        InstrV::If { cond, then_block, else_block, .. } => if truthy(s(cond)) {
            run(then_block, s, lit, apply, truthy, call)
        } else {
            run(else_block, s, lit, apply, truthy, call)
        },
    }
}

/// The built-ins behind `+`, `*` and `-` compute what those operators do.
pub open spec fn calls_agree<V>(
    apply: spec_fn(BinOp, V, V) -> V,
    call: spec_fn(Seq<char>, Seq<V>) -> V,
) -> bool {
    forall|op: BinOp, a: V, b: V|
        #![trigger apply(op, a, b)]
        spec_builtin_for(op) matches Some(name) ==> call(name, seq![a, b]) == apply(op, a, b)
}

/// The lowering environment `env` and the value environment `venv` bind the same
/// names in the same places, every bound temp is below `next`, and store `s` holds
/// each bound temp's value.
pub open spec fn env_matches<V>(env: Env, venv: Seq<Seq<(Seq<char>, V)>>, s: spec_fn(nat) -> V, next: nat) -> bool {
    &&& env.len() == venv.len()
    &&& forall|k: int| 0 <= k < env.len() ==> (#[trigger] env[k]).len() == venv[k].len()
    &&& forall|k: int, j: int|
        0 <= k < env.len() && 0 <= j < env[k].len() ==> {
            &&& (#[trigger] env[k][j]).0 == venv[k][j].0
            &&& env[k][j].1 < next
            &&& s(env[k][j].1) == venv[k][j].1
        }
}

/// Running `a` then `b` is running `a + b`.
pub proof fn lemma_run_append<V>(
    a: Seq<InstrV>,
    b: Seq<InstrV>,
    s: spec_fn(nat) -> V,
    lit: spec_fn(Seq<char>) -> V,
    apply: spec_fn(BinOp, V, V) -> V,
    truthy: spec_fn(V) -> bool,
    call: spec_fn(Seq<char>, Seq<V>) -> V,
)
    ensures
        run(a + b, s, lit, apply, truthy, call) == run(
            b,
            run(a, s, lit, apply, truthy, call),
            lit,
            apply,
            truthy,
            call,
        ),
    decreases b.len(),
{
    if b.len() == 0 {
        assert(a + b =~= a);
    } else {
        lemma_run_append(a, b.drop_last(), s, lit, apply, truthy, call);
        assert((a + b).drop_last() =~= a + b.drop_last());
        assert((a + b).last() == b.last());
    }
}

/// Running one instruction is taking its step.
pub proof fn lemma_run_one<V>(
    ins: InstrV,
    s: spec_fn(nat) -> V,
    lit: spec_fn(Seq<char>) -> V,
    apply: spec_fn(BinOp, V, V) -> V,
    truthy: spec_fn(V) -> bool,
    call: spec_fn(Seq<char>, Seq<V>) -> V,
)
    ensures
        run(seq![ins], s, lit, apply, truthy, call) == step(ins, s, lit, apply, truthy, call),
{
    assert(seq![ins].drop_last() =~= Seq::<InstrV>::empty());
    assert(run(Seq::<InstrV>::empty(), s, lit, apply, truthy, call) == s);
}

/// A frame of temps and a frame of values that bind the same names in the same
/// order, each temp holding its value in `s`.
pub open spec fn frame_matches<V>(f: Frame, vf: Seq<(Seq<char>, V)>, s: spec_fn(nat) -> V) -> bool {
    &&& f.len() == vf.len()
    &&& forall|j: int| 0 <= j < f.len() ==> (#[trigger] f[j]).0 == vf[j].0 && s(f[j].1) == vf[j].1
}

/// Matching frames give a name the value its temp holds.
proof fn lemma_frame_value<V>(f: Frame, vf: Seq<(Seq<char>, V)>, s: spec_fn(nat) -> V, name: Seq<char>)
    requires
        frame_matches(f, vf, s),
    ensures
        match frame_find(f, name) {
            Some(t) => frame_value(vf, name) == Some(s(t)),
            None => frame_value(vf, name) is None,
        },
    decreases f.len(),
{
    if f.len() > 0 {
        assert(f[f.len() - 1] == f.last());
        assert forall|j: int| 0 <= j < f.drop_last().len() implies (#[trigger] f.drop_last()[j]).0
            == vf.drop_last()[j].0 && s(f.drop_last()[j].1) == vf.drop_last()[j].1 by {
            assert(f.drop_last()[j] == f[j]);
        }
        lemma_frame_value(f.drop_last(), vf.drop_last(), s, name);
    }
}

/// Matching environments give a name the value its temp holds.
proof fn lemma_env_value<V>(
    env: Env,
    venv: Seq<Seq<(Seq<char>, V)>>,
    s: spec_fn(nat) -> V,
    next: nat,
    name: Seq<char>,
)
    requires
        env_matches(env, venv, s, next),
    ensures
        match env_lookup(env, name) {
            Some(t) => t < next && env_value(venv, name) == Some(s(t)),
            None => env_value(venv, name) is None,
        },
    decreases env.len(),
{
    if env.len() > 0 {
        let k = env.len() - 1;
        assert(env[k] == env.last());
        assert(frame_matches(env.last(), venv.last(), s)) by {
            assert forall|j: int| 0 <= j < env.last().len() implies (#[trigger] env.last()[j]).0
                == venv.last()[j].0 && s(env.last()[j].1) == venv.last()[j].1 by {
                assert(env[k][j] == env.last()[j]);
            }
        }
        lemma_frame_value(env.last(), venv.last(), s, name);
        lemma_frame_find_below(env.last(), name, next);
        let rest = env.drop_last();
        let vrest = venv.drop_last();
        assert(env_matches(rest, vrest, s, next)) by {
            assert forall|kk: int| 0 <= kk < rest.len() implies (#[trigger] rest[kk]).len()
                == vrest[kk].len() by {
                assert(rest[kk] == env[kk]);
            }
            assert forall|kk: int, j: int| 0 <= kk < rest.len() && 0 <= j < rest[kk].len() implies {
                &&& (#[trigger] rest[kk][j]).0 == vrest[kk][j].0
                &&& rest[kk][j].1 < next
                &&& s(rest[kk][j].1) == vrest[kk][j].1
            } by {
                assert(rest[kk] == env[kk]);
                assert(vrest[kk] == venv[kk]);
                assert(env[kk][j] == rest[kk][j]);
            }
        }
        lemma_env_value(rest, vrest, s, next, name);
    }
}

/// A frame whose temps are all below `next` finds only temps below `next`.
proof fn lemma_frame_find_below(f: Frame, name: Seq<char>, next: nat)
    requires
        forall|j: int| 0 <= j < f.len() ==> (#[trigger] f[j]).1 < next,
    ensures
        frame_find(f, name) matches Some(t) ==> t < next,
    decreases f.len(),
{
    if f.len() > 0 {
        assert(f[f.len() - 1] == f.last());
        assert forall|j: int| 0 <= j < f.drop_last().len() implies (#[trigger] f.drop_last()[j]).1
            < next by {
            assert(f.drop_last()[j] == f[j]);
        }
        lemma_frame_find_below(f.drop_last(), name, next);
    }
}

/// `s2` agrees with `s` on every temp below `next`.
pub open spec fn agrees_below<V>(s2: spec_fn(nat) -> V, s: spec_fn(nat) -> V, next: nat) -> bool {
    forall|t: nat| t < next ==> #[trigger] s2(t) == s(t)
}

/// Matching survives a store that agrees below `next`, and a larger bound.
proof fn lemma_env_matches_mono<V>(
    env: Env,
    venv: Seq<Seq<(Seq<char>, V)>>,
    s: spec_fn(nat) -> V,
    s2: spec_fn(nat) -> V,
    next: nat,
    next2: nat,
)
    requires
        env_matches(env, venv, s, next),
        agrees_below(s2, s, next),
        next <= next2,
    ensures
        env_matches(env, venv, s2, next2),
{
    assert forall|k: int, j: int| 0 <= k < env.len() && 0 <= j < env[k].len() implies {
        &&& (#[trigger] env[k][j]).0 == venv[k][j].0
        &&& env[k][j].1 < next2
        &&& s2(env[k][j].1) == venv[k][j].1
    } by {
        assert(s2(env[k][j].1) == s(env[k][j].1));
    }
}

/// Running `r`'s instructions from `s` computes `value` into `r`'s temp, leaves every
/// temp below `next` as it was, and `r`'s temp is below its next unused one.
pub open spec fn computes<V>(
    r: (Seq<InstrV>, nat, nat),
    value: V,
    s: spec_fn(nat) -> V,
    next: nat,
    lit: spec_fn(Seq<char>) -> V,
    apply: spec_fn(BinOp, V, V) -> V,
    truthy: spec_fn(V) -> bool,
    call: spec_fn(Seq<char>, Seq<V>) -> V,
) -> bool {
    let s2 = run(r.0, s, lit, apply, truthy, call);
    &&& s2(r.1) == value
    &&& agrees_below(s2, s, next)
    &&& next <= r.2
    &&& r.1 < r.2
}

/// Running what lowering `e` emits computes `e`'s value into the temp it names,
/// leaves every temp below `next` as it was, and names a temp below the next unused
/// one.
pub proof fn lemma_lowering_keeps_value<V>(
    e: ExprV,
    env: Env,
    venv: Seq<Seq<(Seq<char>, V)>>,
    s: spec_fn(nat) -> V,
    next: nat,
    lit: spec_fn(Seq<char>) -> V,
    apply: spec_fn(BinOp, V, V) -> V,
    truthy: spec_fn(V) -> bool,
    call: spec_fn(Seq<char>, Seq<V>) -> V,
)
    requires
        vars_bound(e, env_names(env)),
        env_matches(env, venv, s, next),
        calls_agree(apply, call),
    ensures
        computes(
            lower_spec(e, env, next),
            eval(e, venv, lit, apply, truthy),
            s,
            next,
            lit,
            apply,
            truthy,
            call,
        ),
    decreases e, 1int, 0int,
{
    let r = lower_spec(e, env, next);
    match e {
        ExprV::Number(value) => {
            let ins = InstrV::Const { dst: next, value };
            assert(r.0 == seq![ins]);
            assert(r.0.drop_last() =~= Seq::<InstrV>::empty());
            let s2 = write(s, next, lit(value));
            lemma_run_one(ins, s, lit, apply, truthy, call);
            assert(step(ins, s, lit, apply, truthy, call) == s2);
            assert(s2(next) == lit(value));
            assert(agrees_below(s2, s, next));
        },
        ExprV::Var(name) => {
            lemma_env_lookup(env, name);
            lemma_env_value(env, venv, s, next, name);
            assert(r.0 =~= Seq::<InstrV>::empty());
            assert(run(r.0, s, lit, apply, truthy, call) == s);
        },
        ExprV::BinOp(l, op, rr) => {
            let a = lower_spec(*l, env, next);
            lemma_lowering_keeps_value(*l, env, venv, s, next, lit, apply, truthy, call);
            let s1 = run(a.0, s, lit, apply, truthy, call);
            lemma_env_matches_mono(env, venv, s, s1, next, a.2);
            let b = lower_spec(*rr, env, a.2);
            lemma_lowering_keeps_value(*rr, env, venv, s1, a.2, lit, apply, truthy, call);
            let s2 = run(b.0, s1, lit, apply, truthy, call);
            let ins = op_instr(op, b.2, a.1, b.1);
            lemma_run_append(a.0, b.0, s, lit, apply, truthy, call);
            lemma_run_append(a.0 + b.0, seq![ins], s, lit, apply, truthy, call);
            lemma_run_one(ins, s2, lit, apply, truthy, call);
            assert(r.0 == a.0 + b.0 + seq![ins]);
            assert(s2(a.1) == s1(a.1));
            let x = eval(*l, venv, lit, apply, truthy);
            let y = eval(*rr, venv, lit, apply, truthy);
            let v = apply(op, x, y);
            if let Some(name) = spec_builtin_for(op) {
                assert(read_args(s2, seq![a.1, b.1]) =~= seq![x, y]);
                assert(call(name, seq![x, y]) == v);
            }
            let s3 = write(s2, b.2, v);
            assert(step(ins, s2, lit, apply, truthy, call) == s3);
            assert(run(r.0, s, lit, apply, truthy, call) == s3);
            assert(s3(b.2) == v);
            assert forall|t: nat| t < next implies #[trigger] s3(t) == s(t) by {
                assert(s3(t) == s2(t));
                assert(s2(t) == s1(t));
            }
        },
        ExprV::If { cond, then_branch, else_branch } => {
            let c = lower_spec(*cond, env, next);
            lemma_lowering_keeps_value(*cond, env, venv, s, next, lit, apply, truthy, call);
            let s1 = run(c.0, s, lit, apply, truthy, call);
            let dst = c.2;
            lemma_env_matches_mono(env, venv, s, s1, next, dst + 1);
            let t = lower_spec(*then_branch, env, dst + 1);
            lemma_lowering_keeps_value(*then_branch, env, venv, s1, dst + 1, lit, apply, truthy, call);
            lemma_env_matches_mono(env, venv, s, s1, next, t.2);
            let f = lower_spec(*else_branch, env, t.2);
            lemma_lowering_keeps_value(*else_branch, env, venv, s1, t.2, lit, apply, truthy, call);
            let ins = InstrV::If {
                dst,
                cond: c.1,
                then_block: t.0.push(InstrV::Copy { dst, src: t.1 }),
                else_block: f.0.push(InstrV::Copy { dst, src: f.1 }),
            };
            lemma_run_append(c.0, seq![ins], s, lit, apply, truthy, call);
            lemma_run_one(ins, s1, lit, apply, truthy, call);
            assert(r.0 == c.0 + seq![ins]);
            let tb = t.0.push(InstrV::Copy { dst, src: t.1 });
            let fb = f.0.push(InstrV::Copy { dst, src: f.1 });
            assert(tb.drop_last() =~= t.0);
            assert(fb.drop_last() =~= f.0);
            let st = run(t.0, s1, lit, apply, truthy, call);
            let sf = run(f.0, s1, lit, apply, truthy, call);
            let st2 = write(st, dst, st(t.1));
            let sf2 = write(sf, dst, sf(f.1));
            assert(run(tb.drop_last(), s1, lit, apply, truthy, call) == st);
            assert(step(InstrV::Copy { dst, src: t.1 }, st, lit, apply, truthy, call) == st2);
            assert(run(tb, s1, lit, apply, truthy, call) == st2);
            assert(run(fb.drop_last(), s1, lit, apply, truthy, call) == sf);
            assert(step(InstrV::Copy { dst, src: f.1 }, sf, lit, apply, truthy, call) == sf2);
            assert(run(fb, s1, lit, apply, truthy, call) == sf2);
            let s3 = if truthy(s1(c.1)) { st2 } else { sf2 };
            assert(step(ins, s1, lit, apply, truthy, call) == s3);
            assert(run(r.0, s, lit, apply, truthy, call) == s3);
            assert(s3(dst) == eval(e, venv, lit, apply, truthy));
            assert forall|x: nat| x < next implies #[trigger] s3(x) == s(x) by {
                assert(st(x) == s1(x));
                assert(sf(x) == s1(x));
                assert(s3(x) == s1(x));
            }
        },
        ExprV::Block { .. } => {
            let outer = env;
            let cur = Seq::<(Seq<char>, nat)>::empty();
            let vcur = Seq::<(Seq<char>, V)>::empty();
            lemma_env_matches_push(env, venv, cur, vcur, s, next);
            assert(frame_names(cur) =~= Seq::<Seq<char>>::empty());
            lemma_block_keeps_value(e, 0, env, cur, venv, vcur, s, next, lit, apply, truthy, call);
        },
    }
}

/// Matching survives opening a matching scope.
proof fn lemma_env_matches_push<V>(
    env: Env,
    venv: Seq<Seq<(Seq<char>, V)>>,
    f: Frame,
    vf: Seq<(Seq<char>, V)>,
    s: spec_fn(nat) -> V,
    next: nat,
)
    requires
        env_matches(env, venv, s, next),
        frame_matches(f, vf, s),
        forall|j: int| 0 <= j < f.len() ==> (#[trigger] f[j]).1 < next,
    ensures
        env_matches(env.push(f), venv.push(vf), s, next),
{
    let e2 = env.push(f);
    let v2 = venv.push(vf);
    assert forall|k: int| 0 <= k < e2.len() implies (#[trigger] e2[k]).len() == v2[k].len() by {
        if k < env.len() {
            assert(e2[k] == env[k]);
        }
    }
    assert forall|k: int, j: int| 0 <= k < e2.len() && 0 <= j < e2[k].len() implies {
        &&& (#[trigger] e2[k][j]).0 == v2[k][j].0
        &&& e2[k][j].1 < next
        &&& s(e2[k][j].1) == v2[k][j].1
    } by {
        if k < env.len() {
            assert(e2[k] == env[k]);
            assert(env[k][j] == e2[k][j]);
        } else {
            assert(f[j] == e2[k][j]);
        }
    }
}

/// The block part of [`lemma_lowering_keeps_value`]: `outer`/`venv` are the
/// enclosing scopes, `cur`/`vcur` the bindings the statements before `i` made.
pub proof fn lemma_block_keeps_value<V>(
    block: ExprV,
    i: int,
    outer: Env,
    cur: Frame,
    venv: Seq<Seq<(Seq<char>, V)>>,
    vcur: Seq<(Seq<char>, V)>,
    s: spec_fn(nat) -> V,
    next: nat,
    lit: spec_fn(Seq<char>) -> V,
    apply: spec_fn(BinOp, V, V) -> V,
    truthy: spec_fn(V) -> bool,
    call: spec_fn(Seq<char>, Seq<V>) -> V,
)
    requires
        0 <= i,
        block is Block,
        block_vars_bound(block, i, env_names(outer), frame_names(cur)),
        env_matches(outer.push(cur), venv.push(vcur), s, next),
        calls_agree(apply, call),
    ensures
        computes(
            lower_block_spec(block, i, outer, cur, next),
            eval_block(block, i, venv, vcur, lit, apply, truthy),
            s,
            next,
            lit,
            apply,
            truthy,
            call,
        ),
    decreases block, 0int, (if block is Block { block->stmts.len() - i } else { 0 }),
{
    let env = outer.push(cur);
    let venv2 = venv.push(vcur);
    lemma_env_names_push(outer, cur);
    match block {
        ExprV::Block { stmts, result } => {
            if i >= stmts.len() {
                lemma_lowering_keeps_value(*result, env, venv2, s, next, lit, apply, truthy, call);
            } else {
                match stmts[i] {
                    StmtV::Let { name, value } => {
                        let v = lower_spec(value, env, next);
                        lemma_lowering_keeps_value(value, env, venv2, s, next, lit, apply, truthy, call);
                        let s1 = run(v.0, s, lit, apply, truthy, call);
                        let x = eval(value, venv2, lit, apply, truthy);
                        let cur2 = cur.push((name, v.1));
                        let vcur2 = vcur.push((name, x));
                        lemma_env_matches_mono(env, venv2, s, s1, next, v.2);
                        lemma_env_matches_grow(outer, cur, venv, vcur, s1, v.2, name, v.1, x);
                        assert(frame_names(cur2) =~= frame_names(cur).push(name));
                        lemma_block_keeps_value(
                            block, i + 1, outer, cur2, venv, vcur2, s1, v.2, lit, apply, truthy, call,
                        );
                        let rest = lower_block_spec(block, i + 1, outer, cur2, v.2);
                        lemma_run_append(v.0, rest.0, s, lit, apply, truthy, call);
                        let r = lower_block_spec(block, i, outer, cur, next);
                        assert(r.0 == v.0 + rest.0);
                        assert(r.1 == rest.1);
                        assert(eval_block(block, i, venv, vcur, lit, apply, truthy) == eval_block(
                            block, i + 1, venv, vcur2, lit, apply, truthy,
                        ));
                    },
                    StmtV::Print(value) => {
                        let v = lower_spec(value, env, next);
                        lemma_lowering_keeps_value(value, env, venv2, s, next, lit, apply, truthy, call);
                        let s1 = run(v.0, s, lit, apply, truthy, call);
                        let dst = v.2;
                        let ins = InstrV::CallBuiltin { dst, name: "print"@, args: seq![v.1] };
                        let s1b = step(ins, s1, lit, apply, truthy, call);
                        assert(agrees_below(s1b, s, next));
                        lemma_env_matches_mono(env, venv2, s, s1b, next, dst + 1);
                        lemma_block_keeps_value(
                            block, i + 1, outer, cur, venv, vcur, s1b, dst + 1, lit, apply, truthy, call,
                        );
                        let rest = lower_block_spec(block, i + 1, outer, cur, dst + 1);
                        lemma_run_append(v.0, seq![ins], s, lit, apply, truthy, call);
                        assert(seq![ins].drop_last() =~= Seq::<InstrV>::empty());
                        lemma_run_append(v.0 + seq![ins], rest.0, s, lit, apply, truthy, call);
                        let r = lower_block_spec(block, i, outer, cur, next);
                        assert(r.0 == v.0 + seq![ins] + rest.0);
                        lemma_run_one(ins, s1, lit, apply, truthy, call);
                        assert(eval_block(block, i, venv, vcur, lit, apply, truthy) == eval_block(
                            block, i + 1, venv, vcur, lit, apply, truthy,
                        ));
                    },
                }
            }
        },
        _ => {},
    }
}

/// Matching survives binding a name in the innermost scope to a temp holding its value.
proof fn lemma_env_matches_grow<V>(
    outer: Env,
    cur: Frame,
    venv: Seq<Seq<(Seq<char>, V)>>,
    vcur: Seq<(Seq<char>, V)>,
    s: spec_fn(nat) -> V,
    next: nat,
    name: Seq<char>,
    t: nat,
    x: V,
)
    requires
        env_matches(outer.push(cur), venv.push(vcur), s, next),
        t < next,
        s(t) == x,
    ensures
        env_matches(outer.push(cur.push((name, t))), venv.push(vcur.push((name, x))), s, next),
{
    let e1 = outer.push(cur);
    let v1 = venv.push(vcur);
    let e2 = outer.push(cur.push((name, t)));
    let v2 = venv.push(vcur.push((name, x)));
    let last = outer.len() as int;
    assert(e1[last] == cur);
    assert(v1[last] == vcur);
    assert forall|k: int| 0 <= k < e2.len() implies (#[trigger] e2[k]).len() == v2[k].len() by {
        if k < last {
            assert(e2[k] == e1[k]);
            assert(v2[k] == v1[k]);
        }
    }
    assert forall|k: int, j: int| 0 <= k < e2.len() && 0 <= j < e2[k].len() implies {
        &&& (#[trigger] e2[k][j]).0 == v2[k][j].0
        &&& e2[k][j].1 < next
        &&& s(e2[k][j].1) == v2[k][j].1
    } by {
        if k < last {
            assert(e2[k] == e1[k]);
            assert(v2[k] == v1[k]);
            assert(e1[k][j] == e2[k][j]);
        } else if j < cur.len() {
            assert(e2[k][j] == e1[k][j]);
            assert(v2[k][j] == v1[k][j]);
        }
    }
}

/// Lowering keeps what a program means: for a program whose variables are all bound
/// where used, running the instructions lowering emits, from any store, leaves in
/// the result temp the program's value. This holds for every kind of value and
/// every reading of literals, operators and conditions, so long as the built-ins
/// that `+`, `*` and `-` lower to compute what those operators do.
pub proof fn lemma_lowering_preserves_meaning<V>(
    e: ExprV,
    s: spec_fn(nat) -> V,
    lit: spec_fn(Seq<char>) -> V,
    apply: spec_fn(BinOp, V, V) -> V,
    truthy: spec_fn(V) -> bool,
    call: spec_fn(Seq<char>, Seq<V>) -> V,
)
    requires
        vars_bound(e, Seq::empty()),
        calls_agree(apply, call),
    ensures
        run(lower_spec(e, Seq::empty(), 0).0, s, lit, apply, truthy, call)(lower_spec(
            e,
            Seq::empty(),
            0,
        ).1) == eval(e, Seq::empty(), lit, apply, truthy),
{
    let env = Seq::<Frame>::empty();
    assert(env_names(env) =~= Seq::<Seq<Seq<char>>>::empty());
    assert(env_matches(env, Seq::<Seq<(Seq<char>, V)>>::empty(), s, 0));
    lemma_lowering_keeps_value(e, env, Seq::empty(), s, 0, lit, apply, truthy, call);
}

} // verus!
