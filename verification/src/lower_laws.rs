//! What lowering guarantees of the IR it produces, beyond its exact output: every
//! temp is defined by exactly one instruction, numbered densely in order, apart from
//! the copies that funnel an `If`'s branches into its result ("roughly SSA"); and
//! every temp is written before any instruction reads it.

use vstd::prelude::*;

use crate::ast::{ExprV, StmtV};
use crate::ir::InstrV;
use crate::ir::dst_of;
use crate::lower::{
    block_vars_bound, env_lookup, env_names, frame_find, frame_names, lemma_env_lookup,
    lemma_env_names_push, lemma_lower_block_count, lemma_lower_count, lower_block_spec, lower_spec,
    op_instr, spec_builtin_for, temp_count, vars_bound, Env, Frame,
};

verus! {

/// The temps `block` defines, in order: each instruction's destination, an `If`'s
/// before its blocks', leaving out the copies into an `If`'s result.
pub open spec fn defs(block: Seq<InstrV>) -> Seq<nat>
    decreases block,
{
    if block.len() == 0 {
        Seq::empty()
    } else {
        defs(block.drop_last()) + instr_defs(block.last())
    }
}

/// The temps one instruction defines, nested blocks included.
pub open spec fn instr_defs(i: InstrV) -> Seq<nat>
    decreases i,
{
    match i {
        InstrV::Const { dst, .. } => seq![dst],
        InstrV::BinOp { dst, .. } => seq![dst],
        InstrV::CallBuiltin { dst, .. } => seq![dst],
        InstrV::Copy { .. } => Seq::empty(),
        InstrV::If { dst, then_block, else_block, .. } => seq![dst] + defs(then_block) + defs(
            else_block,
        ),
    }
}

/// `lo, lo + 1, ..., hi - 1`.
pub open spec fn range_seq(lo: nat, hi: nat) -> Seq<nat> {
    Seq::new((hi - lo) as nat, |k: int| (lo + k) as nat)
}

/// Every copy in `block` writes `target`, the result of the `If` whose branch
/// `block` is (`None` at the top level, where no copy may stand), and so on down.
pub open spec fn copies_into(block: Seq<InstrV>, target: Option<nat>) -> bool
    decreases block,
{
    if block.len() == 0 {
        true
    } else {
        copies_into(block.drop_last(), target) && instr_copies_into(block.last(), target)
    }
}

/// The copy condition for one instruction.
pub open spec fn instr_copies_into(i: InstrV, target: Option<nat>) -> bool
    decreases i,
{
    match i {
        InstrV::Copy { dst, .. } => target == Some(dst),
        InstrV::If { dst, then_block, else_block, .. } => copies_into(then_block, Some(dst))
            && copies_into(else_block, Some(dst)),
        _ => true,
    }
}

/// What is written once `block` has run from a state where `written` was: each
/// top-level instruction's destination added. Both branches of an `If` end by
/// writing its result.
pub open spec fn after(block: Seq<InstrV>, written: Set<nat>) -> Set<nat>
    decreases block.len(),
{
    if block.len() == 0 {
        written
    } else {
        after(block.drop_last(), written).insert(crate::ir::dst_of(block.last()))
    }
}

/// `block`, run from a state where `written` have been written, reads only written
/// temps.
pub open spec fn reads_written(block: Seq<InstrV>, written: Set<nat>) -> bool
    decreases block,
{
    if block.len() == 0 {
        true
    } else {
        reads_written(block.drop_last(), written) && instr_reads_written(
            block.last(),
            after(block.drop_last(), written),
        )
    }
}

/// One instruction reads only temps among `written`; an `If`'s branches each do, and
/// each ends having written the `If`'s result.
pub open spec fn instr_reads_written(i: InstrV, written: Set<nat>) -> bool
    decreases i,
{
    match i {
        InstrV::Const { .. } => true,
        InstrV::BinOp { lhs, rhs, .. } => written.contains(lhs) && written.contains(rhs),
        InstrV::CallBuiltin { args, .. } => forall|k: int|
            0 <= k < args.len() ==> written.contains(#[trigger] args[k]),
        InstrV::Copy { src, .. } => written.contains(src),
        InstrV::If { dst, cond, then_block, else_block } => written.contains(cond)
            && reads_written(then_block, written) && reads_written(else_block, written) && after(
            then_block,
            written,
        ).contains(dst) && after(else_block, written).contains(dst),
    }
}

/// Every temp `env` binds a name to is among `written`.
pub open spec fn env_written(env: Env, written: Set<nat>) -> bool {
    forall|k: int, j: int|
        0 <= k < env.len() && 0 <= j < env[k].len() ==> written.contains(#[trigger] env[k][j].1)
}

/// The definitions of a concatenation are those of each part, in order.
pub proof fn lemma_defs_add(a: Seq<InstrV>, b: Seq<InstrV>)
    ensures
        defs(a + b) == defs(a) + defs(b),
    decreases b.len(),
{
    if b.len() == 0 {
        assert(a + b =~= a);
        assert(defs(a) + defs(b) =~= defs(a));
    } else {
        lemma_defs_add(a, b.drop_last());
        assert((a + b).drop_last() =~= a + b.drop_last());
        assert((a + b).last() == b.last());
        assert(defs(a) + defs(b.drop_last()) + instr_defs(b.last()) =~= defs(a) + (defs(
            b.drop_last(),
        ) + instr_defs(b.last())));
    }
}

/// A one-instruction block defines what the instruction defines.
proof fn lemma_defs_single(i: InstrV)
    ensures
        defs(seq![i]) == instr_defs(i),
{
    assert(seq![i].drop_last() =~= Seq::<InstrV>::empty());
    assert(defs(Seq::<InstrV>::empty()) + instr_defs(i) =~= instr_defs(i));
}

/// A copy at the end of a block defines nothing.
proof fn lemma_defs_copy(b: Seq<InstrV>, dst: nat, src: nat)
    ensures
        defs(b.push(InstrV::Copy { dst, src })) == defs(b),
{
    let c = InstrV::Copy { dst, src };
    assert(b.push(c).drop_last() =~= b);
    assert(defs(b) + instr_defs(c) =~= defs(b));
}

/// Consecutive ranges join.
proof fn lemma_range_add(lo: nat, mid: nat, hi: nat)
    requires
        lo <= mid <= hi,
    ensures
        range_seq(lo, mid) + range_seq(mid, hi) == range_seq(lo, hi),
{
    assert(range_seq(lo, mid) + range_seq(mid, hi) =~= range_seq(lo, hi));
}

/// A one-temp range.
proof fn lemma_range_one(t: nat)
    ensures
        range_seq(t, t + 1) == seq![t],
{
    assert(range_seq(t, t + 1) =~= seq![t]);
}

/// Lowering `e` defines the temps `next, next + 1, ...` up to the next unused one,
/// each once, in that order: every temp is globally unique and densely numbered.
pub proof fn lemma_lowering_defines_each_temp_once(e: ExprV, env: Env, next: nat)
    ensures
        defs(lower_spec(e, env, next).0) == range_seq(next, next + temp_count(e)),
    decreases e, 1int, 0int,
{
    lemma_lower_count(e, env, next);
    match e {
        ExprV::Number(value) => {
            lemma_defs_single(InstrV::Const { dst: next, value });
            lemma_range_one(next);
        },
        ExprV::Var(_) => {
            assert(range_seq(next, next) =~= Seq::<nat>::empty());
        },
        ExprV::BinOp(l, op, r) => {
            let a = lower_spec(*l, env, next);
            let b = lower_spec(*r, env, a.2);
            let i = op_instr(op, b.2, a.1, b.1);
            lemma_lower_count(*l, env, next);
            lemma_lower_count(*r, env, a.2);
            lemma_lowering_defines_each_temp_once(*l, env, next);
            lemma_lowering_defines_each_temp_once(*r, env, a.2);
            lemma_defs_single(i);
            assert(instr_defs(i) == seq![b.2]) by {
                match spec_builtin_for(op) {
                    Some(_) => {},
                    None => {},
                }
            }
            lemma_defs_add(a.0, b.0);
            lemma_defs_add(a.0 + b.0, seq![i]);
            lemma_range_one(b.2);
            lemma_range_add(next, a.2, b.2);
            lemma_range_add(next, b.2, b.2 + 1);
        },
        ExprV::If { cond, then_branch, else_branch } => {
            let c = lower_spec(*cond, env, next);
            let dst = c.2;
            let t = lower_spec(*then_branch, env, dst + 1);
            let f = lower_spec(*else_branch, env, t.2);
            let i = InstrV::If {
                dst,
                cond: c.1,
                then_block: t.0.push(InstrV::Copy { dst, src: t.1 }),
                else_block: f.0.push(InstrV::Copy { dst, src: f.1 }),
            };
            lemma_lower_count(*cond, env, next);
            lemma_lower_count(*then_branch, env, dst + 1);
            lemma_lower_count(*else_branch, env, t.2);
            lemma_lowering_defines_each_temp_once(*cond, env, next);
            lemma_lowering_defines_each_temp_once(*then_branch, env, dst + 1);
            lemma_lowering_defines_each_temp_once(*else_branch, env, t.2);
            lemma_defs_copy(t.0, dst, t.1);
            lemma_defs_copy(f.0, dst, f.1);
            lemma_defs_single(i);
            lemma_defs_add(c.0, seq![i]);
            lemma_range_one(dst);
            lemma_range_add(dst, dst + 1, t.2);
            lemma_range_add(dst, t.2, f.2);
            lemma_range_add(next, dst, f.2);
            assert(seq![dst] + range_seq(dst + 1, t.2) + range_seq(t.2, f.2) =~= range_seq(dst, f.2));
        },
        ExprV::Block { .. } => {
            lemma_lowering_block_defines_each_temp_once(e, 0, env, Seq::empty(), next);
        },
    }
}

/// The block part of [`lemma_lowering_defines_each_temp_once`].
pub proof fn lemma_lowering_block_defines_each_temp_once(
    block: ExprV,
    i: int,
    outer: Env,
    cur: Frame,
    next: nat,
)
    requires
        0 <= i,
    ensures
        defs(lower_block_spec(block, i, outer, cur, next).0) == range_seq(
            next,
            lower_block_spec(block, i, outer, cur, next).2,
        ),
    decreases block, 0int, (if block is Block { block->stmts.len() - i } else { 0 }),
{
    lemma_lower_block_count(block, i, outer, cur, next);
    match block {
        ExprV::Block { stmts, result } => {
            let env = outer.push(cur);
            if i >= stmts.len() {
                lemma_lowering_defines_each_temp_once(*result, env, next);
            } else {
                match stmts[i] {
                    StmtV::Let { name, value } => {
                        let v = lower_spec(value, env, next);
                        let rest = lower_block_spec(block, i + 1, outer, cur.push((name, v.1)), v.2);
                        lemma_lower_count(value, env, next);
                        lemma_lower_block_count(block, i + 1, outer, cur.push((name, v.1)), v.2);
                        lemma_lowering_defines_each_temp_once(value, env, next);
                        lemma_lowering_block_defines_each_temp_once(
                            block,
                            i + 1,
                            outer,
                            cur.push((name, v.1)),
                            v.2,
                        );
                        lemma_defs_add(v.0, rest.0);
                        lemma_range_add(next, v.2, rest.2);
                    },
                    StmtV::Print(value) => {
                        let v = lower_spec(value, env, next);
                        let dst = v.2;
                        let call = InstrV::CallBuiltin { dst, name: "print"@, args: seq![v.1] };
                        let rest = lower_block_spec(block, i + 1, outer, cur, dst + 1);
                        lemma_lower_count(value, env, next);
                        lemma_lower_block_count(block, i + 1, outer, cur, dst + 1);
                        lemma_lowering_defines_each_temp_once(value, env, next);
                        lemma_lowering_block_defines_each_temp_once(block, i + 1, outer, cur, dst + 1);
                        lemma_defs_single(call);
                        lemma_defs_add(v.0, seq![call]);
                        lemma_defs_add(v.0 + seq![call], rest.0);
                        lemma_range_one(dst);
                        lemma_range_add(next, dst, dst + 1);
                        lemma_range_add(next, dst + 1, rest.2);
                    },
                }
            }
        },
        _ => {
            assert(range_seq(next, next) =~= Seq::<nat>::empty());
        },
    }
}

/// The copy condition holds of a concatenation when it holds of each part.
proof fn lemma_copies_add(a: Seq<InstrV>, b: Seq<InstrV>, target: Option<nat>)
    ensures
        copies_into(a + b, target) == (copies_into(a, target) && copies_into(b, target)),
    decreases b.len(),
{
    if b.len() == 0 {
        assert(a + b =~= a);
    } else {
        lemma_copies_add(a, b.drop_last(), target);
        assert((a + b).drop_last() =~= a + b.drop_last());
        assert((a + b).last() == b.last());
    }
}

/// A block with no copy at its top level meets the copy condition for any target.
proof fn lemma_copies_any(b: Seq<InstrV>, target: Option<nat>)
    requires
        copies_into(b, None),
    ensures
        copies_into(b, target),
    decreases b.len(),
{
    if b.len() > 0 {
        lemma_copies_any(b.drop_last(), target);
        assert(instr_copies_into(b.last(), None));
        assert(instr_copies_into(b.last(), target));
    }
}

/// A copy into `dst` appended to a block meeting the copy condition for `dst` meets it.
proof fn lemma_copies_push_copy(b: Seq<InstrV>, dst: nat, src: nat)
    requires
        copies_into(b, Some(dst)),
    ensures
        copies_into(b.push(InstrV::Copy { dst, src }), Some(dst)),
{
    let c = InstrV::Copy { dst, src };
    let bc = b.push(c);
    assert(bc.drop_last() =~= b);
    assert(bc.last() == c);
    assert(instr_copies_into(c, Some(dst)));
    assert(copies_into(bc, Some(dst)) == (copies_into(bc.drop_last(), Some(dst))
        && instr_copies_into(bc.last(), Some(dst))));
}

/// The copy condition of a one-instruction block is the instruction's.
proof fn lemma_copies_single(i: InstrV, target: Option<nat>)
    ensures
        copies_into(seq![i], target) == instr_copies_into(i, target),
{
    assert(seq![i].drop_last() =~= Seq::<InstrV>::empty());
    assert(seq![i].last() == i);
    assert(copies_into(Seq::<InstrV>::empty(), target));
}

/// Lowering `e` puts no copy at the top level, and inside each `If` only copies
/// into that `If`'s result: the one place a temp is written twice.
pub proof fn lemma_lowering_copies_only_into_if_results(e: ExprV, env: Env, next: nat)
    ensures
        copies_into(lower_spec(e, env, next).0, None),
    decreases e, 1int, 0int,
{
    match e {
        ExprV::Number(value) => {
            lemma_copies_single(InstrV::Const { dst: next, value }, None);
            assert(instr_copies_into(InstrV::Const { dst: next, value }, None));
            assert(lower_spec(e, env, next).0 == seq![InstrV::Const { dst: next, value }]);
            assert(copies_into(seq![InstrV::Const { dst: next, value }], None));
        },
        ExprV::Var(_) => {
            assert(copies_into(lower_spec(e, env, next).0, None));
        },
        ExprV::BinOp(l, op, r) => {
            let a = lower_spec(*l, env, next);
            let b = lower_spec(*r, env, a.2);
            let i = op_instr(op, b.2, a.1, b.1);
            lemma_lowering_copies_only_into_if_results(*l, env, next);
            lemma_lowering_copies_only_into_if_results(*r, env, a.2);
            lemma_copies_single(i, None);
            lemma_copies_add(a.0, b.0, None);
            lemma_copies_add(a.0 + b.0, seq![i], None);
            assert(copies_into(lower_spec(e, env, next).0, None));
        },
        ExprV::If { cond, then_branch, else_branch } => {
            let c = lower_spec(*cond, env, next);
            let dst = c.2;
            let t = lower_spec(*then_branch, env, dst + 1);
            let f = lower_spec(*else_branch, env, t.2);
            let tc = InstrV::Copy { dst, src: t.1 };
            let fc = InstrV::Copy { dst, src: f.1 };
            let i = InstrV::If {
                dst,
                cond: c.1,
                then_block: t.0.push(tc),
                else_block: f.0.push(fc),
            };
            lemma_lowering_copies_only_into_if_results(*cond, env, next);
            lemma_lowering_copies_only_into_if_results(*then_branch, env, dst + 1);
            lemma_lowering_copies_only_into_if_results(*else_branch, env, t.2);
            lemma_copies_any(t.0, Some(dst));
            lemma_copies_any(f.0, Some(dst));
            lemma_copies_push_copy(t.0, dst, t.1);
            lemma_copies_push_copy(f.0, dst, f.1);
            assert(instr_copies_into(i, None));
            lemma_copies_single(i, None);
            lemma_copies_add(c.0, seq![i], None);
            assert(copies_into(lower_spec(e, env, next).0, None));
        },
        ExprV::Block { .. } => {
            lemma_lowering_block_copies(e, 0, env, Seq::empty(), next);
            assert(copies_into(lower_spec(e, env, next).0, None));
        },
    }
}

/// The block part of [`lemma_lowering_copies_only_into_if_results`].
pub proof fn lemma_lowering_block_copies(block: ExprV, i: int, outer: Env, cur: Frame, next: nat)
    requires
        0 <= i,
    ensures
        copies_into(lower_block_spec(block, i, outer, cur, next).0, None),
    decreases block, 0int, (if block is Block { block->stmts.len() - i } else { 0 }),
{
    match block {
        ExprV::Block { stmts, result } => {
            let env = outer.push(cur);
            if i >= stmts.len() {
                lemma_lowering_copies_only_into_if_results(*result, env, next);
            } else {
                match stmts[i] {
                    StmtV::Let { name, value } => {
                        let v = lower_spec(value, env, next);
                        let rest = lower_block_spec(block, i + 1, outer, cur.push((name, v.1)), v.2);
                        lemma_lowering_copies_only_into_if_results(value, env, next);
                        lemma_lowering_block_copies(block, i + 1, outer, cur.push((name, v.1)), v.2);
                        lemma_copies_add(v.0, rest.0, None);
                    },
                    StmtV::Print(value) => {
                        let v = lower_spec(value, env, next);
                        let dst = v.2;
                        let call = InstrV::CallBuiltin { dst, name: "print"@, args: seq![v.1] };
                        let rest = lower_block_spec(block, i + 1, outer, cur, dst + 1);
                        lemma_lowering_copies_only_into_if_results(value, env, next);
                        lemma_lowering_block_copies(block, i + 1, outer, cur, dst + 1);
                        lemma_copies_single(call, None);
                        lemma_copies_add(v.0, seq![call], None);
                        lemma_copies_add(v.0 + seq![call], rest.0, None);
                    },
                }
            }
        },
        _ => {},
    }
}

/// Running a concatenation writes what running each part in turn writes.
proof fn lemma_after_add(a: Seq<InstrV>, b: Seq<InstrV>, d: Set<nat>)
    ensures
        after(a + b, d) == after(b, after(a, d)),
    decreases b.len(),
{
    if b.len() == 0 {
        assert(a + b =~= a);
    } else {
        lemma_after_add(a, b.drop_last(), d);
        assert((a + b).drop_last() =~= a + b.drop_last());
        assert((a + b).last() == b.last());
    }
}

/// Running a block only adds to what is written.
proof fn lemma_after_grows(b: Seq<InstrV>, d: Set<nat>)
    ensures
        d.subset_of(after(b, d)),
    decreases b.len(),
{
    if b.len() > 0 {
        lemma_after_grows(b.drop_last(), d);
    }
}

/// A concatenation reads only written temps when its first part does, and its
/// second does once the first has run.
proof fn lemma_reads_add(a: Seq<InstrV>, b: Seq<InstrV>, d: Set<nat>)
    ensures
        reads_written(a + b, d) == (reads_written(a, d) && reads_written(b, after(a, d))),
    decreases b.len(),
{
    if b.len() == 0 {
        assert(a + b =~= a);
    } else {
        lemma_reads_add(a, b.drop_last(), d);
        lemma_after_add(a, b.drop_last(), d);
        assert((a + b).drop_last() =~= a + b.drop_last());
        assert((a + b).last() == b.last());
    }
}

/// One instruction, run alone.
proof fn lemma_single(i: InstrV, d: Set<nat>)
    ensures
        reads_written(seq![i], d) == instr_reads_written(i, d),
        after(seq![i], d) == d.insert(dst_of(i)),
{
    assert(seq![i].drop_last() =~= Seq::<InstrV>::empty());
    assert(seq![i].last() == i);
    assert(reads_written(Seq::<InstrV>::empty(), d));
    assert(after(Seq::<InstrV>::empty(), d) == d);
}

/// A copy of a written temp, appended to a block, writes its destination.
proof fn lemma_push_copy(b: Seq<InstrV>, dst: nat, src: nat, d: Set<nat>)
    requires
        reads_written(b, d),
        after(b, d).contains(src),
    ensures
        reads_written(b.push(InstrV::Copy { dst, src }), d),
        after(b.push(InstrV::Copy { dst, src }), d).contains(dst),
{
    let c = InstrV::Copy { dst, src };
    let bc = b.push(c);
    assert(bc.drop_last() =~= b);
    assert(bc.last() == c);
    assert(instr_reads_written(c, after(b, d)));
    assert(reads_written(bc, d) == (reads_written(bc.drop_last(), d) && instr_reads_written(
        bc.last(),
        after(bc.drop_last(), d),
    )));
    assert(after(bc, d) == after(bc.drop_last(), d).insert(dst_of(bc.last())));
}

/// A name's temp in an environment whose temps are written is written.
proof fn lemma_lookup_written(env: Env, name: Seq<char>, d: Set<nat>)
    requires
        env_written(env, d),
    ensures
        env_lookup(env, name) matches Some(t) ==> d.contains(t),
    decreases env.len(),
{
    if env.len() > 0 {
        let rest = env.drop_last();
        assert forall|k: int, j: int| 0 <= k < rest.len() && 0 <= j < rest[k].len() implies d.contains(
            #[trigger] rest[k][j].1,
        ) by {
            assert(rest[k] == env[k]);
        }
        lemma_lookup_written(rest, name, d);
        assert(env[env.len() - 1].take(env.last().len() as int) =~= env.last());
        lemma_frame_find_written(env.last(), name, d, env.len() - 1, env);
    }
}

/// A name's temp in a frame whose temps are written is written.
proof fn lemma_frame_find_written(frame: Frame, name: Seq<char>, d: Set<nat>, k: int, env: Env)
    requires
        env_written(env, d),
        0 <= k < env.len(),
        frame.len() <= env[k].len(),
        frame == env[k].take(frame.len() as int),
    ensures
        frame_find(frame, name) matches Some(t) ==> d.contains(t),
    decreases frame.len(),
{
    if frame.len() > 0 {
        let j = frame.len() - 1;
        assert(frame.last() == env[k][j]);
        assert(d.contains(env[k][j].1));
        assert(frame.drop_last() == env[k].take(j as int));
        lemma_frame_find_written(frame.drop_last(), name, d, k, env);
    }
}

/// More written temps keep an environment's temps written.
proof fn lemma_env_written_grows(env: Env, d: Set<nat>, d2: Set<nat>)
    requires
        env_written(env, d),
        d.subset_of(d2),
    ensures
        env_written(env, d2),
{
}

/// Binding a written temp keeps an environment's temps written.
proof fn lemma_env_written_bind(outer: Env, cur: Frame, name: Seq<char>, t: nat, d: Set<nat>)
    requires
        env_written(outer.push(cur), d),
        d.contains(t),
    ensures
        env_written(outer.push(cur.push((name, t))), d),
{
    let env = outer.push(cur);
    let env2 = outer.push(cur.push((name, t)));
    assert forall|k: int, j: int| 0 <= k < env2.len() && 0 <= j < env2[k].len() implies d.contains(
        #[trigger] env2[k][j].1,
    ) by {
        if k < outer.len() {
            assert(env2[k] == env[k]);
        } else if j < cur.len() {
            assert(env2[k][j] == env[k][j]);
        }
    }
}

/// Lowering `e`, with every variable it uses bound and every bound temp written,
/// reads only temps written before it reads them, and its value's temp is written by
/// the time it ends: every temp is written before it is ever read.
pub proof fn lemma_lowering_writes_before_reads(e: ExprV, env: Env, next: nat, d: Set<nat>)
    requires
        vars_bound(e, env_names(env)),
        env_written(env, d),
    ensures
        reads_written(lower_spec(e, env, next).0, d),
        after(lower_spec(e, env, next).0, d).contains(lower_spec(e, env, next).1),
    decreases e, 1int, 0int,
{
    match e {
        ExprV::Number(value) => {
            lemma_single(InstrV::Const { dst: next, value }, d);
        },
        ExprV::Var(name) => {
            lemma_env_lookup(env, name);
            lemma_lookup_written(env, name, d);
        },
        ExprV::BinOp(l, op, r) => {
            let a = lower_spec(*l, env, next);
            let d1 = after(a.0, d);
            let b = lower_spec(*r, env, a.2);
            let d2 = after(b.0, d1);
            let i = op_instr(op, b.2, a.1, b.1);
            lemma_lowering_writes_before_reads(*l, env, next, d);
            lemma_after_grows(a.0, d);
            lemma_env_written_grows(env, d, d1);
            lemma_lowering_writes_before_reads(*r, env, a.2, d1);
            lemma_after_grows(b.0, d1);
            assert(instr_reads_written(i, d2)) by {
                match spec_builtin_for(op) {
                    Some(_) => {
                        assert(d2.contains(a.1));
                    },
                    None => {},
                }
            }
            lemma_single(i, d2);
            lemma_reads_add(a.0, b.0, d);
            lemma_after_add(a.0, b.0, d);
            lemma_reads_add(a.0 + b.0, seq![i], d);
            lemma_after_add(a.0 + b.0, seq![i], d);
        },
        ExprV::If { cond, then_branch, else_branch } => {
            let c = lower_spec(*cond, env, next);
            let dst = c.2;
            let d1 = after(c.0, d);
            let t = lower_spec(*then_branch, env, dst + 1);
            let f = lower_spec(*else_branch, env, t.2);
            let tc = InstrV::Copy { dst, src: t.1 };
            let fc = InstrV::Copy { dst, src: f.1 };
            let i = InstrV::If {
                dst,
                cond: c.1,
                then_block: t.0.push(tc),
                else_block: f.0.push(fc),
            };
            lemma_lowering_writes_before_reads(*cond, env, next, d);
            lemma_after_grows(c.0, d);
            lemma_env_written_grows(env, d, d1);
            lemma_lowering_writes_before_reads(*then_branch, env, dst + 1, d1);
            lemma_lowering_writes_before_reads(*else_branch, env, t.2, d1);
            assert(t.0.push(tc).drop_last() =~= t.0);
            assert(f.0.push(fc).drop_last() =~= f.0);
            lemma_push_copy(t.0, dst, t.1, d1);
            lemma_push_copy(f.0, dst, f.1, d1);
            assert(instr_reads_written(i, d1));
            lemma_single(i, d1);
            lemma_reads_add(c.0, seq![i], d);
            lemma_after_add(c.0, seq![i], d);
        },
        ExprV::Block { .. } => {
            assert(frame_names(Seq::empty()) =~= Seq::<Seq<char>>::empty());
            assert(env_written(env.push(Seq::empty()), d)) by {
                let e2 = env.push(Seq::<(Seq<char>, nat)>::empty());
                assert forall|k: int, j: int| 0 <= k < e2.len() && 0 <= j < e2[k].len() implies d.contains(
                    #[trigger] e2[k][j].1,
                ) by {
                    assert(e2[k] == env[k]);
                }
            }
            lemma_lowering_block_writes_before_reads(e, 0, env, Seq::empty(), next, d);
        },
    }
}

/// The block part of [`lemma_lowering_writes_before_reads`].
pub proof fn lemma_lowering_block_writes_before_reads(
    block: ExprV,
    i: int,
    outer: Env,
    cur: Frame,
    next: nat,
    d: Set<nat>,
)
    requires
        0 <= i,
        block is Block,
        block_vars_bound(block, i, env_names(outer), frame_names(cur)),
        env_written(outer.push(cur), d),
    ensures
        reads_written(lower_block_spec(block, i, outer, cur, next).0, d),
        after(lower_block_spec(block, i, outer, cur, next).0, d).contains(
            lower_block_spec(block, i, outer, cur, next).1,
        ),
    decreases block, 0int, (if block is Block { block->stmts.len() - i } else { 0 }),
{
    match block {
        ExprV::Block { stmts, result } => {
            let env = outer.push(cur);
            lemma_env_names_push(outer, cur);
            if i >= stmts.len() {
                lemma_lowering_writes_before_reads(*result, env, next, d);
            } else {
                match stmts[i] {
                    StmtV::Let { name, value } => {
                        let v = lower_spec(value, env, next);
                        let d1 = after(v.0, d);
                        let cur2 = cur.push((name, v.1));
                        let rest = lower_block_spec(block, i + 1, outer, cur2, v.2);
                        lemma_lowering_writes_before_reads(value, env, next, d);
                        lemma_after_grows(v.0, d);
                        lemma_env_written_grows(env, d, d1);
                        lemma_env_written_bind(outer, cur, name, v.1, d1);
                        assert(frame_names(cur2) =~= frame_names(cur).push(name));
                        lemma_lowering_block_writes_before_reads(block, i + 1, outer, cur2, v.2, d1);
                        lemma_reads_add(v.0, rest.0, d);
                        lemma_after_add(v.0, rest.0, d);
                        assert(after(rest.0, d1).contains(rest.1));
                        assert(lower_block_spec(block, i, outer, cur, next).0 == v.0 + rest.0);
                        assert(lower_block_spec(block, i, outer, cur, next).1 == rest.1);
                    },
                    StmtV::Print(value) => {
                        let v = lower_spec(value, env, next);
                        let d1 = after(v.0, d);
                        let dst = v.2;
                        let call = InstrV::CallBuiltin { dst, name: "print"@, args: seq![v.1] };
                        let d2 = d1.insert(dst);
                        let rest = lower_block_spec(block, i + 1, outer, cur, dst + 1);
                        lemma_lowering_writes_before_reads(value, env, next, d);
                        lemma_after_grows(v.0, d);
                        lemma_single(call, d1);
                        lemma_env_written_grows(env, d, d2);
                        lemma_lowering_block_writes_before_reads(block, i + 1, outer, cur, dst + 1, d2);
                        lemma_reads_add(v.0, seq![call], d);
                        lemma_after_add(v.0, seq![call], d);
                        lemma_reads_add(v.0 + seq![call], rest.0, d);
                        lemma_after_add(v.0 + seq![call], rest.0, d);
                        assert(after(v.0 + seq![call], d) == d2);
                        assert(after(rest.0, d2).contains(rest.1));
                    },
                }
            }
        },
        _ => {},
    }
}

/// A lowered program is roughly SSA: its instructions define the temps `0, 1, ...`
/// each exactly once, in order; a copy only ever writes the result of the `If`
/// whose branch it ends; and run from the start, every temp it reads has been
/// written before, its result included.
pub proof fn lemma_lowered_program_is_well_formed(e: ExprV)
    requires
        vars_bound(e, Seq::empty()),
    ensures
        defs(lower_spec(e, Seq::empty(), 0).0) == range_seq(0, temp_count(e)),
        copies_into(lower_spec(e, Seq::empty(), 0).0, None),
        reads_written(lower_spec(e, Seq::empty(), 0).0, Set::empty()),
        after(lower_spec(e, Seq::empty(), 0).0, Set::empty()).contains(
            lower_spec(e, Seq::empty(), 0).1,
        ),
{
    lemma_lowering_defines_each_temp_once(e, Seq::empty(), 0);
    lemma_lowering_copies_only_into_if_results(e, Seq::empty(), 0);
    assert(env_names(Seq::<Frame>::empty()) =~= Seq::<Seq<Seq<char>>>::empty());
    lemma_lowering_writes_before_reads(e, Seq::empty(), 0, Set::empty());
}

} // verus!
