//! What a compiled program needs at run time, decided at build time: which
//! built-ins it calls, whether each IPC built-in's command is well-formed and what
//! to check of it on the build machine, and the notes that tell the user what the
//! executable will need where it runs. Only built-ins the program actually calls
//! count, found by walking its IR.

use vstd::prelude::*;

use crate::builtins::{
    command_uses_bundle, fill_bundle, lookup, refers_to_bundle, spec_ipc_command, spec_lookup,
    spec_requirement_text, spec_runtime_requirements, BindingKind, Builtin, IpcCommand,
    ResolvedCommand, RuntimeRequirement,
};
use crate::ast::{ExprV, StmtV};
use crate::ir::{instrs_view, Block, Instr, InstrV, Program};
use crate::lower::{lower_block_spec, lower_spec, op_instr, spec_builtin_for, Env, Frame};
use crate::backend::names_view;
use crate::bundle_format::BundleFile;
use crate::text::{chars_of, decimal, join, spec_decimal, str_eq};

verus! {

/// The built-in names `block` calls, in order, the `then` block of each `If` before
/// its `else` block.
pub open spec fn call_names(block: Seq<InstrV>) -> Seq<Seq<char>>
    decreases block,
{
    if block.len() == 0 {
        Seq::empty()
    } else {
        call_names(block.drop_last()) + instr_calls(block.last())
    }
}

/// The built-in names one instruction calls.
pub open spec fn instr_calls(i: InstrV) -> Seq<Seq<char>>
    decreases i,
{
    match i {
        InstrV::CallBuiltin { name, .. } => seq![name],
        InstrV::If { then_block, else_block, .. } => call_names(then_block) + call_names(
            else_block,
        ),
        _ => Seq::empty(),
    }
}

/// `acc`, then each name of `names` not already there, in order.
pub open spec fn dedup_into(acc: Seq<Seq<char>>, names: Seq<Seq<char>>) -> Seq<Seq<char>>
    decreases names.len(),
{
    if names.len() == 0 {
        acc
    } else {
        let d = dedup_into(acc, names.drop_last());
        if d.contains(names.last()) {
            d
        } else {
            d.push(names.last())
        }
    }
}

/// The call names of a concatenation are the concatenation of the call names.
pub proof fn lemma_call_names_add(a: Seq<InstrV>, b: Seq<InstrV>)
    ensures
        call_names(a + b) == call_names(a) + call_names(b),
    decreases b.len(),
{
    if b.len() == 0 {
        assert(a + b =~= a);
        assert(call_names(b) =~= Seq::<Seq<char>>::empty());
        assert(call_names(a) + call_names(b) =~= call_names(a));
    } else {
        lemma_call_names_add(a, b.drop_last());
        assert((a + b).drop_last() =~= a + b.drop_last());
        assert((a + b).last() == b.last());
        assert(call_names(a) + call_names(b.drop_last()) + instr_calls(b.last()) =~= call_names(a)
            + (call_names(b.drop_last()) + instr_calls(b.last())));
    }
}

/// Adding names in two runs adds them in one.
pub proof fn lemma_dedup_into_add(acc: Seq<Seq<char>>, a: Seq<Seq<char>>, b: Seq<Seq<char>>)
    ensures
        dedup_into(acc, a + b) == dedup_into(dedup_into(acc, a), b),
    decreases b.len(),
{
    if b.len() == 0 {
        assert(a + b =~= a);
    } else {
        lemma_dedup_into_add(acc, a, b.drop_last());
        assert((a + b).drop_last() =~= a + b.drop_last());
        assert((a + b).last() == b.last());
    }
}

/// Some name of `names` before position `m` is `x`.
pub open spec fn used_before(names: Seq<Seq<char>>, x: Seq<char>, m: int) -> bool {
    exists|k: int| 0 <= k < m && names[k] == x
}

/// Each name once, in first-use order: the names [`dedup_into`] keeps of `names`
/// hold no name twice, hold a name exactly when `names` does, and list one name
/// before another exactly when its first use comes first: wherever the later one
/// is used, the earlier one was used before.
pub proof fn lemma_each_name_once_in_first_use_order(names: Seq<Seq<char>>)
    ensures
        forall|i: int, j: int|
            0 <= i < j < dedup_into(Seq::empty(), names).len() ==> dedup_into(Seq::empty(), names)[i]
                != dedup_into(Seq::empty(), names)[j],
        forall|x: Seq<char>| #[trigger]
            dedup_into(Seq::empty(), names).contains(x) <==> names.contains(x),
        forall|i: int, j: int, m: int|
            #![trigger dedup_into(Seq::empty(), names)[i], dedup_into(Seq::empty(), names)[j], names[m]]
            0 <= i < j < dedup_into(Seq::empty(), names).len() && 0 <= m < names.len() && names[m]
                == dedup_into(Seq::empty(), names)[j] ==> used_before(
                names,
                dedup_into(Seq::empty(), names)[i],
                m,
            ),
    decreases names.len(),
{
    let d = dedup_into(Seq::empty(), names);
    if names.len() > 0 {
        let pre = names.drop_last();
        let x = names.last();
        let e = dedup_into(Seq::empty(), pre);
        lemma_each_name_once_in_first_use_order(pre);
        assert(names =~= pre.push(x));
        assert forall|y: Seq<char>| #[trigger] names.contains(y) <==> pre.contains(y) || y == x by {
            if names.contains(y) {
                let k = choose|k: int| 0 <= k < names.len() && names[k] == y;
                if k < pre.len() {
                    assert(pre[k] == y);
                }
            }
            if pre.contains(y) {
                let k = choose|k: int| 0 <= k < pre.len() && pre[k] == y;
                assert(names[k] == y);
            }
            if y == x {
                assert(names[names.len() - 1] == y);
            }
        }
        if e.contains(x) {
            assert(d == e);
            assert forall|i: int, j: int, m: int|
                #![trigger d[i], d[j], names[m]]
                0 <= i < j < d.len() && 0 <= m < names.len() && names[m] == d[j]
                    implies used_before(names, d[i], m) by {
                if m == names.len() - 1 {
                    assert(pre.contains(d[j]));
                    let m2 = choose|m2: int| 0 <= m2 < pre.len() && pre[m2] == d[j];
                    assert(names[m2] == d[j]);
                    assert(pre[m2] == e[j]);
                    let k = choose|k: int| 0 <= k < m2 && pre[k] == e[i];
                    assert(names[k] == d[i]);
                } else {
                    assert(pre[m] == d[j]);
                    let k = choose|k: int| 0 <= k < m && pre[k] == e[i];
                    assert(names[k] == d[i]);
                }
            }
        } else {
            assert(d == e.push(x));
            assert(!pre.contains(x));
            assert forall|y: Seq<char>| #[trigger] d.contains(y) <==> names.contains(y) by {
                if d.contains(y) {
                    let k = choose|k: int| 0 <= k < d.len() && d[k] == y;
                    if k < e.len() {
                        assert(e[k] == y);
                    }
                }
                if e.contains(y) {
                    let k = choose|k: int| 0 <= k < e.len() && e[k] == y;
                    assert(d[k] == y);
                }
                if y == x {
                    assert(d[e.len() as int] == y);
                }
            }
            assert forall|i: int, j: int| 0 <= i < j < d.len() implies d[i] != d[j] by {
                if j == e.len() {
                    assert(e.contains(d[i]));
                } else {
                    assert(d[i] == e[i] && d[j] == e[j]);
                }
            }
            assert forall|i: int, j: int, m: int|
                #![trigger d[i], d[j], names[m]]
                0 <= i < j < d.len() && 0 <= m < names.len() && names[m] == d[j]
                    implies used_before(names, d[i], m) by {
                assert(d[i] == e[i]);
                if j == e.len() {
                    assert(e.contains(e[i]));
                    assert(pre.contains(e[i]));
                    let k = choose|k: int| 0 <= k < pre.len() && pre[k] == e[i];
                    assert(names[k] == d[i]);
                    if m < pre.len() {
                        assert(pre[m] == x);
                    }
                } else {
                    assert(d[j] == e[j]);
                    if m == names.len() - 1 {
                        assert(e.contains(e[j]));
                    } else {
                        assert(pre[m] == d[j]);
                        let k = choose|k: int| 0 <= k < m && pre[k] == e[i];
                        assert(names[k] == d[i]);
                    }
                }
            }
        }
    }
}

/// Every one of `names` is a built-in of the manifest.
pub open spec fn names_known(names: Seq<Seq<char>>) -> bool {
    forall|k: int| 0 <= k < names.len() ==> spec_lookup(#[trigger] names[k]) is Some
}

/// Every built-in `block` calls is in the manifest.
pub open spec fn calls_known(block: Seq<InstrV>) -> bool {
    names_known(call_names(block))
}

/// The names of a concatenation are known exactly when both parts' are.
pub proof fn lemma_names_known_add(a: Seq<Seq<char>>, b: Seq<Seq<char>>)
    ensures
        names_known(a + b) <==> names_known(a) && names_known(b),
{
    if names_known(a + b) {
        assert forall|k: int| 0 <= k < b.len() implies spec_lookup(#[trigger] b[k]) is Some by {
            assert((a + b)[a.len() + k] == b[k]);
        }
        assert forall|k: int| 0 <= k < a.len() implies spec_lookup(#[trigger] a[k]) is Some by {
            assert((a + b)[k] == a[k]);
        }
    }
}

/// The names instruction `k` of `block` calls, when all its calls are known, are
/// known, and they follow those of the instructions before it.
proof fn lemma_instr_calls(block: Seq<InstrV>, k: int)
    requires
        0 <= k < block.len(),
    ensures
        call_names(block.take(k + 1)) == call_names(block.take(k)) + instr_calls(block[k]),
        calls_known(block) ==> names_known(instr_calls(block[k])),
{
    assert(block.take(k + 1).drop_last() =~= block.take(k));
    lemma_call_names_add(block.take(k + 1), block.skip(k + 1));
    assert(block.take(k + 1) + block.skip(k + 1) =~= block);
    lemma_names_known_add(call_names(block.take(k + 1)), call_names(block.skip(k + 1)));
    lemma_names_known_add(call_names(block.take(k)), instr_calls(block[k]));
}

/// The names of a list of built-ins.
pub open spec fn builtin_names(bs: Seq<&'static Builtin>) -> Seq<Seq<char>> {
    bs.map_values(|b: &'static Builtin| b.name@)
}

/// Each of `bs` is the manifest's entry for its own name.
pub open spec fn manifest_entries(bs: Seq<&'static Builtin>) -> bool {
    forall|k: int| 0 <= k < bs.len() ==> spec_lookup((#[trigger] bs[k]).name@) == Some(*bs[k])
}

fn contains_builtin(found: &Vec<&'static Builtin>, name: &str) -> (r: bool)
    ensures
        r == builtin_names(found@).contains(name@),
{
    let ghost names = builtin_names(found@);
    let mut k: usize = 0;
    while k < found.len()
        invariant
            k <= found@.len(),
            names == builtin_names(found@),
            forall|j: int| 0 <= j < k ==> names[j] != name@,
        decreases found@.len() - k,
    {
        if str_eq(found[k].name, name) {
            assert(names[k as int] == name@);
            return true;
        }
        k = k + 1;
    }
    false
}

fn walk(block: &Block, found: &mut Vec<&'static Builtin>)
    requires
        calls_known(block@),
        manifest_entries(old(found)@),
    ensures
        builtin_names(final(found)@) == dedup_into(builtin_names(old(found)@), call_names(block@)),
        manifest_entries(final(found)@),
    decreases block,
{
    let ghost bv = block@;
    let ghost start = builtin_names(found@);
    let mut k: usize = 0;
    while k < block.0.len()
        invariant
            bv == block@,
            bv == instrs_view(block.0@),
            calls_known(bv),
            k <= block.0@.len(),
            manifest_entries(found@),
            builtin_names(found@) == dedup_into(start, call_names(bv.take(k as int))),
        decreases block.0@.len() - k,
    {
        let ghost before = builtin_names(found@);
        let ghost ic = instr_calls(bv[k as int]);
        proof {
            lemma_instr_calls(bv, k as int);
            lemma_dedup_into_add(start, call_names(bv.take(k as int)), ic);
        }
        assert(bv[k as int] == block.0@[k as int]@);
        match &block.0[k] {
            Instr::CallBuiltin { name, .. } => {
                assert(ic =~= seq![name@]);
                assert(ic[0] == name@);
                let builtin = lookup(name.as_str()).unwrap();
                proof {
                    crate::builtins::lemma_lookup_in_name(crate::builtins::spec_builtins(), name@);
                }
                assert(ic.drop_last() =~= Seq::<Seq<char>>::empty());
                assert(dedup_into(before, ic.drop_last()) == before);
                assert(builtin.name@ == name@);
                if !contains_builtin(found, builtin.name) {
                    found.push(builtin);
                    assert(builtin_names(found@) =~= before.push(name@));
                }
                assert(builtin_names(found@) == dedup_into(before, ic));
            },
            Instr::If { dst, cond, then_block, else_block } => {
                proof {
                    crate::ir::lemma_if_view(*dst, *cond, *then_block, *else_block);
                    lemma_names_known_add(call_names(then_block@), call_names(else_block@));
                    assert(*then_block == block.0@[k as int]->then_block);
                    assert(*else_block == block.0@[k as int]->else_block);
                    assert(decreases_to!(*block => block.0));
                    assert(decreases_to!(block.0 => block.0@));
                    assert(decreases_to!(block.0@ => block.0@[k as int]));
                    assert(decreases_to!(block.0@[k as int] => block.0@[k as int]->then_block));
                    assert(decreases_to!(block.0@[k as int] => block.0@[k as int]->else_block));
                }
                walk(then_block, found);
                walk(else_block, found);
                proof {
                    lemma_dedup_into_add(before, call_names(then_block@), call_names(else_block@));
                }
                assert(ic == call_names(then_block@) + call_names(else_block@));
                assert(builtin_names(found@) == dedup_into(before, ic));
            },
            _ => {
                assert(ic =~= Seq::<Seq<char>>::empty());
                assert(builtin_names(found@) == dedup_into(before, ic));
            },
        }
        k = k + 1;
    }
    assert(bv.take(bv.len() as int) =~= bv);
}

/// The built-ins `program` calls, each once, in the order of first use. Lowering
/// emits only built-ins the manifest declares.
pub fn used_builtins(program: &Program) -> (r: Vec<&'static Builtin>)
    requires
        calls_known(program.body@),
    ensures
        builtin_names(r@) == dedup_into(Seq::empty(), call_names(program.body@)),
        manifest_entries(r@),
{
    let mut found: Vec<&'static Builtin> = Vec::new();
    assert(builtin_names(found@) =~= Seq::<Seq<char>>::empty());
    walk(&program.body, &mut found);
    found
}

/// The built-ins lowering calls are in the manifest.
proof fn lemma_lowering_builtins_known()
    ensures
        spec_lookup("add"@) is Some,
        spec_lookup("mul"@) is Some,
        spec_lookup("sub"@) is Some,
        spec_lookup("print"@) is Some,
{
    reveal_strlit("add");
    reveal_strlit("mul");
    reveal_strlit("sub");
    reveal_strlit("print");
    reveal_with_fuel(crate::builtins::spec_lookup_in, 5);
    let t = crate::builtins::spec_builtins();
    assert(t.skip(1).skip(1).skip(1)[0] == t[3]);
    assert(t.skip(1).skip(1)[0] == t[2]);
    assert(t.skip(1)[0] == t[1]);
}

/// A one-instruction block calls what the instruction calls.
proof fn lemma_call_names_single(i: InstrV)
    ensures
        call_names(seq![i]) == instr_calls(i),
{
    assert(seq![i].drop_last() =~= Seq::<InstrV>::empty());
    assert(call_names(Seq::<InstrV>::empty()) + instr_calls(i) =~= instr_calls(i));
}

/// The instruction for an operator calls a manifest built-in, if any.
proof fn lemma_op_instr_known(op: crate::ast::BinOp, dst: nat, lhs: nat, rhs: nat)
    ensures
        names_known(instr_calls(op_instr(op, dst, lhs, rhs))),
{
    lemma_lowering_builtins_known();
    match spec_builtin_for(op) {
        Some(name) => {
            assert(instr_calls(op_instr(op, dst, lhs, rhs)) =~= seq![name]);
        },
        None => {
            assert(instr_calls(op_instr(op, dst, lhs, rhs)) =~= Seq::<Seq<char>>::empty());
        },
    }
}

/// Adding a `Copy` calls nothing more.
proof fn lemma_call_names_copy(b: Seq<InstrV>, dst: nat, src: nat)
    ensures
        call_names(b.push(InstrV::Copy { dst, src })) == call_names(b),
{
    let c = InstrV::Copy { dst, src };
    assert(b.push(c).drop_last() =~= b);
    assert(b.push(c).last() == c);
    assert(b.push(c).len() > 0);
    assert(instr_calls(c) =~= Seq::<Seq<char>>::empty());
    assert(call_names(b.push(c)) == call_names(b.push(c).drop_last()) + instr_calls(b.push(c).last()));
    assert(call_names(b) + Seq::<Seq<char>>::empty() =~= call_names(b));
}

/// Lowering an expression emits calls of manifest built-ins only.
pub proof fn lemma_lowering_calls_known(e: ExprV, env: Env, next: nat)
    ensures
        calls_known(lower_spec(e, env, next).0),
    decreases e, 1int, 0int,
{
    lemma_lowering_builtins_known();
    match e {
        ExprV::Number(value) => {
            lemma_call_names_single(InstrV::Const { dst: next, value });
            assert(instr_calls(InstrV::Const { dst: next, value }) =~= Seq::<Seq<char>>::empty());
        },
        ExprV::Var(_) => {
            assert(call_names(Seq::<InstrV>::empty()) =~= Seq::<Seq<char>>::empty());
        },
        ExprV::BinOp(l, op, r) => {
            let a = lower_spec(*l, env, next);
            let b = lower_spec(*r, env, a.2);
            let i = op_instr(op, b.2, a.1, b.1);
            lemma_lowering_calls_known(*l, env, next);
            lemma_lowering_calls_known(*r, env, a.2);
            lemma_op_instr_known(op, b.2, a.1, b.1);
            lemma_call_names_single(i);
            lemma_call_names_add(a.0, b.0);
            lemma_call_names_add(a.0 + b.0, seq![i]);
            lemma_names_known_add(call_names(a.0), call_names(b.0));
            lemma_names_known_add(call_names(a.0 + b.0), call_names(seq![i]));
        },
        ExprV::If { cond, then_branch, else_branch } => {
            let c = lower_spec(*cond, env, next);
            let dst = c.2;
            let t = lower_spec(*then_branch, env, dst + 1);
            let f = lower_spec(*else_branch, env, t.2);
            let i = InstrV::If {
                dst,
                cond: c.1,
                then_block: t.0.push(InstrV::Copy { dst, src: t.1 }),
                else_block: f.0.push(InstrV::Copy { dst, src: f.1 }),
            };
            lemma_lowering_calls_known(*cond, env, next);
            lemma_lowering_calls_known(*then_branch, env, dst + 1);
            lemma_lowering_calls_known(*else_branch, env, t.2);
            lemma_call_names_copy(t.0, dst, t.1);
            lemma_call_names_copy(f.0, dst, f.1);
            lemma_names_known_add(call_names(t.0), call_names(f.0));
            lemma_call_names_single(i);
            lemma_call_names_add(c.0, seq![i]);
            lemma_names_known_add(call_names(c.0), call_names(seq![i]));
        },
        ExprV::Block { .. } => {
            lemma_lowering_block_calls_known(e, 0, env, Seq::empty(), next);
        },
    }
}

/// The block part of [`lemma_lowering_calls_known`].
pub proof fn lemma_lowering_block_calls_known(block: ExprV, i: int, outer: Env, cur: Frame, next: nat)
    requires
        0 <= i,
    ensures
        calls_known(lower_block_spec(block, i, outer, cur, next).0),
    decreases block, 0int, (if block is Block { block->stmts.len() - i } else { 0 }),
{
    lemma_lowering_builtins_known();
    match block {
        ExprV::Block { stmts, result } => {
            let env = outer.push(cur);
            if i >= stmts.len() {
                lemma_lowering_calls_known(*result, env, next);
            } else {
                match stmts[i] {
                    StmtV::Let { name, value } => {
                        let v = lower_spec(value, env, next);
                        let rest = lower_block_spec(block, i + 1, outer, cur.push((name, v.1)), v.2);
                        lemma_lowering_calls_known(value, env, next);
                        lemma_lowering_block_calls_known(block, i + 1, outer, cur.push((name, v.1)), v.2);
                        lemma_call_names_add(v.0, rest.0);
                        lemma_names_known_add(call_names(v.0), call_names(rest.0));
                    },
                    StmtV::Print(value) => {
                        let v = lower_spec(value, env, next);
                        let dst = v.2;
                        let call = InstrV::CallBuiltin { dst, name: "print"@, args: seq![v.1] };
                        let rest = lower_block_spec(block, i + 1, outer, cur, dst + 1);
                        lemma_lowering_calls_known(value, env, next);
                        lemma_lowering_block_calls_known(block, i + 1, outer, cur, dst + 1);
                        lemma_call_names_single(call);
                        assert(instr_calls(call) =~= seq!["print"@]);
                        lemma_call_names_add(v.0, seq![call]);
                        lemma_call_names_add(v.0 + seq![call], rest.0);
                        lemma_names_known_add(call_names(v.0), call_names(seq![call]));
                        lemma_names_known_add(call_names(v.0 + seq![call]), call_names(rest.0));
                    },
                }
            }
        },
        _ => {
            assert(call_names(Seq::<InstrV>::empty()) =~= Seq::<Seq<char>>::empty());
        },
    }
}

/// The result of preparing a program's run-time dependencies.
#[derive(Debug)]
pub struct Prepared {
    /// Every used IPC built-in's bundle, packed, for the link driver to embed.
    pub bundles: Vec<u8>,
    /// One line per run-time requirement, naming the built-in it is for.
    pub notes: Vec<String>,
}

/// What to check of an IPC built-in's command on the build machine.
pub struct CommandCheck {
    /// The command for the build's platform.
    pub command: &'static IpcCommand,
    /// The command with the bundle directory filled in.
    pub resolved: ResolvedCommand,
    /// The program runs from the bundle, so it must be a file there.
    pub must_exist: bool,
    /// The probe's arguments, and the probe as shown in messages.
    pub probe: Option<(&'static [&'static str], String)>,
}

/// The bundle an IPC built-in declares.
pub open spec fn declared_bundle(b: Builtin) -> Option<&'static str> {
    match b.kind {
        BindingKind::Ipc { bundle, .. } => bundle,
        _ => None,
    }
}

/// Why built-in `b`'s command for `family` is not well-formed, if it is not: there
/// is none, or it refers to `{bundle}` other than exactly when the built-in declares
/// a bundle.
pub open spec fn command_error(b: Builtin, family: Seq<char>) -> Option<Seq<char>> {
    match spec_ipc_command(b, family) {
        None => Some("built-in `"@ + b.name@ + "` declares no "@ + family + " command"@),
        Some(c) => match (command_uses_bundle(c), declared_bundle(b)) {
            (true, None) => Some(
                "built-in `"@ + b.name@ + "`'s "@ + family
                    + " command refers to {bundle}, but the built-in declares no bundle"@,
            ),
            (false, Some(bundle)) => Some(
                "built-in `"@ + b.name@ + "` declares bundle `"@ + bundle@ + "`, but its "@ + family
                    + " command never refers to {bundle}"@,
            ),
            _ => None,
        },
    }
}

/// The probe of command `c` as shown in messages: the program, then its arguments,
/// separated by spaces.
pub open spec fn shown_probe(c: IpcCommand, probe: Seq<&'static str>) -> Seq<char> {
    join(seq![c.program@] + names_view(probe), " "@)
}

/// Confirms `builtin`'s command for `family` is well-formed, and says what to check
/// of it on this machine: with `bundle_dir` (the bundle's directory, if the built-in
/// has one) filled in, whether its program must exist inside the bundle, and which
/// probe to run.
pub fn plan_check(builtin: &Builtin, family: &str, bundle_dir: Option<&str>) -> (r: Result<CommandCheck, String>)
    ensures
        match command_error(*builtin, family@) {
            Some(msg) => r matches Err(m) && m@ == msg,
            None => r matches Ok(check) && {
                let dir = match bundle_dir {
                    Some(d) => d@,
                    None => Seq::<char>::empty(),
                };
                &&& spec_ipc_command(*builtin, family@) == Some(*check.command)
                &&& check.resolved.program@ == fill_bundle(check.command.program, dir)
                &&& check.resolved.args@.len() == check.command.args@.len()
                &&& (forall|i: int|
                    0 <= i < check.command.args@.len() ==> (#[trigger] check.resolved.args@[i])@
                        == fill_bundle(check.command.args@[i], dir))
                &&& check.resolved.env@.len() == check.command.env@.len()
                &&& (forall|i: int|
                    0 <= i < check.command.env@.len() ==> (#[trigger] check.resolved.env@[i]).0@
                        == check.command.env@[i].0@ && check.resolved.env@[i].1@ == fill_bundle(
                        check.command.env@[i].1,
                        dir,
                    ))
                &&& check.must_exist == refers_to_bundle(check.command.program)
                &&& match check.command.probe {
                    None => check.probe is None,
                    Some(p) => check.probe matches Some((q, shown)) && q == p && shown@
                        == shown_probe(*check.command, p@),
                }
            },
        },
{
    let command = match builtin.ipc_command(family) {
        Some(c) => c,
        None => {
            let mut msg = "built-in `".to_owned();
            msg.append(builtin.name);
            msg.append("` declares no ");
            msg.append(family);
            msg.append(" command");
            return Err(msg);
        },
    };
    let bundle = match builtin.kind {
        BindingKind::Ipc { bundle, .. } => bundle,
        _ => None,
    };
    let uses = command.uses_bundle();
    if uses && bundle.is_none() {
        let mut msg = "built-in `".to_owned();
        msg.append(builtin.name);
        msg.append("`'s ");
        msg.append(family);
        msg.append(" command refers to {bundle}, but the built-in declares no bundle");
        return Err(msg);
    }
    if !uses {
        if let Some(name) = bundle {
            let mut msg = "built-in `".to_owned();
            msg.append(builtin.name);
            msg.append("` declares bundle `");
            msg.append(name);
            msg.append("`, but its ");
            msg.append(family);
            msg.append(" command never refers to {bundle}");
            return Err(msg);
        }
    }
    let dir = match bundle_dir {
        Some(d) => d,
        None => "",
    };
    proof {
        reveal_strlit("");
    }
    let resolved = command.resolve(dir);
    let must_exist = command.runs_from_bundle();
    let probe = match command.probe {
        None => None,
        Some(p) => {
            let ghost words = seq![command.program@] + names_view(p@);
            let mut shown = command.program.to_owned();
            let mut k: usize = 0;
            assert(words.take(1) =~= seq![command.program@]);
            while k < p.len()
                invariant
                    k <= p@.len(),
                    words == seq![command.program@] + names_view(p@),
                    shown@ == join(words.take(k + 1), " "@),
                decreases p@.len() - k,
            {
                shown.append(" ");
                shown.append(p[k]);
                assert(words.take(k + 2).drop_last() =~= words.take(k + 1));
                assert(words.take(k + 2).last() == p@[k as int]@);
                k = k + 1;
            }
            assert(words.take(p@.len() as int + 1) =~= words);
            Some((p, shown))
        },
    };
    assert(command_uses_bundle(*command) == uses);
    assert(declared_bundle(*builtin) == bundle);
    assert(command_error(*builtin, family@) is None);
    let check = CommandCheck { command, resolved, must_exist, probe };
    assert(check.resolved.program@ == fill_bundle(check.command.program, dir@));
    assert(check.must_exist == refers_to_bundle(check.command.program));
    assert(dir@ == (match bundle_dir {
        Some(d) => d@,
        None => Seq::<char>::empty(),
    }));
    assert(match check.command.probe {
        None => check.probe is None,
        Some(p) => check.probe matches Some((q, shown)) && q == p && shown@ == shown_probe(
            *check.command,
            p@,
        ),
    });
    Ok(check)
}

/// The message for a built-in whose program should be inside its bundle but is not.
pub fn missing_program(builtin: &Builtin, program: &str) -> (s: String)
    ensures
        s@ == missing_text(*builtin, program@),
{
    let mut s = "built-in `".to_owned();
    s.append(builtin.name);
    s.append("` runs `");
    s.append(program);
    s.append("`, which isn't in its bundle");
    s
}

/// How running a command's probe went.
pub enum ProbeOutcome {
    /// It exited 0.
    Succeeded,
    /// It exited otherwise: the exit status as shown, and its standard error, trimmed.
    Exited { status: String, stderr: String },
    /// It could not be started: the error as shown.
    NotStarted(String),
}

/// What a failed probe's outcome says.
pub open spec fn failure_text(outcome: ProbeOutcome) -> Seq<char> {
    match outcome {
        ProbeOutcome::Exited { status, stderr } => "it exited with "@ + status@ + ": "@ + stderr@,
        ProbeOutcome::NotStarted(err) => "it couldn't be started: "@ + err@,
        ProbeOutcome::Succeeded => Seq::empty(),
    }
}

/// The check's verdict on built-in `builtin`, whose command runs `program` and whose
/// probe, shown as `shown`, had `outcome`: fine if it succeeded, else a message
/// saying what failed and what to do.
pub fn probe_verdict(builtin: &Builtin, program: &str, shown: &str, outcome: &ProbeOutcome) -> (r: Result<(), String>)
    ensures
        match outcome {
            ProbeOutcome::Succeeded => r is Ok,
            _ => r matches Err(m) && m@ == probe_failure_text(*builtin, program@, shown@, *outcome),
        },
{
    let mut failure = String::new();
    match outcome {
        ProbeOutcome::Succeeded => {
            return Ok(());
        },
        ProbeOutcome::Exited { status, stderr } => {
            failure.append("it exited with ");
            failure.append(status.as_str());
            failure.append(": ");
            failure.append(stderr.as_str());
        },
        ProbeOutcome::NotStarted(err) => {
            failure.append("it couldn't be started: ");
            failure.append(err.as_str());
        },
    }
    let mut m = "built-in `".to_owned();
    m.append(builtin.name);
    m.append("` needs `");
    m.append(program);
    m.append("` at run time, but `");
    m.append(shown);
    m.append("` failed on this machine (");
    m.append(failure.as_str());
    m.append("); install it, or change the command in the built-in manifest");
    Err(m)
}

/// The message for built-in `b` whose `program` should be inside its bundle but is
/// not.
pub open spec fn missing_text(b: Builtin, program: Seq<char>) -> Seq<char> {
    "built-in `"@ + b.name@ + "` runs `"@ + program + "`, which isn't in its bundle"@
}

/// The message for built-in `b`, whose command runs `program`, when its probe,
/// shown as `shown`, had `outcome`.
pub open spec fn probe_failure_text(b: Builtin, program: Seq<char>, shown: Seq<char>, outcome: ProbeOutcome) -> Seq<
    char,
> {
    "built-in `"@ + b.name@ + "` needs `"@ + program + "` at run time, but `"@ + shown
        + "` failed on this machine ("@ + failure_text(outcome)
        + "); install it, or change the command in the built-in manifest"@
}

/// What the check of a command does once it knows whether the command's program
/// exists.
pub enum CheckStep {
    /// The check fails with this message; no probe runs.
    Fail(String),
    /// Run the probe: the check's verdict is [`probe_verdict`]'s.
    Probe,
    /// The check passes.
    Pass,
}

/// The decision after looking for `check`'s program (`program_exists`): a program
/// that must be inside the bundle and is not there fails the check before any probe
/// runs; otherwise the probe runs if the command has one, and the check passes if
/// it has none.
pub fn after_lookup(builtin: &Builtin, check: &CommandCheck, program_exists: bool) -> (r: CheckStep)
    ensures
        check.must_exist && !program_exists ==> (r matches CheckStep::Fail(m) && m@ == missing_text(
            *builtin,
            check.resolved.program@,
        )),
        !(check.must_exist && !program_exists) && check.probe is Some ==> r is Probe,
        !(check.must_exist && !program_exists) && check.probe is None ==> r is Pass,
{
    if check.must_exist && !program_exists {
        return CheckStep::Fail(missing_program(builtin, check.resolved.program.as_str()));
    }
    match &check.probe {
        Some(_) => CheckStep::Probe,
        None => CheckStep::Pass,
    }
}

/// The verdict of checking built-in `b`'s command, whose program must or need not
/// be inside the bundle (`must_exist`) and is at `program`, runs `command_program`,
/// and has the probe shown as `probe` if any: `exists` says whether the program was
/// found, `outcome` how the probe went if it ran. This is [`after_lookup`], then
/// [`probe_verdict`] when it says to probe.
pub open spec fn check_verdict(
    b: Builtin,
    must_exist: bool,
    program: Seq<char>,
    command_program: Seq<char>,
    probe: Option<Seq<char>>,
    exists: bool,
    outcome: ProbeOutcome,
) -> Result<(), Seq<char>> {
    if must_exist && !exists {
        Err(missing_text(b, program))
    } else {
        match probe {
            None => Ok(()),
            Some(shown) => match outcome {
                ProbeOutcome::Succeeded => Ok(()),
                _ => Err(probe_failure_text(b, command_program, shown, outcome)),
            },
        }
    }
}

/// A command passes its check exactly when its program is there if it must be
/// inside the bundle, and its probe, if it has one, succeeds; a missing program is
/// reported as missing, whatever the probe would have said.
pub proof fn lemma_check_passes_exactly(
    b: Builtin,
    must_exist: bool,
    program: Seq<char>,
    command_program: Seq<char>,
    probe: Option<Seq<char>>,
    exists: bool,
    outcome: ProbeOutcome,
)
    ensures
        check_verdict(b, must_exist, program, command_program, probe, exists, outcome) is Ok <==> (
        !must_exist || exists) && (probe is None || outcome is Succeeded),
        must_exist && !exists ==> check_verdict(
            b,
            must_exist,
            program,
            command_program,
            probe,
            exists,
            outcome,
        ) == Err::<(), Seq<char>>(missing_text(b, program)),
{
}

/// The note for one run-time requirement of built-in `b`: the requirement, then for
/// the bundle cache how big the bundle is (`files`, `bytes`) when known.
pub open spec fn note_text(b: Builtin, r: RuntimeRequirement, stats: Option<(u64, u64)>) -> Seq<char> {
    let detail = match (r, stats) {
        (RuntimeRequirement::BundleCache(_), Some((files, bytes))) => ": "@ + spec_decimal(
            files as nat,
        ) + " files, "@ + spec_decimal(bytes as nat) + " bytes"@,
        _ => Seq::empty(),
    };
    spec_requirement_text(r) + detail + " (built-in `"@ + b.name@ + "`)"@
}

/// One line per run-time requirement of `builtin` on `family`, naming the built-in;
/// `stats` is its bundle's file count and size, when it has one.
pub fn notes_for(builtin: &Builtin, family: &str, stats: Option<(u64, u64)>) -> (notes: Vec<String>)
    ensures
        notes@.len() == spec_runtime_requirements(*builtin, family@).len(),
        forall|i: int|
            0 <= i < notes@.len() ==> (#[trigger] notes@[i])@ == note_text(
                *builtin,
                spec_runtime_requirements(*builtin, family@)[i],
                stats,
            ),
{
    let requirements = builtin.runtime_requirements(family);
    let mut notes: Vec<String> = Vec::new();
    let mut k: usize = 0;
    while k < requirements.len()
        invariant
            k <= requirements@.len(),
            requirements@ == spec_runtime_requirements(*builtin, family@),
            notes@.len() == k,
            forall|i: int|
                0 <= i < k ==> (#[trigger] notes@[i])@ == note_text(*builtin, requirements@[i], stats),
        decreases requirements@.len() - k,
    {
        let r = requirements[k];
        let mut line = r.to_string();
        match (r, stats) {
            (RuntimeRequirement::BundleCache(_), Some((files, bytes))) => {
                line.append(": ");
                line.append(decimal(files).as_str());
                line.append(" files, ");
                line.append(decimal(bytes).as_str());
                line.append(" bytes");
            },
            _ => {},
        }
        line.append(" (built-in `");
        line.append(builtin.name);
        line.append("`)");
        notes.push(line);
        k = k + 1;
    }
    notes
}

/// `a` sorts before `b`: `str`'s order, character by character, a prefix first.
pub open spec fn str_lt(a: Seq<char>, b: Seq<char>) -> bool
    decreases a.len(),
{
    if a.len() == 0 {
        b.len() > 0
    } else if b.len() == 0 {
        false
    } else if a[0] != b[0] {
        (a[0] as int) < (b[0] as int)
    } else {
        str_lt(a.skip(1), b.skip(1))
    }
}

/// The order is transitive.
pub proof fn lemma_str_lt_transitive(a: Seq<char>, b: Seq<char>, c: Seq<char>)
    requires
        str_lt(a, b),
        str_lt(b, c),
    ensures
        str_lt(a, c),
    decreases a.len(),
{
    if a.len() > 0 && b.len() > 0 && c.len() > 0 && a[0] == b[0] && b[0] == c[0] {
        lemma_str_lt_transitive(a.skip(1), b.skip(1), c.skip(1));
    }
}

/// The order is irreflexive.
pub proof fn lemma_str_lt_irreflexive(a: Seq<char>)
    ensures
        !str_lt(a, a),
    decreases a.len(),
{
    if a.len() > 0 {
        lemma_str_lt_irreflexive(a.skip(1));
    }
}

/// Files sorted by path.
pub open spec fn sorted_by_path(files: Seq<BundleFile>) -> bool {
    forall|i: int, j: int| 0 <= i < j < files.len() ==> !str_lt(files[j].path@, files[i].path@)
}

fn str_lt_exec(a: &str, b: &str) -> (r: bool)
    ensures
        r == str_lt(a@, b@),
{
    let x = chars_of(a);
    let y = chars_of(b);
    let mut k: usize = 0;
    assert(a@.skip(0) =~= a@);
    assert(b@.skip(0) =~= b@);
    while k < x.len() && k < y.len() && x[k] == y[k]
        invariant
            x@ == a@,
            y@ == b@,
            k <= x@.len(),
            k <= y@.len(),
            str_lt(a@, b@) == str_lt(a@.skip(k as int), b@.skip(k as int)),
        decreases x@.len() - k,
    {
        assert(a@.skip(k as int).skip(1) =~= a@.skip(k + 1));
        assert(b@.skip(k as int).skip(1) =~= b@.skip(k + 1));
        k = k + 1;
    }
    if k == x.len() {
        k < y.len()
    } else if k == y.len() {
        false
    } else {
        x[k] < y[k]
    }
}

/// The files of `s` whose path is `path`, in their order in `s`.
pub open spec fn with_path(s: Seq<BundleFile>, path: Seq<char>) -> Seq<BundleFile>
    decreases s.len(),
{
    if s.len() == 0 {
        Seq::empty()
    } else if s.last().path@ == path {
        with_path(s.drop_last(), path).push(s.last())
    } else {
        with_path(s.drop_last(), path)
    }
}

/// Picking out the files with one path distributes over concatenation.
proof fn lemma_with_path_add(a: Seq<BundleFile>, b: Seq<BundleFile>, path: Seq<char>)
    ensures
        with_path(a + b, path) == with_path(a, path) + with_path(b, path),
    decreases b.len(),
{
    if b.len() == 0 {
        assert(a + b =~= a);
        assert(with_path(a, path) + with_path(b, path) =~= with_path(a, path));
    } else {
        lemma_with_path_add(a, b.drop_last(), path);
        assert((a + b).drop_last() =~= a + b.drop_last());
        assert((a + b).last() == b.last());
        assert(with_path(a, path) + with_path(b.drop_last(), path).push(b.last()) =~= (with_path(
            a,
            path,
        ) + with_path(b.drop_last(), path)).push(b.last()));
    }
}

/// No file of `s` has path `path`, so none is picked out.
proof fn lemma_with_path_none(s: Seq<BundleFile>, path: Seq<char>)
    requires
        forall|k: int| 0 <= k < s.len() ==> (#[trigger] s[k]).path@ != path,
    ensures
        with_path(s, path) == Seq::<BundleFile>::empty(),
    decreases s.len(),
{
    if s.len() > 0 {
        assert(s[s.len() - 1] == s.last());
        assert forall|k: int| 0 <= k < s.drop_last().len() implies (#[trigger] s.drop_last()[k]).path@
            != path by {
            assert(s.drop_last()[k] == s[k]);
        }
        lemma_with_path_none(s.drop_last(), path);
    }
}

/// Of two different strings, one comes first.
proof fn lemma_str_lt_total(a: Seq<char>, b: Seq<char>)
    requires
        a != b,
    ensures
        str_lt(a, b) || str_lt(b, a),
    decreases a.len(),
{
    if a.len() > 0 && b.len() > 0 && a[0] == b[0] {
        if a.skip(1) == b.skip(1) {
            assert(a =~= seq![a[0]] + a.skip(1));
            assert(b =~= seq![b[0]] + b.skip(1));
        }
        lemma_str_lt_total(a.skip(1), b.skip(1));
    } else if a.len() == 0 && b.len() == 0 {
        assert(a =~= b);
    } else if a.len() > 0 && b.len() > 0 {
        assert((a[0] as int) != (b[0] as int));
    }
}

/// `files`, sorted by path, so that packing them (and the bundle's hash) does not
/// depend on the order a directory listing gave them in. The sort is stable: files
/// with the same path keep their order.
pub fn sort_bundle_files(files: Vec<BundleFile>) -> (r: Vec<BundleFile>)
    ensures
        r@.to_multiset() == files@.to_multiset(),
        sorted_by_path(r@),
        forall|path: Seq<char>| #[trigger] with_path(r@, path) == with_path(files@, path),
{
    broadcast use vstd::seq_lib::group_to_multiset_ensures;

    let ghost all = files@;
    let mut rest = files;
    let mut out: Vec<BundleFile> = Vec::new();
    assert(all.skip(all.len() as int) =~= Seq::<BundleFile>::empty());
    while rest.len() > 0
        invariant
            out@.to_multiset().add(rest@.to_multiset()) == all.to_multiset(),
            sorted_by_path(out@),
            rest@ == all.take(rest@.len() as int),
            rest@.len() <= all.len(),
            forall|path: Seq<char>|
                #[trigger] with_path(out@, path) == with_path(all.skip(rest@.len() as int), path),
        decreases rest@.len(),
    {
        let ghost before_rest = rest@;
        let f = rest.pop().unwrap();
        assert(before_rest =~= rest@.push(f));
        let mut p: usize = 0;
        while p < out.len() && str_lt_exec(out[p].path.as_str(), f.path.as_str())
            invariant
                p <= out@.len(),
                forall|k: int| 0 <= k < p ==> str_lt((#[trigger] out@[k]).path@, f.path@),
            decreases out@.len() - p,
        {
            p = p + 1;
        }
        let ghost old_out = out@;
        proof {
            assert forall|k: int| p <= k < old_out.len() implies !str_lt(
                (#[trigger] old_out[k]).path@,
                f.path@,
            ) by {
                if str_lt(old_out[k].path@, f.path@) {
                    assert(!str_lt(old_out[p as int].path@, f.path@));
                    if k > p {
                        assert(!str_lt(old_out[k].path@, old_out[p as int].path@));
                        if old_out[p as int].path@ != old_out[k].path@ {
                            lemma_str_lt_total(old_out[p as int].path@, old_out[k].path@);
                            lemma_str_lt_transitive(
                                old_out[p as int].path@,
                                old_out[k].path@,
                                f.path@,
                            );
                        }
                    }
                }
            }
        }
        out.insert(p, f);
        assert forall|i: int, j: int| 0 <= i < j < out@.len() implies !str_lt(
            out@[j].path@,
            out@[i].path@,
        ) by {
            if j < p {
                assert(out@[i] == old_out[i] && out@[j] == old_out[j]);
            } else if j == p {
                assert(out@[i] == old_out[i]);
                if str_lt(f.path@, old_out[i].path@) {
                    lemma_str_lt_transitive(old_out[i].path@, f.path@, old_out[i].path@);
                    lemma_str_lt_irreflexive(old_out[i].path@);
                }
            } else if i < p {
                assert(out@[i] == old_out[i] && out@[j] == old_out[j - 1]);
            } else if i == p {
                assert(out@[j] == old_out[j - 1]);
            } else {
                assert(out@[i] == old_out[i - 1] && out@[j] == old_out[j - 1]);
            }
        }
        proof {
            vstd::seq_lib::to_multiset_insert(old_out, p as int, f);
            vstd::seq_lib::to_multiset_build(rest@, f);
            broadcast use vstd::multiset::group_multiset_axioms;

            assert(out@.to_multiset().add(rest@.to_multiset()) =~= old_out.to_multiset().add(
                before_rest.to_multiset(),
            ));
            let n = rest@.len() as int;
            assert(rest@ =~= all.take(n));
            assert(all[n] == f) by {
                assert(before_rest[n] == f);
                assert(before_rest == all.take(n + 1));
            }
            assert(all.skip(n) =~= seq![f] + all.skip(n + 1));
            let front = old_out.take(p as int);
            let back = old_out.skip(p as int);
            assert(old_out =~= front + back);
            assert(out@ =~= front + seq![f] + back);
            assert forall|path: Seq<char>| #[trigger]
                with_path(out@, path) == with_path(all.skip(n), path) by {
                lemma_with_path_add(front, back, path);
                lemma_with_path_add(front + seq![f], back, path);
                lemma_with_path_add(front, seq![f], path);
                lemma_with_path_add(seq![f], all.skip(n + 1), path);
                assert(seq![f].drop_last() =~= Seq::<BundleFile>::empty());
                assert(seq![f].last() == f);
                assert(with_path(Seq::<BundleFile>::empty(), path) == Seq::<BundleFile>::empty());
                if path == f.path@ {
                    assert forall|k: int| 0 <= k < front.len() implies (#[trigger] front[k]).path@
                        != path by {
                        assert(front[k] == old_out[k]);
                        lemma_str_lt_irreflexive(f.path@);
                    }
                    lemma_with_path_none(front, path);
                    assert(with_path(front, path) + with_path(seq![f], path) + with_path(back, path)
                        =~= with_path(seq![f], path) + with_path(back, path));
                } else {
                    assert(with_path(seq![f], path) =~= Seq::<BundleFile>::empty());
                    assert(with_path(front, path) + with_path(seq![f], path) =~= with_path(
                        front,
                        path,
                    ));
                }
            }
        }
    }
    assert(all.skip(0) =~= all);
    out
}

} // verus!
