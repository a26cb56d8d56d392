//! calc-lang's mid-level IR: three-address code over numbered temporaries, with a
//! structured `If` node in place of jumps between basic blocks.

use vstd::prelude::*;

use crate::ast::BinOp;

verus! {

/// A compiler-introduced intermediate value, distinct from a source-level variable.
/// Every instruction names the `Temp` it writes; operands name other instructions'
/// `Temp`s rather than nested sub-expressions.
#[derive(Debug, Clone, Copy, PartialEq, Eq, Hash, Structural)]
pub struct Temp(pub u32);

/// One instruction.
#[derive(Debug, PartialEq)]
pub enum Instr {
    /// `dst = value`, where `value` is a numeric literal's text.
    Const { dst: Temp, value: String },
    /// `dst = lhs op rhs`, computed inline.
    BinOp { dst: Temp, op: BinOp, lhs: Temp, rhs: Temp },
    /// `dst = name(args...)`: a call of the built-in `name`.
    CallBuiltin { dst: Temp, name: String, args: Vec<Temp> },
    /// `dst = src`: funnels each branch of an `If` into the one result temp.
    Copy { dst: Temp, src: Temp },
    /// Runs `then_block` when `cond` is non-zero, else `else_block`; both end by
    /// copying their value into `dst`.
    If { dst: Temp, cond: Temp, then_block: Block, else_block: Block },
}

/// A straight-line sequence of instructions: control flow only by nesting, inside
/// an `Instr::If`.
#[derive(Debug, PartialEq)]
pub struct Block(pub Vec<Instr>);

/// A lowered program: its instructions, and the temp holding its value at the end.
#[derive(Debug, PartialEq)]
pub struct Program {
    pub body: Block,
    pub result: Temp,
}

/// What an [`Instr`] holds, as plain values; temps are numbers.
#[verifier::ext_equal]
pub enum InstrV {
    Const { dst: nat, value: Seq<char> },
    BinOp { dst: nat, op: BinOp, lhs: nat, rhs: nat },
    CallBuiltin { dst: nat, name: Seq<char>, args: Seq<nat> },
    Copy { dst: nat, src: nat },
    If { dst: nat, cond: nat, then_block: Seq<InstrV>, else_block: Seq<InstrV> },
}

/// The number a temp stands for.
pub open spec fn temp_view(t: Temp) -> nat {
    t.0 as nat
}

/// The numbers of a list of temps.
pub open spec fn temps_view(ts: Seq<Temp>) -> Seq<nat> {
    ts.map_values(|t: Temp| temp_view(t))
}

/// The plain value of an instruction.
pub open spec fn instr_view(i: Instr) -> InstrV
    decreases i,
{
    match i {
        Instr::Const { dst, value } => InstrV::Const { dst: temp_view(dst), value: value@ },
        Instr::BinOp { dst, op, lhs, rhs } => InstrV::BinOp {
            dst: temp_view(dst),
            op,
            lhs: temp_view(lhs),
            rhs: temp_view(rhs),
        },
        Instr::CallBuiltin { dst, name, args } => InstrV::CallBuiltin {
            dst: temp_view(dst),
            name: name@,
            args: temps_view(args@),
        },
        Instr::Copy { dst, src } => InstrV::Copy { dst: temp_view(dst), src: temp_view(src) },
        Instr::If { dst, cond, then_block, else_block } => InstrV::If {
            dst: temp_view(dst),
            cond: temp_view(cond),
            then_block: Seq::new(
                then_block.0@.len(),
                |k: int|
                    if 0 <= k < then_block.0@.len() {
                        instr_view(then_block.0@[k])
                    } else {
                        InstrV::Copy { dst: 0, src: 0 }
                    },
            ),
            else_block: Seq::new(
                else_block.0@.len(),
                |k: int|
                    if 0 <= k < else_block.0@.len() {
                        instr_view(else_block.0@[k])
                    } else {
                        InstrV::Copy { dst: 0, src: 0 }
                    },
            ),
        },
    }
}

/// The plain values of a list of instructions.
pub open spec fn instrs_view(is: Seq<Instr>) -> Seq<InstrV> {
    is.map_values(|i: Instr| instr_view(i))
}

impl View for Instr {
    type V = InstrV;

    open spec fn view(&self) -> InstrV {
        instr_view(*self)
    }
}

impl View for Block {
    type V = Seq<InstrV>;

    open spec fn view(&self) -> Seq<InstrV> {
        instrs_view(self.0@)
    }
}

/// An `If`'s view is made of its blocks' views.
pub proof fn lemma_if_view(dst: Temp, cond: Temp, then_block: Block, else_block: Block)
    ensures
        instr_view(Instr::If { dst, cond, then_block, else_block }) == (InstrV::If {
            dst: temp_view(dst),
            cond: temp_view(cond),
            then_block: then_block@,
            else_block: else_block@,
        }),
{
    let i = Instr::If { dst, cond, then_block, else_block };
    if let InstrV::If { then_block: tv, else_block: ev, .. } = instr_view(i) {
        assert(tv =~= then_block@);
        assert(ev =~= else_block@);
    }
}

/// The temp an instruction writes.
pub open spec fn dst_of(i: InstrV) -> nat {
    match i {
        InstrV::Const { dst, .. } => dst,
        InstrV::BinOp { dst, .. } => dst,
        InstrV::CallBuiltin { dst, .. } => dst,
        InstrV::Copy { dst, .. } => dst,
        InstrV::If { dst, .. } => dst,
    }
}

/// Every temp `block` writes, in order, each `If`'s own before its blocks'.
pub open spec fn block_temps(block: Seq<InstrV>) -> Seq<nat>
    decreases block,
{
    if block.len() == 0 {
        Seq::empty()
    } else {
        block_temps(block.drop_last()) + instr_temps(block.last())
    }
}

/// The temps one instruction writes, nested blocks included.
pub open spec fn instr_temps(i: InstrV) -> Seq<nat>
    decreases i,
{
    match i {
        InstrV::If { dst, then_block, else_block, .. } => seq![dst] + block_temps(then_block)
            + block_temps(else_block),
        _ => seq![dst_of(i)],
    }
}

fn push_temp(temps: &mut Vec<Temp>, t: Temp)
    ensures
        temps_view(final(temps)@) == temps_view(old(temps)@).push(temp_view(t)),
{
    let ghost before = temps@;
    temps.push(t);
    assert(temps_view(temps@) =~= temps_view(before).push(temp_view(t)));
}

fn collect_block_temps(block: &Block, temps: &mut Vec<Temp>)
    ensures
        temps_view(final(temps)@) == temps_view(old(temps)@) + block_temps(block@),
    decreases block,
{
    let ghost bv = block@;
    let ghost start = temps_view(temps@);
    let mut k: usize = 0;
    assert(bv.take(0) =~= Seq::<InstrV>::empty());
    assert(start + block_temps(Seq::<InstrV>::empty()) =~= start);
    while k < block.0.len()
        invariant
            bv == block@,
            bv == instrs_view(block.0@),
            k <= block.0@.len(),
            temps_view(temps@) == start + block_temps(bv.take(k as int)),
        decreases block.0@.len() - k,
    {
        let ghost before = temps_view(temps@);
        assert(bv.take(k + 1).drop_last() =~= bv.take(k as int));
        assert(bv.take(k + 1).last() == bv[k as int]);
        assert(bv[k as int] == block.0@[k as int]@);
        assert(block_temps(bv.take(k + 1)) == block_temps(bv.take(k as int)) + instr_temps(bv[k as int]));
        match &block.0[k] {
            Instr::Const { dst, .. } => {
                assert(instr_temps(bv[k as int]) == seq![temp_view(*dst)]);
                push_temp(temps, *dst);
            },
            Instr::BinOp { dst, .. } => {
                assert(instr_temps(bv[k as int]) == seq![temp_view(*dst)]);
                push_temp(temps, *dst);
            },
            Instr::CallBuiltin { dst, .. } => {
                assert(instr_temps(bv[k as int]) == seq![temp_view(*dst)]);
                push_temp(temps, *dst);
            },
            Instr::Copy { dst, .. } => {
                assert(instr_temps(bv[k as int]) == seq![temp_view(*dst)]);
                push_temp(temps, *dst);
            },
            Instr::If { dst, cond, then_block, else_block } => {
                proof {
                    lemma_if_view(*dst, *cond, *then_block, *else_block);
                    assert(*then_block == block.0@[k as int]->then_block);
                    assert(*else_block == block.0@[k as int]->else_block);
                    assert(decreases_to!(*block => block.0));
                    assert(decreases_to!(block.0 => block.0@));
                    assert(decreases_to!(block.0@ => block.0@[k as int]));
                    assert(decreases_to!(block.0@[k as int] => block.0@[k as int]->then_block));
                    assert(decreases_to!(block.0@[k as int] => block.0@[k as int]->else_block));
                }
                push_temp(temps, *dst);
                collect_block_temps(then_block, temps);
                collect_block_temps(else_block, temps);
            },
        }
        assert(temps_view(temps@) =~= start + block_temps(bv.take(k + 1)));
        k = k + 1;
    }
    assert(bv.take(bv.len() as int) =~= bv);
}

/// Every temp `program` uses: its result, then each instruction's destination across
/// both branches of every `If`. A backend that must declare a variable before using it
/// declares these up front.
pub fn collect_temps(program: &Program) -> (temps: Vec<Temp>)
    ensures
        temps_view(temps@) == seq![temp_view(program.result)] + block_temps(program.body@),
{
    let mut temps: Vec<Temp> = Vec::new();
    push_temp(&mut temps, program.result);
    assert(temps_view(Seq::<Temp>::empty()).push(temp_view(program.result)) =~= seq![temp_view(program.result)]);
    collect_block_temps(&program.body, &mut temps);
    temps
}

} // verus!
