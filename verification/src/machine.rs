//! A semantic model of the Hack data path.
//!
//! The generator's correctness lemmas run emitted instruction blocks against
//! this model.  A state holds the A and D registers and the data memory; the
//! register file (stack pointer, segment bases, scratch cells) lives at its
//! conventional low addresses in that memory.  Data values are modeled as
//! unbounded integers; the bitwise operations act on the low 16 bits of their
//! operands.
//!
//! The runner applies each instruction's data effect in order and does not
//! model control transfer: a jump field changes no register or memory cell.
//! The lemmas stated over it therefore concern straight-line blocks, where a
//! jump can stand only as the block's final escape and writes nothing.
use vstd::prelude::*;

use crate::hack::{Comp, Dest, InstrV, LabelV, Reg, label_text};

verus! {

/// Registers and data memory of the modeled machine.
#[verifier::ext_equal]
pub struct MachState {
    pub a: int,
    pub d: int,
    pub mem: Map<int, int>,
}

/// The conventional memory address of a named register.
pub open spec fn reg_addr(r: Reg) -> int {
    match r {
        Reg::Sp => 0,
        Reg::Lcl => 1,
        Reg::Arg => 2,
        Reg::This => 3,
        Reg::That => 4,
        Reg::R13 => 13,
        Reg::R14 => 14,
    }
}

/// The value the computation field produces in state `s`.
pub open spec fn eval_comp(c: Comp, s: MachState) -> int {
    let m = s.mem[s.a];
    match c {
        Comp::Zero => 0,
        Comp::NegOne => -1,
        Comp::D => s.d,
        Comp::A => s.a,
        Comp::M => m,
        Comp::NotM => !(m as u16) as int,
        Comp::NegM => -m,
        Comp::MPlusOne => m + 1,
        Comp::MMinusOne => m - 1,
        Comp::DPlusA => s.d + s.a,
        Comp::DMinusA => s.d - s.a,
        Comp::DPlusM => s.d + m,
        Comp::MMinusD => m - s.d,
        Comp::DAndM => ((s.d as u16) & (m as u16)) as int,
        Comp::DOrM => ((s.d as u16) | (m as u16)) as int,
    }
}

/// Write the computed value to the destination.  A write to `M` targets the
/// cell the A register addressed before the instruction.
pub open spec fn apply_dest(d: Dest, v: int, s: MachState) -> MachState {
    match d {
        Dest::NoDst => s,
        Dest::M => MachState { mem: s.mem.insert(s.a, v), ..s },
        Dest::D => MachState { d: v, ..s },
        Dest::A => MachState { a: v, ..s },
    }
}

/// The data effect of one instruction.  `env` resolves symbolic targets to
/// the addresses the downstream assembler would assign them.
pub open spec fn step(env: Map<Seq<u8>, int>, i: InstrV, s: MachState) -> MachState {
    match i {
        InstrV::AtNum(n) => MachState { a: n as int, ..s },
        InstrV::AtReg(r) => MachState { a: reg_addr(r), ..s },
        InstrV::AtLbl(l) => MachState { a: env[label_text(l)], ..s },
        InstrV::Compute(d, c, _j) => apply_dest(d, eval_comp(c, s), s),
        InstrV::Mark(_l) => s,
    }
}

/// Run the instructions of `code` from position `k` onward.
pub open spec fn run_from(env: Map<Seq<u8>, int>, code: Seq<InstrV>, k: int, s: MachState) -> MachState
    decreases code.len() - k,
{
    if k < 0 || k >= code.len() {
        s
    } else {
        run_from(env, code, k + 1, step(env, code[k], s))
    }
}

/// Run a whole instruction block.
pub open spec fn run(env: Map<Seq<u8>, int>, code: Seq<InstrV>, s: MachState) -> MachState {
    run_from(env, code, 0, s)
}

proof fn lemma_run_from_shift(
    env: Map<Seq<u8>, int>,
    c1: Seq<InstrV>,
    c2: Seq<InstrV>,
    k: int,
    s: MachState,
)
    requires
        k >= c1.len(),
    ensures
        run_from(env, c1 + c2, k, s) == run_from(env, c2, k - c1.len(), s),
    decreases c1.len() + c2.len() - k,
{
    if k < (c1 + c2).len() {
        assert((c1 + c2)[k] == c2[k - c1.len()]);
        lemma_run_from_shift(env, c1, c2, k + 1, step(env, c2[k - c1.len()], s));
    }
}

proof fn lemma_run_app_from(
    env: Map<Seq<u8>, int>,
    c1: Seq<InstrV>,
    c2: Seq<InstrV>,
    k: int,
    s: MachState,
)
    requires
        0 <= k <= c1.len(),
    ensures
        run_from(env, c1 + c2, k, s) == run_from(env, c2, 0, run_from(env, c1, k, s)),
    decreases c1.len() - k,
{
    if k == c1.len() {
        lemma_run_from_shift(env, c1, c2, k, s);
    } else {
        assert((c1 + c2)[k] == c1[k]);
        lemma_run_app_from(env, c1, c2, k + 1, step(env, c1[k], s));
    }
}

/// Running a concatenation runs the first block, then the second from where
/// the first left the machine.
pub proof fn lemma_run_app(env: Map<Seq<u8>, int>, c1: Seq<InstrV>, c2: Seq<InstrV>, s: MachState)
    ensures
        run(env, c1 + c2, s) == run(env, c2, run(env, c1, s)),
{
    lemma_run_app_from(env, c1, c2, 0, s);
}

} // verus!
