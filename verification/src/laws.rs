//! What the emitted code does to the machine.
//!
//! Each lemma here runs one of the generator's fixed blocks against the
//! semantic model in `machine` and pins down the resulting state: where the
//! stack pointer lands, which cells change, and that every other cell is left
//! alone.  On top of the block effects stand the translator's laws: the
//! push/pop round trip, the constant-to-temp transfer, the call/return frame
//! protocol, and the pairwise distinctness of every generated label.
use vstd::prelude::*;

use crate::hack::{Comp, Dest, InstrV, Jmp, LabelV, Reg, label_text, lemma_cmp_labels_distinct,
    lemma_cmp_true_ne_end, lemma_sep_suffix_distinct};
use crate::machine::{MachState, lemma_run_app, reg_addr, run, run_from};
use crate::writer::{ArithOp, Segment, binary_code, binary_comp, call_code, direct_target,
    function_code, if_code, max_index, pop_code, pop_d_code, push_code, push_d_code, rep_push_d,
    restore_code, return_code, seg_base, unary_code, MAX_ADDR};

verus! {

/// The cell a push or pop of `seg idx` targets, evaluated in state `s`.
pub open spec fn seg_target(
    env: Map<Seq<u8>, int>,
    seg: Segment,
    file: Seq<u8>,
    idx: u16,
    s: MachState,
) -> int
    recommends
        seg != Segment::Constant,
{
    match seg {
        Segment::Temp => 5 + idx,
        Segment::Pointer => 3 + idx,
        Segment::Static => env[label_text(LabelV::StaticRef(file, idx as nat))],
        _ => s.mem[reg_addr(seg_base(seg))] + idx,
    }
}

/// The value `push seg idx` places on the stack, evaluated in state `s`.
pub open spec fn seg_value(
    env: Map<Seq<u8>, int>,
    seg: Segment,
    file: Seq<u8>,
    idx: u16,
    s: MachState,
) -> int {
    match seg {
        Segment::Constant => idx as int,
        _ => s.mem[seg_target(env, seg, file, idx, s)],
    }
}

/// Appending D to the stack: the pushed cell takes D and the stack pointer
/// advances by one.
pub proof fn lemma_push_d_effect(env: Map<Seq<u8>, int>, s: MachState)
    requires
        s.mem[0] != 0,
    ensures
        run(env, push_d_code(), s) == (MachState {
            a: 0,
            d: s.d,
            mem: s.mem.insert(s.mem[0], s.d).insert(0, s.mem[0] + 1),
        }),
{
    reveal_with_fuel(run_from, 7);
}

/// Removing the top of stack into D: the stack pointer retreats by one and D
/// takes the cell it passed.
pub proof fn lemma_pop_d_effect(env: Map<Seq<u8>, int>, s: MachState)
    requires
        s.mem[0] != 1,
    ensures
        run(env, pop_d_code(), s) == (MachState {
            a: s.mem[0] - 1,
            d: s.mem[s.mem[0] - 1],
            mem: s.mem.insert(0, s.mem[0] - 1),
        }),
{
    reveal_with_fuel(run_from, 6);
}

/// The state after `push seg idx`: the addressed value sits in the pushed
/// cell, the stack pointer has advanced, and nothing else moved.
pub proof fn lemma_push_effect(
    env: Map<Seq<u8>, int>,
    seg: Segment,
    file: Seq<u8>,
    idx: u16,
    s: MachState,
)
    requires
        s.mem[0] != 0,
        idx as nat <= max_index(seg),
    ensures
        run(env, push_code(seg, file, idx), s) == (MachState {
            a: 0,
            d: seg_value(env, seg, file, idx, s),
            mem: s.mem.insert(s.mem[0], seg_value(env, seg, file, idx, s)).insert(
                0,
                s.mem[0] + 1,
            ),
        }),
{
    let code = push_code(seg, file, idx);
    let v = seg_value(env, seg, file, idx, s);
    match seg {
        Segment::Constant => {
            let head = seq![
                InstrV::AtNum(idx),
                InstrV::Compute(
                    Dest::D,
                    Comp::A,
                    Jmp::NoJmp,
                ),
            ];
            assert(code == head + push_d_code());
            lemma_run_app(env, head, push_d_code(), s);
            assert(run(env, head, s) == (MachState { a: idx as int, d: v, ..s })) by {
                reveal_with_fuel(run_from, 4);
            }
            lemma_push_d_effect(env, MachState { a: idx as int, d: v, ..s });
        },
        Segment::Temp | Segment::Pointer | Segment::Static => {
            let head = seq![
                direct_target(seg, file, idx),
                InstrV::Compute(
                    Dest::D,
                    Comp::M,
                    Jmp::NoJmp,
                ),
            ];
            assert(code == head + push_d_code());
            lemma_run_app(env, head, push_d_code(), s);
            let tgt = seg_target(env, seg, file, idx, s);
            assert(run(env, head, s) == (MachState { a: tgt, d: v, ..s })) by {
                reveal_with_fuel(run_from, 4);
            }
            lemma_push_d_effect(env, MachState { a: tgt, d: v, ..s });
        },
        _ => {
            let head = seq![
                InstrV::AtReg(seg_base(seg)),
                InstrV::Compute(
                    Dest::D,
                    Comp::M,
                    Jmp::NoJmp,
                ),
                InstrV::AtNum(idx),
                InstrV::Compute(
                    Dest::D,
                    Comp::DPlusA,
                    Jmp::NoJmp,
                ),
                InstrV::Compute(
                    Dest::A,
                    Comp::D,
                    Jmp::NoJmp,
                ),
                InstrV::Compute(
                    Dest::D,
                    Comp::M,
                    Jmp::NoJmp,
                ),
            ];
            assert(code == head + push_d_code());
            lemma_run_app(env, head, push_d_code(), s);
            let tgt = seg_target(env, seg, file, idx, s);
            assert(run(env, head, s) == (MachState { a: tgt, d: v, ..s })) by {
                reveal_with_fuel(run_from, 8);
            }
            lemma_push_d_effect(env, MachState { a: tgt, d: v, ..s });
        },
    }
}

/// The state after `pop seg idx`, by addressing mode.
pub open spec fn pop_result(
    env: Map<Seq<u8>, int>,
    seg: Segment,
    file: Seq<u8>,
    idx: u16,
    s: MachState,
) -> MachState
    recommends
        seg != Segment::Constant,
{
    let sp = s.mem[0];
    let tgt = seg_target(env, seg, file, idx, s);
    let v = s.mem[sp - 1];
    match seg {
        Segment::Temp | Segment::Pointer | Segment::Static => MachState {
            a: tgt,
            d: v,
            mem: s.mem.insert(0, sp - 1).insert(tgt, v),
        },
        _ => MachState {
            a: tgt,
            d: v,
            mem: s.mem.insert(13, tgt).insert(0, sp - 1).insert(tgt, v),
        },
    }
}

/// The state after `pop seg idx`: the popped value lands in the targeted
/// cell, the stack pointer has retreated, and apart from the indirect mode's
/// scratch cell nothing else moved.
pub proof fn lemma_pop_effect(
    env: Map<Seq<u8>, int>,
    seg: Segment,
    file: Seq<u8>,
    idx: u16,
    s: MachState,
)
    requires
        seg != Segment::Constant,
        s.mem[0] != 1,
        s.mem[0] != 14,
        idx as nat <= max_index(seg),
    ensures
        run(env, pop_code(seg, file, idx), s) == pop_result(env, seg, file, idx, s),
{
    let sp = s.mem[0];
    let tgt = seg_target(env, seg, file, idx, s);
    let v = s.mem[sp - 1];
    match seg {
        Segment::Temp | Segment::Pointer | Segment::Static => {
            let tail = seq![
                direct_target(seg, file, idx),
                InstrV::Compute(
                    Dest::M,
                    Comp::D,
                    Jmp::NoJmp,
                ),
            ];
            assert(pop_code(seg, file, idx) == pop_d_code() + tail);
            lemma_run_app(env, pop_d_code(), tail, s);
            lemma_pop_d_effect(env, s);
            let s1 = MachState { a: sp - 1, d: v, mem: s.mem.insert(0, sp - 1) };
            assert(run(env, tail, s1) == pop_result(env, seg, file, idx, s)) by {
                reveal_with_fuel(run_from, 4);
            }
        },
        _ => {
            let head = seq![
                InstrV::AtReg(seg_base(seg)),
                InstrV::Compute(
                    Dest::D,
                    Comp::M,
                    Jmp::NoJmp,
                ),
                InstrV::AtNum(idx),
                InstrV::Compute(
                    Dest::D,
                    Comp::DPlusA,
                    Jmp::NoJmp,
                ),
                InstrV::AtReg(Reg::R13),
                InstrV::Compute(
                    Dest::M,
                    Comp::D,
                    Jmp::NoJmp,
                ),
            ];
            let tail = seq![
                InstrV::AtReg(Reg::R13),
                InstrV::Compute(
                    Dest::A,
                    Comp::M,
                    Jmp::NoJmp,
                ),
                InstrV::Compute(
                    Dest::M,
                    Comp::D,
                    Jmp::NoJmp,
                ),
            ];
            assert(pop_code(seg, file, idx) == head + pop_d_code() + tail);
            lemma_run_app(env, head + pop_d_code(), tail, s);
            lemma_run_app(env, head, pop_d_code(), s);
            let s1 = MachState { a: 13, d: tgt, mem: s.mem.insert(13, tgt) };
            assert(run(env, head, s) == s1) by {
                reveal_with_fuel(run_from, 8);
            }
            lemma_pop_d_effect(env, s1);
            let s2 = MachState { a: sp - 1, d: v, mem: s.mem.insert(13, tgt).insert(0, sp - 1) };
            assert(run(env, pop_d_code(), s1) == s2);
            assert(run(env, tail, s2) == pop_result(env, seg, file, idx, s)) by {
                reveal_with_fuel(run_from, 5);
            }
        },
    }
}

/// Round trip: `push seg idx` immediately followed by `pop seg idx` leaves
/// both the targeted memory cell and the stack pointer exactly as they were.
pub proof fn lemma_push_pop_round_trip(
    env: Map<Seq<u8>, int>,
    seg: Segment,
    file: Seq<u8>,
    idx: u16,
    s: MachState,
)
    requires
        seg != Segment::Constant,
        s.mem[0] >= 16,
        idx as nat <= max_index(seg),
    ensures
        run(env, push_code(seg, file, idx) + pop_code(seg, file, idx), s).mem[seg_target(
            env,
            seg,
            file,
            idx,
            s,
        )] == s.mem[seg_target(env, seg, file, idx, s)],
        run(env, push_code(seg, file, idx) + pop_code(seg, file, idx), s).mem[0] == s.mem[0],
{
    let sp = s.mem[0];
    let tgt = seg_target(env, seg, file, idx, s);
    let v = seg_value(env, seg, file, idx, s);
    lemma_run_app(env, push_code(seg, file, idx), pop_code(seg, file, idx), s);
    lemma_push_effect(env, seg, file, idx, s);
    let s1 = MachState { a: 0, d: v, mem: s.mem.insert(sp, v).insert(0, sp + 1) };
    assert(seg_target(env, seg, file, idx, s1) == tgt);
    lemma_pop_effect(env, seg, file, idx, s1);
}

/// Transfer through the stack: on a zeroed machine whose stack pointer holds
/// `base`, `push constant k` then `pop temp 0` leaves temp slot 0 equal to
/// `k` and the stack pointer back at `base`.
pub proof fn lemma_constant_to_temp(
    env: Map<Seq<u8>, int>,
    file: Seq<u8>,
    k: u16,
    base: int,
    s: MachState,
)
    requires
        base >= 16,
        k <= MAX_ADDR,
        forall|x: int| s.mem[x] == if x == 0 {
            base
        } else {
            0
        },
    ensures
        run(env, push_code(Segment::Constant, file, k) + pop_code(Segment::Temp, file, 0), s)
            .mem[5] == k,
        run(env, push_code(Segment::Constant, file, k) + pop_code(Segment::Temp, file, 0), s)
            .mem[0] == base,
{
    lemma_run_app(env, push_code(Segment::Constant, file, k), pop_code(Segment::Temp, file, 0), s);
    lemma_push_effect(env, Segment::Constant, file, k, s);
    let s1 = MachState { a: 0, d: k as int, mem: s.mem.insert(base, k as int).insert(0, base + 1) };
    lemma_pop_effect(env, Segment::Temp, file, 0, s1);
}

/// The value a binary operator computes from the second-from-top `x` and the
/// top `y`.
pub open spec fn binary_value(op: ArithOp, x: int, y: int) -> int
    recommends
        op == ArithOp::Add || op == ArithOp::Sub || op == ArithOp::And || op == ArithOp::Or,
{
    match op {
        ArithOp::Add => x + y,
        ArithOp::Sub => x - y,
        ArithOp::And => ((y as u16) & (x as u16)) as int,
        _ => ((y as u16) | (x as u16)) as int,
    }
}

/// A binary operator pops two values and pushes their combination: one net
/// pop, the result where the lower operand stood, everything else untouched.
pub proof fn lemma_binary_effect(env: Map<Seq<u8>, int>, op: ArithOp, s: MachState)
    requires
        op == ArithOp::Add || op == ArithOp::Sub || op == ArithOp::And || op == ArithOp::Or,
        s.mem[0] >= 16,
    ensures
        run(env, binary_code(op), s).mem[0] == s.mem[0] - 1,
        run(env, binary_code(op), s).mem[s.mem[0] - 2] == binary_value(
            op,
            s.mem[s.mem[0] - 2],
            s.mem[s.mem[0] - 1],
        ),
        forall|x: int|
            x != 0 && x != s.mem[0] - 2 ==> run(env, binary_code(op), s).mem[x] == s.mem[x],
{
    let sp = s.mem[0];
    let y = s.mem[sp - 1];
    let tail = seq![
        InstrV::AtReg(Reg::Sp),
        InstrV::Compute(
            Dest::M,
            Comp::MMinusOne,
            Jmp::NoJmp,
        ),
        InstrV::Compute(
            Dest::A,
            Comp::M,
            Jmp::NoJmp,
        ),
        InstrV::Compute(
            Dest::M,
            binary_comp(op),
            Jmp::NoJmp,
        ),
        InstrV::AtReg(Reg::Sp),
        InstrV::Compute(
            Dest::M,
            Comp::MPlusOne,
            Jmp::NoJmp,
        ),
    ];
    assert(binary_code(op) == pop_d_code() + tail);
    lemma_run_app(env, pop_d_code(), tail, s);
    lemma_pop_d_effect(env, s);
    let s1 = MachState { a: sp - 1, d: y, mem: s.mem.insert(0, sp - 1) };
    assert(run(env, tail, s1) == (MachState {
        a: 0,
        d: y,
        mem: s1.mem.insert(0, sp - 2).insert(sp - 2, binary_value(op, s.mem[sp - 2], y)).insert(
            0,
            sp - 1,
        ),
    })) by {
        reveal_with_fuel(run_from, 8);
    }
}

/// The value a unary operator computes from the top of stack.
pub open spec fn unary_value(op: ArithOp, x: int) -> int
    recommends
        op == ArithOp::Neg || op == ArithOp::Not,
{
    match op {
        ArithOp::Neg => -x,
        _ => !(x as u16) as int,
    }
}

/// A unary operator rewrites the top of stack in place: the stack pointer
/// and every other cell stay put.
pub proof fn lemma_unary_effect(env: Map<Seq<u8>, int>, op: ArithOp, s: MachState)
    requires
        op == ArithOp::Neg || op == ArithOp::Not,
        s.mem[0] >= 16,
    ensures
        run(env, unary_code(op), s).mem[0] == s.mem[0],
        run(env, unary_code(op), s).mem[s.mem[0] - 1] == unary_value(op, s.mem[s.mem[0] - 1]),
        forall|x: int|
            x != 0 && x != s.mem[0] - 1 ==> run(env, unary_code(op), s).mem[x] == s.mem[x],
{
    reveal_with_fuel(run_from, 8);
}

/// `if-goto` pops the top of stack whether or not the branch is taken: in
/// the data path the pop is its whole effect.
pub proof fn lemma_if_goto_pops(env: Map<Seq<u8>, int>, name: Seq<u8>, s: MachState)
    requires
        s.mem[0] >= 16,
    ensures
        run(env, if_code(name), s).mem[0] == s.mem[0] - 1,
        run(env, if_code(name), s).d == s.mem[s.mem[0] - 1],
        forall|x: int| x != 0 ==> run(env, if_code(name), s).mem[x] == s.mem[x],
{
    let tail = seq![
        InstrV::AtLbl(LabelV::Named(name)),
        InstrV::Compute(
            Dest::NoDst,
            Comp::D,
            Jmp::Jne,
        ),
    ];
    assert(if_code(name) == pop_d_code() + tail);
    lemma_run_app(env, pop_d_code(), tail, s);
    lemma_pop_d_effect(env, s);
    let s1 = MachState {
        a: s.mem[0] - 1,
        d: s.mem[s.mem[0] - 1],
        mem: s.mem.insert(0, s.mem[0] - 1),
    };
    assert(run(env, tail, s1) == (MachState { a: env[label_text(LabelV::Named(name))], ..s1 }))
        by {
        reveal_with_fuel(run_from, 4);
    }
}

/// Pushing D `k` times: the stack grows by `k` copies of D and nothing below
/// it moves.
pub proof fn lemma_rep_push_d_effect(env: Map<Seq<u8>, int>, k: nat, s: MachState)
    requires
        s.mem[0] >= 1,
    ensures
        run(env, rep_push_d(k), s).mem[0] == s.mem[0] + k,
        run(env, rep_push_d(k), s).d == s.d,
        forall|x: int|
            s.mem[0] <= x < s.mem[0] + k ==> run(env, rep_push_d(k), s).mem[x] == s.d,
        forall|x: int|
            x != 0 && !(s.mem[0] <= x < s.mem[0] + k) ==> run(env, rep_push_d(k), s).mem[x]
                == s.mem[x],
        k == 0 ==> run(env, rep_push_d(k), s) == s,
    decreases k,
{
    if k == 0 {
        reveal_with_fuel(run_from, 2);
    } else {
        lemma_rep_push_d_effect(env, (k - 1) as nat, s);
        lemma_run_app(env, rep_push_d((k - 1) as nat), push_d_code(), s);
        let s1 = run(env, rep_push_d((k - 1) as nat), s);
        lemma_push_d_effect(env, s1);
    }
}

/// The state after `function name k`: the stack pointer has advanced over
/// `k` fresh zero-initialized local slots.
pub proof fn lemma_function_effect(env: Map<Seq<u8>, int>, name: Seq<u8>, k: u16, s: MachState)
    requires
        s.mem[0] >= 1,
    ensures
        run(env, function_code(name, k), s).mem[0] == s.mem[0] + k,
        run(env, function_code(name, k), s).d == 0,
        forall|x: int|
            s.mem[0] <= x < s.mem[0] + k ==> run(env, function_code(name, k), s).mem[x] == 0,
        forall|x: int|
            x != 0 && !(s.mem[0] <= x < s.mem[0] + k) ==> run(env, function_code(name, k), s)
                .mem[x] == s.mem[x],
{
    let head = seq![
        InstrV::Mark(LabelV::Named(name)),
        InstrV::Compute(
            Dest::D,
            Comp::Zero,
            Jmp::NoJmp,
        ),
    ];
    assert(function_code(name, k) == head + rep_push_d(k as nat));
    lemma_run_app(env, head, rep_push_d(k as nat), s);
    let s1 = MachState { d: 0, ..s };
    assert(run(env, head, s) == s1) by {
        reveal_with_fuel(run_from, 4);
    }
    lemma_rep_push_d_effect(env, k as nat, s1);
}

/// One frame-walk step of `return`: the frame pointer in scratch cell 13 has
/// moved down one, and register `r` holds the cell it passed.
proof fn lemma_restore_effect(env: Map<Seq<u8>, int>, r: Reg, s: MachState)
    requires
        s.mem[13] != 14,
        reg_addr(r) != 13,
    ensures
        run(env, restore_code(r), s) == (MachState {
            a: reg_addr(r),
            d: s.mem[s.mem[13] - 1],
            mem: s.mem.insert(13, s.mem[13] - 1).insert(reg_addr(r), s.mem[s.mem[13] - 1]),
        }),
{
    reveal_with_fuel(run_from, 8);
}

/// The state after `return`, from any state whose local base points at a
/// frame laid out by `call` above both the register file and the caller's
/// argument cell: the four base registers take their saved values, the
/// caller's argument cell takes the callee's top of stack, the stack pointer
/// lands one past it, the A register holds the saved return address, and
/// everything outside the register file, the scratch cells and the argument
/// cell is untouched.
pub proof fn lemma_return_effect(env: Map<Seq<u8>, int>, s: MachState)
    requires
        s.mem[1] >= 21,
        16 <= s.mem[2],
        s.mem[2] < s.mem[1] - 5,
        s.mem[0] >= s.mem[1],
    ensures
        run(env, return_code(), s).mem[1] == s.mem[s.mem[1] - 4],
        run(env, return_code(), s).mem[2] == s.mem[s.mem[1] - 3],
        run(env, return_code(), s).mem[3] == s.mem[s.mem[1] - 2],
        run(env, return_code(), s).mem[4] == s.mem[s.mem[1] - 1],
        run(env, return_code(), s).mem[0] == s.mem[2] + 1,
        run(env, return_code(), s).mem[s.mem[2]] == s.mem[s.mem[0] - 1],
        run(env, return_code(), s).a == s.mem[s.mem[1] - 5],
        forall|x: int|
            x != 0 && x != 1 && x != 2 && x != 3 && x != 4 && x != 13 && x != 14 && x != s.mem[2]
                ==> run(env, return_code(), s).mem[x] == s.mem[x],
{
    let l = s.mem[1];
    let arg = s.mem[2];
    let sp = s.mem[0];
    let ret = s.mem[l - 5];
    let v = s.mem[sp - 1];
    let h11 = seq![
        InstrV::AtReg(Reg::Lcl),
        InstrV::Compute(
            Dest::D,
            Comp::M,
            Jmp::NoJmp,
        ),
        InstrV::AtReg(Reg::R13),
        InstrV::Compute(
            Dest::M,
            Comp::D,
            Jmp::NoJmp,
        ),
        InstrV::AtNum(5),
        InstrV::Compute(
            Dest::D,
            Comp::A,
            Jmp::NoJmp,
        ),
        InstrV::AtReg(Reg::R13),
        InstrV::Compute(
            Dest::A,
            Comp::MMinusD,
            Jmp::NoJmp,
        ),
        InstrV::Compute(
            Dest::D,
            Comp::M,
            Jmp::NoJmp,
        ),
        InstrV::AtReg(Reg::R14),
        InstrV::Compute(
            Dest::M,
            Comp::D,
            Jmp::NoJmp,
        ),
    ];
    let m7 = seq![
        InstrV::AtReg(Reg::Arg),
        InstrV::Compute(
            Dest::A,
            Comp::M,
            Jmp::NoJmp,
        ),
        InstrV::Compute(
            Dest::M,
            Comp::D,
            Jmp::NoJmp,
        ),
        InstrV::AtReg(Reg::Arg),
        InstrV::Compute(
            Dest::D,
            Comp::MPlusOne,
            Jmp::NoJmp,
        ),
        InstrV::AtReg(Reg::Sp),
        InstrV::Compute(
            Dest::M,
            Comp::D,
            Jmp::NoJmp,
        ),
    ];
    let t3 = seq![
        InstrV::AtReg(Reg::R14),
        InstrV::Compute(
            Dest::A,
            Comp::M,
            Jmp::NoJmp,
        ),
        InstrV::Compute(
            Dest::NoDst,
            Comp::Zero,
            Jmp::Always,
        ),
    ];
    let p1 = h11 + pop_d_code();
    let p2 = p1 + m7;
    let p3 = p2 + restore_code(Reg::That);
    let p4 = p3 + restore_code(Reg::This);
    let p5 = p4 + restore_code(Reg::Arg);
    let p6 = p5 + restore_code(Reg::Lcl);
    assert(return_code() == p6 + t3);

    // Capture the frame pointer and the return address.
    let s1 = MachState { a: 14, d: ret, mem: s.mem.insert(13, l).insert(14, ret) };
    assert(run(env, h11, s) == s1) by {
        reveal_with_fuel(run_from, 12);
    }
    // Pop the callee's result.
    lemma_run_app(env, h11, pop_d_code(), s);
    lemma_pop_d_effect(env, s1);
    let s2 = MachState {
        a: sp - 1,
        d: v,
        mem: s.mem.insert(13, l).insert(14, ret).insert(0, sp - 1),
    };
    assert(run(env, p1, s) == s2);
    // Hand it to the caller and rewind the stack pointer.
    lemma_run_app(env, p1, m7, s);
    let s3 = MachState {
        a: 0,
        d: arg + 1,
        mem: s.mem.insert(13, l).insert(14, ret).insert(0, sp - 1).insert(arg, v).insert(
            0,
            arg + 1,
        ),
    };
    assert(run(env, m7, s2) == s3) by {
        reveal_with_fuel(run_from, 8);
    }
    // Walk the frame: that, this, argument, local.
    lemma_run_app(env, p2, restore_code(Reg::That), s);
    lemma_restore_effect(env, Reg::That, s3);
    let s4 = MachState {
        a: 4,
        d: s.mem[l - 1],
        mem: s3.mem.insert(13, l - 1).insert(4, s.mem[l - 1]),
    };
    assert(run(env, p3, s) == s4);
    lemma_run_app(env, p3, restore_code(Reg::This), s);
    lemma_restore_effect(env, Reg::This, s4);
    let s5 = MachState {
        a: 3,
        d: s.mem[l - 2],
        mem: s4.mem.insert(13, l - 2).insert(3, s.mem[l - 2]),
    };
    assert(run(env, p4, s) == s5);
    lemma_run_app(env, p4, restore_code(Reg::Arg), s);
    lemma_restore_effect(env, Reg::Arg, s5);
    let s6 = MachState {
        a: 2,
        d: s.mem[l - 3],
        mem: s5.mem.insert(13, l - 3).insert(2, s.mem[l - 3]),
    };
    assert(run(env, p5, s) == s6);
    lemma_run_app(env, p5, restore_code(Reg::Lcl), s);
    lemma_restore_effect(env, Reg::Lcl, s6);
    let s7 = MachState {
        a: 1,
        d: s.mem[l - 4],
        mem: s6.mem.insert(13, l - 4).insert(1, s.mem[l - 4]),
    };
    assert(run(env, p6, s) == s7);
    // Jump through the captured return address.
    lemma_run_app(env, p6, t3, s);
    assert(run(env, t3, s7) == (MachState { a: ret, ..s7 })) by {
        reveal_with_fuel(run_from, 4);
    }
}

/// The state after `call name nArgs` at call-site counter `cnt`: five cells
/// above the old stack pointer hold the return address and the four saved
/// bases in that order, the argument base points `nArgs` below the old stack
/// pointer, the local base and the stack pointer sit just past the frame —
/// and no cell below the old stack pointer moves, other than the three
/// rebased registers.
pub proof fn lemma_call_effect(
    env: Map<Seq<u8>, int>,
    name: Seq<u8>,
    n: u16,
    cnt: nat,
    s: MachState,
)
    requires
        s.mem[0] >= 16,
    ensures
        run(env, call_code(name, n, cnt), s).mem[0] == s.mem[0] + 5,
        run(env, call_code(name, n, cnt), s).mem[1] == s.mem[0] + 5,
        run(env, call_code(name, n, cnt), s).mem[2] == s.mem[0] - n,
        run(env, call_code(name, n, cnt), s).mem[s.mem[0]] == env[label_text(
            LabelV::RetAddr(name, cnt),
        )],
        run(env, call_code(name, n, cnt), s).mem[s.mem[0] + 1] == s.mem[1],
        run(env, call_code(name, n, cnt), s).mem[s.mem[0] + 2] == s.mem[2],
        run(env, call_code(name, n, cnt), s).mem[s.mem[0] + 3] == s.mem[3],
        run(env, call_code(name, n, cnt), s).mem[s.mem[0] + 4] == s.mem[4],
        forall|x: int|
            x != 0 && x != 1 && x != 2 && !(s.mem[0] <= x < s.mem[0] + 5) ==> run(
                env,
                call_code(name, n, cnt),
                s,
            ).mem[x] == s.mem[x],
{
    let sp = s.mem[0];
    let ra = env[label_text(LabelV::RetAddr(name, cnt))];
    let b0 = seq![
        InstrV::AtLbl(LabelV::RetAddr(name, cnt)),
        InstrV::Compute(
            Dest::D,
            Comp::A,
            Jmp::NoJmp,
        ),
    ];
    let bl = seq![
        InstrV::AtReg(Reg::Lcl),
        InstrV::Compute(
            Dest::D,
            Comp::M,
            Jmp::NoJmp,
        ),
    ];
    let bg = seq![
        InstrV::AtReg(Reg::Arg),
        InstrV::Compute(
            Dest::D,
            Comp::M,
            Jmp::NoJmp,
        ),
    ];
    let bt = seq![
        InstrV::AtReg(Reg::This),
        InstrV::Compute(
            Dest::D,
            Comp::M,
            Jmp::NoJmp,
        ),
    ];
    let bh = seq![
        InstrV::AtReg(Reg::That),
        InstrV::Compute(
            Dest::D,
            Comp::M,
            Jmp::NoJmp,
        ),
    ];
    let tail = seq![
        InstrV::AtReg(Reg::Sp),
        InstrV::Compute(
            Dest::D,
            Comp::M,
            Jmp::NoJmp,
        ),
        InstrV::AtNum(5),
        InstrV::Compute(
            Dest::D,
            Comp::DMinusA,
            Jmp::NoJmp,
        ),
        InstrV::AtNum(n),
        InstrV::Compute(
            Dest::D,
            Comp::DMinusA,
            Jmp::NoJmp,
        ),
        InstrV::AtReg(Reg::Arg),
        InstrV::Compute(
            Dest::M,
            Comp::D,
            Jmp::NoJmp,
        ),
        InstrV::AtReg(Reg::Sp),
        InstrV::Compute(
            Dest::D,
            Comp::M,
            Jmp::NoJmp,
        ),
        InstrV::AtReg(Reg::Lcl),
        InstrV::Compute(
            Dest::M,
            Comp::D,
            Jmp::NoJmp,
        ),
        InstrV::AtLbl(LabelV::Named(name)),
        InstrV::Compute(
            Dest::NoDst,
            Comp::Zero,
            Jmp::Always,
        ),
        InstrV::Mark(LabelV::RetAddr(name, cnt)),
    ];
    let pd = push_d_code();
    let p1 = b0 + pd;
    let p2 = p1 + bl;
    let p3 = p2 + pd;
    let p4 = p3 + bg;
    let p5 = p4 + pd;
    let p6 = p5 + bt;
    let p7 = p6 + pd;
    let p8 = p7 + bh;
    let p9 = p8 + pd;
    assert(call_code(name, n, cnt) == p9 + tail);

    // Push the return address.
    let s0 = MachState { a: ra, d: ra, ..s };
    assert(run(env, b0, s) == s0) by {
        reveal_with_fuel(run_from, 4);
    }
    lemma_run_app(env, b0, pd, s);
    lemma_push_d_effect(env, s0);
    let s1 = MachState { a: 0, d: ra, mem: s.mem.insert(sp, ra).insert(0, sp + 1) };
    assert(run(env, p1, s) == s1);
    // Push the caller's local base.
    lemma_run_app(env, p1, bl, s);
    let s2 = MachState { a: 1, d: s.mem[1], ..s1 };
    assert(run(env, bl, s1) == s2) by {
        reveal_with_fuel(run_from, 4);
    }
    lemma_run_app(env, p2, pd, s);
    lemma_push_d_effect(env, s2);
    let s3 = MachState {
        a: 0,
        d: s.mem[1],
        mem: s1.mem.insert(sp + 1, s.mem[1]).insert(0, sp + 2),
    };
    assert(run(env, p3, s) == s3);
    // Push the caller's argument base.
    lemma_run_app(env, p3, bg, s);
    let s4 = MachState { a: 2, d: s.mem[2], ..s3 };
    assert(run(env, bg, s3) == s4) by {
        reveal_with_fuel(run_from, 4);
    }
    lemma_run_app(env, p4, pd, s);
    lemma_push_d_effect(env, s4);
    let s5 = MachState {
        a: 0,
        d: s.mem[2],
        mem: s3.mem.insert(sp + 2, s.mem[2]).insert(0, sp + 3),
    };
    assert(run(env, p5, s) == s5);
    // Push the caller's this base.
    lemma_run_app(env, p5, bt, s);
    let s6 = MachState { a: 3, d: s.mem[3], ..s5 };
    assert(run(env, bt, s5) == s6) by {
        reveal_with_fuel(run_from, 4);
    }
    lemma_run_app(env, p6, pd, s);
    lemma_push_d_effect(env, s6);
    let s7 = MachState {
        a: 0,
        d: s.mem[3],
        mem: s5.mem.insert(sp + 3, s.mem[3]).insert(0, sp + 4),
    };
    assert(run(env, p7, s) == s7);
    // Push the caller's that base.
    lemma_run_app(env, p7, bh, s);
    let s8 = MachState { a: 4, d: s.mem[4], ..s7 };
    assert(run(env, bh, s7) == s8) by {
        reveal_with_fuel(run_from, 4);
    }
    lemma_run_app(env, p8, pd, s);
    lemma_push_d_effect(env, s8);
    let s9 = MachState {
        a: 0,
        d: s.mem[4],
        mem: s7.mem.insert(sp + 4, s.mem[4]).insert(0, sp + 5),
    };
    assert(run(env, p9, s) == s9);
    // Rebase the callee's argument and local segments and jump.
    lemma_run_app(env, p9, tail, s);
    let sa = MachState {
        a: env[label_text(LabelV::Named(name))],
        d: sp + 5,
        mem: s9.mem.insert(2, sp - n).insert(1, sp + 5),
    };
    assert(run(env, tail, s9) == sa) by {
        reveal_with_fuel(run_from, 18);
    }
}

/// Return-address labels minted from distinct call-site counter values are
/// distinct, whatever functions the two sites call.
pub proof fn lemma_return_labels_distinct(n1: Seq<u8>, c1: nat, n2: Seq<u8>, c2: nat)
    requires
        c1 != c2,
    ensures
        label_text(LabelV::RetAddr(n1, c1)) != label_text(LabelV::RetAddr(n2, c2)),
{
    lemma_sep_suffix_distinct(n1, c1, n2, c2, '_' as u8);
}

/// Label pairs minted by two comparisons from distinct counter values are
/// pairwise distinct, and no success label ever equals a join label.
pub proof fn lemma_comparison_labels_distinct(c1: nat, c2: nat)
    requires
        c1 != c2,
    ensures
        label_text(LabelV::CmpTrue(c1)) != label_text(LabelV::CmpTrue(c2)),
        label_text(LabelV::CmpEnd(c1)) != label_text(LabelV::CmpEnd(c2)),
        label_text(LabelV::CmpTrue(c1)) != label_text(LabelV::CmpEnd(c2)),
        label_text(LabelV::CmpTrue(c2)) != label_text(LabelV::CmpEnd(c1)),
        label_text(LabelV::CmpTrue(c1)) != label_text(LabelV::CmpEnd(c1)),
        label_text(LabelV::CmpTrue(c2)) != label_text(LabelV::CmpEnd(c2)),
{
    lemma_cmp_labels_distinct(c1, c2);
    lemma_cmp_true_ne_end(c1, c2);
    lemma_cmp_true_ne_end(c2, c1);
    lemma_cmp_true_ne_end(c1, c1);
    lemma_cmp_true_ne_end(c2, c2);
}

/// Frame protocol: from a state `call` just built — the four saved bases and
/// the return address on the stack, one argument below them, the local base
/// at the stack pointer — running `function f 2` directly followed by
/// `return` restores the caller's four base registers, leaves exactly one
/// value (the callee's top of stack) where the caller's argument stood, sets
/// the stack pointer one past it, and lands the A register on the saved
/// return address.
pub proof fn lemma_function_return_frame(
    env: Map<Seq<u8>, int>,
    name: Seq<u8>,
    s: MachState,
    ret: int,
    lcl0: int,
    arg0: int,
    this0: int,
    that0: int,
)
    requires
        s.mem[0] >= 22,
        s.mem[1] == s.mem[0],
        s.mem[2] == s.mem[0] - 6,
        s.mem[s.mem[0] - 5] == ret,
        s.mem[s.mem[0] - 4] == lcl0,
        s.mem[s.mem[0] - 3] == arg0,
        s.mem[s.mem[0] - 2] == this0,
        s.mem[s.mem[0] - 1] == that0,
    ensures
        run(env, function_code(name, 2) + return_code(), s).mem[1] == lcl0,
        run(env, function_code(name, 2) + return_code(), s).mem[2] == arg0,
        run(env, function_code(name, 2) + return_code(), s).mem[3] == this0,
        run(env, function_code(name, 2) + return_code(), s).mem[4] == that0,
        run(env, function_code(name, 2) + return_code(), s).mem[0] == s.mem[2] + 1,
        run(env, function_code(name, 2) + return_code(), s).mem[s.mem[2]] == 0,
        run(env, function_code(name, 2) + return_code(), s).a == ret,
{
    let sp = s.mem[0];
    lemma_run_app(env, function_code(name, 2), return_code(), s);
    lemma_function_effect(env, name, 2, s);
    let s1 = run(env, function_code(name, 2), s);
    assert(s1.mem[0] == sp + 2);
    assert(s1.mem[1] == sp);
    assert(s1.mem[2] == sp - 6);
    assert(s1.mem[sp] == 0);
    assert(s1.mem[sp + 1] == 0);
    assert(s1.mem[sp - 5] == ret);
    assert(s1.mem[sp - 4] == lcl0);
    assert(s1.mem[sp - 3] == arg0);
    assert(s1.mem[sp - 2] == this0);
    assert(s1.mem[sp - 1] == that0);
    lemma_return_effect(env, s1);
}

/// Recursion safety: two call sites with distinct counter values land on
/// distinct return-address labels, and when the inner activation returns, an
/// outer activation's saved frame — anywhere in the stack region below the
/// inner activation's argument cell — keeps every one of its five cells.
pub proof fn lemma_recursive_call_isolation(
    env: Map<Seq<u8>, int>,
    name: Seq<u8>,
    c1: nat,
    c2: nat,
    s: MachState,
    fb: int,
)
    requires
        c1 != c2,
        16 <= fb,
        fb + 5 <= s.mem[2],
        s.mem[1] >= 21,
        s.mem[2] < s.mem[1] - 5,
        s.mem[0] >= s.mem[1],
    ensures
        label_text(LabelV::RetAddr(name, c1)) != label_text(LabelV::RetAddr(name, c2)),
        forall|x: int| fb <= x < fb + 5 ==> run(env, return_code(), s).mem[x] == s.mem[x],
{
    lemma_return_labels_distinct(name, c1, name, c2);
    lemma_return_effect(env, s);
}

} // verus!
