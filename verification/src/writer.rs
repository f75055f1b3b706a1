//! The code generator.
//!
//! [`CodeWriter`] consumes one classified instruction at a time and returns
//! the fixed block of Hack assembly that implements it, maintaining the two
//! pieces of cross-instruction state the translation needs: the comparison
//! counter behind every `eq`/`gt`/`lt` label pair and the call-site counter
//! behind every return-address label.  Each emission method's contract pins
//! the returned block to a spec-level instruction sequence; the semantic
//! lemmas about those sequences live in `laws`.
use vstd::prelude::*;

use crate::bytes::{dec_val, eq_bytes, is_digit};
use crate::hack::{Comp, Dest, Instr, InstrV, Jmp, LabelId, LabelV, Reg};
use crate::parser::{lit_pop, lit_push};

verus! {

/// The largest value an address instruction can carry: Hack `@n` constants
/// are 15-bit.
pub const MAX_ADDR: u16 = 32767;

/// The eight virtual memory segments a push or pop may name.
#[derive(Debug, Clone, Copy, PartialEq, Eq, Structural)]
pub enum Segment {
    Constant,
    Local,
    Argument,
    This,
    That,
    Temp,
    Pointer,
    Static,
}

/// The nine stack operators.
#[derive(Debug, Clone, Copy, PartialEq, Eq, Structural)]
pub enum ArithOp {
    Add,
    Sub,
    Neg,
    Eq,
    Gt,
    Lt,
    And,
    Or,
    Not,
}

/// Why a translation request was rejected.  Every error is an input error:
/// the offending operand is carried so a caller can report it.
#[derive(Debug, Clone, PartialEq, Eq)]
pub enum TranslateError {
    /// The operator of an arithmetic instruction is not one of the nine.
    UnknownOperator,
    /// The segment of a push or pop is not one of the eight.
    UnknownSegment,
    /// `pop constant` names no memory cell.
    PopConstant,
    /// A numeric operand is empty, non-numeric, or too large for an address
    /// instruction.
    BadIndex,
    /// A source line lacks an operand its kind requires.
    MissingOperand,
}

pub open spec fn lit_constant() -> Seq<u8> {
    seq![
        'c' as u8,
        'o' as u8,
        'n' as u8,
        's' as u8,
        't' as u8,
        'a' as u8,
        'n' as u8,
        't' as u8,
    ]
}

pub open spec fn lit_local() -> Seq<u8> {
    seq!['l' as u8, 'o' as u8, 'c' as u8, 'a' as u8, 'l' as u8]
}

pub open spec fn lit_argument() -> Seq<u8> {
    seq![
        'a' as u8,
        'r' as u8,
        'g' as u8,
        'u' as u8,
        'm' as u8,
        'e' as u8,
        'n' as u8,
        't' as u8,
    ]
}

pub open spec fn lit_this() -> Seq<u8> {
    seq!['t' as u8, 'h' as u8, 'i' as u8, 's' as u8]
}

pub open spec fn lit_that() -> Seq<u8> {
    seq!['t' as u8, 'h' as u8, 'a' as u8, 't' as u8]
}

pub open spec fn lit_temp() -> Seq<u8> {
    seq!['t' as u8, 'e' as u8, 'm' as u8, 'p' as u8]
}

pub open spec fn lit_pointer() -> Seq<u8> {
    seq!['p' as u8, 'o' as u8, 'i' as u8, 'n' as u8, 't' as u8, 'e' as u8, 'r' as u8]
}

pub open spec fn lit_static() -> Seq<u8> {
    seq!['s' as u8, 't' as u8, 'a' as u8, 't' as u8, 'i' as u8, 'c' as u8]
}

/// Classify a segment name.
pub open spec fn seg_of(s: Seq<u8>) -> Option<Segment> {
    if s == lit_constant() {
        Some(Segment::Constant)
    } else if s == lit_local() {
        Some(Segment::Local)
    } else if s == lit_argument() {
        Some(Segment::Argument)
    } else if s == lit_this() {
        Some(Segment::This)
    } else if s == lit_that() {
        Some(Segment::That)
    } else if s == lit_temp() {
        Some(Segment::Temp)
    } else if s == lit_pointer() {
        Some(Segment::Pointer)
    } else if s == lit_static() {
        Some(Segment::Static)
    } else {
        None
    }
}

pub open spec fn lit_add() -> Seq<u8> {
    seq!['a' as u8, 'd' as u8, 'd' as u8]
}

pub open spec fn lit_sub() -> Seq<u8> {
    seq!['s' as u8, 'u' as u8, 'b' as u8]
}

pub open spec fn lit_neg() -> Seq<u8> {
    seq!['n' as u8, 'e' as u8, 'g' as u8]
}

pub open spec fn lit_eq() -> Seq<u8> {
    seq!['e' as u8, 'q' as u8]
}

pub open spec fn lit_gt() -> Seq<u8> {
    seq!['g' as u8, 't' as u8]
}

pub open spec fn lit_lt() -> Seq<u8> {
    seq!['l' as u8, 't' as u8]
}

pub open spec fn lit_and() -> Seq<u8> {
    seq!['a' as u8, 'n' as u8, 'd' as u8]
}

pub open spec fn lit_or() -> Seq<u8> {
    seq!['o' as u8, 'r' as u8]
}

pub open spec fn lit_not() -> Seq<u8> {
    seq!['n' as u8, 'o' as u8, 't' as u8]
}

/// Classify an arithmetic operator name.
pub open spec fn op_of(s: Seq<u8>) -> Option<ArithOp> {
    if s == lit_add() {
        Some(ArithOp::Add)
    } else if s == lit_sub() {
        Some(ArithOp::Sub)
    } else if s == lit_neg() {
        Some(ArithOp::Neg)
    } else if s == lit_eq() {
        Some(ArithOp::Eq)
    } else if s == lit_gt() {
        Some(ArithOp::Gt)
    } else if s == lit_lt() {
        Some(ArithOp::Lt)
    } else if s == lit_and() {
        Some(ArithOp::And)
    } else if s == lit_or() {
        Some(ArithOp::Or)
    } else if s == lit_not() {
        Some(ArithOp::Not)
    } else {
        None
    }
}

/// `push_d_code` appends the D register to the stack: the tail every push
/// shares.
pub open spec fn push_d_code() -> Seq<InstrV> {
    seq![
        InstrV::AtReg(Reg::Sp),
        InstrV::Compute(Dest::A, Comp::M, Jmp::NoJmp),
        InstrV::Compute(Dest::M, Comp::D, Jmp::NoJmp),
        InstrV::AtReg(Reg::Sp),
        InstrV::Compute(Dest::M, Comp::MPlusOne, Jmp::NoJmp),
    ]
}

/// `pop_d_code` removes the top of stack into the D register: the head every
/// pop shares.
pub open spec fn pop_d_code() -> Seq<InstrV> {
    seq![
        InstrV::AtReg(Reg::Sp),
        InstrV::Compute(Dest::M, Comp::MMinusOne, Jmp::NoJmp),
        InstrV::Compute(Dest::A, Comp::M, Jmp::NoJmp),
        InstrV::Compute(Dest::D, Comp::M, Jmp::NoJmp),
    ]
}

/// The base register of an indirectly addressed segment.
pub open spec fn seg_base(seg: Segment) -> Reg
    recommends
        seg == Segment::Local || seg == Segment::Argument || seg == Segment::This || seg
            == Segment::That,
{
    match seg {
        Segment::Argument => Reg::Arg,
        Segment::This => Reg::This,
        Segment::That => Reg::That,
        _ => Reg::Lcl,
    }
}

/// The address target of a directly addressed slot: `temp` sits at the fixed
/// block starting at 5, `pointer` aliases the `this`/`that` registers at 3
/// and 4, and a `static` slot is a symbol scoped by the source file's name.
pub open spec fn direct_target(seg: Segment, file: Seq<u8>, idx: u16) -> InstrV
    recommends
        seg == Segment::Temp || seg == Segment::Pointer || seg == Segment::Static,
{
    match seg {
        Segment::Temp => InstrV::AtNum((5 + idx) as u16),
        Segment::Pointer => InstrV::AtNum((3 + idx) as u16),
        _ => InstrV::AtLbl(LabelV::StaticRef(file, idx as nat)),
    }
}

/// The block emitted for `push seg idx`.
pub open spec fn push_code(seg: Segment, file: Seq<u8>, idx: u16) -> Seq<InstrV> {
    match seg {
        Segment::Constant => seq![
            InstrV::AtNum(idx),
            InstrV::Compute(Dest::D, Comp::A, Jmp::NoJmp),
        ] + push_d_code(),
        Segment::Temp | Segment::Pointer | Segment::Static => seq![
            direct_target(seg, file, idx),
            InstrV::Compute(Dest::D, Comp::M, Jmp::NoJmp),
        ] + push_d_code(),
        _ => seq![
            InstrV::AtReg(seg_base(seg)),
            InstrV::Compute(Dest::D, Comp::M, Jmp::NoJmp),
            InstrV::AtNum(idx),
            InstrV::Compute(Dest::D, Comp::DPlusA, Jmp::NoJmp),
            InstrV::Compute(Dest::A, Comp::D, Jmp::NoJmp),
            InstrV::Compute(Dest::D, Comp::M, Jmp::NoJmp),
        ] + push_d_code(),
    }
}

/// The block emitted for `pop seg idx`.  An indirect pop parks the computed
/// target address in scratch register 13 while the stack is popped.
pub open spec fn pop_code(seg: Segment, file: Seq<u8>, idx: u16) -> Seq<InstrV>
    recommends
        seg != Segment::Constant,
{
    match seg {
        Segment::Temp | Segment::Pointer | Segment::Static => pop_d_code() + seq![
            direct_target(seg, file, idx),
            InstrV::Compute(Dest::M, Comp::D, Jmp::NoJmp),
        ],
        _ => seq![
            InstrV::AtReg(seg_base(seg)),
            InstrV::Compute(Dest::D, Comp::M, Jmp::NoJmp),
            InstrV::AtNum(idx),
            InstrV::Compute(Dest::D, Comp::DPlusA, Jmp::NoJmp),
            InstrV::AtReg(Reg::R13),
            InstrV::Compute(Dest::M, Comp::D, Jmp::NoJmp),
        ] + pop_d_code() + seq![
            InstrV::AtReg(Reg::R13),
            InstrV::Compute(Dest::A, Comp::M, Jmp::NoJmp),
            InstrV::Compute(Dest::M, Comp::D, Jmp::NoJmp),
        ],
    }
}

/// The combining computation of a binary operator.
pub open spec fn binary_comp(op: ArithOp) -> Comp
    recommends
        op == ArithOp::Add || op == ArithOp::Sub || op == ArithOp::And || op == ArithOp::Or,
{
    match op {
        ArithOp::Add => Comp::DPlusM,
        ArithOp::Sub => Comp::MMinusD,
        ArithOp::And => Comp::DAndM,
        _ => Comp::DOrM,
    }
}

/// The in-place computation of a unary operator.
pub open spec fn unary_comp(op: ArithOp) -> Comp
    recommends
        op == ArithOp::Neg || op == ArithOp::Not,
{
    match op {
        ArithOp::Neg => Comp::NegM,
        _ => Comp::NotM,
    }
}

/// The jump condition a comparison branches on after computing `x - y`.
pub open spec fn compare_jmp(op: ArithOp) -> Jmp
    recommends
        op == ArithOp::Eq || op == ArithOp::Gt || op == ArithOp::Lt,
{
    match op {
        ArithOp::Eq => Jmp::Jeq,
        ArithOp::Gt => Jmp::Jgt,
        _ => Jmp::Jlt,
    }
}

/// The block emitted for a binary operator: pop the right operand into D,
/// combine with the new top of stack in place, leave the stack one shorter.
pub open spec fn binary_code(op: ArithOp) -> Seq<InstrV> {
    pop_d_code() + seq![
        InstrV::AtReg(Reg::Sp),
        InstrV::Compute(Dest::M, Comp::MMinusOne, Jmp::NoJmp),
        InstrV::Compute(Dest::A, Comp::M, Jmp::NoJmp),
        InstrV::Compute(Dest::M, binary_comp(op), Jmp::NoJmp),
        InstrV::AtReg(Reg::Sp),
        InstrV::Compute(Dest::M, Comp::MPlusOne, Jmp::NoJmp),
    ]
}

/// The block emitted for a unary operator: rewrite the top of stack in place.
pub open spec fn unary_code(op: ArithOp) -> Seq<InstrV> {
    seq![
        InstrV::AtReg(Reg::Sp),
        InstrV::Compute(Dest::M, Comp::MMinusOne, Jmp::NoJmp),
        InstrV::Compute(Dest::A, Comp::M, Jmp::NoJmp),
        InstrV::Compute(Dest::M, unary_comp(op), Jmp::NoJmp),
        InstrV::AtReg(Reg::Sp),
        InstrV::Compute(Dest::M, Comp::MPlusOne, Jmp::NoJmp),
    ]
}

/// The block emitted for a comparison: pop both operands, branch on the sign
/// of their difference through a fresh label pair minted from counter value
/// `cnt`, and push all-ones for true or all-zeros for false.
pub open spec fn compare_code(op: ArithOp, cnt: nat) -> Seq<InstrV> {
    pop_d_code() + seq![
        InstrV::AtReg(Reg::Sp),
        InstrV::Compute(Dest::M, Comp::MMinusOne, Jmp::NoJmp),
        InstrV::Compute(Dest::A, Comp::M, Jmp::NoJmp),
        InstrV::Compute(Dest::D, Comp::MMinusD, Jmp::NoJmp),
        InstrV::AtLbl(LabelV::CmpTrue(cnt)),
        InstrV::Compute(Dest::NoDst, Comp::D, compare_jmp(op)),
        InstrV::Compute(Dest::D, Comp::Zero, Jmp::NoJmp),
        InstrV::AtLbl(LabelV::CmpEnd(cnt)),
        InstrV::Compute(Dest::NoDst, Comp::Zero, Jmp::Jeq),
        InstrV::Mark(LabelV::CmpTrue(cnt)),
        InstrV::Compute(Dest::D, Comp::NegOne, Jmp::NoJmp),
        InstrV::Mark(LabelV::CmpEnd(cnt)),
    ] + push_d_code()
}

/// The block emitted for an arithmetic instruction.  Comparisons consume the
/// counter value `cnt`; the other operators ignore it.
pub open spec fn arith_code(op: ArithOp, cnt: nat) -> Seq<InstrV> {
    match op {
        ArithOp::Add | ArithOp::Sub | ArithOp::And | ArithOp::Or => binary_code(op),
        ArithOp::Neg | ArithOp::Not => unary_code(op),
        _ => compare_code(op, cnt),
    }
}

/// Whether an operator allocates a label pair from the comparison counter.
pub open spec fn is_compare(op: ArithOp) -> bool {
    op == ArithOp::Eq || op == ArithOp::Gt || op == ArithOp::Lt
}

/// The block emitted for `label L`.
pub open spec fn label_code(name: Seq<u8>) -> Seq<InstrV> {
    seq![InstrV::Mark(LabelV::Named(name))]
}

/// The block emitted for `goto L`.
pub open spec fn goto_code(name: Seq<u8>) -> Seq<InstrV> {
    seq![
        InstrV::AtLbl(LabelV::Named(name)),
        InstrV::Compute(Dest::NoDst, Comp::Zero, Jmp::Always),
    ]
}

/// The block emitted for `if-goto L`: pop the top of stack, branch when it
/// is non-zero.  The pop happens whether or not the branch is taken.
pub open spec fn if_code(name: Seq<u8>) -> Seq<InstrV> {
    pop_d_code() + seq![
        InstrV::AtLbl(LabelV::Named(name)),
        InstrV::Compute(Dest::NoDst, Comp::D, Jmp::Jne),
    ]
}

/// The block emitted for `function name nLocals`: the entry marker, then
/// `nLocals` pushes of the literal zero.
pub open spec fn function_code(name: Seq<u8>, nlocals: u16) -> Seq<InstrV> {
    seq![
        InstrV::Mark(LabelV::Named(name)),
        InstrV::Compute(Dest::D, Comp::Zero, Jmp::NoJmp),
    ] + rep_push_d(nlocals as nat)
}

/// `n` repetitions of the push-D tail.
pub open spec fn rep_push_d(n: nat) -> Seq<InstrV>
    decreases n,
{
    if n == 0 {
        Seq::empty()
    } else {
        rep_push_d((n - 1) as nat) + push_d_code()
    }
}

/// The block emitted for `call name nArgs`, minted from call-site counter
/// value `cnt`: push the return address and the four saved base registers,
/// recompute the callee's argument base as `SP - nArgs - 5`, set the callee's
/// local base to `SP`, jump, and place the return marker.
pub open spec fn call_code(name: Seq<u8>, nargs: u16, cnt: nat) -> Seq<InstrV> {
    seq![
        InstrV::AtLbl(LabelV::RetAddr(name, cnt)),
        InstrV::Compute(Dest::D, Comp::A, Jmp::NoJmp),
    ] + push_d_code() + seq![
        InstrV::AtReg(Reg::Lcl),
        InstrV::Compute(Dest::D, Comp::M, Jmp::NoJmp),
    ] + push_d_code() + seq![
        InstrV::AtReg(Reg::Arg),
        InstrV::Compute(Dest::D, Comp::M, Jmp::NoJmp),
    ] + push_d_code() + seq![
        InstrV::AtReg(Reg::This),
        InstrV::Compute(Dest::D, Comp::M, Jmp::NoJmp),
    ] + push_d_code() + seq![
        InstrV::AtReg(Reg::That),
        InstrV::Compute(Dest::D, Comp::M, Jmp::NoJmp),
    ] + push_d_code() + seq![
        InstrV::AtReg(Reg::Sp),
        InstrV::Compute(Dest::D, Comp::M, Jmp::NoJmp),
        InstrV::AtNum(5),
        InstrV::Compute(Dest::D, Comp::DMinusA, Jmp::NoJmp),
        InstrV::AtNum(nargs),
        InstrV::Compute(Dest::D, Comp::DMinusA, Jmp::NoJmp),
        InstrV::AtReg(Reg::Arg),
        InstrV::Compute(Dest::M, Comp::D, Jmp::NoJmp),
        InstrV::AtReg(Reg::Sp),
        InstrV::Compute(Dest::D, Comp::M, Jmp::NoJmp),
        InstrV::AtReg(Reg::Lcl),
        InstrV::Compute(Dest::M, Comp::D, Jmp::NoJmp),
        InstrV::AtLbl(LabelV::Named(name)),
        InstrV::Compute(Dest::NoDst, Comp::Zero, Jmp::Always),
        InstrV::Mark(LabelV::RetAddr(name, cnt)),
    ]
}

/// One step of the frame walk in `return`: decrement the frame pointer in
/// scratch register 13, read the cell it now addresses, store it in `r`.
pub open spec fn restore_code(r: Reg) -> Seq<InstrV> {
    seq![
        InstrV::AtReg(Reg::R13),
        InstrV::Compute(Dest::M, Comp::MMinusOne, Jmp::NoJmp),
        InstrV::Compute(Dest::A, Comp::M, Jmp::NoJmp),
        InstrV::Compute(Dest::D, Comp::M, Jmp::NoJmp),
        InstrV::AtReg(r),
        InstrV::Compute(Dest::M, Comp::D, Jmp::NoJmp),
    ]
}

/// The block emitted for `return`: capture the frame pointer, read the
/// return address from `frame - 5`, replace the caller's argument slot with
/// the callee's result, rewind the stack pointer to just past it, restore
/// the four base registers from the frame, and jump to the return address.
pub open spec fn return_code() -> Seq<InstrV> {
    seq![
        InstrV::AtReg(Reg::Lcl),
        InstrV::Compute(Dest::D, Comp::M, Jmp::NoJmp),
        InstrV::AtReg(Reg::R13),
        InstrV::Compute(Dest::M, Comp::D, Jmp::NoJmp),
        InstrV::AtNum(5),
        InstrV::Compute(Dest::D, Comp::A, Jmp::NoJmp),
        InstrV::AtReg(Reg::R13),
        InstrV::Compute(Dest::A, Comp::MMinusD, Jmp::NoJmp),
        InstrV::Compute(Dest::D, Comp::M, Jmp::NoJmp),
        InstrV::AtReg(Reg::R14),
        InstrV::Compute(Dest::M, Comp::D, Jmp::NoJmp),
    ] + pop_d_code() + seq![
        InstrV::AtReg(Reg::Arg),
        InstrV::Compute(Dest::A, Comp::M, Jmp::NoJmp),
        InstrV::Compute(Dest::M, Comp::D, Jmp::NoJmp),
        InstrV::AtReg(Reg::Arg),
        InstrV::Compute(Dest::D, Comp::MPlusOne, Jmp::NoJmp),
        InstrV::AtReg(Reg::Sp),
        InstrV::Compute(Dest::M, Comp::D, Jmp::NoJmp),
    ] + restore_code(Reg::That) + restore_code(Reg::This) + restore_code(Reg::Arg)
        + restore_code(Reg::Lcl) + seq![
        InstrV::AtReg(Reg::R14),
        InstrV::Compute(Dest::A, Comp::M, Jmp::NoJmp),
        InstrV::Compute(Dest::NoDst, Comp::Zero, Jmp::Always),
    ]
}

/// A nonempty, all-digit operand.
pub open spec fn dec_digits(s: Seq<u8>) -> bool {
    s.len() > 0 && forall|i: int| 0 <= i < s.len() ==> is_digit(s[i])
}

/// The largest index a segment accepts, such that the computed address still
/// fits an address instruction.
pub open spec fn max_index(seg: Segment) -> nat {
    match seg {
        Segment::Temp => (MAX_ADDR - 5) as nat,
        Segment::Pointer => (MAX_ADDR - 3) as nat,
        _ => MAX_ADDR as nat,
    }
}

/// A valid index operand for `seg`: digits only, computed address in range.
pub open spec fn index_ok(seg: Segment, s: Seq<u8>) -> bool {
    dec_digits(s) && dec_val(s) <= max_index(seg)
}

proof fn lemma_dec_val_monotone(s: Seq<u8>, k: int)
    requires
        0 <= k <= s.len(),
    ensures
        dec_val(s) >= dec_val(s.take(k)),
    decreases s.len() - k,
{
    if k == s.len() {
        assert(s.take(k) =~= s);
    } else {
        assert(s.take(k + 1).drop_last() =~= s.take(k));
        lemma_dec_val_monotone(s, k + 1);
    }
}

/// Parse a numeric operand.  Returns its value when the operand is a
/// nonempty digit string whose value fits an address instruction.
pub fn parse_index(s: &[u8]) -> (r: Option<u16>)
    ensures
        r is Some <==> dec_digits(s@) && dec_val(s@) <= MAX_ADDR as nat,
        r matches Some(v) ==> v as nat == dec_val(s@),
{
    let n = s.len();
    if n == 0 {
        return None;
    }
    let mut acc: u32 = 0;
    let mut i: usize = 0;
    while i < n
        invariant
            0 <= i <= n,
            n == s@.len(),
            acc as nat == dec_val(s@.take(i as int)),
            acc <= MAX_ADDR,
            forall|j: int| 0 <= j < i ==> is_digit(s@[j]),
        decreases n - i,
    {
        let b = s[i];
        if b < 48 || b > 57 {
            return None;
        }
        let acc2: u32 = acc * 10 + (b - 48) as u32;
        proof {
            assert(s@.take(i + 1).drop_last() =~= s@.take(i as int));
            assert(s@.take(i + 1).last() == s@[i as int]);
        }
        if acc2 > MAX_ADDR as u32 {
            proof {
                lemma_dec_val_monotone(s@, i + 1);
            }
            return None;
        }
        acc = acc2;
        i = i + 1;
    }
    proof {
        assert(s@.take(n as int) =~= s@);
    }
    Some(acc as u16)
}

fn seg_lookup(s: &[u8]) -> (r: Option<Segment>)
    ensures
        r == seg_of(s@),
{
    let w: Vec<u8> = vec![
        'c' as u8,
        'o' as u8,
        'n' as u8,
        's' as u8,
        't' as u8,
        'a' as u8,
        'n' as u8,
        't' as u8,
    ];
    proof {
        assert(w@ =~= lit_constant());
    }
    if eq_bytes(s, w.as_slice()) {
        return Some(Segment::Constant);
    }
    let w: Vec<u8> = vec!['l' as u8, 'o' as u8, 'c' as u8, 'a' as u8, 'l' as u8];
    proof {
        assert(w@ =~= lit_local());
    }
    if eq_bytes(s, w.as_slice()) {
        return Some(Segment::Local);
    }
    let w: Vec<u8> = vec![
        'a' as u8,
        'r' as u8,
        'g' as u8,
        'u' as u8,
        'm' as u8,
        'e' as u8,
        'n' as u8,
        't' as u8,
    ];
    proof {
        assert(w@ =~= lit_argument());
    }
    if eq_bytes(s, w.as_slice()) {
        return Some(Segment::Argument);
    }
    let w: Vec<u8> = vec!['t' as u8, 'h' as u8, 'i' as u8, 's' as u8];
    proof {
        assert(w@ =~= lit_this());
    }
    if eq_bytes(s, w.as_slice()) {
        return Some(Segment::This);
    }
    let w: Vec<u8> = vec!['t' as u8, 'h' as u8, 'a' as u8, 't' as u8];
    proof {
        assert(w@ =~= lit_that());
    }
    if eq_bytes(s, w.as_slice()) {
        return Some(Segment::That);
    }
    let w: Vec<u8> = vec!['t' as u8, 'e' as u8, 'm' as u8, 'p' as u8];
    proof {
        assert(w@ =~= lit_temp());
    }
    if eq_bytes(s, w.as_slice()) {
        return Some(Segment::Temp);
    }
    let w: Vec<u8> = vec!['p' as u8, 'o' as u8, 'i' as u8, 'n' as u8, 't' as u8, 'e' as u8, 'r' as u8];
    proof {
        assert(w@ =~= lit_pointer());
    }
    if eq_bytes(s, w.as_slice()) {
        return Some(Segment::Pointer);
    }
    let w: Vec<u8> = vec!['s' as u8, 't' as u8, 'a' as u8, 't' as u8, 'i' as u8, 'c' as u8];
    proof {
        assert(w@ =~= lit_static());
    }
    if eq_bytes(s, w.as_slice()) {
        return Some(Segment::Static);
    }
    None
}

fn op_lookup(s: &[u8]) -> (r: Option<ArithOp>)
    ensures
        r == op_of(s@),
{
    let w: Vec<u8> = vec!['a' as u8, 'd' as u8, 'd' as u8];
    proof {
        assert(w@ =~= lit_add());
    }
    if eq_bytes(s, w.as_slice()) {
        return Some(ArithOp::Add);
    }
    let w: Vec<u8> = vec!['s' as u8, 'u' as u8, 'b' as u8];
    proof {
        assert(w@ =~= lit_sub());
    }
    if eq_bytes(s, w.as_slice()) {
        return Some(ArithOp::Sub);
    }
    let w: Vec<u8> = vec!['n' as u8, 'e' as u8, 'g' as u8];
    proof {
        assert(w@ =~= lit_neg());
    }
    if eq_bytes(s, w.as_slice()) {
        return Some(ArithOp::Neg);
    }
    let w: Vec<u8> = vec!['e' as u8, 'q' as u8];
    proof {
        assert(w@ =~= lit_eq());
    }
    if eq_bytes(s, w.as_slice()) {
        return Some(ArithOp::Eq);
    }
    let w: Vec<u8> = vec!['g' as u8, 't' as u8];
    proof {
        assert(w@ =~= lit_gt());
    }
    if eq_bytes(s, w.as_slice()) {
        return Some(ArithOp::Gt);
    }
    let w: Vec<u8> = vec!['l' as u8, 't' as u8];
    proof {
        assert(w@ =~= lit_lt());
    }
    if eq_bytes(s, w.as_slice()) {
        return Some(ArithOp::Lt);
    }
    let w: Vec<u8> = vec!['a' as u8, 'n' as u8, 'd' as u8];
    proof {
        assert(w@ =~= lit_and());
    }
    if eq_bytes(s, w.as_slice()) {
        return Some(ArithOp::And);
    }
    let w: Vec<u8> = vec!['o' as u8, 'r' as u8];
    proof {
        assert(w@ =~= lit_or());
    }
    if eq_bytes(s, w.as_slice()) {
        return Some(ArithOp::Or);
    }
    let w: Vec<u8> = vec!['n' as u8, 'o' as u8, 't' as u8];
    proof {
        assert(w@ =~= lit_not());
    }
    if eq_bytes(s, w.as_slice()) {
        return Some(ArithOp::Not);
    }
    None
}

/// Append the push-D tail to a block under construction.
fn emit_push_d(out: &mut Vec<Instr>)
    ensures
        final(out).deep_view() == old(out).deep_view() + push_d_code(),
{
    out.push(Instr::AtReg(Reg::Sp));
    out.push(Instr::Compute(Dest::A, Comp::M, Jmp::NoJmp));
    out.push(Instr::Compute(Dest::M, Comp::D, Jmp::NoJmp));
    out.push(Instr::AtReg(Reg::Sp));
    out.push(Instr::Compute(Dest::M, Comp::MPlusOne, Jmp::NoJmp));
    proof {
        assert(out.deep_view() =~= old(out).deep_view() + push_d_code());
    }
}

/// Append the pop-into-D head to a block under construction.
fn emit_pop_d(out: &mut Vec<Instr>)
    ensures
        final(out).deep_view() == old(out).deep_view() + pop_d_code(),
{
    out.push(Instr::AtReg(Reg::Sp));
    out.push(Instr::Compute(Dest::M, Comp::MMinusOne, Jmp::NoJmp));
    out.push(Instr::Compute(Dest::A, Comp::M, Jmp::NoJmp));
    out.push(Instr::Compute(Dest::D, Comp::M, Jmp::NoJmp));
    proof {
        assert(out.deep_view() =~= old(out).deep_view() + pop_d_code());
    }
}

/// The code generator's cross-instruction state: the two label counters and
/// the base name of the source file currently being translated, which scopes
/// its static segment.
pub struct CodeWriter {
    pub jmp_point: u64,
    pub return_num: u64,
    pub file_tag: Vec<u8>,
}

/// Both counters and the file tag are untouched.
pub open spec fn writer_unchanged(w1: CodeWriter, w2: CodeWriter) -> bool {
    w1.jmp_point == w2.jmp_point && w1.return_num == w2.return_num && w1.file_tag@ == w2.file_tag@
}

impl CodeWriter {
    /// A fresh generator for the file named `file_tag`: both counters start
    /// at zero.
    pub fn new(file_tag: Vec<u8>) -> (w: CodeWriter)
        ensures
            w.jmp_point == 0,
            w.return_num == 0,
            w.file_tag@ == file_tag@,
    {
        CodeWriter { jmp_point: 0, return_num: 0, file_tag }
    }

    /// Move on to the next source file of the same program: its static block
    /// gets a fresh scope, while the counters keep rising so labels stay
    /// unique across the whole output.
    pub fn set_file_name(&mut self, file_tag: Vec<u8>)
        ensures
            final(self).jmp_point == old(self).jmp_point,
            final(self).return_num == old(self).return_num,
            final(self).file_tag@ == file_tag@,
    {
        self.file_tag = file_tag;
    }

    /// Translate an arithmetic instruction.  A comparison operator consumes
    /// the next comparison-counter value for its fresh label pair; an
    /// operator outside the nine is refused.
    pub fn write_arithmetic(&mut self, command: &[u8]) -> (r: Result<Vec<Instr>, TranslateError>)
        requires
            old(self).jmp_point < u64::MAX,
        ensures
            r is Ok <==> op_of(command@) is Some,
            r matches Ok(code) ==> code.deep_view() == arith_code(
                op_of(command@).unwrap(),
                (old(self).jmp_point + 1) as nat,
            ),
            r matches Err(e) ==> e == TranslateError::UnknownOperator,
            final(self).jmp_point as int == if op_of(command@) matches Some(op) && is_compare(op) {
                old(self).jmp_point + 1
            } else {
                old(self).jmp_point as int
            },
            final(self).return_num == old(self).return_num,
            final(self).file_tag@ == old(self).file_tag@,
    {
        let op = match op_lookup(command) {
            Some(op) => op,
            None => {
                return Err(TranslateError::UnknownOperator);
            },
        };
        let mut code: Vec<Instr> = Vec::new();
        proof {
            assert(code.deep_view() =~= Seq::<InstrV>::empty());
        }
        match op {
            ArithOp::Add | ArithOp::Sub | ArithOp::And | ArithOp::Or => {
                emit_pop_d(&mut code);
                code.push(Instr::AtReg(Reg::Sp));
                code.push(Instr::Compute(Dest::M, Comp::MMinusOne, Jmp::NoJmp));
                code.push(Instr::Compute(Dest::A, Comp::M, Jmp::NoJmp));
                let c = match op {
                    ArithOp::Add => Comp::DPlusM,
                    ArithOp::Sub => Comp::MMinusD,
                    ArithOp::And => Comp::DAndM,
                    _ => Comp::DOrM,
                };
                code.push(Instr::Compute(Dest::M, c, Jmp::NoJmp));
                code.push(Instr::AtReg(Reg::Sp));
                code.push(Instr::Compute(Dest::M, Comp::MPlusOne, Jmp::NoJmp));
                proof {
                    assert(code.deep_view() =~= binary_code(op));
                }
                Ok(code)
            },
            ArithOp::Neg | ArithOp::Not => {
                code.push(Instr::AtReg(Reg::Sp));
                code.push(Instr::Compute(Dest::M, Comp::MMinusOne, Jmp::NoJmp));
                code.push(Instr::Compute(Dest::A, Comp::M, Jmp::NoJmp));
                let c = match op {
                    ArithOp::Neg => Comp::NegM,
                    _ => Comp::NotM,
                };
                code.push(Instr::Compute(Dest::M, c, Jmp::NoJmp));
                code.push(Instr::AtReg(Reg::Sp));
                code.push(Instr::Compute(Dest::M, Comp::MPlusOne, Jmp::NoJmp));
                proof {
                    assert(code.deep_view() =~= unary_code(op));
                }
                Ok(code)
            },
            _ => {
                self.jmp_point = self.jmp_point + 1;
                let cnt = self.jmp_point;
                emit_pop_d(&mut code);
                code.push(Instr::AtReg(Reg::Sp));
                code.push(Instr::Compute(Dest::M, Comp::MMinusOne, Jmp::NoJmp));
                code.push(Instr::Compute(Dest::A, Comp::M, Jmp::NoJmp));
                code.push(Instr::Compute(Dest::D, Comp::MMinusD, Jmp::NoJmp));
                code.push(Instr::AtLbl(LabelId::CmpTrue(cnt)));
                let j = match op {
                    ArithOp::Eq => Jmp::Jeq,
                    ArithOp::Gt => Jmp::Jgt,
                    _ => Jmp::Jlt,
                };
                code.push(Instr::Compute(Dest::NoDst, Comp::D, j));
                code.push(Instr::Compute(Dest::D, Comp::Zero, Jmp::NoJmp));
                code.push(Instr::AtLbl(LabelId::CmpEnd(cnt)));
                code.push(Instr::Compute(Dest::NoDst, Comp::Zero, Jmp::Jeq));
                code.push(Instr::Mark(LabelId::CmpTrue(cnt)));
                code.push(Instr::Compute(Dest::D, Comp::NegOne, Jmp::NoJmp));
                code.push(Instr::Mark(LabelId::CmpEnd(cnt)));
                emit_push_d(&mut code);
                proof {
                    assert(code.deep_view() =~= compare_code(op, cnt as nat));
                }
                Ok(code)
            },
        }
    }

    /// Translate `push segment index` or `pop segment index`.  The segment
    /// must be one of the eight, `pop constant` is refused, and the index
    /// must be a digit string whose computed address fits an address
    /// instruction.
    pub fn write_pushpop(&mut self, command: &[u8], segment: &[u8], index: &[u8]) -> (r: Result<
        Vec<Instr>,
        TranslateError,
    >)
        requires
            command@ == lit_push() || command@ == lit_pop(),
        ensures
            writer_unchanged(*old(self), *final(self)),
            r is Ok <==> (seg_of(segment@) matches Some(seg) && !(command@ == lit_pop() && seg
                == Segment::Constant) && index_ok(seg, index@)),
            r matches Ok(code) ==> code.deep_view() == if command@ == lit_push() {
                push_code(seg_of(segment@).unwrap(), old(self).file_tag@, dec_val(index@) as u16)
            } else {
                pop_code(seg_of(segment@).unwrap(), old(self).file_tag@, dec_val(index@) as u16)
            },
            seg_of(segment@) is None ==> r == Err::<Vec<Instr>, TranslateError>(
                TranslateError::UnknownSegment,
            ),
            (seg_of(segment@) matches Some(seg) && command@ == lit_pop() && seg
                == Segment::Constant) ==> r == Err::<Vec<Instr>, TranslateError>(
                TranslateError::PopConstant,
            ),
            (seg_of(segment@) matches Some(seg) && !(command@ == lit_pop() && seg
                == Segment::Constant) && !index_ok(seg, index@)) ==> r == Err::<
                Vec<Instr>,
                TranslateError,
            >(TranslateError::BadIndex),
    {
        let seg = match seg_lookup(segment) {
            Some(seg) => seg,
            None => {
                return Err(TranslateError::UnknownSegment);
            },
        };
        let w: Vec<u8> = vec!['p' as u8, 'u' as u8, 's' as u8, 'h' as u8];
        proof {
            assert(w@ =~= lit_push());
        }
        let is_push = eq_bytes(command, w.as_slice());
        if !is_push && seg == Segment::Constant {
            return Err(TranslateError::PopConstant);
        }
        let idx = match parse_index(index) {
            Some(v) => v,
            None => {
                return Err(TranslateError::BadIndex);
            },
        };
        if seg == Segment::Temp && idx > MAX_ADDR - 5 {
            return Err(TranslateError::BadIndex);
        }
        if seg == Segment::Pointer && idx > MAX_ADDR - 3 {
            return Err(TranslateError::BadIndex);
        }
        let mut code: Vec<Instr> = Vec::new();
        proof {
            assert(code.deep_view() =~= Seq::<InstrV>::empty());
        }
        match seg {
            Segment::Constant => {
                code.push(Instr::AtNum(idx));
                code.push(Instr::Compute(Dest::D, Comp::A, Jmp::NoJmp));
                emit_push_d(&mut code);
                proof {
                    assert(code.deep_view() =~= push_code(seg, old(self).file_tag@, idx));
                }
                Ok(code)
            },
            Segment::Temp | Segment::Pointer | Segment::Static => {
                let target = match seg {
                    Segment::Temp => Instr::AtNum(5 + idx),
                    Segment::Pointer => Instr::AtNum(3 + idx),
                    _ => Instr::AtLbl(
                        LabelId::StaticRef(
                            vstd::slice::slice_to_vec(self.file_tag.as_slice()),
                            idx as u64,
                        ),
                    ),
                };
                proof {
                    assert(target@ == direct_target(seg, self.file_tag@, idx));
                }
                if is_push {
                    code.push(target);
                    code.push(Instr::Compute(Dest::D, Comp::M, Jmp::NoJmp));
                    emit_push_d(&mut code);
                    proof {
                        assert(code.deep_view() =~= push_code(seg, old(self).file_tag@, idx));
                    }
                } else {
                    emit_pop_d(&mut code);
                    code.push(target);
                    code.push(Instr::Compute(Dest::M, Comp::D, Jmp::NoJmp));
                    proof {
                        assert(code.deep_view() =~= pop_code(seg, old(self).file_tag@, idx));
                    }
                }
                Ok(code)
            },
            _ => {
                let base = match seg {
                    Segment::Argument => Reg::Arg,
                    Segment::This => Reg::This,
                    Segment::That => Reg::That,
                    _ => Reg::Lcl,
                };
                if is_push {
                    code.push(Instr::AtReg(base));
                    code.push(Instr::Compute(Dest::D, Comp::M, Jmp::NoJmp));
                    code.push(Instr::AtNum(idx));
                    code.push(Instr::Compute(Dest::D, Comp::DPlusA, Jmp::NoJmp));
                    code.push(Instr::Compute(Dest::A, Comp::D, Jmp::NoJmp));
                    code.push(Instr::Compute(Dest::D, Comp::M, Jmp::NoJmp));
                    emit_push_d(&mut code);
                    proof {
                        assert(code.deep_view() =~= push_code(seg, old(self).file_tag@, idx));
                    }
                } else {
                    code.push(Instr::AtReg(base));
                    code.push(Instr::Compute(Dest::D, Comp::M, Jmp::NoJmp));
                    code.push(Instr::AtNum(idx));
                    code.push(Instr::Compute(Dest::D, Comp::DPlusA, Jmp::NoJmp));
                    code.push(Instr::AtReg(Reg::R13));
                    code.push(Instr::Compute(Dest::M, Comp::D, Jmp::NoJmp));
                    let ghost head = seq![
                        InstrV::AtReg(seg_base(seg)),
                        InstrV::Compute(Dest::D, Comp::M, Jmp::NoJmp),
                        InstrV::AtNum(idx),
                        InstrV::Compute(Dest::D, Comp::DPlusA, Jmp::NoJmp),
                        InstrV::AtReg(Reg::R13),
                        InstrV::Compute(Dest::M, Comp::D, Jmp::NoJmp),
                    ];
                    proof {
                        assert(code.deep_view() =~= head);
                    }
                    emit_pop_d(&mut code);
                    code.push(Instr::AtReg(Reg::R13));
                    code.push(Instr::Compute(Dest::A, Comp::M, Jmp::NoJmp));
                    code.push(Instr::Compute(Dest::M, Comp::D, Jmp::NoJmp));
                    proof {
                        assert(code.deep_view() =~= head + pop_d_code() + seq![
                            InstrV::AtReg(Reg::R13),
                            InstrV::Compute(Dest::A, Comp::M, Jmp::NoJmp),
                            InstrV::Compute(Dest::M, Comp::D, Jmp::NoJmp),
                        ]);
                        assert(code.deep_view() =~= pop_code(seg, old(self).file_tag@, idx));
                    }
                }
                Ok(code)
            },
        }
    }

    /// Translate `label L`.
    pub fn write_label(&self, label: &[u8]) -> (r: Vec<Instr>)
        ensures
            r.deep_view() == label_code(label@),
    {
        let mut code: Vec<Instr> = Vec::new();
        code.push(Instr::Mark(LabelId::Named(vstd::slice::slice_to_vec(label))));
        proof {
            assert(code.deep_view() =~= label_code(label@));
        }
        code
    }

    /// Translate `goto L`.
    pub fn write_goto(&self, label: &[u8]) -> (r: Vec<Instr>)
        ensures
            r.deep_view() == goto_code(label@),
    {
        let mut code: Vec<Instr> = Vec::new();
        code.push(Instr::AtLbl(LabelId::Named(vstd::slice::slice_to_vec(label))));
        code.push(Instr::Compute(Dest::NoDst, Comp::Zero, Jmp::Always));
        proof {
            assert(code.deep_view() =~= goto_code(label@));
        }
        code
    }

    /// Translate `if-goto L`.
    pub fn write_if(&self, label: &[u8]) -> (r: Vec<Instr>)
        ensures
            r.deep_view() == if_code(label@),
    {
        let mut code: Vec<Instr> = Vec::new();
        emit_pop_d(&mut code);
        code.push(Instr::AtLbl(LabelId::Named(vstd::slice::slice_to_vec(label))));
        code.push(Instr::Compute(Dest::NoDst, Comp::D, Jmp::Jne));
        proof {
            assert(code.deep_view() =~= if_code(label@));
        }
        code
    }

    /// Translate `function name nLocals`: the entry marker, then `nLocals`
    /// zero-initialized local slots.
    pub fn write_function(&self, name: &[u8], nlocals: &[u8]) -> (r: Result<
        Vec<Instr>,
        TranslateError,
    >)
        ensures
            r is Ok <==> dec_digits(nlocals@) && dec_val(nlocals@) <= MAX_ADDR as nat,
            r matches Ok(code) ==> code.deep_view() == function_code(
                name@,
                dec_val(nlocals@) as u16,
            ),
            r matches Err(e) ==> e == TranslateError::BadIndex,
    {
        let k = match parse_index(nlocals) {
            Some(v) => v,
            None => {
                return Err(TranslateError::BadIndex);
            },
        };
        let mut code: Vec<Instr> = Vec::new();
        code.push(Instr::Mark(LabelId::Named(vstd::slice::slice_to_vec(name))));
        code.push(Instr::Compute(Dest::D, Comp::Zero, Jmp::NoJmp));
        let ghost head = code.deep_view();
        proof {
            assert(code.deep_view() =~= head + rep_push_d(0));
        }
        let mut i: u16 = 0;
        while i < k
            invariant
                0 <= i <= k,
                code.deep_view() == head + rep_push_d(i as nat),
            decreases k - i,
        {
            emit_push_d(&mut code);
            proof {
                assert(head + rep_push_d(i as nat) + push_d_code() =~= head + rep_push_d(
                    (i + 1) as nat,
                ));
            }
            i = i + 1;
        }
        proof {
            assert(code.deep_view() =~= function_code(name@, k));
        }
        Ok(code)
    }

    /// Translate `call name nArgs`: mint a fresh return-address label from
    /// the call-site counter, save the caller's frame, rebase the callee's
    /// argument and local segments, jump, and land the return marker.
    pub fn write_call(&mut self, name: &[u8], nargs: &[u8]) -> (r: Result<
        Vec<Instr>,
        TranslateError,
    >)
        requires
            old(self).return_num < u64::MAX,
        ensures
            r is Ok <==> dec_digits(nargs@) && dec_val(nargs@) <= MAX_ADDR as nat,
            r matches Ok(code) ==> code.deep_view() == call_code(
                name@,
                dec_val(nargs@) as u16,
                old(self).return_num as nat,
            ),
            r matches Err(e) ==> e == TranslateError::BadIndex,
            r is Ok ==> final(self).return_num == old(self).return_num + 1,
            r is Err ==> final(self).return_num == old(self).return_num,
            final(self).jmp_point == old(self).jmp_point,
            final(self).file_tag@ == old(self).file_tag@,
    {
        let n = match parse_index(nargs) {
            Some(v) => v,
            None => {
                return Err(TranslateError::BadIndex);
            },
        };
        let cnt = self.return_num;
        self.return_num = self.return_num + 1;
        let mut code: Vec<Instr> = Vec::new();
        code.push(Instr::AtLbl(LabelId::RetAddr(vstd::slice::slice_to_vec(name), cnt)));
        code.push(Instr::Compute(Dest::D, Comp::A, Jmp::NoJmp));
        let ghost s0 = seq![
            InstrV::AtLbl(LabelV::RetAddr(name@, cnt as nat)),
            InstrV::Compute(Dest::D, Comp::A, Jmp::NoJmp),
        ];
        proof {
            assert(code.deep_view() =~= s0);
        }
        emit_push_d(&mut code);
        code.push(Instr::AtReg(Reg::Lcl));
        code.push(Instr::Compute(Dest::D, Comp::M, Jmp::NoJmp));
        let ghost s1 = s0 + push_d_code() + seq![
            InstrV::AtReg(Reg::Lcl),
            InstrV::Compute(Dest::D, Comp::M, Jmp::NoJmp),
        ];
        proof {
            assert(code.deep_view() =~= s1);
        }
        emit_push_d(&mut code);
        code.push(Instr::AtReg(Reg::Arg));
        code.push(Instr::Compute(Dest::D, Comp::M, Jmp::NoJmp));
        let ghost s2 = s1 + push_d_code() + seq![
            InstrV::AtReg(Reg::Arg),
            InstrV::Compute(Dest::D, Comp::M, Jmp::NoJmp),
        ];
        proof {
            assert(code.deep_view() =~= s2);
        }
        emit_push_d(&mut code);
        code.push(Instr::AtReg(Reg::This));
        code.push(Instr::Compute(Dest::D, Comp::M, Jmp::NoJmp));
        let ghost s3 = s2 + push_d_code() + seq![
            InstrV::AtReg(Reg::This),
            InstrV::Compute(Dest::D, Comp::M, Jmp::NoJmp),
        ];
        proof {
            assert(code.deep_view() =~= s3);
        }
        emit_push_d(&mut code);
        code.push(Instr::AtReg(Reg::That));
        code.push(Instr::Compute(Dest::D, Comp::M, Jmp::NoJmp));
        let ghost s4 = s3 + push_d_code() + seq![
            InstrV::AtReg(Reg::That),
            InstrV::Compute(Dest::D, Comp::M, Jmp::NoJmp),
        ];
        proof {
            assert(code.deep_view() =~= s4);
        }
        emit_push_d(&mut code);
        code.push(Instr::AtReg(Reg::Sp));
        code.push(Instr::Compute(Dest::D, Comp::M, Jmp::NoJmp));
        code.push(Instr::AtNum(5));
        code.push(Instr::Compute(Dest::D, Comp::DMinusA, Jmp::NoJmp));
        code.push(Instr::AtNum(n));
        code.push(Instr::Compute(Dest::D, Comp::DMinusA, Jmp::NoJmp));
        code.push(Instr::AtReg(Reg::Arg));
        code.push(Instr::Compute(Dest::M, Comp::D, Jmp::NoJmp));
        code.push(Instr::AtReg(Reg::Sp));
        code.push(Instr::Compute(Dest::D, Comp::M, Jmp::NoJmp));
        code.push(Instr::AtReg(Reg::Lcl));
        code.push(Instr::Compute(Dest::M, Comp::D, Jmp::NoJmp));
        code.push(Instr::AtLbl(LabelId::Named(vstd::slice::slice_to_vec(name))));
        code.push(Instr::Compute(Dest::NoDst, Comp::Zero, Jmp::Always));
        code.push(Instr::Mark(LabelId::RetAddr(vstd::slice::slice_to_vec(name), cnt)));
        proof {
            assert(code.deep_view() =~= call_code(name@, n, cnt as nat));
        }
        Ok(code)
    }

    /// Translate `return`: walk the frame the matching call built and hand
    /// control and one result value back to the caller.
    pub fn write_return(&self) -> (r: Vec<Instr>)
        ensures
            r.deep_view() == return_code(),
    {
        let mut code: Vec<Instr> = Vec::new();
        code.push(Instr::AtReg(Reg::Lcl));
        code.push(Instr::Compute(Dest::D, Comp::M, Jmp::NoJmp));
        code.push(Instr::AtReg(Reg::R13));
        code.push(Instr::Compute(Dest::M, Comp::D, Jmp::NoJmp));
        code.push(Instr::AtNum(5));
        code.push(Instr::Compute(Dest::D, Comp::A, Jmp::NoJmp));
        code.push(Instr::AtReg(Reg::R13));
        code.push(Instr::Compute(Dest::A, Comp::MMinusD, Jmp::NoJmp));
        code.push(Instr::Compute(Dest::D, Comp::M, Jmp::NoJmp));
        code.push(Instr::AtReg(Reg::R14));
        code.push(Instr::Compute(Dest::M, Comp::D, Jmp::NoJmp));
        let ghost s0 = seq![
            InstrV::AtReg(Reg::Lcl),
            InstrV::Compute(Dest::D, Comp::M, Jmp::NoJmp),
            InstrV::AtReg(Reg::R13),
            InstrV::Compute(Dest::M, Comp::D, Jmp::NoJmp),
            InstrV::AtNum(5),
            InstrV::Compute(Dest::D, Comp::A, Jmp::NoJmp),
            InstrV::AtReg(Reg::R13),
            InstrV::Compute(Dest::A, Comp::MMinusD, Jmp::NoJmp),
            InstrV::Compute(Dest::D, Comp::M, Jmp::NoJmp),
            InstrV::AtReg(Reg::R14),
            InstrV::Compute(Dest::M, Comp::D, Jmp::NoJmp),
        ];
        proof {
            assert(code.deep_view() =~= s0);
        }
        emit_pop_d(&mut code);
        code.push(Instr::AtReg(Reg::Arg));
        code.push(Instr::Compute(Dest::A, Comp::M, Jmp::NoJmp));
        code.push(Instr::Compute(Dest::M, Comp::D, Jmp::NoJmp));
        code.push(Instr::AtReg(Reg::Arg));
        code.push(Instr::Compute(Dest::D, Comp::MPlusOne, Jmp::NoJmp));
        code.push(Instr::AtReg(Reg::Sp));
        code.push(Instr::Compute(Dest::M, Comp::D, Jmp::NoJmp));
        let ghost s1 = s0 + pop_d_code() + seq![
            InstrV::AtReg(Reg::Arg),
            InstrV::Compute(Dest::A, Comp::M, Jmp::NoJmp),
            InstrV::Compute(Dest::M, Comp::D, Jmp::NoJmp),
            InstrV::AtReg(Reg::Arg),
            InstrV::Compute(Dest::D, Comp::MPlusOne, Jmp::NoJmp),
            InstrV::AtReg(Reg::Sp),
            InstrV::Compute(Dest::M, Comp::D, Jmp::NoJmp),
        ];
        proof {
            assert(code.deep_view() =~= s1);
        }
        self.emit_restore(&mut code, Reg::That);
        self.emit_restore(&mut code, Reg::This);
        self.emit_restore(&mut code, Reg::Arg);
        self.emit_restore(&mut code, Reg::Lcl);
        code.push(Instr::AtReg(Reg::R14));
        code.push(Instr::Compute(Dest::A, Comp::M, Jmp::NoJmp));
        code.push(Instr::Compute(Dest::NoDst, Comp::Zero, Jmp::Always));
        proof {
            assert(code.deep_view() =~= s1 + restore_code(Reg::That) + restore_code(Reg::This)
                + restore_code(Reg::Arg) + restore_code(Reg::Lcl) + seq![
                InstrV::AtReg(Reg::R14),
                InstrV::Compute(Dest::A, Comp::M, Jmp::NoJmp),
                InstrV::Compute(Dest::NoDst, Comp::Zero, Jmp::Always),
            ]);
            assert(code.deep_view() =~= return_code());
        }
        code
    }

    fn emit_restore(&self, out: &mut Vec<Instr>, r: Reg)
        ensures
            final(out).deep_view() == old(out).deep_view() + restore_code(r),
    {
        out.push(Instr::AtReg(Reg::R13));
        out.push(Instr::Compute(Dest::M, Comp::MMinusOne, Jmp::NoJmp));
        out.push(Instr::Compute(Dest::A, Comp::M, Jmp::NoJmp));
        out.push(Instr::Compute(Dest::D, Comp::M, Jmp::NoJmp));
        out.push(Instr::AtReg(r));
        out.push(Instr::Compute(Dest::M, Comp::D, Jmp::NoJmp));
        proof {
            assert(out.deep_view() =~= old(out).deep_view() + restore_code(r));
        }
    }
}

} // verus!
