//! Structured Hack assembly.
//!
//! The code generator emits values of [`Instr`] rather than raw text: an
//! address instruction (`@`), a compute instruction (`dest=comp;jump`) or a
//! label marker (`(name)`).  Jump targets invented by the generator carry
//! their originating counter value in [`LabelId`], which makes the uniqueness
//! of every generated label a provable fact rather than a naming convention.
//! [`render`] turns a finished instruction sequence into the textual form a
//! downstream assembler reads.
use vstd::prelude::*;

use crate::bytes::{dec_text, extend_bytes, is_digit, lemma_dec_text_digits,
    lemma_dec_text_injective, push_dec};

verus! {

/// The named cells of the register file that generated code addresses
/// symbolically: the stack pointer, the four segment base registers, and the
/// two scratch cells used by `pop` and `return`.
#[derive(Debug, Clone, Copy, PartialEq, Eq, Structural)]
pub enum Reg {
    Sp,
    Lcl,
    Arg,
    This,
    That,
    R13,
    R14,
}

/// Destination field of a compute instruction.  The generator only ever
/// writes a single register at a time.
#[derive(Debug, Clone, Copy, PartialEq, Eq, Structural)]
pub enum Dest {
    NoDst,
    M,
    D,
    A,
}

/// Computation field of a compute instruction: the subset of the Hack ALU
/// table that translated code uses.
#[derive(Debug, Clone, Copy, PartialEq, Eq, Structural)]
pub enum Comp {
    Zero,
    NegOne,
    D,
    A,
    M,
    NotM,
    NegM,
    MPlusOne,
    MMinusOne,
    DPlusA,
    DMinusA,
    DPlusM,
    MMinusD,
    DAndM,
    DOrM,
}

/// Jump field of a compute instruction: the subset the generator emits.
#[derive(Debug, Clone, Copy, PartialEq, Eq, Structural)]
pub enum Jmp {
    NoJmp,
    Jgt,
    Jeq,
    Jlt,
    Jne,
    Always,
}

/// A symbolic jump target or memory symbol in emitted code.
///
/// `Named` carries a label or function name taken from the source program.
/// `CmpTrue`/`CmpEnd` are the fresh pair a comparison allocates from the
/// comparison counter.  `RetAddr` is the return-address label a call site
/// allocates from the call-site counter.  `StaticRef` is a per-file static
/// cell, scoped by the source file's base name.
#[derive(Debug, Clone, PartialEq, Eq)]
pub enum LabelId {
    Named(Vec<u8>),
    CmpTrue(u64),
    CmpEnd(u64),
    RetAddr(Vec<u8>, u64),
    StaticRef(Vec<u8>, u64),
}

/// Mathematical image of [`LabelId`]: names as byte sequences, counters as
/// naturals.
pub enum LabelV {
    Named(Seq<u8>),
    CmpTrue(nat),
    CmpEnd(nat),
    RetAddr(Seq<u8>, nat),
    StaticRef(Seq<u8>, nat),
}

impl View for LabelId {
    type V = LabelV;

    open spec fn view(&self) -> LabelV {
        match self {
            LabelId::Named(n) => LabelV::Named(n@),
            LabelId::CmpTrue(k) => LabelV::CmpTrue(*k as nat),
            LabelId::CmpEnd(k) => LabelV::CmpEnd(*k as nat),
            LabelId::RetAddr(n, k) => LabelV::RetAddr(n@, *k as nat),
            LabelId::StaticRef(f, j) => LabelV::StaticRef(f@, *j as nat),
        }
    }
}

/// One Hack assembly instruction, as emitted by the code generator.
#[derive(Debug, Clone, PartialEq, Eq)]
pub enum Instr {
    /// `@n` with a numeric address.
    AtNum(u16),
    /// `@R` for a named register.
    AtReg(Reg),
    /// `@label` for a symbolic target.
    AtLbl(LabelId),
    /// `dest=comp;jump`.
    Compute(Dest, Comp, Jmp),
    /// `(label)`: a jump-target marker; assembles to no machine word.
    Mark(LabelId),
}

/// Mathematical image of [`Instr`].
pub enum InstrV {
    AtNum(u16),
    AtReg(Reg),
    AtLbl(LabelV),
    Compute(Dest, Comp, Jmp),
    Mark(LabelV),
}

impl View for Instr {
    type V = InstrV;

    open spec fn view(&self) -> InstrV {
        match self {
            Instr::AtNum(n) => InstrV::AtNum(*n),
            Instr::AtReg(r) => InstrV::AtReg(*r),
            Instr::AtLbl(l) => InstrV::AtLbl(l@),
            Instr::Compute(d, c, j) => InstrV::Compute(*d, *c, *j),
            Instr::Mark(l) => InstrV::Mark(l@),
        }
    }
}

impl DeepView for Instr {
    type V = InstrV;

    open spec fn deep_view(&self) -> InstrV {
        self.view()
    }
}

/// The text `jump_point`, the stem of a comparison's success label.
pub open spec fn lit_cmp_true() -> Seq<u8> {
    seq![
        'j' as u8,
        'u' as u8,
        'm' as u8,
        'p' as u8,
        '_' as u8,
        'p' as u8,
        'o' as u8,
        'i' as u8,
        'n' as u8,
        't' as u8,
    ]
}

/// The text `jump_endpoint`, the stem of a comparison's join label.
pub open spec fn lit_cmp_end() -> Seq<u8> {
    seq![
        'j' as u8,
        'u' as u8,
        'm' as u8,
        'p' as u8,
        '_' as u8,
        'e' as u8,
        'n' as u8,
        'd' as u8,
        'p' as u8,
        'o' as u8,
        'i' as u8,
        'n' as u8,
        't' as u8,
    ]
}

/// The rendered text of a label.
pub open spec fn label_text(l: LabelV) -> Seq<u8> {
    match l {
        LabelV::Named(n) => n,
        LabelV::CmpTrue(k) => lit_cmp_true() + dec_text(k),
        LabelV::CmpEnd(k) => lit_cmp_end() + dec_text(k),
        LabelV::RetAddr(n, k) => n + seq!['_' as u8] + dec_text(k),
        LabelV::StaticRef(f, j) => f + seq!['.' as u8] + dec_text(j),
    }
}

/// The rendered text of a register symbol.
pub open spec fn reg_text(r: Reg) -> Seq<u8> {
    match r {
        Reg::Sp => seq!['S' as u8, 'P' as u8],
        Reg::Lcl => seq!['L' as u8, 'C' as u8, 'L' as u8],
        Reg::Arg => seq!['A' as u8, 'R' as u8, 'G' as u8],
        Reg::This => seq!['T' as u8, 'H' as u8, 'I' as u8, 'S' as u8],
        Reg::That => seq!['T' as u8, 'H' as u8, 'A' as u8, 'T' as u8],
        Reg::R13 => seq!['R' as u8, '1' as u8, '3' as u8],
        Reg::R14 => seq!['R' as u8, '1' as u8, '4' as u8],
    }
}

/// The rendered destination field, including the `=` when present.
pub open spec fn dest_text(d: Dest) -> Seq<u8> {
    match d {
        Dest::NoDst => Seq::empty(),
        Dest::M => seq!['M' as u8, '=' as u8],
        Dest::D => seq!['D' as u8, '=' as u8],
        Dest::A => seq!['A' as u8, '=' as u8],
    }
}

/// The rendered computation field.
pub open spec fn comp_text(c: Comp) -> Seq<u8> {
    match c {
        Comp::Zero => seq!['0' as u8],
        Comp::NegOne => seq!['-' as u8, '1' as u8],
        Comp::D => seq!['D' as u8],
        Comp::A => seq!['A' as u8],
        Comp::M => seq!['M' as u8],
        Comp::NotM => seq!['!' as u8, 'M' as u8],
        Comp::NegM => seq!['-' as u8, 'M' as u8],
        Comp::MPlusOne => seq!['M' as u8, '+' as u8, '1' as u8],
        Comp::MMinusOne => seq!['M' as u8, '-' as u8, '1' as u8],
        Comp::DPlusA => seq!['D' as u8, '+' as u8, 'A' as u8],
        Comp::DMinusA => seq!['D' as u8, '-' as u8, 'A' as u8],
        Comp::DPlusM => seq!['D' as u8, '+' as u8, 'M' as u8],
        Comp::MMinusD => seq!['M' as u8, '-' as u8, 'D' as u8],
        Comp::DAndM => seq!['D' as u8, '&' as u8, 'M' as u8],
        Comp::DOrM => seq!['D' as u8, '|' as u8, 'M' as u8],
    }
}

/// The rendered jump field, including the `;` when present.
pub open spec fn jmp_text(j: Jmp) -> Seq<u8> {
    match j {
        Jmp::NoJmp => Seq::empty(),
        Jmp::Jgt => seq![';' as u8, 'J' as u8, 'G' as u8, 'T' as u8],
        Jmp::Jeq => seq![';' as u8, 'J' as u8, 'E' as u8, 'Q' as u8],
        Jmp::Jlt => seq![';' as u8, 'J' as u8, 'L' as u8, 'T' as u8],
        Jmp::Jne => seq![';' as u8, 'J' as u8, 'N' as u8, 'E' as u8],
        Jmp::Always => seq![';' as u8, 'J' as u8, 'M' as u8, 'P' as u8],
    }
}

/// The rendered text of one instruction, without its line terminator.
pub open spec fn instr_text(i: InstrV) -> Seq<u8> {
    match i {
        InstrV::AtNum(n) => seq!['@' as u8] + dec_text(n as nat),
        InstrV::AtReg(r) => seq!['@' as u8] + reg_text(r),
        InstrV::AtLbl(l) => seq!['@' as u8] + label_text(l),
        InstrV::Compute(d, c, j) => dest_text(d) + comp_text(c) + jmp_text(j),
        InstrV::Mark(l) => seq!['(' as u8] + label_text(l) + seq![')' as u8],
    }
}

/// The rendered text of a whole instruction sequence, one instruction per
/// line.
pub open spec fn program_text(code: Seq<InstrV>) -> Seq<u8>
    decreases code.len(),
{
    if code.len() == 0 {
        Seq::empty()
    } else {
        program_text(code.drop_last()) + instr_text(code.last()) + seq![10u8]
    }
}

fn push_label_text(out: &mut Vec<u8>, l: &LabelId)
    ensures
        final(out)@ == old(out)@ + label_text(l@),
{
    match l {
        LabelId::Named(n) => {
            extend_bytes(out, n.as_slice());
        },
        LabelId::CmpTrue(k) => {
            let stem: Vec<u8> = vec![
                'j' as u8,
                'u' as u8,
                'm' as u8,
                'p' as u8,
                '_' as u8,
                'p' as u8,
                'o' as u8,
                'i' as u8,
                'n' as u8,
                't' as u8,
            ];
            proof {
                assert(stem@ =~= lit_cmp_true());
            }
            extend_bytes(out, stem.as_slice());
            push_dec(out, *k);
        },
        LabelId::CmpEnd(k) => {
            let stem: Vec<u8> = vec![
                'j' as u8,
                'u' as u8,
                'm' as u8,
                'p' as u8,
                '_' as u8,
                'e' as u8,
                'n' as u8,
                'd' as u8,
                'p' as u8,
                'o' as u8,
                'i' as u8,
                'n' as u8,
                't' as u8,
            ];
            proof {
                assert(stem@ =~= lit_cmp_end());
            }
            extend_bytes(out, stem.as_slice());
            push_dec(out, *k);
        },
        LabelId::RetAddr(n, k) => {
            extend_bytes(out, n.as_slice());
            out.push('_' as u8);
            proof {
                assert(out@ =~= old(out)@ + n@ + seq!['_' as u8]);
            }
            push_dec(out, *k);
            proof {
                assert(old(out)@ + n@ + seq!['_' as u8] + dec_text(*k as nat) =~= old(out)@
                    + label_text(l@));
            }
        },
        LabelId::StaticRef(f, j) => {
            extend_bytes(out, f.as_slice());
            out.push('.' as u8);
            proof {
                assert(out@ =~= old(out)@ + f@ + seq!['.' as u8]);
            }
            push_dec(out, *j);
            proof {
                assert(old(out)@ + f@ + seq!['.' as u8] + dec_text(*j as nat) =~= old(out)@
                    + label_text(l@));
            }
        },
    }
}

fn push_reg_text(out: &mut Vec<u8>, r: Reg)
    ensures
        final(out)@ == old(out)@ + reg_text(r),
{
    match r {
        Reg::Sp => {
            out.push('S' as u8);
            out.push('P' as u8);
        },
        Reg::Lcl => {
            out.push('L' as u8);
            out.push('C' as u8);
            out.push('L' as u8);
        },
        Reg::Arg => {
            out.push('A' as u8);
            out.push('R' as u8);
            out.push('G' as u8);
        },
        Reg::This => {
            out.push('T' as u8);
            out.push('H' as u8);
            out.push('I' as u8);
            out.push('S' as u8);
        },
        Reg::That => {
            out.push('T' as u8);
            out.push('H' as u8);
            out.push('A' as u8);
            out.push('T' as u8);
        },
        Reg::R13 => {
            out.push('R' as u8);
            out.push('1' as u8);
            out.push('3' as u8);
        },
        Reg::R14 => {
            out.push('R' as u8);
            out.push('1' as u8);
            out.push('4' as u8);
        },
    }
    proof {
        assert(out@ =~= old(out)@ + reg_text(r));
    }
}

fn push_dest_text(out: &mut Vec<u8>, d: Dest)
    ensures
        final(out)@ == old(out)@ + dest_text(d),
{
    match d {
        Dest::NoDst => {},
        Dest::M => {
            out.push('M' as u8);
            out.push('=' as u8);
        },
        Dest::D => {
            out.push('D' as u8);
            out.push('=' as u8);
        },
        Dest::A => {
            out.push('A' as u8);
            out.push('=' as u8);
        },
    }
    proof {
        assert(out@ =~= old(out)@ + dest_text(d));
    }
}

fn push_comp_text(out: &mut Vec<u8>, c: Comp)
    ensures
        final(out)@ == old(out)@ + comp_text(c),
{
    match c {
        Comp::Zero => {
            out.push('0' as u8);
        },
        Comp::NegOne => {
            out.push('-' as u8);
            out.push('1' as u8);
        },
        Comp::D => {
            out.push('D' as u8);
        },
        Comp::A => {
            out.push('A' as u8);
        },
        Comp::M => {
            out.push('M' as u8);
        },
        Comp::NotM => {
            out.push('!' as u8);
            out.push('M' as u8);
        },
        Comp::NegM => {
            out.push('-' as u8);
            out.push('M' as u8);
        },
        Comp::MPlusOne => {
            out.push('M' as u8);
            out.push('+' as u8);
            out.push('1' as u8);
        },
        Comp::MMinusOne => {
            out.push('M' as u8);
            out.push('-' as u8);
            out.push('1' as u8);
        },
        Comp::DPlusA => {
            out.push('D' as u8);
            out.push('+' as u8);
            out.push('A' as u8);
        },
        Comp::DMinusA => {
            out.push('D' as u8);
            out.push('-' as u8);
            out.push('A' as u8);
        },
        Comp::DPlusM => {
            out.push('D' as u8);
            out.push('+' as u8);
            out.push('M' as u8);
        },
        Comp::MMinusD => {
            out.push('M' as u8);
            out.push('-' as u8);
            out.push('D' as u8);
        },
        Comp::DAndM => {
            out.push('D' as u8);
            out.push('&' as u8);
            out.push('M' as u8);
        },
        Comp::DOrM => {
            out.push('D' as u8);
            out.push('|' as u8);
            out.push('M' as u8);
        },
    }
    proof {
        assert(out@ =~= old(out)@ + comp_text(c));
    }
}

fn push_jmp_text(out: &mut Vec<u8>, j: Jmp)
    ensures
        final(out)@ == old(out)@ + jmp_text(j),
{
    match j {
        Jmp::NoJmp => {},
        Jmp::Jgt => {
            out.push(';' as u8);
            out.push('J' as u8);
            out.push('G' as u8);
            out.push('T' as u8);
        },
        Jmp::Jeq => {
            out.push(';' as u8);
            out.push('J' as u8);
            out.push('E' as u8);
            out.push('Q' as u8);
        },
        Jmp::Jlt => {
            out.push(';' as u8);
            out.push('J' as u8);
            out.push('L' as u8);
            out.push('T' as u8);
        },
        Jmp::Jne => {
            out.push(';' as u8);
            out.push('J' as u8);
            out.push('N' as u8);
            out.push('E' as u8);
        },
        Jmp::Always => {
            out.push(';' as u8);
            out.push('J' as u8);
            out.push('M' as u8);
            out.push('P' as u8);
        },
    }
    proof {
        assert(out@ =~= old(out)@ + jmp_text(j));
    }
}

/// Render one instruction onto `out`, without a line terminator.
pub fn push_instr_text(out: &mut Vec<u8>, i: &Instr)
    ensures
        final(out)@ == old(out)@ + instr_text(i@),
{
    match i {
        Instr::AtNum(n) => {
            out.push('@' as u8);
            proof {
                assert(out@ =~= old(out)@ + seq!['@' as u8]);
            }
            push_dec(out, *n as u64);
            proof {
                assert(old(out)@ + seq!['@' as u8] + dec_text(*n as nat) =~= old(out)@
                    + instr_text(i@));
            }
        },
        Instr::AtReg(r) => {
            out.push('@' as u8);
            proof {
                assert(out@ =~= old(out)@ + seq!['@' as u8]);
            }
            push_reg_text(out, *r);
            proof {
                assert(old(out)@ + seq!['@' as u8] + reg_text(*r) =~= old(out)@ + instr_text(i@));
            }
        },
        Instr::AtLbl(l) => {
            out.push('@' as u8);
            proof {
                assert(out@ =~= old(out)@ + seq!['@' as u8]);
            }
            push_label_text(out, l);
            proof {
                assert(old(out)@ + seq!['@' as u8] + label_text(l@) =~= old(out)@ + instr_text(
                    i@,
                ));
            }
        },
        Instr::Compute(d, c, j) => {
            push_dest_text(out, *d);
            push_comp_text(out, *c);
            push_jmp_text(out, *j);
            proof {
                assert(old(out)@ + dest_text(*d) + comp_text(*c) + jmp_text(*j) =~= old(out)@
                    + instr_text(i@));
            }
        },
        Instr::Mark(l) => {
            out.push('(' as u8);
            proof {
                assert(out@ =~= old(out)@ + seq!['(' as u8]);
            }
            push_label_text(out, l);
            out.push(')' as u8);
            proof {
                assert(out@ =~= old(out)@ + seq!['(' as u8] + label_text(l@) + seq![')' as u8]);
                assert(old(out)@ + seq!['(' as u8] + label_text(l@) + seq![')' as u8] =~= old(
                    out,
                )@ + instr_text(i@));
            }
        },
    }
}

/// Render a whole instruction sequence as assembly text, one instruction per
/// line.
pub fn render(code: &Vec<Instr>) -> (r: Vec<u8>)
    ensures
        r@ == program_text(code.deep_view()),
{
    let mut out: Vec<u8> = Vec::new();
    let n = code.len();
    let mut i: usize = 0;
    proof {
        assert(code.deep_view().take(0) =~= Seq::<InstrV>::empty());
    }
    while i < n
        invariant
            0 <= i <= n,
            n == code@.len(),
            code.deep_view().len() == n,
            out@ == program_text(code.deep_view().take(i as int)),
        decreases n - i,
    {
        proof {
            assert(code.deep_view()[i as int] == code@[i as int]@);
        }
        push_instr_text(&mut out, &code[i]);
        out.push(10u8);
        proof {
            let dv = code.deep_view();
            assert(dv.take(i + 1).drop_last() =~= dv.take(i as int));
            assert(dv.take(i + 1).last() == dv[i as int]);
            assert(out@ =~= program_text(dv.take(i as int)) + instr_text(dv[i as int])
                + seq![10u8]);
        }
        i = i + 1;
    }
    proof {
        assert(code.deep_view().take(n as int) =~= code.deep_view());
    }
    out
}

/// Return-address labels minted from distinct counter values render as
/// distinct text, whatever the function names around them: a numeral holds
/// no separator byte, so the text determines the counter.
pub proof fn lemma_sep_suffix_distinct(n1: Seq<u8>, c1: nat, n2: Seq<u8>, c2: nat, sep: u8)
    requires
        c1 != c2,
        !is_digit(sep),
    ensures
        n1 + seq![sep] + dec_text(c1) != n2 + seq![sep] + dec_text(c2),
{
    let s1 = n1 + seq![sep] + dec_text(c1);
    let s2 = n2 + seq![sep] + dec_text(c2);
    let d1 = dec_text(c1);
    let d2 = dec_text(c2);
    lemma_dec_text_digits(c1);
    lemma_dec_text_digits(c2);
    lemma_dec_text_injective(c1, c2);
    if s1 == s2 {
        let len = s1.len() as int;
        assert(len == n1.len() + 1 + d1.len());
        assert(len == n2.len() + 1 + d2.len());
        if d1.len() == d2.len() {
            assert forall|i: int| 0 <= i < d1.len() implies d1[i] == d2[i] by {
                assert(s1[len - d1.len() + i] == d1[i]);
                assert(s2[len - d2.len() + i] == d2[i]);
            }
            assert(d1 =~= d2);
        } else if d1.len() < d2.len() {
            let p = len - 1 - d1.len();
            assert(s1[p] == sep);
            assert(s2[p] == d2[p - (len - d2.len())]);
            assert(is_digit(s2[p]));
        } else {
            let p = len - 1 - d2.len();
            assert(s2[p] == sep);
            assert(s1[p] == d1[p - (len - d1.len())]);
            assert(is_digit(s1[p]));
        }
    }
}

/// Success labels of two comparisons with distinct counters differ; so do
/// their join labels.
pub proof fn lemma_cmp_labels_distinct(c1: nat, c2: nat)
    requires
        c1 != c2,
    ensures
        label_text(LabelV::CmpTrue(c1)) != label_text(LabelV::CmpTrue(c2)),
        label_text(LabelV::CmpEnd(c1)) != label_text(LabelV::CmpEnd(c2)),
{
    lemma_dec_text_injective(c1, c2);
    let d1 = dec_text(c1);
    let d2 = dec_text(c2);
    assert(lit_cmp_true().len() == 10);
    assert(lit_cmp_end().len() == 13);
    if lit_cmp_true() + d1 == lit_cmp_true() + d2 {
        assert((lit_cmp_true() + d1).len() == (lit_cmp_true() + d2).len());
        assert(d1.len() == d2.len());
        assert forall|i: int| 0 <= i < d1.len() implies d1[i] == d2[i] by {
            assert((lit_cmp_true() + d1)[10 + i] == d1[i]);
            assert((lit_cmp_true() + d2)[10 + i] == d2[i]);
        }
        assert(d1 =~= d2);
    }
    if lit_cmp_end() + d1 == lit_cmp_end() + d2 {
        assert((lit_cmp_end() + d1).len() == (lit_cmp_end() + d2).len());
        assert(d1.len() == d2.len());
        assert forall|i: int| 0 <= i < d1.len() implies d1[i] == d2[i] by {
            assert((lit_cmp_end() + d1)[13 + i] == d1[i]);
            assert((lit_cmp_end() + d2)[13 + i] == d2[i]);
        }
        assert(d1 =~= d2);
    }
}

/// A comparison's success label never collides with any comparison's join
/// label: the two stems differ at their sixth byte.
pub proof fn lemma_cmp_true_ne_end(c1: nat, c2: nat)
    ensures
        label_text(LabelV::CmpTrue(c1)) != label_text(LabelV::CmpEnd(c2)),
{
    let s1 = label_text(LabelV::CmpTrue(c1));
    let s2 = label_text(LabelV::CmpEnd(c2));
    if s1 == s2 {
        assert(s1[5] == 'p' as u8);
        assert(s2[5] == 'e' as u8);
    }
}

/// A comparison label never collides with a return-address label: in a
/// return-address label the last separator byte is followed by digits only,
/// while both comparison stems follow theirs with a letter.
pub proof fn lemma_cmp_ne_ret(stem: Seq<u8>, c: nat, n: Seq<u8>, k: nat)
    requires
        stem == lit_cmp_true() || stem == lit_cmp_end(),
    ensures
        stem + dec_text(c) != label_text(LabelV::RetAddr(n, k)),
{
    let s1 = stem + dec_text(c);
    let s2 = label_text(LabelV::RetAddr(n, k));
    lemma_dec_text_digits(c);
    lemma_dec_text_digits(k);
    if s1 == s2 {
        let p = n.len() as int;
        assert(s2[p] == '_' as u8);
        if p >= stem.len() {
            assert(s1.len() == s2.len());
            assert(s2.len() == n.len() + 1 + dec_text(k).len());
            assert(p < s1.len());
            assert(s1.len() == stem.len() + dec_text(c).len());
            assert(0 <= p - stem.len() < dec_text(c).len());
            assert(s1[p] == dec_text(c)[p - stem.len()]);
            assert(is_digit(s1[p]));
        } else {
            // The stems hold a separator only at index 4, and follow it with
            // a letter, not a digit.
            assert(stem[4] == '_' as u8);
            assert(p == 4) by {
                if p != 4 {
                    assert(s1[p] == stem[p]);
                }
            }
            assert(s2[5] == dec_text(k)[0]);
            assert(is_digit(s2[5]));
            assert(s1[5] == stem[5]);
            assert(stem[5] == 'p' as u8 || stem[5] == 'e' as u8);
        }
    }
}

} // verus!
