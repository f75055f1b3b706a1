//! The translation driver.
//!
//! [`translate_file`] feeds a whole source file through the parser and the
//! code generator: each cleaned line is classified, its operands checked, and
//! its block appended to the output, with the generator's counters threaded
//! through.  The first untranslatable line aborts the run with its error —
//! partial output is never returned.  [`translate_commands`] is the
//! specification the driver is held to.
use vstd::prelude::*;

use crate::hack::{label_text, lemma_cmp_ne_ret, lemma_cmp_true_ne_end, lit_cmp_end,
    lit_cmp_true, Instr, InstrV, LabelV, Reg};
use crate::laws::{lemma_comparison_labels_distinct, lemma_return_labels_distinct};
use crate::parser::{classify, clean_lines, lit_pop, lit_push, tokenize, tokens, CommandType,
    Parser};
use crate::writer::{arith_code, binary_code, call_code, compare_code, dec_digits, function_code,
    goto_code, if_code, index_ok, is_compare, label_code, op_of, push_code, pop_code, pop_d_code,
    push_d_code, rep_push_d, restore_code, return_code, seg_of, unary_code, ArithOp, CodeWriter,
    Segment, TranslateError, MAX_ADDR};
use crate::bytes::dec_val;

verus! {

/// The translation of one cleaned command from generator state
/// `(jmp, ret)`: its emitted block and the state after it, or the input
/// error that aborts the run.
pub open spec fn step_emit(cmd: Seq<u8>, file: Seq<u8>, jmp: nat, ret: nat) -> Result<
    (Seq<InstrV>, nat, nat),
    TranslateError,
> {
    let toks = tokens(cmd);
    match classify(cmd) {
        CommandType::CARITHMETIC => {
            if toks.len() < 1 {
                Err(TranslateError::MissingOperand)
            } else {
                match op_of(toks[0]) {
                    Option::None => Err(TranslateError::UnknownOperator),
                    Option::Some(op) => Ok(
                        (
                            arith_code(op, jmp + 1),
                            if is_compare(op) {
                                jmp + 1
                            } else {
                                jmp
                            },
                            ret,
                        ),
                    ),
                }
            }
        },
        CommandType::CPUSH => {
            if toks.len() < 3 {
                Err(TranslateError::MissingOperand)
            } else {
                match seg_of(toks[1]) {
                    Option::None => Err(TranslateError::UnknownSegment),
                    Option::Some(seg) => {
                        if !index_ok(seg, toks[2]) {
                            Err(TranslateError::BadIndex)
                        } else {
                            Ok((push_code(seg, file, dec_val(toks[2]) as u16), jmp, ret))
                        }
                    },
                }
            }
        },
        CommandType::CPOP => {
            if toks.len() < 3 {
                Err(TranslateError::MissingOperand)
            } else {
                match seg_of(toks[1]) {
                    Option::None => Err(TranslateError::UnknownSegment),
                    Option::Some(seg) => {
                        if seg == Segment::Constant {
                            Err(TranslateError::PopConstant)
                        } else if !index_ok(seg, toks[2]) {
                            Err(TranslateError::BadIndex)
                        } else {
                            Ok((pop_code(seg, file, dec_val(toks[2]) as u16), jmp, ret))
                        }
                    },
                }
            }
        },
        CommandType::CLABEL => {
            if toks.len() < 2 {
                Err(TranslateError::MissingOperand)
            } else {
                Ok((label_code(toks[1]), jmp, ret))
            }
        },
        CommandType::CGOTO => {
            if toks.len() < 2 {
                Err(TranslateError::MissingOperand)
            } else {
                Ok((goto_code(toks[1]), jmp, ret))
            }
        },
        CommandType::CIF => {
            if toks.len() < 2 {
                Err(TranslateError::MissingOperand)
            } else {
                Ok((if_code(toks[1]), jmp, ret))
            }
        },
        CommandType::CFUNCTION => {
            if toks.len() < 3 {
                Err(TranslateError::MissingOperand)
            } else if !(dec_digits(toks[2]) && dec_val(toks[2]) <= MAX_ADDR as nat) {
                Err(TranslateError::BadIndex)
            } else {
                Ok((function_code(toks[1], dec_val(toks[2]) as u16), jmp, ret))
            }
        },
        CommandType::CCALL => {
            if toks.len() < 3 {
                Err(TranslateError::MissingOperand)
            } else if !(dec_digits(toks[2]) && dec_val(toks[2]) <= MAX_ADDR as nat) {
                Err(TranslateError::BadIndex)
            } else {
                Ok((call_code(toks[1], dec_val(toks[2]) as u16, ret), jmp, ret + 1))
            }
        },
        CommandType::CRETURN => Ok((return_code(), jmp, ret)),
    }
}

/// The translation of a command sequence from generator state `(jmp, ret)`:
/// the concatenation of every command's block, or the first error.
pub open spec fn translate_commands(
    cmds: Seq<Seq<u8>>,
    file: Seq<u8>,
    jmp: nat,
    ret: nat,
) -> Result<Seq<InstrV>, TranslateError>
    decreases cmds.len(),
{
    if cmds.len() == 0 {
        Ok(Seq::empty())
    } else {
        match step_emit(cmds[0], file, jmp, ret) {
            Err(e) => Err(e),
            Ok((code, jmp2, ret2)) => match translate_commands(
                cmds.drop_first(),
                file,
                jmp2,
                ret2,
            ) {
                Err(e) => Err(e),
                Ok(rest) => Ok(code + rest),
            },
        }
    }
}

/// Translate one source file, given as raw lines, into one instruction
/// sequence, scoping its static segment by `file_tag`.  The result is
/// exactly what [`translate_commands`] assigns to the file's cleaned lines
/// from a fresh generator; the first bad line aborts with its error.
pub fn translate_file(lines: &Vec<Vec<u8>>, file_tag: &[u8]) -> (r: Result<
    Vec<Instr>,
    TranslateError,
>)
    ensures
        (r matches Ok(code) ==> translate_commands(clean_lines(lines.deep_view()), file_tag@, 0, 0)
            == Ok::<Seq<InstrV>, TranslateError>(code.deep_view())),
        (r matches Err(e) ==> translate_commands(clean_lines(lines.deep_view()), file_tag@, 0, 0)
            == Err::<Seq<InstrV>, TranslateError>(e)),
{
    let mut parser = Parser::new(lines);
    let mut writer = CodeWriter::new(vstd::slice::slice_to_vec(file_tag));
    let mut out: Vec<Instr> = Vec::new();
    let ghost cmds = clean_lines(lines.deep_view());
    let n = parser.commands.len();
    let mut i: usize = 0;
    proof {
        assert(cmds.skip(0) =~= cmds);
        assert(out.deep_view() =~= Seq::<InstrV>::empty());
    }
    while i < n
        invariant
            0 <= i <= n,
            n == parser.commands@.len(),
            cmds == clean_lines(lines.deep_view()),
            parser.commands.deep_view() == cmds,
            parser.command_pos == i,
            writer.file_tag@ == file_tag@,
            writer.jmp_point <= i,
            writer.return_num <= i,
            (match translate_commands(
                cmds.skip(i as int),
                file_tag@,
                writer.jmp_point as nat,
                writer.return_num as nat,
            ) {
                Ok(rest) => translate_commands(cmds, file_tag@, 0, 0) == Ok::<
                    Seq<InstrV>,
                    TranslateError,
                >(out.deep_view() + rest),
                Err(e) => translate_commands(cmds, file_tag@, 0, 0) == Err::<
                    Seq<InstrV>,
                    TranslateError,
                >(e),
            }),
        decreases n - i,
    {
        let ghost cmd = cmds[i as int];
        let ghost jmp0 = writer.jmp_point as nat;
        let ghost ret0 = writer.return_num as nat;
        proof {
            assert(cmds.skip(i as int)[0] == cmd);
            assert(cmds.skip(i as int).drop_first() =~= cmds.skip(i + 1));
            assert(cmds.skip(i as int).len() > 0);
        }
        let toks = tokenize(parser.get_command().as_slice());
        let kind = parser.command_type();
        let block: Result<Vec<Instr>, TranslateError> = match kind {
            CommandType::CARITHMETIC => {
                if toks.len() < 1 {
                    Err(TranslateError::MissingOperand)
                } else {
                    proof {
                        assert(toks.deep_view()[0] == toks@[0]@);
                    }
                    writer.write_arithmetic(toks[0].as_slice())
                }
            },
            CommandType::CPUSH | CommandType::CPOP => {
                if toks.len() < 3 {
                    Err(TranslateError::MissingOperand)
                } else {
                    proof {
                        assert(toks.deep_view()[1] == toks@[1]@);
                        assert(toks.deep_view()[2] == toks@[2]@);
                    }
                    let w: Vec<u8> = if matches!(kind, CommandType::CPUSH) {
                        vec!['p' as u8, 'u' as u8, 's' as u8, 'h' as u8]
                    } else {
                        vec!['p' as u8, 'o' as u8, 'p' as u8]
                    };
                    proof {
                        if kind == CommandType::CPUSH {
                            assert(w@ =~= lit_push());
                        } else {
                            assert(w@ =~= lit_pop());
                        }
                        assert(lit_push() != lit_pop());
                    }
                    writer.write_pushpop(w.as_slice(), toks[1].as_slice(), toks[2].as_slice())
                }
            },
            CommandType::CLABEL => {
                if toks.len() < 2 {
                    Err(TranslateError::MissingOperand)
                } else {
                    proof {
                        assert(toks.deep_view()[1] == toks@[1]@);
                    }
                    Ok(writer.write_label(toks[1].as_slice()))
                }
            },
            CommandType::CGOTO => {
                if toks.len() < 2 {
                    Err(TranslateError::MissingOperand)
                } else {
                    proof {
                        assert(toks.deep_view()[1] == toks@[1]@);
                    }
                    Ok(writer.write_goto(toks[1].as_slice()))
                }
            },
            CommandType::CIF => {
                if toks.len() < 2 {
                    Err(TranslateError::MissingOperand)
                } else {
                    proof {
                        assert(toks.deep_view()[1] == toks@[1]@);
                    }
                    Ok(writer.write_if(toks[1].as_slice()))
                }
            },
            CommandType::CFUNCTION => {
                if toks.len() < 3 {
                    Err(TranslateError::MissingOperand)
                } else {
                    proof {
                        assert(toks.deep_view()[1] == toks@[1]@);
                        assert(toks.deep_view()[2] == toks@[2]@);
                    }
                    writer.write_function(toks[1].as_slice(), toks[2].as_slice())
                }
            },
            CommandType::CCALL => {
                if toks.len() < 3 {
                    Err(TranslateError::MissingOperand)
                } else {
                    proof {
                        assert(toks.deep_view()[1] == toks@[1]@);
                        assert(toks.deep_view()[2] == toks@[2]@);
                    }
                    writer.write_call(toks[1].as_slice(), toks[2].as_slice())
                }
            },
            CommandType::CRETURN => Ok(writer.write_return()),
        };
        match block {
            Ok(code) => {
                proof {
                    assert(step_emit(cmd, file_tag@, jmp0, ret0) matches Ok(se) && se.0
                        == code.deep_view() && se.1 == writer.jmp_point as nat && se.2
                        == writer.return_num as nat);
                }
                let ghost before = out.deep_view();
                let ghost codev = code.deep_view();
                let mut code = code;
                out.append(&mut code);
                proof {
                    assert(out.deep_view() =~= before + codev);
                    let jmp1 = writer.jmp_point as nat;
                    let ret1 = writer.return_num as nat;
                    assert(translate_commands(cmds.skip(i as int), file_tag@, jmp0, ret0) == (
                    match translate_commands(cmds.skip(i + 1), file_tag@, jmp1, ret1) {
                        Ok(rest) => Ok::<Seq<InstrV>, TranslateError>(codev + rest),
                        Err(e) => Err::<Seq<InstrV>, TranslateError>(e),
                    }));
                    match translate_commands(cmds.skip(i + 1), file_tag@, jmp1, ret1) {
                        Ok(rest) => {
                            assert(out.deep_view() + rest =~= before + (codev + rest));
                        },
                        Err(_) => {},
                    }
                }
            },
            Err(e) => {
                proof {
                    assert(step_emit(cmd, file_tag@, jmp0, ret0) == Err::<
                        (Seq<InstrV>, nat, nat),
                        TranslateError,
                    >(e));
                    assert(translate_commands(cmds.skip(i as int), file_tag@, jmp0, ret0)
                        == Err::<Seq<InstrV>, TranslateError>(e));
                }
                return Err(e);
            },
        }
        parser.advance();
        i = i + 1;
    }
    proof {
        assert(cmds.skip(n as int) =~= Seq::<Seq<u8>>::empty());
        assert(out.deep_view() + Seq::<InstrV>::empty() =~= out.deep_view());
    }
    Ok(out)
}

/// The label a mark instruction defines, when the generator minted it from
/// one of its counters.  Marks of source-given names are not counted: their
/// uniqueness is the source program's duty, not the generator's.
pub open spec fn minted_mark(ins: InstrV) -> Option<LabelV> {
    match ins {
        InstrV::Mark(l) => match l {
            LabelV::CmpTrue(_) => Some(l),
            LabelV::CmpEnd(_) => Some(l),
            LabelV::RetAddr(_, _) => Some(l),
            _ => None,
        },
        _ => None,
    }
}

/// Every minted mark of `code` draws its counter from the half-open windows
/// `(jlo, jhi]` (comparisons) and `[rlo, rhi)` (call sites).
pub open spec fn mark_in(ins: InstrV, jlo: int, jhi: int, rlo: int, rhi: int) -> bool {
    match minted_mark(ins) {
        Some(LabelV::CmpTrue(k)) => jlo < k <= jhi,
        Some(LabelV::CmpEnd(k)) => jlo < k <= jhi,
        Some(LabelV::RetAddr(_, k)) => rlo <= k < rhi,
        _ => true,
    }
}

/// All of `code`'s minted marks draw from the given counter windows.
pub open spec fn marks_in(code: Seq<InstrV>, jlo: int, jhi: int, rlo: int, rhi: int) -> bool {
    forall|i: int| 0 <= i < code.len() ==> #[trigger] mark_in(code[i], jlo, jhi, rlo, rhi)
}

/// No two minted marks of `code` define the same label text.
pub open spec fn marks_distinct(code: Seq<InstrV>) -> bool {
    forall|i: int, k: int|
        #![trigger minted_mark(code[i]), minted_mark(code[k])]
        0 <= i < k < code.len() && minted_mark(code[i]) is Some && minted_mark(code[k]) is Some
            ==> label_text(minted_mark(code[i]).unwrap()) != label_text(
            minted_mark(code[k]).unwrap(),
        )
}

/// Two minted labels whose counters come from disjoint windows of the same
/// counter render as distinct text, whatever their kinds.
proof fn lemma_minted_pair_distinct(l1: LabelV, l2: LabelV)
    requires
        minted_mark(InstrV::Mark(l1)) is Some,
        minted_mark(InstrV::Mark(l2)) is Some,
        (match (l1, l2) {
            (LabelV::CmpTrue(k1), LabelV::CmpTrue(k2)) => k1 != k2,
            (LabelV::CmpEnd(k1), LabelV::CmpEnd(k2)) => k1 != k2,
            (LabelV::RetAddr(_, k1), LabelV::RetAddr(_, k2)) => k1 != k2,
            _ => true,
        }),
    ensures
        label_text(l1) != label_text(l2),
{
    match (l1, l2) {
        (LabelV::CmpTrue(k1), LabelV::CmpTrue(k2)) => {
            lemma_comparison_labels_distinct(k1, k2);
        },
        (LabelV::CmpEnd(k1), LabelV::CmpEnd(k2)) => {
            lemma_comparison_labels_distinct(k1, k2);
        },
        (LabelV::CmpTrue(k1), LabelV::CmpEnd(k2)) => {
            lemma_cmp_true_ne_end(k1, k2);
        },
        (LabelV::CmpEnd(k1), LabelV::CmpTrue(k2)) => {
            lemma_cmp_true_ne_end(k2, k1);
        },
        (LabelV::CmpTrue(k1), LabelV::RetAddr(n2, k2)) => {
            lemma_cmp_ne_ret(lit_cmp_true(), k1, n2, k2);
        },
        (LabelV::CmpEnd(k1), LabelV::RetAddr(n2, k2)) => {
            lemma_cmp_ne_ret(lit_cmp_end(), k1, n2, k2);
        },
        (LabelV::RetAddr(n1, k1), LabelV::CmpTrue(k2)) => {
            lemma_cmp_ne_ret(lit_cmp_true(), k2, n1, k1);
        },
        (LabelV::RetAddr(n1, k1), LabelV::CmpEnd(k2)) => {
            lemma_cmp_ne_ret(lit_cmp_end(), k2, n1, k1);
        },
        (LabelV::RetAddr(n1, k1), LabelV::RetAddr(n2, k2)) => {
            lemma_return_labels_distinct(n1, k1, n2, k2);
        },
        _ => {},
    }
}

/// Distinctness and window confinement survive concatenation when the
/// windows stand back to back.
proof fn lemma_marks_concat(
    c1: Seq<InstrV>,
    c2: Seq<InstrV>,
    jlo: int,
    jmid: int,
    jhi: int,
    rlo: int,
    rmid: int,
    rhi: int,
)
    requires
        marks_distinct(c1),
        marks_distinct(c2),
        marks_in(c1, jlo, jmid, rlo, rmid),
        marks_in(c2, jmid, jhi, rmid, rhi),
        jlo <= jmid <= jhi,
        rlo <= rmid <= rhi,
    ensures
        marks_distinct(c1 + c2),
        marks_in(c1 + c2, jlo, jhi, rlo, rhi),
{
    let c = c1 + c2;
    assert forall|i: int| 0 <= i < c.len() implies #[trigger] mark_in(
        c[i],
        jlo,
        jhi,
        rlo,
        rhi,
    ) by {
        if i < c1.len() {
            assert(c[i] == c1[i]);
            assert(mark_in(c1[i], jlo, jmid, rlo, rmid));
        } else {
            assert(c[i] == c2[i - c1.len()]);
            assert(mark_in(c2[i - c1.len()], jmid, jhi, rmid, rhi));
        }
    }
    assert forall|i: int, k: int|
        #![trigger minted_mark(c[i]), minted_mark(c[k])]
        0 <= i < k < c.len() && minted_mark(c[i]) is Some && minted_mark(c[k])
            is Some implies label_text(minted_mark(c[i]).unwrap()) != label_text(
        minted_mark(c[k]).unwrap(),
    ) by {
        if i < c1.len() && k < c1.len() {
            assert(c[i] == c1[i]);
            assert(c[k] == c1[k]);
        } else if i >= c1.len() {
            assert(c[i] == c2[i - c1.len()]);
            assert(c[k] == c2[k - c1.len()]);
        } else {
            assert(c[i] == c1[i]);
            assert(c[k] == c2[k - c1.len()]);
            assert(mark_in(c1[i], jlo, jmid, rlo, rmid));
            assert(mark_in(c2[k - c1.len()], jmid, jhi, rmid, rhi));
            lemma_minted_pair_distinct(
                minted_mark(c[i]).unwrap(),
                minted_mark(c[k]).unwrap(),
            );
        }
    }
}

proof fn lemma_rep_push_d_no_marks(n: nat)
    ensures
        forall|i: int|
            0 <= i < rep_push_d(n).len() ==> #[trigger] minted_mark(rep_push_d(n)[i]) is None,
    decreases n,
{
    if n > 0 {
        lemma_rep_push_d_no_marks((n - 1) as nat);
        assert forall|i: int| 0 <= i < rep_push_d(n).len() implies #[trigger] minted_mark(
            rep_push_d(n)[i],
        ) is None by {
            if i < rep_push_d((n - 1) as nat).len() {
                assert(rep_push_d(n)[i] == rep_push_d((n - 1) as nat)[i]);
            } else {
                assert(rep_push_d(n)[i] == push_d_code()[i - rep_push_d(
                    (n - 1) as nat,
                ).len()]);
            }
        }
    }
}

/// The marks one command's emission defines, by counter window: a comparison
/// mints its pair from `(jmp, jmp']`, a call mints its return label from
/// `[ret, ret')`, and nothing else mints at all.
proof fn lemma_step_emit_marks(cmd: Seq<u8>, file: Seq<u8>, jmp: nat, ret: nat)
    ensures
        step_emit(cmd, file, jmp, ret) matches Ok(se) ==> {
            &&& marks_distinct(se.0)
            &&& marks_in(se.0, jmp as int, se.1 as int, ret as int, se.2 as int)
            &&& jmp <= se.1
            &&& ret <= se.2
        },
{
    match step_emit(cmd, file, jmp, ret) {
        Err(_) => {},
        Ok(se) => {
            let code = se.0;
            let toks = tokens(cmd);
            match classify(cmd) {
                CommandType::CARITHMETIC => {
                    let op = op_of(toks[0]).unwrap();
                    assert(code == arith_code(op, jmp + 1));
                    if is_compare(op) {
                        let c = (jmp + 1) as nat;
                        assert forall|i: int|
                            0 <= i < code.len() && minted_mark(code[i]) is Some implies (i == 13
                            && minted_mark(code[i]) == Some(LabelV::CmpTrue(c))) || (i == 15
                            && minted_mark(code[i]) == Some(LabelV::CmpEnd(c))) by {
                            lemma_compare_mark_positions(op, c, i);
                        }
                        assert forall|i: int| 0 <= i < code.len() implies #[trigger] mark_in(
                            code[i],
                            jmp as int,
                            se.1 as int,
                            ret as int,
                            se.2 as int,
                        ) by {
                            if minted_mark(code[i]) is Some {
                                lemma_compare_mark_positions(op, c, i);
                            }
                        }
                        assert forall|i: int, k: int|
                            #![trigger minted_mark(code[i]), minted_mark(code[k])]
                            0 <= i < k < code.len() && minted_mark(code[i]) is Some
                                && minted_mark(code[k]) is Some implies label_text(
                            minted_mark(code[i]).unwrap(),
                        ) != label_text(minted_mark(code[k]).unwrap()) by {
                            lemma_compare_mark_positions(op, c, i);
                            lemma_compare_mark_positions(op, c, k);
                            lemma_cmp_true_ne_end(c, c);
                        }
                    } else {
                        assert forall|i: int|
                            0 <= i < code.len() implies #[trigger] minted_mark(code[i])
                            is None by {
                            lemma_plain_arith_no_marks(op, (jmp + 1) as nat, i);
                        }
                        assert forall|i: int| 0 <= i < code.len() implies #[trigger] mark_in(
                            code[i],
                            jmp as int,
                            se.1 as int,
                            ret as int,
                            se.2 as int,
                        ) by {}
                    }
                },
                CommandType::CCALL => {
                    let name = toks[1];
                    let a = dec_val(toks[2]) as u16;
                    assert(code == call_code(name, a, ret));
                    assert forall|i: int|
                        0 <= i < code.len() && minted_mark(code[i]) is Some implies i == code.len()
                        - 1 && minted_mark(code[i]) == Some(LabelV::RetAddr(name, ret)) by {
                        lemma_call_mark_positions(name, a, ret, i);
                    }
                    assert forall|i: int| 0 <= i < code.len() implies #[trigger] mark_in(
                        code[i],
                        jmp as int,
                        se.1 as int,
                        ret as int,
                        se.2 as int,
                    ) by {
                        if minted_mark(code[i]) is Some {
                            lemma_call_mark_positions(name, a, ret, i);
                        }
                    }
                    assert forall|i: int, k: int|
                        #![trigger minted_mark(code[i]), minted_mark(code[k])]
                        0 <= i < k < code.len() && minted_mark(code[i]) is Some
                            && minted_mark(code[k]) is Some implies label_text(
                        minted_mark(code[i]).unwrap(),
                    ) != label_text(minted_mark(code[k]).unwrap()) by {
                        lemma_call_mark_positions(name, a, ret, i);
                        lemma_call_mark_positions(name, a, ret, k);
                    }
                },
                _ => {
                    assert forall|i: int|
                        0 <= i < code.len() implies #[trigger] minted_mark(code[i]) is None by {
                        lemma_counterless_no_marks(cmd, file, jmp, ret, i);
                    }
                    assert forall|i: int| 0 <= i < code.len() implies #[trigger] mark_in(
                        code[i],
                        jmp as int,
                        se.1 as int,
                        ret as int,
                        se.2 as int,
                    ) by {}
                },
            }
        },
    }
}

/// In a comparison block, the only minted marks are the pair at the fixed
/// offsets past the shared pop head.
proof fn lemma_compare_mark_positions(op: ArithOp, c: nat, i: int)
    requires
        is_compare(op),
        0 <= i < compare_code(op, c).len(),
        minted_mark(compare_code(op, c)[i]) is Some,
    ensures
        (i == 13 && minted_mark(compare_code(op, c)[i]) == Some(
            LabelV::CmpTrue(c),
        )) || (i == 15 && minted_mark(compare_code(op, c)[i]) == Some(
            LabelV::CmpEnd(c),
        )),
{
    let code = compare_code(op, c);
    assert(code.len() == 21);
    if i < 4 {
        assert(code[i] == pop_d_code()[i]);
    } else if i < 16 {
    } else {
        assert(code[i] == push_d_code()[i - 16]);
    }
}

/// A binary or unary block holds no mark at all.
proof fn lemma_plain_arith_no_marks(op: ArithOp, c: nat, i: int)
    requires
        !is_compare(op),
        0 <= i < arith_code(op, c).len(),
    ensures
        minted_mark(arith_code(op, c)[i]) is None,
{
    let code = arith_code(op, c);
    match op {
        ArithOp::Add | ArithOp::Sub | ArithOp::And | ArithOp::Or => {
            assert(code == binary_code(op));
            if i < 4 {
                assert(code[i] == pop_d_code()[i]);
            }
        },
        _ => {
            assert(code == unary_code(op));
        },
    }
}

/// In a call block, the only minted mark is the return-address marker at the
/// very end.
proof fn lemma_call_mark_positions(name: Seq<u8>, a: u16, c: nat, i: int)
    requires
        0 <= i < call_code(name, a, c).len(),
        minted_mark(call_code(name, a, c)[i]) is Some,
    ensures
        i == call_code(name, a, c).len() - 1,
        minted_mark(call_code(name, a, c)[i]) == Some(LabelV::RetAddr(name, c)),
{
    let code = call_code(name, a, c);
    let pd = push_d_code();
    assert(code.len() == 50);
    if i < 2 {
    } else if i < 7 {
        assert(code[i] == pd[i - 2]);
    } else if i < 9 {
    } else if i < 14 {
        assert(code[i] == pd[i - 9]);
    } else if i < 16 {
    } else if i < 21 {
        assert(code[i] == pd[i - 16]);
    } else if i < 23 {
    } else if i < 28 {
        assert(code[i] == pd[i - 23]);
    } else if i < 30 {
    } else if i < 35 {
        assert(code[i] == pd[i - 30]);
    } else {
    }
}

/// Every other emission — push, pop, label, goto, if-goto, function, return
/// — mints nothing.
proof fn lemma_counterless_no_marks(cmd: Seq<u8>, file: Seq<u8>, jmp: nat, ret: nat, i: int)
    requires
        step_emit(cmd, file, jmp, ret) is Ok,
        classify(cmd) != CommandType::CARITHMETIC,
        classify(cmd) != CommandType::CCALL,
        0 <= i < step_emit(cmd, file, jmp, ret).unwrap().0.len(),
    ensures
        minted_mark(step_emit(cmd, file, jmp, ret).unwrap().0[i]) is None,
{
    let code = step_emit(cmd, file, jmp, ret).unwrap().0;
    let toks = tokens(cmd);
    let pd = push_d_code();
    let qd = pop_d_code();
    match classify(cmd) {
        CommandType::CPUSH => {
            let seg = seg_of(toks[1]).unwrap();
            let idx = dec_val(toks[2]) as u16;
            assert(code == push_code(seg, file, idx));
            match seg {
                Segment::Constant => {
                    if i >= 2 {
                        assert(code[i] == pd[i - 2]);
                    }
                },
                Segment::Temp | Segment::Pointer | Segment::Static => {
                    if i >= 2 {
                        assert(code[i] == pd[i - 2]);
                    }
                },
                _ => {
                    if i >= 6 {
                        assert(code[i] == pd[i - 6]);
                    }
                },
            }
        },
        CommandType::CPOP => {
            let seg = seg_of(toks[1]).unwrap();
            let idx = dec_val(toks[2]) as u16;
            assert(code == pop_code(seg, file, idx));
            match seg {
                Segment::Temp | Segment::Pointer | Segment::Static => {
                    if i < 4 {
                        assert(code[i] == qd[i]);
                    }
                },
                _ => {
                    if 6 <= i < 10 {
                        assert(code[i] == qd[i - 6]);
                    }
                },
            }
        },
        CommandType::CIF => {
            assert(code == if_code(toks[1]));
            if i < 4 {
                assert(code[i] == qd[i]);
            }
        },
        CommandType::CFUNCTION => {
            assert(code == function_code(toks[1], dec_val(toks[2]) as u16));
            if i >= 2 {
                assert(code[i] == rep_push_d(dec_val(toks[2]) as nat)[i - 2]);
                lemma_rep_push_d_no_marks(dec_val(toks[2]) as nat);
            }
        },
        CommandType::CRETURN => {
            assert(code == return_code());
            if 11 <= i < 15 {
                assert(code[i] == qd[i - 11]);
            } else if 22 <= i < 28 {
                assert(code[i] == restore_code(Reg::That)[i - 22]);
            } else if 28 <= i < 34 {
                assert(code[i] == restore_code(Reg::This)[i - 28]);
            } else if 34 <= i < 40 {
                assert(code[i] == restore_code(Reg::Arg)[i - 34]);
            } else if 40 <= i < 46 {
                assert(code[i] == restore_code(Reg::Lcl)[i - 40]);
            }
        },
        _ => {
        },
    }
}

/// The generator's counters after translating `cmds` from `(jmp, ret)`;
/// where translation fails they stay put.
pub open spec fn counters_after(cmds: Seq<Seq<u8>>, file: Seq<u8>, jmp: nat, ret: nat) -> (
    nat,
    nat,
)
    decreases cmds.len(),
{
    if cmds.len() == 0 {
        (jmp, ret)
    } else {
        match step_emit(cmds[0], file, jmp, ret) {
            Err(_) => (jmp, ret),
            Ok((_, jmp2, ret2)) => counters_after(cmds.drop_first(), file, jmp2, ret2),
        }
    }
}

proof fn lemma_translation_marks(cmds: Seq<Seq<u8>>, file: Seq<u8>, jmp: nat, ret: nat)
    ensures
        translate_commands(cmds, file, jmp, ret) matches Ok(out) ==> {
            let after = counters_after(cmds, file, jmp, ret);
            &&& marks_distinct(out)
            &&& marks_in(out, jmp as int, after.0 as int, ret as int, after.1 as int)
            &&& jmp <= after.0
            &&& ret <= after.1
        },
    decreases cmds.len(),
{
    match translate_commands(cmds, file, jmp, ret) {
        Err(_) => {},
        Ok(out) => {
            if cmds.len() == 0 {
                assert(out =~= Seq::<InstrV>::empty());
            } else {
                let se = step_emit(cmds[0], file, jmp, ret).unwrap();
                lemma_step_emit_marks(cmds[0], file, jmp, ret);
                lemma_translation_marks(cmds.drop_first(), file, se.1, se.2);
                let rest = translate_commands(cmds.drop_first(), file, se.1, se.2).unwrap();
                let after = counters_after(cmds.drop_first(), file, se.1, se.2);
                lemma_marks_concat(
                    se.0,
                    rest,
                    jmp as int,
                    se.1 as int,
                    after.0 as int,
                    ret as int,
                    se.2 as int,
                    after.1 as int,
                );
                assert(out == se.0 + rest);
            }
        },
    }
}

/// Label uniqueness across a whole translation: in the output of one run,
/// no two generator-minted jump-target definitions — comparison success and
/// join labels, call-site return-address labels — share their text, however
/// often the same operator appears or the same function is called.
pub proof fn lemma_translation_labels_unique(cmds: Seq<Seq<u8>>, file: Seq<u8>)
    ensures
        translate_commands(cmds, file, 0, 0) matches Ok(out) ==> marks_distinct(out),
{
    lemma_translation_marks(cmds, file, 0, 0);
}

} // verus!
