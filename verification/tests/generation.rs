use hack_vm::hack::{render, Comp, Dest, Instr, Jmp, LabelId, Reg};
use hack_vm::translate::translate_file;
use hack_vm::writer::{CodeWriter, TranslateError};

fn lines(src: &[&str]) -> Vec<Vec<u8>> {
    src.iter().map(|s| s.as_bytes().to_vec()).collect()
}

fn text(code: &Vec<Instr>) -> String {
    String::from_utf8(render(code)).unwrap()
}

#[test]
fn push_constant_text() {
    let mut w = CodeWriter::new(b"Main".to_vec());
    let code = w.write_pushpop(b"push", b"constant", b"7").unwrap();
    assert_eq!(text(&code), "@7\nD=A\n@SP\nA=M\nM=D\n@SP\nM=M+1\n");
}

#[test]
fn pop_indirect_text() {
    let mut w = CodeWriter::new(b"Main".to_vec());
    let code = w.write_pushpop(b"pop", b"local", b"2").unwrap();
    assert_eq!(
        text(&code),
        "@LCL\nD=M\n@2\nD=D+A\n@R13\nM=D\n@SP\nM=M-1\nA=M\nD=M\n@R13\nA=M\nM=D\n"
    );
}

#[test]
fn push_segment_addressing() {
    let mut w = CodeWriter::new(b"Main".to_vec());
    let temp = w.write_pushpop(b"push", b"temp", b"3").unwrap();
    assert_eq!(temp[0], Instr::AtNum(8));
    let ptr = w.write_pushpop(b"push", b"pointer", b"1").unwrap();
    assert_eq!(ptr[0], Instr::AtNum(4));
    let stat = w.write_pushpop(b"push", b"static", b"5").unwrap();
    assert_eq!(
        stat[0],
        Instr::AtLbl(LabelId::StaticRef(b"Main".to_vec(), 5))
    );
    assert_eq!(text(&stat)[..8], *"@Main.5\n");
}

#[test]
fn static_blocks_are_file_scoped() {
    let mut w1 = CodeWriter::new(b"FileA".to_vec());
    let mut w2 = CodeWriter::new(b"FileB".to_vec());
    let a = w1.write_pushpop(b"push", b"static", b"3").unwrap();
    let b = w2.write_pushpop(b"push", b"static", b"3").unwrap();
    assert_ne!(render(&a), render(&b));
    assert_eq!(text(&a)[..9], *"@FileA.3\n");
    assert_eq!(text(&b)[..9], *"@FileB.3\n");
}

#[test]
fn binary_and_unary_operators() {
    let mut w = CodeWriter::new(b"Main".to_vec());
    let add = w.write_arithmetic(b"add").unwrap();
    assert_eq!(
        text(&add),
        "@SP\nM=M-1\nA=M\nD=M\n@SP\nM=M-1\nA=M\nM=D+M\n@SP\nM=M+1\n"
    );
    let sub = w.write_arithmetic(b"sub").unwrap();
    assert!(text(&sub).contains("M=M-D\n"));
    let and = w.write_arithmetic(b"and").unwrap();
    assert!(text(&and).contains("M=D&M\n"));
    let or = w.write_arithmetic(b"or").unwrap();
    assert!(text(&or).contains("M=D|M\n"));
    let neg = w.write_arithmetic(b"neg").unwrap();
    assert_eq!(text(&neg), "@SP\nM=M-1\nA=M\nM=-M\n@SP\nM=M+1\n");
    let not = w.write_arithmetic(b"not").unwrap();
    assert!(text(&not).contains("M=!M\n"));
    assert_eq!(w.jmp_point, 0);
}

#[test]
fn comparison_labels_are_fresh_per_emission() {
    let mut w = CodeWriter::new(b"Main".to_vec());
    let eq1 = text(&w.write_arithmetic(b"eq").unwrap());
    assert_eq!(w.jmp_point, 1);
    let eq2 = text(&w.write_arithmetic(b"eq").unwrap());
    assert_eq!(w.jmp_point, 2);
    let gt = text(&w.write_arithmetic(b"gt").unwrap());
    let lt = text(&w.write_arithmetic(b"lt").unwrap());
    assert!(eq1.contains("@jump_point1\nD;JEQ\n"));
    assert!(eq1.contains("(jump_point1)\n"));
    assert!(eq1.contains("@jump_endpoint1\n"));
    assert!(eq2.contains("@jump_point2\nD;JEQ\n"));
    assert!(gt.contains("@jump_point3\nD;JGT\n"));
    assert!(lt.contains("@jump_point4\nD;JLT\n"));
    assert_ne!(eq1, eq2);
}

#[test]
fn unknown_operator_fails_translation() {
    let mut w = CodeWriter::new(b"Main".to_vec());
    assert_eq!(
        w.write_arithmetic(b"xor"),
        Err(TranslateError::UnknownOperator)
    );
    let r = translate_file(&lines(&["push constant 1", "push constant 2", "xor"]), b"Main");
    assert_eq!(r, Err(TranslateError::UnknownOperator));
}

#[test]
fn input_errors_are_reported() {
    let mut w = CodeWriter::new(b"Main".to_vec());
    assert_eq!(
        w.write_pushpop(b"pop", b"constant", b"3"),
        Err(TranslateError::PopConstant)
    );
    assert_eq!(
        w.write_pushpop(b"push", b"heap", b"3"),
        Err(TranslateError::UnknownSegment)
    );
    assert_eq!(
        w.write_pushpop(b"push", b"local", b"3x"),
        Err(TranslateError::BadIndex)
    );
    assert_eq!(
        w.write_pushpop(b"push", b"local", b""),
        Err(TranslateError::BadIndex)
    );
    assert_eq!(
        w.write_pushpop(b"push", b"constant", b"32768"),
        Err(TranslateError::BadIndex)
    );
    assert_eq!(
        w.write_pushpop(b"push", b"temp", b"32763"),
        Err(TranslateError::BadIndex)
    );
    assert!(w.write_pushpop(b"push", b"temp", b"32762").is_ok());
    assert_eq!(
        translate_file(&lines(&["push constant"]), b"Main"),
        Err(TranslateError::MissingOperand)
    );
    assert_eq!(
        translate_file(&lines(&["call f x"]), b"Main"),
        Err(TranslateError::BadIndex)
    );
}

#[test]
fn call_sites_get_distinct_return_labels() {
    let mut w = CodeWriter::new(b"Main".to_vec());
    let c1 = text(&w.write_call(b"fact", b"1").unwrap());
    assert_eq!(w.return_num, 1);
    let c2 = text(&w.write_call(b"fact", b"1").unwrap());
    assert_eq!(w.return_num, 2);
    assert!(c1.starts_with("@fact_0\nD=A\n"));
    assert!(c1.ends_with("(fact_0)\n"));
    assert!(c2.starts_with("@fact_1\nD=A\n"));
    assert!(c2.ends_with("(fact_1)\n"));
    assert_ne!(c1, c2);
}

#[test]
fn call_frame_layout() {
    let mut w = CodeWriter::new(b"Main".to_vec());
    let c = text(&w.write_call(b"f", b"2").unwrap());
    let expected = "@f_0\nD=A\n@SP\nA=M\nM=D\n@SP\nM=M+1\n\
                    @LCL\nD=M\n@SP\nA=M\nM=D\n@SP\nM=M+1\n\
                    @ARG\nD=M\n@SP\nA=M\nM=D\n@SP\nM=M+1\n\
                    @THIS\nD=M\n@SP\nA=M\nM=D\n@SP\nM=M+1\n\
                    @THAT\nD=M\n@SP\nA=M\nM=D\n@SP\nM=M+1\n\
                    @SP\nD=M\n@5\nD=D-A\n@2\nD=D-A\n@ARG\nM=D\n\
                    @SP\nD=M\n@LCL\nM=D\n\
                    @f\n0;JMP\n(f_0)\n";
    assert_eq!(c, expected);
}

#[test]
fn function_emits_zeroed_locals() {
    let w = CodeWriter::new(b"Main".to_vec());
    let f0 = text(&w.write_function(b"f", b"0").unwrap());
    assert_eq!(f0, "(f)\nD=0\n");
    let f2 = text(&w.write_function(b"f", b"2").unwrap());
    assert_eq!(
        f2,
        "(f)\nD=0\n@SP\nA=M\nM=D\n@SP\nM=M+1\n@SP\nA=M\nM=D\n@SP\nM=M+1\n"
    );
    assert_eq!(
        w.write_function(b"f", b"two"),
        Err(TranslateError::BadIndex)
    );
}

#[test]
fn return_walks_the_frame() {
    let w = CodeWriter::new(b"Main".to_vec());
    let r = text(&w.write_return());
    let expected = "@LCL\nD=M\n@R13\nM=D\n\
                    @5\nD=A\n@R13\nA=M-D\nD=M\n@R14\nM=D\n\
                    @SP\nM=M-1\nA=M\nD=M\n\
                    @ARG\nA=M\nM=D\n@ARG\nD=M+1\n@SP\nM=D\n\
                    @R13\nM=M-1\nA=M\nD=M\n@THAT\nM=D\n\
                    @R13\nM=M-1\nA=M\nD=M\n@THIS\nM=D\n\
                    @R13\nM=M-1\nA=M\nD=M\n@ARG\nM=D\n\
                    @R13\nM=M-1\nA=M\nD=M\n@LCL\nM=D\n\
                    @R14\nA=M\n0;JMP\n";
    assert_eq!(r, expected);
}

#[test]
fn control_flow_blocks() {
    let w = CodeWriter::new(b"Main".to_vec());
    assert_eq!(text(&w.write_label(b"LOOP")), "(LOOP)\n");
    assert_eq!(text(&w.write_goto(b"LOOP")), "@LOOP\n0;JMP\n");
    assert_eq!(
        text(&w.write_if(b"END")),
        "@SP\nM=M-1\nA=M\nD=M\n@END\nD;JNE\n"
    );
}

#[test]
fn counters_survive_a_file_switch() {
    let mut w = CodeWriter::new(b"FileA".to_vec());
    let _ = w.write_arithmetic(b"eq").unwrap();
    let _ = w.write_call(b"f", b"0").unwrap();
    w.set_file_name(b"FileB".to_vec());
    assert_eq!(w.jmp_point, 1);
    assert_eq!(w.return_num, 1);
    let eq2 = text(&w.write_arithmetic(b"eq").unwrap());
    assert!(eq2.contains("@jump_point2\n"));
    let st = text(&w.write_pushpop(b"push", b"static", b"0").unwrap());
    assert!(st.starts_with("@FileB.0\n"));
}

#[test]
fn whole_file_translation() {
    let src = lines(&[
        "// computes 2 + 3",
        "push constant 2",
        "push constant 3 // operands ready",
        "add",
        "pop temp 0",
    ]);
    let code = translate_file(&src, b"Sum").unwrap();
    let t = text(&code);
    let expected = "@2\nD=A\n@SP\nA=M\nM=D\n@SP\nM=M+1\n\
                    @3\nD=A\n@SP\nA=M\nM=D\n@SP\nM=M+1\n\
                    @SP\nM=M-1\nA=M\nD=M\n@SP\nM=M-1\nA=M\nM=D+M\n@SP\nM=M+1\n\
                    @SP\nM=M-1\nA=M\nD=M\n@5\nM=D\n";
    assert_eq!(t, expected);
}

#[test]
fn render_covers_every_instruction_form() {
    let code = vec![
        Instr::AtNum(42),
        Instr::AtReg(Reg::That),
        Instr::AtLbl(LabelId::Named(b"END".to_vec())),
        Instr::AtLbl(LabelId::CmpTrue(7)),
        Instr::AtLbl(LabelId::CmpEnd(7)),
        Instr::AtLbl(LabelId::RetAddr(b"f".to_vec(), 12)),
        Instr::Compute(Dest::D, Comp::DPlusA, Jmp::NoJmp),
        Instr::Compute(Dest::NoDst, Comp::Zero, Jmp::Always),
        Instr::Compute(Dest::M, Comp::NegOne, Jmp::NoJmp),
        Instr::Mark(LabelId::Named(b"END".to_vec())),
    ];
    assert_eq!(
        text(&code),
        "@42\n@THAT\n@END\n@jump_point7\n@jump_endpoint7\n@f_12\nD=D+A\n0;JMP\nM=-1\n(END)\n"
    );
}

#[test]
fn counters_render_beyond_one_digit() {
    let mut w = CodeWriter::new(b"Main".to_vec());
    let mut last = String::new();
    for _ in 0..12 {
        last = text(&w.write_arithmetic(b"lt").unwrap());
    }
    assert!(last.contains("@jump_point12\nD;JLT\n"));
    assert!(last.contains("(jump_endpoint12)\n"));
    for _ in 0..11 {
        let _ = w.write_call(b"f", b"0").unwrap();
    }
    let c = text(&w.write_call(b"f", b"0").unwrap());
    assert!(c.starts_with("@f_11\n"));
}

#[test]
fn index_boundaries() {
    let mut w = CodeWriter::new(b"Main".to_vec());
    let top = w.write_pushpop(b"push", b"constant", b"32767").unwrap();
    assert_eq!(top[0], Instr::AtNum(32767));
    let zero_padded = w.write_pushpop(b"push", b"constant", b"007").unwrap();
    assert_eq!(zero_padded[0], Instr::AtNum(7));
}

#[test]
fn full_function_program_translates() {
    let src = lines(&[
        "function Main.double 0",
        "push argument 0",
        "push argument 0",
        "add",
        "return",
        "function Main.run 0",
        "push constant 21",
        "call Main.double 1",
        "return",
    ]);
    let code = translate_file(&src, b"Main").unwrap();
    let t = text(&code);
    assert!(t.contains("(Main.double)\n"));
    assert!(t.contains("(Main.run)\n"));
    assert!(t.contains("@Main.double_0\nD=A\n"));
    assert!(t.contains("(Main.double_0)\n"));
    assert!(t.contains("@Main.double\n0;JMP\n"));
}
