//! Runs generated code on a small interpreter for the target data path and
//! checks the stack-machine semantics the generator promises.
use std::collections::HashMap;

use hack_vm::hack::{Comp, Dest, Instr, LabelId, Reg};
use hack_vm::writer::CodeWriter;

struct Machine {
    a: i64,
    d: i64,
    mem: HashMap<i64, i64>,
    labels: HashMap<String, i64>,
}

impl Machine {
    fn new() -> Machine {
        Machine { a: 0, d: 0, mem: HashMap::new(), labels: HashMap::new() }
    }

    fn get(&self, addr: i64) -> i64 {
        *self.mem.get(&addr).unwrap_or(&0)
    }

    fn set(&mut self, addr: i64, v: i64) {
        self.mem.insert(addr, v);
    }

    fn reg_addr(r: &Reg) -> i64 {
        match r {
            Reg::Sp => 0,
            Reg::Lcl => 1,
            Reg::Arg => 2,
            Reg::This => 3,
            Reg::That => 4,
            Reg::R13 => 13,
            Reg::R14 => 14,
        }
    }

    fn label_value(&self, l: &LabelId) -> i64 {
        let name = match l {
            LabelId::Named(n) => String::from_utf8(n.clone()).unwrap(),
            LabelId::CmpTrue(k) => format!("jump_point{}", k),
            LabelId::CmpEnd(k) => format!("jump_endpoint{}", k),
            LabelId::RetAddr(n, k) => {
                format!("{}_{}", String::from_utf8(n.clone()).unwrap(), k)
            },
            LabelId::StaticRef(f, j) => {
                format!("{}.{}", String::from_utf8(f.clone()).unwrap(), j)
            },
        };
        *self.labels.get(&name).unwrap_or(&0)
    }

    /// Apply each instruction's data effect in order; control transfers are
    /// not modeled, so this suits straight-line blocks.
    fn run(&mut self, code: &[Instr]) {
        for i in code {
            match i {
                Instr::AtNum(n) => self.a = *n as i64,
                Instr::AtReg(r) => self.a = Machine::reg_addr(r),
                Instr::AtLbl(l) => self.a = self.label_value(l),
                Instr::Mark(_) => {},
                Instr::Compute(dest, comp, _jmp) => {
                    let m = self.get(self.a);
                    let v = match comp {
                        Comp::Zero => 0,
                        Comp::NegOne => -1,
                        Comp::D => self.d,
                        Comp::A => self.a,
                        Comp::M => m,
                        Comp::NotM => !(m as u16) as i64,
                        Comp::NegM => -m,
                        Comp::MPlusOne => m + 1,
                        Comp::MMinusOne => m - 1,
                        Comp::DPlusA => self.d + self.a,
                        Comp::DMinusA => self.d - self.a,
                        Comp::DPlusM => self.d + m,
                        Comp::MMinusD => m - self.d,
                        Comp::DAndM => ((self.d as u16) & (m as u16)) as i64,
                        Comp::DOrM => ((self.d as u16) | (m as u16)) as i64,
                    };
                    match dest {
                        Dest::NoDst => {},
                        Dest::M => {
                            let at = self.a;
                            self.set(at, v);
                        },
                        Dest::D => self.d = v,
                        Dest::A => self.a = v,
                    }
                },
            }
        }
    }
}

#[test]
fn push_pop_round_trip_per_segment() {
    for seg in ["local", "argument", "this", "that", "temp", "pointer", "static"] {
        let mut w = CodeWriter::new(b"Main".to_vec());
        let mut m = Machine::new();
        m.set(0, 300); // stack pointer
        m.set(1, 400); // local base
        m.set(2, 500); // argument base
        m.set(3, 3030); // this base
        m.set(4, 3040); // that base
        m.labels.insert("Main.2".to_string(), 16);
        let target = match seg {
            "local" => 402,
            "argument" => 502,
            "this" => 3032,
            "that" => 3042,
            "temp" => 7,
            "pointer" => 5,
            "static" => 16,
            _ => unreachable!(),
        };
        m.set(target, 77);
        let push = w.write_pushpop(b"push", seg.as_bytes(), b"2").unwrap();
        let pop = w.write_pushpop(b"pop", seg.as_bytes(), b"2").unwrap();
        m.run(&push);
        assert_eq!(m.get(0), 301, "push advances the stack pointer ({})", seg);
        assert_eq!(m.get(300), 77, "push copies the value ({})", seg);
        m.run(&pop);
        assert_eq!(m.get(0), 300, "stack pointer restored ({})", seg);
        assert_eq!(m.get(target), 77, "target cell restored ({})", seg);
    }
}

#[test]
fn constant_to_temp_transfer() {
    let mut w = CodeWriter::new(b"Main".to_vec());
    let mut m = Machine::new();
    m.set(0, 256);
    let push = w.write_pushpop(b"push", b"constant", b"9").unwrap();
    let pop = w.write_pushpop(b"pop", b"temp", b"0").unwrap();
    m.run(&push);
    m.run(&pop);
    assert_eq!(m.get(5), 9, "temp slot 0 holds the constant");
    assert_eq!(m.get(0), 256, "stack pointer back at its base");
}

#[test]
fn arithmetic_on_the_stack() {
    let cases: &[(&str, i64, i64, i64)] = &[
        ("add", 2, 3, 5),
        ("sub", 7, 3, 4),
        ("and", 6, 3, 2),
        ("or", 6, 3, 7),
    ];
    for (op, x, y, expect) in cases {
        let mut w = CodeWriter::new(b"Main".to_vec());
        let mut m = Machine::new();
        m.set(0, 258);
        m.set(256, *x);
        m.set(257, *y);
        let code = w.write_arithmetic(op.as_bytes()).unwrap();
        m.run(&code);
        assert_eq!(m.get(0), 257, "one net pop ({})", op);
        assert_eq!(m.get(256), *expect, "{} result", op);
    }
    let mut w = CodeWriter::new(b"Main".to_vec());
    let mut m = Machine::new();
    m.set(0, 257);
    m.set(256, 5);
    let code = w.write_arithmetic(b"neg").unwrap();
    m.run(&code);
    assert_eq!(m.get(0), 257, "unary keeps the stack pointer");
    assert_eq!(m.get(256), -5);
}

#[test]
fn function_then_return_restores_the_caller() {
    // The frame a call just built: one argument below it, locals about to be
    // carved at the stack pointer.
    let sp0: i64 = 310;
    let mut w = CodeWriter::new(b"Main".to_vec());
    let mut m = Machine::new();
    m.set(0, sp0); // SP
    m.set(1, sp0); // LCL = SP
    m.set(2, sp0 - 6); // ARG: the single argument below the frame
    m.set(sp0 - 6, 42); // the argument itself
    m.set(sp0 - 5, 9999); // return address
    m.set(sp0 - 4, 400); // saved LCL
    m.set(sp0 - 3, 500); // saved ARG
    m.set(sp0 - 2, 3030); // saved THIS
    m.set(sp0 - 1, 3040); // saved THAT
    let body = w.write_function(b"f", b"2").unwrap();
    m.run(&body);
    assert_eq!(m.get(0), sp0 + 2, "two locals pushed");
    assert_eq!(m.get(sp0), 0);
    assert_eq!(m.get(sp0 + 1), 0);
    let ret = w.write_return();
    m.run(&ret);
    assert_eq!(m.get(1), 400, "caller's local base restored");
    assert_eq!(m.get(2), 500, "caller's argument base restored");
    assert_eq!(m.get(3), 3030, "caller's this base restored");
    assert_eq!(m.get(4), 3040, "caller's that base restored");
    assert_eq!(m.get(sp0 - 6), 0, "exactly one value left for the caller");
    assert_eq!(m.get(0), sp0 - 5, "stack pointer one past the result");
    assert_eq!(m.a, 9999, "control handed to the return address");
}

#[test]
fn recursive_calls_leave_the_outer_frame_alone() {
    let mut w = CodeWriter::new(b"Main".to_vec());
    let outer = w.write_call(b"fact", b"1").unwrap();
    let inner = w.write_call(b"fact", b"1").unwrap();
    assert_ne!(outer, inner, "distinct return-address labels");

    // Execute the inner call on top of the outer activation's frame and
    // check the frame is untouched.
    let mut m = Machine::new();
    m.labels.insert("fact_1".to_string(), 7000);
    let frame_base: i64 = 300;
    for (k, v) in [(0, 310), (1, 305), (2, 299), (3, 3030), (4, 3040)] {
        m.set(k, v);
    }
    for j in 0..5 {
        m.set(frame_base + j, 1000 + j);
    }
    m.run(&inner);
    for j in 0..5 {
        assert_eq!(m.get(frame_base + j), 1000 + j, "outer frame cell kept");
    }
    assert_eq!(m.get(0), 315, "five cells pushed");
    assert_eq!(m.get(1), 315, "callee local base at the new stack pointer");
    assert_eq!(m.get(2), 309, "callee argument base under the frame");
    assert_eq!(m.get(310), 7000, "return address saved first");
    assert_eq!(m.get(311), 305, "saved local base");
    assert_eq!(m.get(312), 299, "saved argument base");
    assert_eq!(m.get(313), 3030, "saved this base");
    assert_eq!(m.get(314), 3040, "saved that base");
}
