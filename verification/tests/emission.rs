//! Code generation: instruction rendering and the assembly text of
//! whole programs.

use snake::assembly::{Arg32, Arg64, BinArgs, ConditionCode, Instr, MemRef, MovArgs, Reg, Reg8,
    Reg32, arg32_to_string, arg64_to_string, imm32_to_string, instr_to_string, instrs_to_string,
    mem_ref_to_string, reg_to_string};
use snake::ast::{Expr, Prim, Prog, SurfExpr, SurfProg};
use snake::compile::{backend, compile, frontend, middle_end};
use snake::span::SrcLoc;
use snake::assembly::Loc;
use snake::backend::Emitter;
use snake::frontend::Resolver;
use snake::identifiers::{BlockName, VarName};
use snake::middle_end::Lowerer;
use snake::ssa;

fn loc(a: usize, b: usize) -> SrcLoc {
    SrcLoc::new(a, b)
}

fn var(name: &str, a: usize, b: usize) -> SurfExpr {
    Expr::Var(name.to_string(), loc(a, b))
}

#[test]
fn registers_and_immediates_render() {
    assert_eq!(reg_to_string(Reg::Rax), "rax");
    assert_eq!(reg_to_string(Reg::R10), "r10");
    assert_eq!(imm32_to_string(-5), "-5");
    assert_eq!(imm32_to_string(0), "0");
    assert_eq!(imm32_to_string(i32::MIN), "-2147483648");
    assert_eq!(
        mem_ref_to_string(MemRef { reg: Reg::Rsp, offset: -8 }),
        "QWORD [rsp + -8]"
    );
}

#[test]
fn unsigned_immediates_render_as_fixed_width_hex() {
    assert_eq!(arg32_to_string(Arg32::Unsigned(255)), "0x000000ff");
    assert_eq!(arg32_to_string(Arg32::Unsigned(0)), "0x00000000");
    assert_eq!(arg64_to_string(Arg64::Unsigned(255)), "0x00000000000000ff");
    assert_eq!(
        arg64_to_string(Arg64::Unsigned(u64::MAX)),
        "0xffffffffffffffff"
    );
    assert_eq!(arg64_to_string(Arg64::Signed(-1)), "-1");
    assert_eq!(arg64_to_string(Arg64::Signed(i64::MIN)), "-9223372036854775808");
}

#[test]
fn instructions_render_with_eight_space_indent() {
    assert_eq!(
        instr_to_string(&Instr::Mov(MovArgs::ToReg(Reg::Rax, Arg64::Signed(7)))),
        "        mov rax, 7"
    );
    assert_eq!(
        instr_to_string(&Instr::Add(BinArgs::ToReg(Reg::Rax, Arg32::Reg(Reg::R10)))),
        "        add rax, r10"
    );
    assert_eq!(
        instr_to_string(&Instr::SetCC(ConditionCode::NE, Reg8::Al)),
        "        setne al"
    );
    assert_eq!(
        instr_to_string(&Instr::Mov(MovArgs::ToMem(
            MemRef { reg: Reg::Rsp, offset: -16 },
            Reg32::Reg(Reg::Rax)
        ))),
        "        mov QWORD [rsp + -16], rax"
    );
    assert_eq!(instr_to_string(&Instr::Label("main_tail#0".to_string())), "main_tail#0:");
    assert_eq!(instr_to_string(&Instr::Ret), "        ret");
    assert_eq!(instr_to_string(&Instr::Jmp("f_tail#1".to_string())), "        jmp f_tail#1");
    assert_eq!(
        instr_to_string(&Instr::JCC(ConditionCode::E, "els#2".to_string())),
        "        je els#2"
    );
    assert_eq!(instr_to_string(&Instr::Global("entry".to_string())), "        global entry");
    assert_eq!(instr_to_string(&Instr::Section(".text".to_string())), "section .text");
    let both = instrs_to_string(&vec![Instr::Ret, Instr::Ret]);
    assert_eq!(both, "        ret\n        ret\n");
}

/// `def main(x): add1(x)`
fn add1_prog() -> SurfProg {
    Prog {
        externs: vec![],
        name: "main".to_string(),
        param: ("x".to_string(), loc(9, 10)),
        body: Expr::Prim { prim: Prim::Add1, args: vec![var("x", 18, 19)], loc: loc(13, 20) },
        loc: loc(0, 20),
    }
}

#[test]
fn add1_program_compiles_to_the_expected_text() {
    let source = "def main(x): add1(x)";
    let text = compile(source, add1_prog()).expect("should compile");
    let expected = "\
section .data
section .text
        global entry
main_tail#0:
        mov rax, QWORD [rsp + -8]
        mov QWORD [rsp + -16], rax
        mov rax, QWORD [rsp + -16]
        mov r10, 1
        add rax, r10
        mov QWORD [rsp + -24], rax
        mov rax, QWORD [rsp + -24]
        ret
entry:
        mov QWORD [rsp + -8], rdi
        jmp main_tail#0
";
    assert_eq!(text, expected);
}

#[test]
fn compile_reports_resolution_errors() {
    let source = "def main(x): y";
    let prog = Prog {
        externs: vec![],
        name: "main".to_string(),
        param: ("x".to_string(), loc(9, 10)),
        body: var("y", 13, 14),
        loc: loc(0, 14),
    };
    let err = compile(source, prog).expect_err("y is unbound");
    assert_eq!(err, "Error resolving ast: variable \"y\" unbound: 1:13-1:14");
}

#[test]
fn conditionals_emit_labels_and_jumps() {
    // def main(x): if x < 0: 0 - x else: x
    let source = "def main(x): if x < 0: 0 - x else: x";
    let body = Expr::If {
        cond: Box::new(Expr::Prim {
            prim: Prim::Lt,
            args: vec![var("x", 16, 17), Expr::Num(0, loc(20, 21))],
            loc: loc(16, 21),
        }),
        thn: Box::new(Expr::Prim {
            prim: Prim::Sub,
            args: vec![Expr::Num(0, loc(23, 24)), var("x", 27, 28)],
            loc: loc(23, 28),
        }),
        els: Box::new(var("x", 35, 36)),
        loc: loc(13, 36),
    };
    let prog = Prog {
        externs: vec![],
        name: "main".to_string(),
        param: ("x".to_string(), loc(9, 10)),
        body,
        loc: loc(0, 36),
    };
    let text = compile(source, prog).expect("should compile");
    assert!(text.contains("        cmp rax, 0\n        jne thn#"));
    assert!(text.contains("thn#1:"));
    assert!(text.contains("els#2:"));
    assert!(text.contains("        setl al"));
}

#[test]
fn tail_recursion_compiles_to_jumps_not_calls() {
    // def main(x): def f(n): if n == 0: x else: f(sub1(n)) in f(x)
    let source = "def main(x): def f(n): if n == 0: x else: f(sub1(n)) in f(x)";
    let cond = Expr::Prim {
        prim: Prim::Eq,
        args: vec![var("n", 26, 27), Expr::Num(0, loc(31, 32))],
        loc: loc(26, 32),
    };
    let rec = Expr::Call {
        fun: "f".to_string(),
        args: vec![
            Expr::Prim { prim: Prim::Sub1, args: vec![var("n", 49, 50)], loc: loc(44, 51) },
        ],
        loc: loc(42, 52),
    };
    let decl = snake::ast::FunDecl {
        name: "f".to_string(),
        params: vec![("n".to_string(), loc(19, 20))],
        body: Expr::If {
            cond: Box::new(cond),
            thn: Box::new(var("x", 34, 35)),
            els: Box::new(rec),
            loc: loc(23, 52),
        },
        loc: loc(13, 52),
    };
    let prog = Prog {
        externs: vec![],
        name: "main".to_string(),
        param: ("x".to_string(), loc(9, 10)),
        body: Expr::FunDefs {
            decls: vec![decl],
            body: Box::new(Expr::Call {
                fun: "f".to_string(),
                args: vec![var("x", 58, 59)],
                loc: loc(56, 60),
            }),
            loc: loc(13, 60),
        },
        loc: loc(0, 60),
    };
    let text = compile(source, prog).expect("should compile");
    // The self-call and the entry call are both in tail position: only
    // jumps reach the shared tail block, never a call instruction.
    assert!(text.contains("        jmp f_tail#"));
    assert!(!text.contains("        call"));
}

#[test]
fn extern_declarations_emit_directives_and_calls() {
    // extern print(v) and def main(x): print(x)
    let source = "extern print(v) and def main(x): print(x)";
    let prog = Prog {
        externs: vec![snake::ast::ExtDecl {
            name: "print".to_string(),
            params: vec![("v".to_string(), loc(13, 14))],
            loc: loc(0, 15),
        }],
        name: "main".to_string(),
        param: ("x".to_string(), loc(29, 30)),
        body: Expr::Call {
            fun: "print".to_string(),
            args: vec![var("x", 39, 40)],
            loc: loc(33, 41),
        },
        loc: loc(0, 41),
    };
    let text = compile(source, prog).expect("should compile");
    assert!(text.contains("        extern print\n"));
    assert!(text.contains("        call print\n"));
}

#[test]
fn staged_pipeline_matches_compile() {
    let source = "def main(x): add1(x)";
    let text = compile(source, add1_prog()).expect("should compile");
    let (resolver, bound) = frontend(source, add1_prog()).expect("should resolve");
    let (lowerer, ssa) = middle_end(resolver, bound).expect("lowering is total");
    assert!(ssa.check_slots());
    let staged = backend(lowerer, ssa);
    assert_eq!(text, staged);
}

#[test]
fn frontend_reports_the_rendered_error() {
    let source = "def main(x): y";
    let prog = Prog {
        externs: vec![],
        name: "main".to_string(),
        param: ("x".to_string(), loc(9, 10)),
        body: var("y", 13, 14),
        loc: loc(0, 14),
    };
    let err = frontend(source, prog).expect_err("y is unbound");
    assert_eq!(err, "Error resolving ast: variable \"y\" unbound: 1:13-1:14");
}

#[test]
fn remaining_instruction_variants_render() {
    assert_eq!(
        instr_to_string(&Instr::Push(Arg32::Signed(3))),
        "        push 3"
    );
    assert_eq!(
        instr_to_string(&Instr::Pop(Loc::Reg(Reg::Rbx))),
        "        pop rbx"
    );
    assert_eq!(
        instr_to_string(&Instr::Shr(BinArgs::ToReg(Reg::Rax, Arg32::Signed(1)))),
        "        shr rax, 1"
    );
    assert_eq!(
        instr_to_string(&Instr::Sar(BinArgs::ToReg(Reg::Rax, Arg32::Signed(1)))),
        "        sar rax, 1"
    );
    assert_eq!(
        instr_to_string(&Instr::Test(BinArgs::ToReg(Reg::Rax, Arg32::Reg(Reg::R10)))),
        "        test rax, r10"
    );
    assert_eq!(
        instr_to_string(&Instr::CMovCC(
            ConditionCode::GE,
            BinArgs::ToReg(Reg::Rax, Arg32::Reg(Reg::R10))
        )),
        "        cmovge rax, r10"
    );
    assert_eq!(instr_to_string(&Instr::Comment("hello".to_string())), ";;; hello");
    assert_eq!(instr_to_string(&Instr::Call("print".to_string())), "        call print");
    assert_eq!(instr_to_string(&Instr::Extern("print".to_string())), "        extern print");
}

#[test]
fn the_emitter_renders_a_bit_not_operation() {
    // A hand-built block: p <- ~p, then return it.
    let p = |i: usize| VarName { index: i, hint: "p".to_string() };
    let prog = ssa::Program {
        externs: vec![],
        funs: vec![],
        blocks: vec![ssa::BasicBlock {
            label: BlockName { index: 0, hint: "b".to_string() },
            params: vec![p(0)],
            body: ssa::BlockBody::Operation {
                dest: p(1),
                op: ssa::Operation::Prim1(ssa::Prim1::BitNot, ssa::Immediate::Var(p(0))),
                next: Box::new(ssa::BlockBody::Terminator(ssa::Terminator::Return(
                    ssa::Immediate::Var(p(1)),
                ))),
            },
        }],
    };
    assert!(prog.check_slots());
    let resolver = Resolver::new();
    let mut emitter = Emitter::from(Lowerer::from(resolver));
    emitter.emit_prog(&prog);
    let text = instrs_to_string(&emitter.to_asm());
    assert!(text.contains("        mov r10, -1\n        xor rax, r10"));
}

#[test]
fn a_function_defined_inside_a_let_binding_compiles() {
    // def main(x): let y = (def f(n): n in f(1)) in y — the local
    // function's capture snapshot excludes the binder being defined, so
    // the whole pipeline succeeds on this program.
    let source = "def main(x): let y = (def f(n): n in f(1)) in y";
    let decl = snake::ast::FunDecl {
        name: "f".to_string(),
        params: vec![("n".to_string(), loc(28, 29))],
        body: var("n", 32, 33),
        loc: loc(22, 33),
    };
    let rhs = Expr::FunDefs {
        decls: vec![decl],
        body: Box::new(Expr::Call {
            fun: "f".to_string(),
            args: vec![Expr::Num(1, loc(39, 40))],
            loc: loc(37, 41),
        }),
        loc: loc(22, 41),
    };
    let body = Expr::Let {
        bindings: vec![snake::ast::Binding { var: ("y".to_string(), loc(17, 18)), expr: rhs }],
        body: Box::new(var("y", 46, 47)),
        loc: loc(13, 47),
    };
    let prog = Prog {
        externs: vec![],
        name: "main".to_string(),
        param: ("x".to_string(), loc(9, 10)),
        body,
        loc: loc(0, 47),
    };
    let text = compile(source, prog).expect("this well-formed program must compile");
    // f captures only the entry parameter, not the binder under
    // definition: its tail block takes n and x.
    assert!(text.contains("f_tail#"));
}
