//! Lowering: the SSA shape of lowered programs, the slot discipline,
//! left-to-right evaluation order, and the tail-call path.

use snake::ast::{Binding, Expr, ExtDecl, FunDecl, Prim, Prog, SurfExpr, SurfProg};
use snake::frontend::Resolver;
use snake::identifiers::FunName;
use snake::middle_end::Lowerer;
use snake::span::SrcLoc;
use snake::ssa;
use snake::identifiers::{BlockName, VarName};

fn loc(a: usize, b: usize) -> SrcLoc {
    SrcLoc::new(a, b)
}

fn var(name: &str, a: usize, b: usize) -> SurfExpr {
    Expr::Var(name.to_string(), loc(a, b))
}

fn lower(prog: SurfProg) -> ssa::Program {
    let mut resolver = Resolver::new();
    let bound = resolver.resolve_prog(prog).expect("program should resolve");
    let mut lowerer = Lowerer::from(resolver);
    lowerer.lower_prog(bound)
}

/// `def main(x): add1(x)`
fn add1_prog() -> SurfProg {
    Prog {
        externs: vec![],
        name: "main".to_string(),
        param: ("x".to_string(), loc(9, 10)),
        body: Expr::Prim { prim: Prim::Add1, args: vec![var("x", 18, 19)], loc: loc(13, 20) },
        loc: loc(0, 20),
    }
}

/// `def f(n): if n == 0: x else: f(sub1(n)) in f(x)` under `main(x)`.
fn peano_prog() -> SurfProg {
    let cond = Expr::Prim {
        prim: Prim::Eq,
        args: vec![var("n", 24, 25), Expr::Num(0, loc(29, 30))],
        loc: loc(24, 30),
    };
    let rec = Expr::Call {
        fun: "f".to_string(),
        args: vec![
            Expr::Prim { prim: Prim::Sub1, args: vec![var("n", 46, 47)], loc: loc(40, 48) },
        ],
        loc: loc(38, 49),
    };
    let decl = FunDecl {
        name: "f".to_string(),
        params: vec![("n".to_string(), loc(19, 20))],
        body: Expr::If {
            cond: Box::new(cond),
            thn: Box::new(var("x", 32, 33)),
            els: Box::new(rec),
            loc: loc(21, 49),
        },
        loc: loc(13, 49),
    };
    Prog {
        externs: vec![],
        name: "main".to_string(),
        param: ("x".to_string(), loc(9, 10)),
        body: Expr::FunDefs {
            decls: vec![decl],
            body: Box::new(Expr::Call {
                fun: "f".to_string(),
                args: vec![var("x", 55, 56)],
                loc: loc(53, 57),
            }),
            loc: loc(13, 57),
        },
        loc: loc(0, 57),
    }
}

/// Walk a block body, collecting the names of called functions in order.
fn calls_in_body(b: &ssa::BlockBody, out: &mut Vec<FunName>) {
    match b {
        ssa::BlockBody::Terminator(_) => {},
        ssa::BlockBody::Operation { op, next, .. } => {
            if let ssa::Operation::Call { fun, .. } = op {
                out.push(fun.clone());
            }
            calls_in_body(next, out);
        },
        ssa::BlockBody::SubBlocks { blocks, next } => {
            calls_in_body(next, out);
            for blk in blocks {
                calls_in_body(&blk.body, out);
            }
        },
    }
}

#[test]
fn entry_block_structure() {
    let prog = lower(add1_prog());
    // The entry is the sole function entry, with one parameter, and it
    // branches into the tail block that holds the body.
    assert_eq!(prog.funs.len(), 1);
    assert_eq!(prog.funs[0].name, FunName::unmangled("entry"));
    assert_eq!(prog.funs[0].params.len(), 1);
    assert_eq!(prog.funs[0].body.args.len(), 1);
    assert_eq!(prog.blocks.len(), 1);
    assert_eq!(prog.blocks[0].label, prog.funs[0].body.target);
    assert_eq!(prog.blocks[0].params.len(), 1);
    assert_eq!(prog.blocks[0].label.hint(), "main_tail");
}

#[test]
fn lowered_programs_observe_the_slot_discipline() {
    // The dominance facet of the SSA invariants, run on each scenario.
    assert!(lower(add1_prog()).check_slots());
    assert!(lower(peano_prog()).check_slots());
}

#[test]
fn lowered_programs_agree_on_arities() {
    // Branch arguments match their target's parameters, conditional
    // targets take no arguments, and calls match their callee's arity.
    assert!(lower(add1_prog()).check_arities());
    assert!(lower(peano_prog()).check_arities());
}

#[test]
fn arity_check_rejects_a_mismatched_branch() {
    // A branch that passes one argument to a parameter-less block.
    let bad = ssa::Program {
        externs: vec![],
        funs: vec![],
        blocks: vec![
            ssa::BasicBlock {
                label: BlockName { index: 0, hint: "a".to_string() },
                params: vec![],
                body: ssa::BlockBody::Terminator(ssa::Terminator::Branch(ssa::Branch {
                    target: BlockName { index: 1, hint: "b".to_string() },
                    args: vec![ssa::Immediate::Const(1)],
                })),
            },
            ssa::BasicBlock {
                label: BlockName { index: 1, hint: "b".to_string() },
                params: vec![],
                body: ssa::BlockBody::Terminator(ssa::Terminator::Return(
                    ssa::Immediate::Const(0),
                )),
            },
        ],
    };
    assert!(!bad.check_arities());
}

#[test]
fn slot_discipline_rejects_an_undefined_variable() {
    // A single block that returns a variable that nothing defines.
    let bad = ssa::Program {
        externs: vec![],
        funs: vec![],
        blocks: vec![
            ssa::BasicBlock {
                label: BlockName { index: 0, hint: "b".to_string() },
                params: vec![],
                body: ssa::BlockBody::Terminator(
                    ssa::Terminator::Return(
                        ssa::Immediate::Var(VarName { index: 7, hint: "ghostly".to_string() }),
                    ),
                ),
            },
        ],
    };
    assert!(!bad.check_slots());
}

#[test]
fn extern_calls_keep_source_order() {
    // def main(x): print(1) + print(2) — the two runtime calls must be
    // lowered in source order.
    let call = |n: i64, a: usize| Expr::Call {
        fun: "print".to_string(),
        args: vec![Expr::Num(n, loc(a, a + 1))],
        loc: loc(a, a + 2),
    };
    let prog = Prog {
        externs: vec![
            ExtDecl {
                name: "print".to_string(),
                params: vec![("v".to_string(), loc(4, 5))],
                loc: loc(0, 6),
            },
        ],
        name: "main".to_string(),
        param: ("x".to_string(), loc(16, 17)),
        body: Expr::Prim {
            prim: Prim::Add,
            args: vec![call(1, 20), call(2, 31)],
            loc: loc(20, 33),
        },
        loc: loc(0, 33),
    };
    let lowered = lower(prog);
    assert_eq!(lowered.externs.len(), 1);
    let mut calls = Vec::new();
    calls_in_body(&lowered.blocks[0].body, &mut calls);
    assert_eq!(calls.len(), 2);
    assert_eq!(calls[0], FunName::unmangled("print"));
    assert_eq!(calls[1], FunName::unmangled("print"));
    // The first call's argument slot is filled from the constant 1 and
    // the second from the constant 2, in that order in the chain.
    fn constants(b: &ssa::BlockBody, out: &mut Vec<i64>) {
        if let ssa::BlockBody::Operation { op, next, .. } = b {
            if let ssa::Operation::Immediate(ssa::Immediate::Const(c)) = op {
                out.push(*c);
            }
            constants(next, out);
        }
    }
    let mut consts = Vec::new();
    constants(&lowered.blocks[0].body, &mut consts);
    let one = consts.iter().position(|c| *c == 1).expect("constant 1");
    let two = consts.iter().position(|c| *c == 2).expect("constant 2");
    assert!(one < two, "arguments must be evaluated left to right");
}

#[test]
fn tail_call_lowers_to_a_branch() {
    // The recursive call of the Peano loop sits in tail position, so it
    // becomes a branch into the shared tail block, not a call: that is
    // what runs it in constant stack space.
    let lowered = lower(peano_prog());
    // One lifted entry besides the program entry.
    assert_eq!(lowered.funs.len(), 2);
    assert!(matches!(lowered.funs[1].name, FunName::Mangled { .. }));
    // No Call operation anywhere: the recursive call is a Branch.
    let mut calls = Vec::new();
    for b in &lowered.blocks {
        calls_in_body(&b.body, &mut calls);
    }
    calls_in_body(&lowered.blocks[0].body, &mut Vec::new());
    assert!(calls.is_empty(), "a tail call must not become a Call operation");
}

#[test]
fn non_tail_call_goes_through_the_lifted_entry() {
    // def main(x): def f(n): n in add1(f(x)) — the call is not in tail
    // position, so it must go through the lifted entry.
    let decl = FunDecl {
        name: "f".to_string(),
        params: vec![("n".to_string(), loc(19, 20))],
        body: var("n", 23, 24),
        loc: loc(13, 24),
    };
    let prog = Prog {
        externs: vec![],
        name: "main".to_string(),
        param: ("x".to_string(), loc(9, 10)),
        body: Expr::FunDefs {
            decls: vec![decl],
            body: Box::new(Expr::Prim {
                prim: Prim::Add1,
                args: vec![Expr::Call {
                    fun: "f".to_string(),
                    args: vec![var("x", 36, 37)],
                    loc: loc(34, 38),
                }],
                loc: loc(28, 39),
            }),
            loc: loc(13, 39),
        },
        loc: loc(0, 39),
    };
    let lowered = lower(prog);
    let mut calls = Vec::new();
    for b in &lowered.blocks {
        calls_in_body(&b.body, &mut calls);
    }
    assert_eq!(calls.len(), 1);
    // The called name is the lifted entry's name.
    assert_eq!(calls[0], lowered.funs[1].name);
    assert!(lowered.check_slots());
}
