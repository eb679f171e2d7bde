//! End-to-end scenarios: resolve and lower each program, then run the
//! SSA form on an input and compare with the value the source program
//! denotes.

use snake::ast::{Binding, Expr, FunDecl, Prim, Prog, SurfExpr, SurfProg};
use snake::frontend::Resolver;
use snake::interp::{run_bound, run_ssa};
use snake::middle_end::Lowerer;
use snake::span::SrcLoc;
use snake::ssa;

fn loc(a: usize, b: usize) -> SrcLoc {
    SrcLoc::new(a, b)
}

fn var(name: &str, a: usize, b: usize) -> SurfExpr {
    Expr::Var(name.to_string(), loc(a, b))
}

fn lower(prog: SurfProg) -> ssa::Program {
    let mut resolver = Resolver::new();
    let bound = resolver.resolve_prog(prog).expect("program should resolve");
    let mut lowerer = Lowerer::from(resolver);
    let ssa = lowerer.lower_prog(bound);
    assert!(ssa.check_slots(), "lowered programs observe the slot discipline");
    assert!(ssa.check_arities(), "lowered programs agree on arities");
    ssa
}

/// Interpret the bound tree and the lowered SSA on the same input: the
/// two representations must denote the same integer.
fn both_agree(prog: SurfProg, input: i64) -> i64 {
    let mut resolver = Resolver::new();
    let bound = resolver.resolve_prog(prog).expect("program should resolve");
    let tree_value = run_bound(&bound, input, FUEL).expect("the tree walk should finish");
    let mut lowerer = Lowerer::from(resolver);
    let ssa = lowerer.lower_prog(bound);
    let ssa_value = run_ssa(&ssa, input, FUEL).expect("the SSA walk should finish");
    assert_eq!(tree_value, ssa_value, "lowering must preserve the denoted value");
    ssa_value
}

fn main_prog(body: SurfExpr) -> SurfProg {
    Prog {
        externs: vec![],
        name: "main".to_string(),
        param: ("x".to_string(), loc(9, 10)),
        body,
        loc: loc(0, 99),
    }
}

const FUEL: u64 = 20_000_000;

#[test]
fn add1_of_42_is_43() {
    // def main(x): add1(x)
    let body = Expr::Prim { prim: Prim::Add1, args: vec![var("x", 18, 19)], loc: loc(13, 20) };
    assert_eq!(run_ssa(&lower(main_prog(body)), 42, FUEL), Some(43));
}

#[test]
fn square_plus_one_of_5_is_26() {
    // def main(x): let y = x * x in y + 1
    let body = Expr::Let {
        bindings: vec![Binding {
            var: ("y".to_string(), loc(17, 18)),
            expr: Expr::Prim {
                prim: Prim::Mul,
                args: vec![var("x", 21, 22), var("x", 25, 26)],
                loc: loc(21, 26),
            },
        }],
        body: Box::new(Expr::Prim {
            prim: Prim::Add,
            args: vec![var("y", 30, 31), Expr::Num(1, loc(34, 35))],
            loc: loc(30, 35),
        }),
        loc: loc(13, 35),
    };
    assert_eq!(run_ssa(&lower(main_prog(body)), 5, FUEL), Some(26));
}

#[test]
fn absolute_value_of_minus_7_is_7() {
    // def main(x): if x < 0: 0 - x else: x
    let body = Expr::If {
        cond: Box::new(Expr::Prim {
            prim: Prim::Lt,
            args: vec![var("x", 16, 17), Expr::Num(0, loc(20, 21))],
            loc: loc(16, 21),
        }),
        thn: Box::new(Expr::Prim {
            prim: Prim::Sub,
            args: vec![Expr::Num(0, loc(23, 24)), var("x", 27, 28)],
            loc: loc(23, 28),
        }),
        els: Box::new(var("x", 35, 36)),
        loc: loc(13, 36),
    };
    let prog = lower(main_prog(body));
    assert_eq!(run_ssa(&prog, -7, FUEL), Some(7));
    assert_eq!(run_ssa(&prog, 9, FUEL), Some(9));
}

#[test]
fn boolean_operators_normalise_to_zero_or_one() {
    // def main(x): (x && 4) || !(x)
    let body = Expr::Prim {
        prim: Prim::Or,
        args: vec![
            Expr::Prim {
                prim: Prim::And,
                args: vec![var("x", 14, 15), Expr::Num(4, loc(19, 20))],
                loc: loc(14, 20),
            },
            Expr::Prim { prim: Prim::Not, args: vec![var("x", 26, 27)], loc: loc(25, 28) },
        ],
        loc: loc(13, 28),
    };
    let prog = lower(main_prog(body));
    // 7 && 4 is 1; !7 is 0; 1 || 0 is 1.
    assert_eq!(run_ssa(&prog, 7, FUEL), Some(1));
    // 0 && 4 is 0; !0 is 1; 0 || 1 is 1.
    assert_eq!(run_ssa(&prog, 0, FUEL), Some(1));
}

/// `def f(n): if n == 0: x else: f(sub1(n)) in f(x)` — a tail loop.
fn peano_body() -> SurfExpr {
    let cond = Expr::Prim {
        prim: Prim::Eq,
        args: vec![var("n", 24, 25), Expr::Num(0, loc(29, 30))],
        loc: loc(24, 30),
    };
    let rec = Expr::Call {
        fun: "f".to_string(),
        args: vec![
            Expr::Prim { prim: Prim::Sub1, args: vec![var("n", 46, 47)], loc: loc(40, 48) },
        ],
        loc: loc(38, 49),
    };
    let decl = FunDecl {
        name: "f".to_string(),
        params: vec![("n".to_string(), loc(19, 20))],
        body: Expr::If {
            cond: Box::new(cond),
            thn: Box::new(Expr::Prim {
                prim: Prim::Add1,
                args: vec![var("x", 32, 33)],
                loc: loc(32, 33),
            }),
            els: Box::new(rec),
            loc: loc(21, 49),
        },
        loc: loc(13, 49),
    };
    Expr::FunDefs {
        decls: vec![decl],
        body: Box::new(Expr::Call {
            fun: "f".to_string(),
            args: vec![var("x", 55, 56)],
            loc: loc(53, 57),
        }),
        loc: loc(13, 57),
    }
}

#[test]
fn tail_recursion_iterates_in_constant_space() {
    // The recursive call is a branch, so the interpreter's continuation
    // stack stays empty however many iterations run.
    let prog = lower(main_prog(peano_body()));
    assert_eq!(run_ssa(&prog, 100000, FUEL), Some(100001));
}

#[test]
fn non_tail_factorial_of_5_is_120() {
    // def main(x): def fact(n): if n <= 1: 1 else: n * fact(n - 1) in fact(x)
    let rec = Expr::Prim {
        prim: Prim::Mul,
        args: vec![
            var("n", 40, 41),
            Expr::Call {
                fun: "fact".to_string(),
                args: vec![Expr::Prim {
                    prim: Prim::Sub,
                    args: vec![var("n", 49, 50), Expr::Num(1, loc(53, 54))],
                    loc: loc(49, 54),
                }],
                loc: loc(44, 55),
            },
        ],
        loc: loc(40, 55),
    };
    let decl = FunDecl {
        name: "fact".to_string(),
        params: vec![("n".to_string(), loc(22, 23))],
        body: Expr::If {
            cond: Box::new(Expr::Prim {
                prim: Prim::Le,
                args: vec![var("n", 29, 30), Expr::Num(1, loc(34, 35))],
                loc: loc(29, 35),
            }),
            thn: Box::new(Expr::Num(1, loc(37, 38))),
            els: Box::new(rec),
            loc: loc(26, 55),
        },
        loc: loc(13, 55),
    };
    let body = Expr::FunDefs {
        decls: vec![decl],
        body: Box::new(Expr::Call {
            fun: "fact".to_string(),
            args: vec![var("x", 64, 65)],
            loc: loc(59, 66),
        }),
        loc: loc(13, 66),
    };
    assert_eq!(run_ssa(&lower(main_prog(body)), 5, FUEL), Some(120));
}

#[test]
fn captured_variable_reaches_the_lifted_function() {
    // def main(x): def pow(k): if k == 0: 1 else: x * pow(k - 1) in pow(8)
    // at x = 2: the captured x multiplies through eight steps to 256.
    let rec = Expr::Prim {
        prim: Prim::Mul,
        args: vec![
            var("x", 40, 41),
            Expr::Call {
                fun: "pow".to_string(),
                args: vec![Expr::Prim {
                    prim: Prim::Sub,
                    args: vec![var("k", 48, 49), Expr::Num(1, loc(52, 53))],
                    loc: loc(48, 53),
                }],
                loc: loc(44, 54),
            },
        ],
        loc: loc(40, 54),
    };
    let decl = FunDecl {
        name: "pow".to_string(),
        params: vec![("k".to_string(), loc(21, 22))],
        body: Expr::If {
            cond: Box::new(Expr::Prim {
                prim: Prim::Eq,
                args: vec![var("k", 28, 29), Expr::Num(0, loc(33, 34))],
                loc: loc(28, 34),
            }),
            thn: Box::new(Expr::Num(1, loc(36, 37))),
            els: Box::new(rec),
            loc: loc(25, 54),
        },
        loc: loc(13, 54),
    };
    let body = Expr::FunDefs {
        decls: vec![decl],
        body: Box::new(Expr::Call {
            fun: "pow".to_string(),
            args: vec![Expr::Num(8, loc(62, 63))],
            loc: loc(58, 64),
        }),
        loc: loc(13, 64),
    };
    assert_eq!(run_ssa(&lower(main_prog(body)), 2, FUEL), Some(256));
}

#[test]
fn arithmetic_wraps_like_the_machine() {
    // def main(x): add1(x) at the largest integer wraps around.
    let body = Expr::Prim { prim: Prim::Add1, args: vec![var("x", 18, 19)], loc: loc(13, 20) };
    assert_eq!(run_ssa(&lower(main_prog(body)), i64::MAX, FUEL), Some(i64::MIN));
}

#[test]
fn bound_tree_and_ssa_agree_on_every_scenario() {
    assert_eq!(
        both_agree(
            main_prog(Expr::Prim {
                prim: Prim::Add1,
                args: vec![var("x", 18, 19)],
                loc: loc(13, 20),
            }),
            42,
        ),
        43,
    );
    assert_eq!(both_agree(main_prog(peano_body()), 1000), 1001);
    // A conditional with both arms.
    let abs = |a: i64| {
        let body = Expr::If {
            cond: Box::new(Expr::Prim {
                prim: Prim::Lt,
                args: vec![var("x", 16, 17), Expr::Num(0, loc(20, 21))],
                loc: loc(16, 21),
            }),
            thn: Box::new(Expr::Prim {
                prim: Prim::Sub,
                args: vec![Expr::Num(0, loc(23, 24)), var("x", 27, 28)],
                loc: loc(23, 28),
            }),
            els: Box::new(var("x", 35, 36)),
            loc: loc(13, 36),
        };
        both_agree(main_prog(body), a)
    };
    assert_eq!(abs(-7), 7);
    assert_eq!(abs(9), 9);
}

#[test]
fn let_bindings_evaluate_in_order() {
    // def main(x): let a = add1(x), b = a * a in b - a
    let body = Expr::Let {
        bindings: vec![
            Binding {
                var: ("a".to_string(), loc(17, 18)),
                expr: Expr::Prim {
                    prim: Prim::Add1,
                    args: vec![var("x", 26, 27)],
                    loc: loc(21, 28),
                },
            },
            Binding {
                var: ("b".to_string(), loc(30, 31)),
                expr: Expr::Prim {
                    prim: Prim::Mul,
                    args: vec![var("a", 34, 35), var("a", 38, 39)],
                    loc: loc(34, 39),
                },
            },
        ],
        body: Box::new(Expr::Prim {
            prim: Prim::Sub,
            args: vec![var("b", 43, 44), var("a", 47, 48)],
            loc: loc(43, 48),
        }),
        loc: loc(13, 48),
    };
    // At x = 4: a = 5, b = 25, result 20, in both representations.
    assert_eq!(both_agree(main_prog(body), 4), 20);
}

#[test]
fn a_function_defined_inside_a_let_binding_compiles_and_runs() {
    // def main(x): let y = (def f(n): n in f(1)) in y — the local
    // function is defined inside the binding's right-hand side, so its
    // capture snapshot must not include the binder being defined.
    let decl = FunDecl {
        name: "f".to_string(),
        params: vec![("n".to_string(), loc(27, 28))],
        body: var("n", 31, 32),
        loc: loc(22, 32),
    };
    let rhs = Expr::FunDefs {
        decls: vec![decl],
        body: Box::new(Expr::Call {
            fun: "f".to_string(),
            args: vec![Expr::Num(1, loc(38, 39))],
            loc: loc(36, 40),
        }),
        loc: loc(22, 40),
    };
    let body = Expr::Let {
        bindings: vec![Binding { var: ("y".to_string(), loc(17, 18)), expr: rhs }],
        body: Box::new(var("y", 45, 46)),
        loc: loc(13, 46),
    };
    assert_eq!(both_agree(main_prog(body), 5), 1);
}

#[test]
fn a_nested_function_sees_an_earlier_sibling_binder() {
    // def main(x): let a = add1(x), b = (def g(u): a in g(0)) in b —
    // the second right-hand side may reference the first binder, and a
    // function defined there must capture it.
    let decl = FunDecl {
        name: "g".to_string(),
        params: vec![("u".to_string(), loc(40, 41))],
        body: var("a", 44, 45),
        loc: loc(35, 45),
    };
    let rhs_b = Expr::FunDefs {
        decls: vec![decl],
        body: Box::new(Expr::Call {
            fun: "g".to_string(),
            args: vec![Expr::Num(0, loc(51, 52))],
            loc: loc(49, 53),
        }),
        loc: loc(35, 53),
    };
    let body = Expr::Let {
        bindings: vec![
            Binding {
                var: ("a".to_string(), loc(17, 18)),
                expr: Expr::Prim {
                    prim: Prim::Add1,
                    args: vec![var("x", 26, 27)],
                    loc: loc(21, 28),
                },
            },
            Binding { var: ("b".to_string(), loc(30, 31)), expr: rhs_b },
        ],
        body: Box::new(var("b", 58, 59)),
        loc: loc(13, 59),
    };
    assert_eq!(both_agree(main_prog(body), 7), 8);
}

#[test]
fn a_function_defined_in_an_else_arm_after_a_then_let() {
    // def main(x): if x: (let t = 1 in t) else: (def h(u): u in h(2)) —
    // nothing pushed while lowering the then-arm may leak into the
    // else-arm's capture snapshots.
    let thn = Expr::Let {
        bindings: vec![
            Binding { var: ("t".to_string(), loc(24, 25)), expr: Expr::Num(1, loc(28, 29)) },
        ],
        body: Box::new(var("t", 33, 34)),
        loc: loc(20, 34),
    };
    let decl = FunDecl {
        name: "h".to_string(),
        params: vec![("u".to_string(), loc(48, 49))],
        body: var("u", 52, 53),
        loc: loc(43, 53),
    };
    let els = Expr::FunDefs {
        decls: vec![decl],
        body: Box::new(Expr::Call {
            fun: "h".to_string(),
            args: vec![Expr::Num(2, loc(59, 60))],
            loc: loc(57, 61),
        }),
        loc: loc(43, 61),
    };
    let body = Expr::If {
        cond: Box::new(var("x", 16, 17)),
        thn: Box::new(thn),
        els: Box::new(els),
        loc: loc(13, 61),
    };
    let prog = lower(main_prog(body));
    assert_eq!(run_ssa(&prog, 1, FUEL), Some(1));
    assert_eq!(run_ssa(&prog, 0, FUEL), Some(2));
}
