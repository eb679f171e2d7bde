//! Resolution: success shapes and each scoping error, with the exact
//! rendered error text.

use snake::ast::{Binding, Expr, ExtDecl, FunDecl, Prim, Prog, SurfExpr, SurfProg};
use snake::frontend::{CompileErr, Resolver};
use snake::identifiers::FunName;
use snake::span::SrcLoc;
use snake::txt::FileInfo;

fn loc(a: usize, b: usize) -> SrcLoc {
    SrcLoc::new(a, b)
}

fn var(name: &str, a: usize, b: usize) -> SurfExpr {
    Expr::Var(name.to_string(), loc(a, b))
}

/// `def main(x): add1(x)`
fn add1_prog() -> SurfProg {
    Prog {
        externs: vec![],
        name: "main".to_string(),
        param: ("x".to_string(), loc(9, 10)),
        body: Expr::Prim { prim: Prim::Add1, args: vec![var("x", 18, 19)], loc: loc(13, 20) },
        loc: loc(0, 20),
    }
}

#[test]
fn resolves_simple_program() {
    let mut resolver = Resolver::new();
    let bound = resolver.resolve_prog(add1_prog()).expect("should resolve");
    // The entry keeps the reserved unmangled name.
    assert_eq!(bound.name, FunName::unmangled("entry"));
    assert!(bound.name.is_unmangled());
    // The parameter was renamed but keeps its hint.
    assert_eq!(bound.param.0.hint(), "x");
    // The variable occurrence references the parameter's unique name.
    match &bound.body {
        Expr::Prim { prim: Prim::Add1, args, .. } => match &args[0] {
            Expr::Var(v, _) => assert_eq!(v.index, bound.param.0.index),
            other => panic!("expected a variable, got {:?}", other),
        },
        _ => panic!("expected a primitive application"),
    }
}

#[test]
fn shadowing_across_lets_is_permitted() {
    // def main(x): let y = 1 in let y = 2 in y
    let body = Expr::Let {
        bindings: vec![Binding { var: ("y".to_string(), loc(17, 18)), expr: Expr::Num(1, loc(21, 22)) }],
        body: Box::new(Expr::Let {
            bindings: vec![
                Binding { var: ("y".to_string(), loc(30, 31)), expr: Expr::Num(2, loc(34, 35)) },
            ],
            body: Box::new(var("y", 39, 40)),
            loc: loc(26, 40),
        }),
        loc: loc(13, 40),
    };
    let prog = Prog {
        externs: vec![],
        name: "main".to_string(),
        param: ("x".to_string(), loc(9, 10)),
        body,
        loc: loc(0, 40),
    };
    let mut resolver = Resolver::new();
    let bound = resolver.resolve_prog(prog).expect("shadowing across lets is legal");
    // The occurrence refers to the inner binding.
    match &bound.body {
        Expr::Let { body, .. } => match &**body {
            Expr::Let { bindings, body, .. } => {
                let inner = &bindings[0].var.0;
                match &**body {
                    Expr::Var(v, _) => assert_eq!(v.index, inner.index),
                    _ => panic!("expected a variable"),
                }
            },
            _ => panic!("expected the inner let"),
        },
        _ => panic!("expected the outer let"),
    }
}

#[test]
fn later_binding_sees_earlier_sibling() {
    // def main(x): let a = 1, b = a in b
    let body = Expr::Let {
        bindings: vec![
            Binding { var: ("a".to_string(), loc(17, 18)), expr: Expr::Num(1, loc(21, 22)) },
            Binding { var: ("b".to_string(), loc(24, 25)), expr: var("a", 28, 29) },
        ],
        body: Box::new(var("b", 33, 34)),
        loc: loc(13, 34),
    };
    let prog = Prog {
        externs: vec![],
        name: "main".to_string(),
        param: ("x".to_string(), loc(9, 10)),
        body,
        loc: loc(0, 34),
    };
    let mut resolver = Resolver::new();
    assert!(resolver.resolve_prog(prog).is_ok());
}

#[test]
fn unbound_variable_error_text() {
    // def main(x): y
    let source = "def main(x): y";
    let prog = Prog {
        externs: vec![],
        name: "main".to_string(),
        param: ("x".to_string(), loc(9, 10)),
        body: var("y", 13, 14),
        loc: loc(0, 14),
    };
    let mut resolver = Resolver::new();
    let err = resolver.resolve_prog(prog).expect_err("y is unbound");
    let text = FileInfo::new(source).report_error(err);
    assert!(text.contains("variable \"y\" unbound"));
    assert_eq!(text, "variable \"y\" unbound: 1:13-1:14");
}

#[test]
fn duplicate_variable_error_text() {
    // def main(x): let x = 1, x = 2 in x
    let source = "def main(x): let x = 1, x = 2 in x";
    let body = Expr::Let {
        bindings: vec![
            Binding { var: ("x".to_string(), loc(17, 18)), expr: Expr::Num(1, loc(21, 22)) },
            Binding { var: ("x".to_string(), loc(24, 25)), expr: Expr::Num(2, loc(28, 29)) },
        ],
        body: Box::new(var("x", 33, 34)),
        loc: loc(13, 34),
    };
    let prog = Prog {
        externs: vec![],
        name: "main".to_string(),
        param: ("x".to_string(), loc(9, 10)),
        body,
        loc: loc(0, 34),
    };
    let mut resolver = Resolver::new();
    let err = resolver.resolve_prog(prog).expect_err("x is defined twice");
    let text = FileInfo::new(source).report_error(err);
    assert!(text.contains("variable \"x\" defined twice in let-expression"));
}

#[test]
fn arity_mismatch_error() {
    // def main(x): def f(a): a in f(1, 2)
    let source = "def main(x): def f(a): a in f(1, 2)";
    let decl = FunDecl {
        name: "f".to_string(),
        params: vec![("a".to_string(), loc(19, 20))],
        body: var("a", 23, 24),
        loc: loc(13, 24),
    };
    let body = Expr::FunDefs {
        decls: vec![decl],
        body: Box::new(Expr::Call {
            fun: "f".to_string(),
            args: vec![Expr::Num(1, loc(30, 31)), Expr::Num(2, loc(33, 34))],
            loc: loc(28, 35),
        }),
        loc: loc(13, 35),
    };
    let prog = Prog {
        externs: vec![],
        name: "main".to_string(),
        param: ("x".to_string(), loc(9, 10)),
        body,
        loc: loc(0, 35),
    };
    let mut resolver = Resolver::new();
    let err = resolver.resolve_prog(prog).expect_err("f takes one argument");
    match &err {
        CompileErr::ArityMismatch { name, expected, found, .. } => {
            assert_eq!(name, "f");
            assert_eq!(*expected, 1);
            assert_eq!(*found, 2);
        },
        other => panic!("expected an arity mismatch, got {:?}", other),
    }
    let text = FileInfo::new(source).report_error(err);
    assert!(text.contains("function \"f\" of arity 1 called with 2 arguments"));
}

#[test]
fn unbound_function_error() {
    // def main(x): g(x)
    let prog = Prog {
        externs: vec![],
        name: "main".to_string(),
        param: ("x".to_string(), loc(9, 10)),
        body: Expr::Call { fun: "g".to_string(), args: vec![var("x", 15, 16)], loc: loc(13, 17) },
        loc: loc(0, 17),
    };
    let mut resolver = Resolver::new();
    let err = resolver.resolve_prog(prog).expect_err("g is unbound");
    assert!(matches!(err, CompileErr::UnboundFunction(ref n, _) if n == "g"));
}

#[test]
fn duplicate_function_error() {
    // two externs with the same name
    let ext = |a: usize| ExtDecl::<String, String> {
        name: "print".to_string(),
        params: vec![("v".to_string(), loc(a, a + 1))],
        loc: loc(a, a + 5),
    };
    let prog = Prog {
        externs: vec![ext(0), ext(6)],
        name: "main".to_string(),
        param: ("x".to_string(), loc(20, 21)),
        body: Expr::Num(0, loc(24, 25)),
        loc: loc(0, 25),
    };
    let mut resolver = Resolver::new();
    let err = resolver.resolve_prog(prog).expect_err("print declared twice");
    assert!(matches!(err, CompileErr::DuplicateFunction(ref n, _) if n == "print"));
}

#[test]
fn duplicate_parameter_error() {
    // def main(x): def f(a, a): 0 in 0
    let decl = FunDecl {
        name: "f".to_string(),
        params: vec![("a".to_string(), loc(19, 20)), ("a".to_string(), loc(22, 23))],
        body: Expr::Num(0, loc(26, 27)),
        loc: loc(13, 27),
    };
    let prog = Prog {
        externs: vec![],
        name: "main".to_string(),
        param: ("x".to_string(), loc(9, 10)),
        body: Expr::FunDefs {
            decls: vec![decl],
            body: Box::new(Expr::Num(0, loc(31, 32))),
            loc: loc(13, 32),
        },
        loc: loc(0, 32),
    };
    let mut resolver = Resolver::new();
    let err = resolver.resolve_prog(prog).expect_err("a repeated");
    assert!(matches!(err, CompileErr::DuplicateParameter(ref n, _) if n == "a"));
}
