//! Identifiers, spans and numeric rendering.

use snake::ast::Prim;
use snake::identifiers::{BlockName, FunName, IdGen, Identifier, VarName};
use snake::span::Span2;
use snake::txt::FileInfo;
use snake::span::SrcLoc;
use snake::interp::Value;
use snake::ast::{Expr, Prog, SurfProg};
use snake::txt::check_surface;

#[test]
fn identifier_generators_count_up() {
    let mut vars: IdGen<VarName> = IdGen::new();
    let a: VarName = vars.fresh("a");
    let b: VarName = vars.fresh("b");
    assert_eq!(a.index, 0);
    assert_eq!(b.index, 1);
    assert_eq!(a.hint(), "a");
    assert_eq!(b.hint(), "b");
    let mut funs: IdGen<FunName> = IdGen::new();
    let f: FunName = funs.fresh("f");
    assert!(!f.is_unmangled());
    assert_eq!(f.hint(), "f");
}

#[test]
fn names_render_with_their_index() {
    let v = VarName { index: 3, hint: "x".to_string() };
    assert_eq!(v.render(), "x%3");
    let b = BlockName { index: 7, hint: "main_tail".to_string() };
    assert_eq!(b.render(), "main_tail#7");
    let m = FunName::Mangled { index: 4, hint: "f".to_string() };
    assert_eq!(m.render(), "f@4");
    let u = FunName::unmangled("entry");
    assert_eq!(u.render(), "entry");
    assert_eq!(u.hint(), "entry");
}

#[test]
fn spans_render_as_line_ranges() {
    let sp = Span2 { start_line: 1, start_col: 13, end_line: 2, end_col: 4 };
    assert_eq!(sp.render(), "1:13-2:4");
}

#[test]
fn file_info_maps_offsets_to_lines() {
    let fi = FileInfo::new("ab\ncd\nef");
    let sp = fi.span1_to_span2(SrcLoc::new(3, 5));
    assert_eq!(sp.start_line, 2);
    assert_eq!(sp.start_col, 0);
    assert_eq!(sp.end_line, 2);
    assert_eq!(sp.end_col, 2);
    assert!(fi.covers(SrcLoc::new(0, 8)));
    assert!(!fi.covers(SrcLoc::new(0, 0)));
    assert!(!fi.covers(SrcLoc::new(20, 25)));
}

#[test]
fn prim_arities() {
    assert_eq!(Prim::Add1.arity(), 1);
    assert_eq!(Prim::Sub1.arity(), 1);
    assert_eq!(Prim::Not.arity(), 1);
    for p in [Prim::Add, Prim::Sub, Prim::Mul, Prim::And, Prim::Or, Prim::Lt, Prim::Le, Prim::Gt,
        Prim::Ge, Prim::Eq, Prim::Neq] {
        assert_eq!(p.arity(), 2);
    }
}

#[test]
fn values_render_as_decimal() {
    assert_eq!(Value::Int(43).render(), "43");
    assert_eq!(Value::Int(-7).render(), "-7");
}

fn tiny_prog(body_loc_end: usize) -> SurfProg {
    Prog {
        externs: vec![],
        name: "main".to_string(),
        param: ("x".to_string(), SrcLoc::new(9, 10)),
        body: Expr::Var("x".to_string(), SrcLoc::new(13, body_loc_end)),
        loc: SrcLoc::new(0, 14),
    }
}

#[test]
fn surface_check_accepts_good_and_rejects_bad_locations() {
    let source = "def main(x): x";
    assert!(check_surface(source, &tiny_prog(14)));
    // A location past the end of the source cannot be rendered.
    assert!(!check_surface(source, &tiny_prog(99)));
    // A primitive applied to the wrong number of arguments is refused.
    let bad = Prog {
        externs: vec![],
        name: "main".to_string(),
        param: ("x".to_string(), SrcLoc::new(9, 10)),
        body: Expr::Prim { prim: Prim::Add, args: vec![], loc: SrcLoc::new(13, 14) },
        loc: SrcLoc::new(0, 14),
    };
    assert!(!check_surface(source, &bad));
}
