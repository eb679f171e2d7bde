//! Abstract syntax of the surface language, generic over the variable and
//! function name types.  The surface program names things by `String`; the
//! resolver replaces those with unique `VarName`s and `FunName`s.

use vstd::prelude::*;
use crate::identifiers::{VarName, FunName};
use crate::span::SrcLoc;

verus! {

/* --------------------------------- Aliases -------------------------------- */

pub type SurfProg = Prog<String, String>;

pub type SurfExtDecl = ExtDecl<String, String>;

pub type SurfFunDecl = FunDecl<String, String>;

pub type SurfBinding = Binding<String, String>;

pub type SurfExpr = Expr<String, String>;

pub type BoundProg = Prog<VarName, FunName>;

pub type BoundExtDecl = ExtDecl<VarName, FunName>;

pub type BoundFunDecl = FunDecl<VarName, FunName>;

pub type BoundBinding = Binding<VarName, FunName>;

pub type BoundExpr = Expr<VarName, FunName>;

/* ----------------------------------- AST ---------------------------------- */

#[derive(Debug)]
pub struct Prog<Var, Fun> {
    pub externs: Vec<ExtDecl<Var, Fun>>,
    /// The name of the main function.
    pub name: Fun,
    pub param: (Var, SrcLoc),
    pub body: Expr<Var, Fun>,
    pub loc: SrcLoc,
}

#[derive(Debug)]
pub enum Expr<Var, Fun> {
    Num(i64, SrcLoc),
    Bool(bool, SrcLoc),
    Var(Var, SrcLoc),
    Prim { prim: Prim, args: Vec<Expr<Var, Fun>>, loc: SrcLoc },
    Let { bindings: Vec<Binding<Var, Fun>>, body: Box<Expr<Var, Fun>>, loc: SrcLoc },
    If {
        cond: Box<Expr<Var, Fun>>,
        thn: Box<Expr<Var, Fun>>,
        els: Box<Expr<Var, Fun>>,
        loc: SrcLoc,
    },
    FunDefs { decls: Vec<FunDecl<Var, Fun>>, body: Box<Expr<Var, Fun>>, loc: SrcLoc },
    Call { fun: Fun, args: Vec<Expr<Var, Fun>>, loc: SrcLoc },
}

#[derive(Debug)]
pub struct ExtDecl<Var, Fun> {
    pub name: Fun,
    /// The parameters of an external declaration are informational only.
    pub params: Vec<(Var, SrcLoc)>,
    pub loc: SrcLoc,
}

#[derive(Debug)]
pub struct Binding<Var, Fun> {
    pub var: (Var, SrcLoc),
    pub expr: Expr<Var, Fun>,
}

#[derive(Debug)]
pub struct FunDecl<Var, Fun> {
    pub name: Fun,
    pub params: Vec<(Var, SrcLoc)>,
    pub body: Expr<Var, Fun>,
    pub loc: SrcLoc,
}

#[derive(Clone, Copy, Debug, PartialEq, Eq, Structural)]
pub enum Prim {
    // unary arithmetic
    Add1,
    Sub1,
    // binary arithmetic
    Add,
    Sub,
    Mul,
    // unary logical
    Not,
    // binary logical
    And,
    Or,
    // binary comparison
    Lt,
    Le,
    Gt,
    Ge,
    Eq,
    Neq,
}

/// How many arguments the primitive takes: one for `Add1`, `Sub1` and
/// `Not`, two for all others.
pub open spec fn spec_arity(p: Prim) -> nat {
    match p {
        Prim::Add1 | Prim::Sub1 | Prim::Not => 1,
        _ => 2,
    }
}

impl Prim {
    pub fn arity(&self) -> (r: usize)
        ensures
            r as nat == spec_arity(*self),
    {
        match self {
            Prim::Add1 | Prim::Sub1 | Prim::Not => 1,
            _ => 2,
        }
    }
}

/* --------------------------- Structural predicates ------------------------- */

/// Every primitive application in the expression has exactly as many
/// arguments as its operator's arity.  The parser only produces such
/// programs; the resolver and the lowerer rely on it.
pub open spec fn prims_ok<V, F>(e: Expr<V, F>) -> bool
    decreases e,
{
    match e {
        Expr::Num(..) => true,
        Expr::Bool(..) => true,
        Expr::Var(..) => true,
        Expr::Prim { prim, args, .. } => args@.len() == spec_arity(prim) && (forall|j: int|
            0 <= j < args@.len() ==> prims_ok(#[trigger] args@[j])),
        Expr::Let { bindings, body, .. } => (forall|j: int|
            0 <= j < bindings@.len() ==> prims_ok((#[trigger] bindings@[j]).expr)) && prims_ok(
            *body,
        ),
        Expr::If { cond, thn, els, .. } => prims_ok(*cond) && prims_ok(*thn) && prims_ok(*els),
        Expr::FunDefs { decls, body, .. } => (forall|j: int|
            0 <= j < decls@.len() ==> prims_ok((#[trigger] decls@[j]).body)) && prims_ok(*body),
        Expr::Call { args, .. } => forall|j: int|
            0 <= j < args@.len() ==> prims_ok(#[trigger] args@[j]),
    }
}

/// The location `l` occurs somewhere in the expression: at its own node
/// or inside one of its children, including binding and declaration sites.
pub open spec fn loc_in_expr<V, F>(l: SrcLoc, e: Expr<V, F>) -> bool
    decreases e,
{
    match e {
        Expr::Num(_, loc) => l == loc,
        Expr::Bool(_, loc) => l == loc,
        Expr::Var(_, loc) => l == loc,
        Expr::Prim { args, loc, .. } => l == loc || loc_in_list(l, args@, 0),
        Expr::Let { bindings, body, loc } => l == loc || loc_in_binds(l, bindings@, 0)
            || loc_in_expr(l, *body),
        Expr::If { cond, thn, els, loc } => l == loc || loc_in_expr(l, *cond) || loc_in_expr(
            l,
            *thn,
        ) || loc_in_expr(l, *els),
        Expr::FunDefs { decls, body, loc } => l == loc || loc_in_decls(l, decls@, 0)
            || loc_in_expr(l, *body),
        Expr::Call { args, loc, .. } => l == loc || loc_in_list(l, args@, 0),
    }
}

pub open spec fn loc_in_list<V, F>(l: SrcLoc, s: Seq<Expr<V, F>>, i: int) -> bool
    decreases s, s.len() - i,
{
    if i < 0 || i >= s.len() {
        false
    } else {
        loc_in_expr(l, s[i]) || loc_in_list(l, s, i + 1)
    }
}

pub open spec fn loc_in_binds<V, F>(l: SrcLoc, s: Seq<Binding<V, F>>, i: int) -> bool
    decreases s, s.len() - i,
{
    if i < 0 || i >= s.len() {
        false
    } else {
        l == s[i].var.1 || loc_in_expr(l, s[i].expr) || loc_in_binds(l, s, i + 1)
    }
}

pub open spec fn loc_in_decls<V, F>(l: SrcLoc, s: Seq<FunDecl<V, F>>, i: int) -> bool
    decreases s, s.len() - i,
{
    if i < 0 || i >= s.len() {
        false
    } else {
        l == s[i].loc || loc_in_params(l, s[i].params@, 0) || loc_in_expr(l, s[i].body)
            || loc_in_decls(l, s, i + 1)
    }
}

pub open spec fn loc_in_params<V>(l: SrcLoc, s: Seq<(V, SrcLoc)>, i: int) -> bool
    decreases s.len() - i,
{
    if i < 0 || i >= s.len() {
        false
    } else {
        l == s[i].1 || loc_in_params(l, s, i + 1)
    }
}

/// The location `l` occurs somewhere in the program: at the program node,
/// the entry parameter, an external declaration, or inside the body.
pub open spec fn loc_in_prog<V, F>(l: SrcLoc, p: Prog<V, F>) -> bool {
    l == p.loc || l == p.param.1 || loc_in_exts(l, p.externs@, 0) || loc_in_expr(l, p.body)
}

pub open spec fn loc_in_exts<V, F>(l: SrcLoc, s: Seq<ExtDecl<V, F>>, i: int) -> bool
    decreases s.len() - i,
{
    if i < 0 || i >= s.len() {
        false
    } else {
        l == s[i].loc || loc_in_params(l, s[i].params@, 0) || loc_in_exts(l, s, i + 1)
    }
}

} // verus!
