//! Values and errors of the reference interpreters.  The interpreters
//! themselves are external collaborators of the core; these are the
//! shapes of what they produce.

use vstd::prelude::*;
use crate::identifiers::{BlockName, FunName, VarName};
use crate::digits::{spec_idec, push_i64_dec};
use crate::ssa::{Program, FunBlock, BasicBlock, BlockBody, Branch, Terminator, Operation, Prim1,
    Prim2, Immediate};

verus! {

/// A runtime value: the language computes over 64-bit signed integers.
#[derive(Clone, Copy, Debug, PartialEq, Eq, Structural)]
pub enum Value {
    Int(i64),
}

impl Value {
    /// Render the value as decimal text.
    pub fn render(&self) -> (r: String)
        ensures
            r@ == spec_idec(self->0 as int),
    {
        let Value::Int(n) = self;
        let mut buf = String::new();
        push_i64_dec(&mut buf, *n);
        buf
    }
}

/// An error of a reference interpreter.
#[derive(Debug)]
pub enum InterpErr<Var, Fun> {
    Unimplemented,
    InvalidArg(String),
    UnboundVar(Var),
    UnboundFun(Fun),
    UnExpectedFun(Fun),
    CallToConst(i64),
    CallWrongArity { name: Fun, expected: usize, got: usize },
    UnboundBlock(BlockName),
    BrWrongArity { name: BlockName, expected: usize, got: usize },
}

/* ------------------------------ SSA interpreter ---------------------------- */

// A small reference interpreter for the SSA form, used to check that
// lowered programs compute what the source meant.  It supports programs
// without external functions, and gives up (`None`) when a step budget
// runs out or an invariant of the input is violated.

/// Look up the value of a variable in the current frame: the latest
/// binding wins.
fn frame_get(frame: &Vec<(usize, i64)>, idx: usize) -> Option<i64> {
    let mut i: usize = frame.len();
    while i > 0
        invariant
            i <= frame.len(),
        decreases i,
    {
        i = i - 1;
        if frame[i].0 == idx {
            return Some(frame[i].1);
        }
    }
    None
}

/// Whether two function names are the same name.
fn fun_matches(a: &FunName, b: &FunName) -> bool {
    match (a, b) {
        (FunName::Mangled { index: ia, hint: ha }, FunName::Mangled { index: ib, hint: hb }) => ia
            == ib && ha == hb,
        (FunName::Unmangled { name: na }, FunName::Unmangled { name: nb }) => na == nb,
        _ => false,
    }
}

/// Find a function entry by name.
fn find_fun<'a>(funs: &'a Vec<FunBlock>, name: &FunName) -> Option<&'a FunBlock> {
    let mut i: usize = 0;
    while i < funs.len()
        decreases funs.len() - i,
    {
        if fun_matches(&funs[i].name, name) {
            return Some(&funs[i]);
        }
        i = i + 1;
    }
    None
}

/// Find the latest registration of a block label.
fn find_block<'a>(
    registry: &Vec<(usize, usize, &'a Vec<VarName>, &'a BlockBody)>,
    label: usize,
) -> Option<(usize, &'a Vec<VarName>, &'a BlockBody)> {
    let mut i: usize = registry.len();
    while i > 0
        invariant
            i <= registry.len(),
        decreases i,
    {
        i = i - 1;
        if registry[i].0 == label {
            return Some((registry[i].1, registry[i].2, registry[i].3));
        }
    }
    None
}

fn eval_imm(frame: &Vec<(usize, i64)>, imm: &Immediate) -> Option<i64> {
    match imm {
        Immediate::Const(c) => Some(*c),
        Immediate::Var(v) => frame_get(frame, v.index),
    }
}

fn eval_imms(frame: &Vec<(usize, i64)>, imms: &Vec<Immediate>) -> Option<Vec<i64>> {
    let mut out: Vec<i64> = Vec::new();
    let mut i: usize = 0;
    while i < imms.len()
        decreases imms.len() - i,
    {
        match eval_imm(frame, &imms[i]) {
            Some(v) => out.push(v),
            None => {
                return None;
            },
        }
        i = i + 1;
    }
    Some(out)
}

fn eval_prim1(op: &Prim1, n: i64) -> i64 {
    match op {
        Prim1::BitNot => !n,
        Prim1::IntToBool => if n != 0 {
            1
        } else {
            0
        },
    }
}

fn eval_prim2(op: &Prim2, n: i64, m: i64) -> i64 {
    match op {
        Prim2::Add => n.wrapping_add(m),
        Prim2::Sub => n.wrapping_sub(m),
        Prim2::Mul => n.wrapping_mul(m),
        Prim2::BitAnd => n & m,
        Prim2::BitOr => n | m,
        Prim2::BitXor => n ^ m,
        Prim2::Lt => if n < m {
            1
        } else {
            0
        },
        Prim2::Le => if n <= m {
            1
        } else {
            0
        },
        Prim2::Gt => if n > m {
            1
        } else {
            0
        },
        Prim2::Ge => if n >= m {
            1
        } else {
            0
        },
        Prim2::Eq => if n == m {
            1
        } else {
            0
        },
        Prim2::Neq => if n != m {
            1
        } else {
            0
        },
    }
}

/// Run an SSA program without external declarations on one integer
/// input, within a step budget.  `None` means the budget ran out or the
/// program got stuck; programs produced by lowering well-resolved
/// sources do not get stuck.
#[verifier::loop_isolation(false)]
pub fn run_ssa(p: &Program, arg: i64, fuel: u64) -> (r: Option<i64>)
{
    if p.externs.len() != 0 {
        return None;
    }
    if p.funs.len() == 0 {
        return None;
    }
    // The entry is the first function entry.
    let entry = &p.funs[0];
    if entry.params.len() != 1 {
        return None;
    }
    let mut frame: Vec<(usize, i64)> = Vec::new();
    frame.push((entry.params[0].index, arg));
    // The top-level blocks are visible from everywhere, anchored at an
    // empty frame.
    let mut registry: Vec<(usize, usize, &Vec<VarName>, &BlockBody)> = Vec::new();
    let mut i: usize = 0;
    while i < p.blocks.len()
        decreases p.blocks.len() - i,
    {
        registry.push((p.blocks[i].label.index, 0, &p.blocks[i].params, &p.blocks[i].body));
        i = i + 1;
    }
    // Start on the entry's branch.
    let mut pending_branch: Option<&Branch> = Some(&entry.body);
    let mut cur: Option<&BlockBody> = None;
    // Non-tail calls push the caller's frame, the destination and the
    // continuation.
    let mut konts: Vec<(Vec<(usize, i64)>, usize, &BlockBody)> = Vec::new();
    let mut remaining = fuel;
    while remaining > 0
        decreases remaining,
    {
        remaining = remaining - 1;
        if let Some(br) = pending_branch {
            pending_branch = None;
            let args = match eval_imms(&frame, &br.args) {
                Some(a) => a,
                None => {
                    return None;
                },
            };
            let (anchor, params, body) = match find_block(&registry, br.target.index) {
                Some(t) => t,
                None => {
                    return None;
                },
            };
            if args.len() != params.len() {
                return None;
            }
            frame.truncate(anchor);
            let mut k: usize = 0;
            while k < params.len()
                decreases params.len() - k,
            {
                frame.push((params[k].index, args[k]));
                k = k + 1;
            }
            cur = Some(body);
            continue;
        }
        let body = match cur {
            Some(b) => b,
            None => {
                return None;
            },
        };
        match body {
            BlockBody::SubBlocks { blocks, next } => {
                let anchor = frame.len();
                let mut k: usize = 0;
                while k < blocks.len()
                    decreases blocks.len() - k,
                {
                    registry.push(
                        (blocks[k].label.index, anchor, &blocks[k].params, &blocks[k].body),
                    );
                    k = k + 1;
                }
                cur = Some(next);
            },
            BlockBody::Operation { dest, op, next } => {
                match op {
                    Operation::Immediate(imm) => {
                        match eval_imm(&frame, imm) {
                            Some(v) => frame.push((dest.index, v)),
                            None => {
                                return None;
                            },
                        }
                        cur = Some(next);
                    },
                    Operation::Prim1(op1, imm) => {
                        match eval_imm(&frame, imm) {
                            Some(v) => frame.push((dest.index, eval_prim1(op1, v))),
                            None => {
                                return None;
                            },
                        }
                        cur = Some(next);
                    },
                    Operation::Prim2(op2, a, b) => {
                        match (eval_imm(&frame, a), eval_imm(&frame, b)) {
                            (Some(va), Some(vb)) => frame.push(
                                (dest.index, eval_prim2(op2, va, vb)),
                            ),
                            _ => {
                                return None;
                            },
                        }
                        cur = Some(next);
                    },
                    Operation::Call { fun, args } => {
                        let vals = match eval_imms(&frame, args) {
                            Some(a) => a,
                            None => {
                                return None;
                            },
                        };
                        let callee = match find_fun(&p.funs, fun) {
                            Some(f) => f,
                            None => {
                                return None;
                            },
                        };
                        if vals.len() != callee.params.len() {
                            return None;
                        }
                        let mut callee_frame: Vec<(usize, i64)> = Vec::new();
                        let mut k: usize = 0;
                        while k < vals.len()
                            decreases vals.len() - k,
                        {
                            callee_frame.push((callee.params[k].index, vals[k]));
                            k = k + 1;
                        }
                        let caller_frame = frame;
                        frame = callee_frame;
                        konts.push((caller_frame, dest.index, next));
                        pending_branch = Some(&callee.body);
                        cur = None;
                    },
                }
            },
            BlockBody::Terminator(t) => match t {
                Terminator::Return(imm) => {
                    let v = match eval_imm(&frame, imm) {
                        Some(v) => v,
                        None => {
                            return None;
                        },
                    };
                    match konts.pop() {
                        Some((caller_frame, dest, next)) => {
                            frame = caller_frame;
                            frame.push((dest, v));
                            cur = Some(next);
                        },
                        None => {
                            return Some(v);
                        },
                    }
                },
                Terminator::Branch(br) => {
                    let args = match eval_imms(&frame, &br.args) {
                        Some(a) => a,
                        None => {
                            return None;
                        },
                    };
                    let (anchor, params, bbody) = match find_block(&registry, br.target.index) {
                        Some(t) => t,
                        None => {
                            return None;
                        },
                    };
                    if args.len() != params.len() {
                        return None;
                    }
                    frame.truncate(anchor);
                    let mut k: usize = 0;
                    while k < params.len()
                        decreases params.len() - k,
                    {
                        frame.push((params[k].index, args[k]));
                        k = k + 1;
                    }
                    cur = Some(bbody);
                },
                Terminator::ConditionalBranch { cond, thn, els } => {
                    let v = match eval_imm(&frame, cond) {
                        Some(v) => v,
                        None => {
                            return None;
                        },
                    };
                    let target = if v != 0 {
                        thn.index
                    } else {
                        els.index
                    };
                    let (anchor, params, bbody) = match find_block(&registry, target) {
                        Some(t) => t,
                        None => {
                            return None;
                        },
                    };
                    if params.len() != 0 {
                        return None;
                    }
                    frame.truncate(anchor);
                    cur = Some(bbody);
                },
            },
        }
    }
    None
}


/* ---------------------------- Bound-AST evaluator -------------------------- */

// A tree-walking evaluator for the bound syntax, used to check that the
// bound program and its lowered SSA form denote the same integer.  As
// with the SSA interpreter, external functions are unsupported and a
// step budget bounds the walk.

/// What a function name denotes: a member of a mutually recursive
/// declaration group, or the program entry itself.
enum Callee<'a> {
    Decl(&'a Vec<crate::ast::BoundFunDecl>, usize),
    Entry(&'a crate::ast::BoundProg),
}

impl<'a> Clone for Callee<'a> {
    fn clone(&self) -> (r: Self)
        ensures
            r == *self,
    {
        match self {
            Callee::Decl(ds, i) => Callee::Decl(ds, *i),
            Callee::Entry(p) => Callee::Entry(p),
        }
    }
}

/// A function value: where its body lives, and the variable and
/// function scopes captured at its definition site.
struct Clo<'a> {
    callee: Callee<'a>,
    venv: Vec<(usize, i64)>,
    fenv: Vec<(FunName, Clo<'a>)>,
}

fn clone_venv(v: &Vec<(usize, i64)>) -> (r: Vec<(usize, i64)>)
    ensures
        r@ == v@,
{
    let mut out: Vec<(usize, i64)> = Vec::new();
    let mut i: usize = 0;
    while i < v.len()
        invariant
            i <= v@.len(),
            out@ =~= v@.subrange(0, i as int),
        decreases v.len() - i,
    {
        out.push(v[i]);
        i = i + 1;
    }
    proof {
        assert(out@ =~= v@);
    }
    out
}

#[verifier::loop_isolation(false)]
fn clone_fenv<'a>(v: &Vec<(FunName, Clo<'a>)>) -> (r: Vec<(FunName, Clo<'a>)>)
    decreases v@,
{
    let mut out: Vec<(FunName, Clo<'a>)> = Vec::new();
    let mut i: usize = 0;
    while i < v.len()
        decreases v.len() - i,
    {
        let name = v[i].0.clone();
        proof {
            assert(decreases_to!(v@ => v@[i as int]));
            assert(decreases_to!(v@[i as int] => v@[i as int].1));
        }
        let clo = clone_clo(&v[i].1);
        out.push((name, clo));
        i = i + 1;
    }
    out
}

fn clone_clo<'a>(c: &Clo<'a>) -> (r: Clo<'a>)
    decreases *c,
{
    proof {
        assert(decreases_to!(*c => (*c).fenv));
        assert(decreases_to!((*c).fenv => c.fenv@));
    }
    Clo { callee: c.callee.clone(), venv: clone_venv(&c.venv), fenv: clone_fenv(&c.fenv) }
}

/// Find the latest closure bound to a function name.
fn fenv_get<'a, 'b>(fenv: &'b Vec<(FunName, Clo<'a>)>, name: &FunName) -> Option<&'b Clo<'a>> {
    let mut i: usize = fenv.len();
    while i > 0
        invariant
            i <= fenv.len(),
        decreases i,
    {
        i = i - 1;
        if fun_matches(&fenv[i].0, name) {
            return Some(&fenv[i].1);
        }
    }
    None
}

fn eval_surf_prim1(p: &crate::ast::Prim, n: i64) -> i64 {
    match p {
        crate::ast::Prim::Add1 => n.wrapping_add(1),
        crate::ast::Prim::Sub1 => n.wrapping_sub(1),
        _ => if n == 0 {
            1
        } else {
            0
        },
    }
}

fn eval_surf_prim2(p: &crate::ast::Prim, n: i64, m: i64) -> i64 {
    match p {
        crate::ast::Prim::Add => n.wrapping_add(m),
        crate::ast::Prim::Sub => n.wrapping_sub(m),
        crate::ast::Prim::Mul => n.wrapping_mul(m),
        crate::ast::Prim::And => if n != 0 && m != 0 {
            1
        } else {
            0
        },
        crate::ast::Prim::Or => if n != 0 || m != 0 {
            1
        } else {
            0
        },
        crate::ast::Prim::Lt => if n < m {
            1
        } else {
            0
        },
        crate::ast::Prim::Le => if n <= m {
            1
        } else {
            0
        },
        crate::ast::Prim::Gt => if n > m {
            1
        } else {
            0
        },
        crate::ast::Prim::Ge => if n >= m {
            1
        } else {
            0
        },
        crate::ast::Prim::Eq => if n == m {
            1
        } else {
            0
        },
        _ => if n != m {
            1
        } else {
            0
        },
    }
}

/// Bind the closures of a declaration group, and run the chosen body.
#[verifier::loop_isolation(false)]
fn apply_clo<'a>(clo: &Clo<'a>, args: &Vec<i64>, fuel: u64) -> (r: Option<(i64, u64)>)
    ensures
        r matches Some(p) ==> p.1 <= fuel,
    decreases fuel, 0int, clo.callee,
{
    if fuel == 0 {
        return None;
    }
    let (params, body): (&Vec<(VarName, crate::span::SrcLoc)>, &crate::ast::BoundExpr) =
        match &clo.callee {
        Callee::Decl(ds, i) => {
            if *i >= ds.len() {
                return None;
            }
            (&ds[*i].params, &ds[*i].body)
        },
        Callee::Entry(p) => {
            // The entry has a single parameter; shape it alike.
            if args.len() != 1 {
                return None;
            }
            let mut venv = clone_venv(&clo.venv);
            venv.push((p.param.0.index, args[0]));
            let fenv = clone_fenv(&clo.fenv);
            return eval_bound(&p.body, &venv, &fenv, fuel - 1);
        },
    };
    if args.len() != params.len() {
        return None;
    }
    let mut venv = clone_venv(&clo.venv);
    let mut k: usize = 0;
    while k < params.len()
        decreases params.len() - k,
    {
        venv.push((params[k].0.index, args[k]));
        k = k + 1;
    }
    // The whole group is callable from the body.
    let mut fenv = clone_fenv(&clo.fenv);
    let ds = match &clo.callee {
        Callee::Decl(ds, _) => *ds,
        Callee::Entry(_) => {
            return None;
        },
    };
    let mut j: usize = 0;
    while j < ds.len()
        decreases ds.len() - j,
    {
        fenv.push(
            (
                ds[j].name.clone(),
                Clo {
                    callee: Callee::Decl(ds, j),
                    venv: clone_venv(&clo.venv),
                    fenv: clone_fenv(&clo.fenv),
                },
            ),
        );
        j = j + 1;
    }
    eval_bound(body, &venv, &fenv, fuel - 1)
}

/// Evaluate a bound expression under variable and function scopes,
/// within a step budget.
#[verifier::loop_isolation(false)]
fn eval_bound<'a>(
    e: &'a crate::ast::BoundExpr,
    venv: &Vec<(usize, i64)>,
    fenv: &Vec<(FunName, Clo<'a>)>,
    fuel: u64,
) -> (r: Option<(i64, u64)>)
    ensures
        r matches Some(p) ==> p.1 <= fuel,
    decreases fuel, 1int, *e,
{
    match e {
        crate::ast::Expr::Num(n, _) => Some((*n, fuel)),
        crate::ast::Expr::Bool(b, _) => Some((if *b { 1 } else { 0 }, fuel)),
        crate::ast::Expr::Var(v, _) => match frame_get(venv, v.index) {
            Some(n) => Some((n, fuel)),
            None => None,
        },
        crate::ast::Expr::Prim { prim, args, .. } => {
            let mut vals: Vec<i64> = Vec::new();
            let mut remaining = fuel;
            let mut i: usize = 0;
            while i < args.len()
                invariant
                    remaining <= fuel,
                decreases args.len() - i,
            {
                proof {
                    assert(decreases_to!(*e => (*e)->Prim_args));
                    assert(decreases_to!((*e)->Prim_args => args@[i as int]));
                }
                match eval_bound(&args[i], venv, fenv, remaining) {
                    Some((v, f2)) => {
                        vals.push(v);
                        remaining = f2;
                    },
                    None => {
                        return None;
                    },
                }
                i = i + 1;
            }
            if vals.len() == 1 {
                Some((eval_surf_prim1(prim, vals[0]), remaining))
            } else if vals.len() == 2 {
                Some((eval_surf_prim2(prim, vals[0], vals[1]), remaining))
            } else {
                None
            }
        },
        crate::ast::Expr::Let { bindings, body, .. } => {
            let mut venv2 = clone_venv(venv);
            let mut remaining = fuel;
            let mut i: usize = 0;
            while i < bindings.len()
                invariant
                    remaining <= fuel,
                decreases bindings.len() - i,
            {
                proof {
                    assert(decreases_to!(*e => (*e)->Let_bindings));
                    assert(decreases_to!((*e)->Let_bindings => bindings@[i as int]));
                    assert(decreases_to!(bindings@[i as int] => bindings@[i as int].expr));
                }
                match eval_bound(&bindings[i].expr, &venv2, fenv, remaining) {
                    Some((v, f2)) => {
                        venv2.push((bindings[i].var.0.index, v));
                        remaining = f2;
                    },
                    None => {
                        return None;
                    },
                }
                i = i + 1;
            }
            proof {
                assert(decreases_to!(*e => (*e)->Let_body));
            }
            eval_bound(&**body, &venv2, fenv, remaining)
        },
        crate::ast::Expr::If { cond, thn, els, .. } => {
            proof {
                assert(decreases_to!(*e => (*e)->If_cond));
                assert(decreases_to!(*e => (*e)->If_thn));
                assert(decreases_to!(*e => (*e)->If_els));
            }
            match eval_bound(&**cond, venv, fenv, fuel) {
                Some((c, f2)) => {
                    if c != 0 {
                        eval_bound(&**thn, venv, fenv, f2)
                    } else {
                        eval_bound(&**els, venv, fenv, f2)
                    }
                },
                None => None,
            }
        },
        crate::ast::Expr::FunDefs { decls, body, .. } => {
            let mut fenv2 = clone_fenv(fenv);
            let mut j: usize = 0;
            while j < decls.len()
                decreases decls.len() - j,
            {
                fenv2.push(
                    (
                        decls[j].name.clone(),
                        Clo {
                            callee: Callee::Decl(decls, j),
                            venv: clone_venv(venv),
                            fenv: clone_fenv(fenv),
                        },
                    ),
                );
                j = j + 1;
            }
            proof {
                assert(decreases_to!(*e => (*e)->FunDefs_body));
            }
            eval_bound(&**body, venv, &fenv2, fuel)
        },
        crate::ast::Expr::Call { fun, args, .. } => {
            let mut vals: Vec<i64> = Vec::new();
            let mut remaining = fuel;
            let mut i: usize = 0;
            while i < args.len()
                invariant
                    remaining <= fuel,
                decreases args.len() - i,
            {
                proof {
                    assert(decreases_to!(*e => (*e)->Call_args));
                    assert(decreases_to!((*e)->Call_args => args@[i as int]));
                }
                match eval_bound(&args[i], venv, fenv, remaining) {
                    Some((v, f2)) => {
                        vals.push(v);
                        remaining = f2;
                    },
                    None => {
                        return None;
                    },
                }
                i = i + 1;
            }
            let clo = match fenv_get(fenv, fun) {
                Some(c) => c,
                None => {
                    return None;
                },
            };
            if remaining == 0 {
                return None;
            }
            apply_clo(clo, &vals, remaining)
        },
    }
}

/// Run a bound program without external declarations on one integer
/// input, within a step budget.  `None` means the budget ran out or the
/// walk got stuck; resolution's output never gets stuck.
pub fn run_bound(p: &crate::ast::BoundProg, arg: i64, fuel: u64) -> (r: Option<i64>) {
    if p.externs.len() != 0 {
        return None;
    }
    let mut venv: Vec<(usize, i64)> = Vec::new();
    venv.push((p.param.0.index, arg));
    let mut fenv: Vec<(FunName, Clo)> = Vec::new();
    fenv.push(
        (p.name.clone(), Clo { callee: Callee::Entry(p), venv: Vec::new(), fenv: Vec::new() }),
    );
    match eval_bound(&p.body, &venv, &fenv, fuel) {
        Some((v, _)) => Some(v),
        None => None,
    }
}


} // verus!
