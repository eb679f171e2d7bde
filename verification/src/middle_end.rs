//! The middle end of the compiler: lowering of a bound program into the
//! SSA intermediate representation, lambda-lifting every local function
//! and sequencing primitive applications.  Lowering is proved to produce
//! a program that observes the code generator's slot discipline.

use vstd::prelude::*;
use crate::ast::{Expr, BoundExpr, BoundBinding, BoundProg};
use crate::frontend::{Resolver, rshape, decl_pairs, ext_pairs};
use crate::identifiers::{VarName, FunName, BlockName, IdGen, Identifier};
use crate::span::SrcLoc;
use crate::ssa::{Program, Extern, FunBlock, BasicBlock, BlockBody, Terminator, Branch, Operation,
    Prim1, Prim2, Immediate, body_ok, imms_ok, sub_blocks_ok, top_blocks_ok, fun_blocks_ok,
    with_labels, with_params, prog_slots_ok};

verus! {

/* ------------------------- The functions in scope ------------------------- */

/// What the derived equality of `FunName` observes: the tag, the index
/// and the characters of the hint.  The lowerer's scope map is keyed by
/// this, so that equal names share one entry.
pub enum FunKey {
    Mangled { idx: nat, hint: Seq<char> },
    Unmangled { name: Seq<char> },
}

/// The key of a function name.
pub open spec fn fun_key(f: FunName) -> FunKey {
    match f {
        FunName::Mangled { index, hint } => FunKey::Mangled { idx: index as nat, hint: hint@ },
        FunName::Unmangled { name } => FunKey::Unmangled { name: name@ },
    }
}

/// The keys of the names of a pair set.
pub open spec fn pair_keys(fs: Set<(FunName, int)>) -> Set<FunKey> {
    fs.map(|p: (FunName, int)| fun_key(p.0))
}

/// How a function in scope is called: an external function becomes a
/// runtime call; a local function is lambda-lifted, and carries the
/// fresh name of its lifted entry, the variables captured at its
/// definition site, and the label of its shared tail block.
#[derive(Debug, Clone)]
pub enum FunType {
    Extern,
    Local { lifted: FunName, captured: Vec<VarName>, block_name: BlockName },
}

/// What the lowerer's function scope holds.
pub uninterp spec fn lower_map_of(m: im::HashMap<FunName, FunType>) -> Map<FunKey, FunType>;

/// Relies on im::HashMap::new: a freshly constructed map is empty.
#[verifier::external_body]
fn lower_map_new() -> (r: im::HashMap<FunName, FunType>)
    ensures
        lower_map_of(r) =~= Map::empty(),
{
    im::HashMap::new()
}

/// Relies on im::HashMap::insert: binds the key to the value and leaves
/// the other bindings unchanged.  The map's derived key equality observes
/// exactly what `fun_key` models.
#[verifier::external_body]
fn lower_map_insert(m: &mut im::HashMap<FunName, FunType>, k: FunName, v: FunType)
    ensures
        lower_map_of(*final(m)) == lower_map_of(*old(m)).insert(fun_key(k), v),
{
    m.insert(k, v);
}

/// Relies on im::HashMap::get: returns the value bound to the key, if
/// any; the value's fields are those that were inserted.
#[verifier::external_body]
fn lower_map_get(m: &im::HashMap<FunName, FunType>, k: &FunName) -> (r: Option<FunType>)
    ensures
        match r {
            Some(v) => lower_map_of(*m).dom().contains(fun_key(*k)) && lower_map_of(*m)[fun_key(
                *k,
            )] == v,
            None => !lower_map_of(*m).dom().contains(fun_key(*k)),
        },
{
    m.get(k).cloned()
}

/// Relies on im::HashMap::clone: the clone holds the same bindings.
#[verifier::external_body]
fn lower_map_clone(m: &im::HashMap<FunName, FunType>) -> (r: im::HashMap<FunName, FunType>)
    ensures
        lower_map_of(r) == lower_map_of(*m),
{
    m.clone()
}

/// The lowerer's environment: the functions in scope, and the stack of
/// local variables in scope, kept for capture snapshots.  It is passed
/// by value and cloned wherever lexical scoping demands a snapshot, so
/// nothing added in one subexpression leaks into a sibling.
struct Env {
    funs: im::HashMap<FunName, FunType>,
    locals: Vec<VarName>,
}

/// The function scope that the environment holds.
spec fn fmodel(e: Env) -> Map<FunKey, FunType> {
    lower_map_of(e.funs)
}

/// The function scope's domain.
spec fn fdom(e: Env) -> Set<FunKey> {
    fmodel(e).dom()
}

/// The indices of a sequence of variable names.
pub open spec fn sparams(ps: Seq<VarName>) -> Set<usize> {
    Set::new(|x: usize| exists|j: int| 0 <= j < ps.len() && (#[trigger] ps[j]).index == x)
}

/// The indices of the variables on the lexical stack.
spec fn locals_set(e: Env) -> Set<usize> {
    sparams(e.locals@)
}

impl Env {
    fn new() -> (r: Self)
        ensures
            fmodel(r) =~= Map::empty(),
            r.locals@ == Seq::<VarName>::empty(),
    {
        Env { funs: lower_map_new(), locals: Vec::new() }
    }

    fn add_extern(&mut self, fun_name: FunName)
        ensures
            fmodel(*final(self)) == fmodel(*old(self)).insert(fun_key(fun_name), FunType::Extern),
            final(self).locals@ == old(self).locals@,
    {
        // Externs capture no variables and have no block.
        lower_map_insert(&mut self.funs, fun_name, FunType::Extern);
    }

    fn add_local_fun(
        &mut self,
        fun_name: FunName,
        lifted: FunName,
        captured: Vec<VarName>,
        block_name: BlockName,
    )
        ensures
            fmodel(*final(self)) == fmodel(*old(self)).insert(
                fun_key(fun_name),
                FunType::Local { lifted, captured, block_name },
            ),
            final(self).locals@ == old(self).locals@,
    {
        lower_map_insert(
            &mut self.funs,
            fun_name,
            FunType::Local { lifted, captured, block_name },
        );
    }

    fn get(&self, fun_name: &FunName) -> (r: Option<FunType>)
        ensures
            match r {
                Some(v) => fmodel(*self).dom().contains(fun_key(*fun_name)) && fmodel(
                    *self,
                )[fun_key(*fun_name)] == v,
                None => !fmodel(*self).dom().contains(fun_key(*fun_name)),
            },
    {
        lower_map_get(&self.funs, fun_name)
    }

    fn clone_env(&self) -> (r: Self)
        ensures
            fmodel(r) == fmodel(*self),
            r.locals@ == self.locals@,
    {
        Env { funs: lower_map_clone(&self.funs), locals: clone_vars(&self.locals) }
    }
}

/// Clone a stack of variable names.
fn clone_vars(vs: &Vec<VarName>) -> (r: Vec<VarName>)
    ensures
        r@ == vs@,
{
    let mut out: Vec<VarName> = Vec::new();
    let mut i: usize = 0;
    while i < vs.len()
        invariant
            i <= vs@.len(),
            out@ =~= vs@.subrange(0, i as int),
        decreases vs.len() - i,
    {
        out.push(vs[i].clone());
        i = i + 1;
    }
    proof {
        assert(out@ =~= vs@);
    }
    out
}

/* --------------------- What the lowerer requires of input ------------------ */

/// The keys of the declarations of a function-definition block, added to
/// `ks` in order.
pub open spec fn decl_keys(ks: Set<FunKey>, bds: Seq<crate::ast::BoundFunDecl>, j: int) -> Set<
    FunKey,
>
    decreases j,
{
    if j <= 0 {
        ks
    } else {
        decl_keys(ks, bds, j - 1).insert(fun_key(bds[j - 1].name))
    }
}

/// The variable scope extended by the first `j` binders of a `let`.
pub open spec fn binder_set(vs: Set<usize>, sbs: Seq<BoundBinding>, j: int) -> Set<usize>
    decreases j,
{
    if j <= 0 {
        vs
    } else {
        binder_set(vs, sbs, j - 1).insert(sbs[j - 1].var.0.index)
    }
}

/// The variable scope extended by the first `j` parameters.
pub open spec fn decl_params_set(vs: Set<usize>, ps: Seq<(VarName, SrcLoc)>, j: int) -> Set<usize>
    decreases j,
{
    if j <= 0 {
        vs
    } else {
        decl_params_set(vs, ps, j - 1).insert(ps[j - 1].0.index)
    }
}

/// The bound expression is well formed for the lowerer: every variable
/// occurrence is in the lexical scope `vs`, every call names a function
/// in scope, and every primitive application has its operator's arity.
pub open spec fn lower_ok(e: BoundExpr, vs: Set<usize>, ks: Set<FunKey>) -> bool
    decreases e,
{
    match e {
        Expr::Num(..) => true,
        Expr::Bool(..) => true,
        Expr::Var(v, _) => vs.contains(v.index),
        Expr::Prim { prim, args, .. } => args@.len() == crate::ast::spec_arity(prim) && (forall|
            j: int,
        |
            0 <= j < args@.len() ==> lower_ok(#[trigger] args@[j], vs, ks)),
        Expr::Let { bindings, body, .. } => (forall|j: int|
            0 <= j < bindings@.len() ==> lower_ok(
                (#[trigger] bindings@[j]).expr,
                binder_set(vs, bindings@, j),
                ks,
            )) && lower_ok(*body, binder_set(vs, bindings@, bindings@.len() as int), ks),
        Expr::If { cond, thn, els, .. } => lower_ok(*cond, vs, ks) && lower_ok(*thn, vs, ks)
            && lower_ok(*els, vs, ks),
        Expr::FunDefs { decls, body, .. } => {
            let ks2 = decl_keys(ks, decls@, decls@.len() as int);
            (forall|j: int|
                0 <= j < decls@.len() ==> lower_ok(
                    (#[trigger] decls@[j]).body,
                    decl_params_set(vs, decls@[j].params@, decls@[j].params@.len() as int),
                    ks2,
                )) && lower_ok(*body, vs, ks2)
        },
        Expr::Call { fun, args, .. } => ks.contains(fun_key(fun)) && (forall|j: int|
            0 <= j < args@.len() ==> lower_ok(#[trigger] args@[j], vs, ks)),
    }
}

proof fn lemma_decl_keys_grow(ks: Set<FunKey>, bds: Seq<crate::ast::BoundFunDecl>, j: int)
    ensures
        ks.subset_of(decl_keys(ks, bds, j)),
    decreases j,
{
    if j > 0 {
        lemma_decl_keys_grow(ks, bds, j - 1);
    }
}

proof fn lemma_decl_keys_mono(ks1: Set<FunKey>, ks2: Set<FunKey>, bds: Seq<crate::ast::BoundFunDecl>, j: int)
    requires
        ks1.subset_of(ks2),
    ensures
        decl_keys(ks1, bds, j).subset_of(decl_keys(ks2, bds, j)),
    decreases j,
{
    if j > 0 {
        lemma_decl_keys_mono(ks1, ks2, bds, j - 1);
    }
}

proof fn lemma_binder_set_grow(vs: Set<usize>, sbs: Seq<BoundBinding>, j: int)
    ensures
        vs.subset_of(binder_set(vs, sbs, j)),
    decreases j,
{
    if j > 0 {
        lemma_binder_set_grow(vs, sbs, j - 1);
    }
}

proof fn lemma_binder_set_mono(vs1: Set<usize>, vs2: Set<usize>, sbs: Seq<BoundBinding>, j: int)
    requires
        vs1.subset_of(vs2),
    ensures
        binder_set(vs1, sbs, j).subset_of(binder_set(vs2, sbs, j)),
    decreases j,
{
    if j > 0 {
        lemma_binder_set_mono(vs1, vs2, sbs, j - 1);
    }
}

proof fn lemma_decl_params_set_grow(vs: Set<usize>, ps: Seq<(VarName, SrcLoc)>, j: int)
    ensures
        vs.subset_of(decl_params_set(vs, ps, j)),
    decreases j,
{
    if j > 0 {
        lemma_decl_params_set_grow(vs, ps, j - 1);
    }
}

proof fn lemma_decl_params_set_mono(
    vs1: Set<usize>,
    vs2: Set<usize>,
    ps: Seq<(VarName, SrcLoc)>,
    j: int,
)
    requires
        vs1.subset_of(vs2),
    ensures
        decl_params_set(vs1, ps, j).subset_of(decl_params_set(vs2, ps, j)),
    decreases j,
{
    if j > 0 {
        lemma_decl_params_set_mono(vs1, vs2, ps, j - 1);
    }
}

/// A larger scope accepts every expression that a smaller one does.
proof fn lemma_lower_ok_mono(e: BoundExpr, vs1: Set<usize>, vs2: Set<usize>, ks1: Set<FunKey>, ks2: Set<FunKey>)
    requires
        lower_ok(e, vs1, ks1),
        vs1.subset_of(vs2),
        ks1.subset_of(ks2),
    ensures
        lower_ok(e, vs2, ks2),
    decreases e,
{
    match e {
        Expr::Prim { args, .. } => {
            assert forall|j: int| 0 <= j < args@.len() implies lower_ok(
                #[trigger] args@[j],
                vs2,
                ks2,
            ) by {
                lemma_lower_ok_mono(args@[j], vs1, vs2, ks1, ks2);
            }
        },
        Expr::Let { bindings, body, .. } => {
            assert forall|j: int| 0 <= j < bindings@.len() implies lower_ok(
                (#[trigger] bindings@[j]).expr,
                binder_set(vs2, bindings@, j),
                ks2,
            ) by {
                lemma_binder_set_mono(vs1, vs2, bindings@, j);
                lemma_lower_ok_mono(
                    bindings@[j].expr,
                    binder_set(vs1, bindings@, j),
                    binder_set(vs2, bindings@, j),
                    ks1,
                    ks2,
                );
            }
            let n = bindings@.len() as int;
            lemma_binder_set_mono(vs1, vs2, bindings@, n);
            lemma_lower_ok_mono(
                *body,
                binder_set(vs1, bindings@, n),
                binder_set(vs2, bindings@, n),
                ks1,
                ks2,
            );
        },
        Expr::If { cond, thn, els, .. } => {
            lemma_lower_ok_mono(*cond, vs1, vs2, ks1, ks2);
            lemma_lower_ok_mono(*thn, vs1, vs2, ks1, ks2);
            lemma_lower_ok_mono(*els, vs1, vs2, ks1, ks2);
        },
        Expr::FunDefs { decls, body, .. } => {
            let n = decls@.len() as int;
            lemma_decl_keys_mono(ks1, ks2, decls@, n);
            assert forall|j: int| 0 <= j < decls@.len() implies lower_ok(
                (#[trigger] decls@[j]).body,
                decl_params_set(vs2, decls@[j].params@, decls@[j].params@.len() as int),
                decl_keys(ks2, decls@, n),
            ) by {
                lemma_decl_params_set_mono(
                    vs1,
                    vs2,
                    decls@[j].params@,
                    decls@[j].params@.len() as int,
                );
                lemma_lower_ok_mono(
                    decls@[j].body,
                    decl_params_set(vs1, decls@[j].params@, decls@[j].params@.len() as int),
                    decl_params_set(vs2, decls@[j].params@, decls@[j].params@.len() as int),
                    decl_keys(ks1, decls@, n),
                    decl_keys(ks2, decls@, n),
                );
            }
            lemma_lower_ok_mono(*body, vs1, vs2, decl_keys(ks1, decls@, n), decl_keys(ks2, decls@, n));
        },
        Expr::Call { args, .. } => {
            assert forall|j: int| 0 <= j < args@.len() implies lower_ok(
                #[trigger] args@[j],
                vs2,
                ks2,
            ) by {
                lemma_lower_ok_mono(args@[j], vs1, vs2, ks1, ks2);
            }
        },
        _ => {},
    }
}

/* ------------------ Resolution output is fit for lowering ------------------ */

/// The indices of the variables a scope map holds.
pub open spec fn vals_idx(m: Map<Seq<char>, VarName>) -> Set<usize> {
    Set::new(
        |x: usize|
            exists|k: Seq<char>| #[trigger] m.dom().contains(k) && m[k].index == x,
    )
}

proof fn lemma_vals_idx_insert(m: Map<Seq<char>, VarName>, k: Seq<char>, v: VarName)
    ensures
        vals_idx(m.insert(k, v)).subset_of(vals_idx(m).insert(v.index)),
        vals_idx(m.insert(k, v)).contains(v.index),
{
    assert forall|x: usize| vals_idx(m.insert(k, v)).contains(x) implies vals_idx(m).insert(
        v.index,
    ).contains(x) by {
        let k2 = choose|k2: Seq<char>| #[trigger]
            m.insert(k, v).dom().contains(k2) && m.insert(k, v)[k2].index == x;
        if k2 != k {
            assert(m.dom().contains(k2) && m[k2].index == x);
        }
    }
    assert(m.insert(k, v).dom().contains(k) && m.insert(k, v)[k].index == v.index);
}

proof fn lemma_bind_map_vals(
    m: Map<Seq<char>, VarName>,
    sbs: Seq<crate::ast::SurfBinding>,
    bbs: Seq<BoundBinding>,
    j: int,
)
    requires
        j <= bbs.len(),
        j <= sbs.len(),
    ensures
        vals_idx(crate::frontend::bind_map(m, sbs, bbs, j)).subset_of(
            binder_set(vals_idx(m), bbs, j),
        ),
    decreases j,
{
    if j > 0 {
        lemma_bind_map_vals(m, sbs, bbs, j - 1);
        lemma_vals_idx_insert(
            crate::frontend::bind_map(m, sbs, bbs, j - 1),
            sbs[j - 1].var.0@,
            bbs[j - 1].var.0,
        );
        lemma_binder_set_grow(vals_idx(m), bbs, j - 1);
    }
}

proof fn lemma_param_map_vals(
    m: Map<Seq<char>, VarName>,
    sps: Seq<(String, SrcLoc)>,
    bps: Seq<(VarName, SrcLoc)>,
    j: int,
)
    requires
        j <= bps.len(),
        j <= sps.len(),
    ensures
        vals_idx(crate::frontend::param_map(m, sps, bps, j)).subset_of(
            decl_params_set(vals_idx(m), bps, j),
        ),
    decreases j,
{
    if j > 0 {
        lemma_param_map_vals(m, sps, bps, j - 1);
        lemma_vals_idx_insert(
            crate::frontend::param_map(m, sps, bps, j - 1),
            sps[j - 1].0@,
            bps[j - 1].0,
        );
        lemma_decl_params_set_grow(vals_idx(m), bps, j - 1);
    }
}

proof fn lemma_pair_keys_insert(fs: Set<(FunName, int)>, p: (FunName, int))
    ensures
        pair_keys(fs.insert(p)) == pair_keys(fs).insert(fun_key(p.0)),
{
    assert forall|k: FunKey| pair_keys(fs.insert(p)).contains(k) implies pair_keys(fs).insert(
        fun_key(p.0),
    ).contains(k) by {
        let q = choose|q: (FunName, int)| fs.insert(p).contains(q) && fun_key(q.0) == k;
        if q != p {
            assert(fs.contains(q));
        }
    }
    assert forall|k: FunKey| pair_keys(fs).insert(fun_key(p.0)).contains(k) implies pair_keys(
        fs.insert(p),
    ).contains(k) by {
        if k == fun_key(p.0) {
            assert(fs.insert(p).contains(p));
        } else {
            let q = choose|q: (FunName, int)| fs.contains(q) && fun_key(q.0) == k;
            assert(fs.insert(p).contains(q));
        }
    }
    assert(pair_keys(fs.insert(p)) =~= pair_keys(fs).insert(fun_key(p.0)));
}

proof fn lemma_decl_pair_keys(fs: Set<(FunName, int)>, bds: Seq<crate::ast::BoundFunDecl>, j: int)
    ensures
        pair_keys(decl_pairs(fs, bds, j)) == decl_keys(pair_keys(fs), bds, j),
    decreases j,
{
    if j > 0 {
        lemma_decl_pair_keys(fs, bds, j - 1);
        lemma_pair_keys_insert(
            decl_pairs(fs, bds, j - 1),
            (bds[j - 1].name, bds[j - 1].params@.len() as int),
        );
    }
}

/// A resolved expression is well formed for the lowerer: its variables
/// are among the scope map's values and its calls name exactly the
/// functions that resolution put in scope.
pub proof fn lemma_rshape_lower_ok(
    s: crate::ast::SurfExpr,
    b: BoundExpr,
    m: Map<Seq<char>, VarName>,
    fs: Set<(FunName, int)>,
)
    requires
        rshape(s, b, m, fs),
    ensures
        lower_ok(b, vals_idx(m), pair_keys(fs)),
    decreases s,
{
    match (s, b) {
        (Expr::Var(x, _), Expr::Var(v, _)) => {
            assert(m.dom().contains(x@) && m[x@] == v);
            assert(vals_idx(m).contains(v.index));
        },
        (Expr::Prim { args, .. }, Expr::Prim { args: args2, .. }) => {
            assert forall|j: int| 0 <= j < args2@.len() implies lower_ok(
                #[trigger] args2@[j],
                vals_idx(m),
                pair_keys(fs),
            ) by {
                lemma_rshape_lower_ok(args@[j], args2@[j], m, fs);
            }
        },
        (Expr::Let { bindings, body, .. }, Expr::Let { bindings: bbs, body: body2, .. }) => {
            assert forall|j: int| 0 <= j < bbs@.len() implies lower_ok(
                (#[trigger] bbs@[j]).expr,
                binder_set(vals_idx(m), bbs@, j),
                pair_keys(fs),
            ) by {
                lemma_rshape_lower_ok(
                    bindings@[j].expr,
                    bbs@[j].expr,
                    crate::frontend::bind_map(m, bindings@, bbs@, j),
                    fs,
                );
                lemma_bind_map_vals(m, bindings@, bbs@, j);
                lemma_lower_ok_mono(
                    bbs@[j].expr,
                    vals_idx(crate::frontend::bind_map(m, bindings@, bbs@, j)),
                    binder_set(vals_idx(m), bbs@, j),
                    pair_keys(fs),
                    pair_keys(fs),
                );
            }
            let n = bbs@.len() as int;
            lemma_rshape_lower_ok(
                *body,
                *body2,
                crate::frontend::bind_map(m, bindings@, bbs@, n),
                fs,
            );
            lemma_bind_map_vals(m, bindings@, bbs@, n);
            lemma_lower_ok_mono(
                *body2,
                vals_idx(crate::frontend::bind_map(m, bindings@, bbs@, n)),
                binder_set(vals_idx(m), bbs@, n),
                pair_keys(fs),
                pair_keys(fs),
            );
        },
        (Expr::If { cond, thn, els, .. }, Expr::If { cond: c2, thn: t2, els: e2, .. }) => {
            lemma_rshape_lower_ok(*cond, *c2, m, fs);
            lemma_rshape_lower_ok(*thn, *t2, m, fs);
            lemma_rshape_lower_ok(*els, *e2, m, fs);
        },
        (Expr::FunDefs { decls, body, .. }, Expr::FunDefs { decls: bds, body: body2, .. }) => {
            let n = bds@.len() as int;
            let fs2 = decl_pairs(fs, bds@, n);
            lemma_decl_pair_keys(fs, bds@, n);
            assert forall|j: int| 0 <= j < bds@.len() implies lower_ok(
                (#[trigger] bds@[j]).body,
                decl_params_set(vals_idx(m), bds@[j].params@, bds@[j].params@.len() as int),
                decl_keys(pair_keys(fs), bds@, n),
            ) by {
                let pm = crate::frontend::param_map(
                    m,
                    decls@[j].params@,
                    bds@[j].params@,
                    decls@[j].params@.len() as int,
                );
                lemma_rshape_lower_ok(decls@[j].body, bds@[j].body, pm, fs2);
                lemma_param_map_vals(
                    m,
                    decls@[j].params@,
                    bds@[j].params@,
                    decls@[j].params@.len() as int,
                );
                assert(bds@[j].params@.len() == decls@[j].params@.len());
                lemma_lower_ok_mono(
                    bds@[j].body,
                    vals_idx(pm),
                    decl_params_set(vals_idx(m), bds@[j].params@, bds@[j].params@.len() as int),
                    pair_keys(fs2),
                    decl_keys(pair_keys(fs), bds@, n),
                );
            }
            lemma_rshape_lower_ok(*body, *body2, m, fs2);
            lemma_lower_ok_mono(
                *body2,
                vals_idx(m),
                vals_idx(m),
                pair_keys(fs2),
                decl_keys(pair_keys(fs), bds@, n),
            );
        },
        (Expr::Call { args, .. }, Expr::Call { fun: fun2, args: args2, .. }) => {
            assert(fs.contains((fun2, args@.len() as int)));
            assert(pair_keys(fs).contains(fun_key(fun2)));
            assert forall|j: int| 0 <= j < args2@.len() implies lower_ok(
                #[trigger] args2@[j],
                vals_idx(m),
                pair_keys(fs),
            ) by {
                lemma_rshape_lower_ok(args@[j], args2@[j], m, fs);
            }
        },
        _ => {},
    }
}

/* -------------------- The slot discipline, set-formed ---------------------- */

// `sbody_ok` is the slot discipline of ssa.rs stated over sets of
// indices, which is the form the lowering proof builds; the bridge
// lemma turns it into the checker's sequence-formed `body_ok`.

/// The labels of a cluster of blocks.
pub open spec fn slabels(s: Seq<BasicBlock>) -> Set<usize> {
    Set::new(
        |l: usize| exists|j: int| 0 <= j < s.len() && (#[trigger] s[j]).label.index == l,
    )
}

pub open spec fn simm_ok(imm: Immediate, vs: Set<usize>) -> bool {
    match imm {
        Immediate::Const(_) => true,
        Immediate::Var(v) => vs.contains(v.index),
    }
}

pub open spec fn simms_ok(args: Seq<Immediate>, vs: Set<usize>) -> bool {
    forall|j: int| 0 <= j < args.len() ==> simm_ok(#[trigger] args[j], vs)
}

pub open spec fn sop_ok(op: Operation, vs: Set<usize>) -> bool {
    match op {
        Operation::Immediate(imm) => simm_ok(imm, vs),
        Operation::Prim1(_, imm) => simm_ok(imm, vs),
        Operation::Prim2(_, a, b) => simm_ok(a, vs) && simm_ok(b, vs),
        Operation::Call { args, .. } => simms_ok(args@, vs),
    }
}

pub open spec fn sterm_ok(t: Terminator, vs: Set<usize>, bs: Set<usize>) -> bool {
    match t {
        Terminator::Return(imm) => simm_ok(imm, vs),
        Terminator::Branch(br) => bs.contains(br.target.index) && simms_ok(br.args@, vs),
        Terminator::ConditionalBranch { cond, thn, els } => simm_ok(cond, vs) && bs.contains(
            thn.index,
        ) && bs.contains(els.index),
    }
}

pub open spec fn sbody_ok(b: BlockBody, vs: Set<usize>, bs: Set<usize>) -> bool
    decreases b,
{
    match b {
        BlockBody::Terminator(t) => sterm_ok(t, vs, bs),
        BlockBody::Operation { dest, op, next } => sop_ok(op, vs) && sbody_ok(
            *next,
            vs.insert(dest.index),
            bs,
        ),
        BlockBody::SubBlocks { blocks: siblings, next } => {
            let bs2 = bs.union(slabels(siblings@));
            sbody_ok(*next, vs, bs2) && (forall|j: int|
                0 <= j < siblings@.len() ==> sbody_ok(
                    (#[trigger] siblings@[j]).body,
                    vs.union(sparams(siblings@[j].params@)),
                    bs2,
                ))
        },
    }
}

proof fn lemma_sbody_mono(b: BlockBody, vs1: Set<usize>, vs2: Set<usize>, bs1: Set<usize>, bs2: Set<usize>)
    requires
        sbody_ok(b, vs1, bs1),
        vs1.subset_of(vs2),
        bs1.subset_of(bs2),
    ensures
        sbody_ok(b, vs2, bs2),
    decreases b,
{
    match b {
        BlockBody::Terminator(t) => {},
        BlockBody::Operation { dest, op, next } => {
            lemma_sbody_mono(*next, vs1.insert(dest.index), vs2.insert(dest.index), bs1, bs2);
        },
        BlockBody::SubBlocks { blocks: siblings, next } => {
            let c1 = bs1.union(slabels(siblings@));
            let c2 = bs2.union(slabels(siblings@));
            lemma_sbody_mono(*next, vs1, vs2, c1, c2);
            assert forall|j: int| 0 <= j < siblings@.len() implies sbody_ok(
                (#[trigger] siblings@[j]).body,
                vs2.union(sparams(siblings@[j].params@)),
                c2,
            ) by {
                lemma_sbody_mono(
                    siblings@[j].body,
                    vs1.union(sparams(siblings@[j].params@)),
                    vs2.union(sparams(siblings@[j].params@)),
                    c1,
                    c2,
                );
            }
        },
    }
}

/// Membership in the checker's accumulated label sequence.
proof fn lemma_with_labels_has(bs0: Seq<usize>, s: Seq<BasicBlock>, i: int, l: usize)
    requires
        0 <= i,
        bs0.contains(l) || exists|j: int|
            i <= j < s.len() && (#[trigger] s[j]).label.index == l,
    ensures
        with_labels(bs0, s, i).contains(l),
    decreases s.len() - i,
{
    if 0 <= i < s.len() {
        if !bs0.contains(l) {
            let j = choose|j: int| i <= j < s.len() && (#[trigger] s[j]).label.index == l;
            if j == i {
                assert(bs0.push(s[i].label.index).contains(l)) by {
                    assert(bs0.push(s[i].label.index)[bs0.len() as int] == l);
                }
                lemma_with_labels_has(bs0.push(s[i].label.index), s, i + 1, l);
            } else {
                lemma_with_labels_has(bs0.push(s[i].label.index), s, i + 1, l);
            }
        } else {
            assert(bs0.push(s[i].label.index).contains(l)) by {
                let q = choose|q: int| 0 <= q < bs0.len() && bs0[q] == l;
                assert(bs0.push(s[i].label.index)[q] == l);
            }
            lemma_with_labels_has(bs0.push(s[i].label.index), s, i + 1, l);
        }
    }
}

/// Membership in the checker's accumulated parameter sequence.
proof fn lemma_with_params_has(vs0: Seq<usize>, ps: Seq<VarName>, i: int, x: usize)
    requires
        0 <= i,
        vs0.contains(x) || exists|j: int| i <= j < ps.len() && (#[trigger] ps[j]).index == x,
    ensures
        with_params(vs0, ps, i).contains(x),
    decreases ps.len() - i,
{
    if 0 <= i < ps.len() {
        if vs0.contains(x) {
            assert(vs0.push(ps[i].index).contains(x)) by {
                let q = choose|q: int| 0 <= q < vs0.len() && vs0[q] == x;
                assert(vs0.push(ps[i].index)[q] == x);
            }
            lemma_with_params_has(vs0.push(ps[i].index), ps, i + 1, x);
        } else {
            let j = choose|j: int| i <= j < ps.len() && (#[trigger] ps[j]).index == x;
            if j == i {
                assert(vs0.push(ps[i].index).contains(x)) by {
                    assert(vs0.push(ps[i].index)[vs0.len() as int] == x);
                }
                lemma_with_params_has(vs0.push(ps[i].index), ps, i + 1, x);
            } else {
                lemma_with_params_has(vs0.push(ps[i].index), ps, i + 1, x);
            }
        }
    }
}

/// The set-formed discipline implies the checker's sequence-formed one,
/// for any sequences that cover the sets.
proof fn lemma_sbody_to_body(
    b: BlockBody,
    vset: Set<usize>,
    bset: Set<usize>,
    vseq: Seq<usize>,
    bseq: Seq<usize>,
)
    requires
        sbody_ok(b, vset, bset),
        forall|x: usize| vset.contains(x) ==> vseq.contains(x),
        forall|l: usize| bset.contains(l) ==> bseq.contains(l),
    ensures
        body_ok(b, vseq, bseq),
    decreases b,
{
    match b {
        BlockBody::Terminator(t) => match t {
            Terminator::Branch(br) => {
                lemma_simms_to_imms(br.args@, vset, vseq, 0);
            },
            _ => {},
        },
        BlockBody::Operation { dest, op, next } => {
            match op {
                Operation::Call { args, .. } => {
                    lemma_simms_to_imms(args@, vset, vseq, 0);
                },
                _ => {},
            }
            assert forall|x: usize| vset.insert(dest.index).contains(x) implies vseq.push(
                dest.index,
            ).contains(x) by {
                if x == dest.index {
                    assert(vseq.push(dest.index)[vseq.len() as int] == x);
                } else {
                    let q = choose|q: int| 0 <= q < vseq.len() && vseq[q] == x;
                    assert(vseq.push(dest.index)[q] == x);
                }
            }
            lemma_sbody_to_body(*next, vset.insert(dest.index), bset, vseq.push(dest.index), bseq);
        },
        BlockBody::SubBlocks { blocks: siblings, next } => {
            let bset2 = bset.union(slabels(siblings@));
            let bseq2 = with_labels(bseq, siblings@, 0);
            assert forall|l: usize| bset2.contains(l) implies bseq2.contains(l) by {
                if bset.contains(l) {
                    lemma_with_labels_has(bseq, siblings@, 0, l);
                } else {
                    lemma_with_labels_has(bseq, siblings@, 0, l);
                }
            }
            lemma_sbody_to_body(*next, vset, bset2, vseq, bseq2);
            assert forall|j: int| 0 <= j < siblings@.len() implies body_ok(
                (#[trigger] siblings@[j]).body,
                with_params(vseq, siblings@[j].params@, 0),
                bseq2,
            ) by {
                assert forall|x: usize| vset.union(sparams(siblings@[j].params@)).contains(
                    x,
                ) implies with_params(vseq, siblings@[j].params@, 0).contains(x) by {
                    lemma_with_params_has(vseq, siblings@[j].params@, 0, x);
                }
                lemma_sbody_to_body(
                    siblings@[j].body,
                    vset.union(sparams(siblings@[j].params@)),
                    bset2,
                    with_params(vseq, siblings@[j].params@, 0),
                    bseq2,
                );
            }
            lemma_sub_blocks_intro(siblings@, 0, vseq, bseq2);
        },
    }
}

proof fn lemma_simms_to_imms(args: Seq<Immediate>, vset: Set<usize>, vseq: Seq<usize>, i: int)
    requires
        simms_ok(args, vset),
        forall|x: usize| vset.contains(x) ==> vseq.contains(x),
    ensures
        imms_ok(args, vseq, i),
    decreases args.len() - i,
{
    if 0 <= i < args.len() {
        assert(simm_ok(args[i], vset));
        lemma_simms_to_imms(args, vset, vseq, i + 1);
    }
}

proof fn lemma_sub_blocks_intro(s: Seq<BasicBlock>, i: int, vseq: Seq<usize>, bseq: Seq<usize>)
    requires
        forall|j: int|
            0 <= j < s.len() ==> body_ok(
                (#[trigger] s[j]).body,
                with_params(vseq, s[j].params@, 0),
                bseq,
            ),
    ensures
        sub_blocks_ok(s, i, vseq, bseq),
    decreases s.len() - i,
{
    if 0 <= i < s.len() {
        lemma_sub_blocks_intro(s, i + 1, vseq, bseq);
    }
}

/* ----------------------- Segments of the output lists ---------------------- */

/// The labels in scope at a point of the lowering: those of the caller's
/// ghost set, plus the labels of every block the call appended.
pub open spec fn new_lbls(bs: Set<usize>, n0: int, now: Seq<BasicBlock>) -> Set<usize> {
    bs.union(slabels(now.skip(n0)))
}

proof fn lemma_new_lbls_base(bs: Set<usize>, now: Seq<BasicBlock>)
    ensures
        new_lbls(bs, now.len() as int, now) == bs,
{
    assert(slabels(now.skip(now.len() as int)) =~= Set::empty());
    assert(new_lbls(bs, now.len() as int, now) =~= bs);
}

/// Labels of a later segment, and of an earlier one, both lie in the
/// labels of the whole segment.
proof fn lemma_seg(n0: int, mid: Seq<BasicBlock>, now: Seq<BasicBlock>)
    requires
        0 <= n0 <= mid.len(),
        mid.is_prefix_of(now),
    ensures
        slabels(now.skip(mid.len() as int)).subset_of(slabels(now.skip(n0))),
        slabels(mid.skip(n0)).subset_of(slabels(now.skip(n0))),
    decreases 0int,
{
    assert forall|l: usize| slabels(now.skip(mid.len() as int)).contains(l) implies slabels(
        now.skip(n0),
    ).contains(l) by {
        let j = choose|j: int|
            0 <= j < now.skip(mid.len() as int).len() && (#[trigger] now.skip(
                mid.len() as int,
            )[j]).label.index == l;
        assert(now.skip(n0)[j + mid.len() - n0] == now.skip(mid.len() as int)[j]);
    }
    assert forall|l: usize| slabels(mid.skip(n0)).contains(l) implies slabels(
        now.skip(n0),
    ).contains(l) by {
        let j = choose|j: int|
            0 <= j < mid.skip(n0).len() && (#[trigger] mid.skip(n0)[j]).label.index == l;
        assert(mid.subrange(0, mid.len() as int) =~= mid);
        assert(now.subrange(0, mid.len() as int) =~= mid);
        assert(now[j + n0] == mid[j + n0]);
        assert(now.skip(n0)[j] == now[j + n0]);
    }
}

/// After a sub-call grows the lists, every fact carried against the
/// smaller label set lifts to the whole segment's label set.
proof fn lemma_chain(
    n0: int,
    bs: Set<usize>,
    bs_mid: Set<usize>,
    mid: Seq<BasicBlock>,
    now: Seq<BasicBlock>,
)
    requires
        0 <= n0 <= mid.len(),
        mid.is_prefix_of(now),
        bs_mid.subset_of(new_lbls(bs, n0, mid)),
    ensures
        new_lbls(bs, n0, mid).subset_of(new_lbls(bs, n0, now)),
        new_lbls(bs_mid, mid.len() as int, now).subset_of(new_lbls(bs, n0, now)),
{
    lemma_seg(n0, mid, now);
}

/// Lift the per-block facts of a completed prefix and of a sub-call's
/// segment to the whole segment.
proof fn lemma_blocks_facts(
    n0: int,
    bs: Set<usize>,
    bs_mid: Set<usize>,
    mid: Seq<BasicBlock>,
    now: Seq<BasicBlock>,
)
    requires
        0 <= n0 <= mid.len(),
        mid.is_prefix_of(now),
        bs_mid.subset_of(new_lbls(bs, n0, mid)),
        forall|j: int|
            n0 <= j < mid.len() ==> sbody_ok(
                (#[trigger] mid[j]).body,
                sparams(mid[j].params@),
                new_lbls(bs, n0, mid),
            ),
        forall|j: int|
            mid.len() <= j < now.len() ==> sbody_ok(
                (#[trigger] now[j]).body,
                sparams(now[j].params@),
                new_lbls(bs_mid, mid.len() as int, now),
            ),
    ensures
        forall|j: int|
            n0 <= j < now.len() ==> sbody_ok(
                (#[trigger] now[j]).body,
                sparams(now[j].params@),
                new_lbls(bs, n0, now),
            ),
{
    lemma_chain(n0, bs, bs_mid, mid, now);
    assert(now.subrange(0, mid.len() as int) =~= mid);
    assert forall|j: int| n0 <= j < now.len() implies sbody_ok(
        (#[trigger] now[j]).body,
        sparams(now[j].params@),
        new_lbls(bs, n0, now),
    ) by {
        if j < mid.len() {
            assert(now[j] == mid[j]);
            lemma_sbody_mono(
                mid[j].body,
                sparams(mid[j].params@),
                sparams(mid[j].params@),
                new_lbls(bs, n0, mid),
                new_lbls(bs, n0, now),
            );
        } else {
            lemma_sbody_mono(
                now[j].body,
                sparams(now[j].params@),
                sparams(now[j].params@),
                new_lbls(bs_mid, mid.len() as int, now),
                new_lbls(bs, n0, now),
            );
        }
    }
}

/// Lift the per-entry branch-target facts the same way.
proof fn lemma_funs_facts(
    n0: int,
    nf0: int,
    bs: Set<usize>,
    bs_mid: Set<usize>,
    mid: Seq<BasicBlock>,
    now: Seq<BasicBlock>,
    midf: Seq<FunBlock>,
    nowf: Seq<FunBlock>,
)
    requires
        0 <= n0 <= mid.len(),
        mid.is_prefix_of(now),
        0 <= nf0 <= midf.len(),
        midf.is_prefix_of(nowf),
        bs_mid.subset_of(new_lbls(bs, n0, mid)),
        forall|j: int|
            nf0 <= j < midf.len() ==> new_lbls(bs, n0, mid).contains(
                (#[trigger] midf[j]).body.target.index,
            ),
        forall|j: int|
            midf.len() <= j < nowf.len() ==> new_lbls(bs_mid, mid.len() as int, now).contains(
                (#[trigger] nowf[j]).body.target.index,
            ),
    ensures
        forall|j: int|
            nf0 <= j < nowf.len() ==> new_lbls(bs, n0, now).contains(
                (#[trigger] nowf[j]).body.target.index,
            ),
{
    lemma_chain(n0, bs, bs_mid, mid, now);
    assert(nowf.subrange(0, midf.len() as int) =~= midf);
    assert forall|j: int| nf0 <= j < nowf.len() implies new_lbls(bs, n0, now).contains(
        (#[trigger] nowf[j]).body.target.index,
    ) by {
        if j < midf.len() {
            assert(nowf[j] == midf[j]);
        }
    }
}

/* ------------------------ The environment invariant ------------------------ */

/// Every local function in scope captures only variables on the lexical
/// stack, and its tail block's label is in scope.
spec fn env_inv(e: Env, bs: Set<usize>) -> bool {
    forall|k: FunKey|
        fmodel(e).dom().contains(k) ==> match #[trigger] fmodel(e)[k] {
            FunType::Extern => true,
            FunType::Local { captured, block_name, .. } => sparams(captured@).subset_of(
                locals_set(e),
            ) && bs.contains(block_name.index),
        }
}

/// Pushing variables onto the lexical stack only grows its index set.
proof fn lemma_locals_grow(a: Seq<VarName>, b: Seq<VarName>)
    requires
        a.is_prefix_of(b),
    ensures
        sparams(a).subset_of(sparams(b)),
{
    assert forall|x: usize| sparams(a).contains(x) implies sparams(b).contains(x) by {
        let j = choose|j: int| 0 <= j < a.len() && (#[trigger] a[j]).index == x;
        assert(b.subrange(0, a.len() as int) =~= a);
        assert(b[j] == a[j]);
    }
}

/// The variable scope of a chain position after minting `j` temporaries.
pub open spec fn vars_plus(vs: Set<usize>, ps: Seq<VarName>, j: int) -> Set<usize>
    decreases j,
{
    if j <= 0 {
        vs
    } else {
        vars_plus(vs, ps, j - 1).insert(ps[j - 1].index)
    }
}

proof fn lemma_vars_plus_grow(vs: Set<usize>, ps: Seq<VarName>, j: int)
    ensures
        vs.subset_of(vars_plus(vs, ps, j)),
    decreases j,
{
    if j > 0 {
        lemma_vars_plus_grow(vs, ps, j - 1);
    }
}

proof fn lemma_vars_plus_elem(vs: Set<usize>, ps: Seq<VarName>, j: int, j2: int)
    requires
        0 <= j2 < j,
    ensures
        vars_plus(vs, ps, j).contains(ps[j2].index),
    decreases j,
{
    if j2 < j - 1 {
        lemma_vars_plus_elem(vs, ps, j - 1, j2);
    }
}

proof fn lemma_sparams_push(l: Seq<VarName>, v: VarName)
    ensures
        sparams(l.push(v)) == sparams(l).insert(v.index),
{
    assert forall|x: usize| sparams(l.push(v)).contains(x) implies sparams(l).insert(
        v.index,
    ).contains(x) by {
        let j = choose|j: int| 0 <= j < l.push(v).len() && (#[trigger] l.push(v)[j]).index == x;
        if j < l.len() {
            assert(l[j] == l.push(v)[j]);
        }
    }
    assert forall|x: usize| sparams(l).insert(v.index).contains(x) implies sparams(
        l.push(v),
    ).contains(x) by {
        if x == v.index {
            assert(l.push(v)[l.len() as int].index == x);
        } else {
            let j = choose|j: int| 0 <= j < l.len() && (#[trigger] l[j]).index == x;
            assert(l.push(v)[j].index == x);
        }
    }
    assert(sparams(l.push(v)) =~= sparams(l).insert(v.index));
}

/// The environment invariant survives growing the lexical stack.
proof fn lemma_env_inv_grow(e1: Env, e2: Env, bs: Set<usize>)
    requires
        env_inv(e1, bs),
        fmodel(e2) == fmodel(e1),
        e1.locals@.is_prefix_of(e2.locals@),
    ensures
        env_inv(e2, bs),
{
    lemma_locals_grow(e1.locals@, e2.locals@);
    assert forall|k: FunKey| fmodel(e2).dom().contains(k) implies match #[trigger] fmodel(e2)[k] {
        FunType::Extern => true,
        FunType::Local { captured, block_name, .. } => sparams(captured@).subset_of(locals_set(e2))
            && bs.contains(block_name.index),
    } by {
        assert(fmodel(e1).dom().contains(k));
        assert(fmodel(e2)[k] == fmodel(e1)[k]);
    }
}

/// A set below another stays below it after adding the same binders.
proof fn lemma_binder_set_subset(a: Set<usize>, b: Set<usize>, sbs: Seq<BoundBinding>, j: int)
    requires
        a.subset_of(b),
    ensures
        binder_set(a, sbs, j).subset_of(binder_set(b, sbs, j)),
    decreases j,
{
    if j > 0 {
        lemma_binder_set_subset(a, b, sbs, j - 1);
    }
}

/// Minted labels only accumulate.
proof fn lemma_minted_push(m: Seq<(FunName, Vec<VarName>, BlockName)>, x: (FunName, Vec<VarName>, BlockName))
    ensures
        minted_lbls(m).subset_of(minted_lbls(m.push(x))),
        minted_lbls(m.push(x)).contains(x.2.index),
{
    assert forall|l: usize| minted_lbls(m).contains(l) implies minted_lbls(m.push(x)).contains(
        l,
    ) by {
        let j = choose|j: int| 0 <= j < m.len() && (#[trigger] m[j]).2.index == l;
        assert(m.push(x)[j] == m[j]);
    }
    assert(m.push(x)[m.len() as int] == x);
}

/// A parameter-prefix set is covered by any set that holds the base and
/// each parameter's index.
proof fn lemma_decl_params_set_in(a: Set<usize>, b: Set<usize>, ps: Seq<(VarName, SrcLoc)>, j: int)
    requires
        a.subset_of(b),
        forall|p: int| 0 <= p < j ==> b.contains((#[trigger] ps[p]).0.index),
    ensures
        decl_params_set(a, ps, j).subset_of(b),
    decreases j,
{
    if j > 0 {
        lemma_decl_params_set_in(a, b, ps, j - 1);
    }
}

/// Membership of a concatenation's pieces.
proof fn lemma_sparams_concat(a: Seq<VarName>, b: Seq<VarName>)
    ensures
        sparams(a + b) == sparams(a).union(sparams(b)),
{
    assert forall|x: usize| sparams(a + b).contains(x) implies sparams(a).union(
        sparams(b),
    ).contains(x) by {
        let j = choose|j: int| 0 <= j < (a + b).len() && (#[trigger] (a + b)[j]).index == x;
        if j < a.len() {
            assert(a[j] == (a + b)[j]);
        } else {
            assert(b[j - a.len()] == (a + b)[j]);
        }
    }
    assert forall|x: usize| sparams(a).union(sparams(b)).contains(x) implies sparams(
        a + b,
    ).contains(x) by {
        if sparams(a).contains(x) {
            let j = choose|j: int| 0 <= j < a.len() && (#[trigger] a[j]).index == x;
            assert((a + b)[j].index == x);
        } else {
            let j = choose|j: int| 0 <= j < b.len() && (#[trigger] b[j]).index == x;
            assert((a + b)[a.len() + j].index == x);
        }
    }
    assert(sparams(a + b) =~= sparams(a).union(sparams(b)));
}


/* ------------------------- What lowering produces ------------------------- */

// `lowered` relates a bound expression, a continuation and the function
// scope to the block body that lowering builds for them.  A derivation
// (`LTrace`) records the names the translation mints and the
// intermediate bodies it wraps; `lowers_via` checks a derivation, one
// clause per constructor, and `lowered` closes over it.  The shapes —
// the strict left-to-right argument chains, the tail-call branch, the
// conditional clusters, the per-primitive operation sequences — are
// pinned.

/// The immediates reading the given variables, in order.
pub open spec fn var_imms(vs: Seq<VarName>) -> Seq<Immediate> {
    Seq::new(vs.len(), |i: int| Immediate::Var(vs[i]))
}

/// The variables binding the first `j` binders of a `let`, in order.
pub open spec fn bvars(sbs: Seq<BoundBinding>, j: int) -> Seq<VarName> {
    Seq::new(j as nat, |i: int| sbs[i].var.0)
}

/// The declared parameter variables of a declaration, in order.
pub open spec fn pvars(ps: Seq<(VarName, SrcLoc)>) -> Seq<VarName> {
    Seq::new(ps.len(), |i: int| ps[i].0)
}

/// The continuation materialised on an immediate.
pub open spec fn invoked(k: Continuation, imm: Immediate, r: BlockBody) -> bool {
    match k {
        Continuation::Return => r == BlockBody::Terminator(Terminator::Return(imm)),
        Continuation::Block(d, b) => r is Operation && r->Operation_dest == d
            && r->Operation_op == Operation::Immediate(imm) && *r->Operation_next == b,
    }
}

/// One operation node: destination, operation, and what follows.
pub open spec fn op_node(b: BlockBody, d: VarName, op: Operation, nxt: BlockBody) -> bool {
    b is Operation && b->Operation_dest == d && b->Operation_op == op && *b->Operation_next
        == nxt
}

/// One call node: its arguments are pinned at the view level, since a
/// call operation holds them in a vector.
pub open spec fn call_node(
    b: BlockBody,
    d: VarName,
    f: FunName,
    argv: Seq<Immediate>,
    nxt: BlockBody,
) -> bool {
    &&& b is Operation
    &&& b->Operation_dest == d
    &&& b->Operation_op matches Operation::Call { fun, args } && fun == f && args@ == argv
    &&& *b->Operation_next == nxt
}

/// The destination of a primitive or call, and what follows it: the
/// continuation's own pair, or a fresh result returned directly.
pub open spec fn dest_next_of(k: Continuation, dest: VarName, next: BlockBody) -> bool {
    match k {
        Continuation::Block(d, b) => dest == d && next == b,
        Continuation::Return => next == BlockBody::Terminator(
            Terminator::Return(Immediate::Var(dest)),
        ),
    }
}

/// The mapping of binary surface operators onto machine operators.
pub open spec fn prim2_of(p: crate::ast::Prim) -> Prim2 {
    match p {
        crate::ast::Prim::Add => Prim2::Add,
        crate::ast::Prim::Sub => Prim2::Sub,
        crate::ast::Prim::Mul => Prim2::Mul,
        crate::ast::Prim::Lt => Prim2::Lt,
        crate::ast::Prim::Le => Prim2::Le,
        crate::ast::Prim::Gt => Prim2::Gt,
        crate::ast::Prim::Ge => Prim2::Ge,
        crate::ast::Prim::Eq => Prim2::Eq,
        _ => Prim2::Neq,
    }
}

/// The operation sequence a primitive compiles to, its arguments already
/// sitting in the temporaries: `add1`/`sub1` become an add or subtract
/// of one; `!` normalises through the auxiliary temporary and flips the
/// low bit; `&&`/`||` normalise both sides to 0 or 1 first; the rest map
/// to one machine operation.
pub open spec fn prim_core(
    p: crate::ast::Prim,
    temps: Seq<VarName>,
    aux: Seq<VarName>,
    steps: Seq<BlockBody>,
    dest: VarName,
    next: BlockBody,
    core: BlockBody,
) -> bool {
    match p {
        crate::ast::Prim::Add1 => op_node(
            core,
            dest,
            Operation::Prim2(Prim2::Add, Immediate::Var(temps[0]), Immediate::Const(1)),
            next,
        ),
        crate::ast::Prim::Sub1 => op_node(
            core,
            dest,
            Operation::Prim2(Prim2::Sub, Immediate::Var(temps[0]), Immediate::Const(1)),
            next,
        ),
        crate::ast::Prim::Not => {
            &&& aux.len() == 1
            &&& steps.len() == 1
            &&& op_node(
                core,
                aux[0],
                Operation::Prim1(Prim1::IntToBool, Immediate::Var(temps[0])),
                steps[0],
            )
            &&& op_node(
                steps[0],
                dest,
                Operation::Prim2(Prim2::BitXor, Immediate::Var(aux[0]), Immediate::Const(1)),
                next,
            )
        },
        crate::ast::Prim::And | crate::ast::Prim::Or => {
            &&& aux.len() == 2
            &&& steps.len() == 2
            &&& op_node(
                core,
                aux[0],
                Operation::Prim1(Prim1::IntToBool, Immediate::Var(temps[0])),
                steps[0],
            )
            &&& op_node(
                steps[0],
                aux[1],
                Operation::Prim1(Prim1::IntToBool, Immediate::Var(temps[1])),
                steps[1],
            )
            &&& op_node(
                steps[1],
                dest,
                Operation::Prim2(
                    if p is And {
                        Prim2::BitAnd
                    } else {
                        Prim2::BitOr
                    },
                    Immediate::Var(aux[0]),
                    Immediate::Var(aux[1]),
                ),
                next,
            )
        },
        _ => op_node(
            core,
            dest,
            Operation::Prim2(
                prim2_of(p),
                Immediate::Var(temps[0]),
                Immediate::Var(temps[1]),
            ),
            next,
        ),
    }
}

/// One registration step of a declaration group: the key is bound to the
/// lifted name, the capture snapshot and the tail label; everything else
/// is untouched.
pub open spec fn genv_step(
    prev: Map<FunKey, FunType>,
    next: Map<FunKey, FunType>,
    key: FunKey,
    lf: FunName,
    locals: Seq<VarName>,
    bn: BlockName,
) -> bool {
    &&& next.dom() == prev.dom().insert(key)
    &&& forall|k: FunKey| k != key && prev.dom().contains(k) ==> #[trigger] next[k] == prev[k]
    &&& next.dom().contains(key)
    &&& next[key] matches FunType::Local { lifted: l, captured: c, block_name: b } && l == lf
        && c@ == locals && b == bn
}

/// A jump into a join block delivering one variable.
pub open spec fn join_jump(b: BlockBody, l: BlockName, v: VarName) -> bool {
    &&& b is Terminator
    &&& b->Terminator_0 matches Terminator::Branch(br) && br.target == l && br.args@ == seq![
        Immediate::Var(v),
    ]
}

/// A derivation of the lowering relation: the names the translation
/// mints and the intermediate bodies it wraps, one node per source
/// expression.  `lowers_via` checks a derivation; the relation proper is
/// its existential closure, `lowered`.
pub enum LTrace {
    Atom,
    PrimT {
        temps: Seq<VarName>,
        aux: Seq<VarName>,
        steps: Seq<BlockBody>,
        dest: VarName,
        next: BlockBody,
        core: BlockBody,
        rmids: Seq<BlockBody>,
        rsubs: Seq<LTrace>,
    },
    LetT { inner: BlockBody, rmids: Seq<BlockBody>, rsubs: Seq<LTrace>, body: Box<LTrace> },
    IfT {
        cv: VarName,
        tl: BlockName,
        el: BlockName,
        condt: Box<LTrace>,
        tht: Box<LTrace>,
        elt: Box<LTrace>,
        tv: VarName,
        ev: VarName,
        jl: BlockName,
        tj: BlockBody,
        ej: BlockBody,
    },
    FunT {
        lifted: Seq<FunName>,
        labels: Seq<BlockName>,
        hist: Seq<Map<FunKey, FunType>>,
        body: Box<LTrace>,
    },
    CallT {
        temps: Seq<VarName>,
        res: VarName,
        nxt: BlockBody,
        core: BlockBody,
        rmids: Seq<BlockBody>,
        rsubs: Seq<LTrace>,
    },
}

/// The argument chain of a primitive or call: `rmids[0]` is the core
/// operation, each argument's operations wrap around it — argument
/// `n-1-j` delivers its temporary and is wrapped by the arguments
/// before it, so at run time the arguments evaluate left to right —
/// and `rmids[n]` is the whole returned body.
pub open spec fn chain_via(
    args: Seq<BoundExpr>,
    temps: Seq<VarName>,
    rmids: Seq<BlockBody>,
    rsubs: Seq<LTrace>,
    fm: Map<FunKey, FunType>,
    locals: Seq<VarName>,
    core: BlockBody,
    r: BlockBody,
) -> bool
    decreases rsubs,
{
    &&& temps.len() == args.len()
    &&& rmids.len() == args.len() + 1
    &&& rsubs.len() == args.len()
    &&& rmids[0] == core
    &&& rmids[args.len() as int] == r
    &&& forall|j: int|
        0 <= j < args.len() ==> lowers_via(
            #[trigger] rsubs[j],
            args[args.len() - 1 - j],
            Continuation::Block(temps[args.len() - 1 - j], rmids[j]),
            fm,
            locals,
            rmids[j + 1],
        )
}

/// The right-hand-side chain of a `let`: as `chain_via`, but each
/// right-hand side delivers its own binder and sees the binders before
/// it on the lexical stack.
pub open spec fn let_chain_via(
    sbs: Seq<BoundBinding>,
    rmids: Seq<BlockBody>,
    rsubs: Seq<LTrace>,
    fm: Map<FunKey, FunType>,
    locals: Seq<VarName>,
    inner: BlockBody,
    r: BlockBody,
) -> bool
    decreases rsubs,
{
    &&& rmids.len() == sbs.len() + 1
    &&& rsubs.len() == sbs.len()
    &&& rmids[0] == inner
    &&& rmids[sbs.len() as int] == r
    &&& forall|j: int|
        0 <= j < sbs.len() ==> lowers_via(
            #[trigger] rsubs[j],
            sbs[sbs.len() - 1 - j].expr,
            Continuation::Block(sbs[sbs.len() - 1 - j].var.0, rmids[j]),
            fm,
            locals + bvars(sbs, sbs.len() - 1 - j),
            rmids[j + 1],
        )
}

/// The lifted names a declaration group minted, in order.
pub open spec fn lift_of(m: Seq<(FunName, Vec<VarName>, BlockName)>) -> Seq<FunName> {
    Seq::new(m.len(), |j: int| m[j].0)
}

/// The shared tail labels a declaration group minted, in order.
pub open spec fn lab_of(m: Seq<(FunName, Vec<VarName>, BlockName)>) -> Seq<BlockName> {
    Seq::new(m.len(), |j: int| m[j].2)
}

/// The registration history of a declaration group: step `q` binds
/// declaration `q` to its lifted name, the capture snapshot — the whole
/// lexical stack — and its tail label.
pub open spec fn genv_hist(
    hist: Seq<Map<FunKey, FunType>>,
    decls: Seq<crate::ast::BoundFunDecl>,
    lifted: Seq<FunName>,
    labels: Seq<BlockName>,
    locals: Seq<VarName>,
    fm: Map<FunKey, FunType>,
) -> bool {
    &&& hist.len() == decls.len() + 1
    &&& hist[0] == fm
    &&& forall|q: int|
        0 <= q < decls.len() ==> genv_step(
            #[trigger] hist[q],
            hist[q + 1],
            fun_key(decls[q].name),
            lifted[q],
            locals,
            labels[q],
        )
}

/// The derivation `tr` lowers `e` under continuation `k` to the block
/// body `r`: one clause per constructor, as the translation prescribes.
pub open spec fn lowers_via(
    tr: LTrace,
    e: BoundExpr,
    k: Continuation,
    fm: Map<FunKey, FunType>,
    locals: Seq<VarName>,
    r: BlockBody,
) -> bool
    decreases tr,
{
    match e {
        Expr::Num(n, _) => tr is Atom && invoked(k, Immediate::Const(n), r),
        Expr::Bool(b, _) => tr is Atom && invoked(k, Immediate::Const(if b { 1 } else { 0 }), r),
        Expr::Var(v, _) => tr is Atom && invoked(k, Immediate::Var(v), r),
        Expr::Prim { prim, args, .. } => tr matches LTrace::PrimT {
            temps,
            aux,
            steps,
            dest,
            next,
            core,
            rmids,
            rsubs,
        } && dest_next_of(k, dest, next) && prim_core(prim, temps, aux, steps, dest, next, core)
            && chain_via(args@, temps, rmids, rsubs, fm, locals, core, r),
        Expr::Let { bindings, body, .. } => tr matches LTrace::LetT { inner, rmids, rsubs, body: bt }
            && lowers_via(
            *bt,
            *body,
            k,
            fm,
            locals + bvars(bindings@, bindings@.len() as int),
            inner,
        ) && let_chain_via(bindings@, rmids, rsubs, fm, locals, inner, r),
        Expr::If { cond, thn, els, .. } => tr matches LTrace::IfT {
            cv,
            tl,
            el,
            condt,
            tht,
            elt,
            tv,
            ev,
            jl,
            tj,
            ej,
        } && {
            &&& r is SubBlocks
            &&& lowers_via(
                *condt,
                *cond,
                Continuation::Block(
                    cv,
                    BlockBody::Terminator(
                        Terminator::ConditionalBranch {
                            cond: Immediate::Var(cv),
                            thn: tl,
                            els: el,
                        },
                    ),
                ),
                fm,
                locals,
                *r->SubBlocks_next,
            )
            &&& match k {
                Continuation::Return => {
                    let cl = r->SubBlocks_blocks@;
                    &&& cl.len() == 2
                    &&& cl[0].label == tl
                    &&& cl[0].params@ == Seq::<VarName>::empty()
                    &&& lowers_via(*tht, *thn, Continuation::Return, fm, locals, cl[0].body)
                    &&& cl[1].label == el
                    &&& cl[1].params@ == Seq::<VarName>::empty()
                    &&& lowers_via(*elt, *els, Continuation::Return, fm, locals, cl[1].body)
                },
                Continuation::Block(d, kb) => {
                    let cl = r->SubBlocks_blocks@;
                    &&& cl.len() == 3
                    &&& cl[0].label == tl
                    &&& cl[0].params@ == Seq::<VarName>::empty()
                    &&& join_jump(tj, jl, tv)
                    &&& lowers_via(*tht, *thn, Continuation::Block(tv, tj), fm, locals, cl[0].body)
                    &&& cl[1].label == el
                    &&& cl[1].params@ == Seq::<VarName>::empty()
                    &&& join_jump(ej, jl, ev)
                    &&& lowers_via(*elt, *els, Continuation::Block(ev, ej), fm, locals, cl[1].body)
                    &&& cl[2].label == jl
                    &&& cl[2].params@ == seq![d]
                    &&& cl[2].body == kb
                },
            }
        },
        Expr::FunDefs { decls, body, .. } => tr matches LTrace::FunT { lifted, labels, hist, body: bt }
            && {
            &&& lifted.len() == decls@.len()
            &&& labels.len() == decls@.len()
            &&& forall|j: int|
                0 <= j < decls@.len() ==> (#[trigger] lifted[j]) is Mangled
                    && crate::identifiers::fun_hint_of(lifted[j])
                    == crate::identifiers::fun_hint_of(decls@[j].name)
            &&& genv_hist(hist, decls@, lifted, labels, locals, fm)
            &&& lowers_via(*bt, *body, k, hist[decls@.len() as int], locals, r)
        },
        Expr::Call { fun, args, .. } => tr matches LTrace::CallT {
            temps,
            res,
            nxt,
            core,
            rmids,
            rsubs,
        } && fm.dom().contains(fun_key(fun)) && call_core(fun, k, fm, temps, res, nxt, core)
            && chain_via(args@, temps, rmids, rsubs, fm, locals, core, r),
    }
}

/// The translation builds `r` for `e` under `k`: some derivation checks.
pub open spec fn lowered(
    e: BoundExpr,
    k: Continuation,
    fm: Map<FunKey, FunType>,
    locals: Seq<VarName>,
    r: BlockBody,
) -> bool {
    exists|tr: LTrace| #[trigger] lowers_via(tr, e, k, fm, locals, r)
}

/// The scope the program body is lowered under: every extern bound to
/// its runtime call, and the entry itself bound as a local function with
/// an empty capture list whose shared tail block is `lbl`.
pub open spec fn entry_scope_ok(prog: BoundProg, fm: Map<FunKey, FunType>, lbl: BlockName) -> bool {
    &&& fm.dom() == pair_keys(
        ext_pairs(
            Set::empty().insert((prog.name, 1int)),
            prog.externs@,
            prog.externs@.len() as int,
        ),
    )
    &&& fm.dom().contains(fun_key(prog.name))
    &&& (fm[fun_key(prog.name)] matches FunType::Local { lifted, captured, block_name }
        && lifted == prog.name && captured@ == Seq::<VarName>::empty() && block_name == lbl)
    &&& forall|k: FunKey|
        fm.dom().contains(k) && k != fun_key(prog.name) ==> (#[trigger] fm[k]) is Extern
}

/// What lowering a whole program produces: the extern table carried
/// over name for name, one entry function whose branch forwards its
/// parameter into the tail block that closes the block list, every
/// further function entry lambda-lifted under a minted name, and the
/// tail block's body related to the program body by the lowering
/// relation under the entry scope.
pub open spec fn prog_lowered(prog: BoundProg, r: Program) -> bool {
    &&& r.externs@.len() == prog.externs@.len()
    &&& forall|i: int|
        0 <= i < prog.externs@.len() ==> (#[trigger] r.externs@[i]).name
            == prog.externs@[i].name && r.externs@[i].params@ == pvars(prog.externs@[i].params@)
    &&& r.funs@.len() >= 1
    &&& r.funs@[0].name == prog.name
    &&& r.funs@[0].params@.len() == 1
    &&& r.funs@[0].body.args@ == seq![Immediate::Var(r.funs@[0].params@[0])]
    &&& forall|i: int| 1 <= i < r.funs@.len() ==> (#[trigger] r.funs@[i]).name is Mangled
    &&& r.blocks@.len() >= 1
    &&& r.blocks@[r.blocks@.len() - 1].label == r.funs@[0].body.target
    &&& r.blocks@[r.blocks@.len() - 1].params@ == seq![prog.param.0]
    &&& exists|fm: Map<FunKey, FunType>|
        #[trigger] entry_scope_ok(prog, fm, r.funs@[0].body.target) && lowered(
            prog.body,
            Continuation::Return,
            fm,
            seq![prog.param.0],
            r.blocks@[r.blocks@.len() - 1].body,
        )
}

/// The operation a call compiles to, its arguments already in the
/// temporaries: a runtime call delivering into a fresh result for an
/// external function; for a local function, the tail-call branch into
/// the shared tail block when in tail position — no call operation and
/// no new frame — and otherwise a call of the lifted entry, the
/// captured snapshot appended to the arguments either way.
pub open spec fn call_core(
    f: FunName,
    k: Continuation,
    fm: Map<FunKey, FunType>,
    temps: Seq<VarName>,
    res: VarName,
    nxt: BlockBody,
    core: BlockBody,
) -> bool {
    match fm[fun_key(f)] {
        FunType::Extern => call_node(core, res, f, var_imms(temps), nxt) && invoked(
            k,
            Immediate::Var(res),
            nxt,
        ),
        FunType::Local { lifted, captured, block_name } => match k {
            Continuation::Return => {
                &&& core is Terminator
                &&& core->Terminator_0 matches Terminator::Branch(br) && br.target == block_name
                    && br.args@ == var_imms(temps) + var_imms(captured@)
            },
            Continuation::Block(d, kb) => call_node(
                core,
                d,
                lifted,
                var_imms(temps) + var_imms(captured@),
                kb,
            ),
        },
    }
}

/* --------------------------------- Lowerer -------------------------------- */

/// Whether the expression being lowered is in tail position (`Return`),
/// or its value should be bound to a destination and lowering should
/// continue with the given body (`Block`).
pub enum Continuation {
    Return,
    Block(VarName, BlockBody),
}

impl Continuation {
    /// Materialise the continuation on an immediate: a `Return`
    /// continuation returns it; a `Block` continuation assigns it to the
    /// destination and proceeds with the stored body.
    fn invoke(self, imm: Immediate) -> (r: BlockBody)
        ensures
            self is Return ==> r == BlockBody::Terminator(Terminator::Return(imm)),
            self is Block ==> r is Operation && r->Operation_dest == self->Block_0
                && r->Operation_op == Operation::Immediate(imm) && *r->Operation_next
                == self->Block_1,
    {
        match self {
            Continuation::Return => BlockBody::Terminator(Terminator::Return(imm)),
            Continuation::Block(dest, next) => BlockBody::Operation {
                dest,
                op: Operation::Immediate(imm),
                next: Box::new(next),
            },
        }
    }
}

/// The lowerer carries the identifier generators, continuing the
/// numbering that resolution started.
pub struct Lowerer {
    pub vars: IdGen<VarName>,
    pub funs: IdGen<FunName>,
    pub blocks: IdGen<BlockName>,
}

/// The sequence `c` extends `a` and every added function entry carries a
/// mangled (lifted) name.
pub open spec fn funs_extended(a: Seq<FunBlock>, c: Seq<FunBlock>) -> bool {
    a.is_prefix_of(c) && forall|i: int|
        a.len() <= i < c.len() ==> (#[trigger] c[i]).name is Mangled
}

proof fn lemma_funs_extended_trans(a: Seq<FunBlock>, b: Seq<FunBlock>, c: Seq<FunBlock>)
    requires
        funs_extended(a, b),
        funs_extended(b, c),
    ensures
        funs_extended(a, c),
{
    assert(a.is_prefix_of(c)) by {
        assert(c.subrange(0, b.len() as int) =~= b);
        assert(c.subrange(0, a.len() as int) =~= b.subrange(0, a.len() as int));
    }
    assert forall|i: int| a.len() <= i < c.len() implies (#[trigger] c[i]).name is Mangled by {
        if i < b.len() {
            assert(c.subrange(0, b.len() as int) =~= b);
            assert(c[i] == b[i]);
        }
    }
}

proof fn lemma_prefix_trans(a: Seq<BasicBlock>, b: Seq<BasicBlock>, c: Seq<BasicBlock>)
    requires
        a.is_prefix_of(b),
        b.is_prefix_of(c),
    ensures
        a.is_prefix_of(c),
{
    assert(c.subrange(0, b.len() as int) =~= b);
    assert(c.subrange(0, a.len() as int) =~= b.subrange(0, a.len() as int));
}

impl Lowerer {
    /// Take over the identifier generators from the resolver.
    pub fn from(resolver: Resolver) -> (r: Self)
        ensures
            r.vars == resolver.vars,
            r.funs == resolver.funs,
            r.blocks.count == 0,
    {
        let Resolver { vars, funs } = resolver;
        Lowerer { vars, funs, blocks: IdGen::new() }
    }
}

/// A hint of the form `base_i`.
fn hint_indexed(base: &str, i: usize) -> (r: String)
    ensures
        r@ == base@ + "_"@ + crate::digits::spec_udec(i as nat),
{
    let mut buf = base.to_owned();
    buf.append("_");
    crate::digits::push_usize_dec(&mut buf, i);
    proof {
        assert(buf@ =~= base@ + "_"@ + crate::digits::spec_udec(i as nat));
    }
    buf
}

/// A hint of the form `base_suffix`.
fn hint_suffixed(base: &str, suffix: &str) -> (r: String)
    ensures
        r@ == base@ + "_"@ + suffix@,
{
    let mut buf = base.to_owned();
    buf.append("_");
    buf.append(suffix);
    proof {
        assert(buf@ =~= base@ + "_"@ + suffix@);
    }
    buf
}

/// The display token of a surface primitive, used in variable hints.
fn prim_token(p: &crate::ast::Prim) -> &'static str {
    match p {
        crate::ast::Prim::Add1 => "add1",
        crate::ast::Prim::Sub1 => "sub1",
        crate::ast::Prim::Not => "!",
        crate::ast::Prim::Add => "+",
        crate::ast::Prim::Sub => "-",
        crate::ast::Prim::Mul => "*",
        crate::ast::Prim::And => "&&",
        crate::ast::Prim::Or => "||",
        crate::ast::Prim::Lt => "<",
        crate::ast::Prim::Le => "<=",
        crate::ast::Prim::Gt => ">",
        crate::ast::Prim::Ge => ">=",
        crate::ast::Prim::Eq => "==",
        crate::ast::Prim::Neq => "!=",
    }
}

/// The labels of the tail blocks minted for a declaration group.
spec fn minted_lbls(ms: Seq<(FunName, Vec<VarName>, BlockName)>) -> Set<usize> {
    Set::new(
        |l: usize| exists|j: int| 0 <= j < ms.len() && (#[trigger] ms[j]).2.index == l,
    )
}

impl Lowerer {
    /// Lower one expression under the given continuation, appending the
    /// lifted function entries and tail blocks to `funs` and `blocks`.
    ///
    /// The ghost arguments carry the slot-discipline bookkeeping: `ls`
    /// is the lexical scope of the expression, `vs` the variables with a
    /// slot at the placement point, `bs` the block labels the functions
    /// in scope branch to, and `bsk` additionally the labels the
    /// continuation's stored body branches to.  The returned body reads
    /// only defined variables and branches only to labels in scope or
    /// appended by this very call.
    #[verifier::loop_isolation(false)]
    #[verifier::rlimit(100)]
    fn lower_expr_kont(
        &mut self,
        expr: &BoundExpr,
        k: Continuation,
        env: Env,
        funs: &mut Vec<FunBlock>,
        blocks: &mut Vec<BasicBlock>,
        Ghost(ls): Ghost<Set<usize>>,
        Ghost(vs): Ghost<Set<usize>>,
        Ghost(bs): Ghost<Set<usize>>,
        Ghost(bsk): Ghost<Set<usize>>,
    ) -> (r: (BlockBody, Ghost<LTrace>))
        requires
            lower_ok(*expr, ls, fdom(env)),
            ls.subset_of(locals_set(env)),
            locals_set(env).subset_of(vs),
            env_inv(env, bs),
            bs.subset_of(bsk),
            k is Block ==> sbody_ok(k->Block_1, vs.insert(k->Block_0.index), bsk),
        ensures
            funs_extended(old(funs)@, final(funs)@),
            old(blocks)@.is_prefix_of(final(blocks)@),
            lowers_via(r.1@, *expr, k, fmodel(env), env.locals@, r.0),
            sbody_ok(r.0, vs, new_lbls(bsk, old(blocks)@.len() as int, final(blocks)@)),
            forall|j: int|
                old(blocks)@.len() <= j < final(blocks)@.len() ==> sbody_ok(
                    (#[trigger] final(blocks)@[j]).body,
                    sparams(final(blocks)@[j].params@),
                    new_lbls(bs, old(blocks)@.len() as int, final(blocks)@),
                ),
            forall|j: int|
                old(funs)@.len() <= j < final(funs)@.len() ==> new_lbls(
                    bs,
                    old(blocks)@.len() as int,
                    final(blocks)@,
                ).contains((#[trigger] final(funs)@[j]).body.target.index),
        decreases *expr,
    {
        let ghost n0 = blocks@.len() as int;
        let ghost nf0 = funs@.len() as int;
        match expr {
            Expr::Num(n, _) => {
                let r = k.invoke(Immediate::Const(*n));
                proof {
                    lemma_new_lbls_base(bsk, blocks@);
                    lemma_new_lbls_base(bs, blocks@);
                    assert(sbody_ok(r, vs, bsk));
                    assert(invoked(k, Immediate::Const(*n), r));
                }
                (r, Ghost(LTrace::Atom))
            },
            Expr::Bool(b, _) => {
                let r = k.invoke(Immediate::Const(if *b { 1 } else { 0 }));
                proof {
                    lemma_new_lbls_base(bsk, blocks@);
                    lemma_new_lbls_base(bs, blocks@);
                    assert(sbody_ok(r, vs, bsk));
                    assert(invoked(k, Immediate::Const(if *b { 1int as i64 } else { 0 }), r));
                }
                (r, Ghost(LTrace::Atom))
            },
            Expr::Var(v, _) => {
                let r = k.invoke(Immediate::Var(v.clone()));
                proof {
                    lemma_new_lbls_base(bsk, blocks@);
                    lemma_new_lbls_base(bs, blocks@);
                    assert(vs.contains(v.index));
                    assert(sbody_ok(r, vs, bsk));
                    assert(invoked(k, Immediate::Var(*v), r));
                }
                (r, Ghost(LTrace::Atom))
            },
            Expr::Prim { prim, args, .. } => {
                // A temporary variable holds each argument's value.
                let token = prim_token(prim);
                let n = args.len();
                let mut args_var: Vec<VarName> = Vec::new();
                let mut i: usize = 0;
                while i < n
                    invariant
                        i <= n,
                        args_var@.len() == i as nat,
                        n == args@.len(),
                    decreases n - i,
                {
                    let hint = hint_indexed(token, i);
                    let var: VarName = self.vars.fresh(hint.as_str());
                    args_var.push(var);
                    i = i + 1;
                }
                let ghost tvars = args_var@;
                let ghost ts_n = vars_plus(vs, tvars, n as int);
                let ghost fm0 = fmodel(env);
                let ghost l0 = env.locals@;
                proof {
                    lemma_vars_plus_grow(vs, tvars, n as int);
                    if n >= 1 {
                        lemma_vars_plus_elem(vs, tvars, n as int, 0);
                    }
                    if n >= 2 {
                        lemma_vars_plus_elem(vs, tvars, n as int, 1);
                    }
                }
                // The destination of the final operation, and what follows it.
                let (dest, next) = match k {
                    Continuation::Block(res, kbody) => {
                        proof {
                            lemma_sbody_mono(
                                kbody,
                                vs.insert(res.index),
                                ts_n.insert(res.index),
                                bsk,
                                bsk,
                            );
                        }
                        (res, kbody)
                    },
                    Continuation::Return => {
                        let hint = hint_suffixed(token, "res");
                        let res: VarName = self.vars.fresh(hint.as_str());
                        let nxt = BlockBody::Terminator(Terminator::Return(Immediate::Var(res.clone())));
                        proof {
                            assert(sbody_ok(nxt, ts_n.insert(res.index), bsk));
                        }
                        (res, nxt)
                    },
                };
                let ghost dest_g = dest;
                let ghost next_g = next;
                let ghost aux_none: Seq<VarName> = Seq::empty();
                let ghost steps_none: Seq<BlockBody> = Seq::empty();
                let ghost mut aux_w: Seq<VarName> = Seq::empty();
                let ghost mut steps_w: Seq<BlockBody> = Seq::empty();
                proof {
                    assert(dest_next_of(k, dest_g, next_g));
                }
                // The final operation itself.
                let block = match prim {
                    crate::ast::Prim::Add1 => {
                        let b = BlockBody::Operation {
                            dest,
                            op: Operation::Prim2(
                                Prim2::Add,
                                Immediate::Var(args_var[0].clone()),
                                Immediate::Const(1),
                            ),
                            next: Box::new(next),
                        };
                        proof {
                            assert(sbody_ok(b, ts_n, bsk));
                            assert(prim_core(*prim, tvars, aux_none, steps_none, dest_g, next_g, b));
                        }
                        b
                    },
                    crate::ast::Prim::Sub1 => {
                        let b = BlockBody::Operation {
                            dest,
                            op: Operation::Prim2(
                                Prim2::Sub,
                                Immediate::Var(args_var[0].clone()),
                                Immediate::Const(1),
                            ),
                            next: Box::new(next),
                        };
                        proof {
                            assert(sbody_ok(b, ts_n, bsk));
                            assert(prim_core(*prim, tvars, aux_none, steps_none, dest_g, next_g, b));
                        }
                        b
                    },
                    crate::ast::Prim::Not => {
                        // Normalise to 0 or 1, then flip the low bit.
                        let tmp: VarName = self.vars.fresh("itob_res");
                        proof {
                            assert(n == 1);
                            assert(args_var@ == tvars);
                            assert(ts_n.contains(tvars[0].index));
                            assert(sbody_ok(next, ts_n.insert(dest.index), bsk));
                            lemma_sbody_mono(
                                next,
                                ts_n.insert(dest.index),
                                ts_n.insert(tmp.index).insert(dest.index),
                                bsk,
                                bsk,
                            );
                        }
                        let inner = BlockBody::Operation {
                            dest: dest.clone(),
                            op: Operation::Prim2(
                                Prim2::BitXor,
                                Immediate::Var(tmp.clone()),
                                Immediate::Const(1),
                            ),
                            next: Box::new(next),
                        };
                        proof {
                            assert(sbody_ok(inner, ts_n.insert(tmp.index), bsk));
                        }
                        let ghost inner_g = inner;
                        let b = BlockBody::Operation {
                            dest: tmp.clone(),
                            op: Operation::Prim1(
                                Prim1::IntToBool,
                                Immediate::Var(args_var[0].clone()),
                            ),
                            next: Box::new(inner),
                        };
                        proof {
                            assert(sbody_ok(b, ts_n, bsk));
                            assert(op_node(
                                b,
                                tmp,
                                Operation::Prim1(Prim1::IntToBool, Immediate::Var(tvars[0])),
                                inner_g,
                            ));
                            assert(op_node(
                                inner_g,
                                dest_g,
                                Operation::Prim2(
                                    Prim2::BitXor,
                                    Immediate::Var(tmp),
                                    Immediate::Const(1),
                                ),
                                next_g,
                            ));
                            aux_w = seq![tmp];
                            steps_w = seq![inner_g];
                            assert(prim_core(*prim, tvars, aux_w, steps_w, dest_g, next_g, b));
                        }
                        b
                    },
                    crate::ast::Prim::And | crate::ast::Prim::Or => {
                        // Normalise both arguments to 0 or 1 first: this
                        // preserves truthiness while guaranteeing a 0-or-1
                        // result.
                        let p2 = match prim {
                            crate::ast::Prim::And => Prim2::BitAnd,
                            _ => Prim2::BitOr,
                        };
                        let t0: VarName = self.vars.fresh("itob_res");
                        let t1: VarName = self.vars.fresh("itob_res");
                        proof {
                            assert(n == 2);
                            assert(args_var@ == tvars);
                            assert(ts_n.contains(tvars[0].index));
                            assert(ts_n.contains(tvars[1].index));
                            assert(sbody_ok(next, ts_n.insert(dest.index), bsk));
                            lemma_sbody_mono(
                                next,
                                ts_n.insert(dest.index),
                                ts_n.insert(t0.index).insert(t1.index).insert(dest.index),
                                bsk,
                                bsk,
                            );
                        }
                        let inner2 = BlockBody::Operation {
                            dest: dest.clone(),
                            op: Operation::Prim2(
                                p2,
                                Immediate::Var(t0.clone()),
                                Immediate::Var(t1.clone()),
                            ),
                            next: Box::new(next),
                        };
                        let ghost inner2_g = inner2;
                        proof {
                            assert(sbody_ok(inner2, ts_n.insert(t0.index).insert(t1.index), bsk));
                        }
                        let inner1 = BlockBody::Operation {
                            dest: t1.clone(),
                            op: Operation::Prim1(
                                Prim1::IntToBool,
                                Immediate::Var(args_var[1].clone()),
                            ),
                            next: Box::new(inner2),
                        };
                        proof {
                            assert(sbody_ok(inner1, ts_n.insert(t0.index), bsk));
                        }
                        let ghost inner1_g = inner1;
                        let b = BlockBody::Operation {
                            dest: t0.clone(),
                            op: Operation::Prim1(
                                Prim1::IntToBool,
                                Immediate::Var(args_var[0].clone()),
                            ),
                            next: Box::new(inner1),
                        };
                        proof {
                            assert(sbody_ok(b, ts_n, bsk));
                            assert(op_node(
                                b,
                                t0,
                                Operation::Prim1(Prim1::IntToBool, Immediate::Var(tvars[0])),
                                inner1_g,
                            ));
                            assert(op_node(
                                inner1_g,
                                t1,
                                Operation::Prim1(Prim1::IntToBool, Immediate::Var(tvars[1])),
                                inner2_g,
                            ));
                            assert(op_node(
                                inner2_g,
                                dest_g,
                                Operation::Prim2(
                                    if (*prim) is And {
                                        Prim2::BitAnd
                                    } else {
                                        Prim2::BitOr
                                    },
                                    Immediate::Var(t0),
                                    Immediate::Var(t1),
                                ),
                                next_g,
                            ));
                            aux_w = seq![t0, t1];
                            steps_w = seq![inner1_g, inner2_g];
                            assert(prim_core(*prim, tvars, aux_w, steps_w, dest_g, next_g, b));
                        }
                        b
                    },
                    _ => {
                        let p2 = match prim {
                            crate::ast::Prim::Add => Prim2::Add,
                            crate::ast::Prim::Sub => Prim2::Sub,
                            crate::ast::Prim::Mul => Prim2::Mul,
                            crate::ast::Prim::Lt => Prim2::Lt,
                            crate::ast::Prim::Le => Prim2::Le,
                            crate::ast::Prim::Gt => Prim2::Gt,
                            crate::ast::Prim::Ge => Prim2::Ge,
                            crate::ast::Prim::Eq => Prim2::Eq,
                            _ => Prim2::Neq,
                        };
                        let b = BlockBody::Operation {
                            dest,
                            op: Operation::Prim2(
                                p2,
                                Immediate::Var(args_var[0].clone()),
                                Immediate::Var(args_var[1].clone()),
                            ),
                            next: Box::new(next),
                        };
                        proof {
                            assert(sbody_ok(b, ts_n, bsk));
                            assert(p2 == prim2_of(*prim));
                            assert(prim_core(*prim, tvars, aux_none, steps_none, dest_g, next_g, b));
                        }
                        b
                    },
                };
                let ghost core_g = block;
                // Evaluate the arguments left to right at runtime by
                // wrapping the block right to left.
                proof {
                    lemma_new_lbls_base(bsk, blocks@);
                    lemma_new_lbls_base(bs, blocks@);
                }
                let ghost mut rmids: Seq<BlockBody> = seq![core_g];
                let ghost mut rsubs: Seq<LTrace> = Seq::empty();
                let mut block = block;
                let mut idx: usize = n;
                while idx > 0
                    invariant
                        idx <= n,
                        n == args@.len(),
                        args_var@ == tvars,
                        tvars.len() == n as nat,
                        funs_extended(old(funs)@, funs@),
                        old(blocks)@.is_prefix_of(blocks@),
                        rmids.len() == n - idx + 1,
                        rsubs.len() == n - idx,
                        rmids[0] == core_g,
                        rmids[rmids.len() - 1] == block,
                        forall|j: int|
                            0 <= j < n - idx ==> lowers_via(
                                #[trigger] rsubs[j],
                                args@[n - 1 - j],
                                Continuation::Block(tvars[n - 1 - j], rmids[j]),
                                fm0,
                                l0,
                                rmids[j + 1],
                            ),
                        sbody_ok(
                            block,
                            vars_plus(vs, tvars, idx as int),
                            new_lbls(bsk, n0, blocks@),
                        ),
                        forall|j: int|
                            n0 <= j < blocks@.len() ==> sbody_ok(
                                (#[trigger] blocks@[j]).body,
                                sparams(blocks@[j].params@),
                                new_lbls(bs, n0, blocks@),
                            ),
                        forall|j: int|
                            nf0 <= j < funs@.len() ==> new_lbls(bs, n0, blocks@).contains(
                                (#[trigger] funs@[j]).body.target.index,
                            ),
                    decreases idx,
                {
                    idx = idx - 1;
                    let ghost mid_b = blocks@;
                    let ghost mid_f = funs@;
                    let ghost bsk_i = new_lbls(bsk, n0, blocks@);
                    let ghost block_mid = block;
                    proof {
                        assert(decreases_to!(*expr => (*expr)->Prim_args));
                        assert(decreases_to!((*expr)->Prim_args => args@[idx as int]));
                        lemma_vars_plus_grow(vs, tvars, idx as int);
                    }
                    let benv = env.clone_env();
                    let (nb, tr) = self.lower_expr_kont(
                        &args[idx],
                        Continuation::Block(args_var[idx].clone(), block),
                        benv,
                        funs,
                        blocks,
                        Ghost(ls),
                        Ghost(vars_plus(vs, tvars, idx as int)),
                        Ghost(bs),
                        Ghost(bsk_i),
                    );
                    block = nb;
                    proof {
                        lemma_chain(n0, bsk, bsk_i, mid_b, blocks@);
                        lemma_sbody_mono(
                            block,
                            vars_plus(vs, tvars, idx as int),
                            vars_plus(vs, tvars, idx as int),
                            new_lbls(bsk_i, mid_b.len() as int, blocks@),
                            new_lbls(bsk, n0, blocks@),
                        );
                        lemma_blocks_facts(n0, bs, bs, mid_b, blocks@);
                        lemma_funs_facts(n0, nf0, bs, bs, mid_b, blocks@, mid_f, funs@);
                        lemma_funs_extended_trans(old(funs)@, mid_f, funs@);
                        lemma_prefix_trans(old(blocks)@, mid_b, blocks@);
                        assert(lowers_via(
                            tr@,
                            args@[idx as int],
                            Continuation::Block(tvars[idx as int], block_mid),
                            fm0,
                            l0,
                            block,
                        ));
                        let ghost rmids_old = rmids;
                        let ghost rsubs_old = rsubs;
                        rmids = rmids.push(block);
                        rsubs = rsubs.push(tr@);
                        assert forall|j: int| 0 <= j < n - idx implies lowers_via(
                            #[trigger] rsubs[j],
                            args@[n - 1 - j],
                            Continuation::Block(tvars[n - 1 - j], rmids[j]),
                            fm0,
                            l0,
                            rmids[j + 1],
                        ) by {
                            if j < n - idx - 1 {
                                assert(rsubs[j] == rsubs_old[j]);
                                assert(rmids[j] == rmids_old[j]);
                                assert(rmids[j + 1] == rmids_old[j + 1]);
                            } else {
                                assert(rsubs[j] == tr@);
                                assert(rmids[j] == block_mid);
                                assert(rmids[j + 1] == block);
                            }
                        }
                    }
                }
                let ghost trace = LTrace::PrimT {
                    temps: tvars,
                    aux: aux_w,
                    steps: steps_w,
                    dest: dest_g,
                    next: next_g,
                    core: core_g,
                    rmids,
                    rsubs,
                };
                proof {
                    assert(prim_core(*prim, tvars, aux_w, steps_w, dest_g, next_g, core_g));
                    assert(chain_via(args@, tvars, rmids, rsubs, fm0, l0, core_g, block));
                    assert(lowers_via(trace, *expr, k, fm0, l0, block));
                }
                (block, Ghost(trace))
            },
            Expr::If { cond, thn, els, .. } => {
                let ghost fm0 = fmodel(env);
                let ghost l0 = env.locals@;
                let cond_var: VarName = self.vars.fresh("cond");
                let thn_label: BlockName = self.blocks.fresh("thn");
                let els_label: BlockName = self.blocks.fresh("els");
                let ghost cv_g = cond_var;
                let ghost tl_g = thn_label;
                let ghost el_g = els_label;
                let ghost bsk_c = bsk.insert(thn_label.index).insert(els_label.index);
                let cond_kbody = BlockBody::Terminator(
                    Terminator::ConditionalBranch {
                        cond: Immediate::Var(cond_var.clone()),
                        thn: thn_label.clone(),
                        els: els_label.clone(),
                    },
                );
                let ghost cond_kbody_g = cond_kbody;
                proof {
                    assert(decreases_to!(*expr => (*expr)->If_cond));
                    assert(sbody_ok(cond_kbody, vs.insert(cond_var.index), bsk_c));
                }
                let cenv = env.clone_env();
                let (cond_branch, condt) = self.lower_expr_kont(
                    &**cond,
                    Continuation::Block(cond_var, cond_kbody),
                    cenv,
                    funs,
                    blocks,
                    Ghost(ls),
                    Ghost(vs),
                    Ghost(bs),
                    Ghost(bsk_c),
                );
                let ghost b1 = blocks@;
                let ghost f1 = funs@;
                proof {
                    assert(decreases_to!(*expr => (*expr)->If_thn));
                    assert(decreases_to!(*expr => (*expr)->If_els));
                }
                match k {
                    Continuation::Return => {
                        // In tail position the arms return themselves: no
                        // join point is needed.
                        let tenv = env.clone_env();
                        let (thn_body, tht) = self.lower_expr_kont(
                            &**thn,
                            Continuation::Return,
                            tenv,
                            funs,
                            blocks,
                            Ghost(ls),
                            Ghost(vs),
                            Ghost(bs),
                            Ghost(bs),
                        );
                        let ghost b2 = blocks@;
                        let ghost f2 = funs@;
                        let (els_body, elt) = self.lower_expr_kont(
                            &**els,
                            Continuation::Return,
                            env,
                            funs,
                            blocks,
                            Ghost(ls),
                            Ghost(vs),
                            Ghost(bs),
                            Ghost(bs),
                        );
                        let ghost b3 = blocks@;
                        let ghost f3 = funs@;
                        let mut cluster: Vec<BasicBlock> = Vec::new();
                        cluster.push(
                            BasicBlock { label: thn_label, params: Vec::new(), body: thn_body },
                        );
                        cluster.push(
                            BasicBlock { label: els_label, params: Vec::new(), body: els_body },
                        );
                        let r = BlockBody::SubBlocks {
                            blocks: cluster,
                            next: Box::new(cond_branch),
                        };
                        proof {
                            lemma_prefix_trans(old(blocks)@, b1, b2);
                            lemma_prefix_trans(old(blocks)@, b2, b3);
                            lemma_funs_extended_trans(old(funs)@, f1, f2);
                            lemma_funs_extended_trans(old(funs)@, f2, f3);
                            lemma_blocks_facts(n0, bs, bs, b1, b2);
                            lemma_blocks_facts(n0, bs, bs, b2, b3);
                            lemma_funs_facts(n0, nf0, bs, bs, b1, b2, f1, f2);
                            lemma_funs_facts(n0, nf0, bs, bs, b2, b3, f2, f3);
                            let nl = new_lbls(bsk, n0, b3);
                            let cl = r->SubBlocks_blocks@;
                            assert(slabels(cl).contains(r->SubBlocks_blocks@[0].label.index)) by {
                                assert((#[trigger] cl[0]).label.index == cl[0].label.index);
                            }
                            assert(slabels(cl).contains(cl[1].label.index)) by {
                                assert((#[trigger] cl[1]).label.index == cl[1].label.index);
                            }
                            let bs2 = nl.union(slabels(cl));
                            // The lowered condition's scope lifts into the
                            // cluster's.
                            lemma_seg(n0, b1, b3);
                            lemma_seg(n0, b2, b3);
                            assert(new_lbls(bsk_c, n0, b1).subset_of(bs2));
                            lemma_sbody_mono(cond_branch, vs, vs, new_lbls(bsk_c, n0, b1), bs2);
                            // The arms' scopes lift too.
                            assert(new_lbls(bs, b1.len() as int, b2).subset_of(bs2)) by {
                                lemma_seg(b1.len() as int, b2, b3);
                                lemma_seg(n0, b1, b3);
                            }
                            assert(new_lbls(bs, b2.len() as int, b3).subset_of(bs2)) by {
                                lemma_seg(n0, b2, b3);
                            }
                            assert(vs.union(sparams(Seq::<VarName>::empty())) =~= vs);
                            lemma_sbody_mono(thn_body, vs, vs, new_lbls(bs, b1.len() as int, b2), bs2);
                            lemma_sbody_mono(els_body, vs, vs, new_lbls(bs, b2.len() as int, b3), bs2);
                            assert(sbody_ok(r, vs, nl));
                            // The relation's shape for the tail form.
                            assert(cl[0].params@ =~= Seq::<VarName>::empty());
                            assert(cl[1].params@ =~= Seq::<VarName>::empty());
                        }
                        let ghost trace = LTrace::IfT {
                            cv: cv_g,
                            tl: tl_g,
                            el: el_g,
                            condt: Box::new(condt@),
                            tht: Box::new(tht@),
                            elt: Box::new(elt@),
                            tv: vstd::pervasive::arbitrary(),
                            ev: vstd::pervasive::arbitrary(),
                            jl: vstd::pervasive::arbitrary(),
                            tj: vstd::pervasive::arbitrary(),
                            ej: vstd::pervasive::arbitrary(),
                        };
                        proof {
                            assert(lowers_via(
                                condt@,
                                **cond,
                                Continuation::Block(
                                    cv_g,
                                    BlockBody::Terminator(
                                        Terminator::ConditionalBranch {
                                            cond: Immediate::Var(cv_g),
                                            thn: tl_g,
                                            els: el_g,
                                        },
                                    ),
                                ),
                                fm0,
                                l0,
                                *r->SubBlocks_next,
                            ));
                            assert(lowers_via(trace, *expr, k, fm0, l0, r));
                        }
                        (r, Ghost(trace))
                    },
                    Continuation::Block(dest, kbody) => {
                        // A non-trivial continuation gets a single join
                        // point, so the continuation is not duplicated.
                        let thn_var: VarName = self.vars.fresh("thn_res");
                        let els_var: VarName = self.vars.fresh("els_res");
                        let join_label: BlockName = self.blocks.fresh("jn");
                        let ghost tv_g = thn_var;
                        let ghost ev_g = els_var;
                        let ghost jl_g = join_label;
                        let ghost dest_g = dest;
                        let ghost kbody_g = kbody;
                        let ghost bsj = bs.insert(join_label.index);
                        let mut thn_args: Vec<Immediate> = Vec::new();
                        thn_args.push(Immediate::Var(thn_var.clone()));
                        let thn_kbody = BlockBody::Terminator(
                            Terminator::Branch(
                                Branch { target: join_label.clone(), args: thn_args },
                            ),
                        );
                        let ghost tj_g = thn_kbody;
                        proof {
                            assert(sbody_ok(thn_kbody, vs.insert(thn_var.index), bsj));
                            assert(tj_g->Terminator_0->Branch_0.args@ =~= seq![
                                Immediate::Var(tv_g),
                            ]);
                            assert(join_jump(tj_g, jl_g, tv_g));
                        }
                        let tenv = env.clone_env();
                        let (thn_body, tht) = self.lower_expr_kont(
                            &**thn,
                            Continuation::Block(thn_var, thn_kbody),
                            tenv,
                            funs,
                            blocks,
                            Ghost(ls),
                            Ghost(vs),
                            Ghost(bs),
                            Ghost(bsj),
                        );
                        let ghost b2 = blocks@;
                        let ghost f2 = funs@;
                        let mut els_args: Vec<Immediate> = Vec::new();
                        els_args.push(Immediate::Var(els_var.clone()));
                        let els_kbody = BlockBody::Terminator(
                            Terminator::Branch(
                                Branch { target: join_label.clone(), args: els_args },
                            ),
                        );
                        let ghost ej_g = els_kbody;
                        proof {
                            assert(sbody_ok(els_kbody, vs.insert(els_var.index), bsj));
                            assert(ej_g->Terminator_0->Branch_0.args@ =~= seq![
                                Immediate::Var(ev_g),
                            ]);
                            assert(join_jump(ej_g, jl_g, ev_g));
                        }
                        let (els_body, elt) = self.lower_expr_kont(
                            &**els,
                            Continuation::Block(els_var, els_kbody),
                            env,
                            funs,
                            blocks,
                            Ghost(ls),
                            Ghost(vs),
                            Ghost(bs),
                            Ghost(bsj),
                        );
                        let ghost b3 = blocks@;
                        let ghost f3 = funs@;
                        let mut join_params: Vec<VarName> = Vec::new();
                        join_params.push(dest);
                        let mut cluster: Vec<BasicBlock> = Vec::new();
                        cluster.push(
                            BasicBlock { label: thn_label, params: Vec::new(), body: thn_body },
                        );
                        cluster.push(
                            BasicBlock { label: els_label, params: Vec::new(), body: els_body },
                        );
                        cluster.push(
                            BasicBlock { label: join_label, params: join_params, body: kbody },
                        );
                        let r = BlockBody::SubBlocks {
                            blocks: cluster,
                            next: Box::new(cond_branch),
                        };
                        proof {
                            lemma_prefix_trans(old(blocks)@, b1, b2);
                            lemma_prefix_trans(old(blocks)@, b2, b3);
                            lemma_funs_extended_trans(old(funs)@, f1, f2);
                            lemma_funs_extended_trans(old(funs)@, f2, f3);
                            lemma_blocks_facts(n0, bs, bs, b1, b2);
                            lemma_blocks_facts(n0, bs, bs, b2, b3);
                            lemma_funs_facts(n0, nf0, bs, bs, b1, b2, f1, f2);
                            lemma_funs_facts(n0, nf0, bs, bs, b2, b3, f2, f3);
                            let nl = new_lbls(bsk, n0, b3);
                            let cl = r->SubBlocks_blocks@;
                            assert(slabels(cl).contains(cl[0].label.index)) by {
                                assert((#[trigger] cl[0]).label.index == cl[0].label.index);
                            }
                            assert(slabels(cl).contains(cl[1].label.index)) by {
                                assert((#[trigger] cl[1]).label.index == cl[1].label.index);
                            }
                            assert(slabels(cl).contains(cl[2].label.index)) by {
                                assert((#[trigger] cl[2]).label.index == cl[2].label.index);
                            }
                            let bs2 = nl.union(slabels(cl));
                            lemma_seg(n0, b1, b3);
                            lemma_seg(n0, b2, b3);
                            assert(new_lbls(bsk_c, n0, b1).subset_of(bs2));
                            lemma_sbody_mono(cond_branch, vs, vs, new_lbls(bsk_c, n0, b1), bs2);
                            assert(new_lbls(bsj, b1.len() as int, b2).subset_of(bs2)) by {
                                lemma_seg(b1.len() as int, b2, b3);
                            }
                            assert(new_lbls(bsj, b2.len() as int, b3).subset_of(bs2));
                            assert(vs.union(sparams(Seq::<VarName>::empty())) =~= vs);
                            lemma_sbody_mono(
                                thn_body,
                                vs,
                                vs,
                                new_lbls(bsj, b1.len() as int, b2),
                                bs2,
                            );
                            lemma_sbody_mono(
                                els_body,
                                vs,
                                vs,
                                new_lbls(bsj, b2.len() as int, b3),
                                bs2,
                            );
                            // The join block holds the continuation's body.
                            assert(sparams(cl[2].params@).contains(cl[2].params@[0].index)) by {
                                assert((#[trigger] cl[2].params@[0]).index
                                    == cl[2].params@[0].index);
                            }
                            lemma_sbody_mono(
                                cl[2].body,
                                vs.insert(cl[2].params@[0].index),
                                vs.union(sparams(cl[2].params@)),
                                bsk,
                                bs2,
                            );
                            assert(sbody_ok(r, vs, nl));
                            // The relation's shape for the join form.
                            assert(cl[0].params@ =~= Seq::<VarName>::empty());
                            assert(cl[1].params@ =~= Seq::<VarName>::empty());
                            assert(cl[2].params@ =~= seq![dest_g]);
                        }
                        let ghost trace = LTrace::IfT {
                            cv: cv_g,
                            tl: tl_g,
                            el: el_g,
                            condt: Box::new(condt@),
                            tht: Box::new(tht@),
                            elt: Box::new(elt@),
                            tv: tv_g,
                            ev: ev_g,
                            jl: jl_g,
                            tj: tj_g,
                            ej: ej_g,
                        };
                        proof {
                            assert(lowers_via(
                                condt@,
                                **cond,
                                Continuation::Block(
                                    cv_g,
                                    BlockBody::Terminator(
                                        Terminator::ConditionalBranch {
                                            cond: Immediate::Var(cv_g),
                                            thn: tl_g,
                                            els: el_g,
                                        },
                                    ),
                                ),
                                fm0,
                                l0,
                                *r->SubBlocks_next,
                            ));
                            assert(lowers_via(
                                tht@,
                                **thn,
                                Continuation::Block(tv_g, tj_g),
                                fm0,
                                l0,
                                r->SubBlocks_blocks@[0].body,
                            ));
                            assert(lowers_via(
                                elt@,
                                **els,
                                Continuation::Block(ev_g, ej_g),
                                fm0,
                                l0,
                                r->SubBlocks_blocks@[1].body,
                            ));
                            assert(lowers_via(trace, *expr, k, fm0, l0, r));
                        }
                        (r, Ghost(trace))
                    },
                }
            },
            Expr::Let { bindings, body, .. } => {
                // The body sees every binder; each right-hand side sees
                // only the binders before it.  The base snapshot is taken
                // before any binder extends the lexical stack.
                let ghost fm0 = fmodel(env);
                let ghost l0 = env.locals@;
                let base_env = env.clone_env();
                let mut env2 = env;
                let nb = bindings.len();
                let mut i: usize = 0;
                while i < nb
                    invariant
                        i <= nb,
                        nb == bindings@.len(),
                        fmodel(env2) == fmodel(base_env),
                        base_env.locals@.is_prefix_of(env2.locals@),
                        env2.locals@ == l0 + bvars(bindings@, i as int),
                        locals_set(env2) == binder_set(locals_set(base_env), bindings@, i as int),
                    decreases nb - i,
                {
                    proof {
                        lemma_sparams_push(env2.locals@, bindings@[i as int].var.0);
                        assert(env2.locals@.push(bindings@[i as int].var.0).subrange(
                            0,
                            base_env.locals@.len() as int,
                        ) =~= base_env.locals@);
                        assert(env2.locals@.push(bindings@[i as int].var.0) =~= l0 + bvars(
                            bindings@,
                            i + 1,
                        ));
                    }
                    env2.locals.push(bindings[i].var.0.clone());
                    i = i + 1;
                }
                proof {
                    assert(l0 + bvars(bindings@, 0) =~= l0);
                }
                let ghost ls_body = binder_set(ls, bindings@, nb as int);
                let ghost vs_body = binder_set(vs, bindings@, nb as int);
                proof {
                    lemma_binder_set_subset(ls, locals_set(base_env), bindings@, nb as int);
                    lemma_binder_set_subset(locals_set(base_env), vs, bindings@, nb as int);
                    lemma_env_inv_grow(base_env, env2, bs);
                    if k is Block {
                        lemma_binder_set_grow(vs, bindings@, nb as int);
                        lemma_sbody_mono(
                            k->Block_1,
                            vs.insert(k->Block_0.index),
                            vs_body.insert(k->Block_0.index),
                            bsk,
                            bsk,
                        );
                    }
                    assert(decreases_to!(*expr => (*expr)->Let_body));
                }
                let ghost env2_locals = env2.locals@;
                let (body_block, body_tr) = self.lower_expr_kont(
                    &**body,
                    k,
                    env2,
                    funs,
                    blocks,
                    Ghost(ls_body),
                    Ghost(vs_body),
                    Ghost(bs),
                    Ghost(bsk),
                );
                let mut block = body_block;
                let ghost inner_g = block;
                let ghost mut rmids: Seq<BlockBody> = seq![inner_g];
                let ghost mut rsubs: Seq<LTrace> = Seq::empty();
                proof {
                    assert(lowers_via(
                        body_tr@,
                        **body,
                        k,
                        fm0,
                        l0 + bvars(bindings@, nb as int),
                        inner_g,
                    ));
                }
                // Wrap the right-hand sides right to left; each one's
                // environment holds exactly the earlier binders.
                let mut idx: usize = nb;
                while idx > 0
                    invariant
                        idx <= nb,
                        nb == bindings@.len(),
                        funs_extended(old(funs)@, funs@),
                        old(blocks)@.is_prefix_of(blocks@),
                        rmids.len() == nb - idx + 1,
                        rsubs.len() == nb - idx,
                        rmids[0] == inner_g,
                        rmids[rmids.len() - 1] == block,
                        forall|j: int|
                            0 <= j < nb - idx ==> lowers_via(
                                #[trigger] rsubs[j],
                                bindings@[nb - 1 - j].expr,
                                Continuation::Block(bindings@[nb - 1 - j].var.0, rmids[j]),
                                fm0,
                                l0 + bvars(bindings@, nb - 1 - j),
                                rmids[j + 1],
                            ),
                        sbody_ok(
                            block,
                            binder_set(vs, bindings@, idx as int),
                            new_lbls(bsk, n0, blocks@),
                        ),
                        forall|j: int|
                            n0 <= j < blocks@.len() ==> sbody_ok(
                                (#[trigger] blocks@[j]).body,
                                sparams(blocks@[j].params@),
                                new_lbls(bs, n0, blocks@),
                            ),
                        forall|j: int|
                            nf0 <= j < funs@.len() ==> new_lbls(bs, n0, blocks@).contains(
                                (#[trigger] funs@[j]).body.target.index,
                            ),
                    decreases idx,
                {
                    idx = idx - 1;
                    let ghost mid_b = blocks@;
                    let ghost mid_f = funs@;
                    let ghost bsk_i = new_lbls(bsk, n0, blocks@);
                    // Rebuild the right-hand side's scoped environment:
                    // the base snapshot plus the binders before it.
                    let ghost block_mid = block;
                    let mut renv = base_env.clone_env();
                    let mut p: usize = 0;
                    while p < idx
                        invariant
                            p <= idx,
                            idx < nb,
                            nb == bindings@.len(),
                            fmodel(renv) == fmodel(base_env),
                            base_env.locals@.is_prefix_of(renv.locals@),
                            renv.locals@ == l0 + bvars(bindings@, p as int),
                            locals_set(renv) == binder_set(
                                locals_set(base_env),
                                bindings@,
                                p as int,
                            ),
                        decreases idx - p,
                    {
                        proof {
                            lemma_sparams_push(renv.locals@, bindings@[p as int].var.0);
                            assert(renv.locals@.push(bindings@[p as int].var.0).subrange(
                                0,
                                base_env.locals@.len() as int,
                            ) =~= base_env.locals@);
                            assert(renv.locals@.push(bindings@[p as int].var.0) =~= l0 + bvars(
                                bindings@,
                                p + 1,
                            ));
                        }
                        renv.locals.push(bindings[p].var.0.clone());
                        p = p + 1;
                    }
                    proof {
                        assert(l0 + bvars(bindings@, 0) =~= l0);
                    }
                    proof {
                        assert(decreases_to!(*expr => (*expr)->Let_bindings));
                        assert(decreases_to!((*expr)->Let_bindings => bindings@[idx as int]));
                        assert(decreases_to!(bindings@[idx as int] => bindings@[idx as int].expr));
                        lemma_binder_set_subset(ls, locals_set(base_env), bindings@, idx as int);
                        lemma_binder_set_subset(locals_set(base_env), vs, bindings@, idx as int);
                        lemma_env_inv_grow(base_env, renv, bs);
                    }
                    let (nb2, tr) = self.lower_expr_kont(
                        &bindings[idx].expr,
                        Continuation::Block(bindings[idx].var.0.clone(), block),
                        renv,
                        funs,
                        blocks,
                        Ghost(binder_set(ls, bindings@, idx as int)),
                        Ghost(binder_set(vs, bindings@, idx as int)),
                        Ghost(bs),
                        Ghost(bsk_i),
                    );
                    block = nb2;
                    proof {
                        lemma_chain(n0, bsk, bsk_i, mid_b, blocks@);
                        lemma_sbody_mono(
                            block,
                            binder_set(vs, bindings@, idx as int),
                            binder_set(vs, bindings@, idx as int),
                            new_lbls(bsk_i, mid_b.len() as int, blocks@),
                            new_lbls(bsk, n0, blocks@),
                        );
                        lemma_blocks_facts(n0, bs, bs, mid_b, blocks@);
                        lemma_funs_facts(n0, nf0, bs, bs, mid_b, blocks@, mid_f, funs@);
                        lemma_funs_extended_trans(old(funs)@, mid_f, funs@);
                        lemma_prefix_trans(old(blocks)@, mid_b, blocks@);
                        assert(lowers_via(
                            tr@,
                            bindings@[idx as int].expr,
                            Continuation::Block(bindings@[idx as int].var.0, block_mid),
                            fm0,
                            l0 + bvars(bindings@, idx as int),
                            block,
                        ));
                        let ghost rmids_old = rmids;
                        let ghost rsubs_old = rsubs;
                        rmids = rmids.push(block);
                        rsubs = rsubs.push(tr@);
                        assert forall|j: int| 0 <= j < nb - idx implies lowers_via(
                            #[trigger] rsubs[j],
                            bindings@[nb - 1 - j].expr,
                            Continuation::Block(bindings@[nb - 1 - j].var.0, rmids[j]),
                            fm0,
                            l0 + bvars(bindings@, nb - 1 - j),
                            rmids[j + 1],
                        ) by {
                            if j < nb - idx - 1 {
                                assert(rsubs[j] == rsubs_old[j]);
                                assert(rmids[j] == rmids_old[j]);
                                assert(rmids[j + 1] == rmids_old[j + 1]);
                            } else {
                                assert(rsubs[j] == tr@);
                                assert(rmids[j] == block_mid);
                                assert(rmids[j + 1] == block);
                            }
                        }
                    }
                }
                let ghost trace = LTrace::LetT {
                    inner: inner_g,
                    rmids,
                    rsubs,
                    body: Box::new(body_tr@),
                };
                proof {
                    assert(let_chain_via(bindings@, rmids, rsubs, fm0, l0, inner_g, block));
                    assert(lowers_via(trace, *expr, k, fm0, l0, block));
                }
                (block, Ghost(trace))
            },
            Expr::FunDefs { decls, body, .. } => {
                // Lambda-lift every declaration: mint each one's tail
                // label and lifted name, and register it with the
                // variables captured at this definition site.
                let ghost l0 = env.locals@;
                let ghost f0 = fdom(env);
                let ghost fm0 = fmodel(env);
                let mut env2 = env;
                let n = decls.len();
                let mut minted: Vec<(FunName, Vec<VarName>, BlockName)> = Vec::new();
                let ghost mut fm_hist: Seq<Map<FunKey, FunType>> = seq![fm0];
                let mut i: usize = 0;
                while i < n
                    invariant
                        i <= n,
                        n == decls@.len(),
                        minted@.len() == i as nat,
                        env2.locals@ == l0,
                        fdom(env2) == decl_keys(f0, decls@, i as int),
                        fm_hist.len() == i + 1,
                        fm_hist[0] == fm0,
                        fm_hist[i as int] == fmodel(env2),
                        forall|q: int|
                            0 <= q < i ==> genv_step(
                                #[trigger] fm_hist[q],
                                fm_hist[q + 1],
                                fun_key(decls@[q].name),
                                minted@[q].0,
                                l0,
                                minted@[q].2,
                            ),
                        env_inv(env2, bs.union(minted_lbls(minted@))),
                        forall|j: int| 0 <= j < i ==> (#[trigger] minted@[j]).0 is Mangled,
                        forall|j: int|
                            0 <= j < i ==> crate::identifiers::fun_hint_of(
                                (#[trigger] minted@[j]).0,
                            ) == crate::identifiers::fun_hint_of(decls@[j].name),
                        forall|j: int| 0 <= j < i ==> (#[trigger] minted@[j]).1@ == l0,
                    decreases n - i,
                {
                    let hint = hint_suffixed(decls[i].name.hint(), "tail");
                    let block_name: BlockName = self.blocks.fresh(hint.as_str());
                    let lifted: FunName = self.funs.fresh(decls[i].name.hint());
                    let captured = clone_vars(&env2.locals);
                    let ghost cap_g = captured;
                    let kept = clone_vars(&captured);
                    let ghost m_old = minted@;
                    let ghost e_old = env2;
                    minted.push((lifted.clone(), kept, block_name.clone()));
                    env2.add_local_fun(decls[i].name.clone(), lifted, captured, block_name);
                    proof {
                        lemma_minted_push(m_old, minted@[m_old.len() as int]);
                        assert(fdom(env2) =~= decl_keys(f0, decls@, i + 1));
                        fm_hist = fm_hist.push(fmodel(env2));
                        assert(fmodel(env2).dom() =~= fmodel(e_old).dom().insert(
                            fun_key(decls@[i as int].name),
                        ));
                        assert(genv_step(
                            fmodel(e_old),
                            fmodel(env2),
                            fun_key(decls@[i as int].name),
                            minted@[i as int].0,
                            l0,
                            minted@[i as int].2,
                        ));
                        let bsm = bs.union(minted_lbls(minted@));
                        assert forall|kk: FunKey| fmodel(env2).dom().contains(kk) implies match
                            #[trigger] fmodel(env2)[kk] {
                            FunType::Extern => true,
                            FunType::Local { captured: cp, block_name: bn, .. } => sparams(
                                cp@,
                            ).subset_of(locals_set(env2)) && bsm.contains(bn.index),
                        } by {
                            if kk != fun_key(decls@[i as int].name) {
                                assert(fmodel(e_old).dom().contains(kk));
                                assert(fmodel(env2)[kk] == fmodel(e_old)[kk]);
                            } else {
                                assert(minted_lbls(minted@).contains(
                                    minted@[m_old.len() as int].2.index,
                                ));
                            }
                        }
                    }
                    i = i + 1;
                }
                let ghost bsg = bs.union(minted_lbls(minted@));
                let ghost ks2 = decl_keys(f0, decls@, n as int);
                let ghost m_all = minted@;
                let ghost fm2_g = fmodel(env2);
                proof {
                    assert(genv_hist(fm_hist, decls@, lift_of(m_all), lab_of(m_all), l0, fm0));
                }
                // Emit, for each declaration, the shared tail block and
                // the lifted function entry.
                let mut kd: usize = 0;
                while kd < n
                    invariant
                        kd <= n,
                        n == decls@.len(),
                        minted@ == m_all,
                        m_all.len() == n as nat,
                        env2.locals@ == l0,
                        fdom(env2) == ks2,
                        fmodel(env2) == fm2_g,
                        env_inv(env2, bsg),
                        forall|j: int| 0 <= j < n ==> (#[trigger] m_all[j]).0 is Mangled,
                        forall|j: int| 0 <= j < n ==> (#[trigger] m_all[j]).1@ == l0,
                        funs_extended(old(funs)@, funs@),
                        old(blocks)@.is_prefix_of(blocks@),
                        forall|j: int|
                            n0 <= j < blocks@.len() ==> sbody_ok(
                                (#[trigger] blocks@[j]).body,
                                sparams(blocks@[j].params@),
                                new_lbls(bsg, n0, blocks@),
                            ),
                        forall|j: int|
                            nf0 <= j < funs@.len() ==> new_lbls(bsg, n0, blocks@).contains(
                                (#[trigger] funs@[j]).body.target.index,
                            ),
                        forall|j: int|
                            0 <= j < kd ==> slabels(blocks@.skip(n0)).contains(
                                (#[trigger] m_all[j]).2.index,
                            ),
                    decreases n - kd,
                {
                    let lifted = minted[kd].0.clone();
                    let captured = clone_vars(&minted[kd].1);
                    let label = minted[kd].2.clone();
                    // The tail block takes the declared parameters, then
                    // the captured variables.
                    let np = decls[kd].params.len();
                    let mut bb_params: Vec<VarName> = Vec::new();
                    let mut p: usize = 0;
                    while p < np
                        invariant
                            p <= np,
                            kd < n,
                            n == decls@.len(),
                            np == decls@[kd as int].params@.len(),
                            bb_params@.len() == p as nat,
                            forall|q: int|
                                0 <= q < p ==> (#[trigger] bb_params@[q])
                                    == decls@[kd as int].params@[q].0,
                        decreases np - p,
                    {
                        bb_params.push(decls[kd].params[p].0.clone());
                        p = p + 1;
                    }
                    let ghost param_part = bb_params@;
                    let mut c: usize = 0;
                    while c < captured.len()
                        invariant
                            c <= captured@.len(),
                            captured@ == m_all[kd as int].1@,
                            bb_params@ == param_part + captured@.subrange(0, c as int),
                        decreases captured@.len() - c,
                    {
                        proof {
                            assert(bb_params@.push(captured@[c as int]) =~= param_part
                                + captured@.subrange(0, c + 1));
                        }
                        bb_params.push(captured[c].clone());
                        c = c + 1;
                    }
                    proof {
                        assert(captured@.subrange(0, captured@.len() as int) =~= captured@);
                        assert(bb_params@ == param_part + captured@);
                    }
                    let ghost pb = sparams(bb_params@);
                    let mut body_env = env2.clone_env();
                    let mut q: usize = 0;
                    while q < bb_params.len()
                        invariant
                            q <= bb_params@.len(),
                            fmodel(body_env) == fmodel(env2),
                            body_env.locals@ == l0 + bb_params@.subrange(0, q as int),
                        decreases bb_params@.len() - q,
                    {
                        proof {
                            assert(body_env.locals@.push(bb_params@[q as int]) =~= l0
                                + bb_params@.subrange(0, q + 1));
                        }
                        body_env.locals.push(bb_params[q].clone());
                        q = q + 1;
                    }
                    let ghost ls_d = decl_params_set(
                        ls,
                        decls@[kd as int].params@,
                        decls@[kd as int].params@.len() as int,
                    );
                    proof {
                        assert(bb_params@.subrange(0, bb_params@.len() as int) =~= bb_params@);
                        assert(body_env.locals@ == l0 + bb_params@);
                        lemma_sparams_concat(l0, bb_params@);
                        lemma_sparams_concat(param_part, captured@);
                        // The captured list is the whole lexical stack, so
                        // the block's parameters cover it.
                        assert(captured@ == l0);
                        assert(locals_set(body_env) =~= pb);
                        // The declared parameters sit at the front.
                        assert forall|pq: int|
                            0 <= pq < decls@[kd as int].params@.len() implies pb.contains(
                            (#[trigger] decls@[kd as int].params@[pq]).0.index,
                        ) by {
                            assert(bb_params@[pq] == decls@[kd as int].params@[pq].0);
                        }
                        assert(ls.subset_of(pb));
                        lemma_decl_params_set_in(
                            ls,
                            pb,
                            decls@[kd as int].params@,
                            decls@[kd as int].params@.len() as int,
                        );
                        // The environment invariant carries over.
                        assert(env2.locals@.is_prefix_of(body_env.locals@)) by {
                            assert(body_env.locals@.subrange(0, l0.len() as int) =~= l0);
                        }
                        lemma_env_inv_grow(env2, body_env, bsg);
                        assert(decreases_to!(*expr => (*expr)->FunDefs_decls));
                        assert(decreases_to!((*expr)->FunDefs_decls => decls@[kd as int]));
                        assert(decreases_to!(decls@[kd as int] => decls@[kd as int].body));
                    }
                    let ghost mid_b = blocks@;
                    let ghost mid_f = funs@;
                    let (decl_body, _) = self.lower_expr_kont(
                        &decls[kd].body,
                        Continuation::Return,
                        body_env,
                        funs,
                        blocks,
                        Ghost(ls_d),
                        Ghost(pb),
                        Ghost(bsg),
                        Ghost(bsg),
                    );
                    let ghost pre_push = blocks@;
                    blocks.push(
                        BasicBlock { label: label.clone(), params: bb_params, body: decl_body },
                    );
                    proof {
                        assert(pre_push.is_prefix_of(blocks@)) by {
                            assert(blocks@.subrange(0, pre_push.len() as int) =~= pre_push);
                        }
                        lemma_prefix_trans(old(blocks)@, mid_b, pre_push);
                        lemma_prefix_trans(old(blocks)@, pre_push, blocks@);
                        lemma_seg(n0, pre_push, blocks@);
                        lemma_seg(n0, mid_b, pre_push);
                        // Older block facts lift to the grown segment.
                        lemma_blocks_facts(n0, bsg, bsg, mid_b, pre_push);
                        assert forall|j: int| n0 <= j < blocks@.len() implies sbody_ok(
                            (#[trigger] blocks@[j]).body,
                            sparams(blocks@[j].params@),
                            new_lbls(bsg, n0, blocks@),
                        ) by {
                            if j < pre_push.len() {
                                assert(blocks@[j] == pre_push[j]);
                                lemma_sbody_mono(
                                    pre_push[j].body,
                                    sparams(pre_push[j].params@),
                                    sparams(pre_push[j].params@),
                                    new_lbls(bsg, n0, pre_push),
                                    new_lbls(bsg, n0, blocks@),
                                );
                            } else {
                                assert(blocks@[j] == blocks@[blocks@.len() - 1]);
                                lemma_chain(n0, bsg, bsg, mid_b, pre_push);
                                lemma_sbody_mono(
                                    decl_body,
                                    pb,
                                    pb,
                                    new_lbls(bsg, mid_b.len() as int, pre_push),
                                    new_lbls(bsg, n0, blocks@),
                                );
                            }
                        }
                        lemma_funs_facts(n0, nf0, bsg, bsg, mid_b, pre_push, mid_f, funs@);
                        assert forall|j: int| nf0 <= j < funs@.len() implies new_lbls(
                            bsg,
                            n0,
                            blocks@,
                        ).contains((#[trigger] funs@[j]).body.target.index) by {}
                        lemma_funs_extended_trans(old(funs)@, mid_f, funs@);
                        // The minted label now has its block.
                        assert(slabels(blocks@.skip(n0)).contains(m_all[kd as int].2.index)) by {
                            assert(blocks@.skip(n0)[blocks@.len() - 1 - n0].label.index
                                == m_all[kd as int].2.index);
                        }
                        assert forall|j: int| 0 <= j < kd + 1 implies slabels(
                            blocks@.skip(n0),
                        ).contains((#[trigger] m_all[j]).2.index) by {}
                    }
                    // The lifted entry renames the parameters and branches
                    // into the tail block, forwarding them with the
                    // captured variables.
                    let mut fb_params: Vec<VarName> = Vec::new();
                    let mut fb_args: Vec<Immediate> = Vec::new();
                    let mut p2: usize = 0;
                    while p2 < np
                        invariant
                            kd < n,
                            n == decls@.len(),
                            np == decls@[kd as int].params@.len(),
                        decreases np - p2,
                    {
                        let renamed: VarName = self.vars.fresh(decls[kd].params[p2].0.hint());
                        fb_params.push(renamed.clone());
                        fb_args.push(Immediate::Var(renamed));
                        p2 = p2 + 1;
                    }
                    let captured2 = clone_vars(&minted[kd].1);
                    let mut c2: usize = 0;
                    while c2 < captured2.len()
                        invariant
                            kd < n,
                        decreases captured2@.len() - c2,
                    {
                        fb_params.push(captured2[c2].clone());
                        fb_args.push(Immediate::Var(captured2[c2].clone()));
                        c2 = c2 + 1;
                    }
                    let ghost pre_f = funs@;
                    funs.push(
                        FunBlock {
                            name: lifted,
                            params: fb_params,
                            body: Branch { target: label, args: fb_args },
                        },
                    );
                    proof {
                        assert(funs_extended(pre_f, funs@)) by {
                            assert(funs@.subrange(0, pre_f.len() as int) =~= pre_f);
                        }
                        lemma_funs_extended_trans(old(funs)@, pre_f, funs@);
                        assert forall|j: int| nf0 <= j < funs@.len() implies new_lbls(
                            bsg,
                            n0,
                            blocks@,
                        ).contains((#[trigger] funs@[j]).body.target.index) by {
                            if j < pre_f.len() {
                                assert(funs@[j] == pre_f[j]);
                            } else {
                                assert(funs@[j].body.target.index == m_all[kd as int].2.index);
                                assert(slabels(blocks@.skip(n0)).contains(
                                    m_all[kd as int].2.index,
                                ));
                            }
                        }
                    }
                    kd = kd + 1;
                }
                // Finally lower the block's own body under the extended
                // scope.
                let ghost bskg = bsk.union(minted_lbls(m_all));
                proof {
                    assert(minted_lbls(m_all).subset_of(slabels(blocks@.skip(n0)))) by {
                        assert forall|l: usize| minted_lbls(m_all).contains(l) implies slabels(
                            blocks@.skip(n0),
                        ).contains(l) by {
                            let j = choose|j: int|
                                0 <= j < m_all.len() && (#[trigger] m_all[j]).2.index == l;
                            assert(slabels(blocks@.skip(n0)).contains(m_all[j].2.index));
                        }
                    }
                    if k is Block {
                        lemma_sbody_mono(
                            k->Block_1,
                            vs.insert(k->Block_0.index),
                            vs.insert(k->Block_0.index),
                            bsk,
                            bskg,
                        );
                    }
                    assert(decreases_to!(*expr => (*expr)->FunDefs_body));
                }
                let ghost mid_b2 = blocks@;
                let ghost mid_f2 = funs@;
                let (r, body_tr) = self.lower_expr_kont(
                    &**body,
                    k,
                    env2,
                    funs,
                    blocks,
                    Ghost(ls),
                    Ghost(vs),
                    Ghost(bsg),
                    Ghost(bskg),
                );
                let ghost trace = LTrace::FunT {
                    lifted: lift_of(m_all),
                    labels: lab_of(m_all),
                    hist: fm_hist,
                    body: Box::new(body_tr@),
                };
                proof {
                    assert(lowers_via(trace, *expr, k, fm0, l0, r)) by {
                        assert(lowers_via(body_tr@, **body, k, fm2_g, l0, r));
                        assert(fm_hist[decls@.len() as int] == fm2_g);
                        assert(lift_of(m_all).len() == decls@.len());
                        assert(lab_of(m_all).len() == decls@.len());
                        assert(forall|j: int|
                            0 <= j < decls@.len() ==> (#[trigger] lift_of(m_all)[j]) is Mangled
                                && crate::identifiers::fun_hint_of(lift_of(m_all)[j])
                                == crate::identifiers::fun_hint_of(decls@[j].name));
                        assert(genv_hist(fm_hist, decls@, lift_of(m_all), lab_of(m_all), l0, fm0));
                    }
                }
                proof {
                    lemma_prefix_trans(old(blocks)@, mid_b2, blocks@);
                    lemma_funs_extended_trans(old(funs)@, mid_f2, funs@);
                    lemma_seg(n0, mid_b2, blocks@);
                    // The minted labels all lie in this call's segment, so
                    // the group-extended scopes collapse to the plain ones.
                    assert(minted_lbls(m_all).subset_of(slabels(blocks@.skip(n0))));
                    assert(new_lbls(bsg, n0, blocks@) =~= new_lbls(bs, n0, blocks@));
                    assert(new_lbls(bskg, mid_b2.len() as int, blocks@).subset_of(
                        new_lbls(bsk, n0, blocks@),
                    ));
                    lemma_sbody_mono(
                        r,
                        vs,
                        vs,
                        new_lbls(bskg, mid_b2.len() as int, blocks@),
                        new_lbls(bsk, n0, blocks@),
                    );
                    lemma_blocks_facts(n0, bsg, bsg, mid_b2, blocks@);
                    assert forall|j: int| n0 <= j < blocks@.len() implies sbody_ok(
                        (#[trigger] blocks@[j]).body,
                        sparams(blocks@[j].params@),
                        new_lbls(bs, n0, blocks@),
                    ) by {
                        lemma_sbody_mono(
                            blocks@[j].body,
                            sparams(blocks@[j].params@),
                            sparams(blocks@[j].params@),
                            new_lbls(bsg, n0, blocks@),
                            new_lbls(bs, n0, blocks@),
                        );
                    }
                    lemma_funs_facts(n0, nf0, bsg, bsg, mid_b2, blocks@, mid_f2, funs@);
                    assert forall|j: int| nf0 <= j < funs@.len() implies new_lbls(
                        bs,
                        n0,
                        blocks@,
                    ).contains((#[trigger] funs@[j]).body.target.index) by {
                        assert(new_lbls(bsg, n0, blocks@).contains(
                            funs@[j].body.target.index,
                        ));
                    }
                }
                (r, Ghost(trace))
            },
            Expr::Call { fun, args, .. } => {
                // A temporary variable holds each argument's value, named
                // after the function and the argument position.
                let ghost fm0 = fmodel(env);
                let ghost l0 = env.locals@;
                let n = args.len();
                let mut args_var: Vec<VarName> = Vec::new();
                let mut i: usize = 0;
                while i < n
                    invariant
                        i <= n,
                        args_var@.len() == i as nat,
                        n == args@.len(),
                    decreases n - i,
                {
                    let hint = hint_indexed(fun.hint(), i);
                    let var: VarName = self.vars.fresh(hint.as_str());
                    args_var.push(var);
                    i = i + 1;
                }
                let ghost tvars = args_var@;
                let ghost ts_n = vars_plus(vs, tvars, n as int);
                proof {
                    lemma_vars_plus_grow(vs, tvars, n as int);
                }
                let ft = match env.get(fun) {
                    Some(ft) => ft,
                    None => vstd::pervasive::unreached(),
                };
                let ghost mut res_w: VarName = vstd::pervasive::arbitrary();
                let ghost mut nxt_w: BlockBody = vstd::pervasive::arbitrary();
                let block = match ft {
                    FunType::Extern => {
                        // A call to the runtime: an ordinary operation.
                        let hint = hint_suffixed(fun.hint(), "res");
                        let res: VarName = self.vars.fresh(hint.as_str());
                        let mut call_args: Vec<Immediate> = Vec::new();
                        let mut a: usize = 0;
                        while a < n
                            invariant
                                a <= n,
                                tvars.len() == n as nat,
                                call_args@.len() == a as nat,
                                forall|j: int|
                                    0 <= j < a ==> (#[trigger] call_args@[j]) == Immediate::Var(
                                        tvars[j],
                                    ),
                            decreases n - a,
                        {
                            call_args.push(Immediate::Var(args_var[a].clone()));
                            a = a + 1;
                        }
                        let kbody = k.invoke(Immediate::Var(res.clone()));
                        proof {
                            assert forall|j: int| 0 <= j < call_args@.len() implies simm_ok(
                                #[trigger] call_args@[j],
                                ts_n,
                            ) by {
                                lemma_vars_plus_elem(vs, tvars, n as int, j);
                            }
                            if k is Block {
                                lemma_sbody_mono(
                                    *kbody->Operation_next,
                                    vs.insert(k->Block_0.index),
                                    ts_n.insert(res.index).insert(k->Block_0.index),
                                    bsk,
                                    bsk,
                                );
                            }
                        }
                        proof {
                            assert(sbody_ok(kbody, ts_n.insert(res.index), bsk));
                        }
                        let ghost kbody_g = kbody;
                        let b = BlockBody::Operation {
                            dest: res.clone(),
                            op: Operation::Call { fun: fun.clone(), args: call_args },
                            next: Box::new(kbody),
                        };
                        proof {
                            assert(sbody_ok(b, ts_n, bsk));
                            res_w = res;
                            nxt_w = kbody_g;
                            assert(call_args@ =~= var_imms(tvars));
                            assert(call_node(b, res, *fun, var_imms(tvars), kbody_g));
                            assert(call_core(*fun, k, fm0, tvars, res_w, nxt_w, b));
                        }
                        b
                    },
                    FunType::Local { lifted, captured, block_name } => {
                        // The call site passes the captured variables as
                        // extra arguments.
                        let ghost cap_g = captured@;
                        let mut call_args: Vec<Immediate> = Vec::new();
                        let mut a: usize = 0;
                        while a < n
                            invariant
                                a <= n,
                                tvars.len() == n as nat,
                                call_args@.len() == a as nat,
                                forall|j: int|
                                    0 <= j < a ==> (#[trigger] call_args@[j]) == Immediate::Var(
                                        tvars[j],
                                    ),
                            decreases n - a,
                        {
                            call_args.push(Immediate::Var(args_var[a].clone()));
                            a = a + 1;
                        }
                        let ghost head = call_args@;
                        let mut c: usize = 0;
                        while c < captured.len()
                            invariant
                                c <= captured@.len(),
                                call_args@.len() == head.len() + c as nat,
                                call_args@.subrange(0, head.len() as int) =~= head,
                                forall|j: int|
                                    head.len() <= j < call_args@.len()
                                        ==> (#[trigger] call_args@[j]) == Immediate::Var(
                                        captured@[j - head.len()],
                                    ),
                            decreases captured@.len() - c,
                        {
                            call_args.push(Immediate::Var(captured[c].clone()));
                            c = c + 1;
                        }
                        proof {
                            assert(sparams(captured@).subset_of(locals_set(env)));
                            assert forall|j: int| 0 <= j < call_args@.len() implies simm_ok(
                                #[trigger] call_args@[j],
                                ts_n,
                            ) by {
                                if j < head.len() {
                                    assert(call_args@[j] == head[j]);
                                    lemma_vars_plus_elem(vs, tvars, n as int, j);
                                } else {
                                    assert(sparams(captured@).contains(
                                        captured@[j - head.len()].index,
                                    )) by {
                                        assert((#[trigger] captured@[j - head.len()]).index
                                            == captured@[j - head.len()].index);
                                    }
                                }
                            }
                        }
                        proof {
                            assert forall|j: int| 0 <= j < call_args@.len() implies call_args@[j]
                                == (var_imms(tvars) + var_imms(cap_g))[j] by {
                                if j < head.len() {
                                    assert(call_args@.subrange(0, head.len() as int)[j]
                                        == call_args@[j]);
                                    assert(head[j] == Immediate::Var(tvars[j]));
                                } else {
                                    assert(call_args@[j] == Immediate::Var(
                                        cap_g[j - head.len()],
                                    ));
                                }
                            }
                            assert(call_args@ =~= var_imms(tvars) + var_imms(cap_g));
                        }
                        match k {
                            Continuation::Return => {
                                // The tail-call path: a branch into the
                                // shared tail block.
                                let b = BlockBody::Terminator(
                                    Terminator::Branch(
                                        Branch { target: block_name, args: call_args },
                                    ),
                                );
                                proof {
                                    assert(sbody_ok(b, ts_n, bsk));
                                    assert(b->Terminator_0->Branch_0.args@ == var_imms(tvars)
                                        + var_imms(cap_g));
                                    assert(call_core(*fun, k, fm0, tvars, res_w, nxt_w, b));
                                }
                                b
                            },
                            Continuation::Block(dest, next) => {
                                // A non-tail call goes through the lifted
                                // top-level entry.
                                let ghost next_g = next;
                                let ghost dest_g = dest;
                                let ghost lifted_g = lifted;
                                proof {
                                    lemma_sbody_mono(
                                        next,
                                        vs.insert(dest.index),
                                        ts_n.insert(dest.index),
                                        bsk,
                                        bsk,
                                    );
                                }
                                let b = BlockBody::Operation {
                                    dest,
                                    op: Operation::Call { fun: lifted, args: call_args },
                                    next: Box::new(next),
                                };
                                proof {
                                    assert(sbody_ok(b, ts_n, bsk));
                                    assert(call_node(
                                        b,
                                        dest_g,
                                        lifted_g,
                                        var_imms(tvars) + var_imms(cap_g),
                                        next_g,
                                    ));
                                    assert(call_core(*fun, k, fm0, tvars, res_w, nxt_w, b));
                                }
                                b
                            },
                        }
                    },
                };
                let ghost core_g = block;
                // Evaluate the arguments left to right, as for a
                // primitive.
                proof {
                    lemma_new_lbls_base(bsk, blocks@);
                    lemma_new_lbls_base(bs, blocks@);
                }
                let ghost mut rmids: Seq<BlockBody> = seq![core_g];
                let ghost mut rsubs: Seq<LTrace> = Seq::empty();
                let mut block = block;
                let mut idx: usize = n;
                while idx > 0
                    invariant
                        idx <= n,
                        n == args@.len(),
                        args_var@ == tvars,
                        tvars.len() == n as nat,
                        funs_extended(old(funs)@, funs@),
                        old(blocks)@.is_prefix_of(blocks@),
                        rmids.len() == n - idx + 1,
                        rsubs.len() == n - idx,
                        rmids[0] == core_g,
                        rmids[rmids.len() - 1] == block,
                        forall|j: int|
                            0 <= j < n - idx ==> lowers_via(
                                #[trigger] rsubs[j],
                                args@[n - 1 - j],
                                Continuation::Block(tvars[n - 1 - j], rmids[j]),
                                fm0,
                                l0,
                                rmids[j + 1],
                            ),
                        sbody_ok(
                            block,
                            vars_plus(vs, tvars, idx as int),
                            new_lbls(bsk, n0, blocks@),
                        ),
                        forall|j: int|
                            n0 <= j < blocks@.len() ==> sbody_ok(
                                (#[trigger] blocks@[j]).body,
                                sparams(blocks@[j].params@),
                                new_lbls(bs, n0, blocks@),
                            ),
                        forall|j: int|
                            nf0 <= j < funs@.len() ==> new_lbls(bs, n0, blocks@).contains(
                                (#[trigger] funs@[j]).body.target.index,
                            ),
                    decreases idx,
                {
                    idx = idx - 1;
                    let ghost mid_b = blocks@;
                    let ghost mid_f = funs@;
                    let ghost bsk_i = new_lbls(bsk, n0, blocks@);
                    let ghost block_mid = block;
                    proof {
                        assert(decreases_to!(*expr => (*expr)->Call_args));
                        assert(decreases_to!((*expr)->Call_args => args@[idx as int]));
                        lemma_vars_plus_grow(vs, tvars, idx as int);
                    }
                    let benv = env.clone_env();
                    let (nb, tr) = self.lower_expr_kont(
                        &args[idx],
                        Continuation::Block(args_var[idx].clone(), block),
                        benv,
                        funs,
                        blocks,
                        Ghost(ls),
                        Ghost(vars_plus(vs, tvars, idx as int)),
                        Ghost(bs),
                        Ghost(bsk_i),
                    );
                    block = nb;
                    proof {
                        lemma_chain(n0, bsk, bsk_i, mid_b, blocks@);
                        lemma_sbody_mono(
                            block,
                            vars_plus(vs, tvars, idx as int),
                            vars_plus(vs, tvars, idx as int),
                            new_lbls(bsk_i, mid_b.len() as int, blocks@),
                            new_lbls(bsk, n0, blocks@),
                        );
                        lemma_blocks_facts(n0, bs, bs, mid_b, blocks@);
                        lemma_funs_facts(n0, nf0, bs, bs, mid_b, blocks@, mid_f, funs@);
                        lemma_funs_extended_trans(old(funs)@, mid_f, funs@);
                        lemma_prefix_trans(old(blocks)@, mid_b, blocks@);
                        assert(lowers_via(
                            tr@,
                            args@[idx as int],
                            Continuation::Block(tvars[idx as int], block_mid),
                            fm0,
                            l0,
                            block,
                        ));
                        let ghost rmids_old = rmids;
                        let ghost rsubs_old = rsubs;
                        rmids = rmids.push(block);
                        rsubs = rsubs.push(tr@);
                        assert forall|j: int| 0 <= j < n - idx implies lowers_via(
                            #[trigger] rsubs[j],
                            args@[n - 1 - j],
                            Continuation::Block(tvars[n - 1 - j], rmids[j]),
                            fm0,
                            l0,
                            rmids[j + 1],
                        ) by {
                            if j < n - idx - 1 {
                                assert(rsubs[j] == rsubs_old[j]);
                                assert(rmids[j] == rmids_old[j]);
                                assert(rmids[j + 1] == rmids_old[j + 1]);
                            } else {
                                assert(rsubs[j] == tr@);
                                assert(rmids[j] == block_mid);
                                assert(rmids[j + 1] == block);
                            }
                        }
                    }
                }
                let ghost trace = LTrace::CallT {
                    temps: tvars,
                    res: res_w,
                    nxt: nxt_w,
                    core: core_g,
                    rmids,
                    rsubs,
                };
                proof {
                    assert(call_core(*fun, k, fm0, tvars, res_w, nxt_w, core_g));
                    assert(chain_via(args@, tvars, rmids, rsubs, fm0, l0, core_g, block));
                    assert(lowers_via(trace, *expr, k, fm0, l0, block));
                }
                (block, Ghost(trace))
            },
        }
    }
}


/// Starting the pair builder from one more pair adds just that pair.
proof fn lemma_ext_pairs_base_insert(
    fs: Set<(FunName, int)>,
    p: (FunName, int),
    bexts: Seq<crate::ast::BoundExtDecl>,
    j: int,
)
    ensures
        ext_pairs(fs.insert(p), bexts, j) == ext_pairs(fs, bexts, j).insert(p),
    decreases j,
{
    if j > 0 {
        lemma_ext_pairs_base_insert(fs, p, bexts, j - 1);
        assert(ext_pairs(fs.insert(p), bexts, j) =~= ext_pairs(fs, bexts, j).insert(p));
    } else {
        assert(ext_pairs(fs.insert(p), bexts, j) =~= ext_pairs(fs, bexts, j).insert(p));
    }
}

proof fn lemma_top_blocks_intro(s: Seq<BasicBlock>, i: int, blocks0: Seq<usize>)
    requires
        forall|j: int|
            0 <= j < s.len() ==> body_ok(
                (#[trigger] s[j]).body,
                with_params(Seq::empty(), s[j].params@, 0),
                blocks0,
            ),
    ensures
        top_blocks_ok(s, i, blocks0),
    decreases s.len() - i,
{
    if 0 <= i < s.len() {
        lemma_top_blocks_intro(s, i + 1, blocks0);
    }
}

proof fn lemma_fun_blocks_intro(s: Seq<FunBlock>, i: int, blocks0: Seq<usize>)
    requires
        forall|j: int|
            0 <= j < s.len() ==> blocks0.contains((#[trigger] s[j]).body.target.index),
    ensures
        fun_blocks_ok(s, i, blocks0),
    decreases s.len() - i,
{
    if 0 <= i < s.len() {
        lemma_fun_blocks_intro(s, i + 1, blocks0);
    }
}

impl Lowerer {
    /// Lower a whole bound program: the entry function becomes the one
    /// top-level function entry, branching into a tail block that holds
    /// the lowered body; every local function definition met on the way
    /// is lambda-lifted into a further function entry and a shared tail
    /// block.  The result observes the code generator's slot discipline.
    #[verifier::loop_isolation(false)]
    pub fn lower_prog(&mut self, prog: BoundProg) -> (r: Program)
        requires
            lower_ok(
                prog.body,
                Set::empty().insert(prog.param.0.index),
                pair_keys(
                    ext_pairs(
                        Set::empty().insert((prog.name, 1int)),
                        prog.externs@,
                        prog.externs@.len() as int,
                    ),
                ),
            ),
        ensures
            prog_slots_ok(r),
            r.externs@.len() == prog.externs@.len(),
            forall|i: int|
                0 <= i < prog.externs@.len() ==> (#[trigger] r.externs@[i]).name
                    == prog.externs@[i].name && r.externs@[i].params@.len()
                    == prog.externs@[i].params@.len(),
            r.funs@.len() >= 1,
            r.funs@[0].name == prog.name,
            r.funs@[0].params@.len() == 1,
            r.funs@[0].body.args@.len() == 1,
            forall|i: int| 1 <= i < r.funs@.len() ==> (#[trigger] r.funs@[i]).name is Mangled,
            r.blocks@.len() >= 1,
            r.blocks@[r.blocks@.len() - 1].label == r.funs@[0].body.target,
            r.blocks@[r.blocks@.len() - 1].params@ == seq![prog.param.0],
            prog_lowered(prog, r),
    {
        let ghost req_keys = pair_keys(
            ext_pairs(
                Set::empty().insert((prog.name, 1int)),
                prog.externs@,
                prog.externs@.len() as int,
            ),
        );
        let mut env = Env::new();
        let mut sexterns: Vec<Extern> = Vec::new();
        let mut i: usize = 0;
        while i < prog.externs.len()
            invariant
                i <= prog.externs@.len(),
                sexterns@.len() == i as nat,
                forall|j: int|
                    0 <= j < i ==> (#[trigger] sexterns@[j]).name == prog.externs@[j].name
                        && sexterns@[j].params@ == pvars(prog.externs@[j].params@),
                env.locals@ == Seq::<VarName>::empty(),
                fdom(env) =~= pair_keys(ext_pairs(Set::empty(), prog.externs@, i as int)),
                forall|kk: FunKey|
                    fdom(env).contains(kk) ==> (#[trigger] fmodel(env)[kk]) is Extern,
            decreases prog.externs@.len() - i,
        {
            env.add_extern(prog.externs[i].name.clone());
            proof {
                lemma_pair_keys_insert(
                    ext_pairs(Set::empty(), prog.externs@, i as int),
                    (prog.externs@[i as int].name, prog.externs@[i as int].params@.len() as int),
                );
                assert(fdom(env) =~= pair_keys(
                    ext_pairs(Set::empty(), prog.externs@, i + 1),
                ));
            }
            let mut eparams: Vec<VarName> = Vec::new();
            let mut p: usize = 0;
            while p < prog.externs[i].params.len()
                invariant
                    i < prog.externs@.len(),
                    p <= prog.externs@[i as int].params@.len(),
                    eparams@.len() == p as nat,
                    forall|q: int|
                        0 <= q < p ==> (#[trigger] eparams@[q]) == prog.externs@[i as int].params@[q].0,
                decreases prog.externs@[i as int].params@.len() - p,
            {
                eparams.push(prog.externs[i].params[p].0.clone());
                p = p + 1;
            }
            proof {
                assert(eparams@ =~= pvars(prog.externs@[i as int].params@));
            }
            sexterns.push(Extern { name: prog.externs[i].name.clone(), params: eparams });
            i = i + 1;
        }

        let ghost dom_ext = fdom(env);
        let main_block_label: BlockName = self.blocks.fresh("main_tail");
        let ghost bs0 = Set::<usize>::empty().insert(main_block_label.index);
        // The entry is itself a local function with an empty capture
        // list; its lifted name is its own.
        let ghost env_ext = env;
        let no_captures: Vec<VarName> = Vec::new();
        env.add_local_fun(
            prog.name.clone(),
            prog.name.clone(),
            no_captures,
            main_block_label.clone(),
        );
        env.locals.push(prog.param.0.clone());
        let ghost ls0 = Set::<usize>::empty().insert(prog.param.0.index);
        proof {
            lemma_ext_pairs_base_insert(
                Set::empty(),
                (prog.name, 1int),
                prog.externs@,
                prog.externs@.len() as int,
            );
            lemma_pair_keys_insert(
                ext_pairs(Set::empty(), prog.externs@, prog.externs@.len() as int),
                (prog.name, 1int),
            );
            assert(fdom(env) =~= req_keys);
            lemma_sparams_push(Seq::empty(), prog.param.0);
            assert(sparams(Seq::<VarName>::empty()) =~= Set::<usize>::empty());
            assert(locals_set(env) == ls0);
            assert(env_inv(env, bs0)) by {
                assert forall|kk: FunKey| fmodel(env).dom().contains(kk) implies match
                    #[trigger] fmodel(env)[kk] {
                    FunType::Extern => true,
                    FunType::Local { captured, block_name, .. } => sparams(captured@).subset_of(
                        locals_set(env),
                    ) && bs0.contains(block_name.index),
                } by {
                    if kk != fun_key(prog.name) {
                        assert(fmodel(env_ext).dom().contains(kk));
                        assert(fmodel(env)[kk] == fmodel(env_ext)[kk]);
                    } else {
                        assert(sparams(Seq::<VarName>::empty()) =~= Set::<usize>::empty());
                    }
                }
            }
        }

        let main_fun_block_arg: VarName = self.vars.fresh("x");
        let mut fb_params: Vec<VarName> = Vec::new();
        fb_params.push(main_fun_block_arg.clone());
        let mut fb_args: Vec<Immediate> = Vec::new();
        fb_args.push(Immediate::Var(main_fun_block_arg));
        let main_fun_block = FunBlock {
            name: prog.name.clone(),
            params: fb_params,
            body: Branch { target: main_block_label.clone(), args: fb_args },
        };
        let mut funs: Vec<FunBlock> = Vec::new();
        funs.push(main_fun_block);
        let mut blocks: Vec<BasicBlock> = Vec::new();
        let ghost funs0 = funs@;

        let ghost fm_entry = fmodel(env);
        let ghost l_entry = env.locals@;
        proof {
            assert(l_entry =~= seq![prog.param.0]);
            assert(entry_scope_ok(prog, fm_entry, main_block_label)) by {
                assert(fm_entry.dom() =~= pair_keys(
                    ext_pairs(
                        Set::empty().insert((prog.name, 1int)),
                        prog.externs@,
                        prog.externs@.len() as int,
                    ),
                ));
                assert forall|kk: FunKey|
                    fm_entry.dom().contains(kk) && kk != fun_key(prog.name) implies (
                #[trigger] fm_entry[kk]) is Extern by {
                    assert(fmodel(env_ext).dom().contains(kk));
                    assert(fm_entry[kk] == fmodel(env_ext)[kk]);
                }
            }
        }
        let (main_block_body, main_tr) = self.lower_expr_kont(
            &prog.body,
            Continuation::Return,
            env,
            &mut funs,
            &mut blocks,
            Ghost(ls0),
            Ghost(ls0),
            Ghost(bs0),
            Ghost(bs0),
        );
        let ghost b_pre = blocks@;
        let ghost f_all = funs@;
        let mut main_params: Vec<VarName> = Vec::new();
        main_params.push(prog.param.0.clone());
        blocks.push(
            BasicBlock {
                label: main_block_label.clone(),
                params: main_params,
                body: main_block_body,
            },
        );
        let r = Program { externs: sexterns, funs, blocks };
        proof {
            let b_fin = r.blocks@;
            assert(b_pre.is_prefix_of(b_fin)) by {
                assert(b_fin.subrange(0, b_pre.len() as int) =~= b_pre);
            }
            assert(funs0.is_prefix_of(f_all));
            assert(r.funs@[0] == funs0[0]);
            assert(b_fin.skip(0) =~= b_fin);
            assert(b_pre.skip(0) =~= b_pre);
            // The entry's tail block is in the program, so every label in
            // scope is the label of some block.
            assert(slabels(b_fin).contains(main_block_label.index)) by {
                assert(b_fin[b_fin.len() - 1].label.index == main_block_label.index);
            }
            let nl = new_lbls(bs0, 0, b_fin);
            assert(nl =~= slabels(b_fin));
            lemma_seg(0, b_pre, b_fin);
            assert(new_lbls(bs0, 0, b_pre).subset_of(nl));
            // The main block's parameter set.
            lemma_sparams_push(Seq::empty(), prog.param.0);
            assert(r.blocks@[b_fin.len() - 1].params@ =~= seq![prog.param.0]);
            assert(sparams(seq![prog.param.0]) =~= ls0) by {
                assert(seq![prog.param.0] =~= Seq::<VarName>::empty().push(prog.param.0));
                assert(sparams(Seq::<VarName>::empty()) =~= Set::<usize>::empty());
            }
            // Every block of the program observes the discipline against
            // the full label list.
            let blocks0 = with_labels(Seq::empty(), b_fin, 0);
            assert forall|j: int| 0 <= j < b_fin.len() implies body_ok(
                (#[trigger] b_fin[j]).body,
                with_params(Seq::empty(), b_fin[j].params@, 0),
                blocks0,
            ) by {
                let vset = sparams(b_fin[j].params@);
                if j < b_pre.len() {
                    assert(b_fin[j] == b_pre[j]);
                    lemma_sbody_mono(b_fin[j].body, vset, vset, new_lbls(bs0, 0, b_pre), nl);
                } else {
                    assert(b_fin[j].body == main_block_body);
                    lemma_sbody_mono(main_block_body, ls0, vset, new_lbls(bs0, 0, b_pre), nl);
                }
                assert forall|x: usize| vset.contains(x) implies with_params(
                    Seq::empty(),
                    b_fin[j].params@,
                    0,
                ).contains(x) by {
                    lemma_with_params_has(Seq::empty(), b_fin[j].params@, 0, x);
                }
                assert forall|l: usize| nl.contains(l) implies blocks0.contains(l) by {
                    let q = choose|q: int|
                        0 <= q < b_fin.len() && (#[trigger] b_fin[q]).label.index == l;
                    lemma_with_labels_has(Seq::empty(), b_fin, 0, l);
                }
                lemma_sbody_to_body(
                    b_fin[j].body,
                    vset,
                    nl,
                    with_params(Seq::empty(), b_fin[j].params@, 0),
                    blocks0,
                );
            }
            lemma_top_blocks_intro(b_fin, 0, blocks0);
            assert forall|j: int| 0 <= j < r.funs@.len() implies blocks0.contains(
                (#[trigger] r.funs@[j]).body.target.index,
            ) by {
                if j == 0 {
                    assert(r.funs@[0].body.target.index == main_block_label.index);
                } else {
                    assert(new_lbls(bs0, 0, b_pre).contains(r.funs@[j].body.target.index));
                }
                assert forall|l: usize| nl.contains(l) implies blocks0.contains(l) by {
                    lemma_with_labels_has(Seq::empty(), b_fin, 0, l);
                }
            }
            lemma_fun_blocks_intro(r.funs@, 0, blocks0);
            // The entry branch forwards its parameter into the tail
            // block, whose body the lowering relation ties to the
            // program body under the entry scope.
            assert(r.funs@[0].params@ =~= seq![main_fun_block_arg]);
            assert(r.funs@[0].body.args@ =~= seq![Immediate::Var(main_fun_block_arg)]);
            assert(r.funs@[0].body.target == main_block_label);
            assert(r.blocks@[r.blocks@.len() - 1].body == main_block_body);
            assert(lowers_via(
                main_tr@,
                prog.body,
                Continuation::Return,
                fm_entry,
                seq![prog.param.0],
                main_block_body,
            ));
            assert(lowered(
                prog.body,
                Continuation::Return,
                fm_entry,
                seq![prog.param.0],
                main_block_body,
            ));
            assert(entry_scope_ok(prog, fm_entry, r.funs@[0].body.target));
            assert(prog_lowered(prog, r));
        }
        r
    }
}


} // verus!
