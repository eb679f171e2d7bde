//! The frontend of the compiler: binding resolution.  It walks the surface
//! program with lexical scoping and produces the bound program, in which
//! every variable and function occurrence carries a globally unique
//! identifier, failing if any scoping rule is violated.

use vstd::prelude::*;
use crate::ast::{Expr, Binding, Prog, SurfExpr, SurfBinding, SurfFunDecl, SurfExtDecl, SurfProg,
    BoundExpr, BoundBinding, BoundFunDecl, BoundExtDecl, BoundProg, spec_arity, prims_ok,
    loc_in_expr, loc_in_list, loc_in_binds, loc_in_decls, loc_in_params, loc_in_exts, loc_in_prog};
use crate::identifiers::{VarName, FunName, IdGen, Identifier, fun_hint_of};
use crate::span::SrcLoc;

verus! {

/// CompileErr reports an error found during resolution.
///
/// The `String` argument is the original name of the variable or function
/// and the `SrcLoc` argument is where in the source program the error
/// occurred.
#[derive(Debug)]
pub enum CompileErr {
    UnboundVariable(String, SrcLoc),
    DuplicateVariable(String, SrcLoc),
    UnboundFunction(String, SrcLoc),
    DuplicateFunction(String, SrcLoc),
    DuplicateParameter(String, SrcLoc),
    ArityMismatch { name: String, expected: usize, found: usize, loc: SrcLoc },
}

/// The source location that the error carries.
pub open spec fn err_loc(e: CompileErr) -> SrcLoc {
    match e {
        CompileErr::UnboundVariable(_, l) => l,
        CompileErr::DuplicateVariable(_, l) => l,
        CompileErr::UnboundFunction(_, l) => l,
        CompileErr::DuplicateFunction(_, l) => l,
        CompileErr::DuplicateParameter(_, l) => l,
        CompileErr::ArityMismatch { loc, .. } => loc,
    }
}

/* ------------------------- Scoping, on the surface ------------------------ */

// `surf_ok` says that a surface expression respects every scoping rule,
// given the variable names in scope and the arities of the functions in
// scope.  Resolution succeeds exactly on such expressions.

/// No two bindings of the same `let` share a name.
pub open spec fn binds_distinct(sbs: Seq<SurfBinding>) -> bool {
    forall|i: int, j: int| 0 <= i < j < sbs.len() ==> sbs[i].var.0@ != sbs[j].var.0@
}

/// No two parameters of one declaration share a name.
pub open spec fn params_distinct(sps: Seq<(String, SrcLoc)>) -> bool {
    forall|i: int, j: int| 0 <= i < j < sps.len() ==> sps[i].0@ != sps[j].0@
}

/// No two declarations of one function-definition block share a name.
pub open spec fn decls_distinct(sds: Seq<SurfFunDecl>) -> bool {
    forall|i: int, j: int| 0 <= i < j < sds.len() ==> sds[i].name@ != sds[j].name@
}

/// The names in scope after the first `j` bindings of a `let`.
pub open spec fn let_doms(vs: Set<Seq<char>>, sbs: Seq<SurfBinding>, j: int) -> Set<Seq<char>>
    decreases j,
{
    if j <= 0 {
        vs
    } else {
        let_doms(vs, sbs, j - 1).insert(sbs[j - 1].var.0@)
    }
}

/// The names in scope after the first `j` parameters.
pub open spec fn param_doms(vs: Set<Seq<char>>, sps: Seq<(String, SrcLoc)>, j: int) -> Set<
    Seq<char>,
>
    decreases j,
{
    if j <= 0 {
        vs
    } else {
        param_doms(vs, sps, j - 1).insert(sps[j - 1].0@)
    }
}

/// The function arities in scope after registering the first `j`
/// declarations of a block.
pub open spec fn decl_arities(
    am: Map<Seq<char>, int>,
    sds: Seq<SurfFunDecl>,
    j: int,
) -> Map<Seq<char>, int>
    decreases j,
{
    if j <= 0 {
        am
    } else {
        decl_arities(am, sds, j - 1).insert(sds[j - 1].name@, sds[j - 1].params@.len() as int)
    }
}

/// The surface expression respects the scoping rules: every variable is
/// in scope, no `let` binds a name twice, no block declares a function
/// twice, no declaration repeats a parameter, and every call names a
/// function in scope with the right number of arguments.
pub open spec fn surf_ok(e: SurfExpr, vs: Set<Seq<char>>, am: Map<Seq<char>, int>) -> bool
    decreases e,
{
    match e {
        Expr::Num(..) => true,
        Expr::Bool(..) => true,
        Expr::Var(x, _) => vs.contains(x@),
        Expr::Prim { args, .. } => forall|j: int|
            0 <= j < args@.len() ==> surf_ok(#[trigger] args@[j], vs, am),
        Expr::Let { bindings, body, .. } => binds_distinct(bindings@) && (forall|j: int|
            0 <= j < bindings@.len() ==> surf_ok(
                (#[trigger] bindings@[j]).expr,
                let_doms(vs, bindings@, j),
                am,
            )) && surf_ok(*body, let_doms(vs, bindings@, bindings@.len() as int), am),
        Expr::If { cond, thn, els, .. } => surf_ok(*cond, vs, am) && surf_ok(*thn, vs, am)
            && surf_ok(*els, vs, am),
        Expr::FunDefs { decls, body, .. } => {
            let am2 = decl_arities(am, decls@, decls@.len() as int);
            decls_distinct(decls@) && (forall|j: int|
                0 <= j < decls@.len() ==> params_distinct((#[trigger] decls@[j]).params@)
                    && surf_ok(
                    decls@[j].body,
                    param_doms(vs, decls@[j].params@, decls@[j].params@.len() as int),
                    am2,
                )) && surf_ok(*body, vs, am2)
        },
        Expr::Call { fun, args, .. } => am.dom().contains(fun@) && am[fun@] == args@.len() as int
            && (forall|j: int| 0 <= j < args@.len() ==> surf_ok(#[trigger] args@[j], vs, am)),
    }
}

/// The whole surface program respects the scoping rules: external
/// declarations are distinct from each other and from the entry name,
/// their parameters are distinct, and the body is well-scoped under the
/// entry parameter and the declared functions.
pub open spec fn surf_prog_ok(p: SurfProg) -> bool {
    &&& forall|i: int, j: int|
        0 <= i < j < p.externs@.len() ==> p.externs@[i].name@ != p.externs@[j].name@
    &&& forall|i: int| 0 <= i < p.externs@.len() ==> (#[trigger] p.externs@[i]).name@ != p.name@
    &&& forall|i: int| 0 <= i < p.externs@.len() ==> params_distinct((#[trigger] p.externs@[i]).params@)
    &&& surf_ok(
        p.body,
        Set::empty().insert(p.param.0@),
        ext_arities(Map::empty().insert(p.name@, 1), p.externs@, p.externs@.len() as int),
    )
}

/// The function arities declared by the first `j` external declarations.
pub open spec fn ext_arities(
    am: Map<Seq<char>, int>,
    exts: Seq<SurfExtDecl>,
    j: int,
) -> Map<Seq<char>, int>
    decreases j,
{
    if j <= 0 {
        am
    } else {
        ext_arities(am, exts, j - 1).insert(exts[j - 1].name@, exts[j - 1].params@.len() as int)
    }
}

/* ----------------------- Shape of the bound program ----------------------- */

// `rshape` relates the surface expression to its resolved form: the tree
// shape, literals and locations are unchanged; every variable occurrence
// carries the `VarName` that the scope maps its source name to; every
// call carries a function name in scope paired with its arity.

/// The variable scope after the first `j` bindings of a `let`.
pub open spec fn bind_map(
    m: Map<Seq<char>, VarName>,
    sbs: Seq<SurfBinding>,
    bbs: Seq<BoundBinding>,
    j: int,
) -> Map<Seq<char>, VarName>
    decreases j,
{
    if j <= 0 {
        m
    } else {
        bind_map(m, sbs, bbs, j - 1).insert(sbs[j - 1].var.0@, bbs[j - 1].var.0)
    }
}

/// The variable scope after the first `j` parameters.
pub open spec fn param_map(
    m: Map<Seq<char>, VarName>,
    sps: Seq<(String, SrcLoc)>,
    bps: Seq<(VarName, SrcLoc)>,
    j: int,
) -> Map<Seq<char>, VarName>
    decreases j,
{
    if j <= 0 {
        m
    } else {
        param_map(m, sps, bps, j - 1).insert(sps[j - 1].0@, bps[j - 1].0)
    }
}

/// The function scope extended with the declarations' bound names and
/// arities.
pub open spec fn decl_pairs(
    fs: Set<(FunName, int)>,
    bds: Seq<BoundFunDecl>,
    j: int,
) -> Set<(FunName, int)>
    decreases j,
{
    if j <= 0 {
        fs
    } else {
        decl_pairs(fs, bds, j - 1).insert((bds[j - 1].name, bds[j - 1].params@.len() as int))
    }
}

/// The bound declaration mirrors the surface declaration: same location,
/// a fresh mangled name whose hint is the source name, and parameters
/// with the same locations and hints.
pub open spec fn decl_shape(sd: SurfFunDecl, bd: BoundFunDecl) -> bool {
    &&& bd.loc == sd.loc
    &&& bd.name is Mangled
    &&& fun_hint_of(bd.name) == sd.name@
    &&& bd.params@.len() == sd.params@.len()
    &&& forall|p: int|
        0 <= p < sd.params@.len() ==> (#[trigger] bd.params@[p]).1 == sd.params@[p].1
            && bd.params@[p].0.hint@ == sd.params@[p].0@
}

/// The resolved expression is the surface expression with every name
/// replaced according to the scope maps.
pub open spec fn rshape(
    s: SurfExpr,
    b: BoundExpr,
    m: Map<Seq<char>, VarName>,
    fs: Set<(FunName, int)>,
) -> bool
    decreases s,
{
    match (s, b) {
        (Expr::Num(n, l), Expr::Num(n2, l2)) => n2 == n && l2 == l,
        (Expr::Bool(v, l), Expr::Bool(v2, l2)) => v2 == v && l2 == l,
        (Expr::Var(x, l), Expr::Var(v, l2)) => l2 == l && m.dom().contains(x@) && m[x@] == v
            && v.hint@ == x@,
        (
            Expr::Prim { prim, args, loc },
            Expr::Prim { prim: prim2, args: args2, loc: loc2 },
        ) => prim2 == prim && loc2 == loc && args2@.len() == args@.len() && args@.len()
            == spec_arity(prim) && (forall|j: int|
            0 <= j < args@.len() ==> rshape(#[trigger] args@[j], args2@[j], m, fs)),
        (
            Expr::Let { bindings, body, loc },
            Expr::Let { bindings: bbs, body: body2, loc: loc2 },
        ) => loc2 == loc && bbs@.len() == bindings@.len() && (forall|j: int|
            0 <= j < bindings@.len() ==> (#[trigger] bbs@[j]).var.1 == bindings@[j].var.1
                && bbs@[j].var.0.hint@ == bindings@[j].var.0@ && rshape(
                bindings@[j].expr,
                bbs@[j].expr,
                bind_map(m, bindings@, bbs@, j),
                fs,
            )) && rshape(*body, *body2, bind_map(m, bindings@, bbs@, bindings@.len() as int), fs),
        (
            Expr::If { cond, thn, els, loc },
            Expr::If { cond: cond2, thn: thn2, els: els2, loc: loc2 },
        ) => loc2 == loc && rshape(*cond, *cond2, m, fs) && rshape(*thn, *thn2, m, fs) && rshape(
            *els,
            *els2,
            m,
            fs,
        ),
        (
            Expr::FunDefs { decls, body, loc },
            Expr::FunDefs { decls: bds, body: body2, loc: loc2 },
        ) => {
            let fs2 = decl_pairs(fs, bds@, bds@.len() as int);
            loc2 == loc && bds@.len() == decls@.len() && (forall|j: int|
                0 <= j < decls@.len() ==> decl_shape(#[trigger] decls@[j], bds@[j]) && rshape(
                    decls@[j].body,
                    bds@[j].body,
                    param_map(m, decls@[j].params@, bds@[j].params@, decls@[j].params@.len() as int),
                    fs2,
                )) && rshape(*body, *body2, m, fs2)
        },
        (
            Expr::Call { fun, args, loc },
            Expr::Call { fun: fun2, args: args2, loc: loc2 },
        ) => loc2 == loc && args2@.len() == args@.len() && fs.contains((fun2, args@.len() as int))
            && (forall|j: int| 0 <= j < args@.len() ==> rshape(#[trigger] args@[j], args2@[j], m, fs)),
        _ => false,
    }
}

/// The bound external declaration mirrors the surface one.
pub open spec fn ext_shape(se: SurfExtDecl, be: BoundExtDecl) -> bool {
    &&& be.loc == se.loc
    &&& be.name is Unmangled
    &&& fun_hint_of(be.name) == se.name@
    &&& be.params@.len() == se.params@.len()
    &&& forall|p: int|
        0 <= p < se.params@.len() ==> (#[trigger] be.params@[p]).1 == se.params@[p].1
            && be.params@[p].0.hint@ == se.params@[p].0@
}

/// The function scope declared by the bound program: its external
/// declarations, then the entry under its reserved name with arity one.
pub open spec fn ext_pairs(
    fs: Set<(FunName, int)>,
    bexts: Seq<BoundExtDecl>,
    j: int,
) -> Set<(FunName, int)>
    decreases j,
{
    if j <= 0 {
        fs
    } else {
        ext_pairs(fs, bexts, j - 1).insert((bexts[j - 1].name, bexts[j - 1].params@.len() as int))
    }
}

/// The bound program mirrors the surface program: externs and body keep
/// their shape, the entry is renamed to the reserved unmangled name
/// `entry`, and the body is resolved under the entry parameter and the
/// declared functions.
pub open spec fn prog_shape(p: SurfProg, bp: BoundProg) -> bool {
    &&& bp.loc == p.loc
    &&& bp.name is Unmangled
    &&& fun_hint_of(bp.name) == "entry"@
    &&& bp.param.1 == p.param.1
    &&& bp.param.0.hint@ == p.param.0@
    &&& bp.externs@.len() == p.externs@.len()
    &&& forall|i: int| 0 <= i < p.externs@.len() ==> ext_shape(p.externs@[i], #[trigger] bp.externs@[i])
    &&& rshape(
        p.body,
        bp.body,
        Map::empty().insert(p.param.0@, bp.param.0),
        ext_pairs(Set::empty().insert((bp.name, 1int)), bp.externs@, bp.externs@.len() as int),
    )
}

/* ------------------------------ Helper lemmas ----------------------------- */

proof fn lemma_loc_in_list<V, F>(l: SrcLoc, s: Seq<Expr<V, F>>, i: int, j: int)
    requires
        0 <= i <= j < s.len(),
        loc_in_expr(l, s[j]),
    ensures
        loc_in_list(l, s, i),
    decreases j - i,
{
    if i < j {
        lemma_loc_in_list(l, s, i + 1, j);
    }
}

proof fn lemma_loc_in_binds<V, F>(l: SrcLoc, s: Seq<Binding<V, F>>, i: int, j: int)
    requires
        0 <= i <= j < s.len(),
        l == s[j].var.1 || loc_in_expr(l, s[j].expr),
    ensures
        loc_in_binds(l, s, i),
    decreases j - i,
{
    if i < j {
        lemma_loc_in_binds(l, s, i + 1, j);
    }
}

proof fn lemma_loc_in_decls<V, F>(l: SrcLoc, s: Seq<crate::ast::FunDecl<V, F>>, i: int, j: int)
    requires
        0 <= i <= j < s.len(),
        l == s[j].loc || loc_in_params(l, s[j].params@, 0) || loc_in_expr(l, s[j].body),
    ensures
        loc_in_decls(l, s, i),
    decreases j - i,
{
    if i < j {
        lemma_loc_in_decls(l, s, i + 1, j);
    }
}

proof fn lemma_loc_in_params<V>(l: SrcLoc, s: Seq<(V, SrcLoc)>, i: int, j: int)
    requires
        0 <= i <= j < s.len(),
        l == s[j].1,
    ensures
        loc_in_params(l, s, i),
    decreases j - i,
{
    if i < j {
        lemma_loc_in_params(l, s, i + 1, j);
    }
}

proof fn lemma_loc_in_exts<V, F>(l: SrcLoc, s: Seq<crate::ast::ExtDecl<V, F>>, i: int, j: int)
    requires
        0 <= i <= j < s.len(),
        l == s[j].loc || loc_in_params(l, s[j].params@, 0),
    ensures
        loc_in_exts(l, s, i),
    decreases j - i,
{
    if i < j {
        lemma_loc_in_exts(l, s, i + 1, j);
    }
}

/// A prefix builder only reads the first `j` elements of its sequence.
proof fn lemma_bind_map_agree(
    m: Map<Seq<char>, VarName>,
    sbs: Seq<SurfBinding>,
    bbs1: Seq<BoundBinding>,
    bbs2: Seq<BoundBinding>,
    j: int,
)
    requires
        j <= bbs1.len(),
        j <= bbs2.len(),
        forall|k: int| 0 <= k < j ==> bbs1[k] == bbs2[k],
    ensures
        bind_map(m, sbs, bbs1, j) == bind_map(m, sbs, bbs2, j),
    decreases j,
{
    if j > 0 {
        lemma_bind_map_agree(m, sbs, bbs1, bbs2, j - 1);
    }
}

proof fn lemma_param_map_agree(
    m: Map<Seq<char>, VarName>,
    sps: Seq<(String, SrcLoc)>,
    bps1: Seq<(VarName, SrcLoc)>,
    bps2: Seq<(VarName, SrcLoc)>,
    j: int,
)
    requires
        j <= bps1.len(),
        j <= bps2.len(),
        forall|k: int| 0 <= k < j ==> bps1[k] == bps2[k],
    ensures
        param_map(m, sps, bps1, j) == param_map(m, sps, bps2, j),
    decreases j,
{
    if j > 0 {
        lemma_param_map_agree(m, sps, bps1, bps2, j - 1);
    }
}

proof fn lemma_decl_pairs_agree(
    fs: Set<(FunName, int)>,
    bds1: Seq<BoundFunDecl>,
    bds2: Seq<BoundFunDecl>,
    j: int,
)
    requires
        j <= bds1.len(),
        j <= bds2.len(),
        forall|k: int| 0 <= k < j ==> bds1[k] == bds2[k],
    ensures
        decl_pairs(fs, bds1, j) == decl_pairs(fs, bds2, j),
    decreases j,
{
    if j > 0 {
        lemma_decl_pairs_agree(fs, bds1, bds2, j - 1);
    }
}

proof fn lemma_ext_pairs_agree(
    fs: Set<(FunName, int)>,
    b1: Seq<BoundExtDecl>,
    b2: Seq<BoundExtDecl>,
    j: int,
)
    requires
        j <= b1.len(),
        j <= b2.len(),
        forall|k: int| 0 <= k < j ==> b1[k] == b2[k],
    ensures
        ext_pairs(fs, b1, j) == ext_pairs(fs, b2, j),
    decreases j,
{
    if j > 0 {
        lemma_ext_pairs_agree(fs, b1, b2, j - 1);
    }
}

/// The domain of the scope map after `j` bindings is the name set after
/// `j` bindings, provided the two grew in step.
proof fn lemma_bind_map_dom(
    m: Map<Seq<char>, VarName>,
    sbs: Seq<SurfBinding>,
    bbs: Seq<BoundBinding>,
    j: int,
)
    ensures
        bind_map(m, sbs, bbs, j).dom() == let_doms(m.dom(), sbs, j),
    decreases j,
{
    if j > 0 {
        lemma_bind_map_dom(m, sbs, bbs, j - 1);
        assert(bind_map(m, sbs, bbs, j).dom() =~= let_doms(m.dom(), sbs, j));
    } else {
        assert(bind_map(m, sbs, bbs, j).dom() =~= let_doms(m.dom(), sbs, j));
    }
}

proof fn lemma_param_map_dom(
    m: Map<Seq<char>, VarName>,
    sps: Seq<(String, SrcLoc)>,
    bps: Seq<(VarName, SrcLoc)>,
    j: int,
)
    ensures
        param_map(m, sps, bps, j).dom() == param_doms(m.dom(), sps, j),
    decreases j,
{
    if j > 0 {
        lemma_param_map_dom(m, sps, bps, j - 1);
        assert(param_map(m, sps, bps, j).dom() =~= param_doms(m.dom(), sps, j));
    } else {
        assert(param_map(m, sps, bps, j).dom() =~= param_doms(m.dom(), sps, j));
    }
}

/// Every binding keeps the hint of its source name, so the scope map
/// keeps mapping each name to a variable hinted with it.
proof fn lemma_bind_map_vmap_ok(
    m: Map<Seq<char>, VarName>,
    sbs: Seq<SurfBinding>,
    bbs: Seq<BoundBinding>,
    j: int,
)
    requires
        vmap_ok(m),
        j <= bbs.len(),
        j <= sbs.len(),
        forall|k: int| 0 <= k < j ==> (#[trigger] bbs[k]).var.0.hint@ == sbs[k].var.0@,
    ensures
        vmap_ok(bind_map(m, sbs, bbs, j)),
    decreases j,
{
    if j > 0 {
        lemma_bind_map_vmap_ok(m, sbs, bbs, j - 1);
    }
}

proof fn lemma_param_map_vmap_ok(
    m: Map<Seq<char>, VarName>,
    sps: Seq<(String, SrcLoc)>,
    bps: Seq<(VarName, SrcLoc)>,
    j: int,
)
    requires
        vmap_ok(m),
        j <= bps.len(),
        j <= sps.len(),
        forall|k: int| 0 <= k < j ==> (#[trigger] bps[k]).0.hint@ == sps[k].0@,
    ensures
        vmap_ok(param_map(m, sps, bps, j)),
    decreases j,
{
    if j > 0 {
        lemma_param_map_vmap_ok(m, sps, bps, j - 1);
    }
}

/// `decl_pairs` only grows the pair set.
proof fn lemma_decl_pairs_grow(fs: Set<(FunName, int)>, bds: Seq<BoundFunDecl>, j: int)
    ensures
        fs.subset_of(decl_pairs(fs, bds, j)),
    decreases j,
{
    if j > 0 {
        lemma_decl_pairs_grow(fs, bds, j - 1);
    }
}

/// A larger pair set accepts every resolution that a smaller one does.
proof fn lemma_rshape_mono(
    s: SurfExpr,
    b: BoundExpr,
    m: Map<Seq<char>, VarName>,
    fs1: Set<(FunName, int)>,
    fs2: Set<(FunName, int)>,
)
    requires
        rshape(s, b, m, fs1),
        fs1.subset_of(fs2),
    ensures
        rshape(s, b, m, fs2),
    decreases s,
{
    match (s, b) {
        (Expr::Prim { args, .. }, Expr::Prim { args: args2, .. }) => {
            assert forall|j: int| 0 <= j < args@.len() implies rshape(
                #[trigger] args@[j],
                args2@[j],
                m,
                fs2,
            ) by {
                lemma_rshape_mono(args@[j], args2@[j], m, fs1, fs2);
            }
        },
        (Expr::Let { bindings, body, .. }, Expr::Let { bindings: bbs, body: body2, .. }) => {
            assert forall|j: int| 0 <= j < bindings@.len() implies (#[trigger] bbs@[j]).var.1
                == bindings@[j].var.1 && bbs@[j].var.0.hint@ == bindings@[j].var.0@ && rshape(
                bindings@[j].expr,
                bbs@[j].expr,
                bind_map(m, bindings@, bbs@, j),
                fs2,
            ) by {
                lemma_rshape_mono(
                    bindings@[j].expr,
                    bbs@[j].expr,
                    bind_map(m, bindings@, bbs@, j),
                    fs1,
                    fs2,
                );
            }
            lemma_rshape_mono(
                *body,
                *body2,
                bind_map(m, bindings@, bbs@, bindings@.len() as int),
                fs1,
                fs2,
            );
        },
        (Expr::If { cond, thn, els, .. }, Expr::If { cond: c2, thn: t2, els: e2, .. }) => {
            lemma_rshape_mono(*cond, *c2, m, fs1, fs2);
            lemma_rshape_mono(*thn, *t2, m, fs1, fs2);
            lemma_rshape_mono(*els, *e2, m, fs1, fs2);
        },
        (Expr::FunDefs { decls, body, .. }, Expr::FunDefs { decls: bds, body: body2, .. }) => {
            let n = bds@.len() as int;
            lemma_decl_pairs_mono(fs1, fs2, bds@, n);
            assert forall|j: int| 0 <= j < decls@.len() implies decl_shape(
                #[trigger] decls@[j],
                bds@[j],
            ) && rshape(
                decls@[j].body,
                bds@[j].body,
                param_map(m, decls@[j].params@, bds@[j].params@, decls@[j].params@.len() as int),
                decl_pairs(fs2, bds@, n),
            ) by {
                lemma_rshape_mono(
                    decls@[j].body,
                    bds@[j].body,
                    param_map(
                        m,
                        decls@[j].params@,
                        bds@[j].params@,
                        decls@[j].params@.len() as int,
                    ),
                    decl_pairs(fs1, bds@, n),
                    decl_pairs(fs2, bds@, n),
                );
            }
            lemma_rshape_mono(*body, *body2, m, decl_pairs(fs1, bds@, n), decl_pairs(fs2, bds@, n));
        },
        (Expr::Call { args, .. }, Expr::Call { args: args2, .. }) => {
            assert forall|j: int| 0 <= j < args@.len() implies rshape(
                #[trigger] args@[j],
                args2@[j],
                m,
                fs2,
            ) by {
                lemma_rshape_mono(args@[j], args2@[j], m, fs1, fs2);
            }
        },
        _ => {},
    }
}

proof fn lemma_decl_pairs_mono(
    fs1: Set<(FunName, int)>,
    fs2: Set<(FunName, int)>,
    bds: Seq<BoundFunDecl>,
    j: int,
)
    requires
        fs1.subset_of(fs2),
    ensures
        decl_pairs(fs1, bds, j).subset_of(decl_pairs(fs2, bds, j)),
    decreases j,
{
    if j > 0 {
        lemma_decl_pairs_mono(fs1, fs2, bds, j - 1);
    }
}

/* ------------------------------ Environments ------------------------------ */

/// A function in scope: its resolved name and its arity.
#[derive(Debug, Clone)]
pub struct EnvFun {
    pub name: FunName,
    pub arity: usize,
}

impl EnvFun {
    pub fn new(name: FunName, arity: usize) -> (r: Self)
        ensures
            r == (EnvFun { name, arity }),
    {
        EnvFun { name, arity }
    }
}

/// What the resolver's variable scope holds: source name to bound name.
pub uninterp spec fn var_map_of(m: im::HashMap<String, VarName>) -> Map<Seq<char>, VarName>;

/// What the resolver's function scope holds: source name to bound name
/// and arity.
pub uninterp spec fn fun_map_of(m: im::HashMap<String, EnvFun>) -> Map<Seq<char>, EnvFun>;

/// Relies on im::HashMap::new: a freshly constructed map is empty.
#[verifier::external_body]
fn var_map_new() -> (r: im::HashMap<String, VarName>)
    ensures
        var_map_of(r) =~= Map::empty(),
{
    im::HashMap::new()
}

/// Relies on im::HashMap::insert: binds the key to the value and leaves
/// the other bindings unchanged.
#[verifier::external_body]
fn var_map_insert(m: &mut im::HashMap<String, VarName>, k: String, v: VarName)
    ensures
        var_map_of(*final(m)) == var_map_of(*old(m)).insert(k@, v),
{
    m.insert(k, v);
}

/// Relies on im::HashMap::get: returns the value bound to the key, if
/// any; the value's fields are those that were inserted.
#[verifier::external_body]
fn var_map_get(m: &im::HashMap<String, VarName>, k: &String) -> (r: Option<VarName>)
    ensures
        match r {
            Some(v) => var_map_of(*m).dom().contains(k@) && var_map_of(*m)[k@] == v,
            None => !var_map_of(*m).dom().contains(k@),
        },
{
    m.get(k).cloned()
}

/// Relies on im::HashMap::clone: the clone holds the same bindings.
#[verifier::external_body]
fn var_map_clone(m: &im::HashMap<String, VarName>) -> (r: im::HashMap<String, VarName>)
    ensures
        var_map_of(r) == var_map_of(*m),
{
    m.clone()
}

/// Relies on im::HashMap::new: a freshly constructed map is empty.
#[verifier::external_body]
fn fun_map_new() -> (r: im::HashMap<String, EnvFun>)
    ensures
        fun_map_of(r) =~= Map::empty(),
{
    im::HashMap::new()
}

/// Relies on im::HashMap::insert: binds the key to the value and leaves
/// the other bindings unchanged.
#[verifier::external_body]
fn fun_map_insert(m: &mut im::HashMap<String, EnvFun>, k: String, v: EnvFun)
    ensures
        fun_map_of(*final(m)) == fun_map_of(*old(m)).insert(k@, v),
{
    m.insert(k, v);
}

/// Relies on im::HashMap::get: returns the value bound to the key, if
/// any; the value's fields are those that were inserted.
#[verifier::external_body]
fn fun_map_get(m: &im::HashMap<String, EnvFun>, k: &String) -> (r: Option<EnvFun>)
    ensures
        match r {
            Some(v) => fun_map_of(*m).dom().contains(k@) && fun_map_of(*m)[k@] == v,
            None => !fun_map_of(*m).dom().contains(k@),
        },
{
    m.get(k).cloned()
}

/// Relies on im::HashMap::clone: the clone holds the same bindings.
#[verifier::external_body]
fn fun_map_clone(m: &im::HashMap<String, EnvFun>) -> (r: im::HashMap<String, EnvFun>)
    ensures
        fun_map_of(r) == fun_map_of(*m),
{
    m.clone()
}

/// The lexically scoped environment of the resolver: persistent maps from
/// source names to bound variables and to functions in scope.
struct Env {
    vars: im::HashMap<String, VarName>,
    labels: im::HashMap<String, EnvFun>,
}

/// The variable scope that the environment holds.
spec fn vmap(e: Env) -> Map<Seq<char>, VarName> {
    var_map_of(e.vars)
}

/// The function scope that the environment holds.
spec fn fmap(e: Env) -> Map<Seq<char>, EnvFun> {
    fun_map_of(e.labels)
}

/// Every name in the variable scope maps to a variable hinted with it.
pub open spec fn vmap_ok(m: Map<Seq<char>, VarName>) -> bool {
    forall|k: Seq<char>| m.dom().contains(k) ==> (#[trigger] m[k]).hint@ == k
}

/// The function pairs in scope: each function's bound name with its arity.
pub open spec fn env_pairs(fm: Map<Seq<char>, EnvFun>) -> Set<(FunName, int)> {
    fm.values().map(|ef: EnvFun| (ef.name, ef.arity as int))
}

/// The arity map in scope, keyed by source name.
pub open spec fn arities_of(fm: Map<Seq<char>, EnvFun>) -> Map<Seq<char>, int> {
    Map::new(|k: Seq<char>| fm.dom().contains(k), |k: Seq<char>| fm[k].arity as int)
}

proof fn lemma_env_pairs_insert(fm: Map<Seq<char>, EnvFun>, k: Seq<char>, ef: EnvFun)
    ensures
        env_pairs(fm.insert(k, ef)).subset_of(
            env_pairs(fm).insert((ef.name, ef.arity as int)),
        ),
        env_pairs(fm.insert(k, ef)).contains((ef.name, ef.arity as int)),
    {
    let fm2 = fm.insert(k, ef);
    assert forall|p: (FunName, int)| env_pairs(fm2).contains(p) implies env_pairs(fm).insert(
        (ef.name, ef.arity as int),
    ).contains(p) by {
        let v = choose|v: EnvFun|
            fm2.values().contains(v) && (v.name, v.arity as int) == p;
        if v != ef {
            let k2 = choose|k2: Seq<char>| #[trigger]
                fm2.dom().contains(k2) && fm2[k2] == v;
            assert(fm.dom().contains(k2) && fm[k2] == v);
            assert(fm.values().contains(v));
        }
    }
    assert(fm2.dom().contains(k) && fm2[k] == ef);
    assert(fm2.values().contains(ef));
}

proof fn lemma_env_pairs_member(fm: Map<Seq<char>, EnvFun>, k: Seq<char>)
    requires
        fm.dom().contains(k),
    ensures
        env_pairs(fm).contains((fm[k].name, fm[k].arity as int)),
{
    assert(fm.values().contains(fm[k]));
}

proof fn lemma_arities_insert(fm: Map<Seq<char>, EnvFun>, k: Seq<char>, ef: EnvFun)
    ensures
        arities_of(fm.insert(k, ef)) == arities_of(fm).insert(k, ef.arity as int),
{
    assert(arities_of(fm.insert(k, ef)) =~= arities_of(fm).insert(k, ef.arity as int));
}

impl Env {
    fn new() -> (r: Self)
        ensures
            vmap(r) =~= Map::empty(),
            fmap(r) =~= Map::empty(),
    {
        Env { vars: var_map_new(), labels: fun_map_new() }
    }

    fn insert_var(&mut self, var: String, var_name: VarName)
        ensures
            vmap(*final(self)) == vmap(*old(self)).insert(var@, var_name),
            fmap(*final(self)) == fmap(*old(self)),
    {
        var_map_insert(&mut self.vars, var, var_name);
    }

    fn get_var_name(&self, var: &String) -> (r: Option<VarName>)
        ensures
            match r {
                Some(v) => vmap(*self).dom().contains(var@) && vmap(*self)[var@] == v,
                None => !vmap(*self).dom().contains(var@),
            },
    {
        var_map_get(&self.vars, var)
    }

    fn insert_label(&mut self, label: String, fun_name: FunName, arity: usize)
        ensures
            fmap(*final(self)) == fmap(*old(self)).insert(
                label@,
                EnvFun { name: fun_name, arity },
            ),
            vmap(*final(self)) == vmap(*old(self)),
    {
        fun_map_insert(&mut self.labels, label, EnvFun::new(fun_name, arity));
    }

    fn get_env_fun(&self, label: &String) -> (r: Option<EnvFun>)
        ensures
            match r {
                Some(v) => fmap(*self).dom().contains(label@) && fmap(*self)[label@] == v,
                None => !fmap(*self).dom().contains(label@),
            },
    {
        fun_map_get(&self.labels, label)
    }

    fn clone_env(&self) -> (r: Self)
        ensures
            vmap(r) == vmap(*self),
            fmap(r) == fmap(*self),
    {
        Env { vars: var_map_clone(&self.vars), labels: fun_map_clone(&self.labels) }
    }
}



/* --------------------- Which error resolution reports ---------------------- */

// `err_in_expr` ties a reported error to a matching occurrence in the
// input: an unbound-variable error names a variable occurrence at its
// location, a duplicate-binder error a let that binds the name twice,
// and so on.  Together with the success condition, this pins the error
// down to the offending site for any given program.

/// Two bindings of this very `let` share the error's name, the later one
/// at the error's location.
pub open spec fn dup_binders(sbs: Seq<SurfBinding>, n: Seq<char>, l: SrcLoc) -> bool {
    exists|i: int, j: int|
        0 <= i < j < sbs.len() && (#[trigger] sbs[i]).var.0@ == n && (#[trigger] sbs[j]).var.0@
            == n && sbs[j].var.1 == l
}

/// Two parameters of one declaration share the error's name, the later
/// one at the error's location.
pub open spec fn dup_params(sps: Seq<(String, SrcLoc)>, n: Seq<char>, l: SrcLoc) -> bool {
    exists|i: int, j: int|
        0 <= i < j < sps.len() && (#[trigger] sps[i]).0@ == n && (#[trigger] sps[j]).0@ == n
            && sps[j].1 == l
}

/// Two declarations of one block share the error's name, the later one
/// at the error's location.
pub open spec fn dup_decls(sds: Seq<SurfFunDecl>, n: Seq<char>, l: SrcLoc) -> bool {
    exists|i: int, j: int|
        0 <= i < j < sds.len() && (#[trigger] sds[i]).name@ == n && (#[trigger] sds[j]).name@
            == n && sds[j].loc == l
}

/// The error matches an occurrence in the expression.  The carried name,
/// location and (for arity mismatches) found-count all come from that
/// occurrence.
pub open spec fn err_in_expr(e: CompileErr, s: SurfExpr) -> bool
    decreases s,
{
    match s {
        Expr::Num(..) => false,
        Expr::Bool(..) => false,
        Expr::Var(x, l) => e matches CompileErr::UnboundVariable(n, ll) && n@ == x@ && ll == l,
        Expr::Prim { args, .. } => err_in_list(e, args@, 0),
        Expr::Let { bindings, body, .. } => (e matches CompileErr::DuplicateVariable(n, ll)
            && dup_binders(bindings@, n@, ll)) || err_in_binds(e, bindings@, 0) || err_in_expr(
            e,
            *body,
        ),
        Expr::If { cond, thn, els, .. } => err_in_expr(e, *cond) || err_in_expr(e, *thn)
            || err_in_expr(e, *els),
        Expr::FunDefs { decls, body, .. } => (e matches CompileErr::DuplicateFunction(n, ll)
            && dup_decls(decls@, n@, ll)) || (e matches CompileErr::DuplicateParameter(n, ll)
            && exists|d: int|
                0 <= d < decls@.len() && dup_params((#[trigger] decls@[d]).params@, n@, ll))
            || err_in_decls(e, decls@, 0) || err_in_expr(e, *body),
        Expr::Call { fun, args, loc } => (e matches CompileErr::UnboundFunction(n, ll) && n@
            == fun@ && ll == loc) || (e matches CompileErr::ArityMismatch {
            name,
            found,
            loc: ll,
            ..
        } && name@ == fun@ && found == args@.len() && ll == loc) || err_in_list(e, args@, 0),
    }
}

pub open spec fn err_in_list(e: CompileErr, s: Seq<SurfExpr>, i: int) -> bool
    decreases s, s.len() - i,
{
    if i < 0 || i >= s.len() {
        false
    } else {
        err_in_expr(e, s[i]) || err_in_list(e, s, i + 1)
    }
}

pub open spec fn err_in_binds(e: CompileErr, s: Seq<SurfBinding>, i: int) -> bool
    decreases s, s.len() - i,
{
    if i < 0 || i >= s.len() {
        false
    } else {
        err_in_expr(e, s[i].expr) || err_in_binds(e, s, i + 1)
    }
}

pub open spec fn err_in_decls(e: CompileErr, s: Seq<SurfFunDecl>, i: int) -> bool
    decreases s, s.len() - i,
{
    if i < 0 || i >= s.len() {
        false
    } else {
        err_in_expr(e, s[i].body) || err_in_decls(e, s, i + 1)
    }
}

/// The error matches an occurrence in the program: among the external
/// declarations (a name declared twice, or clashing with the entry's
/// name, or a repeated parameter), or inside the body.
pub open spec fn err_in_prog(e: CompileErr, p: SurfProg) -> bool {
    ||| (e matches CompileErr::DuplicateFunction(n, ll) && (exists|i: int, j: int|
        0 <= i < j < p.externs@.len() && (#[trigger] p.externs@[i]).name@ == n@
            && (#[trigger] p.externs@[j]).name@ == n@ && p.externs@[j].loc == ll))
    ||| (e matches CompileErr::DuplicateFunction(n, ll) && (exists|i: int|
        0 <= i < p.externs@.len() && (#[trigger] p.externs@[i]).name@ == n@ && n@ == p.name@
            && p.externs@[i].loc == ll))
    ||| (e matches CompileErr::DuplicateParameter(n, ll) && (exists|i: int|
        0 <= i < p.externs@.len() && dup_params((#[trigger] p.externs@[i]).params@, n@, ll)))
    ||| err_in_expr(e, p.body)
}

proof fn lemma_err_in_list(e: CompileErr, s: Seq<SurfExpr>, i: int, j: int)
    requires
        0 <= i <= j < s.len(),
        err_in_expr(e, s[j]),
    ensures
        err_in_list(e, s, i),
    decreases j - i,
{
    if i < j {
        lemma_err_in_list(e, s, i + 1, j);
    }
}

proof fn lemma_err_in_binds(e: CompileErr, s: Seq<SurfBinding>, i: int, j: int)
    requires
        0 <= i <= j < s.len(),
        err_in_expr(e, s[j].expr),
    ensures
        err_in_binds(e, s, i),
    decreases j - i,
{
    if i < j {
        lemma_err_in_binds(e, s, i + 1, j);
    }
}

proof fn lemma_err_in_decls(e: CompileErr, s: Seq<SurfFunDecl>, i: int, j: int)
    requires
        0 <= i <= j < s.len(),
        err_in_expr(e, s[j].body),
    ensures
        err_in_decls(e, s, i),
    decreases j - i,
{
    if i < j {
        lemma_err_in_decls(e, s, i + 1, j);
    }
}

/* -------------------------------- Resolver -------------------------------- */

/// The resolver carries the identifier generators; resolution threads
/// them through the whole program so that no index is ever reused.
#[derive(Debug)]
pub struct Resolver {
    pub vars: IdGen<VarName>,
    pub funs: IdGen<FunName>,
}

impl Resolver {
    pub fn new() -> (r: Self)
        ensures
            r.vars.count == 0,
            r.funs.count == 0,
    {
        Resolver { vars: IdGen::new(), funs: IdGen::new() }
    }

    /// Check a declaration's parameters for duplicates, give each a fresh
    /// `VarName`, and bring them into scope.
    #[verifier::loop_isolation(false)]
    fn resolve_params(&mut self, params: &Vec<(String, SrcLoc)>, env: &mut Env) -> (res: Result<
        Vec<(VarName, SrcLoc)>,
        CompileErr,
    >)
        ensures
            (res is Ok) == params_distinct(params@),
            fmap(*final(env)) == fmap(*old(env)),
            match res {
                Ok(bps) => {
                    &&& bps@.len() == params@.len()
                    &&& forall|p: int|
                        0 <= p < params@.len() ==> (#[trigger] bps@[p]).1 == params@[p].1
                            && bps@[p].0.hint@ == params@[p].0@
                    &&& vmap(*final(env)) == param_map(
                        vmap(*old(env)),
                        params@,
                        bps@,
                        params@.len() as int,
                    )
                },
                Err(e) => {
                    &&& loc_in_params(err_loc(e), params@, 0)
                    &&& e matches CompileErr::DuplicateParameter(n, ll) && dup_params(
                        params@,
                        n@,
                        ll,
                    )
                    &&& vmap(*final(env)) == vmap(*old(env))
                },
            },
    {
        // Check for duplicates.
        let mut j: usize = 0;
        while j < params.len()
            invariant
                j <= params@.len(),
                forall|a: int, b: int| 0 <= a < b < j ==> params@[a].0@ != params@[b].0@,
                *env == *old(env),
            decreases params@.len() - j,
        {
            let mut i: usize = 0;
            while i < j
                invariant
                    i <= j < params@.len(),
                    forall|a: int| 0 <= a < i ==> params@[a].0@ != params@[j as int].0@,
                    *env == *old(env),
                decreases j - i,
            {
                if params[i].0 == params[j].0 {
                    proof {
                        lemma_loc_in_params(params@[j as int].1, params@, 0, j as int);
                        assert(dup_params(params@, params@[j as int].0@, params@[j as int].1)) by {
                            let a = i as int;
                            let b = j as int;
                            assert(0 <= a < b < params@.len() && params@[a].0@
                                == params@[b].0@ && params@[b].0@ == params@[b].0@);
                        }
                    }
                    return Err(
                        CompileErr::DuplicateParameter(params[j].0.clone(), params[j].1),
                    );
                }
                i = i + 1;
            }
            j = j + 1;
        }
        // Give each parameter a fresh name and bring it into scope.
        let ghost m0 = vmap(*env);
        let mut bps: Vec<(VarName, SrcLoc)> = Vec::new();
        let mut k: usize = 0;
        while k < params.len()
            invariant
                k <= params@.len(),
                bps@.len() == k as nat,
                forall|p: int|
                    0 <= p < k ==> (#[trigger] bps@[p]).1 == params@[p].1 && bps@[p].0.hint@
                        == params@[p].0@,
                vmap(*env) == param_map(m0, params@, bps@, k as int),
                fmap(*env) == fmap(*old(env)),
            decreases params@.len() - k,
        {
            let ghost bps_before = bps@;
            let vn: VarName = self.vars.fresh(params[k].0.as_str());
            env.insert_var(params[k].0.clone(), vn.clone());
            bps.push((vn, params[k].1));
            proof {
                lemma_param_map_agree(m0, params@, bps_before, bps@, k as int);
            }
            k = k + 1;
        }
        Ok(bps)
    }
}


impl Resolver {
    /// Resolve one function declaration.  Its name must already be in
    /// scope; its parameters come into scope for its body only.
    #[verifier::loop_isolation(false)]
    fn resolve_fun_decl(&mut self, decl: &SurfFunDecl, env: Env) -> (res: Result<
        BoundFunDecl,
        CompileErr,
    >)
        requires
            prims_ok(decl.body),
            vmap_ok(vmap(env)),
            fmap(env).dom().contains(decl.name@),
            fmap(env)[decl.name@].name is Mangled,
            fun_hint_of(fmap(env)[decl.name@].name) == decl.name@,
        ensures
            (res is Ok) == (params_distinct(decl.params@) && surf_ok(
                decl.body,
                param_doms(vmap(env).dom(), decl.params@, decl.params@.len() as int),
                arities_of(fmap(env)),
            )),
            match res {
                Ok(bd) => {
                    &&& decl_shape(*decl, bd)
                    &&& bd.name == fmap(env)[decl.name@].name
                    &&& rshape(
                        decl.body,
                        bd.body,
                        param_map(vmap(env), decl.params@, bd.params@, decl.params@.len() as int),
                        env_pairs(fmap(env)),
                    )
                },
                Err(e) => (loc_in_params(err_loc(e), decl.params@, 0) || loc_in_expr(
                    err_loc(e),
                    decl.body,
                )) && ((e matches CompileErr::DuplicateParameter(n, ll) && dup_params(
                    decl.params@,
                    n@,
                    ll,
                )) || err_in_expr(e, decl.body)),
            },
        decreases *decl,
    {
        let name = match env.get_env_fun(&decl.name) {
            Some(ef) => ef.name,
            None => vstd::pervasive::unreached(),
        };
        let mut env2 = env;
        let bparams = match self.resolve_params(&decl.params, &mut env2) {
            Ok(ps) => ps,
            Err(e) => {
                return Err(e);
            },
        };
        proof {
            lemma_param_map_dom(vmap(env), decl.params@, bparams@, decl.params@.len() as int);
            lemma_param_map_vmap_ok(vmap(env), decl.params@, bparams@, decl.params@.len() as int);
            assert(decreases_to!(*decl => decl.body));
        }
        let bbody = match self.resolve_expr(&decl.body, env2) {
            Ok(b) => b,
            Err(e) => {
                return Err(e);
            },
        };
        Ok(crate::ast::FunDecl { name, params: bparams, body: bbody, loc: decl.loc })
    }

    /// Resolve an expression under the given scope, renaming every
    /// variable and function occurrence to its unique identifier.
    #[verifier::loop_isolation(false)]
    fn resolve_expr(&mut self, expr: &SurfExpr, env: Env) -> (res: Result<BoundExpr, CompileErr>)
        requires
            prims_ok(*expr),
            vmap_ok(vmap(env)),
        ensures
            (res is Ok) == surf_ok(*expr, vmap(env).dom(), arities_of(fmap(env))),
            match res {
                Ok(b) => rshape(*expr, b, vmap(env), env_pairs(fmap(env))),
                Err(e) => loc_in_expr(err_loc(e), *expr) && err_in_expr(e, *expr),
            },
        decreases *expr,
    {
        let ghost m0 = vmap(env);
        let ghost fm0 = fmap(env);
        let ghost vs0 = m0.dom();
        let ghost am0 = arities_of(fm0);
        let ghost fs0 = env_pairs(fm0);
        match expr {
            Expr::Num(n, loc) => Ok(Expr::Num(*n, *loc)),
            Expr::Bool(b, loc) => Ok(Expr::Bool(*b, *loc)),
            Expr::Var(x, loc) => match env.get_var_name(x) {
                Some(v) => Ok(Expr::Var(v, *loc)),
                None => Err(CompileErr::UnboundVariable(x.clone(), *loc)),
            },
            Expr::Prim { prim, args, loc } => {
                let mut bargs: Vec<BoundExpr> = Vec::new();
                let mut i: usize = 0;
                while i < args.len()
                    invariant
                        i <= args@.len(),
                        bargs@.len() == i as nat,
                        forall|j: int| 0 <= j < i ==> rshape(args@[j], #[trigger] bargs@[j], m0, fs0),
                        forall|j: int| 0 <= j < i ==> surf_ok(#[trigger] args@[j], vs0, am0),
                    decreases args@.len() - i,
                {
                    proof {
                        assert(decreases_to!(*expr => (*expr)->Prim_args));
                        assert(decreases_to!((*expr)->Prim_args => args@[i as int]));
                    }
                    match self.resolve_expr(&args[i], env.clone_env()) {
                        Ok(b) => {
                            bargs.push(b);
                        },
                        Err(e) => {
                            proof {
                                lemma_loc_in_list(err_loc(e), args@, 0, i as int);
                                lemma_err_in_list(e, args@, 0, i as int);
                            }
                            return Err(e);
                        },
                    }
                    i = i + 1;
                }
                Ok(Expr::Prim { prim: *prim, args: bargs, loc: *loc })
            },
            Expr::If { cond, thn, els, loc } => {
                proof {
                    assert(decreases_to!(*expr => (*expr)->If_cond));
                    assert(decreases_to!(*expr => (*expr)->If_thn));
                    assert(decreases_to!(*expr => (*expr)->If_els));
                }
                let bc = match self.resolve_expr(&**cond, env.clone_env()) {
                    Ok(b) => b,
                    Err(e) => {
                        return Err(e);
                    },
                };
                let bt = match self.resolve_expr(&**thn, env.clone_env()) {
                    Ok(b) => b,
                    Err(e) => {
                        return Err(e);
                    },
                };
                let be = match self.resolve_expr(&**els, env) {
                    Ok(b) => b,
                    Err(e) => {
                        return Err(e);
                    },
                };
                Ok(
                    Expr::If {
                        cond: Box::new(bc),
                        thn: Box::new(bt),
                        els: Box::new(be),
                        loc: *loc,
                    },
                )
            },
            Expr::Let { bindings, body, loc } => {
                // Check that no two bindings share a name.
                let mut dj: usize = 0;
                while dj < bindings.len()
                    invariant
                        dj <= bindings@.len(),
                        forall|a: int, b: int|
                            0 <= a < b < dj ==> bindings@[a].var.0@ != bindings@[b].var.0@,
                    decreases bindings@.len() - dj,
                {
                    let mut di: usize = 0;
                    while di < dj
                        invariant
                            di <= dj < bindings@.len(),
                            forall|a: int|
                                0 <= a < di ==> bindings@[a].var.0@ != bindings@[dj as int].var.0@,
                        decreases dj - di,
                    {
                        if bindings[di].var.0 == bindings[dj].var.0 {
                            proof {
                                lemma_loc_in_binds(
                                    bindings@[dj as int].var.1,
                                    bindings@,
                                    0,
                                    dj as int,
                                );
                                assert(dup_binders(
                                    bindings@,
                                    bindings@[dj as int].var.0@,
                                    bindings@[dj as int].var.1,
                                )) by {
                                    let a = di as int;
                                    let b = dj as int;
                                    assert(0 <= a < b < bindings@.len() && bindings@[a].var.0@
                                        == bindings@[b].var.0@);
                                }
                            }
                            return Err(
                                CompileErr::DuplicateVariable(
                                    bindings[dj].var.0.clone(),
                                    bindings[dj].var.1,
                                ),
                            );
                        }
                        di = di + 1;
                    }
                    dj = dj + 1;
                }
                // Resolve the bindings left to right; each right-hand side
                // sees the bindings before it.
                let mut env2 = env;
                let mut bbs: Vec<BoundBinding> = Vec::new();
                let mut i: usize = 0;
                while i < bindings.len()
                    invariant
                        i <= bindings@.len(),
                        bbs@.len() == i as nat,
                        fmap(env2) == fm0,
                        vmap(env2) == bind_map(m0, bindings@, bbs@, i as int),
                        vmap_ok(vmap(env2)),
                        forall|j: int|
                            0 <= j < i ==> (#[trigger] bbs@[j]).var.1 == bindings@[j].var.1
                                && bbs@[j].var.0.hint@ == bindings@[j].var.0@,
                        forall|j: int|
                            0 <= j < i ==> rshape(
                                bindings@[j].expr,
                                (#[trigger] bbs@[j]).expr,
                                bind_map(m0, bindings@, bbs@, j),
                                fs0,
                            ),
                        forall|j: int|
                            0 <= j < i ==> surf_ok(
                                (#[trigger] bindings@[j]).expr,
                                let_doms(vs0, bindings@, j),
                                am0,
                            ),
                    decreases bindings@.len() - i,
                {
                    let vn: VarName = self.vars.fresh(bindings[i].var.0.as_str());
                    proof {
                        assert(decreases_to!(*expr => (*expr)->Let_bindings));
                        assert(decreases_to!((*expr)->Let_bindings => bindings@[i as int]));
                        assert(decreases_to!(bindings@[i as int] => bindings@[i as int].expr));
                        lemma_bind_map_dom(m0, bindings@, bbs@, i as int);
                    }
                    match self.resolve_expr(&bindings[i].expr, env2.clone_env()) {
                        Ok(be) => {
                            let ghost bbs_before = bbs@;
                            env2.insert_var(bindings[i].var.0.clone(), vn.clone());
                            bbs.push(Binding { var: (vn, bindings[i].var.1), expr: be });
                            proof {
                                lemma_bind_map_agree(m0, bindings@, bbs_before, bbs@, i as int);
                                assert forall|j: int| 0 <= j < i + 1 implies rshape(
                                    bindings@[j].expr,
                                    (#[trigger] bbs@[j]).expr,
                                    bind_map(m0, bindings@, bbs@, j),
                                    fs0,
                                ) by {
                                    lemma_bind_map_agree(m0, bindings@, bbs_before, bbs@, j);
                                }
                            }
                        },
                        Err(e) => {
                            proof {
                                lemma_loc_in_binds(err_loc(e), bindings@, 0, i as int);
                                lemma_err_in_binds(e, bindings@, 0, i as int);
                            }
                            return Err(e);
                        },
                    }
                    i = i + 1;
                }
                proof {
                    lemma_bind_map_dom(m0, bindings@, bbs@, bindings@.len() as int);
                    assert(decreases_to!(*expr => (*expr)->Let_body));
                }
                let rbody = match self.resolve_expr(&**body, env2) {
                    Ok(b) => b,
                    Err(e) => {
                        return Err(e);
                    },
                };
                Ok(Expr::Let { bindings: bbs, body: Box::new(rbody), loc: *loc })
            },
            Expr::FunDefs { decls, body, loc } => {
                // Check that no two declarations share a name.
                let mut dj: usize = 0;
                while dj < decls.len()
                    invariant
                        dj <= decls@.len(),
                        forall|a: int, b: int|
                            0 <= a < b < dj ==> decls@[a].name@ != decls@[b].name@,
                    decreases decls@.len() - dj,
                {
                    let mut di: usize = 0;
                    while di < dj
                        invariant
                            di <= dj < decls@.len(),
                            forall|a: int| 0 <= a < di ==> decls@[a].name@ != decls@[dj as int].name@,
                        decreases dj - di,
                    {
                        if decls[di].name == decls[dj].name {
                            proof {
                                lemma_loc_in_decls(decls@[dj as int].loc, decls@, 0, dj as int);
                                assert(dup_decls(
                                    decls@,
                                    decls@[dj as int].name@,
                                    decls@[dj as int].loc,
                                )) by {
                                    let a = di as int;
                                    let b = dj as int;
                                    assert(0 <= a < b < decls@.len() && decls@[a].name@
                                        == decls@[b].name@);
                                }
                            }
                            return Err(
                                CompileErr::DuplicateFunction(
                                    decls[dj].name.clone(),
                                    decls[dj].loc,
                                ),
                            );
                        }
                        di = di + 1;
                    }
                    dj = dj + 1;
                }
                // Register every declaration before resolving any of them:
                // the block is mutually recursive.
                let mut env2 = env;
                let ghost mut fresh_names: Seq<FunName> = Seq::empty();
                let mut i: usize = 0;
                while i < decls.len()
                    invariant
                        i <= decls@.len(),
                        fresh_names.len() == i as nat,
                        vmap(env2) == m0,
                        arities_of(fmap(env2)) == decl_arities(am0, decls@, i as int),
                        env_pairs(fmap(env2)).subset_of(
                            fresh_pairs(fs0, fresh_names, decls@, i as int),
                        ),
                        forall|j: int|
                            0 <= j < i ==> (#[trigger] fresh_names[j]) is Mangled && fun_hint_of(
                                fresh_names[j],
                            ) == decls@[j].name@,
                        forall|j: int|
                            0 <= j < i ==> fmap(env2).dom().contains(
                                (#[trigger] decls@[j]).name@,
                            ) && fmap(env2)[decls@[j].name@].name == fresh_names[j] && fmap(
                                env2,
                            )[decls@[j].name@].arity == decls@[j].params@.len(),
                    decreases decls@.len() - i,
                {
                    let fname: FunName = self.funs.fresh(decls[i].name.as_str());
                    let ghost fm_before = fmap(env2);
                    env2.insert_label(decls[i].name.clone(), fname.clone(), decls[i].params.len());
                    proof {
                        let ef = EnvFun { name: fname, arity: decls@[i as int].params@.len() as usize };
                        lemma_env_pairs_insert(fm_before, decls@[i as int].name@, ef);
                        lemma_arities_insert(fm_before, decls@[i as int].name@, ef);
                        let names_before = fresh_names;
                        fresh_names = fresh_names.push(fname);
                        lemma_fresh_pairs_agree(fs0, names_before, fresh_names, decls@, i as int);
                    }
                    i = i + 1;
                }
                let ghost fm1 = fmap(env2);
                let ghost am1 = arities_of(fm1);
                let ghost fs1 = env_pairs(fm1);
                // Resolve each declaration under the extended scope.
                let mut bds: Vec<BoundFunDecl> = Vec::new();
                let mut k: usize = 0;
                while k < decls.len()
                    invariant
                        k <= decls@.len(),
                        bds@.len() == k as nat,
                        vmap(env2) == m0,
                        fmap(env2) == fm1,
                        forall|j: int| 0 <= j < k ==> decl_shape(decls@[j], #[trigger] bds@[j]),
                        forall|j: int| 0 <= j < k ==> (#[trigger] bds@[j]).name == fresh_names[j],
                        forall|j: int|
                            0 <= j < k ==> rshape(
                                decls@[j].body,
                                (#[trigger] bds@[j]).body,
                                param_map(
                                    m0,
                                    decls@[j].params@,
                                    bds@[j].params@,
                                    decls@[j].params@.len() as int,
                                ),
                                fs1,
                            ),
                        forall|j: int|
                            0 <= j < k ==> params_distinct((#[trigger] decls@[j]).params@)
                                && surf_ok(
                                decls@[j].body,
                                param_doms(vs0, decls@[j].params@, decls@[j].params@.len() as int),
                                am1,
                            ),
                    decreases decls@.len() - k,
                {
                    proof {
                        assert(decreases_to!(*expr => (*expr)->FunDefs_decls));
                        assert(decreases_to!((*expr)->FunDefs_decls => decls@[k as int]));
                    }
                    match self.resolve_fun_decl(&decls[k], env2.clone_env()) {
                        Ok(bd) => {
                            bds.push(bd);
                        },
                        Err(e) => {
                            proof {
                                lemma_loc_in_decls(err_loc(e), decls@, 0, k as int);
                                if err_in_expr(e, decls@[k as int].body) {
                                    lemma_err_in_decls(e, decls@, 0, k as int);
                                } else {
                                    assert(e matches CompileErr::DuplicateParameter(n, ll)
                                        && dup_params(decls@[k as int].params@, n@, ll));
                                    assert(exists|d: int|
                                        0 <= d < decls@.len() && (e matches
                                            CompileErr::DuplicateParameter(n, ll) && dup_params(
                                            (#[trigger] decls@[d]).params@,
                                            n@,
                                            ll,
                                        ))) by {
                                        let d = k as int;
                                        assert(0 <= d < decls@.len());
                                    }
                                }
                            }
                            return Err(e);
                        },
                    }
                    k = k + 1;
                }
                proof {
                    assert(decreases_to!(*expr => (*expr)->FunDefs_body));
                }
                let rbody = match self.resolve_expr(&**body, env2) {
                    Ok(b) => b,
                    Err(e) => {
                        return Err(e);
                    },
                };
                proof {
                    let n = decls@.len() as int;
                    lemma_fresh_decl_pairs_eq(fs0, fresh_names, decls@, bds@, n);
                    let fs2 = decl_pairs(fs0, bds@, n);
                    assert(fs1.subset_of(fs2));
                    assert forall|j: int| 0 <= j < n implies decl_shape(
                        #[trigger] decls@[j],
                        bds@[j],
                    ) && rshape(
                        decls@[j].body,
                        bds@[j].body,
                        param_map(
                            m0,
                            decls@[j].params@,
                            bds@[j].params@,
                            decls@[j].params@.len() as int,
                        ),
                        fs2,
                    ) by {
                        lemma_rshape_mono(
                            decls@[j].body,
                            bds@[j].body,
                            param_map(
                                m0,
                                decls@[j].params@,
                                bds@[j].params@,
                                decls@[j].params@.len() as int,
                            ),
                            fs1,
                            fs2,
                        );
                    }
                    lemma_rshape_mono(**body, rbody, m0, fs1, fs2);
                }
                Ok(Expr::FunDefs { decls: bds, body: Box::new(rbody), loc: *loc })
            },
            Expr::Call { fun, args, loc } => {
                let ef = match env.get_env_fun(fun) {
                    Some(ef) => ef,
                    None => {
                        return Err(CompileErr::UnboundFunction(fun.clone(), *loc));
                    },
                };
                if args.len() != ef.arity {
                    return Err(
                        CompileErr::ArityMismatch {
                            name: fun.clone(),
                            expected: ef.arity,
                            found: args.len(),
                            loc: *loc,
                        },
                    );
                }
                let mut bargs: Vec<BoundExpr> = Vec::new();
                let mut i: usize = 0;
                while i < args.len()
                    invariant
                        i <= args@.len(),
                        bargs@.len() == i as nat,
                        forall|j: int| 0 <= j < i ==> rshape(args@[j], #[trigger] bargs@[j], m0, fs0),
                        forall|j: int| 0 <= j < i ==> surf_ok(#[trigger] args@[j], vs0, am0),
                    decreases args@.len() - i,
                {
                    proof {
                        assert(decreases_to!(*expr => (*expr)->Call_args));
                        assert(decreases_to!((*expr)->Call_args => args@[i as int]));
                    }
                    match self.resolve_expr(&args[i], env.clone_env()) {
                        Ok(b) => {
                            bargs.push(b);
                        },
                        Err(e) => {
                            proof {
                                lemma_loc_in_list(err_loc(e), args@, 0, i as int);
                                lemma_err_in_list(e, args@, 0, i as int);
                            }
                            return Err(e);
                        },
                    }
                    i = i + 1;
                }
                proof {
                    lemma_env_pairs_member(fm0, fun@);
                }
                Ok(Expr::Call { fun: ef.name, args: bargs, loc: *loc })
            },
        }
    }
}

/// The pair set extended with the freshly minted declaration names.
pub open spec fn fresh_pairs(
    fs: Set<(FunName, int)>,
    names: Seq<FunName>,
    sds: Seq<SurfFunDecl>,
    j: int,
) -> Set<(FunName, int)>
    decreases j,
{
    if j <= 0 {
        fs
    } else {
        fresh_pairs(fs, names, sds, j - 1).insert((names[j - 1], sds[j - 1].params@.len() as int))
    }
}

proof fn lemma_fresh_pairs_agree(
    fs: Set<(FunName, int)>,
    n1: Seq<FunName>,
    n2: Seq<FunName>,
    sds: Seq<SurfFunDecl>,
    j: int,
)
    requires
        j <= n1.len(),
        j <= n2.len(),
        forall|k: int| 0 <= k < j ==> n1[k] == n2[k],
    ensures
        fresh_pairs(fs, n1, sds, j) == fresh_pairs(fs, n2, sds, j),
    decreases j,
{
    if j > 0 {
        lemma_fresh_pairs_agree(fs, n1, n2, sds, j - 1);
    }
}

proof fn lemma_fresh_decl_pairs_eq(
    fs: Set<(FunName, int)>,
    names: Seq<FunName>,
    sds: Seq<SurfFunDecl>,
    bds: Seq<BoundFunDecl>,
    j: int,
)
    requires
        j <= names.len(),
        j <= sds.len(),
        j <= bds.len(),
        forall|k: int| 0 <= k < j ==> (#[trigger] bds[k]).name == names[k],
        forall|k: int| 0 <= k < j ==> (#[trigger] bds[k]).params@.len() == sds[k].params@.len(),
    ensures
        fresh_pairs(fs, names, sds, j) == decl_pairs(fs, bds, j),
    decreases j,
{
    if j > 0 {
        lemma_fresh_decl_pairs_eq(fs, names, sds, bds, j - 1);
    }
}


impl Resolver {
    /// Resolve a whole program: register the entry point under the
    /// reserved name `entry`, process the external declarations left to
    /// right, bring the entry parameter into scope, and resolve the body.
    #[verifier::loop_isolation(false)]
    pub fn resolve_prog(&mut self, prog: SurfProg) -> (res: Result<BoundProg, CompileErr>)
        requires
            prims_ok(prog.body),
        ensures
            (res is Ok) == surf_prog_ok(prog),
            match res {
                Ok(bp) => prog_shape(prog, bp),
                Err(e) => loc_in_prog(err_loc(e), prog) && err_in_prog(e, prog),
            },
    {
        let mut env = Env::new();

        // Add the entry function to the environment.
        let entry_name = FunName::unmangled("entry");
        env.insert_label(prog.name.clone(), entry_name.clone(), 1);
        let ghost fs_entry = Set::<(FunName, int)>::empty().insert((entry_name, 1int));
        let ghost am_entry = Map::<Seq<char>, int>::empty().insert(prog.name@, 1int);
        proof {
            reveal_strlit("entry");
            lemma_env_pairs_insert(Map::empty(), prog.name@, EnvFun { name: entry_name, arity: 1 });
            lemma_arities_insert(Map::empty(), prog.name@, EnvFun { name: entry_name, arity: 1 });
            assert(env_pairs(Map::empty()) =~= Set::empty());
            assert(arities_of(Map::empty()) =~= Map::empty());
            assert(env_pairs(fmap(env)).subset_of(fs_entry));
            assert(arities_of(fmap(env)) == am_entry);
        }

        // Add the external functions to the environment.
        let mut bexts: Vec<BoundExtDecl> = Vec::new();
        let mut i: usize = 0;
        while i < prog.externs.len()
            invariant
                i <= prog.externs@.len(),
                bexts@.len() == i as nat,
                vmap(env) =~= Map::empty(),
                arities_of(fmap(env)) == ext_arities(am_entry, prog.externs@, i as int),
                env_pairs(fmap(env)).subset_of(ext_pairs(fs_entry, bexts@, i as int)),
                forall|j: int| 0 <= j < i ==> ext_shape(prog.externs@[j], #[trigger] bexts@[j]),
                forall|j: int|
                    0 <= j < i ==> params_distinct((#[trigger] prog.externs@[j]).params@),
                forall|a: int, b: int|
                    0 <= a < b < i ==> prog.externs@[a].name@ != prog.externs@[b].name@,
                forall|a: int| 0 <= a < i ==> (#[trigger] prog.externs@[a]).name@ != prog.name@,
                forall|k: Seq<char>|
                    fmap(env).dom().contains(k) <==> (k == prog.name@ || exists|j: int|
                        0 <= j < i && (#[trigger] prog.externs@[j]).name@ == k),
            decreases prog.externs@.len() - i,
        {
            match env.get_env_fun(&prog.externs[i].name) {
                Some(_) => {
                    proof {
                        lemma_loc_in_exts(prog.externs@[i as int].loc, prog.externs@, 0, i as int);
                        let nm = prog.externs@[i as int].name@;
                        let ll = prog.externs@[i as int].loc;
                        if nm != prog.name@ {
                            let jj = choose|jj: int|
                                0 <= jj < i && (#[trigger] prog.externs@[jj]).name@ == nm;
                            assert(exists|a: int, b: int|
                                0 <= a < b < prog.externs@.len()
                                    && (#[trigger] prog.externs@[a]).name@ == nm
                                    && (#[trigger] prog.externs@[b]).name@ == nm
                                    && prog.externs@[b].loc == ll) by {
                                let a = jj;
                                let b = i as int;
                                assert(0 <= a < b < prog.externs@.len());
                            }
                        } else {
                            assert(exists|a: int|
                                0 <= a < prog.externs@.len()
                                    && (#[trigger] prog.externs@[a]).name@ == nm && nm
                                    == prog.name@ && prog.externs@[a].loc == ll) by {
                                let a = i as int;
                                assert(0 <= a < prog.externs@.len());
                            }
                        }
                    }
                    return Err(
                        CompileErr::DuplicateFunction(
                            prog.externs[i].name.clone(),
                            prog.externs[i].loc,
                        ),
                    );
                },
                None => {},
            }
            let ext_name = FunName::unmangled(prog.externs[i].name.as_str());
            let mut scratch = env.clone_env();
            let bparams = match self.resolve_params(&prog.externs[i].params, &mut scratch) {
                Ok(ps) => ps,
                Err(e) => {
                    proof {
                        lemma_loc_in_exts(err_loc(e), prog.externs@, 0, i as int);
                        assert(exists|a: int|
                            0 <= a < prog.externs@.len() && (e matches
                                CompileErr::DuplicateParameter(n, ll) && dup_params(
                                (#[trigger] prog.externs@[a]).params@,
                                n@,
                                ll,
                            ))) by {
                            let a = i as int;
                            assert(0 <= a < prog.externs@.len());
                        }
                    }
                    return Err(e);
                },
            };
            let ghost fm_before = fmap(env);
            let ghost bexts_before = bexts@;
            let arity = bparams.len();
            env.insert_label(prog.externs[i].name.clone(), ext_name.clone(), arity);
            bexts.push(
                crate::ast::ExtDecl { name: ext_name, params: bparams, loc: prog.externs[i].loc },
            );
            proof {
                let ef = EnvFun { name: ext_name, arity };
                lemma_env_pairs_insert(fm_before, prog.externs@[i as int].name@, ef);
                lemma_arities_insert(fm_before, prog.externs@[i as int].name@, ef);
                lemma_ext_pairs_agree(fs_entry, bexts_before, bexts@, i as int);
            }
            i = i + 1;
        }

        // Bring the entry parameter into scope.
        let param_vn: VarName = self.vars.fresh(prog.param.0.as_str());
        env.insert_var(prog.param.0.clone(), param_vn.clone());
        proof {
            assert(vmap(env) == Map::<Seq<char>, VarName>::empty().insert(
                prog.param.0@,
                param_vn,
            ));
            assert(vmap(env).dom() =~= Set::empty().insert(prog.param.0@));
        }

        let ghost fmE = fmap(env);
        let ghost bexts_final = bexts@;
        let n_ext = bexts.len();

        let bbody = match self.resolve_expr(&prog.body, env) {
            Ok(b) => b,
            Err(e) => {
                return Err(e);
            },
        };

        let bp = Prog {
            externs: bexts,
            name: entry_name,
            param: (param_vn, prog.param.1),
            body: bbody,
            loc: prog.loc,
        };
        proof {
            lemma_rshape_mono(
                prog.body,
                bp.body,
                Map::empty().insert(prog.param.0@, param_vn),
                env_pairs(fmE),
                ext_pairs(fs_entry, bexts_final, n_ext as int),
            );
        }
        Ok(bp)
    }
}


} // verus!
