//! Mapping character offsets of the source text to human-readable line
//! and column spans, and rendering resolution errors as text.

use vstd::prelude::*;
use crate::frontend::{CompileErr, err_loc};
use crate::span::{SrcLoc, Span2, span2_text};
use crate::digits::{spec_udec, push_usize_dec};

verus! {

/// The positions of the newline characters of a text, in order, from
/// position `i` on.
pub open spec fn nl_list(t: Seq<char>, i: int) -> Seq<usize>
    decreases t.len() - i,
{
    if i < 0 || i >= t.len() || i > usize::MAX {
        Seq::empty()
    } else if t[i] == '\n' {
        seq![i as usize] + nl_list(t, i + 1)
    } else {
        nl_list(t, i + 1)
    }
}

/// Line starts: position 0, the position after each newline, and the
/// text's length as the final sentinel.
pub open spec fn line_starts(fi: FileInfo) -> Seq<usize> {
    seq![0usize] + fi.newlines@.map(|j: int, x: usize| (x + 1) as usize) + seq![fi.len]
}

/// The scan for the line containing `off`: the first window
/// `[v[i], v[i+1])` that contains it, as a 1-based line number and the
/// offset from the line start.
pub open spec fn find_lc(v: Seq<usize>, off: usize, i: int) -> Option<(usize, usize)>
    decreases v.len() - i,
{
    if i < 0 || i + 1 >= v.len() {
        None
    } else if v[i] <= off < v[i + 1] {
        Some(((i + 1) as usize, (off - v[i]) as usize))
    } else {
        find_lc(v, off, i + 1)
    }
}

/// Every newline position lies between `i` and the text's length.
proof fn lemma_nl_bounds(t: Seq<char>, i: int)
    requires
        t.len() <= usize::MAX,
    ensures
        forall|j: int|
            0 <= j < nl_list(t, i).len() ==> i <= #[trigger] nl_list(t, i)[j] < t.len(),
    decreases t.len() - i,
{
    if 0 <= i < t.len() && i <= usize::MAX {
        lemma_nl_bounds(t, i + 1);
        assert forall|j: int| 0 <= j < nl_list(t, i).len() implies i <= #[trigger] nl_list(t, i)[j]
            < t.len() by {
            if t[i] == '\n' {
                if j > 0 {
                    assert(nl_list(t, i)[j] == nl_list(t, i + 1)[j - 1]);
                }
            } else {
                assert(nl_list(t, i)[j] == nl_list(t, i + 1)[j]);
            }
        }
    }
}

/// A `FileInfo` records where the lines of a source text start, so that
/// source locations can be rendered as line and column numbers.
/// Positions here count characters, not bytes: the text is scanned as a
/// character sequence, so a location is an index into that sequence.
/// On ASCII sources the two notions coincide; a front end that counts
/// bytes over wider text must convert before rendering.
#[derive(Debug)]
pub struct FileInfo {
    pub newlines: Vec<usize>,
    pub len: usize,
}

/// The file info that describes a text.
pub open spec fn describes(fi: FileInfo, t: Seq<char>) -> bool {
    fi.newlines@ == nl_list(t, 0) && fi.len == t.len()
}

/// Every recorded newline position lies inside the text.
pub open spec fn lines_wf(fi: FileInfo) -> bool {
    forall|j: int| 0 <= j < fi.newlines@.len() ==> #[trigger] fi.newlines@[j] < fi.len
}

/// The two-dimensional span of a one-dimensional location, as the scan
/// computes it.
pub open spec fn spec_span2(fi: FileInfo, l: SrcLoc) -> Span2 {
    let s = find_lc(line_starts(fi), l.start_ix, 0)->0;
    let e = find_lc(line_starts(fi), (l.end_ix - 1) as usize, 0)->0;
    Span2 { start_line: s.0, start_col: s.1, end_line: e.0, end_col: (e.1 + 1) as usize }
}

/// The location can be rendered: both its endpoints fall inside a line.
pub open spec fn loc_valid(fi: FileInfo, l: SrcLoc) -> bool {
    &&& l.end_ix >= 1
    &&& find_lc(line_starts(fi), l.start_ix, 0) is Some
    &&& find_lc(line_starts(fi), (l.end_ix - 1) as usize, 0) is Some
    &&& (find_lc(line_starts(fi), (l.end_ix - 1) as usize, 0)->0).1 < usize::MAX
}

impl FileInfo {
    /// Scan the source text once, recording its newline positions.
    #[verifier::loop_isolation(false)]
    pub fn new(s: &str) -> (r: Self)
        ensures
            describes(r, s@),
            lines_wf(r),
    {
        let n = s.unicode_len();
        let mut newlines: Vec<usize> = Vec::new();
        let mut i: usize = 0;
        while i < n
            invariant
                i <= n,
                n == s@.len(),
                nl_list(s@, 0) == newlines@ + nl_list(s@, i as int),
            decreases n - i,
        {
            let c = s.get_char(i);
            if c == '\n' {
                newlines.push(i);
                proof {
                    assert(nl_list(s@, 0) =~= newlines@ + nl_list(s@, i + 1));
                }
            }
            i = i + 1;
        }
        proof {
            assert(newlines@ =~= nl_list(s@, 0));
            lemma_nl_bounds(s@, 0);
        }
        FileInfo { newlines, len: n }
    }

    /// Convert a one-dimensional span of offsets to a two-dimensional
    /// span of lines and columns.
    #[verifier::loop_isolation(false)]
    pub fn span1_to_span2(&self, offsets: SrcLoc) -> (r: Span2)
        requires
            lines_wf(*self),
            loc_valid(*self, offsets),
        ensures
            r == spec_span2(*self, offsets),
    {
        let v = self.starts_vec();
        let (start_line, start_col) = Self::offset_to_line_col(&v, offsets.start_ix);
        let (end_line, end_col) = Self::offset_to_line_col(&v, offsets.end_ix - 1);
        Span2 { start_line, start_col, end_line, end_col: end_col + 1 }
    }

    /// The vector of line starts.
    #[verifier::loop_isolation(false)]
    fn starts_vec(&self) -> (v: Vec<usize>)
        requires
            lines_wf(*self),
        ensures
            v@ == line_starts(*self),
    {
        let ghost target = line_starts(*self);
        let mut v: Vec<usize> = Vec::new();
        v.push(0);
        let mut i: usize = 0;
        while i < self.newlines.len()
            invariant
                i <= self.newlines@.len(),
                v@.len() == i + 1,
                v@[0] == 0usize,
                forall|j: int| 0 <= j < i ==> #[trigger] v@[j + 1] == target[j + 1],
            decreases self.newlines@.len() - i,
        {
            let ix = self.newlines[i];
            v.push(ix + 1);
            i = i + 1;
        }
        v.push(self.len);
        proof {
            assert forall|j: int| 0 <= j < v@.len() implies v@[j] == target[j] by {
                if 1 <= j < v@.len() - 1 {
                    assert(v@[(j - 1) + 1] == target[(j - 1) + 1]);
                }
            }
            assert(v@ =~= target);
        }
        v
    }

    /// Find the line window that contains the offset.
    fn offset_to_line_col(newlines: &Vec<usize>, offset: usize) -> (r: (usize, usize))
        requires
            find_lc(newlines@, offset, 0) is Some,
        ensures
            Some(r) == find_lc(newlines@, offset, 0),
    {
        match Self::find_window(newlines, offset) {
            Some(r) => r,
            None => vstd::pervasive::unreached(),
        }
    }
}


/// Line starts computed directly from a text.
pub open spec fn starts_of(t: Seq<char>) -> Seq<usize> {
    seq![0usize] + nl_list(t, 0).map(|j: int, x: usize| (x + 1) as usize) + seq![
        t.len() as usize,
    ]
}

/// The location can be rendered against the text: both its endpoints
/// fall inside a line.
pub open spec fn loc_ok_text(t: Seq<char>, l: SrcLoc) -> bool {
    &&& t.len() <= usize::MAX
    &&& l.end_ix >= 1
    &&& find_lc(starts_of(t), l.start_ix, 0) is Some
    &&& find_lc(starts_of(t), (l.end_ix - 1) as usize, 0) is Some
    &&& (find_lc(starts_of(t), (l.end_ix - 1) as usize, 0)->0).1 < usize::MAX
}

/// A file info built from a text locates exactly what the text locates.
pub proof fn lemma_describes_starts(fi: FileInfo, t: Seq<char>)
    requires
        describes(fi, t),
    ensures
        line_starts(fi) == starts_of(t),
        forall|l: SrcLoc| loc_ok_text(t, l) == loc_valid(fi, l),
{
    assert(line_starts(fi) =~= starts_of(t));
}

/// The exact text of a resolution error, with its span rendered as
/// `start_line:start_col-end_line:end_col`.
pub open spec fn err_text(fi: FileInfo, e: CompileErr) -> Seq<char> {
    match e {
        CompileErr::UnboundVariable(v, l) => "variable \""@ + v@ + "\" unbound: "@ + span2_text(
            spec_span2(fi, l),
        ),
        CompileErr::DuplicateVariable(v, l) => "variable \""@ + v@
            + "\" defined twice in let-expression: "@ + span2_text(spec_span2(fi, l)),
        CompileErr::UnboundFunction(f, l) => "function \""@ + f@ + "\" undefined: "@ + span2_text(
            spec_span2(fi, l),
        ),
        CompileErr::DuplicateFunction(f, l) => "multiple defined functions named \""@ + f@
            + "\": "@ + span2_text(spec_span2(fi, l)),
        CompileErr::DuplicateParameter(p, l) => "multiple parameters named \""@ + p@ + "\": "@
            + span2_text(spec_span2(fi, l)),
        CompileErr::ArityMismatch { name, expected, found, loc } => "function \""@ + name@
            + "\" of arity "@ + spec_udec(expected as nat) + " called with "@ + spec_udec(
            found as nat,
        ) + " arguments: "@ + span2_text(spec_span2(fi, loc)),
    }
}

impl FileInfo {
    /// Whether the error's location can be rendered against this file.
    pub fn covers(&self, l: SrcLoc) -> (r: bool)
        requires
            lines_wf(*self),
        ensures
            r == loc_valid(*self, l),
    {
        if l.end_ix < 1 {
            return false;
        }
        let v = self.starts_vec();
        let a = Self::find_window(&v, l.start_ix);
        let b = Self::find_window(&v, l.end_ix - 1);
        match (a, b) {
            (Some(_), Some(bw)) => bw.1 < usize::MAX,
            _ => false,
        }
    }

    #[verifier::loop_isolation(false)]
    fn find_window(newlines: &Vec<usize>, offset: usize) -> (r: Option<(usize, usize)>)
        ensures
            r == find_lc(newlines@, offset, 0),
    {
        let n = newlines.len();
        if n == 0 {
            return None;
        }
        let mut i: usize = 0;
        while i < n - 1
            invariant
                i <= n - 1,
                find_lc(newlines@, offset, i as int) == find_lc(newlines@, offset, 0),
            decreases n - i,
        {
            let start = newlines[i];
            let end = newlines[i + 1];
            if start <= offset && offset < end {
                return Some((i + 1, offset - start));
            }
            i = i + 1;
        }
        None
    }

    /// Render a resolution error as text.
    pub fn report_error(&self, err: CompileErr) -> (r: String)
        requires
            lines_wf(*self),
            loc_valid(*self, err_loc(err)),
        ensures
            r@ == err_text(*self, err),
    {
        let mut buf = String::new();
        match err {
            CompileErr::UnboundVariable(v, span1) => {
                buf.append("variable \"");
                buf.append(v.as_str());
                buf.append("\" unbound: ");
                let sp = self.span1_to_span2(span1).render();
                buf.append(sp.as_str());
            },
            CompileErr::DuplicateVariable(v, span1) => {
                buf.append("variable \"");
                buf.append(v.as_str());
                buf.append("\" defined twice in let-expression: ");
                let sp = self.span1_to_span2(span1).render();
                buf.append(sp.as_str());
            },
            CompileErr::UnboundFunction(f, span1) => {
                buf.append("function \"");
                buf.append(f.as_str());
                buf.append("\" undefined: ");
                let sp = self.span1_to_span2(span1).render();
                buf.append(sp.as_str());
            },
            CompileErr::DuplicateFunction(f, span1) => {
                buf.append("multiple defined functions named \"");
                buf.append(f.as_str());
                buf.append("\": ");
                let sp = self.span1_to_span2(span1).render();
                buf.append(sp.as_str());
            },
            CompileErr::DuplicateParameter(p, span1) => {
                buf.append("multiple parameters named \"");
                buf.append(p.as_str());
                buf.append("\": ");
                let sp = self.span1_to_span2(span1).render();
                buf.append(sp.as_str());
            },
            CompileErr::ArityMismatch { name, expected, found, loc } => {
                buf.append("function \"");
                buf.append(name.as_str());
                buf.append("\" of arity ");
                push_usize_dec(&mut buf, expected);
                buf.append(" called with ");
                push_usize_dec(&mut buf, found);
                buf.append(" arguments: ");
                let sp = self.span1_to_span2(loc).render();
                buf.append(sp.as_str());
            },
        }
        proof {
            assert(buf@ =~= err_text(*self, err));
        }
        buf
    }
}

/* ------------------------ Checking the parser's side ----------------------- */

// What the pipeline requires of the parser's output can be checked at
// run time: every primitive application carries its operator's arity,
// and every source location falls inside a line of the source.

proof fn lemma_loc_in_list_elim<V, F>(l: SrcLoc, s: Seq<crate::ast::Expr<V, F>>, i: int)
    requires
        crate::ast::loc_in_list(l, s, i),
    ensures
        exists|j: int| i <= j < s.len() && crate::ast::loc_in_expr(l, #[trigger] s[j]),
    decreases s.len() - i,
{
    if !(0 <= i < s.len() && crate::ast::loc_in_expr(l, s[i])) {
        lemma_loc_in_list_elim(l, s, i + 1);
    }
}

proof fn lemma_loc_in_binds_elim<V, F>(l: SrcLoc, s: Seq<crate::ast::Binding<V, F>>, i: int)
    requires
        crate::ast::loc_in_binds(l, s, i),
    ensures
        exists|j: int|
            i <= j < s.len() && (l == (#[trigger] s[j]).var.1 || crate::ast::loc_in_expr(
                l,
                s[j].expr,
            )),
    decreases s.len() - i,
{
    if !(0 <= i < s.len() && (l == s[i].var.1 || crate::ast::loc_in_expr(l, s[i].expr))) {
        lemma_loc_in_binds_elim(l, s, i + 1);
    }
}

proof fn lemma_loc_in_decls_elim<V, F>(l: SrcLoc, s: Seq<crate::ast::FunDecl<V, F>>, i: int)
    requires
        crate::ast::loc_in_decls(l, s, i),
    ensures
        exists|j: int|
            i <= j < s.len() && (l == (#[trigger] s[j]).loc || crate::ast::loc_in_params(
                l,
                s[j].params@,
                0,
            ) || crate::ast::loc_in_expr(l, s[j].body)),
    decreases s.len() - i,
{
    if !(0 <= i < s.len() && (l == s[i].loc || crate::ast::loc_in_params(l, s[i].params@, 0)
        || crate::ast::loc_in_expr(l, s[i].body))) {
        lemma_loc_in_decls_elim(l, s, i + 1);
    }
}

proof fn lemma_loc_in_params_elim<V>(l: SrcLoc, s: Seq<(V, SrcLoc)>, i: int)
    requires
        crate::ast::loc_in_params(l, s, i),
    ensures
        exists|j: int| i <= j < s.len() && l == (#[trigger] s[j]).1,
    decreases s.len() - i,
{
    if !(0 <= i < s.len() && l == s[i].1) {
        lemma_loc_in_params_elim(l, s, i + 1);
    }
}

proof fn lemma_loc_in_list_intro<V, F>(l: SrcLoc, s: Seq<crate::ast::Expr<V, F>>, i: int, j: int)
    requires
        0 <= i <= j < s.len(),
        crate::ast::loc_in_expr(l, s[j]),
    ensures
        crate::ast::loc_in_list(l, s, i),
    decreases j - i,
{
    if i < j {
        lemma_loc_in_list_intro(l, s, i + 1, j);
    }
}

proof fn lemma_loc_in_binds_intro<V, F>(
    l: SrcLoc,
    s: Seq<crate::ast::Binding<V, F>>,
    i: int,
    j: int,
)
    requires
        0 <= i <= j < s.len(),
        l == s[j].var.1 || crate::ast::loc_in_expr(l, s[j].expr),
    ensures
        crate::ast::loc_in_binds(l, s, i),
    decreases j - i,
{
    if i < j {
        lemma_loc_in_binds_intro(l, s, i + 1, j);
    }
}

proof fn lemma_loc_in_decls_intro<V, F>(
    l: SrcLoc,
    s: Seq<crate::ast::FunDecl<V, F>>,
    i: int,
    j: int,
)
    requires
        0 <= i <= j < s.len(),
        l == s[j].loc || crate::ast::loc_in_params(l, s[j].params@, 0) || crate::ast::loc_in_expr(
            l,
            s[j].body,
        ),
    ensures
        crate::ast::loc_in_decls(l, s, i),
    decreases j - i,
{
    if i < j {
        lemma_loc_in_decls_intro(l, s, i + 1, j);
    }
}

proof fn lemma_loc_in_params_intro<V>(l: SrcLoc, s: Seq<(V, SrcLoc)>, i: int, j: int)
    requires
        0 <= i <= j < s.len(),
        l == s[j].1,
    ensures
        crate::ast::loc_in_params(l, s, i),
    decreases j - i,
{
    if i < j {
        lemma_loc_in_params_intro(l, s, i + 1, j);
    }
}

proof fn lemma_loc_in_exts_intro<V, F>(
    l: SrcLoc,
    s: Seq<crate::ast::ExtDecl<V, F>>,
    i: int,
    j: int,
)
    requires
        0 <= i <= j < s.len(),
        l == s[j].loc || crate::ast::loc_in_params(l, s[j].params@, 0),
    ensures
        crate::ast::loc_in_exts(l, s, i),
    decreases j - i,
{
    if i < j {
        lemma_loc_in_exts_intro(l, s, i + 1, j);
    }
}

proof fn lemma_loc_in_exts_elim<V, F>(l: SrcLoc, s: Seq<crate::ast::ExtDecl<V, F>>, i: int)
    requires
        crate::ast::loc_in_exts(l, s, i),
    ensures
        exists|j: int|
            i <= j < s.len() && (l == (#[trigger] s[j]).loc || crate::ast::loc_in_params(
                l,
                s[j].params@,
                0,
            )),
    decreases s.len() - i,
{
    if !(0 <= i < s.len() && (l == s[i].loc || crate::ast::loc_in_params(l, s[i].params@, 0))) {
        lemma_loc_in_exts_elim(l, s, i + 1);
    }
}

#[verifier::loop_isolation(false)]
fn params_input_ok<V>(fi: &FileInfo, ps: &Vec<(V, SrcLoc)>) -> (r: bool)
    requires
        lines_wf(*fi),
    ensures
        r == (forall|l: SrcLoc| crate::ast::loc_in_params(l, ps@, 0) ==> loc_valid(*fi, l)),
{
    let mut i: usize = 0;
    while i < ps.len()
        invariant
            i <= ps@.len(),
            forall|j: int| 0 <= j < i ==> loc_valid(*fi, (#[trigger] ps@[j]).1),
        decreases ps@.len() - i,
    {
        if !fi.covers(ps[i].1) {
            proof {
                lemma_loc_in_params_intro(ps@[i as int].1, ps@, 0, i as int);
            }
            return false;
        }
        i = i + 1;
    }
    proof {
        assert forall|l: SrcLoc| crate::ast::loc_in_params(l, ps@, 0) implies loc_valid(
            *fi,
            l,
        ) by {
            lemma_loc_in_params_elim(l, ps@, 0);
        }
    }
    true
}

/// Whether the expression is fit for the pipeline: primitive arities
/// match and every location falls inside a line.
#[verifier::loop_isolation(false)]
fn expr_input_ok(fi: &FileInfo, e: &crate::ast::SurfExpr) -> (r: bool)
    requires
        lines_wf(*fi),
    ensures
        r == (crate::ast::prims_ok(*e) && (forall|l: SrcLoc|
            crate::ast::loc_in_expr(l, *e) ==> loc_valid(*fi, l))),
    decreases *e,
{
    match e {
        crate::ast::Expr::Num(_, loc) => {
            proof {
                assert(crate::ast::loc_in_expr(*loc, *e));
            }
            fi.covers(*loc)
        },
        crate::ast::Expr::Bool(_, loc) => {
            proof {
                assert(crate::ast::loc_in_expr(*loc, *e));
            }
            fi.covers(*loc)
        },
        crate::ast::Expr::Var(_, loc) => {
            proof {
                assert(crate::ast::loc_in_expr(*loc, *e));
            }
            fi.covers(*loc)
        },
        crate::ast::Expr::Prim { prim, args, loc } => {
            if !fi.covers(*loc) {
                proof {
                    assert(crate::ast::loc_in_expr(*loc, *e));
                }
                return false;
            }
            if args.len() != prim.arity() {
                proof {
                    assert(!crate::ast::prims_ok(*e));
                }
                return false;
            }
            let mut i: usize = 0;
            while i < args.len()
                invariant
                    i <= args@.len(),
                    forall|j: int|
                        0 <= j < i ==> crate::ast::prims_ok(#[trigger] args@[j]) && (forall|
                            l: SrcLoc,
                        | crate::ast::loc_in_expr(l, args@[j]) ==> loc_valid(*fi, l)),
                decreases args@.len() - i,
            {
                proof {
                    assert(decreases_to!(*e => (*e)->Prim_args));
                    assert(decreases_to!((*e)->Prim_args => args@[i as int]));
                }
                if !expr_input_ok(fi, &args[i]) {
                    proof {
                        if crate::ast::prims_ok(args@[i as int]) {
                            let w = choose|l: SrcLoc|
                                crate::ast::loc_in_expr(l, args@[i as int]) && !loc_valid(*fi, l);
                            lemma_loc_in_list_intro(w, args@, 0, i as int);
                            assert(crate::ast::loc_in_expr(w, *e));
                            assert(!loc_valid(*fi, w));
                        } else {
                            assert(!crate::ast::prims_ok(*e)) by {
                                if crate::ast::prims_ok(*e) {
                                    assert(crate::ast::prims_ok(args@[i as int]));
                                }
                            }
                        }
                    }
                    return false;
                }
                i = i + 1;
            }
            proof {
                assert forall|l: SrcLoc| crate::ast::loc_in_expr(l, *e) implies loc_valid(
                    *fi,
                    l,
                ) by {
                    if l != *loc {
                        lemma_loc_in_list_elim(l, args@, 0);
                    }
                }
            }
            true
        },
        crate::ast::Expr::Let { bindings, body, loc } => {
            if !fi.covers(*loc) {
                proof {
                    assert(crate::ast::loc_in_expr(*loc, *e));
                }
                return false;
            }
            let mut i: usize = 0;
            while i < bindings.len()
                invariant
                    i <= bindings@.len(),
                    forall|j: int|
                        0 <= j < i ==> loc_valid(*fi, (#[trigger] bindings@[j]).var.1)
                            && crate::ast::prims_ok(bindings@[j].expr) && (forall|l: SrcLoc|
                            crate::ast::loc_in_expr(l, bindings@[j].expr) ==> loc_valid(*fi, l)),
                decreases bindings@.len() - i,
            {
                if !fi.covers(bindings[i].var.1) {
                    proof {
                        lemma_loc_in_binds_intro(bindings@[i as int].var.1, bindings@, 0, i as int);
                        assert(crate::ast::loc_in_expr(bindings@[i as int].var.1, *e));
                    }
                    return false;
                }
                proof {
                    assert(decreases_to!(*e => (*e)->Let_bindings));
                    assert(decreases_to!((*e)->Let_bindings => bindings@[i as int]));
                    assert(decreases_to!(bindings@[i as int] => bindings@[i as int].expr));
                }
                if !expr_input_ok(fi, &bindings[i].expr) {
                    proof {
                        if crate::ast::prims_ok(bindings@[i as int].expr) {
                            let w = choose|l: SrcLoc|
                                crate::ast::loc_in_expr(l, bindings@[i as int].expr) && !loc_valid(
                                    *fi,
                                    l,
                                );
                            lemma_loc_in_binds_intro(w, bindings@, 0, i as int);
                            assert(crate::ast::loc_in_expr(w, *e));
                            assert(!loc_valid(*fi, w));
                        } else {
                            assert(!crate::ast::prims_ok(*e)) by {
                                if crate::ast::prims_ok(*e) {
                                    assert(crate::ast::prims_ok(bindings@[i as int].expr));
                                }
                            }
                        }
                    }
                    return false;
                }
                i = i + 1;
            }
            proof {
                assert(decreases_to!(*e => (*e)->Let_body));
            }
            if !expr_input_ok(fi, &**body) {
                proof {
                    if crate::ast::prims_ok(**body) {
                        let w = choose|l: SrcLoc|
                            crate::ast::loc_in_expr(l, **body) && !loc_valid(*fi, l);
                        assert(crate::ast::loc_in_expr(w, *e));
                        assert(!loc_valid(*fi, w));
                    }
                }
                return false;
            }
            proof {
                assert forall|l: SrcLoc| crate::ast::loc_in_expr(l, *e) implies loc_valid(
                    *fi,
                    l,
                ) by {
                    if l != *loc && !crate::ast::loc_in_expr(l, **body) {
                        lemma_loc_in_binds_elim(l, bindings@, 0);
                    }
                }
            }
            true
        },
        crate::ast::Expr::If { cond, thn, els, loc } => {
            proof {
                assert(decreases_to!(*e => (*e)->If_cond));
                assert(decreases_to!(*e => (*e)->If_thn));
                assert(decreases_to!(*e => (*e)->If_els));
            }
            let a = fi.covers(*loc);
            if !a {
                proof {
                    assert(crate::ast::loc_in_expr(*loc, *e));
                }
                return false;
            }
            let b = expr_input_ok(fi, &**cond);
            if !b {
                proof {
                    if crate::ast::prims_ok(**cond) {
                        let w = choose|l: SrcLoc|
                            crate::ast::loc_in_expr(l, **cond) && !loc_valid(*fi, l);
                        assert(crate::ast::loc_in_expr(w, *e));
                        assert(!loc_valid(*fi, w));
                    }
                }
                return false;
            }
            let c = expr_input_ok(fi, &**thn);
            if !c {
                proof {
                    if crate::ast::prims_ok(**thn) {
                        let w = choose|l: SrcLoc|
                            crate::ast::loc_in_expr(l, **thn) && !loc_valid(*fi, l);
                        assert(crate::ast::loc_in_expr(w, *e));
                        assert(!loc_valid(*fi, w));
                    }
                }
                return false;
            }
            let d = expr_input_ok(fi, &**els);
            proof {
                if !d && crate::ast::prims_ok(**els) {
                    let w = choose|l: SrcLoc|
                        crate::ast::loc_in_expr(l, **els) && !loc_valid(*fi, l);
                    assert(crate::ast::loc_in_expr(w, *e));
                    assert(!loc_valid(*fi, w));
                }
            }
            d
        },
        crate::ast::Expr::FunDefs { decls, body, loc } => {
            if !fi.covers(*loc) {
                proof {
                    assert(crate::ast::loc_in_expr(*loc, *e));
                }
                return false;
            }
            let mut i: usize = 0;
            while i < decls.len()
                invariant
                    i <= decls@.len(),
                    forall|j: int|
                        0 <= j < i ==> loc_valid(*fi, (#[trigger] decls@[j]).loc) && (forall|
                            l: SrcLoc,
                        | crate::ast::loc_in_params(l, decls@[j].params@, 0) ==> loc_valid(
                            *fi,
                            l,
                        )) && crate::ast::prims_ok(decls@[j].body) && (forall|l: SrcLoc|
                            crate::ast::loc_in_expr(l, decls@[j].body) ==> loc_valid(*fi, l)),
                decreases decls@.len() - i,
            {
                if !fi.covers(decls[i].loc) {
                    proof {
                        lemma_loc_in_decls_intro(decls@[i as int].loc, decls@, 0, i as int);
                        assert(crate::ast::loc_in_expr(decls@[i as int].loc, *e));
                    }
                    return false;
                }
                if !params_input_ok(fi, &decls[i].params) {
                    proof {
                        let w = choose|l: SrcLoc|
                            crate::ast::loc_in_params(l, decls@[i as int].params@, 0) && !loc_valid(
                                *fi,
                                l,
                            );
                        lemma_loc_in_decls_intro(w, decls@, 0, i as int);
                        assert(crate::ast::loc_in_expr(w, *e));
                        assert(!loc_valid(*fi, w));
                    }
                    return false;
                }
                proof {
                    assert(decreases_to!(*e => (*e)->FunDefs_decls));
                    assert(decreases_to!((*e)->FunDefs_decls => decls@[i as int]));
                    assert(decreases_to!(decls@[i as int] => decls@[i as int].body));
                }
                if !expr_input_ok(fi, &decls[i].body) {
                    proof {
                        if crate::ast::prims_ok(decls@[i as int].body) {
                            let w = choose|l: SrcLoc|
                                crate::ast::loc_in_expr(l, decls@[i as int].body) && !loc_valid(
                                    *fi,
                                    l,
                                );
                            lemma_loc_in_decls_intro(w, decls@, 0, i as int);
                            assert(crate::ast::loc_in_expr(w, *e));
                            assert(!loc_valid(*fi, w));
                        } else {
                            assert(!crate::ast::prims_ok(*e)) by {
                                if crate::ast::prims_ok(*e) {
                                    assert(crate::ast::prims_ok(decls@[i as int].body));
                                }
                            }
                        }
                    }
                    return false;
                }
                i = i + 1;
            }
            proof {
                assert(decreases_to!(*e => (*e)->FunDefs_body));
            }
            if !expr_input_ok(fi, &**body) {
                proof {
                    if crate::ast::prims_ok(**body) {
                        let w = choose|l: SrcLoc|
                            crate::ast::loc_in_expr(l, **body) && !loc_valid(*fi, l);
                        assert(crate::ast::loc_in_expr(w, *e));
                        assert(!loc_valid(*fi, w));
                    }
                }
                return false;
            }
            proof {
                assert forall|l: SrcLoc| crate::ast::loc_in_expr(l, *e) implies loc_valid(
                    *fi,
                    l,
                ) by {
                    if l != *loc && !crate::ast::loc_in_expr(l, **body) {
                        lemma_loc_in_decls_elim(l, decls@, 0);
                    }
                }
            }
            true
        },
        crate::ast::Expr::Call { args, loc, .. } => {
            if !fi.covers(*loc) {
                proof {
                    assert(crate::ast::loc_in_expr(*loc, *e));
                }
                return false;
            }
            let mut i: usize = 0;
            while i < args.len()
                invariant
                    i <= args@.len(),
                    forall|j: int|
                        0 <= j < i ==> crate::ast::prims_ok(#[trigger] args@[j]) && (forall|
                            l: SrcLoc,
                        | crate::ast::loc_in_expr(l, args@[j]) ==> loc_valid(*fi, l)),
                decreases args@.len() - i,
            {
                proof {
                    assert(decreases_to!(*e => (*e)->Call_args));
                    assert(decreases_to!((*e)->Call_args => args@[i as int]));
                }
                if !expr_input_ok(fi, &args[i]) {
                    proof {
                        if crate::ast::prims_ok(args@[i as int]) {
                            let w = choose|l: SrcLoc|
                                crate::ast::loc_in_expr(l, args@[i as int]) && !loc_valid(*fi, l);
                            lemma_loc_in_list_intro(w, args@, 0, i as int);
                            assert(crate::ast::loc_in_expr(w, *e));
                            assert(!loc_valid(*fi, w));
                        } else {
                            assert(!crate::ast::prims_ok(*e)) by {
                                if crate::ast::prims_ok(*e) {
                                    assert(crate::ast::prims_ok(args@[i as int]));
                                }
                            }
                        }
                    }
                    return false;
                }
                i = i + 1;
            }
            proof {
                assert forall|l: SrcLoc| crate::ast::loc_in_expr(l, *e) implies loc_valid(
                    *fi,
                    l,
                ) by {
                    if l != *loc {
                        lemma_loc_in_list_elim(l, args@, 0);
                    }
                }
            }
            true
        },
    }
}

/// Check what the pipeline requires of the parser's output: every
/// primitive application carries its operator's arity, and every source
/// location falls inside a line of the source.  When this returns true,
/// `compile`'s preconditions hold.
#[verifier::loop_isolation(false)]
pub fn check_surface(source: &str, prog: &crate::ast::SurfProg) -> (r: bool)
    ensures
        r == (crate::ast::prims_ok(prog.body) && (forall|l: SrcLoc|
            crate::ast::loc_in_prog(l, *prog) ==> loc_ok_text(source@, l))),
{
    let fi = FileInfo::new(source);
    proof {
        lemma_describes_starts(fi, source@);
    }
    if !fi.covers(prog.loc) {
        proof {
            assert(crate::ast::loc_in_prog(prog.loc, *prog));
            assert(!loc_ok_text(source@, prog.loc));
        }
        return false;
    }
    if !fi.covers(prog.param.1) {
        proof {
            assert(crate::ast::loc_in_prog(prog.param.1, *prog));
            assert(!loc_ok_text(source@, prog.param.1));
        }
        return false;
    }
    let mut i: usize = 0;
    while i < prog.externs.len()
        invariant
            i <= prog.externs@.len(),
            describes(fi, source@),
            lines_wf(fi),
            forall|j: int|
                0 <= j < i ==> loc_valid(fi, (#[trigger] prog.externs@[j]).loc) && (forall|
                    l: SrcLoc,
                | crate::ast::loc_in_params(l, prog.externs@[j].params@, 0) ==> loc_valid(fi, l)),
        decreases prog.externs@.len() - i,
    {
        if !fi.covers(prog.externs[i].loc) {
            proof {
                lemma_loc_in_exts_intro(prog.externs@[i as int].loc, prog.externs@, 0, i as int);
                assert(crate::ast::loc_in_prog(prog.externs@[i as int].loc, *prog));
                assert(!loc_ok_text(source@, prog.externs@[i as int].loc));
            }
            return false;
        }
        if !params_input_ok(&fi, &prog.externs[i].params) {
            proof {
                let w = choose|l: SrcLoc|
                    crate::ast::loc_in_params(l, prog.externs@[i as int].params@, 0) && !loc_valid(
                        fi,
                        l,
                    );
                lemma_loc_in_exts_intro(w, prog.externs@, 0, i as int);
                assert(crate::ast::loc_in_prog(w, *prog));
                assert(!loc_ok_text(source@, w));
            }
            return false;
        }
        i = i + 1;
    }
    if !expr_input_ok(&fi, &prog.body) {
        proof {
            if crate::ast::prims_ok(prog.body) {
                let w = choose|l: SrcLoc|
                    crate::ast::loc_in_expr(l, prog.body) && !loc_valid(fi, l);
                assert(crate::ast::loc_in_prog(w, *prog));
                assert(!loc_ok_text(source@, w));
            }
        }
        return false;
    }
    proof {
        lemma_valid_to_text(fi, source@);
        assert forall|l: SrcLoc| crate::ast::loc_in_prog(l, *prog) implies loc_ok_text(
            source@,
            l,
        ) by {
            if l != prog.loc && l != prog.param.1 && !crate::ast::loc_in_expr(l, prog.body) {
                lemma_loc_in_exts_elim(l, prog.externs@, 0);
            }
        }
    }
    true
}

/// A location a file info can render is valid against the text the file
/// info describes.
proof fn lemma_valid_to_text(fi: FileInfo, t: Seq<char>)
    requires
        describes(fi, t),
    ensures
        forall|l: SrcLoc| loc_valid(fi, l) ==> loc_ok_text(t, l),
{
    lemma_describes_starts(fi, t);
}


} // verus!
