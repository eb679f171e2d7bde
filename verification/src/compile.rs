//! The compiler pipeline: resolution, lowering, and code generation.

use vstd::prelude::*;
use crate::assembly::{instrs_to_string, instr_v_texts, spec_instrs_text, lemma_instrs_text_view};
use crate::ast::{SurfProg, BoundProg, prims_ok, loc_in_prog};
use crate::backend::{Emitter, spec_prog};
use crate::frontend::{Resolver, CompileErr, surf_prog_ok, prog_shape, ext_pairs, err_in_prog,
    err_loc};
use crate::middle_end::{Lowerer, lower_ok, pair_keys, lemma_rshape_lower_ok, vals_idx,
    prog_lowered};
use crate::ssa::{Program, prog_slots_ok};
use crate::txt::{FileInfo, describes, err_text, loc_ok_text, lemma_describes_starts};

verus! {

/// The scope that a bound program's externs and entry declare, as the
/// lowerer requires it.
pub open spec fn prog_fun_keys(bp: BoundProg) -> Set<crate::middle_end::FunKey> {
    pair_keys(
        ext_pairs(Set::empty().insert((bp.name, 1int)), bp.externs@, bp.externs@.len() as int),
    )
}

/// A resolution failure's rendered message: the fixed prefix, then the
/// exact text of an error that matches an offending occurrence in the
/// program, rendered against the source.
pub open spec fn resolution_err_msg(source: Seq<char>, prog: SurfProg, m: Seq<char>) -> bool {
    exists|e: CompileErr, fi: FileInfo|
        #![all_triggers]
        describes(fi, source) && err_in_prog(e, prog) && crate::ast::loc_in_prog(
            err_loc(e),
            prog,
        ) && m == "Error resolving ast: "@ + err_text(fi, e)
}

/// Frontend: binding resolution and validation.  On failure the error is
/// rendered against the source text.
pub fn frontend(source: &str, prog: SurfProg) -> (r: Result<(Resolver, BoundProg), String>)
    requires
        prims_ok(prog.body),
        forall|l: crate::span::SrcLoc| loc_in_prog(l, prog) ==> loc_ok_text(source@, l),
    ensures
        (r is Ok) == surf_prog_ok(prog),
        r matches Ok(p) ==> prog_shape(prog, p.1) && lower_ok(
            p.1.body,
            Set::empty().insert(p.1.param.0.index),
            prog_fun_keys(p.1),
        ),
        r matches Err(m) ==> resolution_err_msg(source@, prog, m@),
{
    let file_info = FileInfo::new(source);
    let mut resolver = Resolver::new();
    match resolver.resolve_prog(prog) {
        Ok(resolved_ast) => {
            proof {
                let m0 = Map::<Seq<char>, crate::identifiers::VarName>::empty().insert(
                    prog.param.0@,
                    resolved_ast.param.0,
                );
                lemma_rshape_lower_ok(
                    prog.body,
                    resolved_ast.body,
                    m0,
                    ext_pairs(
                        Set::empty().insert((resolved_ast.name, 1int)),
                        resolved_ast.externs@,
                        resolved_ast.externs@.len() as int,
                    ),
                );
                assert(vals_idx(m0) =~= Set::empty().insert(resolved_ast.param.0.index)) by {
                    assert(m0.dom().contains(prog.param.0@) && m0[prog.param.0@]
                        == resolved_ast.param.0);
                    assert forall|x: usize| vals_idx(m0).contains(x) implies Set::empty().insert(
                        resolved_ast.param.0.index,
                    ).contains(x) by {
                        let kk = choose|kk: Seq<char>| #[trigger]
                            m0.dom().contains(kk) && m0[kk].index == x;
                    }
                }
            }
            Ok((resolver, resolved_ast))
        },
        Err(e) => {
            proof {
                lemma_describes_starts(file_info, source@);
            }
            let mut msg = "Error resolving ast: ".to_owned();
            let rendered = file_info.report_error(e);
            msg.append(rendered.as_str());
            Err(msg)
        },
    }
}

/// Middle end: lambda lifting and SSA construction.  Lowering is total
/// over well-resolved inputs, its output observes the code generator's
/// slot discipline, and the lowering relation ties that output to the
/// bound program, shape for shape.
pub fn middle_end(resolver: Resolver, resolved_ast: BoundProg) -> (r: Result<
    (Lowerer, Program),
    String,
>)
    requires
        lower_ok(
            resolved_ast.body,
            Set::empty().insert(resolved_ast.param.0.index),
            prog_fun_keys(resolved_ast),
        ),
    ensures
        r is Ok,
        r matches Ok(p) ==> {
            let ssa = p.1;
            &&& prog_slots_ok(ssa)
            &&& prog_lowered(resolved_ast, ssa)
        },
{
    let mut lowerer = Lowerer::from(resolver);
    let ssa = lowerer.lower_prog(resolved_ast);
    Ok((lowerer, ssa))
}

/// Backend: code generation.  The result is the NASM text of exactly the
/// instructions that the slot scheme prescribes for the program.
pub fn backend(lowerer: Lowerer, ssa: Program) -> (r: String)
    requires
        prog_slots_ok(ssa),
    ensures
        r@ == instr_v_texts(spec_prog(ssa), 0),
{
    let mut emitter = Emitter::from(lowerer);
    emitter.emit_prog(&ssa);
    let ghost emitted = emitter.instrs@;
    let code = emitter.to_asm();
    let txt = instrs_to_string(&code);
    proof {
        lemma_instrs_text_view(emitted, 0);
        assert(spec_instrs_text(code@, 0) == instr_v_texts(spec_prog(ssa), 0));
    }
    txt
}

/// The whole pipeline, from a parsed surface program to assembly text.
/// It succeeds exactly on well-scoped programs, and then the text is the
/// rendering of an SSA program that the lowering relation ties to a
/// binding of the surface program; a scoping violation is reported as a
/// rendered error.
pub fn compile(source: &str, prog: SurfProg) -> (r: Result<String, String>)
    requires
        prims_ok(prog.body),
        forall|l: crate::span::SrcLoc| loc_in_prog(l, prog) ==> loc_ok_text(source@, l),
    ensures
        (r is Ok) == surf_prog_ok(prog),
        r matches Ok(t) ==> exists|bp: BoundProg, p: Program|
            #![all_triggers]
            prog_shape(prog, bp) && prog_lowered(bp, p) && prog_slots_ok(p) && t@
                == instr_v_texts(spec_prog(p), 0),
        r matches Err(m) ==> resolution_err_msg(source@, prog, m@),
{
    let (resolver, resolved_ast) = match frontend(source, prog) {
        Ok(p) => p,
        Err(e) => {
            return Err(e);
        },
    };
    let (lowerer, ssa) = match middle_end(resolver, resolved_ast) {
        Ok(p) => p,
        Err(e) => {
            return Err(e);
        },
    };
    let ghost the_ssa = ssa;
    let ghost the_bound = resolved_ast;
    let text = backend(lowerer, ssa);
    proof {
        assert(prog_shape(prog, the_bound) && prog_lowered(the_bound, the_ssa) && prog_slots_ok(
            the_ssa,
        ) && text@ == instr_v_texts(spec_prog(the_ssa), 0));
    }
    Ok(text)
}

} // verus!
