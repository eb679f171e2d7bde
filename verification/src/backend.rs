//! The backend of the compiler: translation of the SSA program into
//! x86-64 instructions, mapping every variable to a stack slot addressed
//! off `rsp`.

use vstd::prelude::*;
use crate::assembly::{Reg, Reg8, ConditionCode, MemRef, Arg64, Arg32, Reg32, MovArgs, BinArgs,
    Instr, InstrV, instr_view, instrs_view};
use crate::identifiers::{VarName, BlockName, fun_name_text, block_name_text};
use crate::middle_end::Lowerer;
use crate::ssa::{Program, Extern, FunBlock, BasicBlock, BlockBody, Terminator, Branch, Operation,
    Prim1, Prim2, Immediate, imm_ok, imms_ok, op_ok, term_ok, body_ok, sub_blocks_ok,
    top_blocks_ok, fun_blocks_ok, prog_slots_ok, with_labels, with_params};
use std::collections::HashMap;

verus! {

broadcast use vstd::std_specs::hash::group_hash_axioms;

/* ------------------------------- Slot model ------------------------------- */

/// The slot environment: the next free slot, the slot of each variable
/// (by its index), and the slot base of each block label (by its index).
struct Env {
    next: i32,
    arena: HashMap<usize, i32>,
    blocks: HashMap<usize, i32>,
}

/// The slot of variable `x` is recorded for every variable in `vs`.
spec fn avars_ok(arena: Map<usize, i32>, vs: Seq<usize>) -> bool {
    forall|x: usize| vs.contains(x) ==> arena.dom().contains(x)
}

/// The base of label `l` is recorded for every label in `bs`.
spec fn ablocks_ok(bm: Map<usize, i32>, bs: Seq<usize>) -> bool {
    forall|l: usize| bs.contains(l) ==> bm.dom().contains(l)
}

/// The bases recorded for a cluster of sibling blocks: all share `base`.
pub open spec fn reg_labels(bm: Map<usize, i32>, s: Seq<BasicBlock>, i: int, base: i32) -> Map<
    usize,
    i32,
>
    decreases s.len() - i,
{
    if i < 0 || i >= s.len() {
        bm
    } else {
        reg_labels(bm.insert(s[i].label.index, base), s, i + 1, base)
    }
}

/// The slots of a block's parameters, allocated consecutively from
/// `next`.
pub open spec fn alloc_arena(arena: Map<usize, i32>, ps: Seq<VarName>, i: int, next: i32) -> Map<
    usize,
    i32,
>
    decreases ps.len() - i,
{
    if i < 0 || i >= ps.len() {
        arena
    } else {
        alloc_arena(arena.insert(ps[i].index, next), ps, i + 1, next.wrapping_add(1))
    }
}

/// `next` advanced by `n` allocations.
pub open spec fn next_plus(next: i32, n: int) -> i32
    decreases n,
{
    if n <= 0 {
        next
    } else {
        next_plus(next, n - 1).wrapping_add(1)
    }
}

proof fn lemma_push_contains(s: Seq<usize>, y: usize, x: usize)
    requires
        s.push(y).contains(x),
    ensures
        x == y || s.contains(x),
{
    let idx = choose|idx: int| 0 <= idx < s.push(y).len() && s.push(y)[idx] == x;
    if idx < s.len() {
        assert(s[idx] == x);
    }
}

proof fn lemma_reg_align(bm: Map<usize, i32>, bs0: Seq<usize>, s: Seq<BasicBlock>, i: int, base: i32)
    requires
        ablocks_ok(bm, bs0),
    ensures
        ablocks_ok(reg_labels(bm, s, i, base), with_labels(bs0, s, i)),
    decreases s.len() - i,
{
    if 0 <= i < s.len() {
        let y = s[i].label.index;
        assert forall|l: usize| bs0.push(y).contains(l) implies bm.insert(y, base).dom().contains(
            l,
        ) by {
            lemma_push_contains(bs0, y, l);
        }
        lemma_reg_align(bm.insert(y, base), bs0.push(y), s, i + 1, base);
    }
}

proof fn lemma_alloc_align(
    arena: Map<usize, i32>,
    vs0: Seq<usize>,
    ps: Seq<VarName>,
    i: int,
    next: i32,
)
    requires
        avars_ok(arena, vs0),
    ensures
        avars_ok(alloc_arena(arena, ps, i, next), with_params(vs0, ps, i)),
    decreases ps.len() - i,
{
    if 0 <= i < ps.len() {
        let y = ps[i].index;
        assert forall|x: usize| vs0.push(y).contains(x) implies arena.insert(y, next).dom().contains(
            x,
        ) by {
            lemma_push_contains(vs0, y, x);
        }
        lemma_alloc_align(arena.insert(y, next), vs0.push(y), ps, i + 1, next.wrapping_add(1));
    }
}

/// A map that records one more slot serves the variable set with that
/// variable pushed.
proof fn lemma_avars_insert(arena: Map<usize, i32>, vs: Seq<usize>, x: usize, slot: i32)
    requires
        avars_ok(arena, vs),
    ensures
        avars_ok(arena.insert(x, slot), vs.push(x)),
{
    assert forall|z: usize| vs.push(x).contains(z) implies arena.insert(x, slot).dom().contains(
        z,
    ) by {
        lemma_push_contains(vs, x, z);
    }
}

impl Env {
    fn new() -> (r: Self)
        ensures
            r.next == 1,
            r.arena@ == Map::<usize, i32>::empty(),
            r.blocks@ == Map::<usize, i32>::empty(),
    {
        let r = Env { next: 1, arena: HashMap::new(), blocks: HashMap::new() };
        r
    }

    fn clone_env(&self) -> (r: Self)
        ensures
            r.next == self.next,
            r.arena@ == self.arena@,
            r.blocks@ == self.blocks@,
    {
        Env { next: self.next, arena: self.arena.clone(), blocks: self.blocks.clone() }
    }

    /// Assign the next slot to the variable.
    fn allocate(&mut self, x: &VarName) -> (loc: i32)
        ensures
            loc == old(self).next,
            final(self).next == old(self).next.wrapping_add(1),
            final(self).arena@ == old(self).arena@.insert(x.index, old(self).next),
            final(self).blocks@ == old(self).blocks@,
    {
        let loc = self.next;
        self.arena.insert(x.index, loc);
        self.next = self.next.wrapping_add(1);
        loc
    }

    fn lookup(&self, x: &VarName) -> (loc: i32)
        requires
            self.arena@.dom().contains(x.index),
        ensures
            loc == self.arena@[x.index],
    {
        match self.arena.get(&x.index) {
            Some(loc) => *loc,
            None => vstd::pervasive::unreached(),
        }
    }

    fn block_base(&self, l: &BlockName) -> (base: i32)
        requires
            self.blocks@.dom().contains(l.index),
        ensures
            base == self.blocks@[l.index],
    {
        match self.blocks.get(&l.index) {
            Some(base) => *base,
            None => vstd::pervasive::unreached(),
        }
    }
}

/* ------------------------ The emitted instructions ------------------------ */

/// Put the value of a signed constant into a register.
pub open spec fn spec_load_signed(reg: Reg, val: i64) -> InstrV {
    InstrV::Mov(MovArgs::ToReg(reg, Arg64::Signed(val)))
}

/// Put the value of slot `src` into a register.
pub open spec fn spec_load_mem(reg: Reg, src: i32) -> InstrV {
    InstrV::Mov(
        MovArgs::ToReg(
            reg,
            Arg64::Mem(MemRef { reg: Reg::Rsp, offset: (-8i32).wrapping_mul(src) }),
        ),
    )
}

/// Flush a register into slot `dst`.
pub open spec fn spec_store_mem(dst: i32, reg: Reg) -> InstrV {
    InstrV::Mov(
        MovArgs::ToMem(
            MemRef { reg: Reg::Rsp, offset: (-8i32).wrapping_mul(dst) },
            Reg32::Reg(reg),
        ),
    )
}

/// Load an immediate into a register: a constant directly, a variable
/// from its slot.
pub open spec fn spec_imm(imm: Immediate, reg: Reg, arena: Map<usize, i32>) -> InstrV {
    match imm {
        Immediate::Const(c) => spec_load_signed(reg, c),
        Immediate::Var(v) => spec_load_mem(reg, arena[v.index]),
    }
}

/// The condition code of a comparison operator.
pub open spec fn spec_cc_of(p: Prim2) -> ConditionCode {
    match p {
        Prim2::Lt => ConditionCode::L,
        Prim2::Gt => ConditionCode::G,
        Prim2::Le => ConditionCode::LE,
        Prim2::Ge => ConditionCode::GE,
        Prim2::Eq => ConditionCode::E,
        _ => ConditionCode::NE,
    }
}

/// The binary operation on `rax` and `r10` for an arithmetic or logical
/// operator.
pub open spec fn spec_arith(p: Prim2) -> InstrV {
    let ba = BinArgs::ToReg(Reg::Rax, Arg32::Reg(Reg::R10));
    match p {
        Prim2::Add => InstrV::Add(ba),
        Prim2::Sub => InstrV::Sub(ba),
        Prim2::Mul => InstrV::IMul(ba),
        Prim2::BitAnd => InstrV::And(ba),
        Prim2::BitOr => InstrV::Or(ba),
        _ => InstrV::Xor(ba),
    }
}

/// Compare `rax` with `r10` and materialise the condition as 0 or 1.
/// Zeroing `rax` after the compare is load-bearing: `setcc` writes only
/// `al`.
pub open spec fn spec_cc_seq(cc: ConditionCode, ba: BinArgs) -> Seq<InstrV> {
    seq![
        InstrV::Cmp(ba),
        InstrV::Mov(MovArgs::ToReg(Reg::Rax, Arg64::Signed(0i64))),
        InstrV::SetCC(cc, Reg8::Al),
    ]
}

/// The instructions that compute an operation's result into `rax`,
/// using `r10` as the only scratch register.
pub open spec fn spec_op(op: Operation, arena: Map<usize, i32>) -> Seq<InstrV> {
    match op {
        Operation::Immediate(imm) => seq![spec_imm(imm, Reg::Rax, arena)],
        Operation::Prim1(Prim1::BitNot, imm) => seq![spec_imm(imm, Reg::Rax, arena)] + seq![
            InstrV::Mov(MovArgs::ToReg(Reg::R10, Arg64::Signed(-1i64))),
            InstrV::Xor(BinArgs::ToReg(Reg::Rax, Arg32::Reg(Reg::R10))),
        ],
        Operation::Prim1(Prim1::IntToBool, imm) => seq![spec_imm(imm, Reg::Rax, arena)] + seq![
            InstrV::Cmp(BinArgs::ToReg(Reg::Rax, Arg32::Signed(0i32))),
            InstrV::Mov(MovArgs::ToReg(Reg::Rax, Arg64::Signed(0i64))),
            InstrV::SetCC(ConditionCode::NE, Reg8::Al),
        ],
        Operation::Prim2(p, a, b) => seq![
            spec_imm(a, Reg::Rax, arena),
            spec_imm(b, Reg::R10, arena),
        ] + (match p {
            Prim2::Lt | Prim2::Gt | Prim2::Le | Prim2::Ge | Prim2::Eq | Prim2::Neq => spec_cc_seq(
                spec_cc_of(p),
                BinArgs::ToReg(Reg::Rax, Arg32::Reg(Reg::R10)),
            ),
            _ => seq![spec_arith(p)],
        }),
        Operation::Call { fun, .. } => seq![InstrV::Call(fun_name_text(fun))],
    }
}

/// Store a branch's arguments into the target's parameter slots,
/// transporting each through `rax`.
pub open spec fn spec_branch_args(
    args: Seq<Immediate>,
    arena: Map<usize, i32>,
    slot: i32,
    i: int,
) -> Seq<InstrV>
    decreases args.len() - i,
{
    if i < 0 || i >= args.len() {
        Seq::empty()
    } else {
        seq![
            spec_imm(args[i], Reg::Rax, arena),
            spec_store_mem(slot, Reg::Rax),
        ] + spec_branch_args(args, arena, slot.wrapping_add(1), i + 1)
    }
}

/// A branch writes its arguments into the target's slot window, then
/// jumps to the label.
pub open spec fn spec_branch(br: Branch, arena: Map<usize, i32>, bm: Map<usize, i32>) -> Seq<
    InstrV,
> {
    spec_branch_args(br.args@, arena, bm[br.target.index], 0) + seq![
        InstrV::Jmp(block_name_text(br.target)),
    ]
}

/// The instructions of a terminator.
pub open spec fn spec_term(t: Terminator, arena: Map<usize, i32>, bm: Map<usize, i32>) -> Seq<
    InstrV,
> {
    match t {
        Terminator::Return(imm) => seq![spec_imm(imm, Reg::Rax, arena), InstrV::Ret],
        Terminator::Branch(br) => spec_branch(br, arena, bm),
        Terminator::ConditionalBranch { cond, thn, els } => seq![
            spec_imm(cond, Reg::Rax, arena),
            InstrV::Cmp(BinArgs::ToReg(Reg::Rax, Arg32::Signed(0i32))),
            InstrV::JCC(ConditionCode::NE, block_name_text(thn)),
            InstrV::Jmp(block_name_text(els)),
        ],
    }
}

/// The instructions of a block body.  An operation computes into `rax`
/// and spills into a fresh slot; a cluster records a common base for its
/// siblings, emits the continuation, then each sibling.
pub open spec fn spec_body(
    b: BlockBody,
    arena: Map<usize, i32>,
    bm: Map<usize, i32>,
    next: i32,
) -> Seq<InstrV>
    decreases b,
{
    match b {
        BlockBody::Terminator(t) => spec_term(t, arena, bm),
        BlockBody::Operation { dest, op, next: nb } => spec_op(op, arena) + seq![
            spec_store_mem(next, Reg::Rax),
        ] + spec_body(*nb, arena.insert(dest.index, next), bm, next.wrapping_add(1)),
        BlockBody::SubBlocks { blocks: bs, next: nb } => {
            let bm2 = reg_labels(bm, bs@, 0, next);
            spec_body(*nb, arena, bm2, next) + spec_subs(bs@, 0, arena, bm2, next)
        },
    }
}

pub open spec fn spec_subs(
    s: Seq<BasicBlock>,
    i: int,
    arena: Map<usize, i32>,
    bm: Map<usize, i32>,
    next: i32,
) -> Seq<InstrV>
    decreases s, s.len() - i,
{
    if i < 0 || i >= s.len() {
        Seq::empty()
    } else {
        seq![InstrV::Label(block_name_text(s[i].label))] + spec_body(
            s[i].body,
            alloc_arena(arena, s[i].params@, 0, next),
            bm,
            next_plus(next, s[i].params@.len() as int),
        ) + spec_subs(s, i + 1, arena, bm, next)
    }
}

/// A top-level block: its label, then its body with its parameters in
/// the slots from 1 on.
pub open spec fn spec_top_block(b: BasicBlock, bm: Map<usize, i32>) -> Seq<InstrV> {
    seq![InstrV::Label(block_name_text(b.label))] + spec_body(
        b.body,
        alloc_arena(Map::empty(), b.params@, 0, 1),
        bm,
        next_plus(1, b.params@.len() as int),
    )
}

pub open spec fn spec_top_blocks(s: Seq<BasicBlock>, i: int, bm: Map<usize, i32>) -> Seq<InstrV>
    decreases s.len() - i,
{
    if i < 0 || i >= s.len() {
        Seq::empty()
    } else {
        spec_top_block(s[i], bm) + spec_top_blocks(s, i + 1, bm)
    }
}

/// A function entry: its label, the single argument stored from `rdi`
/// into the target's base slot, and the jump into the target block.
pub open spec fn spec_fun_block(f: FunBlock, bm: Map<usize, i32>) -> Seq<InstrV> {
    seq![
        InstrV::Label(fun_name_text(f.name)),
        spec_store_mem(bm[f.body.target.index], Reg::Rdi),
        InstrV::Jmp(block_name_text(f.body.target)),
    ]
}

pub open spec fn spec_fun_blocks(s: Seq<FunBlock>, i: int, bm: Map<usize, i32>) -> Seq<InstrV>
    decreases s.len() - i,
{
    if i < 0 || i >= s.len() {
        Seq::empty()
    } else {
        spec_fun_block(s[i], bm) + spec_fun_blocks(s, i + 1, bm)
    }
}

/// One `extern` directive per declared external function.
pub open spec fn spec_exts(s: Seq<Extern>, i: int) -> Seq<InstrV>
    decreases s.len() - i,
{
    if i < 0 || i >= s.len() {
        Seq::empty()
    } else {
        seq![InstrV::Extern(fun_name_text(s[i].name))] + spec_exts(s, i + 1)
    }
}

/// The whole program's instructions: the section directives, the global
/// entry symbol, the external declarations, every top-level block with
/// the shared base map, then every function entry.
pub open spec fn spec_prog(p: Program) -> Seq<InstrV> {
    let bm = reg_labels(Map::empty(), p.blocks@, 0, 1);
    seq![
        InstrV::Section(".data"@),
        InstrV::Section(".text"@),
        InstrV::Global("entry"@),
    ] + spec_exts(p.externs@, 0) + spec_top_blocks(p.blocks@, 0, bm) + spec_fun_blocks(
        p.funs@,
        0,
        bm,
    )
}

/* -------------------------------- Emitter --------------------------------- */

proof fn lemma_view_push(s: Seq<Instr>, x: Instr)
    ensures
        instrs_view(s.push(x)) == instrs_view(s).push(instr_view(x)),
{
    assert(instrs_view(s.push(x)) =~= instrs_view(s).push(instr_view(x)));
}

/// Put the value of a signed constant into a register.
fn load_signed(reg: Reg, val: i64) -> (r: Instr)
    ensures
        instr_view(r) == spec_load_signed(reg, val),
{
    Instr::Mov(MovArgs::ToReg(reg, Arg64::Signed(val)))
}

/// Put the value of a memory slot into a register.
fn load_mem(reg: Reg, src: i32) -> (r: Instr)
    ensures
        instr_view(r) == spec_load_mem(reg, src),
{
    Instr::Mov(
        MovArgs::ToReg(
            reg,
            Arg64::Mem(MemRef { reg: Reg::Rsp, offset: (-8i32).wrapping_mul(src) }),
        ),
    )
}

/// Flush the value of a register into a memory slot.
fn store_mem(dst: i32, reg: Reg) -> (r: Instr)
    ensures
        instr_view(r) == spec_store_mem(dst, reg),
{
    Instr::Mov(
        MovArgs::ToMem(MemRef { reg: Reg::Rsp, offset: (-8i32).wrapping_mul(dst) }, Reg32::Reg(reg)),
    )
}

/// Every variable that the operation loads has a recorded slot.  A call
/// loads nothing: its arguments were stored by the operations before it.
spec fn op_rec(op: Operation, arena: Map<usize, i32>) -> bool {
    match op {
        Operation::Immediate(imm) => imm_rec(imm, arena),
        Operation::Prim1(_, imm) => imm_rec(imm, arena),
        Operation::Prim2(_, a, b) => imm_rec(a, arena) && imm_rec(b, arena),
        Operation::Call { .. } => true,
    }
}

spec fn imm_rec(imm: Immediate, arena: Map<usize, i32>) -> bool {
    imm is Var ==> arena.dom().contains(imm->Var_0.index)
}

proof fn lemma_imm_rec(imm: Immediate, vs: Seq<usize>, arena: Map<usize, i32>)
    requires
        imm_ok(imm, vs),
        avars_ok(arena, vs),
    ensures
        imm_rec(imm, arena),
{
    if imm is Var {
        assert(vs.contains(imm->Var_0.index));
    }
}

/// The emitter accumulates the output instruction sequence.
pub struct Emitter {
    pub instrs: Vec<Instr>,
}

impl Emitter {
    /// Take over from the lowerer with an empty output buffer.
    pub fn from(lowerer: Lowerer) -> (r: Self)
        ensures
            r.instrs@ == Seq::<Instr>::empty(),
    {
        let _ = lowerer;
        Emitter { instrs: Vec::new() }
    }

    /// The instructions emitted so far.
    pub fn to_asm(self) -> (r: Vec<Instr>)
        ensures
            r@ == self.instrs@,
    {
        self.instrs
    }

    fn emit(&mut self, instr: Instr)
        ensures
            final(self).instrs@ == old(self).instrs@.push(instr),
            instrs_view(final(self).instrs@) == instrs_view(old(self).instrs@).push(
                instr_view(instr),
            ),
    {
        self.instrs.push(instr);
        proof {
            lemma_view_push(old(self).instrs@, instr);
        }
    }

    fn emit_imm_reg(&mut self, imm: &Immediate, reg: Reg, env: &Env)
        requires
            imm_rec(*imm, env.arena@),
        ensures
            instrs_view(final(self).instrs@) == instrs_view(old(self).instrs@).push(
                spec_imm(*imm, reg, env.arena@),
            ),
    {
        match imm {
            Immediate::Var(v) => {
                let src = env.lookup(v);
                self.emit(load_mem(reg, src));
            },
            Immediate::Const(i) => {
                self.emit(load_signed(reg, *i));
            },
        }
        proof {
            lemma_view_push(old(self).instrs@, self.instrs@.last());
            assert(instrs_view(self.instrs@) =~= instrs_view(old(self).instrs@).push(
                spec_imm(*imm, reg, env.arena@),
            ));
        }
    }

    fn emit_cc(&mut self, cc: ConditionCode, ba: BinArgs)
        ensures
            instrs_view(final(self).instrs@) == instrs_view(old(self).instrs@) + spec_cc_seq(
                cc,
                ba,
            ),
    {
        // Zeroing rax is load-bearing: setcc writes only al.
        self.emit(Instr::Cmp(ba));
        self.emit(Instr::Mov(MovArgs::ToReg(Reg::Rax, Arg64::Signed(0))));
        self.emit(Instr::SetCC(cc, Reg8::Al));
        proof {
            assert(instrs_view(self.instrs@) =~= instrs_view(old(self).instrs@)
                + spec_cc_seq(cc, ba));
        }
    }

    /// Compute the operation's result into `rax`, using `r10` as the only
    /// scratch register, then spill it into the destination's fresh slot.
    fn emit_operation(&mut self, dest: &VarName, op: &Operation, env: &mut Env)
        requires
            op_rec(*op, old(env).arena@),
        ensures
            instrs_view(final(self).instrs@) == instrs_view(old(self).instrs@) + spec_op(
                *op,
                old(env).arena@,
            ) + seq![spec_store_mem(old(env).next, Reg::Rax)],
            final(env).arena@ == old(env).arena@.insert(dest.index, old(env).next),
            final(env).next == old(env).next.wrapping_add(1),
            final(env).blocks@ == old(env).blocks@,
    {
        match op {
            Operation::Immediate(imm) => {
                self.emit_imm_reg(imm, Reg::Rax, env);
            },
            Operation::Prim1(op1, imm) => {
                self.emit_imm_reg(imm, Reg::Rax, env);
                match op1 {
                    Prim1::BitNot => {
                        self.emit(Instr::Mov(MovArgs::ToReg(Reg::R10, Arg64::Signed(-1))));
                        self.emit(Instr::Xor(BinArgs::ToReg(Reg::Rax, Arg32::Reg(Reg::R10))));
                    },
                    Prim1::IntToBool => {
                        // If rax is not zero make it 1, otherwise 0.
                        self.emit(Instr::Cmp(BinArgs::ToReg(Reg::Rax, Arg32::Signed(0))));
                        self.emit(Instr::Mov(MovArgs::ToReg(Reg::Rax, Arg64::Signed(0))));
                        self.emit(Instr::SetCC(ConditionCode::NE, Reg8::Al));
                    },
                }
            },
            Operation::Prim2(op2, imm1, imm2) => {
                self.emit_imm_reg(imm1, Reg::Rax, env);
                self.emit_imm_reg(imm2, Reg::R10, env);
                let ba = BinArgs::ToReg(Reg::Rax, Arg32::Reg(Reg::R10));
                match op2 {
                    Prim2::Add => self.emit(Instr::Add(ba)),
                    Prim2::Sub => self.emit(Instr::Sub(ba)),
                    Prim2::Mul => self.emit(Instr::IMul(ba)),
                    Prim2::BitAnd => self.emit(Instr::And(ba)),
                    Prim2::BitOr => self.emit(Instr::Or(ba)),
                    Prim2::BitXor => self.emit(Instr::Xor(ba)),
                    Prim2::Lt => self.emit_cc(ConditionCode::L, ba),
                    Prim2::Gt => self.emit_cc(ConditionCode::G, ba),
                    Prim2::Le => self.emit_cc(ConditionCode::LE, ba),
                    Prim2::Ge => self.emit_cc(ConditionCode::GE, ba),
                    Prim2::Eq => self.emit_cc(ConditionCode::E, ba),
                    Prim2::Neq => self.emit_cc(ConditionCode::NE, ba),
                }
            },
            Operation::Call { fun, .. } => {
                // The arguments already sit in their slots; the runtime
                // names a helper rather than a general C calling
                // convention, so no register marshalling happens here.
                self.emit(Instr::Call(fun.render()));
            },
        }
        // Spill rax into the next free slot, now owned by `dest`.
        let dst = env.allocate(dest);
        self.emit(store_mem(dst, Reg::Rax));
        proof {
            assert(instrs_view(self.instrs@) =~= instrs_view(old(self).instrs@) + spec_op(
                *op,
                old(env).arena@,
            ) + seq![spec_store_mem(old(env).next, Reg::Rax)]);
        }
    }

        /// Write the branch's arguments into the target's slot window,
    /// transporting each through `rax`, then jump to the target.
    #[verifier::loop_isolation(false)]
    fn emit_branch(&mut self, br: &Branch, env: &Env, Ghost(vs): Ghost<Seq<usize>>)
        requires
            env.blocks@.dom().contains(br.target.index),
            imms_ok(br.args@, vs, 0),
            avars_ok(env.arena@, vs),
        ensures
            instrs_view(final(self).instrs@) == instrs_view(old(self).instrs@) + spec_branch(
                *br,
                env.arena@,
                env.blocks@,
            ),
    {
        let base = env.block_base(&br.target);
        let ghost total = spec_branch_args(br.args@, env.arena@, base, 0);
        let mut slot: i32 = base;
        let mut i: usize = 0;
        while i < br.args.len()
            invariant
                i <= br.args@.len(),
                imms_ok(br.args@, vs, i as int),
                instrs_view(self.instrs@) + spec_branch_args(br.args@, env.arena@, slot, i as int)
                    == instrs_view(old(self).instrs@) + total,
            decreases br.args@.len() - i,
        {
            proof {
                assert(imm_ok(br.args@[i as int], vs));
                lemma_imm_rec(br.args@[i as int], vs, env.arena@);
            }
            self.emit_imm_reg(&br.args[i], Reg::Rax, env);
            self.emit(store_mem(slot, Reg::Rax));
            proof {
                lemma_view_push(self.instrs@.drop_last(), self.instrs@.last());
                assert(instrs_view(self.instrs@) + spec_branch_args(
                    br.args@,
                    env.arena@,
                    slot.wrapping_add(1),
                    i + 1,
                ) =~= instrs_view(old(self).instrs@) + total);
            }
            slot = slot.wrapping_add(1);
            i = i + 1;
        }
        self.emit(Instr::Jmp(br.target.render()));
        proof {
            lemma_view_push(self.instrs@.drop_last(), self.instrs@.last());
            assert(instrs_view(self.instrs@) =~= instrs_view(old(self).instrs@)
                + spec_branch(*br, env.arena@, env.blocks@));
        }
    }

    fn emit_terminator(&mut self, t: &Terminator, env: &Env, Ghost(vs): Ghost<Seq<usize>>, Ghost(bs): Ghost<Seq<usize>>)
        requires
            term_ok(*t, vs, bs),
            avars_ok(env.arena@, vs),
            ablocks_ok(env.blocks@, bs),
        ensures
            instrs_view(final(self).instrs@) == instrs_view(old(self).instrs@) + spec_term(
                *t,
                env.arena@,
                env.blocks@,
            ),
    {
        match t {
            Terminator::Return(imm) => {
                proof {
                    lemma_imm_rec(*imm, vs, env.arena@);
                }
                self.emit_imm_reg(imm, Reg::Rax, env);
                self.emit(Instr::Ret);
                proof {
                    lemma_view_push(self.instrs@.drop_last(), self.instrs@.last());
                    assert(instrs_view(self.instrs@) =~= instrs_view(old(self).instrs@)
                        + spec_term(*t, env.arena@, env.blocks@));
                }
            },
            Terminator::Branch(br) => {
                self.emit_branch(br, env, Ghost(vs));
            },
            Terminator::ConditionalBranch { cond, thn, els } => {
                proof {
                    lemma_imm_rec(*cond, vs, env.arena@);
                }
                self.emit_imm_reg(cond, Reg::Rax, env);
                self.emit(Instr::Cmp(BinArgs::ToReg(Reg::Rax, Arg32::Signed(0))));
                self.emit(Instr::JCC(ConditionCode::NE, thn.render()));
                self.emit(Instr::Jmp(els.render()));
                proof {
                    assert(instrs_view(self.instrs@) =~= instrs_view(old(self).instrs@)
                        + spec_term(*t, env.arena@, env.blocks@));
                }
            },
        }
    }
}


proof fn lemma_op_rec(op: Operation, vs: Seq<usize>, arena: Map<usize, i32>)
    requires
        op_ok(op, vs),
        avars_ok(arena, vs),
    ensures
        op_rec(op, arena),
{
    match op {
        Operation::Immediate(imm) => lemma_imm_rec(imm, vs, arena),
        Operation::Prim1(_, imm) => lemma_imm_rec(imm, vs, arena),
        Operation::Prim2(_, a, b) => {
            lemma_imm_rec(a, vs, arena);
            lemma_imm_rec(b, vs, arena);
        },
        Operation::Call { .. } => {},
    }
}

impl Emitter {
    /// Emit a block body: operations compute and spill in order; a
    /// cluster of sub-blocks shares one slot base, records it first, and
    /// then each sibling is emitted with its own snapshot of the slots.
    #[verifier::loop_isolation(false)]
    fn emit_block_body(
        &mut self,
        b: &BlockBody,
        env: &mut Env,
        Ghost(vs): Ghost<Seq<usize>>,
        Ghost(bs): Ghost<Seq<usize>>,
    )
        requires
            body_ok(*b, vs, bs),
            avars_ok(old(env).arena@, vs),
            ablocks_ok(old(env).blocks@, bs),
        ensures
            instrs_view(final(self).instrs@) == instrs_view(old(self).instrs@) + spec_body(
                *b,
                old(env).arena@,
                old(env).blocks@,
                old(env).next,
            ),
        decreases *b,
    {
        match b {
            BlockBody::Terminator(t) => {
                self.emit_terminator(t, env, Ghost(vs), Ghost(bs));
            },
            BlockBody::Operation { dest, op, next } => {
                proof {
                    lemma_op_rec(*op, vs, env.arena@);
                }
                self.emit_operation(dest, op, env);
                proof {
                    lemma_avars_insert(old(env).arena@, vs, dest.index, old(env).next);
                    assert(decreases_to!(*b => (*b)->Operation_next));
                }
                let ghost v1 = instrs_view(self.instrs@);
                self.emit_block_body(next, env, Ghost(vs.push(dest.index)), Ghost(bs));
                proof {
                    assert(instrs_view(self.instrs@) =~= instrs_view(old(self).instrs@)
                        + spec_body(*b, old(env).arena@, old(env).blocks@, old(env).next));
                }
            },
            BlockBody::SubBlocks { blocks: siblings, next } => {
                let ghost arena0 = env.arena@;
                let ghost bm0 = env.blocks@;
                let base = env.next;
                // Record the shared base of every sibling first, so that
                // branches from within the cluster know the layout.
                let mut i: usize = 0;
                while i < siblings.len()
                    invariant
                        i <= siblings@.len(),
                        env.arena@ == arena0,
                        env.next == base,
                        reg_labels(env.blocks@, siblings@, i as int, base) == reg_labels(
                            bm0,
                            siblings@,
                            0,
                            base,
                        ),
                        ablocks_ok(env.blocks@, bs),
                    decreases siblings@.len() - i,
                {
                    env.blocks.insert(siblings[i].label.index, base);
                    i = i + 1;
                }
                let ghost bm2 = env.blocks@;
                let ghost bs2 = with_labels(bs, siblings@, 0);
                proof {
                    lemma_reg_align(bm0, bs, siblings@, 0, base);
                    assert(ablocks_ok(bm2, bs2));
                }
                // Emit the continuation with a snapshot: its allocations
                // do not grow the counter seen by the siblings.
                let mut env2 = env.clone_env();
                proof {
                    assert(decreases_to!(*b => (*b)->SubBlocks_next));
                }
                self.emit_block_body(next, &mut env2, Ghost(vs), Ghost(bs2));
                let ghost v1 = instrs_view(self.instrs@);
                let ghost total_subs = spec_subs(siblings@, 0, arena0, bm2, base);
                // Then each sibling, with its own snapshot.
                let mut j: usize = 0;
                while j < siblings.len()
                    invariant
                        j <= siblings@.len(),
                        env.arena@ == arena0,
                        env.blocks@ == bm2,
                        env.next == base,
                        sub_blocks_ok(siblings@, j as int, vs, bs2),
                        instrs_view(self.instrs@) + spec_subs(
                            siblings@,
                            j as int,
                            arena0,
                            bm2,
                            base,
                        ) == v1 + total_subs,
                    decreases siblings@.len() - j,
                {
                    let mut env3 = env.clone_env();
                    self.emit(Instr::Label(siblings[j].label.render()));
                    let ghost ps = siblings@[j as int].params@;
                    let mut p: usize = 0;
                    while p < siblings[j].params.len()
                        invariant
                            j < siblings@.len(),
                            p <= ps.len(),
                            ps == siblings@[j as int].params@,
                            env3.blocks@ == bm2,
                            env3.next == next_plus(base, p as int),
                            alloc_arena(env3.arena@, ps, p as int, env3.next) == alloc_arena(
                                arena0,
                                ps,
                                0,
                                base,
                            ),
                        decreases ps.len() - p,
                    {
                        env3.allocate(&siblings[j].params[p]);
                        p = p + 1;
                    }
                    proof {
                        lemma_alloc_align(arena0, vs, ps, 0, base);
                        assert(env3.arena@ == alloc_arena(arena0, ps, 0, base));
                        assert(decreases_to!(*b => (*b)->SubBlocks_blocks));
                        assert(decreases_to!((*b)->SubBlocks_blocks => siblings@[j as int]));
                        assert(decreases_to!(siblings@[j as int] => siblings@[j as int].body));
                    }
                    let ghost vpre = instrs_view(self.instrs@);
                    self.emit_block_body(
                        &siblings[j].body,
                        &mut env3,
                        Ghost(with_params(vs, ps, 0)),
                        Ghost(bs2),
                    );
                    proof {
                        assert(instrs_view(self.instrs@) + spec_subs(
                            siblings@,
                            j + 1,
                            arena0,
                            bm2,
                            base,
                        ) =~= v1 + total_subs);
                    }
                    j = j + 1;
                }
                proof {
                    assert(instrs_view(self.instrs@) =~= instrs_view(old(self).instrs@)
                        + spec_body(*b, old(env).arena@, old(env).blocks@, old(env).next));
                }
            },
        }
    }

    /// Emit one top-level basic block: its label, its parameters'
    /// slots, then its body.
    #[verifier::loop_isolation(false)]
    fn emit_basic_block(&mut self, block: &BasicBlock, env: &mut Env, Ghost(bs): Ghost<Seq<usize>>)
        requires
            body_ok(block.body, with_params(Seq::empty(), block.params@, 0), bs),
            ablocks_ok(old(env).blocks@, bs),
            old(env).arena@ == Map::<usize, i32>::empty(),
            old(env).next == 1,
        ensures
            instrs_view(final(self).instrs@) == instrs_view(old(self).instrs@) + spec_top_block(
                *block,
                old(env).blocks@,
            ),
    {
        self.emit(Instr::Label(block.label.render()));
        let ghost ps = block.params@;
        let mut p: usize = 0;
        while p < block.params.len()
            invariant
                p <= ps.len(),
                ps == block.params@,
                env.blocks@ == old(env).blocks@,
                env.next == next_plus(1, p as int),
                alloc_arena(env.arena@, ps, p as int, env.next) == alloc_arena(
                    Map::empty(),
                    ps,
                    0,
                    1,
                ),
            decreases ps.len() - p,
        {
            env.allocate(&block.params[p]);
            p = p + 1;
        }
        proof {
            lemma_alloc_align(Map::empty(), Seq::empty(), ps, 0, 1);
            assert(avars_ok(Map::<usize, i32>::empty(), Seq::<usize>::empty()));
            assert(env.arena@ == alloc_arena(Map::empty(), ps, 0, 1));
        }
        self.emit_block_body(&block.body, env, Ghost(with_params(Seq::empty(), ps, 0)), Ghost(bs));
        proof {
            assert(instrs_view(self.instrs@) =~= instrs_view(old(self).instrs@) + spec_top_block(
                *block,
                old(env).blocks@,
            ));
        }
    }

    /// Emit a function entry: its label, the single argument stored from
    /// `rdi` into the target block's base slot, and the jump.
    fn emit_fun_block(&mut self, fun_block: &FunBlock, env: &Env)
        requires
            env.blocks@.dom().contains(fun_block.body.target.index),
        ensures
            instrs_view(final(self).instrs@) == instrs_view(old(self).instrs@) + spec_fun_block(
                *fun_block,
                env.blocks@,
            ),
    {
        self.emit(Instr::Label(fun_block.name.render()));
        // The argument arrives in rdi, per the System V convention.
        let base = env.block_base(&fun_block.body.target);
        self.emit(store_mem(base, Reg::Rdi));
        self.emit(Instr::Jmp(fun_block.body.target.render()));
        proof {
            assert(instrs_view(self.instrs@) =~= instrs_view(old(self).instrs@) + spec_fun_block(
                *fun_block,
                env.blocks@,
            ));
        }
    }

    /// Emit the whole program: the section directives and entry symbol,
    /// one directive per external function, the top-level blocks over a
    /// shared base map, and the function entries.
    #[verifier::loop_isolation(false)]
    pub fn emit_prog(&mut self, prog: &Program)
        requires
            prog_slots_ok(*prog),
        ensures
            instrs_view(final(self).instrs@) == instrs_view(old(self).instrs@) + spec_prog(*prog),
    {
        self.emit(Instr::Section(".data".to_owned()));
        self.emit(Instr::Section(".text".to_owned()));
        self.emit(Instr::Global("entry".to_owned()));
        let ghost v0 = instrs_view(self.instrs@);
        let ghost total_exts = spec_exts(prog.externs@, 0);
        let mut e: usize = 0;
        while e < prog.externs.len()
            invariant
                e <= prog.externs@.len(),
                instrs_view(self.instrs@) + spec_exts(prog.externs@, e as int) == v0 + total_exts,
            decreases prog.externs@.len() - e,
        {
            self.emit(Instr::Extern(prog.externs[e].name.render()));
            proof {
                assert(instrs_view(self.instrs@) + spec_exts(prog.externs@, e + 1) =~= v0
                    + total_exts);
            }
            e = e + 1;
        }
        let mut env = Env::new();
        // Register every top-level block at the base slot 1 first, so
        // that branches anywhere know where to store their arguments.
        let mut i: usize = 0;
        while i < prog.blocks.len()
            invariant
                i <= prog.blocks@.len(),
                env.arena@ == Map::<usize, i32>::empty(),
                env.next == 1,
                reg_labels(env.blocks@, prog.blocks@, i as int, 1) == reg_labels(
                    Map::empty(),
                    prog.blocks@,
                    0,
                    1,
                ),
            decreases prog.blocks@.len() - i,
        {
            env.blocks.insert(prog.blocks[i].label.index, 1);
            i = i + 1;
        }
        let ghost bm = env.blocks@;
        let ghost bs0 = with_labels(Seq::empty(), prog.blocks@, 0);
        proof {
            assert(ablocks_ok(Map::<usize, i32>::empty(), Seq::<usize>::empty()));
            lemma_reg_align(Map::empty(), Seq::empty(), prog.blocks@, 0, 1);
            assert(ablocks_ok(bm, bs0));
        }
        // Emit the top-level blocks, each over its own slot snapshot.
        let ghost v1 = instrs_view(self.instrs@);
        let ghost total_tops = spec_top_blocks(prog.blocks@, 0, bm);
        let mut j: usize = 0;
        while j < prog.blocks.len()
            invariant
                j <= prog.blocks@.len(),
                env.arena@ == Map::<usize, i32>::empty(),
                env.next == 1,
                env.blocks@ == bm,
                top_blocks_ok(prog.blocks@, j as int, bs0),
                instrs_view(self.instrs@) + spec_top_blocks(prog.blocks@, j as int, bm) == v1
                    + total_tops,
            decreases prog.blocks@.len() - j,
        {
            let mut env2 = env.clone_env();
            self.emit_basic_block(&prog.blocks[j], &mut env2, Ghost(bs0));
            proof {
                assert(instrs_view(self.instrs@) + spec_top_blocks(prog.blocks@, j + 1, bm) =~= v1
                    + total_tops);
            }
            j = j + 1;
        }
        // Finally the function entries.
        let ghost v2 = instrs_view(self.instrs@);
        let ghost total_funs = spec_fun_blocks(prog.funs@, 0, bm);
        let mut f: usize = 0;
        while f < prog.funs.len()
            invariant
                f <= prog.funs@.len(),
                env.blocks@ == bm,
                fun_blocks_ok(prog.funs@, f as int, bs0),
                instrs_view(self.instrs@) + spec_fun_blocks(prog.funs@, f as int, bm) == v2
                    + total_funs,
            decreases prog.funs@.len() - f,
        {
            proof {
                assert(bs0.contains(prog.funs@[f as int].body.target.index));
            }
            self.emit_fun_block(&prog.funs[f], &env);
            proof {
                assert(instrs_view(self.instrs@) + spec_fun_blocks(prog.funs@, f + 1, bm) =~= v2
                    + total_funs);
            }
            f = f + 1;
        }
        proof {
            assert(instrs_view(self.instrs@) =~= instrs_view(old(self).instrs@) + spec_prog(
                *prog,
            ));
        }
    }
}


} // verus!
