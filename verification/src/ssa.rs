//! The static single-assignment intermediate representation: basic blocks
//! with parameters, organised as lexically nested clusters.

use vstd::prelude::*;
use crate::identifiers::{VarName, FunName, BlockName};

verus! {

/// A program has a single input parameter and three parallel sequences:
/// declared external functions, top-level function entries, and the
/// top-level basic blocks.
#[derive(Debug)]
pub struct Program {
    pub externs: Vec<Extern>,
    pub funs: Vec<FunBlock>,
    pub blocks: Vec<BasicBlock>,
}

/// A declared external function: its name and informational parameters.
#[derive(Debug)]
pub struct Extern {
    pub name: FunName,
    pub params: Vec<VarName>,
}

/// A top-level function entry: its body is a single branch into a basic
/// block, forwarding the parameters.
#[derive(Debug)]
pub struct FunBlock {
    pub name: FunName,
    pub params: Vec<VarName>,
    pub body: Branch,
}

#[derive(Debug)]
pub struct BasicBlock {
    pub label: BlockName,
    pub params: Vec<VarName>,
    pub body: BlockBody,
}

#[derive(Debug)]
pub enum BlockBody {
    Terminator(Terminator),
    Operation { dest: VarName, op: Operation, next: Box<BlockBody> },
    SubBlocks { blocks: Vec<BasicBlock>, next: Box<BlockBody> },
}

#[derive(Debug)]
pub enum Terminator {
    Return(Immediate),
    Branch(Branch),
    ConditionalBranch { cond: Immediate, thn: BlockName, els: BlockName },
}

#[derive(Debug)]
pub struct Branch {
    pub target: BlockName,
    pub args: Vec<Immediate>,
}

#[derive(Debug)]
pub enum Operation {
    Immediate(Immediate),
    Prim1(Prim1, Immediate),
    Prim2(Prim2, Immediate, Immediate),
    Call { fun: FunName, args: Vec<Immediate> },
}

#[derive(Clone, Copy, Debug, PartialEq, Eq, Structural)]
pub enum Prim1 {
    BitNot,
    IntToBool,
}

#[derive(Clone, Copy, Debug, PartialEq, Eq, Structural)]
pub enum Prim2 {
    // arithmetic
    Add,
    Sub,
    Mul,
    // logical
    BitAnd,
    BitOr,
    BitXor,
    // comparison
    Lt,
    Le,
    Gt,
    Ge,
    Eq,
    Neq,
}

#[derive(Debug)]
pub enum Immediate {
    Const(i64),
    Var(VarName),
}

impl Clone for Immediate {
    fn clone(&self) -> (r: Self)
        ensures
            r == *self,
    {
        match self {
            Immediate::Const(c) => Immediate::Const(*c),
            Immediate::Var(v) => Immediate::Var(v.clone()),
        }
    }
}

/* --------------------------- Slot discipline ------------------------------ */

// The code generator assigns a stack slot to each variable when it is
// defined, and records a slot base for each block label before emitting
// branches to it.  The predicates below say that every variable is
// defined, and every label recorded, before use — the dominance facet of
// the SSA invariants that the generator relies on.  Variables and labels
// are tracked by their unique indices.

/// The immediate reads only variables whose index is in `vars`.
pub open spec fn imm_ok(imm: Immediate, vars: Seq<usize>) -> bool {
    match imm {
        Immediate::Const(_) => true,
        Immediate::Var(v) => vars.contains(v.index),
    }
}

pub open spec fn imms_ok(args: Seq<Immediate>, vars: Seq<usize>, i: int) -> bool
    decreases args.len() - i,
{
    if i < 0 || i >= args.len() {
        true
    } else {
        imm_ok(args[i], vars) && imms_ok(args, vars, i + 1)
    }
}

/// The operation reads only variables whose index is in `vars`.
pub open spec fn op_ok(op: Operation, vars: Seq<usize>) -> bool {
    match op {
        Operation::Immediate(imm) => imm_ok(imm, vars),
        Operation::Prim1(_, imm) => imm_ok(imm, vars),
        Operation::Prim2(_, a, b) => imm_ok(a, vars) && imm_ok(b, vars),
        Operation::Call { args, .. } => imms_ok(args@, vars, 0),
    }
}

/// The terminator reads only variables in `vars` and jumps only to labels
/// in `blocks`.
pub open spec fn term_ok(t: Terminator, vars: Seq<usize>, blocks: Seq<usize>) -> bool {
    match t {
        Terminator::Return(imm) => imm_ok(imm, vars),
        Terminator::Branch(br) => blocks.contains(br.target.index) && imms_ok(br.args@, vars, 0),
        Terminator::ConditionalBranch { cond, thn, els } => imm_ok(cond, vars) && blocks.contains(
            thn.index,
        ) && blocks.contains(els.index),
    }
}

/// The labels of the blocks in `s`, appended to `blocks` in order.
pub open spec fn with_labels(blocks: Seq<usize>, s: Seq<BasicBlock>, i: int) -> Seq<usize>
    decreases s.len() - i,
{
    if i < 0 || i >= s.len() {
        blocks
    } else {
        with_labels(blocks.push(s[i].label.index), s, i + 1)
    }
}

/// The indices of the parameters in `ps`, appended to `vars` in order.
pub open spec fn with_params(vars: Seq<usize>, ps: Seq<VarName>, i: int) -> Seq<usize>
    decreases ps.len() - i,
{
    if i < 0 || i >= ps.len() {
        vars
    } else {
        with_params(vars.push(ps[i].index), ps, i + 1)
    }
}

/// Every use in the body is preceded by a definition, and every branch
/// target by the declaration of its label.
pub open spec fn body_ok(b: BlockBody, vars: Seq<usize>, blocks: Seq<usize>) -> bool
    decreases b,
{
    match b {
        BlockBody::Terminator(t) => term_ok(t, vars, blocks),
        BlockBody::Operation { dest, op, next } => op_ok(op, vars) && body_ok(
            *next,
            vars.push(dest.index),
            blocks,
        ),
        BlockBody::SubBlocks { blocks: bs, next } => {
            let blocks2 = with_labels(blocks, bs@, 0);
            body_ok(*next, vars, blocks2) && sub_blocks_ok(bs@, 0, vars, blocks2)
        },
    }
}

pub open spec fn sub_blocks_ok(s: Seq<BasicBlock>, i: int, vars: Seq<usize>, blocks: Seq<usize>) -> bool
    decreases s, s.len() - i,
{
    if i < 0 || i >= s.len() {
        true
    } else {
        body_ok(s[i].body, with_params(vars, s[i].params@, 0), blocks) && sub_blocks_ok(
            s,
            i + 1,
            vars,
            blocks,
        )
    }
}

pub open spec fn top_blocks_ok(s: Seq<BasicBlock>, i: int, blocks: Seq<usize>) -> bool
    decreases s.len() - i,
{
    if i < 0 || i >= s.len() {
        true
    } else {
        body_ok(s[i].body, with_params(Seq::empty(), s[i].params@, 0), blocks) && top_blocks_ok(
            s,
            i + 1,
            blocks,
        )
    }
}

pub open spec fn fun_blocks_ok(s: Seq<FunBlock>, i: int, blocks: Seq<usize>) -> bool
    decreases s.len() - i,
{
    if i < 0 || i >= s.len() {
        true
    } else {
        blocks.contains(s[i].body.target.index) && fun_blocks_ok(s, i + 1, blocks)
    }
}

/// The whole program observes the slot discipline: each top-level block
/// and each function entry refers only to what has a slot or a base when
/// the generator reaches it.
pub open spec fn prog_slots_ok(p: Program) -> bool {
    let blocks0 = with_labels(Seq::empty(), p.blocks@, 0);
    top_blocks_ok(p.blocks@, 0, blocks0) && fun_blocks_ok(p.funs@, 0, blocks0)
}

fn seq_has(v: &Vec<usize>, x: usize) -> (r: bool)
    ensures
        r == v@.contains(x),
{
    let mut i: usize = 0;
    while i < v.len()
        invariant
            i <= v.len(),
            forall|j: int| 0 <= j < i ==> v@[j] != x,
        decreases v.len() - i,
    {
        if v[i] == x {
            return true;
        }
        i = i + 1;
    }
    false
}

fn imm_check(imm: &Immediate, vars: &Vec<usize>) -> (r: bool)
    ensures
        r == imm_ok(*imm, vars@),
{
    match imm {
        Immediate::Const(_) => true,
        Immediate::Var(v) => seq_has(vars, v.index),
    }
}

fn imms_check(args: &Vec<Immediate>, vars: &Vec<usize>) -> (r: bool)
    ensures
        r == imms_ok(args@, vars@, 0),
{
    let mut i: usize = 0;
    while i < args.len()
        invariant
            i <= args.len(),
            imms_ok(args@, vars@, 0) == imms_ok(args@, vars@, i as int),
        decreases args.len() - i,
    {
        if !imm_check(&args[i], vars) {
            return false;
        }
        i = i + 1;
    }
    true
}

fn op_check(op: &Operation, vars: &Vec<usize>) -> (r: bool)
    ensures
        r == op_ok(*op, vars@),
{
    match op {
        Operation::Immediate(imm) => imm_check(imm, vars),
        Operation::Prim1(_, imm) => imm_check(imm, vars),
        Operation::Prim2(_, a, b) => {
            let oka = imm_check(a, vars);
            let okb = imm_check(b, vars);
            oka && okb
        },
        Operation::Call { args, .. } => imms_check(args, vars),
    }
}

fn term_check(t: &Terminator, vars: &Vec<usize>, blocks: &Vec<usize>) -> (r: bool)
    ensures
        r == term_ok(*t, vars@, blocks@),
{
    match t {
        Terminator::Return(imm) => imm_check(imm, vars),
        Terminator::Branch(br) => {
            let okt = seq_has(blocks, br.target.index);
            let oka = imms_check(&br.args, vars);
            okt && oka
        },
        Terminator::ConditionalBranch { cond, thn, els } => {
            let okc = imm_check(cond, vars);
            let okt = seq_has(blocks, thn.index);
            let oke = seq_has(blocks, els.index);
            okc && okt && oke
        },
    }
}

#[verifier::loop_isolation(false)]
fn body_check(b: &BlockBody, vars: &mut Vec<usize>, blocks: &mut Vec<usize>) -> (r: bool)
    ensures
        final(vars)@ == old(vars)@,
        final(blocks)@ == old(blocks)@,
        r == body_ok(*b, old(vars)@, old(blocks)@),
    decreases *b,
{
    match b {
        BlockBody::Terminator(t) => term_check(t, vars, blocks),
        BlockBody::Operation { dest, op, next } => {
            let ok_op = op_check(op, vars);
            vars.push(dest.index);
            proof {
                assert(decreases_to!(*b => (*b)->Operation_next));
            }
            let ok_next = body_check(next, vars, blocks);
            vars.pop();
            proof {
                assert(vars@ =~= old(vars)@);
            }
            ok_op && ok_next
        },
        BlockBody::SubBlocks { blocks: bs, next } => {
            let blen = blocks.len();
            let mut i: usize = 0;
            while i < bs.len()
                invariant
                    i <= bs.len(),
                    with_labels(blocks@, bs@, i as int) == with_labels(old(blocks)@, bs@, 0),
                    blocks@.len() >= blen,
                    blocks@.subrange(0, blen as int) =~= old(blocks)@,
                    vars@ == old(vars)@,
                decreases bs.len() - i,
            {
                blocks.push(bs[i].label.index);
                i = i + 1;
            }
            let ghost blocks2 = blocks@;
            proof {
                assert(blocks2 == with_labels(old(blocks)@, bs@, 0));
            }
            proof {
                assert(decreases_to!(*b => (*b)->SubBlocks_next));
            }
            let ok_next = body_check(next, vars, blocks);
            let mut acc = true;
            let mut j: usize = 0;
            while j < bs.len()
                invariant
                    j <= bs.len(),
                    vars@ == old(vars)@,
                    blocks@ == blocks2,
                    sub_blocks_ok(bs@, 0, old(vars)@, blocks2) == (acc && sub_blocks_ok(
                        bs@,
                        j as int,
                        old(vars)@,
                        blocks2,
                    )),
                decreases bs.len() - j,
            {
                let vlen = vars.len();
                let mut p: usize = 0;
                while p < bs[j].params.len()
                    invariant
                        j < bs.len(),
                        p <= bs@[j as int].params@.len(),
                        with_params(vars@, bs@[j as int].params@, p as int) == with_params(
                            old(vars)@,
                            bs@[j as int].params@,
                            0,
                        ),
                        vars@.len() >= vlen,
                        vars@.subrange(0, vlen as int) =~= old(vars)@,
                        blocks@ == blocks2,
                    decreases bs@[j as int].params@.len() - p,
                {
                    let x = bs[j].params[p].index;
                    vars.push(x);
                    p = p + 1;
                }
                proof {
                    assert(decreases_to!(*b => (*b)->SubBlocks_blocks));
                    assert(decreases_to!((*b)->SubBlocks_blocks => bs@[j as int]));
                    assert(decreases_to!(bs@[j as int] => bs@[j as int].body));
                }
                let c = body_check(&bs[j].body, vars, blocks);
                vars.truncate(vlen);
                proof {
                    assert(vars@ =~= old(vars)@);
                }
                acc = acc && c;
                j = j + 1;
            }
            blocks.truncate(blen);
            proof {
                assert(blocks@ =~= old(blocks)@);
            }
            ok_next && acc
        },
    }
}

impl Program {
    /// Whether the program observes the slot discipline of the code
    /// generator: every variable is defined before it is read, and every
    /// branch target's label is declared before the branch.
    #[verifier::loop_isolation(false)]
    pub fn check_slots(&self) -> (r: bool)
        ensures
            r == prog_slots_ok(*self),
    {
        let mut blocks0: Vec<usize> = Vec::new();
        let mut i: usize = 0;
        while i < self.blocks.len()
            invariant
                i <= self.blocks.len(),
                with_labels(blocks0@, self.blocks@, i as int) == with_labels(
                    Seq::empty(),
                    self.blocks@,
                    0,
                ),
            decreases self.blocks.len() - i,
        {
            blocks0.push(self.blocks[i].label.index);
            i = i + 1;
        }
        let ghost b0 = blocks0@;
        let mut acc_tops = true;
        let mut j: usize = 0;
        while j < self.blocks.len()
            invariant
                j <= self.blocks.len(),
                blocks0@ == b0,
                top_blocks_ok(self.blocks@, 0, b0) == (acc_tops && top_blocks_ok(
                    self.blocks@,
                    j as int,
                    b0,
                )),
            decreases self.blocks.len() - j,
        {
            let mut vars: Vec<usize> = Vec::new();
            let mut p: usize = 0;
            while p < self.blocks[j].params.len()
                invariant
                    j < self.blocks.len(),
                    p <= self.blocks@[j as int].params@.len(),
                    blocks0@ == b0,
                    with_params(vars@, self.blocks@[j as int].params@, p as int) == with_params(
                        Seq::empty(),
                        self.blocks@[j as int].params@,
                        0,
                    ),
                decreases self.blocks@[j as int].params@.len() - p,
            {
                vars.push(self.blocks[j].params[p].index);
                p = p + 1;
            }
            let c = body_check(&self.blocks[j].body, &mut vars, &mut blocks0);
            acc_tops = acc_tops && c;
            j = j + 1;
        }
        let mut acc_funs = true;
        let mut k: usize = 0;
        while k < self.funs.len()
            invariant
                k <= self.funs.len(),
                blocks0@ == b0,
                fun_blocks_ok(self.funs@, 0, b0) == (acc_funs && fun_blocks_ok(
                    self.funs@,
                    k as int,
                    b0,
                )),
            decreases self.funs.len() - k,
        {
            let c = seq_has(&blocks0, self.funs[k].body.target.index);
            acc_funs = acc_funs && c;
            k = k + 1;
        }
        acc_tops && acc_funs
    }
}

/* --------------------------- Arity agreement ------------------------------ */

// The second facet of the SSA invariants: every branch's argument list
// matches its target block's parameter count, the two targets of a
// conditional branch take no arguments, and every call's argument count
// matches the declared arity of its target (its parameter count, plus
// the captured variables a lifted function carries).

/// The two names denote the same function.
pub open spec fn same_fun(a: FunName, b: FunName) -> bool {
    match (a, b) {
        (
            FunName::Mangled { index: ia, hint: ha },
            FunName::Mangled { index: ib, hint: hb },
        ) => ia == ib && ha@ == hb@,
        (FunName::Unmangled { name: na }, FunName::Unmangled { name: nb }) => na@ == nb@,
        _ => false,
    }
}

/// Somewhere in this body a block labeled `l` takes `n` parameters.
pub open spec fn body_has_block(b: BlockBody, l: usize, n: nat) -> bool
    decreases b,
{
    match b {
        BlockBody::Terminator(_) => false,
        BlockBody::Operation { next, .. } => body_has_block(*next, l, n),
        BlockBody::SubBlocks { blocks: bs, next } => (exists|j: int|
            0 <= j < bs@.len() && (#[trigger] bs@[j]).label.index == l && bs@[j].params@.len()
                == n) || body_has_block(*next, l, n) || (exists|j: int|
            0 <= j < bs@.len() && body_has_block((#[trigger] bs@[j]).body, l, n)),
    }
}

/// Somewhere in the program a block labeled `l` takes `n` parameters.
pub open spec fn prog_has_block(p: Program, l: usize, n: nat) -> bool {
    (exists|j: int|
        0 <= j < p.blocks@.len() && (#[trigger] p.blocks@[j]).label.index == l
            && p.blocks@[j].params@.len() == n) || (exists|j: int|
        0 <= j < p.blocks@.len() && body_has_block((#[trigger] p.blocks@[j]).body, l, n))
}

/// The program declares a callee of this name with this arity: a
/// function entry with `n` parameters, or an external declaration.
pub open spec fn callee_ok(p: Program, f: FunName, n: nat) -> bool {
    (exists|j: int|
        0 <= j < p.funs@.len() && same_fun((#[trigger] p.funs@[j]).name, f)
            && p.funs@[j].params@.len() == n) || (exists|j: int|
        0 <= j < p.externs@.len() && same_fun((#[trigger] p.externs@[j]).name, f)
            && p.externs@[j].params@.len() == n)
}

pub open spec fn arity_term_ok(p: Program, t: Terminator) -> bool {
    match t {
        Terminator::Return(_) => true,
        Terminator::Branch(br) => prog_has_block(p, br.target.index, br.args@.len()),
        Terminator::ConditionalBranch { thn, els, .. } => prog_has_block(p, thn.index, 0)
            && prog_has_block(p, els.index, 0),
    }
}

pub open spec fn arity_body_ok(p: Program, b: BlockBody) -> bool
    decreases b,
{
    match b {
        BlockBody::Terminator(t) => arity_term_ok(p, t),
        BlockBody::Operation { op, next, .. } => (match op {
            Operation::Call { fun, args } => callee_ok(p, fun, args@.len()),
            _ => true,
        }) && arity_body_ok(p, *next),
        BlockBody::SubBlocks { blocks: bs, next } => arity_body_ok(p, *next) && (forall|j: int|
            0 <= j < bs@.len() ==> arity_body_ok(p, (#[trigger] bs@[j]).body)),
    }
}

/// The whole program agrees on arities: every branch argument list
/// matches its target's parameters, conditional-branch targets take no
/// arguments, every call matches a declared callee, and every function
/// entry forwards exactly its parameters into its target block.
pub open spec fn prog_arities_ok(p: Program) -> bool {
    &&& forall|j: int| 0 <= j < p.blocks@.len() ==> arity_body_ok(p, (#[trigger] p.blocks@[j]).body)
    &&& forall|j: int|
        0 <= j < p.funs@.len() ==> (#[trigger] p.funs@[j]).body.args@.len()
            == p.funs@[j].params@.len() && prog_has_block(
            p,
            p.funs@[j].body.target.index,
            p.funs@[j].body.args@.len(),
        )
}

fn fun_name_matches(a: &FunName, b: &FunName) -> (r: bool)
    ensures
        r == same_fun(*a, *b),
{
    match (a, b) {
        (FunName::Mangled { index: ia, hint: ha }, FunName::Mangled { index: ib, hint: hb }) => *ia
            == *ib && *ha == *hb,
        (FunName::Unmangled { name: na }, FunName::Unmangled { name: nb }) => *na == *nb,
        _ => false,
    }
}

#[verifier::loop_isolation(false)]
fn body_block_has(b: &BlockBody, l: usize, n: usize) -> (r: bool)
    ensures
        r == body_has_block(*b, l, n as nat),
    decreases *b,
{
    match b {
        BlockBody::Terminator(_) => false,
        BlockBody::Operation { next, .. } => {
            proof {
                assert(decreases_to!(*b => (*b)->Operation_next));
            }
            body_block_has(next, l, n)
        },
        BlockBody::SubBlocks { blocks: bs, next } => {
            let mut j: usize = 0;
            while j < bs.len()
                invariant
                    j <= bs@.len(),
                    forall|q: int|
                        0 <= q < j ==> !((#[trigger] bs@[q]).label.index == l
                            && bs@[q].params@.len() == n as nat),
                    forall|q: int|
                        0 <= q < j ==> !body_has_block((#[trigger] bs@[q]).body, l, n as nat),
                decreases bs@.len() - j,
            {
                if bs[j].label.index == l && bs[j].params.len() == n {
                    return true;
                }
                proof {
                    assert(decreases_to!(*b => (*b)->SubBlocks_blocks));
                    assert(decreases_to!((*b)->SubBlocks_blocks => bs@[j as int]));
                    assert(decreases_to!(bs@[j as int] => bs@[j as int].body));
                }
                if body_block_has(&bs[j].body, l, n) {
                    return true;
                }
                j = j + 1;
            }
            proof {
                assert(decreases_to!(*b => (*b)->SubBlocks_next));
            }
            body_block_has(next, l, n)
        },
    }
}

#[verifier::loop_isolation(false)]
fn prog_block_has(p: &Program, l: usize, n: usize) -> (r: bool)
    ensures
        r == prog_has_block(*p, l, n as nat),
{
    let mut j: usize = 0;
    while j < p.blocks.len()
        invariant
            j <= p.blocks@.len(),
            forall|q: int|
                0 <= q < j ==> !((#[trigger] p.blocks@[q]).label.index == l
                    && p.blocks@[q].params@.len() == n as nat),
            forall|q: int|
                0 <= q < j ==> !body_has_block((#[trigger] p.blocks@[q]).body, l, n as nat),
        decreases p.blocks@.len() - j,
    {
        if p.blocks[j].label.index == l && p.blocks[j].params.len() == n {
            return true;
        }
        if body_block_has(&p.blocks[j].body, l, n) {
            return true;
        }
        j = j + 1;
    }
    false
}

#[verifier::loop_isolation(false)]
fn callee_has(p: &Program, f: &FunName, n: usize) -> (r: bool)
    ensures
        r == callee_ok(*p, *f, n as nat),
{
    let mut j: usize = 0;
    while j < p.funs.len()
        invariant
            j <= p.funs@.len(),
            forall|q: int|
                0 <= q < j ==> !(same_fun((#[trigger] p.funs@[q]).name, *f)
                    && p.funs@[q].params@.len() == n as nat),
        decreases p.funs@.len() - j,
    {
        if fun_name_matches(&p.funs[j].name, f) && p.funs[j].params.len() == n {
            return true;
        }
        j = j + 1;
    }
    let mut e: usize = 0;
    while e < p.externs.len()
        invariant
            e <= p.externs@.len(),
            forall|q: int|
                0 <= q < j ==> !(same_fun((#[trigger] p.funs@[q]).name, *f)
                    && p.funs@[q].params@.len() == n as nat),
            j == p.funs@.len(),
            forall|q: int|
                0 <= q < e ==> !(same_fun((#[trigger] p.externs@[q]).name, *f)
                    && p.externs@[q].params@.len() == n as nat),
        decreases p.externs@.len() - e,
    {
        if fun_name_matches(&p.externs[e].name, f) && p.externs[e].params.len() == n {
            return true;
        }
        e = e + 1;
    }
    false
}

#[verifier::loop_isolation(false)]
fn arity_body_check(p: &Program, b: &BlockBody) -> (r: bool)
    ensures
        r == arity_body_ok(*p, *b),
    decreases *b,
{
    match b {
        BlockBody::Terminator(t) => match t {
            Terminator::Return(_) => true,
            Terminator::Branch(br) => prog_block_has(p, br.target.index, br.args.len()),
            Terminator::ConditionalBranch { thn, els, .. } => {
                let a = prog_block_has(p, thn.index, 0);
                let c = prog_block_has(p, els.index, 0);
                a && c
            },
        },
        BlockBody::Operation { op, next, .. } => {
            let ok_op = match op {
                Operation::Call { fun, args } => callee_has(p, fun, args.len()),
                _ => true,
            };
            proof {
                assert(decreases_to!(*b => (*b)->Operation_next));
            }
            let ok_next = arity_body_check(p, next);
            ok_op && ok_next
        },
        BlockBody::SubBlocks { blocks: bs, next } => {
            proof {
                assert(decreases_to!(*b => (*b)->SubBlocks_next));
            }
            let mut acc = arity_body_check(p, next);
            let mut j: usize = 0;
            while j < bs.len()
                invariant
                    j <= bs@.len(),
                    (arity_body_ok(*p, *b->SubBlocks_next) && (forall|q: int|
                        0 <= q < bs@.len() ==> arity_body_ok(
                            *p,
                            (#[trigger] bs@[q]).body,
                        ))) == (acc && (forall|q: int|
                        j <= q < bs@.len() ==> arity_body_ok(*p, (#[trigger] bs@[q]).body))),
                decreases bs@.len() - j,
            {
                proof {
                    assert(decreases_to!(*b => (*b)->SubBlocks_blocks));
                    assert(decreases_to!((*b)->SubBlocks_blocks => bs@[j as int]));
                    assert(decreases_to!(bs@[j as int] => bs@[j as int].body));
                }
                let c = arity_body_check(p, &bs[j].body);
                acc = acc && c;
                j = j + 1;
            }
            acc
        },
    }
}

impl Program {
    /// Whether every branch and call in the program agrees with its
    /// target's declared arity.
    #[verifier::loop_isolation(false)]
    pub fn check_arities(&self) -> (r: bool)
        ensures
            r == prog_arities_ok(*self),
    {
        let mut acc = true;
        let mut j: usize = 0;
        while j < self.blocks.len()
            invariant
                j <= self.blocks@.len(),
                acc == (forall|q: int|
                    0 <= q < j ==> arity_body_ok(*self, (#[trigger] self.blocks@[q]).body)),
            decreases self.blocks@.len() - j,
        {
            let c = arity_body_check(self, &self.blocks[j].body);
            acc = acc && c;
            j = j + 1;
        }
        let mut accf = true;
        let mut k: usize = 0;
        while k < self.funs.len()
            invariant
                k <= self.funs@.len(),
                accf == (forall|q: int|
                    0 <= q < k ==> (#[trigger] self.funs@[q]).body.args@.len()
                        == self.funs@[q].params@.len() && prog_has_block(
                        *self,
                        self.funs@[q].body.target.index,
                        self.funs@[q].body.args@.len(),
                    )),
            decreases self.funs@.len() - k,
        {
            let same = self.funs[k].body.args.len() == self.funs[k].params.len();
            let has = prog_block_has(
                self,
                self.funs[k].body.target.index,
                self.funs[k].body.args.len(),
            );
            accf = accf && same && has;
            k = k + 1;
        }
        acc && accf
    }
}


} // verus!
