//! x86-64 instructions and their rendering in NASM Intel syntax.

use vstd::prelude::*;
use crate::digits::{spec_idec, spec_hex32, spec_hex64, push_i32_dec, push_i64_dec, push_hex32,
    push_hex64};

verus! {

/// An unadorned register is a 64-bit register.
#[derive(Copy, Clone, Debug, PartialEq, Eq, Structural)]
pub enum Reg {
    Rax,
    Rbx,
    Rdx,
    Rcx,
    Rsi,
    Rdi,
    Rsp,
    Rbp,
    R8,
    R9,
    R10,
    R11,
    R12,
    R13,
    R14,
    R15,
}

#[derive(Copy, Clone, Debug, PartialEq, Eq, Structural)]
pub enum Reg8 {
    Ah,
    Al,
    Ch,
    Cl,
    Dh,
    Dl,
    Bh,
    Bl,
    Spl,
    Bpl,
    Sil,
    Dil,
    R8b,
    R9b,
    R10b,
    R11b,
    R12b,
    R13b,
    R14b,
    R15b,
}

#[derive(Copy, Clone, Debug, PartialEq, Eq, Structural)]
pub enum ConditionCode {
    E,
    NE,
    L,
    LE,
    G,
    GE,
    S,
    Z,
    NZ,
    O,
    NO,
}

/// A memory reference `QWORD [reg + offset]`.
#[derive(Copy, Clone, Debug, PartialEq, Eq, Structural)]
pub struct MemRef {
    pub reg: Reg,
    pub offset: i32,
}

#[derive(Copy, Clone, Debug, PartialEq, Eq, Structural)]
pub enum Arg64 {
    Reg(Reg),
    Signed(i64),
    Unsigned(u64),
    Mem(MemRef),
}

#[derive(Copy, Clone, Debug, PartialEq, Eq, Structural)]
pub enum Arg32 {
    Reg(Reg),
    Signed(i32),
    Unsigned(u32),
    Mem(MemRef),
}

#[derive(Copy, Clone, Debug, PartialEq, Eq, Structural)]
pub enum Reg32 {
    Reg(Reg),
    Imm(i32),
}

#[derive(Copy, Clone, Debug, PartialEq, Eq, Structural)]
pub enum MovArgs {
    ToReg(Reg, Arg64),
    ToMem(MemRef, Reg32),
}

#[derive(Copy, Clone, Debug, PartialEq, Eq, Structural)]
pub enum BinArgs {
    ToReg(Reg, Arg32),
    ToMem(MemRef, Reg32),
}

#[derive(Copy, Clone, Debug, PartialEq, Eq, Structural)]
pub enum Loc {
    Reg(Reg),
    Mem(MemRef),
}

#[derive(Debug, PartialEq, Eq)]
pub enum Instr {
    Mov(MovArgs),
    Add(BinArgs),
    Sub(BinArgs),
    IMul(BinArgs),
    And(BinArgs),
    Or(BinArgs),
    Xor(BinArgs),
    Shr(BinArgs),
    Sar(BinArgs),
    Cmp(BinArgs),
    Test(BinArgs),
    Push(Arg32),
    Pop(Loc),
    Label(String),
    Comment(String),
    Section(String),
    Global(String),
    Extern(String),
    Call(String),
    Ret,
    Jmp(String),
    // Conditional mov, jmp and set
    CMovCC(ConditionCode, BinArgs),
    JCC(ConditionCode, String),
    SetCC(ConditionCode, Reg8),
}

/* --------------------------------- Text ----------------------------------- */

pub open spec fn spec_reg_text(r: Reg) -> Seq<char> {
    match r {
        Reg::Rax => "rax"@,
        Reg::Rbx => "rbx"@,
        Reg::Rcx => "rcx"@,
        Reg::Rdx => "rdx"@,
        Reg::Rsi => "rsi"@,
        Reg::Rdi => "rdi"@,
        Reg::Rsp => "rsp"@,
        Reg::Rbp => "rbp"@,
        Reg::R8 => "r8"@,
        Reg::R9 => "r9"@,
        Reg::R10 => "r10"@,
        Reg::R11 => "r11"@,
        Reg::R12 => "r12"@,
        Reg::R13 => "r13"@,
        Reg::R14 => "r14"@,
        Reg::R15 => "r15"@,
    }
}

pub open spec fn spec_reg8_text(r: Reg8) -> Seq<char> {
    match r {
        Reg8::Al => "al"@,
        Reg8::Ah => "ah"@,
        Reg8::Cl => "cl"@,
        Reg8::Ch => "ch"@,
        Reg8::Dl => "dl"@,
        Reg8::Dh => "dh"@,
        Reg8::Bl => "bl"@,
        Reg8::Bh => "bh"@,
        Reg8::Spl => "spl"@,
        Reg8::Bpl => "bpl"@,
        Reg8::Sil => "sil"@,
        Reg8::Dil => "dil"@,
        Reg8::R8b => "r8b"@,
        Reg8::R9b => "r9b"@,
        Reg8::R10b => "r10b"@,
        Reg8::R11b => "r11b"@,
        Reg8::R12b => "r12b"@,
        Reg8::R13b => "r13b"@,
        Reg8::R14b => "r14b"@,
        Reg8::R15b => "r15b"@,
    }
}

pub open spec fn spec_cc_text(cc: ConditionCode) -> Seq<char> {
    match cc {
        ConditionCode::E => "e"@,
        ConditionCode::NE => "ne"@,
        ConditionCode::L => "l"@,
        ConditionCode::LE => "le"@,
        ConditionCode::G => "g"@,
        ConditionCode::GE => "ge"@,
        ConditionCode::S => "s"@,
        ConditionCode::Z => "z"@,
        ConditionCode::NZ => "nz"@,
        ConditionCode::O => "o"@,
        ConditionCode::NO => "no"@,
    }
}

/// A 32-bit immediate prints as signed decimal.
pub open spec fn spec_imm32_text(i: i32) -> Seq<char> {
    spec_idec(i as int)
}

/// A memory reference prints as `QWORD [reg + offset]`.
pub open spec fn spec_mem_ref_text(m: MemRef) -> Seq<char> {
    "QWORD ["@ + spec_reg_text(m.reg) + " + "@ + spec_idec(m.offset as int) + "]"@
}

pub open spec fn spec_reg32_text(a: Reg32) -> Seq<char> {
    match a {
        Reg32::Reg(r) => spec_reg_text(r),
        Reg32::Imm(i) => spec_imm32_text(i),
    }
}

/// Signed immediates print as decimal, unsigned as fixed-width `0x` hex.
pub open spec fn spec_arg32_text(a: Arg32) -> Seq<char> {
    match a {
        Arg32::Reg(r) => spec_reg_text(r),
        Arg32::Signed(i) => spec_idec(i as int),
        Arg32::Unsigned(u) => "0x"@ + spec_hex32(u),
        Arg32::Mem(m) => spec_mem_ref_text(m),
    }
}

/// Signed immediates print as decimal, unsigned as fixed-width `0x` hex.
pub open spec fn spec_arg64_text(a: Arg64) -> Seq<char> {
    match a {
        Arg64::Reg(r) => spec_reg_text(r),
        Arg64::Signed(i) => spec_idec(i as int),
        Arg64::Unsigned(u) => "0x"@ + spec_hex64(u),
        Arg64::Mem(m) => spec_mem_ref_text(m),
    }
}

pub open spec fn spec_mov_args_text(a: MovArgs) -> Seq<char> {
    match a {
        MovArgs::ToReg(r, arg) => spec_reg_text(r) + ", "@ + spec_arg64_text(arg),
        MovArgs::ToMem(mem, arg) => spec_mem_ref_text(mem) + ", "@ + spec_reg32_text(arg),
    }
}

pub open spec fn spec_bin_args_text(a: BinArgs) -> Seq<char> {
    match a {
        BinArgs::ToReg(r, arg) => spec_reg_text(r) + ", "@ + spec_arg32_text(arg),
        BinArgs::ToMem(mem, arg) => spec_mem_ref_text(mem) + ", "@ + spec_reg32_text(arg),
    }
}

pub open spec fn spec_loc_text(l: Loc) -> Seq<char> {
    match l {
        Loc::Reg(r) => spec_reg_text(r),
        Loc::Mem(m) => spec_mem_ref_text(m),
    }
}

/// One line of assembly text for an instruction, without the newline.
/// Operation lines are indented by eight spaces; labels, sections and
/// comments are not.
pub open spec fn spec_instr_text(i: Instr) -> Seq<char> {
    match i {
        Instr::Mov(args) => "        mov "@ + spec_mov_args_text(args),
        Instr::Add(args) => "        add "@ + spec_bin_args_text(args),
        Instr::Sub(args) => "        sub "@ + spec_bin_args_text(args),
        Instr::IMul(args) => "        imul "@ + spec_bin_args_text(args),
        Instr::And(args) => "        and "@ + spec_bin_args_text(args),
        Instr::Or(args) => "        or "@ + spec_bin_args_text(args),
        Instr::Xor(args) => "        xor "@ + spec_bin_args_text(args),
        Instr::Shr(args) => "        shr "@ + spec_bin_args_text(args),
        Instr::Sar(args) => "        sar "@ + spec_bin_args_text(args),
        Instr::Cmp(args) => "        cmp "@ + spec_bin_args_text(args),
        Instr::Test(args) => "        test "@ + spec_bin_args_text(args),
        Instr::Push(arg) => "        push "@ + spec_arg32_text(arg),
        Instr::Pop(loc) => "        pop "@ + spec_loc_text(loc),
        Instr::Label(s) => s@ + ":"@,
        Instr::Comment(s) => ";;; "@ + s@,
        Instr::Section(s) => "section "@ + s@,
        Instr::Global(s) => "        global "@ + s@,
        Instr::Extern(s) => "        extern "@ + s@,
        Instr::Call(s) => "        call "@ + s@,
        Instr::Ret => "        ret"@,
        Instr::CMovCC(cc, args) => "        cmov"@ + spec_cc_text(cc) + " "@ + spec_bin_args_text(
            args,
        ),
        Instr::Jmp(s) => "        jmp "@ + s@,
        Instr::JCC(cc, l) => "        j"@ + spec_cc_text(cc) + " "@ + l@,
        Instr::SetCC(cc, r) => "        set"@ + spec_cc_text(cc) + " "@ + spec_reg8_text(r),
    }
}

/// The text of a sequence of instructions, one line each.
pub open spec fn spec_instrs_text(s: Seq<Instr>, i: int) -> Seq<char>
    decreases s.len() - i,
{
    if i < 0 || i >= s.len() {
        Seq::empty()
    } else {
        spec_instr_text(s[i]) + "\n"@ + spec_instrs_text(s, i + 1)
    }
}

pub fn reg_to_string(r: Reg) -> (s: String)
    ensures
        s@ == spec_reg_text(r),
{
    match r {
        Reg::Rax => String::from_str("rax"),
        Reg::Rbx => String::from_str("rbx"),
        Reg::Rcx => String::from_str("rcx"),
        Reg::Rdx => String::from_str("rdx"),
        Reg::Rsi => String::from_str("rsi"),
        Reg::Rdi => String::from_str("rdi"),
        Reg::Rsp => String::from_str("rsp"),
        Reg::Rbp => String::from_str("rbp"),
        Reg::R8 => String::from_str("r8"),
        Reg::R9 => String::from_str("r9"),
        Reg::R10 => String::from_str("r10"),
        Reg::R11 => String::from_str("r11"),
        Reg::R12 => String::from_str("r12"),
        Reg::R13 => String::from_str("r13"),
        Reg::R14 => String::from_str("r14"),
        Reg::R15 => String::from_str("r15"),
    }
}

pub fn reg8_to_string(r: Reg8) -> (s: String)
    ensures
        s@ == spec_reg8_text(r),
{
    match r {
        Reg8::Al => String::from_str("al"),
        Reg8::Ah => String::from_str("ah"),
        Reg8::Cl => String::from_str("cl"),
        Reg8::Ch => String::from_str("ch"),
        Reg8::Dl => String::from_str("dl"),
        Reg8::Dh => String::from_str("dh"),
        Reg8::Bl => String::from_str("bl"),
        Reg8::Bh => String::from_str("bh"),
        Reg8::Spl => String::from_str("spl"),
        Reg8::Bpl => String::from_str("bpl"),
        Reg8::Sil => String::from_str("sil"),
        Reg8::Dil => String::from_str("dil"),
        Reg8::R8b => String::from_str("r8b"),
        Reg8::R9b => String::from_str("r9b"),
        Reg8::R10b => String::from_str("r10b"),
        Reg8::R11b => String::from_str("r11b"),
        Reg8::R12b => String::from_str("r12b"),
        Reg8::R13b => String::from_str("r13b"),
        Reg8::R14b => String::from_str("r14b"),
        Reg8::R15b => String::from_str("r15b"),
    }
}

pub fn cc_to_string(cc: ConditionCode) -> (s: String)
    ensures
        s@ == spec_cc_text(cc),
{
    match cc {
        ConditionCode::E => String::from_str("e"),
        ConditionCode::NE => String::from_str("ne"),
        ConditionCode::L => String::from_str("l"),
        ConditionCode::LE => String::from_str("le"),
        ConditionCode::G => String::from_str("g"),
        ConditionCode::GE => String::from_str("ge"),
        ConditionCode::S => String::from_str("s"),
        ConditionCode::Z => String::from_str("z"),
        ConditionCode::NZ => String::from_str("nz"),
        ConditionCode::O => String::from_str("o"),
        ConditionCode::NO => String::from_str("no"),
    }
}

pub fn imm32_to_string(i: i32) -> (s: String)
    ensures
        s@ == spec_imm32_text(i),
{
    let mut buf = String::new();
    push_i32_dec(&mut buf, i);
    buf
}

pub fn mem_ref_to_string(m: MemRef) -> (s: String)
    ensures
        s@ == spec_mem_ref_text(m),
{
    let mut buf = String::from_str("QWORD [");
    let reg = reg_to_string(m.reg);
    buf.append(reg.as_str());
    buf.append(" + ");
    push_i32_dec(&mut buf, m.offset);
    buf.append("]");
    proof {
        assert(buf@ =~= spec_mem_ref_text(m));
    }
    buf
}

pub fn reg32_to_string(r_or_i: Reg32) -> (s: String)
    ensures
        s@ == spec_reg32_text(r_or_i),
{
    match r_or_i {
        Reg32::Reg(r) => reg_to_string(r),
        Reg32::Imm(i) => imm32_to_string(i),
    }
}

pub fn arg32_to_string(arg: Arg32) -> (s: String)
    ensures
        s@ == spec_arg32_text(arg),
{
    match arg {
        Arg32::Reg(r) => reg_to_string(r),
        Arg32::Signed(i) => imm32_to_string(i),
        Arg32::Unsigned(u) => {
            let mut buf = String::from_str("0x");
            push_hex32(&mut buf, u);
            buf
        },
        Arg32::Mem(m) => mem_ref_to_string(m),
    }
}

pub fn arg64_to_string(arg: Arg64) -> (s: String)
    ensures
        s@ == spec_arg64_text(arg),
{
    match arg {
        Arg64::Reg(r) => reg_to_string(r),
        Arg64::Signed(i) => {
            let mut buf = String::new();
            push_i64_dec(&mut buf, i);
            buf
        },
        Arg64::Unsigned(u) => {
            let mut buf = String::from_str("0x");
            push_hex64(&mut buf, u);
            buf
        },
        Arg64::Mem(m) => mem_ref_to_string(m),
    }
}

pub fn mov_args_to_string(args: MovArgs) -> (s: String)
    ensures
        s@ == spec_mov_args_text(args),
{
    match args {
        MovArgs::ToReg(r, arg) => {
            let mut buf = reg_to_string(r);
            buf.append(", ");
            let a = arg64_to_string(arg);
            buf.append(a.as_str());
            proof {
                assert(buf@ =~= spec_mov_args_text(args));
            }
            buf
        },
        MovArgs::ToMem(mem, arg) => {
            let mut buf = mem_ref_to_string(mem);
            buf.append(", ");
            let a = reg32_to_string(arg);
            buf.append(a.as_str());
            proof {
                assert(buf@ =~= spec_mov_args_text(args));
            }
            buf
        },
    }
}

pub fn bin_args_to_string(args: BinArgs) -> (s: String)
    ensures
        s@ == spec_bin_args_text(args),
{
    match args {
        BinArgs::ToReg(r, arg) => {
            let mut buf = reg_to_string(r);
            buf.append(", ");
            let a = arg32_to_string(arg);
            buf.append(a.as_str());
            proof {
                assert(buf@ =~= spec_bin_args_text(args));
            }
            buf
        },
        BinArgs::ToMem(mem, arg) => {
            let mut buf = mem_ref_to_string(mem);
            buf.append(", ");
            let a = reg32_to_string(arg);
            buf.append(a.as_str());
            proof {
                assert(buf@ =~= spec_bin_args_text(args));
            }
            buf
        },
    }
}

pub fn loc_to_string(loc: Loc) -> (s: String)
    ensures
        s@ == spec_loc_text(loc),
{
    match loc {
        Loc::Reg(r) => reg_to_string(r),
        Loc::Mem(m) => mem_ref_to_string(m),
    }
}

fn prefixed(prefix: &str, rest: &str) -> (s: String)
    ensures
        s@ == prefix@ + rest@,
{
    let mut buf = prefix.to_owned();
    buf.append(rest);
    buf
}

pub fn instr_to_string(i: &Instr) -> (s: String)
    ensures
        s@ == spec_instr_text(*i),
{
    let r = match i {
        Instr::Mov(args) => prefixed("        mov ", mov_args_to_string(*args).as_str()),
        Instr::Add(args) => prefixed("        add ", bin_args_to_string(*args).as_str()),
        Instr::Sub(args) => prefixed("        sub ", bin_args_to_string(*args).as_str()),
        Instr::IMul(args) => prefixed("        imul ", bin_args_to_string(*args).as_str()),
        Instr::And(args) => prefixed("        and ", bin_args_to_string(*args).as_str()),
        Instr::Or(args) => prefixed("        or ", bin_args_to_string(*args).as_str()),
        Instr::Xor(args) => prefixed("        xor ", bin_args_to_string(*args).as_str()),
        Instr::Shr(args) => prefixed("        shr ", bin_args_to_string(*args).as_str()),
        Instr::Sar(args) => prefixed("        sar ", bin_args_to_string(*args).as_str()),
        Instr::Cmp(args) => prefixed("        cmp ", bin_args_to_string(*args).as_str()),
        Instr::Test(args) => prefixed("        test ", bin_args_to_string(*args).as_str()),
        Instr::Push(arg) => prefixed("        push ", arg32_to_string(*arg).as_str()),
        Instr::Pop(loc) => prefixed("        pop ", loc_to_string(*loc).as_str()),
        Instr::Label(s) => prefixed(s.as_str(), ":"),
        Instr::Comment(s) => prefixed(";;; ", s.as_str()),
        Instr::Section(s) => prefixed("section ", s.as_str()),
        Instr::Global(s) => prefixed("        global ", s.as_str()),
        Instr::Extern(s) => prefixed("        extern ", s.as_str()),
        Instr::Call(s) => prefixed("        call ", s.as_str()),
        Instr::Ret => String::from_str("        ret"),
        Instr::CMovCC(cc, args) => {
            let mut buf = prefixed("        cmov", cc_to_string(*cc).as_str());
            buf.append(" ");
            let a = bin_args_to_string(*args);
            buf.append(a.as_str());
            buf
        },
        Instr::Jmp(s) => prefixed("        jmp ", s.as_str()),
        Instr::JCC(cc, l) => {
            let mut buf = prefixed("        j", cc_to_string(*cc).as_str());
            buf.append(" ");
            buf.append(l.as_str());
            buf
        },
        Instr::SetCC(cc, a) => {
            let mut buf = prefixed("        set", cc_to_string(*cc).as_str());
            buf.append(" ");
            let t = reg8_to_string(*a);
            buf.append(t.as_str());
            buf
        },
    };
    proof {
        assert(r@ =~= spec_instr_text(*i));
    }
    r
}

pub fn instrs_to_string(is: &Vec<Instr>) -> (s: String)
    ensures
        s@ == spec_instrs_text(is@, 0),
{
    let mut buf = String::new();
    let mut i: usize = 0;
    while i < is.len()
        invariant
            i <= is.len(),
            buf@ + spec_instrs_text(is@, i as int) == spec_instrs_text(is@, 0),
        decreases is.len() - i,
    {
        let line = instr_to_string(&is[i]);
        buf.append(line.as_str());
        buf.append("\n");
        i = i + 1;
        proof {
            assert((buf@ + spec_instrs_text(is@, i as int)) =~= spec_instrs_text(is@, 0));
        }
    }
    proof {
        assert(buf@ =~= spec_instrs_text(is@, 0));
    }
    buf
}

/* ------------------------------ Ghost view -------------------------------- */

// Spec code cannot build `String` values, so the code generator's
// contracts describe emitted instructions through this view, which holds
// the text of labels and symbols as character sequences.

/// An instruction with its textual payloads as character sequences.
pub enum InstrV {
    Mov(MovArgs),
    Add(BinArgs),
    Sub(BinArgs),
    IMul(BinArgs),
    And(BinArgs),
    Or(BinArgs),
    Xor(BinArgs),
    Shr(BinArgs),
    Sar(BinArgs),
    Cmp(BinArgs),
    Test(BinArgs),
    Push(Arg32),
    Pop(Loc),
    Label(Seq<char>),
    Comment(Seq<char>),
    Section(Seq<char>),
    Global(Seq<char>),
    Extern(Seq<char>),
    Call(Seq<char>),
    Ret,
    Jmp(Seq<char>),
    CMovCC(ConditionCode, BinArgs),
    JCC(ConditionCode, Seq<char>),
    SetCC(ConditionCode, Reg8),
}

/// The view of one instruction.
pub open spec fn instr_view(i: Instr) -> InstrV {
    match i {
        Instr::Mov(a) => InstrV::Mov(a),
        Instr::Add(a) => InstrV::Add(a),
        Instr::Sub(a) => InstrV::Sub(a),
        Instr::IMul(a) => InstrV::IMul(a),
        Instr::And(a) => InstrV::And(a),
        Instr::Or(a) => InstrV::Or(a),
        Instr::Xor(a) => InstrV::Xor(a),
        Instr::Shr(a) => InstrV::Shr(a),
        Instr::Sar(a) => InstrV::Sar(a),
        Instr::Cmp(a) => InstrV::Cmp(a),
        Instr::Test(a) => InstrV::Test(a),
        Instr::Push(a) => InstrV::Push(a),
        Instr::Pop(a) => InstrV::Pop(a),
        Instr::Label(s) => InstrV::Label(s@),
        Instr::Comment(s) => InstrV::Comment(s@),
        Instr::Section(s) => InstrV::Section(s@),
        Instr::Global(s) => InstrV::Global(s@),
        Instr::Extern(s) => InstrV::Extern(s@),
        Instr::Call(s) => InstrV::Call(s@),
        Instr::Ret => InstrV::Ret,
        Instr::CMovCC(cc, a) => InstrV::CMovCC(cc, a),
        Instr::Jmp(s) => InstrV::Jmp(s@),
        Instr::JCC(cc, s) => InstrV::JCC(cc, s@),
        Instr::SetCC(cc, r) => InstrV::SetCC(cc, r),
    }
}

/// The view of a sequence of instructions.
pub open spec fn instrs_view(s: Seq<Instr>) -> Seq<InstrV> {
    s.map(|i: int, x: Instr| instr_view(x))
}


/// One line of assembly text for an instruction view, without the
/// newline.
pub open spec fn instr_v_text(i: InstrV) -> Seq<char> {
    match i {
        InstrV::Mov(args) => "        mov "@ + spec_mov_args_text(args),
        InstrV::Add(args) => "        add "@ + spec_bin_args_text(args),
        InstrV::Sub(args) => "        sub "@ + spec_bin_args_text(args),
        InstrV::IMul(args) => "        imul "@ + spec_bin_args_text(args),
        InstrV::And(args) => "        and "@ + spec_bin_args_text(args),
        InstrV::Or(args) => "        or "@ + spec_bin_args_text(args),
        InstrV::Xor(args) => "        xor "@ + spec_bin_args_text(args),
        InstrV::Shr(args) => "        shr "@ + spec_bin_args_text(args),
        InstrV::Sar(args) => "        sar "@ + spec_bin_args_text(args),
        InstrV::Cmp(args) => "        cmp "@ + spec_bin_args_text(args),
        InstrV::Test(args) => "        test "@ + spec_bin_args_text(args),
        InstrV::Push(arg) => "        push "@ + spec_arg32_text(arg),
        InstrV::Pop(loc) => "        pop "@ + spec_loc_text(loc),
        InstrV::Label(s) => s + ":"@,
        InstrV::Comment(s) => ";;; "@ + s,
        InstrV::Section(s) => "section "@ + s,
        InstrV::Global(s) => "        global "@ + s,
        InstrV::Extern(s) => "        extern "@ + s,
        InstrV::Call(s) => "        call "@ + s,
        InstrV::Ret => "        ret"@,
        InstrV::CMovCC(cc, args) => "        cmov"@ + spec_cc_text(cc) + " "@ + spec_bin_args_text(
            args,
        ),
        InstrV::Jmp(s) => "        jmp "@ + s,
        InstrV::JCC(cc, l) => "        j"@ + spec_cc_text(cc) + " "@ + l,
        InstrV::SetCC(cc, r) => "        set"@ + spec_cc_text(cc) + " "@ + spec_reg8_text(r),
    }
}

/// The text of a sequence of instruction views, one line each.
pub open spec fn instr_v_texts(s: Seq<InstrV>, i: int) -> Seq<char>
    decreases s.len() - i,
{
    if i < 0 || i >= s.len() {
        Seq::empty()
    } else {
        instr_v_text(s[i]) + "\n"@ + instr_v_texts(s, i + 1)
    }
}

/// An instruction's text depends only on its view.
pub proof fn lemma_instr_text_view(i: Instr)
    ensures
        spec_instr_text(i) == instr_v_text(instr_view(i)),
{
}

/// The text of a sequence of instructions is the text of its view.
pub proof fn lemma_instrs_text_view(s: Seq<Instr>, i: int)
    ensures
        spec_instrs_text(s, i) == instr_v_texts(instrs_view(s), i),
    decreases s.len() - i,
{
    if 0 <= i < s.len() {
        lemma_instr_text_view(s[i]);
        lemma_instrs_text_view(s, i + 1);
    }
}


} // verus!
