//! The identifiers used across the compiler.

use vstd::prelude::*;
use crate::digits::{push_usize_dec, spec_udec};

verus! {

/// A `VarName` is a unique identifier for a variable: an index that makes
/// it unique, and a textual hint used only for display.
#[derive(Debug, PartialEq, Eq, Hash)]
pub struct VarName {
    pub index: usize,
    pub hint: String,
}

impl Clone for VarName {
    fn clone(&self) -> (r: Self)
        ensures
            r == *self,
    {
        VarName { index: self.index, hint: self.hint.clone() }
    }
}

/// The rendered form of a variable name: `hint%index`.
pub open spec fn var_name_text(v: VarName) -> Seq<char> {
    v.hint@ + seq!['%'] + spec_udec(v.index as nat)
}

impl VarName {
    pub fn hint(&self) -> (r: &str)
        ensures
            r@ == self.hint@,
    {
        self.hint.as_str()
    }

    /// Render the name as `hint%index`.
    pub fn render(&self) -> (r: String)
        ensures
            r@ == var_name_text(*self),
    {
        let mut buf = String::new();
        buf.append(self.hint.as_str());
        buf.append("%");
        push_usize_dec(&mut buf, self.index);
        proof {
            reveal_strlit("%");
            assert("%"@ =~= seq!['%']);
            assert(buf@ =~= var_name_text(*self));
        }
        buf
    }
}

/// A `FunName` is a unique identifier for a function name.
/// It can be either mangled or unmangled.
#[derive(Debug, PartialEq, Eq, Hash)]
pub enum FunName {
    /// A mangled function name that is unique globally.
    Mangled { index: usize, hint: String },
    /// An unmangled function name, which refers to an external function or
    /// to the entry point of the program.
    Unmangled { name: String },
}

impl Clone for FunName {
    fn clone(&self) -> (r: Self)
        ensures
            r == *self,
    {
        match self {
            FunName::Mangled { index, hint } => FunName::Mangled {
                index: *index,
                hint: hint.clone(),
            },
            FunName::Unmangled { name } => FunName::Unmangled { name: name.clone() },
        }
    }
}

/// The hint text of a function name.
pub open spec fn fun_hint_of(f: FunName) -> Seq<char> {
    match f {
        FunName::Mangled { index, hint } => hint@,
        FunName::Unmangled { name } => name@,
    }
}

/// The rendered form of a function name: `hint@index` when mangled,
/// the bare name when unmangled.
pub open spec fn fun_name_text(f: FunName) -> Seq<char> {
    match f {
        FunName::Mangled { index, hint } => hint@ + seq!['@'] + spec_udec(index as nat),
        FunName::Unmangled { name } => name@,
    }
}

impl FunName {
    pub fn unmangled(hint: &str) -> (r: Self)
        ensures
            r is Unmangled,
            fun_hint_of(r) == hint@,
    {
        FunName::Unmangled { name: hint.to_owned() }
    }

    pub fn hint(&self) -> (r: &str)
        ensures
            r@ == fun_hint_of(*self),
    {
        match self {
            FunName::Mangled { index, hint } => hint.as_str(),
            FunName::Unmangled { name } => name.as_str(),
        }
    }

    pub fn is_unmangled(&self) -> (r: bool)
        ensures
            r == (self is Unmangled),
    {
        match self {
            FunName::Unmangled { .. } => true,
            FunName::Mangled { .. } => false,
        }
    }

    /// Render the name as `hint@index` when mangled, bare when unmangled.
    pub fn render(&self) -> (r: String)
        ensures
            r@ == fun_name_text(*self),
    {
        match self {
            FunName::Mangled { index, hint } => {
                let mut buf = String::new();
                buf.append(hint.as_str());
                buf.append("@");
                push_usize_dec(&mut buf, *index);
                proof {
                    reveal_strlit("@");
                    assert("@"@ =~= seq!['@']);
                    assert(buf@ =~= fun_name_text(*self));
                }
                buf
            },
            FunName::Unmangled { name } => name.clone(),
        }
    }
}

/// A `BlockName` is a unique identifier for a basic block in the
/// intermediate representation.
#[derive(Debug, PartialEq, Eq, Hash)]
pub struct BlockName {
    pub index: usize,
    pub hint: String,
}

impl Clone for BlockName {
    fn clone(&self) -> (r: Self)
        ensures
            r == *self,
    {
        BlockName { index: self.index, hint: self.hint.clone() }
    }
}

/// The rendered form of a block name: `hint#index`.
pub open spec fn block_name_text(b: BlockName) -> Seq<char> {
    b.hint@ + seq!['#'] + spec_udec(b.index as nat)
}

impl BlockName {
    pub fn hint(&self) -> (r: &str)
        ensures
            r@ == self.hint@,
    {
        self.hint.as_str()
    }

    /// Render the name as `hint#index`.
    pub fn render(&self) -> (r: String)
        ensures
            r@ == block_name_text(*self),
    {
        let mut buf = String::new();
        buf.append(self.hint.as_str());
        buf.append("#");
        push_usize_dec(&mut buf, self.index);
        proof {
            reveal_strlit("#");
            assert("#"@ =~= seq!['#']);
            assert(buf@ =~= block_name_text(*self));
        }
        buf
    }
}

/* -------------------------- Identifier generator -------------------------- */

/// A kind of identifier that an `IdGen` can mint from an index and a hint.
pub trait Identifier: Sized {
    /// The index that makes the identifier unique.
    spec fn idx_of(&self) -> nat;

    /// The display hint the identifier carries.
    spec fn hint_of(&self) -> Seq<char>;

    /// The shape of a generated identifier: function names come out
    /// mangled; variable and block names have no other shape.
    spec fn minted(&self) -> bool;

    fn new(idx: usize, hint: &str) -> (r: Self)
        ensures
            r.idx_of() == idx as nat,
            r.hint_of() == hint@,
            r.minted(),
    ;
}

impl Identifier for VarName {
    open spec fn idx_of(&self) -> nat {
        self.index as nat
    }

    open spec fn hint_of(&self) -> Seq<char> {
        self.hint@
    }

    open spec fn minted(&self) -> bool {
        true
    }

    fn new(idx: usize, hint: &str) -> (r: Self) {
        VarName { index: idx, hint: hint.to_owned() }
    }
}

impl Identifier for FunName {
    open spec fn idx_of(&self) -> nat {
        match *self {
            FunName::Mangled { index, hint } => index as nat,
            FunName::Unmangled { name } => 0,
        }
    }

    open spec fn hint_of(&self) -> Seq<char> {
        fun_hint_of(*self)
    }

    open spec fn minted(&self) -> bool {
        *self is Mangled
    }

    fn new(idx: usize, hint: &str) -> (r: Self) {
        FunName::Mangled { index: idx, hint: hint.to_owned() }
    }
}

impl Identifier for BlockName {
    open spec fn idx_of(&self) -> nat {
        self.index as nat
    }

    open spec fn hint_of(&self) -> Seq<char> {
        self.hint@
    }

    open spec fn minted(&self) -> bool {
        true
    }

    fn new(idx: usize, hint: &str) -> (r: Self) {
        BlockName { index: idx, hint: hint.to_owned() }
    }
}

/// An `IdGen` mints identifiers with increasing indices.
#[derive(Debug)]
pub struct IdGen<Id> {
    pub count: usize,
    pub marker: core::marker::PhantomData<Id>,
}

impl<Id: Identifier> IdGen<Id> {
    pub fn new() -> (r: Self)
        ensures
            r.count == 0,
    {
        IdGen { count: 0, marker: core::marker::PhantomData }
    }

    /// Mint the next identifier, carrying the given hint.
    pub fn fresh(&mut self, hint: &str) -> (id: Id)
        ensures
            id.idx_of() == old(self).count as nat,
            id.hint_of() == hint@,
            id.minted(),
            final(self).count == old(self).count.wrapping_add(1),
    {
        let id = Id::new(self.count, hint);
        self.count = self.count.wrapping_add(1);
        id
    }
}

} // verus!
