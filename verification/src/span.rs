//! A span is a region of source code.

use vstd::prelude::*;
use crate::digits::{push_usize_dec, spec_udec};

verus! {

/// 1-dimensional span of source locations, as byte offsets.
///
/// This is what the parser outputs.
#[derive(Clone, Copy, Debug, PartialEq, Eq, Structural)]
pub struct SrcLoc {
    pub start_ix: usize,
    pub end_ix: usize,  // exclusive
}

impl SrcLoc {
    pub fn new(start_ix: usize, end_ix: usize) -> (r: Self)
        ensures
            r == (SrcLoc { start_ix, end_ix }),
    {
        SrcLoc { start_ix, end_ix }
    }
}

/// 2-dimensional span of source locations.
///
/// This is what error messages use.
#[derive(Clone, Copy, Debug, PartialEq, Eq, Structural)]
pub struct Span2 {
    pub start_line: usize,
    pub start_col: usize,
    pub end_line: usize,  // inclusive
    pub end_col: usize,  // exclusive
}

/// The rendered form of a two-dimensional span:
/// `start_line:start_col-end_line:end_col`.
pub open spec fn span2_text(s: Span2) -> Seq<char> {
    spec_udec(s.start_line as nat) + seq![':'] + spec_udec(s.start_col as nat) + seq!['-']
        + spec_udec(s.end_line as nat) + seq![':'] + spec_udec(s.end_col as nat)
}

impl Span2 {
    /// Render the span as `start_line:start_col-end_line:end_col`.
    pub fn render(&self) -> (r: String)
        ensures
            r@ == span2_text(*self),
    {
        let mut buf = String::new();
        push_usize_dec(&mut buf, self.start_line);
        buf.append(":");
        push_usize_dec(&mut buf, self.start_col);
        buf.append("-");
        push_usize_dec(&mut buf, self.end_line);
        buf.append(":");
        push_usize_dec(&mut buf, self.end_col);
        proof {
            reveal_strlit(":");
            reveal_strlit("-");
            assert(":"@ =~= seq![':']);
            assert("-"@ =~= seq!['-']);
            assert(buf@ =~= span2_text(*self));
        }
        buf
    }
}

} // verus!
