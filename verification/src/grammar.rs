//! The grammar, as functions from the input bytes and a position to the
//! tree that stands there and the position behind it. The parser is proved
//! to compute exactly these functions.

use vstd::prelude::*;
use vstd::string::StringSliceAdditionalSpecFns;
use crate::text::{ByteClass, keyword_at, run_end};

pub mod arith;
pub mod words;
pub mod commands;

verus! {

/// What parsing from a position yields: a value and the state behind it, or
/// the place and the message of the first error.
pub enum Parsed<V, S> {
    Done(V, S),
    Fail(int, Seq<char>),
}

/// Where a parse of commands stands: the cursor, and the place where
/// reading goes on after the next newline, 0 where that is the next line.
/// Heredoc bodies lie between the two.
pub struct St {
    pub pos: int,
    pub resume: int,
}

/// What ends a word: where it stands decides.
#[derive(Clone, Copy, Debug)]
pub enum WordCtx {
    /// A word of a command: ended by a metacharacter.
    Command,
    /// The operand of a parameter substitution: ended by `}`.
    Operand,
    /// The pattern of a replacement: ended by `/` or `}`.
    Pattern,
    /// The index of an array element: ended by `]`.
    Index,
}

/// The keyword `word` stands at `p`.
pub open spec fn kw(b: Seq<u8>, p: int, word: &str) -> bool {
    keyword_at(b, p, word.spec_bytes())
}

/// The position behind the keyword `word` that stands at `p`.
pub open spec fn past(p: int, word: &str) -> int {
    p + word.spec_bytes().len()
}

impl<V, S> Parsed<V, S> {
    /// The parse yields the value `v` and the state `s`.
    pub open spec fn is_done(self, v: V, s: S) -> bool {
        self == Parsed::<V, S>::Done(v, s)
    }

    /// The parse fails with the error `e`.
    pub open spec fn is_fail(self, e: crate::lexer::ParseError) -> bool {
        self == Parsed::<V, S>::Fail(e.pos as int, e.msg@)
    }
}

/// Message of the error that ends a parse nested deeper than allowed.
pub open spec fn too_deep() -> Seq<char> {
    "nesting too deep"@
}

/// The position behind the blanks that start at `p`.
pub open spec fn blanks(b: Seq<u8>, p: int) -> int {
    run_end(b, p, ByteClass::Blank)
}

} // verus!
