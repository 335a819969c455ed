//! The parser: recursive descent over the scanner, one function for each
//! function of the grammar.

use vstd::prelude::*;
use vstd::string::StringSliceAdditionalSpecFns;
use vstd::utf8::{is_char_boundary, valid_utf8};
use crate::ast::Cmd;
use crate::ast_view::cmds_view;
use crate::grammar::commands::{consumed, g_program};
use crate::provenance::cmds_from;
use crate::grammar::{blanks, kw, past, St};
use crate::lexer::{Lexer, ParseError};
use crate::text::{
    byte_at, ByteClass, lemma_boundary_after_ascii, lemma_boundary_at, lemma_boundary_step,
    name_end, run_end, squote_end,
};

pub mod arith;
pub mod words;
pub mod commands;

verus! {

/// How deep constructs may nest in what `parse` accepts.
pub const MAX_DEPTH: usize = 64;

/// Parses a command line or a script into its commands. The whole input
/// is taken or none of it: the first violation of the grammar is the
/// result, with its place and a message.
pub fn parse<'a>(input: &'a str) -> (r: Result<Vec<Cmd<'a>>, ParseError>)
    ensures
        r is Ok ==> g_program(input.spec_bytes(), MAX_DEPTH as nat).is_done(cmds_view(r->Ok_0), ()),
        r is Ok ==> consumed(input.spec_bytes(), MAX_DEPTH as nat),
        r is Ok ==> cmds_from(cmds_view(r->Ok_0), input.spec_bytes()),
        r is Err ==> g_program(input.spec_bytes(), MAX_DEPTH as nat).is_fail(r->Err_0),
        r is Err ==> r->Err_0.pos <= input.spec_bytes().len(),
{
    parse_with_depth(input, MAX_DEPTH)
}

/// As `parse`, with constructs nested at most `max_depth` deep: a deeper
/// one is an error, not a deeper recursion.
pub fn parse_with_depth<'a>(input: &'a str, max_depth: usize) -> (r: Result<
    Vec<Cmd<'a>>,
    ParseError,
>)
    ensures
        r is Ok ==> g_program(input.spec_bytes(), max_depth as nat).is_done(cmds_view(r->Ok_0), ()),
        r is Ok ==> consumed(input.spec_bytes(), max_depth as nat),
        r is Ok ==> cmds_from(cmds_view(r->Ok_0), input.spec_bytes()),
        r is Err ==> g_program(input.spec_bytes(), max_depth as nat).is_fail(r->Err_0),
        r is Err ==> r->Err_0.pos <= input.spec_bytes().len(),
{
    proof {
        crate::provenance::commands::lemma_g_program(input.spec_bytes(), max_depth as nat);
    }
    let mut parser = Parser::new(input);
    let cmds = parser.parse_list(max_depth)?;
    if parser.lex.is_eof() {
        Ok(cmds)
    } else {
        parser.fail("unexpected token")
    }
}

/// The bytes are the encoding of a text.
#[verifier::opaque]
pub(crate) open spec fn is_text(b: Seq<u8>) -> bool {
    valid_utf8(b)
}

/// A character of the text starts at `i`, or the text ends there.
#[verifier::opaque]
pub(crate) open spec fn cut(b: Seq<u8>, i: int) -> bool {
    is_char_boundary(b, i)
}

/// Where the text starts or ends, or a byte stands that continues no
/// character, a character starts.
pub(crate) proof fn lemma_cut_at(b: Seq<u8>, i: int)
    requires
        is_text(b),
        0 <= i <= b.len(),
        i == 0 || !(0x80 <= byte_at(b, i) <= 0xbf),
    ensures
        cut(b, i),
{
    reveal(is_text);
    reveal(cut);
    if i > 0 {
        lemma_boundary_at(b, i);
    }
}

/// A run of one-byte characters that starts where a character starts
/// ends where one starts.
pub(crate) proof fn lemma_cut_run(b: Seq<u8>, from: int, class: ByteClass)
    requires
        is_text(b),
        cut(b, from),
        crate::text::class_is_ascii(class),
    ensures
        cut(b, run_end(b, from, class)),
{
    reveal(is_text);
    reveal(cut);
    crate::text::lemma_boundary_after_run(b, from, class);
}

/// Behind a one-byte character a character starts.
pub(crate) proof fn lemma_cut_step(b: Seq<u8>, i: int)
    requires
        is_text(b),
        cut(b, i),
        0 <= i < b.len(),
        b[i] < 0x80,
    ensures
        cut(b, i + 1),
{
    reveal(is_text);
    reveal(cut);
    lemma_boundary_step(b, i);
}

/// A scanner together with what the grammar has to remember between two
/// commands: where reading goes on after the current line, once heredoc
/// bodies have been read from the lines that follow it.
pub(crate) struct Parser<'a> {
    pub(crate) lex: Lexer<'a>,
    pub(crate) resume: usize,
}

impl<'a> Parser<'a> {
    /// The bytes being parsed.
    pub(crate) open spec fn bytes(&self) -> Seq<u8> {
        self.lex@.bytes
    }

    /// The position of the cursor.
    pub(crate) open spec fn at(&self) -> int {
        self.lex@.pos as int
    }

    /// The cursor and the resume position lie in the input, on character
    /// boundaries.
    pub(crate) open spec fn inv(&self) -> bool {
        &&& is_text(self.bytes())
        &&& self.at() <= self.bytes().len() <= usize::MAX
        &&& cut(self.bytes(), self.at())
        &&& self.resume <= self.bytes().len()
        &&& cut(self.bytes(), self.resume as int)
    }

    /// This state comes after `before` in one parse of the same input:
    /// the cursor has not moved back.
    pub(crate) open spec fn after(&self, before: &Self) -> bool {
        &&& self.inv()
        &&& self.bytes() == before.bytes()
        &&& before.at() <= self.at()
    }

    /// This state belongs to the parse of the same input as `before`.
    pub(crate) open spec fn same_input(&self, before: &Self) -> bool {
        &&& self.inv()
        &&& self.bytes() == before.bytes()
    }

    /// The cursor and the resume position together.
    pub(crate) open spec fn st(&self) -> St {
        St { pos: self.at(), resume: self.resume as int }
    }

    /// As `after`, for the steps that leave the pending heredocs alone.
    pub(crate) open spec fn after_in_line(&self, before: &Self) -> bool {
        &&& self.after(before)
        &&& self.resume == before.resume
    }

    pub(crate) fn new(input: &'a str) -> (p: Self)
        ensures
            p.inv(),
            p.bytes() == input.spec_bytes(),
            p.at() == 0,
            p.resume == 0,
    {
        reveal(is_text);
        reveal(cut);
        let lex = Lexer::new(input);
        lex.input_is_text();
        proof {
            lemma_boundary_at(lex@.bytes, 0);
        }
        Parser { lex, resume: 0 }
    }

    pub(crate) fn peek(&self) -> (b: u8)
        ensures
            b == byte_at(self.bytes(), self.at()),
    {
        self.lex.peek()
    }

    pub(crate) fn peek_at(&self, offset: usize) -> (b: u8)
        ensures
            b == byte_at(self.bytes(), self.at() + offset),
    {
        self.lex.peek_at(offset)
    }

    pub(crate) fn here(&self) -> (p: usize)
        ensures
            p == self.at(),
    {
        self.lex.pos()
    }

    /// Steps over `n` one-byte characters.
    pub(crate) fn take(&mut self, n: usize)
        requires
            old(self).inv(),
            forall|i: int|
                old(self).at() <= i < old(self).at() + n ==> 0 < #[trigger] byte_at(
                    old(self).bytes(),
                    i,
                ) < 0x80,
        ensures
            final(self).after_in_line(old(self)),
            final(self).at() == old(self).at() + n,
    {
        reveal(is_text);
        reveal(cut);
        proof {
            let b = self.bytes();
            let p = self.at();
            assert forall|i: int| p <= i < p + n implies i < b.len() && #[trigger] b[i] < 0x80 by {
                assert(0 < byte_at(b, i) < 0x80);
            }
            if n > 0 {
                assert(0 < byte_at(b, p + n - 1));
            }
            lemma_boundary_after_ascii(b, p, p + n);
        }
        self.lex.bump_n(n);
    }

    pub(crate) fn skip_blanks(&mut self)
        requires
            old(self).inv(),
        ensures
            final(self).after_in_line(old(self)),
            final(self).at() == blanks(old(self).bytes(), old(self).at()),
    {
        reveal(is_text);
        reveal(cut);
        proof {
            crate::text::lemma_run_end(self.bytes(), self.at(), ByteClass::Blank);
        }
        self.lex.skip_blanks();
    }

    /// Reads the name at the cursor; empty where none starts there.
    pub(crate) fn name(&mut self) -> (name: &'a str)
        requires
            old(self).inv(),
        ensures
            final(self).after_in_line(old(self)),
            final(self).at() == name_end(old(self).bytes(), old(self).at()),
            name.spec_bytes() == old(self).bytes().subrange(old(self).at(), final(self).at()),
    {
        reveal(is_text);
        reveal(cut);
        proof {
            crate::text::lemma_run_end(self.bytes(), self.at() + 1, ByteClass::NameChar);
        }
        self.lex.read_name()
    }

    /// Reads the decimal digits at the cursor; empty where none stands.
    pub(crate) fn number(&mut self) -> (digits: &'a str)
        requires
            old(self).inv(),
        ensures
            final(self).after_in_line(old(self)),
            final(self).at() == run_end(old(self).bytes(), old(self).at(), ByteClass::Digit),
            digits.spec_bytes() == old(self).bytes().subrange(old(self).at(), final(self).at()),
            forall|i: int|
                0 <= i < digits.spec_bytes().len() ==> crate::text::is_digit(
                    #[trigger] digits.spec_bytes()[i],
                ),
    {
        reveal(is_text);
        reveal(cut);
        proof {
            crate::text::lemma_run_end(self.bytes(), self.at(), ByteClass::Digit);
        }
        let ghost start = self.at();
        let digits = self.lex.read_number();
        proof {
            let s = digits.spec_bytes();
            assert forall|i: int| 0 <= i < s.len() implies crate::text::is_digit(
                #[trigger] s[i],
            ) by {
                assert(s[i] == self.bytes()[start + i]);
            }
        }
        digits
    }

    /// Reads single-quoted text from behind its opening quote.
    pub(crate) fn squote(&mut self) -> (r: Result<&'a str, ParseError>)
        requires
            old(self).inv(),
        ensures
            final(self).same_input(old(self)),
            final(self).in_input(r),
            final(self).resume == old(self).resume,
            r is Ok ==> final(self).after_in_line(old(self)),
            match r {
                Ok(text) => {
                    &&& squote_end(old(self).bytes(), old(self).at()) < old(self).bytes().len()
                    &&& final(self).at() == squote_end(old(self).bytes(), old(self).at()) + 1
                    &&& text.spec_bytes() == old(self).bytes().subrange(
                        old(self).at(),
                        squote_end(old(self).bytes(), old(self).at()),
                    )
                },
                Err(e) => {
                    &&& squote_end(old(self).bytes(), old(self).at()) >= old(self).bytes().len()
                    &&& e.pos == squote_end(old(self).bytes(), old(self).at())
                    &&& e.msg@ == "unterminated single quote"@
                },
            },
    {
        reveal(is_text);
        reveal(cut);
        proof {
            crate::text::lemma_run_end(self.bytes(), self.at(), ByteClass::NotSquote);
            lemma_boundary_at(self.bytes(), self.bytes().len() as int);
        }
        self.lex.scan_squote()
    }

    /// The bytes of the input.
    pub(crate) fn src(&self) -> (bytes: &'a [u8])
        ensures
            bytes@ == self.bytes(),
    {
        self.lex.source()
    }

    /// Moves the cursor forward to `to`.
    pub(crate) fn jump(&mut self, to: usize)
        requires
            old(self).inv(),
            old(self).at() <= to <= old(self).bytes().len(),
            cut(old(self).bytes(), to as int),
        ensures
            final(self).after_in_line(old(self)),
            final(self).at() == to,
    {
        reveal(is_text);
        reveal(cut);
        self.lex.set_pos(to);
    }

    /// Moves the cursor forward to `to`, where a one-byte character or the
    /// end of the input stands.
    pub(crate) fn jump_to_ascii(&mut self, to: usize)
        requires
            old(self).inv(),
            old(self).at() <= to <= old(self).bytes().len(),
            byte_at(old(self).bytes(), to as int) < 0x80,
        ensures
            final(self).after_in_line(old(self)),
            final(self).at() == to,
    {
        reveal(is_text);
        reveal(cut);
        proof {
            lemma_boundary_at(self.bytes(), to as int);
        }
        self.lex.set_pos(to);
    }

    /// Moves the cursor back to `to`.
    pub(crate) fn rewind(&mut self, to: usize)
        requires
            old(self).inv(),
            to <= old(self).at(),
            cut(old(self).bytes(), to as int),
        ensures
            final(self).same_input(old(self)),
            final(self).resume == old(self).resume,
            final(self).at() == to,
    {
        reveal(is_text);
        reveal(cut);
        self.lex.set_pos(to);
    }

    /// The place of the error lies in the input.
    pub(crate) open spec fn in_input<T>(&self, r: Result<T, ParseError>) -> bool {
        r matches Err(e) ==> e.pos <= self.bytes().len()
    }

    /// The text from `start` to `end`.
    pub(crate) fn span(&self, start: usize, end: usize) -> (s: &'a str)
        requires
            self.inv(),
            start <= end <= self.bytes().len(),
            cut(self.bytes(), start as int),
            cut(self.bytes(), end as int),
        ensures
            s.spec_bytes() == self.bytes().subrange(start as int, end as int),
    {
        reveal(is_text);
        reveal(cut);
        self.lex.slice_range(start, end)
    }

    /// Whether the keyword `word` stands at the cursor.
    pub(crate) fn at_kw(&self, word: &str) -> (r: bool)
        ensures
            r == kw(self.bytes(), self.at(), word),
    {
        self.lex.at_keyword(word.as_bytes())
    }

    /// Steps over the keyword `word`, which stands at the cursor.
    pub(crate) fn take_kw(&mut self, word: &str)
        requires
            old(self).inv(),
            kw(old(self).bytes(), old(self).at(), word),
        ensures
            final(self).after_in_line(old(self)),
            final(self).at() == past(old(self).at(), word),
    {
        reveal(is_text);
        reveal(cut);
        let n = word.len();
        proof {
            let b = self.bytes();
            let p = self.at();
            if p + n < b.len() {
                if n == 1 && crate::text::spec_is_meta(word.spec_bytes()[0]) {
                    assert(b.subrange(p, p + n)[0] == b[p]);
                    lemma_boundary_step(b, p);
                } else {
                    lemma_boundary_at(b, p + n);
                }
            } else {
                lemma_boundary_at(b, p + n);
            }
        }
        self.lex.bump_n(n);
    }

    pub(crate) fn fail_at<T>(&self, pos: usize, msg: &'static str) -> (r: Result<T, ParseError>)
        ensures
            r matches Err(e) && e.pos == pos && e.msg == msg,
    {
        Err(ParseError { pos, msg })
    }

    pub(crate) fn fail<T>(&self, msg: &'static str) -> (r: Result<T, ParseError>)
        ensures
            r matches Err(e) && e.pos == self.at() && e.msg == msg,
    {
        Err(self.lex.err(msg))
    }
}

} // verus!
