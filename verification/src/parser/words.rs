//! Parsing of words.

use std::borrow::Cow;
use vstd::pervasive::unreached;
use vstd::prelude::*;
use vstd::string::StringSliceAdditionalSpecFns;
use crate::ast::{Atom, Cmd, Param, Subst, Word, WordPart};
use crate::ast_view::{
    atom_view, atoms_view, AtomView, cmds_view, param_view, ParamView, parts_view, subst_view,
    word_part_view, word_view,
};
use crate::bytes::{
    AT, BACKSLASH, BACKTICK, BANG, CARET, COLON, COMMA, DOLLAR, DOT, EQUALS, HASH, LBRACE, LBRACKET,
    LPAREN, LT, MINUS, NL, PERCENT, PLUS, QUESTION, RBRACE, RBRACKET, RPAREN, SLASH, STAR, TILDE,
};
use crate::grammar::commands::g_list;
use crate::grammar::words::{
    brace_range, closing, dq_escapable, dq_lit_end, g_ansi_c, g_arith_subst, g_array_all,
    g_array_element, g_array_op, g_atom, g_backtick, g_brace, g_case_op, g_close, g_cmd_subst,
    g_dollar, g_dq_atom, g_dq_atoms, g_escape, g_indirect, g_length, g_lit, g_nested, g_one,
    g_operand, g_param, g_param_op, g_param_subst, g_part, g_parts, g_procsub, g_range, g_replace,
    g_replace_with, g_simple_param, g_squoted, g_substring, g_transform, g_word, g_word_op,
    is_plain, lit_end, replace_op_at, replace_subst, ReplaceOp, special_param, subst, word_end,
    word_op_at, word_subst, WordOp,
};
use crate::grammar::WordCtx;
use crate::lexer::ParseError;
use crate::parser::arith::decimal_value;
use crate::parser::{lemma_cut_at, lemma_cut_run, lemma_cut_step, Parser};
use crate::text::{
    byte_at, ByteClass, class_holds, DQUOTE, is_meta, lemma_run_end, scan_run, SQUOTE,
};

verus! {

// ----- scanning -----

/// Whether the byte goes on a run of literal text.
fn plain(ctx: WordCtx, c: u8) -> (r: bool)
    ensures
        r == is_plain(ctx, c),
        !r ==> c < 0x80,
{
    c != SQUOTE && c != DQUOTE && c != BACKSLASH && c != DOLLAR && c != BACKTICK && c != STAR && c
        != QUESTION && c != LBRACKET && c != RBRACKET && c != LBRACE && match ctx {
        WordCtx::Command => !is_meta(c),
        WordCtx::Operand => c != RBRACE,
        WordCtx::Pattern => c != SLASH && c != RBRACE,
        WordCtx::Index => true,
    }
}

/// Where the run of plain bytes that starts at `from` ends.
fn scan_lit(src: &[u8], from: usize, ctx: WordCtx) -> (end: usize)
    requires
        from <= src@.len(),
    ensures
        end == lit_end(src@, from as int, ctx),
        from <= end <= src@.len(),
        byte_at(src@, end as int) < 0x80,
{
    let mut p = from;
    while p < src.len() && plain(ctx, src[p])
        invariant
            from <= p <= src@.len(),
            lit_end(src@, from as int, ctx) == lit_end(src@, p as int, ctx),
        decreases src@.len() - p,
    {
        p += 1;
    }
    p
}

/// Where the run of plain quoted bytes that starts at `from` ends.
fn scan_dq_lit(src: &[u8], from: usize, heredoc: bool) -> (end: usize)
    requires
        from <= src@.len(),
    ensures
        end == dq_lit_end(src@, from as int, heredoc),
        from <= end <= src@.len(),
        byte_at(src@, end as int) < 0x80,
{
    let mut p = from;
    while p < src.len() && src[p] != BACKSLASH && src[p] != DOLLAR && src[p] != BACKTICK && (heredoc
        || src[p] != DQUOTE)
        invariant
            from <= p <= src@.len(),
            dq_lit_end(src@, from as int, heredoc) == dq_lit_end(src@, p as int, heredoc),
        decreases src@.len() - p,
    {
        p += 1;
    }
    p
}

/// Index of the first `quote` at or after `from` that no backslash escapes.
fn scan_closing(src: &[u8], from: usize, quote: u8) -> (end: usize)
    requires
        from <= src@.len(),
    ensures
        end == closing(src@, from as int, quote),
        from <= end <= src@.len(),
        end < src@.len() ==> src@[end as int] == quote,
{
    let mut p = from;
    while p < src.len() && src[p] != quote
        invariant
            from <= p <= src@.len(),
            closing(src@, from as int, quote) == closing(src@, p as int, quote),
        decreases src@.len() - p,
    {
        if src[p] == BACKSLASH && p + 1 < src.len() {
            p += 2;
        } else {
            p += 1;
        }
    }
    p
}

/// The parameter that one character names.
fn special(c: u8) -> (r: Option<Param<'static>>)
    ensures
        match r {
            Some(p) => special_param(c) == Some(param_view(p)),
            None => special_param(c) is None,
        },
        r is Some ==> 0 < c < 0x80,
{
    if c == AT {
        Some(Param::At)
    } else if c == STAR {
        Some(Param::Star)
    } else if c == HASH {
        Some(Param::Pound)
    } else if c == QUESTION {
        Some(Param::Status)
    } else if c == DOLLAR {
        Some(Param::Pid)
    } else if c == BANG {
        Some(Param::Bang)
    } else if c == MINUS {
        Some(Param::Dash)
    } else {
        None
    }
}

/// The name of a parameter that is a variable.
fn var_of<'a>(param: &Param<'a>) -> (r: Option<&'a str>)
    ensures
        match r {
            Some(name) => param_view(*param) == ParamView::Var(name.spec_bytes()),
            None => !(param_view(*param) is Var),
        },
{
    match param {
        Param::Var(name) => Some(*name),
        _ => None,
    }
}

/// Builds the substitution of an operator with one word.
fn mk_word_subst<'a>(op: WordOp, param: Param<'a>, word: Option<Word<'a>>) -> (s: Subst<'a>)
    ensures
        subst_view(s) == word_subst(
            op,
            param_view(param),
            match word {
                Some(w) => Some(word_view(w)),
                None => None,
            },
        ),
{
    match op {
        WordOp::Default => Subst::Default(param, word),
        WordOp::Assign => Subst::Assign(param, word),
        WordOp::Error => Subst::Error(param, word),
        WordOp::Alt => Subst::Alt(param, word),
        WordOp::TrimSuffixSmall => Subst::TrimSuffixSmall(param, word),
        WordOp::TrimSuffixLarge => Subst::TrimSuffixLarge(param, word),
        WordOp::TrimPrefixSmall => Subst::TrimPrefixSmall(param, word),
        WordOp::TrimPrefixLarge => Subst::TrimPrefixLarge(param, word),
    }
}

/// Builds the substitution of a replacement.
fn mk_replace<'a>(
    op: ReplaceOp,
    param: Param<'a>,
    pattern: Option<Word<'a>>,
    with: Option<Word<'a>>,
) -> (s: Subst<'a>)
    ensures
        subst_view(s) == replace_subst(
            op,
            param_view(param),
            match pattern {
                Some(w) => Some(word_view(w)),
                None => None,
            },
            match with {
                Some(w) => Some(word_view(w)),
                None => None,
            },
        ),
{
    match op {
        ReplaceOp::First => Subst::Replace(param, pattern, with),
        ReplaceOp::All => Subst::ReplaceAll(param, pattern, with),
        ReplaceOp::Prefix => Subst::ReplacePrefix(param, pattern, with),
        ReplaceOp::Suffix => Subst::ReplaceSuffix(param, pattern, with),
    }
}

/// The atom of a substitution.
fn mk_subst<'a>(s: Subst<'a>) -> (a: Atom<'a>)
    ensures
        atom_view(a) == subst(subst_view(s)),
{
    Atom::Subst(Box::new(s))
}

impl<'a> Parser<'a> {
    /// Whether no word of the context goes on at the cursor.
    #[verifier::spinoff_prover]
    pub(crate) fn at_word_end(&self, ctx: WordCtx) -> (r: bool)
        requires
            self.inv(),
        ensures
            r == word_end(self.bytes(), self.at(), ctx),
            !r ==> self.at() < self.bytes().len(),
    {
        if self.lex.is_eof() {
            return true;
        }
        let c = self.peek();
        match ctx {
            WordCtx::Command => is_meta(c) && !(c == LT && self.peek_at(1) == LPAREN),
            WordCtx::Operand => c == RBRACE,
            WordCtx::Pattern => c == SLASH || c == RBRACE,
            WordCtx::Index => c == RBRACKET,
        }
    }

    // ----- words -----

    /// A word: one part or more, with nothing between them.
    #[verifier::spinoff_prover]
    pub(crate) fn parse_word(&mut self, depth: usize, ctx: WordCtx) -> (r: Result<
        Word<'a>,
        ParseError,
    >)
        requires
            old(self).inv(),
        ensures
            final(self).same_input(old(self)),
            final(self).in_input(r),
            r is Ok ==> final(self).after_in_line(old(self)) && old(self).at() < final(self).at(),
            r is Ok ==> g_word(old(self).bytes(), old(self).at(), depth as nat, ctx).is_done(
                word_view(r->Ok_0),
                final(self).at(),
            ),
            r is Err ==> g_word(
                old(self).bytes(),
                old(self).at(),
                depth as nat,
                ctx,
            ).is_fail(r->Err_0),
        decreases depth, 70int,
    {
        let start = self.here();
        let mut parts: Vec<WordPart<'a>> = Vec::new();
        assert(parts_view(parts) =~= Seq::empty());
        while !self.at_word_end(ctx)
            invariant
                self.after_in_line(old(self)),
                parts@.len() > 0 ==> old(self).at() < self.at(),
                g_parts(old(self).bytes(), old(self).at(), depth as nat, ctx, Seq::empty())
                    == g_parts(self.bytes(), self.at(), depth as nat, ctx, parts_view(parts)),
            decreases self.bytes().len() - self.at(),
        {
            let first = parts.len() == 0;
            let part = self.parse_part(depth, ctx, first)?;
            let ghost before = parts_view(parts);
            parts.push(part);
            assert(parts_view(parts) =~= before.push(word_part_view(part)));
        }
        if parts.len() == 0 {
            self.fail_at(start, "expected word")
        } else if parts.len() == 1 {
            match parts.pop() {
                Some(part) => Ok(Word::Simple(part)),
                None => unreached(),
            }
        } else {
            Ok(Word::Concat(parts))
        }
    }

    /// One part of a word.
    #[verifier::spinoff_prover]
    fn parse_part(
        &mut self,
        depth: usize,
        ctx: WordCtx,
        first: bool,
    ) -> (r: Result<WordPart<'a>, ParseError>)
        requires
            old(self).inv(),
            old(self).at() < old(self).bytes().len(),
        ensures
            final(self).same_input(old(self)),
            final(self).in_input(r),
            r is Ok ==> final(self).after_in_line(old(self)) && old(self).at() < final(self).at(),
            r is Ok ==> g_part(
                old(self).bytes(),
                old(self).at(),
                depth as nat,
                ctx,
                first,
            ).is_done(word_part_view(r->Ok_0), final(self).at()),
            r is Err ==> g_part(
                old(self).bytes(),
                old(self).at(),
                depth as nat,
                ctx,
                first,
            ).is_fail(r->Err_0),
        decreases depth, 68int,
    {
        let c = self.peek();
        if c == SQUOTE {
            self.take(1);
            self.parse_squoted()
        } else if c == DQUOTE {
            self.take(1);
            let atoms = self.parse_dq_atoms(depth, false)?;
            Ok(WordPart::DQuoted(atoms))
        } else {
            let atom = self.parse_atom(depth, ctx, first)?;
            Ok(WordPart::Bare(atom))
        }
    }

    /// Single-quoted text from behind its opening quote.
    #[verifier::spinoff_prover]
    fn parse_squoted(&mut self) -> (r: Result<WordPart<'a>, ParseError>)
        requires
            old(self).inv(),
        ensures
            final(self).same_input(old(self)),
            final(self).in_input(r),
            r is Ok ==> final(self).after_in_line(old(self)),
            r is Ok ==> g_squoted(
                old(self).bytes(),
                old(self).at(),
            ).is_done(word_part_view(r->Ok_0), final(self).at()),
            r is Err ==> g_squoted(old(self).bytes(), old(self).at()).is_fail(r->Err_0),
    {
        reveal(g_squoted);
        match self.squote() {
            Ok(text) => Ok(WordPart::SQuoted(text)),
            Err(e) => Err(e),
        }
    }

    /// The atoms inside double quotes, or in the body of a heredoc.
    #[verifier::spinoff_prover]
    pub(crate) fn parse_dq_atoms(&mut self, depth: usize, heredoc: bool) -> (r: Result<
        Vec<Atom<'a>>,
        ParseError,
    >)
        requires
            old(self).inv(),
        ensures
            final(self).same_input(old(self)),
            final(self).in_input(r),
            r is Ok ==> final(self).after_in_line(old(self)),
            r is Ok ==> g_dq_atoms(
                old(self).bytes(),
                old(self).at(),
                depth as nat,
                heredoc,
                Seq::empty(),
            ).is_done(atoms_view(r->Ok_0), final(self).at()),
            r is Err ==> g_dq_atoms(
                old(self).bytes(),
                old(self).at(),
                depth as nat,
                heredoc,
                Seq::empty(),
            ).is_fail(r->Err_0),
        decreases depth, 67int,
    {
        let mut atoms: Vec<Atom<'a>> = Vec::new();
        assert(atoms_view(atoms) =~= Seq::empty());
        loop
            invariant
                self.after_in_line(old(self)),
                g_dq_atoms(
                    old(self).bytes(),
                    old(self).at(),
                    depth as nat,
                    heredoc,
                    Seq::empty(),
                ) == g_dq_atoms(
                    self.bytes(),
                    self.at(),
                    depth as nat,
                    heredoc,
                    atoms_view(atoms),
                ),
            decreases self.bytes().len() - self.at(),
        {
            if self.lex.is_eof() {
                if heredoc {
                    return Ok(atoms);
                } else {
                    return self.fail("unterminated double quote");
                }
            }
            if self.peek() == DQUOTE && !heredoc {
                self.take(1);
                return Ok(atoms);
            }
            let atom = self.parse_dq_atom(depth, heredoc)?;
            let ghost before = atoms_view(atoms);
            atoms.push(atom);
            assert(atoms_view(atoms) =~= before.push(atom_view(atom)));
        }
    }

    /// One atom inside double quotes.
    #[verifier::spinoff_prover]
    fn parse_dq_atom(&mut self, depth: usize, heredoc: bool) -> (r: Result<Atom<'a>, ParseError>)
        requires
            old(self).inv(),
            old(self).at() < old(self).bytes().len(),
        ensures
            final(self).same_input(old(self)),
            final(self).in_input(r),
            r is Ok ==> final(self).after_in_line(old(self)) && old(self).at() < final(self).at(),
            r is Ok ==> g_dq_atom(
                old(self).bytes(),
                old(self).at(),
                depth as nat,
                heredoc,
            ).is_done(atom_view(r->Ok_0), final(self).at()),
            r is Err ==> g_dq_atom(
                old(self).bytes(),
                old(self).at(),
                depth as nat,
                heredoc,
            ).is_fail(r->Err_0),
        decreases depth, 66int,
    {
        reveal(g_lit);
        let c = self.peek();
        let n = self.peek_at(1);
        let start = self.here();
        let src = self.src();
        if c == BACKSLASH && start + 1 < src.len() && (n == DOLLAR || n == BACKTICK || n == DQUOTE
            || n == BACKSLASH || n == NL) {
            Ok(self.dq_escape())
        } else if c == DOLLAR {
            self.parse_dollar(depth, true)
        } else if c == BACKTICK {
            self.parse_backtick(depth)
        } else {
            let end = scan_dq_lit(src, start + 1, heredoc);
            self.lit(end)
        }
    }

    /// The character behind the backslash at the cursor, which is one of
    /// those that a backslash escapes inside double quotes.
    #[verifier::spinoff_prover]
    fn dq_escape(&mut self) -> (x: Atom<'a>)
        requires
            old(self).inv(),
            old(self).at() + 1 < old(self).bytes().len(),
            byte_at(old(self).bytes(), old(self).at()) == BACKSLASH,
            dq_escapable(byte_at(old(self).bytes(), old(self).at() + 1)),
        ensures
            final(self).after_in_line(old(self)),
            final(self).at() == old(self).at() + 2,
            atom_view(x) == AtomView::Escaped(
                old(self).bytes().subrange(old(self).at() + 1, old(self).at() + 2),
            ),
    {
        self.take(1);
        let from = self.here();
        self.take(1);
        Atom::Escaped(Cow::Borrowed(self.span(from, from + 1)))
    }

    /// The literal text from the cursor to `end`.
    #[verifier::spinoff_prover]
    fn lit(&mut self, end: usize) -> (r: Result<Atom<'a>, ParseError>)
        requires
            old(self).inv(),
            old(self).at() <= end <= old(self).bytes().len(),
            byte_at(old(self).bytes(), end as int) < 0x80,
        ensures
            final(self).same_input(old(self)),
            final(self).in_input(r),
            r is Ok ==> final(self).after_in_line(old(self)),
            r is Ok,
            final(self).at() == end,
            r is Ok ==> g_lit(
                old(self).bytes(),
                old(self).at(),
                end as int,
            ).is_done(atom_view(r->Ok_0), final(self).at()),
            r is Err ==> g_lit(old(self).bytes(), old(self).at(), end as int).is_fail(r->Err_0),
    {
        reveal(g_lit);
        let start = self.here();
        self.jump_to_ascii(end);
        Ok(Atom::Lit(self.span(start, end)))
    }

    /// The one-byte character at the cursor as literal text.
    #[verifier::spinoff_prover]
    fn lit_one(&mut self) -> (r: Result<Atom<'a>, ParseError>)
        requires
            old(self).inv(),
            0 < byte_at(old(self).bytes(), old(self).at()) < 0x80,
        ensures
            final(self).same_input(old(self)),
            final(self).in_input(r),
            r is Ok ==> final(self).after_in_line(old(self)),
            r is Ok,
            final(self).at() == old(self).at() + 1,
            r is Ok ==> g_lit(
                old(self).bytes(),
                old(self).at(),
                old(self).at() + 1,
            ).is_done(atom_view(r->Ok_0), final(self).at()),
            r is Err ==> g_lit(
                old(self).bytes(),
                old(self).at(),
                old(self).at() + 1,
            ).is_fail(r->Err_0),
    {
        reveal(g_lit);
        let start = self.here();
        self.take(1);
        Ok(Atom::Lit(self.span(start, start + 1)))
    }

    /// The atom that the byte at the cursor is.
    #[verifier::spinoff_prover]
    fn one(&mut self, atom: Atom<'a>) -> (r: Result<Atom<'a>, ParseError>)
        requires
            old(self).inv(),
            0 < byte_at(old(self).bytes(), old(self).at()) < 0x80,
        ensures
            final(self).same_input(old(self)),
            final(self).in_input(r),
            r is Ok ==> final(self).after_in_line(old(self)) && old(self).at() < final(self).at(),
            r is Ok ==> g_one(
                old(self).at(),
                atom_view(atom),
            ).is_done(atom_view(r->Ok_0), final(self).at()),
            r is Err ==> g_one(old(self).at(), atom_view(atom)).is_fail(r->Err_0),
    {
        reveal(g_one);
        self.take(1);
        Ok(atom)
    }

    /// The character behind the backslash at the cursor.
    #[verifier::spinoff_prover]
    fn parse_escape(&mut self) -> (r: Result<Atom<'a>, ParseError>)
        requires
            old(self).inv(),
            byte_at(old(self).bytes(), old(self).at()) == BACKSLASH,
        ensures
            final(self).same_input(old(self)),
            final(self).in_input(r),
            r is Ok ==> final(self).after_in_line(old(self)) && old(self).at() < final(self).at(),
            r is Ok ==> g_escape(
                old(self).bytes(),
                old(self).at(),
            ).is_done(atom_view(r->Ok_0), final(self).at()),
            r is Err ==> g_escape(old(self).bytes(), old(self).at()).is_fail(r->Err_0),
    {
        reveal(g_escape);
        let start = self.here();
        let src = self.src();
        if start + 1 < src.len() {
            self.take(1);
            let end = scan_run(src, start + 2, ByteClass::Continuation);
            proof {
                lemma_run_end(self.bytes(), start + 2, ByteClass::Continuation);
                lemma_cut_at(self.bytes(), end as int);
            }
            self.jump(end);
            Ok(Atom::Escaped(Cow::Borrowed(self.span(start + 1, end))))
        } else {
            self.lit_one()
        }
    }

    /// One atom outside quotes.
    #[verifier::spinoff_prover]
    fn parse_atom(
        &mut self,
        depth: usize,
        ctx: WordCtx,
        first: bool,
    ) -> (r: Result<Atom<'a>, ParseError>)
        requires
            old(self).inv(),
            old(self).at() < old(self).bytes().len(),
        ensures
            final(self).same_input(old(self)),
            final(self).in_input(r),
            r is Ok ==> final(self).after_in_line(old(self)) && old(self).at() < final(self).at(),
            r is Ok ==> g_atom(
                old(self).bytes(),
                old(self).at(),
                depth as nat,
                ctx,
                first,
            ).is_done(atom_view(r->Ok_0), final(self).at()),
            r is Err ==> g_atom(
                old(self).bytes(),
                old(self).at(),
                depth as nat,
                ctx,
                first,
            ).is_fail(r->Err_0),
        decreases depth, 65int,
    {
        reveal(g_lit);
        reveal(g_one);
        let c = self.peek();
        if c == BACKSLASH {
            self.parse_escape()
        } else if c == DOLLAR {
            self.parse_dollar(depth, false)
        } else if c == BACKTICK {
            self.parse_backtick(depth)
        } else if c == LT && self.peek_at(1) == LPAREN && matches!(ctx, WordCtx::Command) {
            self.take(2);
            self.parse_procsub(depth)
        } else if c == STAR {
            self.one(Atom::Star)
        } else if c == QUESTION {
            self.one(Atom::Question)
        } else if c == LBRACKET {
            self.one(Atom::SquareOpen)
        } else if c == RBRACKET {
            self.one(Atom::SquareClose)
        } else if c == TILDE && first {
            self.one(Atom::Tilde)
        } else if c == LBRACE {
            self.parse_brace()
        } else {
            let end = scan_lit(self.src(), self.here() + 1, ctx);
            self.lit(end)
        }
    }

    /// `<(commands)` from behind its opening.
    #[verifier::spinoff_prover]
    fn parse_procsub(&mut self, depth: usize) -> (r: Result<Atom<'a>, ParseError>)
        requires
            old(self).inv(),
        ensures
            final(self).same_input(old(self)),
            final(self).in_input(r),
            r is Ok ==> final(self).after_in_line(old(self)),
            r is Ok ==> g_procsub(
                old(self).bytes(),
                old(self).at(),
                depth as nat,
            ).is_done(atom_view(r->Ok_0), final(self).at()),
            r is Err ==> g_procsub(
                old(self).bytes(),
                old(self).at(),
                depth as nat,
            ).is_fail(r->Err_0),
        decreases depth, 60int,
    {
        let cmds = self.parse_nested(depth)?;
        Ok(Atom::ProcSubIn(cmds))
    }

    /// `$(commands)` from behind its opening.
    #[verifier::spinoff_prover]
    fn parse_cmd_subst(&mut self, depth: usize) -> (r: Result<Atom<'a>, ParseError>)
        requires
            old(self).inv(),
        ensures
            final(self).same_input(old(self)),
            final(self).in_input(r),
            r is Ok ==> final(self).after_in_line(old(self)),
            r is Ok ==> g_cmd_subst(
                old(self).bytes(),
                old(self).at(),
                depth as nat,
            ).is_done(atom_view(r->Ok_0), final(self).at()),
            r is Err ==> g_cmd_subst(
                old(self).bytes(),
                old(self).at(),
                depth as nat,
            ).is_fail(r->Err_0),
        decreases depth, 60int,
    {
        let cmds = self.parse_nested(depth)?;
        Ok(mk_subst(Subst::Cmd(cmds)))
    }

    /// A brace range, or else the `{` at the cursor as literal text.
    #[verifier::spinoff_prover]
    fn parse_brace(&mut self) -> (r: Result<Atom<'a>, ParseError>)
        requires
            old(self).inv(),
            byte_at(old(self).bytes(), old(self).at()) == LBRACE,
        ensures
            final(self).same_input(old(self)),
            final(self).in_input(r),
            r is Ok ==> final(self).after_in_line(old(self)) && old(self).at() < final(self).at(),
            r is Ok ==> g_brace(
                old(self).bytes(),
                old(self).at(),
            ).is_done(atom_view(r->Ok_0), final(self).at()),
            r is Err ==> g_brace(old(self).bytes(), old(self).at()).is_fail(r->Err_0),
    {
        reveal(g_brace);
        match self.parse_brace_range() {
            Some(atom) => Ok(atom),
            None => self.lit_one(),
        }
    }

    /// Reads the brace range at the cursor, if one stands there.
    #[verifier::spinoff_prover]
    fn parse_brace_range(&mut self) -> (r: Option<Atom<'a>>)
        requires
            old(self).inv(),
            byte_at(old(self).bytes(), old(self).at()) == LBRACE,
        ensures
            final(self).after_in_line(old(self)),
            match r {
                Some(x) => brace_range(old(self).bytes(), old(self).at()) == Some(
                    (atom_view(x), final(self).at()),
                ) && old(self).at() < final(self).at(),
                None => brace_range(old(self).bytes(), old(self).at()) is None && final(self).at()
                    == old(self).at(),
            },
    {
        reveal(brace_range);
        let p = self.here();
        let src = self.src();
        let len = src.len();
        proof {
            lemma_cut_step(self.bytes(), p as int);
            lemma_cut_run(self.bytes(), p + 1, ByteClass::RangeChar);
            lemma_run_end(self.bytes(), p + 1, ByteClass::RangeChar);
        }
        let e1 = scan_run(src, p + 1, ByteClass::RangeChar);
        if !(p + 1 < e1 && e1 < len && len - e1 > 2 && src[e1] == DOT && src[e1 + 1] == DOT) {
            proof {
                lemma_run_end(self.bytes(), e1 + 2, ByteClass::RangeChar);
            }
            return None;
        }
        proof {
            lemma_cut_step(self.bytes(), e1 as int);
            lemma_cut_step(self.bytes(), e1 + 1);
            lemma_cut_run(self.bytes(), e1 + 2, ByteClass::RangeChar);
            lemma_run_end(self.bytes(), e1 + 2, ByteClass::RangeChar);
        }
        let e2 = scan_run(src, e1 + 2, ByteClass::RangeChar);
        if !(e1 + 2 < e2 && e2 < len) {
            return None;
        }
        if src[e2] == RBRACE {
            let start = self.span(p + 1, e1);
            let end = self.span(e1 + 2, e2);
            proof {
                lemma_cut_step(self.bytes(), e2 as int);
            }
            self.jump(e2 + 1);
            return Some(Atom::BraceRange { start, end, step: None });
        }
        if !(len - e2 > 2 && src[e2] == DOT && src[e2 + 1] == DOT) {
            proof {
                lemma_run_end(self.bytes(), e2 + 2, ByteClass::RangeChar);
            }
            return None;
        }
        proof {
            lemma_cut_step(self.bytes(), e2 as int);
            lemma_cut_step(self.bytes(), e2 + 1);
            lemma_cut_run(self.bytes(), e2 + 2, ByteClass::RangeChar);
            lemma_run_end(self.bytes(), e2 + 2, ByteClass::RangeChar);
        }
        let e3 = scan_run(src, e2 + 2, ByteClass::RangeChar);
        if e2 + 2 < e3 && e3 < len && src[e3] == RBRACE {
            let start = self.span(p + 1, e1);
            let end = self.span(e1 + 2, e2);
            let step = self.span(e2 + 2, e3);
            proof {
                lemma_cut_step(self.bytes(), e3 as int);
            }
            self.jump(e3 + 1);
            Some(Atom::BraceRange { start, end, step: Some(step) })
        } else {
            None
        }
    }

    // ----- expansions -----

    /// What starts with the `$` at the cursor.
    #[verifier::spinoff_prover]
    fn parse_dollar(&mut self, depth: usize, quoted: bool) -> (r: Result<Atom<'a>, ParseError>)
        requires
            old(self).inv(),
            byte_at(old(self).bytes(), old(self).at()) == DOLLAR,
        ensures
            final(self).same_input(old(self)),
            final(self).in_input(r),
            r is Ok ==> final(self).after_in_line(old(self)) && old(self).at() < final(self).at(),
            r is Ok ==> g_dollar(
                old(self).bytes(),
                old(self).at(),
                depth as nat,
                quoted,
            ).is_done(atom_view(r->Ok_0), final(self).at()),
            r is Err ==> g_dollar(
                old(self).bytes(),
                old(self).at(),
                depth as nat,
                quoted,
            ).is_fail(r->Err_0),
        decreases depth, 64int,
    {
        let n = self.peek_at(1);
        if n == LPAREN && self.peek_at(2) == LPAREN {
            self.take(3);
            self.parse_arith_subst(depth)
        } else if n == LPAREN {
            self.take(2);
            self.parse_cmd_subst(depth)
        } else if n == LBRACE {
            self.take(2);
            self.parse_param_subst(depth)
        } else if n == SQUOTE && !quoted {
            self.take(2);
            self.parse_ansi_c()
        } else {
            self.parse_simple_param()
        }
    }

    /// ANSI-C quoted text from behind `$'`.
    #[verifier::spinoff_prover]
    fn parse_ansi_c(&mut self) -> (r: Result<Atom<'a>, ParseError>)
        requires
            old(self).inv(),
        ensures
            final(self).same_input(old(self)),
            final(self).in_input(r),
            r is Ok ==> final(self).after_in_line(old(self)),
            r is Ok ==> g_ansi_c(
                old(self).bytes(),
                old(self).at(),
            ).is_done(atom_view(r->Ok_0), final(self).at()),
            r is Err ==> g_ansi_c(old(self).bytes(), old(self).at()).is_fail(r->Err_0),
    {
        reveal(g_ansi_c);
        let from = self.here();
        let end = scan_closing(self.src(), from, SQUOTE);
        if end < self.src().len() {
            self.jump_to_ascii(end);
            let text = self.span(from, end);
            self.take(1);
            Ok(Atom::AnsiCQuoted(text))
        } else {
            self.fail_at(end, "unterminated single quote")
        }
    }

    /// `$name`, `$1`, `$?` and the like, or the `$` itself.
    #[verifier::spinoff_prover]
    fn parse_simple_param(&mut self) -> (r: Result<Atom<'a>, ParseError>)
        requires
            old(self).inv(),
            byte_at(old(self).bytes(), old(self).at()) == DOLLAR,
        ensures
            final(self).same_input(old(self)),
            final(self).in_input(r),
            r is Ok ==> final(self).after_in_line(old(self)) && old(self).at() < final(self).at(),
            r is Ok ==> g_simple_param(
                old(self).bytes(),
                old(self).at(),
            ).is_done(atom_view(r->Ok_0), final(self).at()),
            r is Err ==> g_simple_param(old(self).bytes(), old(self).at()).is_fail(r->Err_0),
    {
        reveal(g_simple_param);
        let n = self.peek_at(1);
        if class_holds(ByteClass::NameStart, n) {
            self.take(1);
            let name = self.name();
            Ok(Atom::Param(Param::Var(name)))
        } else if class_holds(ByteClass::Digit, n) {
            self.take(2);
            Ok(Atom::Param(Param::Positional((n - 0x30) as u32)))
        } else {
            match special(n) {
                Some(param) => {
                    self.take(2);
                    Ok(Atom::Param(param))
                },
                None => self.lit_one(),
            }
        }
    }

    /// The commands of a substitution whose opening has been read.
    #[verifier::spinoff_prover]
    fn parse_nested(&mut self, depth: usize) -> (r: Result<Vec<Cmd<'a>>, ParseError>)
        requires
            old(self).inv(),
        ensures
            final(self).same_input(old(self)),
            final(self).in_input(r),
            r is Ok ==> final(self).after_in_line(old(self)),
            r is Ok ==> g_nested(old(self).bytes(), old(self).at(), depth as nat).is_done(
                cmds_view(r->Ok_0),
                final(self).at(),
            ),
            r is Err ==> g_nested(
                old(self).bytes(),
                old(self).at(),
                depth as nat,
            ).is_fail(r->Err_0),
        decreases depth, 59int,
    {
        if depth == 0 {
            return self.fail("nesting too deep");
        }
        let saved = self.resume;
        proof {
            lemma_cut_at(self.bytes(), 0);
        }
        self.resume = 0;
        let r = self.parse_list(depth - 1);
        self.resume = saved;
        self.close_nested(r)
    }

    /// The closing `)` behind nested commands.
    #[verifier::spinoff_prover]
    fn close_nested(&mut self, cmds: Result<Vec<Cmd<'a>>, ParseError>) -> (r: Result<
        Vec<Cmd<'a>>,
        ParseError,
    >)
        requires
            old(self).inv(),
            old(self).in_input(cmds),
        ensures
            final(self).after_in_line(old(self)),
            final(self).in_input(r),
            match cmds {
                Ok(x) => if byte_at(old(self).bytes(), old(self).at()) == RPAREN {
                    r == Ok::<Vec<Cmd<'a>>, ParseError>(x) && final(self).at() == old(self).at() + 1
                } else {
                    r matches Err(e) && e.pos == old(self).at() && e.msg@ == "expected ')'"@
                },
                Err(e) => r == Err::<Vec<Cmd<'a>>, ParseError>(e),
            },
    {
        match cmds {
            Ok(x) => {
                if self.peek() != RPAREN {
                    return self.fail("expected ')'");
                }
                self.take(1);
                Ok(x)
            },
            Err(e) => Err(e),
        }
    }

    /// The commands between two backquotes.
    #[verifier::spinoff_prover]
    fn parse_backtick(&mut self, depth: usize) -> (r: Result<Atom<'a>, ParseError>)
        requires
            old(self).inv(),
            byte_at(old(self).bytes(), old(self).at()) == BACKTICK,
        ensures
            final(self).same_input(old(self)),
            final(self).in_input(r),
            r is Ok ==> final(self).after_in_line(old(self)) && old(self).at() < final(self).at(),
            r is Ok ==> g_backtick(old(self).bytes(), old(self).at(), depth as nat).is_done(
                atom_view(r->Ok_0),
                final(self).at(),
            ),
            r is Err ==> g_backtick(
                old(self).bytes(),
                old(self).at(),
                depth as nat,
            ).is_fail(r->Err_0),
        decreases depth, 59int,
    {
        let p = self.here();
        let src = self.src();
        let end = scan_closing(src, p + 1, BACKTICK);
        if end >= src.len() {
            return self.fail_at(end, "unterminated backquote");
        }
        if depth == 0 {
            return self.fail("nesting too deep");
        }
        proof {
            lemma_cut_step(self.bytes(), p as int);
            lemma_cut_at(self.bytes(), end as int);
            lemma_cut_step(self.bytes(), end as int);
        }
        let inner = self.span(p + 1, end);
        let mut sub = Parser::new(inner);
        match sub.parse_list(depth - 1) {
            Ok(cmds) => {
                if sub.here() < inner.len() {
                    return self.fail_at(p + 1 + sub.here(), "unexpected token");
                }
                self.jump(end + 1);
                Ok(mk_subst(Subst::Cmd(cmds)))
            },
            Err(e) => Err(ParseError { pos: p + 1 + e.pos, msg: e.msg }),
        }
    }

    /// `$((expr))` from behind its opening.
    #[verifier::spinoff_prover]
    fn parse_arith_subst(&mut self, depth: usize) -> (r: Result<Atom<'a>, ParseError>)
        requires
            old(self).inv(),
        ensures
            final(self).same_input(old(self)),
            final(self).in_input(r),
            r is Ok ==> final(self).after_in_line(old(self)),
            r is Ok ==> g_arith_subst(old(self).bytes(), old(self).at(), depth as nat).is_done(
                atom_view(r->Ok_0),
                final(self).at(),
            ),
            r is Err ==> g_arith_subst(
                old(self).bytes(),
                old(self).at(),
                depth as nat,
            ).is_fail(r->Err_0),
        decreases depth, 59int,
    {
        let start = self.here();
        self.skip_blanks();
        if self.peek() == RPAREN && self.peek_at(1) == RPAREN {
            self.take(2);
            return Ok(mk_subst(Subst::Arith(None)));
        }
        self.rewind(start);
        let x = self.parse_arith(depth)?;
        if self.peek() == RPAREN && self.peek_at(1) == RPAREN {
            self.take(2);
            Ok(mk_subst(Subst::Arith(Some(x))))
        } else {
            self.fail("expected '))'")
        }
    }

    // ----- parameter substitution -----

    /// Reads the parameter named at the cursor, if one is.
    #[verifier::spinoff_prover]
    fn parse_param(&mut self) -> (r: Option<Param<'a>>)
        requires
            old(self).inv(),
        ensures
            final(self).after_in_line(old(self)),
            match r {
                Some(x) => g_param(old(self).bytes(), old(self).at()) == Some(
                    (param_view(x), final(self).at()),
                ),
                None => g_param(old(self).bytes(), old(self).at()) is None && final(self).at()
                    == old(self).at(),
            },
    {
        reveal(g_param);
        let start = self.here();
        let name = self.name();
        if self.here() > start {
            return Some(Param::Var(name));
        }
        let digits = self.number();
        if self.here() > start {
            match decimal_value(digits.as_bytes()) {
                Some(v) => {
                    if v <= 0xffff_ffff {
                        return Some(Param::Positional(v as u32));
                    }
                },
                None => {},
            }
            self.rewind(start);
            return None;
        }
        match special(self.peek()) {
            Some(param) => {
                self.take(1);
                Some(param)
            },
            None => None,
        }
    }

    /// The atom `x` if `}` stands at the cursor.
    #[verifier::spinoff_prover]
    fn close(&mut self, x: Atom<'a>) -> (r: Result<Atom<'a>, ParseError>)
        requires
            old(self).inv(),
        ensures
            final(self).after_in_line(old(self)),
            final(self).in_input(r),
            r is Ok ==> g_close(old(self).bytes(), old(self).at(), atom_view(x)).is_done(
                atom_view(r->Ok_0),
                final(self).at(),
            ),
            r is Err ==> g_close(old(self).bytes(), old(self).at(), atom_view(x)).is_fail(r->Err_0),
    {
        reveal(g_close);
        if self.peek() == RBRACE {
            self.take(1);
            Ok(x)
        } else {
            self.fail("expected '}'")
        }
    }

    /// `${...}` from behind its opening.
    #[verifier::spinoff_prover]
    fn parse_param_subst(&mut self, depth: usize) -> (r: Result<Atom<'a>, ParseError>)
        requires
            old(self).inv(),
        ensures
            final(self).same_input(old(self)),
            final(self).in_input(r),
            r is Ok ==> final(self).after_in_line(old(self)),
            r is Ok ==> g_param_subst(
                old(self).bytes(),
                old(self).at(),
                depth as nat,
            ).is_done(atom_view(r->Ok_0), final(self).at()),
            r is Err ==> g_param_subst(
                old(self).bytes(),
                old(self).at(),
                depth as nat,
            ).is_fail(r->Err_0),
        decreases depth, 63int,
    {
        let c = self.peek();
        let n = self.peek_at(1);
        if c == HASH && n != RBRACE {
            self.take(1);
            self.parse_length()
        } else if c == BANG && n != RBRACE {
            self.take(1);
            self.parse_indirect()
        } else {
            match self.parse_param() {
                Some(param) => self.parse_param_op(depth, param),
                None => self.fail("expected parameter name"),
            }
        }
    }

    /// `${#...}` from behind the `#`.
    #[verifier::spinoff_prover]
    fn parse_length(&mut self) -> (r: Result<Atom<'a>, ParseError>)
        requires
            old(self).inv(),
        ensures
            final(self).same_input(old(self)),
            final(self).in_input(r),
            r is Ok ==> final(self).after_in_line(old(self)),
            r is Ok ==> g_length(
                old(self).bytes(),
                old(self).at(),
            ).is_done(atom_view(r->Ok_0), final(self).at()),
            r is Err ==> g_length(old(self).bytes(), old(self).at()).is_fail(r->Err_0),
    {
        reveal(g_length);
        let from = self.here();
        let name = self.name();
        let n = self.peek_at(1);
        if self.here() > from && self.peek() == LBRACKET && (n == AT || n == STAR) && self.peek_at(
            2,
        ) == RBRACKET {
            self.take(3);
            return self.close(mk_subst(Subst::ArrayLen(name)));
        }
        self.rewind(from);
        match self.parse_param() {
            Some(param) => self.close(mk_subst(Subst::Len(param))),
            None => self.fail("expected parameter name"),
        }
    }

    /// `${!...}` from behind the `!`.
    #[verifier::spinoff_prover]
    fn parse_indirect(&mut self) -> (r: Result<Atom<'a>, ParseError>)
        requires
            old(self).inv(),
        ensures
            final(self).same_input(old(self)),
            final(self).in_input(r),
            r is Ok ==> final(self).after_in_line(old(self)),
            r is Ok ==> g_indirect(
                old(self).bytes(),
                old(self).at(),
            ).is_done(atom_view(r->Ok_0), final(self).at()),
            r is Err ==> g_indirect(old(self).bytes(), old(self).at()).is_fail(r->Err_0),
    {
        reveal(g_indirect);
        let from = self.here();
        let name = self.name();
        if self.here() > from {
            if self.peek() == STAR || self.peek() == AT {
                self.take(1);
                self.close(mk_subst(Subst::PrefixList(name)))
            } else {
                self.close(mk_subst(Subst::Indirect(name)))
            }
        } else {
            self.fail("expected parameter name")
        }
    }

    /// The operand of an operator: a word, or none.
    #[verifier::spinoff_prover]
    fn parse_operand(&mut self, depth: usize, ctx: WordCtx) -> (r: Result<
        Option<Word<'a>>,
        ParseError,
    >)
        requires
            old(self).inv(),
        ensures
            final(self).same_input(old(self)),
            final(self).in_input(r),
            r is Ok ==> final(self).after_in_line(old(self)),
            r is Ok ==> g_operand(old(self).bytes(), old(self).at(), depth as nat, ctx).is_done(
                match r->Ok_0 {
                    Some(w) => Some(word_view(w)),
                    None => None,
                },
                final(self).at(),
            ),
            r is Err ==> g_operand(old(self).bytes(), old(self).at(), depth as nat, ctx).is_fail(
                r->Err_0,
            ),
        decreases depth, 58int,
    {
        if self.at_word_end(ctx) {
            Ok(None)
        } else if depth == 0 {
            self.fail("nesting too deep")
        } else {
            let w = self.parse_word(depth - 1, ctx)?;
            Ok(Some(w))
        }
    }

    /// The operator with one word at the cursor, and its length.
    #[verifier::spinoff_prover]
    fn word_op(&self) -> (r: Option<(WordOp, usize)>)
        ensures
            match r {
                Some((op, k)) => word_op_at(self.bytes(), self.at()) == Some((op, k as int)) && 1
                    <= k <= 2 && forall|i: int|
                    self.at() <= i < self.at() + k ==> 0 < #[trigger] byte_at(self.bytes(), i)
                        < 0x80,
                None => word_op_at(self.bytes(), self.at()) is None,
            },
    {
        reveal(word_op_at);
        let c = self.peek();
        let n = self.peek_at(1);
        let k: usize = if c == COLON {
            2
        } else {
            1
        };
        let o = if c == COLON {
            n
        } else {
            c
        };
        if o == MINUS {
            Some((WordOp::Default, k))
        } else if o == EQUALS {
            Some((WordOp::Assign, k))
        } else if o == QUESTION {
            Some((WordOp::Error, k))
        } else if o == PLUS {
            Some((WordOp::Alt, k))
        } else if c == HASH {
            if n == HASH {
                Some((WordOp::TrimPrefixLarge, 2))
            } else {
                Some((WordOp::TrimPrefixSmall, 1))
            }
        } else if c == PERCENT {
            if n == PERCENT {
                Some((WordOp::TrimSuffixLarge, 2))
            } else {
                Some((WordOp::TrimSuffixSmall, 1))
            }
        } else {
            None
        }
    }

    /// The replacement operator at the cursor, where a `/` stands.
    #[verifier::spinoff_prover]
    fn replace_op(&self) -> (r: (ReplaceOp, usize))
        requires
            byte_at(self.bytes(), self.at()) == SLASH,
        ensures
            replace_op_at(self.bytes(), self.at()) == (r.0, r.1 as int),
            1 <= r.1 <= 2,
            forall|i: int|
                self.at() <= i < self.at() + r.1 ==> 0 < #[trigger] byte_at(self.bytes(), i) < 0x80,
    {
        let n = self.peek_at(1);
        if n == SLASH {
            (ReplaceOp::All, 2)
        } else if n == HASH {
            (ReplaceOp::Prefix, 2)
        } else if n == PERCENT {
            (ReplaceOp::Suffix, 2)
        } else {
            (ReplaceOp::First, 1)
        }
    }

    /// An offset and, behind `:`, a length, up to the closing `}`.
    #[verifier::spinoff_prover]
    pub(crate) fn parse_range(&mut self) -> (r: Result<(&'a str, Option<&'a str>), ParseError>)
        requires
            old(self).inv(),
        ensures
            final(self).after_in_line(old(self)),
            final(self).in_input(r),
            r is Ok ==> g_range(old(self).bytes(), old(self).at()).is_done(
                (
                    r->Ok_0.0.spec_bytes(),
                    match r->Ok_0.1 {
                        Some(s) => Some(s.spec_bytes()),
                        None => None,
                    },
                ),
                final(self).at(),
            ),
            r is Err ==> g_range(old(self).bytes(), old(self).at()).is_fail(r->Err_0),
    {
        reveal(g_range);
        let start = self.here();
        let src = self.src();
        let e1 = scan_run(src, start, ByteClass::OffsetChar);
        proof {
            lemma_run_end(self.bytes(), start as int, ByteClass::OffsetChar);
        }
        self.jump_to_ascii(e1);
        let c = self.peek();
        if c == COLON {
            self.take(1);
            let e2 = scan_run(src, e1 + 1, ByteClass::NotRbrace);
            proof {
                lemma_run_end(self.bytes(), e1 + 1, ByteClass::NotRbrace);
            }
            self.jump_to_ascii(e2);
            if self.peek() == RBRACE {
                let offset = self.span(start, e1);
                let length = self.span(e1 + 1, e2);
                self.take(1);
                Ok((offset, Some(length)))
            } else {
                self.fail("expected '}'")
            }
        } else if c == RBRACE {
            let offset = self.span(start, e1);
            self.take(1);
            Ok((offset, None))
        } else {
            self.fail("expected '}'")
        }
    }

    /// What follows the parameter of `${param...}`.
    #[verifier::spinoff_prover]
    fn parse_param_op(
        &mut self,
        depth: usize,
        param: Param<'a>,
    ) -> (r: Result<Atom<'a>, ParseError>)
        requires
            old(self).inv(),
        ensures
            final(self).same_input(old(self)),
            final(self).in_input(r),
            r is Ok ==> final(self).after_in_line(old(self)),
            r is Ok ==> g_param_op(
                old(self).bytes(),
                old(self).at(),
                depth as nat,
                param_view(param),
            ).is_done(atom_view(r->Ok_0), final(self).at()),
            r is Err ==> g_param_op(
                old(self).bytes(),
                old(self).at(),
                depth as nat,
                param_view(param),
            ).is_fail(r->Err_0),
        decreases depth, 62int,
    {
        let c = self.peek();
        let var = var_of(&param);
        if c == RBRACE {
            self.take(1);
            Ok(Atom::Param(param))
        } else if c == LBRACKET && var.is_some() {
            self.take(1);
            match var {
                Some(name) => self.parse_array_op(depth, name),
                None => unreached(),
            }
        } else if self.word_op().is_some() {
            self.parse_word_op(depth, param)
        } else if c == COLON {
            self.take(1);
            self.parse_substring(param)
        } else if c == SLASH {
            self.parse_replace(depth, param)
        } else if c == CARET || c == COMMA {
            self.parse_case_op(param)
        } else if c == AT && var.is_some() {
            match var {
                Some(name) => self.parse_transform(name),
                None => unreached(),
            }
        } else {
            self.fail("bad substitution")
        }
    }

    /// An operator with one word, its operand, and the closing brace.
    #[verifier::spinoff_prover]
    fn parse_word_op(&mut self, depth: usize, param: Param<'a>) -> (r: Result<Atom<'a>, ParseError>)
        requires
            old(self).inv(),
        ensures
            final(self).same_input(old(self)),
            final(self).in_input(r),
            r is Ok ==> final(self).after_in_line(old(self)),
            r is Ok ==> g_word_op(
                old(self).bytes(),
                old(self).at(),
                depth as nat,
                param_view(param),
            ).is_done(atom_view(r->Ok_0), final(self).at()),
            r is Err ==> g_word_op(
                old(self).bytes(),
                old(self).at(),
                depth as nat,
                param_view(param),
            ).is_fail(r->Err_0),
        decreases depth, 61int,
    {
        match self.word_op() {
            Some((op, k)) => {
                self.take(k);
                let word = self.parse_operand(depth, WordCtx::Operand)?;
                self.close(mk_subst(mk_word_subst(op, param, word)))
            },
            None => self.fail("bad substitution"),
        }
    }

    /// `${param:offset}` and `${param:offset:length}` from behind the `:`.
    #[verifier::spinoff_prover]
    fn parse_substring(&mut self, param: Param<'a>) -> (r: Result<Atom<'a>, ParseError>)
        requires
            old(self).inv(),
        ensures
            final(self).same_input(old(self)),
            final(self).in_input(r),
            r is Ok ==> final(self).after_in_line(old(self)),
            r is Ok ==> g_substring(
                old(self).bytes(),
                old(self).at(),
                param_view(param),
            ).is_done(atom_view(r->Ok_0), final(self).at()),
            r is Err ==> g_substring(
                old(self).bytes(),
                old(self).at(),
                param_view(param),
            ).is_fail(r->Err_0),
    {
        reveal(g_substring);
        let (offset, length) = self.parse_range()?;
        Ok(mk_subst(Subst::Substring(param, offset, length)))
    }

    /// A replacement from its `/` on.
    #[verifier::spinoff_prover]
    fn parse_replace(&mut self, depth: usize, param: Param<'a>) -> (r: Result<Atom<'a>, ParseError>)
        requires
            old(self).inv(),
            byte_at(old(self).bytes(), old(self).at()) == SLASH,
        ensures
            final(self).same_input(old(self)),
            final(self).in_input(r),
            r is Ok ==> final(self).after_in_line(old(self)),
            r is Ok ==> g_replace(
                old(self).bytes(),
                old(self).at(),
                depth as nat,
                param_view(param),
            ).is_done(atom_view(r->Ok_0), final(self).at()),
            r is Err ==> g_replace(
                old(self).bytes(),
                old(self).at(),
                depth as nat,
                param_view(param),
            ).is_fail(r->Err_0),
        decreases depth, 61int,
    {
        let (op, k) = self.replace_op();
        self.take(k);
        let pattern = self.parse_operand(depth, WordCtx::Pattern)?;
        self.parse_replace_with(depth, param, op, pattern)
    }

    /// What follows the pattern of a replacement.
    #[verifier::spinoff_prover]
    fn parse_replace_with(
        &mut self,
        depth: usize,
        param: Param<'a>,
        op: ReplaceOp,
        pattern: Option<Word<'a>>,
    ) -> (r: Result<Atom<'a>, ParseError>)
        requires
            old(self).inv(),
        ensures
            final(self).same_input(old(self)),
            final(self).in_input(r),
            r is Ok ==> final(self).after_in_line(old(self)),
            r is Ok ==> g_replace_with(
                old(self).bytes(),
                old(self).at(),
                depth as nat,
                param_view(param),
                op,
                match pattern {
                    Some(w) => Some(word_view(w)),
                    None => None,
                },
            ).is_done(atom_view(r->Ok_0), final(self).at()),
            r is Err ==> g_replace_with(
                old(self).bytes(),
                old(self).at(),
                depth as nat,
                param_view(param),
                op,
                match pattern {
                    Some(w) => Some(word_view(w)),
                    None => None,
                },
            ).is_fail(r->Err_0),
        decreases depth, 60int,
    {
        if self.peek() == SLASH {
            self.take(1);
            let with = self.parse_operand(depth, WordCtx::Operand)?;
            self.close(mk_subst(mk_replace(op, param, pattern, with)))
        } else {
            self.close(mk_subst(mk_replace(op, param, pattern, None)))
        }
    }

    /// A case conversion from its operator on.
    #[verifier::spinoff_prover]
    fn parse_case_op(&mut self, param: Param<'a>) -> (r: Result<Atom<'a>, ParseError>)
        requires
            old(self).inv(),
            byte_at(
                old(self).bytes(),
                old(self).at(),
            ) == CARET || byte_at(old(self).bytes(), old(self).at()) == COMMA,
        ensures
            final(self).same_input(old(self)),
            final(self).in_input(r),
            r is Ok ==> final(self).after_in_line(old(self)),
            r is Ok ==> g_case_op(
                old(self).bytes(),
                old(self).at(),
                param_view(param),
            ).is_done(atom_view(r->Ok_0), final(self).at()),
            r is Err ==> g_case_op(
                old(self).bytes(),
                old(self).at(),
                param_view(param),
            ).is_fail(r->Err_0),
    {
        reveal(g_case_op);
        let c = self.peek();
        let all = self.peek_at(1) == c;
        self.take(if all { 2 } else { 1 });
        if c == CARET {
            self.close(mk_subst(Subst::Upper(all, param)))
        } else {
            self.close(mk_subst(Subst::Lower(all, param)))
        }
    }

    /// `${name@X}` from the `@` on.
    #[verifier::spinoff_prover]
    fn parse_transform(&mut self, name: &'a str) -> (r: Result<Atom<'a>, ParseError>)
        requires
            old(self).inv(),
            byte_at(old(self).bytes(), old(self).at()) == AT,
        ensures
            final(self).same_input(old(self)),
            final(self).in_input(r),
            r is Ok ==> final(self).after_in_line(old(self)),
            r is Ok ==> g_transform(
                old(self).bytes(),
                old(self).at(),
                name.spec_bytes(),
            ).is_done(atom_view(r->Ok_0), final(self).at()),
            r is Err ==> g_transform(
                old(self).bytes(),
                old(self).at(),
                name.spec_bytes(),
            ).is_fail(r->Err_0),
    {
        reveal(g_transform);
        let n = self.peek_at(1);
        if class_holds(ByteClass::NameStart, n) && n != 0x5f {
            self.take(2);
            self.close(mk_subst(Subst::Transform(name, n)))
        } else {
            self.fail("bad substitution")
        }
    }

    /// What follows `${name[`.
    #[verifier::spinoff_prover]
    fn parse_array_op(&mut self, depth: usize, name: &'a str) -> (r: Result<Atom<'a>, ParseError>)
        requires
            old(self).inv(),
        ensures
            final(self).same_input(old(self)),
            final(self).in_input(r),
            r is Ok ==> final(self).after_in_line(old(self)),
            r is Ok ==> g_array_op(
                old(self).bytes(),
                old(self).at(),
                depth as nat,
                name.spec_bytes(),
            ).is_done(atom_view(r->Ok_0), final(self).at()),
            r is Err ==> g_array_op(
                old(self).bytes(),
                old(self).at(),
                depth as nat,
                name.spec_bytes(),
            ).is_fail(r->Err_0),
        decreases depth, 61int,
    {
        let c = self.peek();
        if (c == AT || c == STAR) && self.peek_at(1) == RBRACKET {
            self.take(2);
            self.parse_array_all(name)
        } else {
            self.parse_array_element(depth, name)
        }
    }

    /// What follows `${name[@]`.
    #[verifier::spinoff_prover]
    fn parse_array_all(&mut self, name: &'a str) -> (r: Result<Atom<'a>, ParseError>)
        requires
            old(self).inv(),
        ensures
            final(self).same_input(old(self)),
            final(self).in_input(r),
            r is Ok ==> final(self).after_in_line(old(self)),
            r is Ok ==> g_array_all(
                old(self).bytes(),
                old(self).at(),
                name.spec_bytes(),
            ).is_done(atom_view(r->Ok_0), final(self).at()),
            r is Err ==> g_array_all(
                old(self).bytes(),
                old(self).at(),
                name.spec_bytes(),
            ).is_fail(r->Err_0),
    {
        reveal(g_array_all);
        if self.peek() == COLON {
            self.take(1);
            let (offset, length) = self.parse_range()?;
            Ok(mk_subst(Subst::ArraySlice(name, offset, length)))
        } else {
            self.close(mk_subst(Subst::ArrayAll(name)))
        }
    }

    /// The index of one element, `]` and the closing brace.
    #[verifier::spinoff_prover]
    fn parse_array_element(
        &mut self,
        depth: usize,
        name: &'a str,
    ) -> (r: Result<Atom<'a>, ParseError>)
        requires
            old(self).inv(),
        ensures
            final(self).same_input(old(self)),
            final(self).in_input(r),
            r is Ok ==> final(self).after_in_line(old(self)),
            r is Ok ==> g_array_element(
                old(self).bytes(),
                old(self).at(),
                depth as nat,
                name.spec_bytes(),
            ).is_done(atom_view(r->Ok_0), final(self).at()),
            r is Err ==> g_array_element(
                old(self).bytes(),
                old(self).at(),
                depth as nat,
                name.spec_bytes(),
            ).is_fail(r->Err_0),
        decreases depth, 58int,
    {
        if depth == 0 {
            return self.fail("nesting too deep");
        }
        let index = self.parse_word(depth - 1, WordCtx::Index)?;
        if self.peek() == RBRACKET {
            self.take(1);
            self.close(mk_subst(Subst::ArrayElement(name, index)))
        } else {
            self.fail("expected ']'")
        }
    }

}

} // verus!
