//! The texts of words come from the input.

use vstd::prelude::*;
use crate::ast_view::{AtomView, CmdView, ParamView, SubstView, WordPartView, WordView};
use crate::bytes::{
    AT, BACKSLASH, BACKTICK, BANG, CARET, COLON, COMMA, DOLLAR, HASH, LBRACE, LBRACKET, LPAREN, LT,
    QUESTION, RBRACE, RBRACKET, SLASH, STAR, TILDE,
};
use crate::grammar::arith::g_arith;
use crate::grammar::commands::g_list;
use crate::grammar::words::{
    brace_range, char_end, closing, dq_escapable, dq_lit_end, g_ansi_c, g_arith_subst, g_array_all,
    g_array_element, g_array_op, g_atom, g_backtick, g_brace, g_case_op, g_close, g_cmd_subst,
    g_dollar, g_dq_atom, g_dq_atoms, g_escape, g_indirect, g_length, g_lit, g_nested, g_one,
    g_operand, g_param, g_param_op, g_param_subst, g_part, g_parts, g_procsub, g_range, g_replace,
    g_replace_with, g_simple_param, g_squoted, g_substring, g_transform, g_word, g_word_op,
    is_dq_plain, is_plain, lit_end, replace_op_at, replace_subst, subst, word_end, word_op_at,
    word_subst, ReplaceOp,
};
use crate::grammar::{Parsed, St, WordCtx};
use crate::provenance::arith::{lemma_blanks, lemma_g_arith, lemma_name_end};
use crate::provenance::commands::lemma_g_list;
use crate::provenance::{
    atom_from, atoms_from, cmds_from, lemma_atoms_push, lemma_cmds_from_part, lemma_parts_push,
    lemma_within, param_from, parts_from, within, word_from, word_part_from,
};
use crate::text::{
    byte_at, is_name_start, lemma_run_end, name_end, run_end, squote_end, ByteClass, DQUOTE, SQUOTE,
};

verus! {

// ----- where literal text ends -----

pub proof fn lemma_lit_end(b: Seq<u8>, p: int, ctx: WordCtx)
    requires
        0 <= p <= b.len(),
    ensures
        p <= lit_end(b, p, ctx) <= b.len(),
    decreases b.len() - p,
{
    if p < b.len() && is_plain(ctx, b[p]) {
        lemma_lit_end(b, p + 1, ctx);
    }
}

pub proof fn lemma_dq_lit_end(b: Seq<u8>, p: int, heredoc: bool)
    requires
        0 <= p <= b.len(),
    ensures
        p <= dq_lit_end(b, p, heredoc) <= b.len(),
    decreases b.len() - p,
{
    if p < b.len() && is_dq_plain(heredoc, b[p]) {
        lemma_dq_lit_end(b, p + 1, heredoc);
    }
}

pub proof fn lemma_closing(b: Seq<u8>, p: int, quote: u8)
    requires
        0 <= p <= b.len(),
    ensures
        p <= closing(b, p, quote) <= b.len(),
    decreases b.len() - p,
{
    if p < b.len() && b[p] != quote {
        if b[p] == BACKSLASH && p + 1 < b.len() {
            lemma_closing(b, p + 2, quote);
        } else {
            lemma_closing(b, p + 1, quote);
        }
    }
}

// ----- what a parse must yield -----

/// The outcome of parsing an atom from `p`: it ends in the input, not
/// before `p`, and its texts come from the input.
pub open spec fn atom_ok(r: Parsed<AtomView, int>, b: Seq<u8>, p: int) -> bool {
    r matches Parsed::Done(x, e) ==> p <= e <= b.len() && atom_from(x, b)
}

/// As `atom_ok`, for the atoms inside quotes.
pub open spec fn atoms_ok(r: Parsed<Seq<AtomView>, int>, b: Seq<u8>, p: int) -> bool {
    r matches Parsed::Done(x, e) ==> p <= e <= b.len() && atoms_from(x, b)
}

/// As `atom_ok`, for a part of a word.
pub open spec fn part_ok(r: Parsed<WordPartView, int>, b: Seq<u8>, p: int) -> bool {
    r matches Parsed::Done(x, e) ==> p <= e <= b.len() && word_part_from(x, b)
}

/// As `atom_ok`, for the parts of a word.
pub open spec fn parts_ok(r: Parsed<Seq<WordPartView>, int>, b: Seq<u8>, p: int) -> bool {
    r matches Parsed::Done(x, e) ==> p <= e <= b.len() && parts_from(x, b)
}

/// As `atom_ok`, for a word.
pub open spec fn word_ok(r: Parsed<WordView, int>, b: Seq<u8>, p: int) -> bool {
    r matches Parsed::Done(x, e) ==> p <= e <= b.len() && word_from(x, b)
}

/// As `atom_ok`, for an operand.
pub open spec fn operand_ok(r: Parsed<Option<WordView>, int>, b: Seq<u8>, p: int) -> bool {
    r matches Parsed::Done(x, e) ==> p <= e <= b.len() && (x matches Some(w) ==> word_from(w, b))
}

/// As `atom_ok`, for nested commands.
pub open spec fn nested_ok(r: Parsed<Seq<CmdView>, int>, b: Seq<u8>, p: int) -> bool {
    r matches Parsed::Done(x, e) ==> p <= e <= b.len() && cmds_from(x, b)
}

// ----- words -----

#[verifier::spinoff_prover]
pub proof fn lemma_g_word(b: Seq<u8>, p: int, d: nat, ctx: WordCtx)
    requires
        0 <= p <= b.len(),
    ensures
        word_ok(g_word(b, p, d, ctx), b, p),
    decreases d, 70int, b.len() - p,
{
    lemma_g_parts(b, p, d, ctx, Seq::empty());
}

#[verifier::spinoff_prover]
proof fn lemma_g_parts(b: Seq<u8>, p: int, d: nat, ctx: WordCtx, acc: Seq<WordPartView>)
    requires
        0 <= p <= b.len(),
        parts_from(acc, b),
    ensures
        parts_ok(g_parts(b, p, d, ctx, acc), b, p),
    decreases d, 69int, b.len() - p,
{
    if !word_end(b, p, ctx) {
        lemma_g_part(b, p, d, ctx, acc.len() == 0);
        if let Parsed::Done(part, t2) = g_part(b, p, d, ctx, acc.len() == 0) {
            lemma_parts_push(acc, part, b);
            if p < t2 <= b.len() {
                lemma_g_parts(b, t2, d, ctx, acc.push(part));
            }
        }
    }
}

#[verifier::spinoff_prover]
proof fn lemma_g_part(b: Seq<u8>, p: int, d: nat, ctx: WordCtx, first: bool)
    requires
        0 <= p < b.len(),
    ensures
        part_ok(g_part(b, p, d, ctx, first), b, p),
    decreases d, 68int, b.len() - p,
{
    reveal(g_squoted);
    let c = byte_at(b, p);
    if c == SQUOTE {
        lemma_run_end(b, p + 1, ByteClass::NotSquote);
        if squote_end(b, p + 1) < b.len() {
            lemma_within(b, p + 1, squote_end(b, p + 1));
        }
    } else if c == DQUOTE {
        lemma_g_dq_atoms(b, p + 1, d, false, Seq::empty());
    } else {
        lemma_g_atom(b, p, d, ctx, first);
    }
}

#[verifier::spinoff_prover]
pub proof fn lemma_g_dq_atoms(b: Seq<u8>, p: int, d: nat, heredoc: bool, acc: Seq<AtomView>)
    requires
        0 <= p <= b.len(),
        atoms_from(acc, b),
    ensures
        atoms_ok(g_dq_atoms(b, p, d, heredoc, acc), b, p),
    decreases d, 67int, b.len() - p,
{
    if p < b.len() && !(byte_at(b, p) == DQUOTE && !heredoc) {
        lemma_g_dq_atom(b, p, d, heredoc);
        if let Parsed::Done(atom, t2) = g_dq_atom(b, p, d, heredoc) {
            lemma_atoms_push(acc, atom, b);
            if p < t2 <= b.len() {
                lemma_g_dq_atoms(b, t2, d, heredoc, acc.push(atom));
            }
        }
    }
}

#[verifier::spinoff_prover]
proof fn lemma_g_dq_atom(b: Seq<u8>, p: int, d: nat, heredoc: bool)
    requires
        0 <= p < b.len(),
    ensures
        atom_ok(g_dq_atom(b, p, d, heredoc), b, p),
    decreases d, 66int, b.len() - p,
{
    reveal(g_lit);
    let c = byte_at(b, p);
    if c == BACKSLASH && p + 1 < b.len() && dq_escapable(byte_at(b, p + 1)) {
        lemma_within(b, p + 1, p + 2);
    } else if c == DOLLAR {
        lemma_g_dollar(b, p, d, true);
    } else if c == BACKTICK {
        lemma_g_backtick(b, p, d);
    } else {
        lemma_dq_lit_end(b, p + 1, heredoc);
        lemma_within(b, p, dq_lit_end(b, p + 1, heredoc));
    }
}

/// Literal text from the input is from the input.
proof fn lemma_g_lit(b: Seq<u8>, p: int, e: int)
    requires
        0 <= p <= e <= b.len(),
    ensures
        atom_ok(g_lit(b, p, e), b, p),
{
    reveal(g_lit);
    lemma_within(b, p, e);
}

#[verifier::spinoff_prover]
proof fn lemma_g_escape(b: Seq<u8>, p: int)
    requires
        0 <= p < b.len(),
    ensures
        atom_ok(g_escape(b, p), b, p),
{
    reveal(g_escape);
    if p + 1 < b.len() {
        lemma_run_end(b, p + 2, ByteClass::Continuation);
        lemma_within(b, p + 1, char_end(b, p + 1));
    } else {
        lemma_g_lit(b, p, p + 1);
    }
}

#[verifier::spinoff_prover]
proof fn lemma_g_brace(b: Seq<u8>, p: int)
    requires
        0 <= p < b.len(),
    ensures
        atom_ok(g_brace(b, p), b, p),
{
    reveal(g_brace);
    reveal(brace_range);
    let e1 = run_end(b, p + 1, ByteClass::RangeChar);
    lemma_run_end(b, p + 1, ByteClass::RangeChar);
    if p + 1 < e1 && byte_at(b, e1) == 0x2e && byte_at(b, e1 + 1) == 0x2e {
        let e2 = run_end(b, e1 + 2, ByteClass::RangeChar);
        lemma_run_end(b, e1 + 2, ByteClass::RangeChar);
        lemma_within(b, p + 1, e1);
        lemma_within(b, e1 + 2, e2);
        if byte_at(b, e2) == 0x2e && byte_at(b, e2 + 1) == 0x2e {
            let e3 = run_end(b, e2 + 2, ByteClass::RangeChar);
            lemma_run_end(b, e2 + 2, ByteClass::RangeChar);
            lemma_within(b, e2 + 2, e3);
        }
    }
    lemma_g_lit(b, p, p + 1);
}

#[verifier::spinoff_prover]
proof fn lemma_g_atom(b: Seq<u8>, p: int, d: nat, ctx: WordCtx, first: bool)
    requires
        0 <= p < b.len(),
    ensures
        atom_ok(g_atom(b, p, d, ctx, first), b, p),
    decreases d, 65int, b.len() - p,
{
    reveal(g_one);
    let c = byte_at(b, p);
    if c == BACKSLASH {
        lemma_g_escape(b, p);
    } else if c == DOLLAR {
        lemma_g_dollar(b, p, d, false);
    } else if c == BACKTICK {
        lemma_g_backtick(b, p, d);
    } else if c == LT && byte_at(b, p + 1) == LPAREN && ctx is Command {
        lemma_g_procsub(b, p + 2, d);
    } else if c == STAR || c == QUESTION || c == LBRACKET || c == RBRACKET || (c == TILDE
        && first) {
    } else if c == LBRACE {
        lemma_g_brace(b, p);
    } else {
        lemma_lit_end(b, p + 1, ctx);
        lemma_g_lit(b, p, lit_end(b, p + 1, ctx));
    }
}

#[verifier::spinoff_prover]
proof fn lemma_g_procsub(b: Seq<u8>, p: int, d: nat)
    requires
        0 <= p <= b.len(),
    ensures
        atom_ok(g_procsub(b, p, d), b, p),
    decreases d, 60int, b.len() - p,
{
    lemma_g_nested(b, p, d);
}

#[verifier::spinoff_prover]
proof fn lemma_g_cmd_subst(b: Seq<u8>, p: int, d: nat)
    requires
        0 <= p <= b.len(),
    ensures
        atom_ok(g_cmd_subst(b, p, d), b, p),
    decreases d, 60int, b.len() - p,
{
    lemma_g_nested(b, p, d);
}

// ----- expansions -----

#[verifier::spinoff_prover]
proof fn lemma_g_dollar(b: Seq<u8>, p: int, d: nat, quoted: bool)
    requires
        0 <= p < b.len(),
    ensures
        atom_ok(g_dollar(b, p, d, quoted), b, p),
    decreases d, 64int, b.len() - p,
{
    let n = byte_at(b, p + 1);
    if n == LPAREN && byte_at(b, p + 2) == LPAREN {
        lemma_g_arith_subst(b, p + 3, d);
    } else if n == LPAREN {
        lemma_g_cmd_subst(b, p + 2, d);
    } else if n == LBRACE {
        lemma_g_param_subst(b, p + 2, d);
    } else if n == SQUOTE && !quoted {
        lemma_g_ansi_c(b, p + 2);
    } else {
        lemma_g_simple_param(b, p);
    }
}

#[verifier::spinoff_prover]
proof fn lemma_g_ansi_c(b: Seq<u8>, p: int)
    requires
        0 <= p <= b.len(),
    ensures
        atom_ok(g_ansi_c(b, p), b, p),
{
    reveal(g_ansi_c);
    lemma_closing(b, p, SQUOTE);
    lemma_within(b, p, closing(b, p, SQUOTE));
}

#[verifier::spinoff_prover]
proof fn lemma_g_simple_param(b: Seq<u8>, p: int)
    requires
        0 <= p < b.len(),
    ensures
        atom_ok(g_simple_param(b, p), b, p),
{
    reveal(g_simple_param);
    let n = byte_at(b, p + 1);
    if is_name_start(n) {
        lemma_name_end(b, p + 1);
        lemma_within(b, p + 1, name_end(b, p + 1));
    }
    lemma_g_lit(b, p, p + 1);
}

#[verifier::spinoff_prover]
proof fn lemma_g_nested(b: Seq<u8>, p: int, d: nat)
    requires
        0 <= p <= b.len(),
    ensures
        nested_ok(g_nested(b, p, d), b, p),
    decreases d, 59int, b.len() - p,
{
    if d > 0 {
        lemma_g_list(b, St { pos: p, resume: 0 }, (d - 1) as nat);
    }
}

#[verifier::spinoff_prover]
proof fn lemma_g_backtick(b: Seq<u8>, p: int, d: nat)
    requires
        0 <= p < b.len(),
    ensures
        atom_ok(g_backtick(b, p, d), b, p),
    decreases d, 59int, b.len() - p,
{
    let e = closing(b, p + 1, BACKTICK);
    lemma_closing(b, p + 1, BACKTICK);
    if p + 1 <= e < b.len() && d > 0 {
        let inner = b.subrange(p + 1, e);
        lemma_within(b, p + 1, e);
        lemma_g_list(inner, St { pos: 0, resume: 0 }, (d - 1) as nat);
        if let Parsed::Done(cmds, st) = g_list(inner, St { pos: 0, resume: 0 }, (d - 1) as nat) {
            lemma_cmds_from_part(cmds, inner, b);
        }
    }
}

#[verifier::spinoff_prover]
proof fn lemma_g_arith_subst(b: Seq<u8>, p: int, d: nat)
    requires
        0 <= p <= b.len(),
    ensures
        atom_ok(g_arith_subst(b, p, d), b, p),
    decreases d, 59int, b.len() - p,
{
    lemma_blanks(b, p);
    lemma_g_arith(b, p, d);
}

// ----- parameter substitution -----

#[verifier::spinoff_prover]
proof fn lemma_g_param(b: Seq<u8>, p: int)
    requires
        0 <= p <= b.len(),
    ensures
        g_param(b, p) matches Some((param, e)) ==> p <= e <= b.len() && param_from(param, b),
{
    reveal(g_param);
    lemma_name_end(b, p);
    lemma_within(b, p, name_end(b, p));
    lemma_run_end(b, p, ByteClass::Digit);
}

proof fn lemma_g_close(b: Seq<u8>, p: int, x: AtomView)
    requires
        0 <= p <= b.len(),
        atom_from(x, b),
    ensures
        atom_ok(g_close(b, p, x), b, p),
{
    reveal(g_close);
}

#[verifier::spinoff_prover]
proof fn lemma_g_param_subst(b: Seq<u8>, p: int, d: nat)
    requires
        0 <= p <= b.len(),
    ensures
        atom_ok(g_param_subst(b, p, d), b, p),
    decreases d, 63int, b.len() - p,
{
    let c = byte_at(b, p);
    let n = byte_at(b, p + 1);
    if c == HASH && n != RBRACE {
        lemma_g_length(b, p + 1);
    } else if c == BANG && n != RBRACE {
        lemma_g_indirect(b, p + 1);
    } else {
        lemma_g_param(b, p);
        if let Some((param, t2)) = g_param(b, p) {
            lemma_g_param_op(b, t2, d, param);
        }
    }
}

#[verifier::spinoff_prover]
proof fn lemma_g_length(b: Seq<u8>, p: int)
    requires
        0 <= p <= b.len(),
    ensures
        atom_ok(g_length(b, p), b, p),
{
    reveal(g_length);
    let e = name_end(b, p);
    lemma_name_end(b, p);
    if e > p && byte_at(b, e) == LBRACKET && (byte_at(b, e + 1) == AT || byte_at(b, e + 1) == STAR)
        && byte_at(b, e + 2) == RBRACKET {
        lemma_within(b, p, e);
        lemma_g_close(b, e + 3, subst(SubstView::ArrayLen(b.subrange(p, e))));
    } else {
        lemma_g_param(b, p);
        if let Some((param, t2)) = g_param(b, p) {
            lemma_g_close(b, t2, subst(SubstView::Len(param)));
        }
    }
}

#[verifier::spinoff_prover]
proof fn lemma_g_indirect(b: Seq<u8>, p: int)
    requires
        0 <= p <= b.len(),
    ensures
        atom_ok(g_indirect(b, p), b, p),
{
    reveal(g_indirect);
    let e = name_end(b, p);
    lemma_name_end(b, p);
    if e > p {
        lemma_within(b, p, e);
        if byte_at(b, e) == STAR || byte_at(b, e) == AT {
            lemma_g_close(b, e + 1, subst(SubstView::PrefixList(b.subrange(p, e))));
        } else {
            lemma_g_close(b, e, subst(SubstView::Indirect(b.subrange(p, e))));
        }
    }
}

#[verifier::spinoff_prover]
proof fn lemma_g_operand(b: Seq<u8>, p: int, d: nat, ctx: WordCtx)
    requires
        0 <= p <= b.len(),
    ensures
        operand_ok(g_operand(b, p, d, ctx), b, p),
    decreases d, 58int, b.len() - p,
{
    if !word_end(b, p, ctx) && d > 0 {
        lemma_g_word(b, p, (d - 1) as nat, ctx);
    }
}

#[verifier::spinoff_prover]
proof fn lemma_g_range(b: Seq<u8>, p: int)
    requires
        0 <= p <= b.len(),
    ensures
        g_range(b, p) matches Parsed::Done((offset, length), e) ==> p <= e <= b.len() && within(
            offset,
            b,
        ) && (length matches Some(t) ==> within(t, b)),
{
    reveal(g_range);
    let e1 = run_end(b, p, ByteClass::OffsetChar);
    lemma_run_end(b, p, ByteClass::OffsetChar);
    lemma_within(b, p, e1);
    if byte_at(b, e1) == COLON {
        let e2 = run_end(b, e1 + 1, ByteClass::NotRbrace);
        lemma_run_end(b, e1 + 1, ByteClass::NotRbrace);
        lemma_within(b, e1 + 1, e2);
    }
}

#[verifier::spinoff_prover]
proof fn lemma_g_param_op(b: Seq<u8>, p: int, d: nat, param: ParamView)
    requires
        0 <= p <= b.len(),
        param_from(param, b),
    ensures
        atom_ok(g_param_op(b, p, d, param), b, p),
    decreases d, 62int, b.len() - p,
{
    let c = byte_at(b, p);
    if c == RBRACE {
    } else if c == LBRACKET && param is Var {
        lemma_g_array_op(b, p + 1, d, param->Var_0);
    } else if word_op_at(b, p) is Some {
        lemma_g_word_op(b, p, d, param);
    } else if c == COLON {
        lemma_g_substring(b, p + 1, param);
    } else if c == SLASH {
        lemma_g_replace(b, p, d, param);
    } else if c == CARET || c == COMMA {
        lemma_g_case_op(b, p, param);
    } else if c == AT && param is Var {
        lemma_g_transform(b, p, param->Var_0);
    }
}

#[verifier::spinoff_prover]
proof fn lemma_g_word_op(b: Seq<u8>, p: int, d: nat, param: ParamView)
    requires
        0 <= p <= b.len(),
        param_from(param, b),
    ensures
        atom_ok(g_word_op(b, p, d, param), b, p),
    decreases d, 61int, b.len() - p,
{
    reveal(word_op_at);
    if let Some((op, k)) = word_op_at(b, p) {
        lemma_g_operand(b, p + k, d, WordCtx::Operand);
        if let Parsed::Done(w, e) = g_operand(b, p + k, d, WordCtx::Operand) {
            lemma_g_close(b, e, subst(word_subst(op, param, w)));
        }
    }
}

#[verifier::spinoff_prover]
proof fn lemma_g_substring(b: Seq<u8>, p: int, param: ParamView)
    requires
        0 <= p <= b.len(),
        param_from(param, b),
    ensures
        atom_ok(g_substring(b, p, param), b, p),
{
    reveal(g_substring);
    lemma_g_range(b, p);
}

#[verifier::spinoff_prover]
proof fn lemma_g_replace(b: Seq<u8>, p: int, d: nat, param: ParamView)
    requires
        0 <= p < b.len(),
        param_from(param, b),
    ensures
        atom_ok(g_replace(b, p, d, param), b, p),
    decreases d, 61int, b.len() - p,
{
    let (op, k) = replace_op_at(b, p);
    lemma_g_operand(b, p + k, d, WordCtx::Pattern);
    if let Parsed::Done(pattern, e) = g_operand(b, p + k, d, WordCtx::Pattern) {
        lemma_g_replace_with(b, e, d, param, op, pattern);
    }
}

#[verifier::spinoff_prover]
proof fn lemma_g_replace_with(
    b: Seq<u8>,
    p: int,
    d: nat,
    param: ParamView,
    op: ReplaceOp,
    pattern: Option<WordView>,
)
    requires
        0 <= p <= b.len(),
        param_from(param, b),
        pattern matches Some(w) ==> word_from(w, b),
    ensures
        atom_ok(g_replace_with(b, p, d, param, op, pattern), b, p),
    decreases d, 60int, b.len() - p,
{
    if byte_at(b, p) == SLASH {
        lemma_g_operand(b, p + 1, d, WordCtx::Operand);
        if let Parsed::Done(with, e) = g_operand(b, p + 1, d, WordCtx::Operand) {
            lemma_g_close(b, e, subst(replace_subst(op, param, pattern, with)));
        }
    } else {
        lemma_g_close(b, p, subst(replace_subst(op, param, pattern, None)));
    }
}

#[verifier::spinoff_prover]
proof fn lemma_g_case_op(b: Seq<u8>, p: int, param: ParamView)
    requires
        0 <= p < b.len(),
        param_from(param, b),
        byte_at(b, p) == CARET || byte_at(b, p) == COMMA,
    ensures
        atom_ok(g_case_op(b, p, param), b, p),
{
    reveal(g_case_op);
    let c = byte_at(b, p);
    let all = byte_at(b, p + 1) == c;
    let e = if all {
        p + 2
    } else {
        p + 1
    };
    lemma_g_close(b, e, subst(SubstView::Upper(all, param)));
    lemma_g_close(b, e, subst(SubstView::Lower(all, param)));
}

#[verifier::spinoff_prover]
proof fn lemma_g_transform(b: Seq<u8>, p: int, name: Seq<u8>)
    requires
        0 <= p <= b.len(),
        within(name, b),
    ensures
        atom_ok(g_transform(b, p, name), b, p),
{
    reveal(g_transform);
    let n = byte_at(b, p + 1);
    if is_name_start(n) && n != 0x5f {
        lemma_g_close(b, p + 2, subst(SubstView::Transform(name, n)));
    }
}

#[verifier::spinoff_prover]
proof fn lemma_g_array_op(b: Seq<u8>, p: int, d: nat, name: Seq<u8>)
    requires
        0 <= p <= b.len(),
        within(name, b),
    ensures
        atom_ok(g_array_op(b, p, d, name), b, p),
    decreases d, 61int, b.len() - p,
{
    let c = byte_at(b, p);
    if (c == AT || c == STAR) && byte_at(b, p + 1) == RBRACKET {
        lemma_g_array_all(b, p + 2, name);
    } else {
        lemma_g_array_element(b, p, d, name);
    }
}

#[verifier::spinoff_prover]
proof fn lemma_g_array_all(b: Seq<u8>, p: int, name: Seq<u8>)
    requires
        0 <= p <= b.len(),
        within(name, b),
    ensures
        atom_ok(g_array_all(b, p, name), b, p),
{
    reveal(g_array_all);
    if byte_at(b, p) == COLON {
        lemma_g_range(b, p + 1);
    } else {
        lemma_g_close(b, p, subst(SubstView::ArrayAll(name)));
    }
}

#[verifier::spinoff_prover]
proof fn lemma_g_array_element(b: Seq<u8>, p: int, d: nat, name: Seq<u8>)
    requires
        0 <= p <= b.len(),
        within(name, b),
    ensures
        atom_ok(g_array_element(b, p, d, name), b, p),
    decreases d, 58int, b.len() - p,
{
    if d > 0 {
        lemma_g_word(b, p, (d - 1) as nat, WordCtx::Index);
        if let Parsed::Done(index, e) = g_word(b, p, (d - 1) as nat, WordCtx::Index) {
            if byte_at(b, e) == RBRACKET {
                lemma_g_close(b, e + 1, subst(SubstView::ArrayElement(name, index)));
            }
        }
    }
}

} // verus!
