//! Words: their parts and atoms, parameters and substitutions.

use vstd::prelude::*;
use crate::ast_view::{AtomView, CmdView, ParamView, SubstView, WordPartView, WordView};
use crate::bytes::{
    AT, BACKSLASH, BACKTICK, BANG, CARET, COLON, COMMA, DOLLAR, DOT, EQUALS, HASH, LBRACE, LBRACKET,
    LPAREN, LT, MINUS, NL, PERCENT, PLUS, QUESTION, RBRACE, RBRACKET, RPAREN, SLASH, STAR, TILDE,
};
use crate::grammar::arith::{decimal, g_arith};
use crate::grammar::commands::g_list;
use crate::grammar::{blanks, Parsed, St, too_deep, WordCtx};
use crate::text::{
    byte_at, ByteClass, DQUOTE, is_digit, is_name_start, name_end, run_end, spec_is_meta, SQUOTE,
    squote_end,
};

verus! {

// ----- where words and literal text end -----

/// No word of context `ctx` goes on at `p`.
pub open spec fn word_end(b: Seq<u8>, p: int, ctx: WordCtx) -> bool {
    let c = byte_at(b, p);
    p >= b.len() || match ctx {
        WordCtx::Command => spec_is_meta(c) && !(c == LT && byte_at(b, p + 1) == LPAREN),
        WordCtx::Operand => c == RBRACE,
        WordCtx::Pattern => c == SLASH || c == RBRACE,
        WordCtx::Index => c == RBRACKET,
    }
}

/// The byte goes on a run of literal text in a word of context `ctx`: it
/// neither ends the word nor starts a quote, an expansion or a glob.
pub open spec fn is_plain(ctx: WordCtx, c: u8) -> bool {
    &&& c != SQUOTE && c != DQUOTE && c != BACKSLASH && c != DOLLAR && c != BACKTICK
    &&& c != STAR && c != QUESTION && c != LBRACKET && c != RBRACKET && c != LBRACE
    &&& match ctx {
        WordCtx::Command => !spec_is_meta(c),
        WordCtx::Operand => c != RBRACE,
        WordCtx::Pattern => c != SLASH && c != RBRACE,
        WordCtx::Index => true,
    }
}

/// Where the run of plain bytes that starts at `p` ends.
pub open spec fn lit_end(b: Seq<u8>, p: int, ctx: WordCtx) -> int
    decreases b.len() - p,
{
    if 0 <= p < b.len() && is_plain(ctx, b[p]) {
        lit_end(b, p + 1, ctx)
    } else {
        p
    }
}

/// The byte goes on a run of literal text inside double quotes, or in the
/// body of a heredoc, where `"` is literal too.
pub open spec fn is_dq_plain(heredoc: bool, c: u8) -> bool {
    c != BACKSLASH && c != DOLLAR && c != BACKTICK && (heredoc || c != DQUOTE)
}

/// Where the run of plain quoted bytes that starts at `p` ends.
pub open spec fn dq_lit_end(b: Seq<u8>, p: int, heredoc: bool) -> int
    decreases b.len() - p,
{
    if 0 <= p < b.len() && is_dq_plain(heredoc, b[p]) {
        dq_lit_end(b, p + 1, heredoc)
    } else {
        p
    }
}

/// Index of the first `quote` at or after `p` that no backslash escapes;
/// the end of the input where there is none.
pub open spec fn closing(b: Seq<u8>, p: int, quote: u8) -> int
    decreases b.len() - p,
{
    if 0 <= p < b.len() {
        if b[p] == quote {
            p
        } else if b[p] == BACKSLASH && p + 1 < b.len() {
            closing(b, p + 2, quote)
        } else {
            closing(b, p + 1, quote)
        }
    } else {
        p
    }
}

/// Where the character that starts at `p` ends.
pub open spec fn char_end(b: Seq<u8>, p: int) -> int {
    run_end(b, p + 1, ByteClass::Continuation)
}

// ----- words -----

/// A word: one part or more, with nothing between them.
pub open spec fn g_word(b: Seq<u8>, p: int, d: nat, ctx: WordCtx) -> Parsed<WordView, int>
    decreases d, 70int, b.len() - p,
{
    match g_parts(b, p, d, ctx, Seq::empty()) {
        Parsed::Done(parts, e) => if parts.len() == 0 {
            Parsed::Fail(p, "expected word"@)
        } else if parts.len() == 1 {
            Parsed::Done(WordView::Simple(parts[0]), e)
        } else {
            Parsed::Done(WordView::Concat(parts), e)
        },
        Parsed::Fail(at, msg) => Parsed::Fail(at, msg),
    }
}

/// The parts of a word from `p` on, behind the parts `acc`.
pub open spec fn g_parts(
    b: Seq<u8>,
    p: int,
    d: nat,
    ctx: WordCtx,
    acc: Seq<WordPartView>,
) -> Parsed<Seq<WordPartView>, int>
    decreases d, 69int, b.len() - p,
{
    if word_end(b, p, ctx) {
        Parsed::Done(acc, p)
    } else {
        match g_part(b, p, d, ctx, acc.len() == 0) {
            Parsed::Done(part, t2) => if p < t2 <= b.len() {
                g_parts(b, t2, d, ctx, acc.push(part))
            } else {
                Parsed::Done(acc.push(part), t2)
            },
            Parsed::Fail(at, msg) => Parsed::Fail(at, msg),
        }
    }
}

/// One part of a word: single-quoted text, double-quoted atoms, or an atom.
/// `first` says that the part starts the word.
pub open spec fn g_part(b: Seq<u8>, p: int, d: nat, ctx: WordCtx, first: bool) -> Parsed<
    WordPartView,
    int,
>
    decreases d, 68int, b.len() - p,
{
    let c = byte_at(b, p);
    if c == SQUOTE {
        g_squoted(b, p + 1)
    } else if c == DQUOTE {
        match g_dq_atoms(b, p + 1, d, false, Seq::empty()) {
            Parsed::Done(atoms, e) => Parsed::Done(WordPartView::DQuoted(atoms), e),
            Parsed::Fail(at, msg) => Parsed::Fail(at, msg),
        }
    } else {
        match g_atom(b, p, d, ctx, first) {
            Parsed::Done(atom, e) => Parsed::Done(WordPartView::Bare(atom), e),
            Parsed::Fail(at, msg) => Parsed::Fail(at, msg),
        }
    }
}

/// Single-quoted text from behind its opening quote: every byte up to the
/// next quote is literal.
#[verifier::opaque]
pub open spec fn g_squoted(b: Seq<u8>, p: int) -> Parsed<WordPartView, int> {
    let q = squote_end(b, p);
    if q < b.len() {
        Parsed::Done(WordPartView::SQuoted(b.subrange(p, q)), q + 1)
    } else {
        Parsed::Fail(q, "unterminated single quote"@)
    }
}

/// The atoms inside double quotes from `p` up to the closing quote, or, in
/// the body of a heredoc, up to the end of the body.
pub open spec fn g_dq_atoms(
    b: Seq<u8>,
    p: int,
    d: nat,
    heredoc: bool,
    acc: Seq<AtomView>,
) -> Parsed<Seq<AtomView>, int>
    decreases d, 67int, b.len() - p,
{
    if p >= b.len() {
        if heredoc {
            Parsed::Done(acc, p)
        } else {
            Parsed::Fail(p, "unterminated double quote"@)
        }
    } else if byte_at(b, p) == DQUOTE && !heredoc {
        Parsed::Done(acc, p + 1)
    } else {
        match g_dq_atom(b, p, d, heredoc) {
            Parsed::Done(atom, t2) => if p < t2 <= b.len() {
                g_dq_atoms(b, t2, d, heredoc, acc.push(atom))
            } else {
                Parsed::Fail(t2, "unterminated double quote"@)
            },
            Parsed::Fail(at, msg) => Parsed::Fail(at, msg),
        }
    }
}

/// A backslash inside double quotes escapes only these.
pub open spec fn dq_escapable(c: u8) -> bool {
    c == DOLLAR || c == BACKTICK || c == DQUOTE || c == BACKSLASH || c == NL
}

/// One atom inside double quotes: an escaped character, an expansion, or
/// literal text.
pub open spec fn g_dq_atom(b: Seq<u8>, p: int, d: nat, heredoc: bool) -> Parsed<AtomView, int>
    decreases d, 66int, b.len() - p,
{
    let c = byte_at(b, p);
    if c == BACKSLASH && p + 1 < b.len() && dq_escapable(byte_at(b, p + 1)) {
        Parsed::Done(AtomView::Escaped(b.subrange(p + 1, p + 2)), p + 2)
    } else if c == DOLLAR {
        g_dollar(b, p, d, true)
    } else if c == BACKTICK {
        g_backtick(b, p, d)
    } else {
        g_lit(b, p, dq_lit_end(b, p + 1, heredoc))
    }
}

/// The literal text from `p` to `e`.
#[verifier::opaque]
pub open spec fn g_lit(b: Seq<u8>, p: int, e: int) -> Parsed<AtomView, int> {
    Parsed::Done(AtomView::Lit(b.subrange(p, e)), e)
}

/// The character behind the backslash at `p`, escaped; the backslash
/// itself where the input ends behind it.
#[verifier::opaque]
pub open spec fn g_escape(b: Seq<u8>, p: int) -> Parsed<AtomView, int> {
    if p + 1 < b.len() {
        Parsed::Done(AtomView::Escaped(b.subrange(p + 1, char_end(b, p + 1))), char_end(b, p + 1))
    } else {
        g_lit(b, p, p + 1)
    }
}

/// The atom that one byte is.
#[verifier::opaque]
pub open spec fn g_one(p: int, atom: AtomView) -> Parsed<AtomView, int> {
    Parsed::Done(atom, p + 1)
}

/// `<(commands)` from behind its opening.
pub open spec fn g_procsub(b: Seq<u8>, p: int, d: nat) -> Parsed<AtomView, int>
    decreases d, 60int, b.len() - p,
{
    match g_nested(b, p, d) {
        Parsed::Done(cmds, e) => Parsed::Done(AtomView::ProcSubIn(cmds), e),
        Parsed::Fail(at, msg) => Parsed::Fail(at, msg),
    }
}

/// `$(commands)` from behind its opening.
pub open spec fn g_cmd_subst(b: Seq<u8>, p: int, d: nat) -> Parsed<AtomView, int>
    decreases d, 60int, b.len() - p,
{
    match g_nested(b, p, d) {
        Parsed::Done(cmds, e) => Parsed::Done(subst(SubstView::Cmd(cmds)), e),
        Parsed::Fail(at, msg) => Parsed::Fail(at, msg),
    }
}

/// A brace range at `p`, or else the `{` there as literal text.
#[verifier::opaque]
pub open spec fn g_brace(b: Seq<u8>, p: int) -> Parsed<AtomView, int> {
    match brace_range(b, p) {
        Some((atom, e)) => Parsed::Done(atom, e),
        None => g_lit(b, p, p + 1),
    }
}

/// One atom outside quotes.
pub open spec fn g_atom(b: Seq<u8>, p: int, d: nat, ctx: WordCtx, first: bool) -> Parsed<
    AtomView,
    int,
>
    decreases d, 65int, b.len() - p,
{
    let c = byte_at(b, p);
    if c == BACKSLASH {
        g_escape(b, p)
    } else if c == DOLLAR {
        g_dollar(b, p, d, false)
    } else if c == BACKTICK {
        g_backtick(b, p, d)
    } else if c == LT && byte_at(b, p + 1) == LPAREN && ctx is Command {
        g_procsub(b, p + 2, d)
    } else if c == STAR {
        g_one(p, AtomView::Star)
    } else if c == QUESTION {
        g_one(p, AtomView::Question)
    } else if c == LBRACKET {
        g_one(p, AtomView::SquareOpen)
    } else if c == RBRACKET {
        g_one(p, AtomView::SquareClose)
    } else if c == TILDE && first {
        g_one(p, AtomView::Tilde)
    } else if c == LBRACE {
        g_brace(b, p)
    } else {
        g_lit(b, p, lit_end(b, p + 1, ctx))
    }
}

/// The brace range `{start..end}` or `{start..end..step}` that stands at
/// `p`, and where it ends. The three are runs of letters, digits, `_`, `-`.
#[verifier::opaque]
pub open spec fn brace_range(b: Seq<u8>, p: int) -> Option<(AtomView, int)> {
    let e1 = run_end(b, p + 1, ByteClass::RangeChar);
    let e2 = run_end(b, e1 + 2, ByteClass::RangeChar);
    let e3 = run_end(b, e2 + 2, ByteClass::RangeChar);
    if p + 1 < e1 && byte_at(b, e1) == DOT && byte_at(b, e1 + 1) == DOT && e1 + 2 < e2 {
        if byte_at(b, e2) == RBRACE {
            Some(
                (
                    AtomView::BraceRange {
                        start: b.subrange(p + 1, e1),
                        end: b.subrange(e1 + 2, e2),
                        step: None,
                    },
                    e2 + 1,
                ),
            )
        } else if byte_at(b, e2) == DOT && byte_at(b, e2 + 1) == DOT && e2 + 2 < e3 && byte_at(
            b,
            e3,
        ) == RBRACE {
            Some(
                (
                    AtomView::BraceRange {
                        start: b.subrange(p + 1, e1),
                        end: b.subrange(e1 + 2, e2),
                        step: Some(b.subrange(e2 + 2, e3)),
                    },
                    e3 + 1,
                ),
            )
        } else {
            None
        }
    } else {
        None
    }
}

// ----- expansions -----

/// The parameter that one character names behind `$` or `${`.
pub open spec fn special_param(c: u8) -> Option<ParamView> {
    if c == AT {
        Some(ParamView::At)
    } else if c == STAR {
        Some(ParamView::Star)
    } else if c == HASH {
        Some(ParamView::Pound)
    } else if c == QUESTION {
        Some(ParamView::Status)
    } else if c == DOLLAR {
        Some(ParamView::Pid)
    } else if c == BANG {
        Some(ParamView::Bang)
    } else if c == MINUS {
        Some(ParamView::Dash)
    } else {
        None
    }
}

/// What starts with the `$` at `p`: a substitution, a parameter, ANSI-C
/// quoted text outside double quotes, or else the `$` itself.
pub open spec fn g_dollar(b: Seq<u8>, p: int, d: nat, quoted: bool) -> Parsed<AtomView, int>
    decreases d, 64int, b.len() - p,
{
    let n = byte_at(b, p + 1);
    if n == LPAREN && byte_at(b, p + 2) == LPAREN {
        g_arith_subst(b, p + 3, d)
    } else if n == LPAREN {
        g_cmd_subst(b, p + 2, d)
    } else if n == LBRACE {
        g_param_subst(b, p + 2, d)
    } else if n == SQUOTE && !quoted {
        g_ansi_c(b, p + 2)
    } else {
        g_simple_param(b, p)
    }
}

/// ANSI-C quoted text from behind `$'`: up to the next quote that no
/// backslash escapes, as it is written.
#[verifier::opaque]
pub open spec fn g_ansi_c(b: Seq<u8>, p: int) -> Parsed<AtomView, int> {
    let e = closing(b, p, SQUOTE);
    if e < b.len() {
        Parsed::Done(AtomView::AnsiCQuoted(b.subrange(p, e)), e + 1)
    } else {
        Parsed::Fail(e, "unterminated single quote"@)
    }
}

/// `$name`, `$1`, `$?` and the like; the `$` itself where no parameter
/// follows it.
#[verifier::opaque]
pub open spec fn g_simple_param(b: Seq<u8>, p: int) -> Parsed<AtomView, int> {
    let n = byte_at(b, p + 1);
    if is_name_start(n) {
        Parsed::Done(
            AtomView::Param(ParamView::Var(b.subrange(p + 1, name_end(b, p + 1)))),
            name_end(b, p + 1),
        )
    } else if is_digit(n) {
        Parsed::Done(AtomView::Param(ParamView::Positional((n - 0x30) as u32)), p + 2)
    } else {
        match special_param(n) {
            Some(param) => Parsed::Done(AtomView::Param(param), p + 2),
            None => g_lit(b, p, p + 1),
        }
    }
}

/// The commands of a substitution whose opening has been read, up to and
/// with the closing `)`. They are one level deeper than the word.
pub open spec fn g_nested(b: Seq<u8>, p: int, d: nat) -> Parsed<Seq<CmdView>, int>
    decreases d, 59int, b.len() - p,
{
    if d == 0 {
        Parsed::Fail(p, too_deep())
    } else {
        match g_list(b, St { pos: p, resume: 0 }, (d - 1) as nat) {
            Parsed::Done(cmds, st) => if byte_at(b, st.pos) == RPAREN {
                Parsed::Done(cmds, st.pos + 1)
            } else {
                Parsed::Fail(st.pos, "expected ')'"@)
            },
            Parsed::Fail(at, msg) => Parsed::Fail(at, msg),
        }
    }
}

/// The commands between two backquotes, the first of which is at `p`. They
/// are read as a text of their own; the places of its errors are counted
/// in the whole input.
pub open spec fn g_backtick(b: Seq<u8>, p: int, d: nat) -> Parsed<AtomView, int>
    decreases d, 59int, b.len() - p,
{
    let e = closing(b, p + 1, BACKTICK);
    if !(p + 1 <= e < b.len()) {
        Parsed::Fail(e, "unterminated backquote"@)
    } else if d == 0 {
        Parsed::Fail(p, too_deep())
    } else {
        let inner = b.subrange(p + 1, e);
        match g_list(inner, St { pos: 0, resume: 0 }, (d - 1) as nat) {
            Parsed::Done(cmds, st) => if st.pos >= inner.len() {
                Parsed::Done(AtomView::Subst(Box::new(SubstView::Cmd(cmds))), e + 1)
            } else {
                Parsed::Fail(p + 1 + st.pos, "unexpected token"@)
            },
            Parsed::Fail(at, msg) => Parsed::Fail(p + 1 + at, msg),
        }
    }
}

/// `$((expr))` from behind its opening: an expression, or none, and `))`.
pub open spec fn g_arith_subst(b: Seq<u8>, p: int, d: nat) -> Parsed<AtomView, int>
    decreases d, 59int, b.len() - p,
{
    let q = blanks(b, p);
    if byte_at(b, q) == RPAREN && byte_at(b, q + 1) == RPAREN {
        Parsed::Done(AtomView::Subst(Box::new(SubstView::Arith(None))), q + 2)
    } else {
        match g_arith(b, p, d) {
            Parsed::Done(x, e) => if byte_at(b, e) == RPAREN && byte_at(b, e + 1) == RPAREN {
                Parsed::Done(AtomView::Subst(Box::new(SubstView::Arith(Some(x)))), e + 2)
            } else {
                Parsed::Fail(e, "expected '))'"@)
            },
            Parsed::Fail(at, msg) => Parsed::Fail(at, msg),
        }
    }
}

// ----- parameter substitution -----

/// The parameter named at `p` inside `${}`: a name, a number, or one of
/// the special characters. With where it ends.
#[verifier::opaque]
pub open spec fn g_param(b: Seq<u8>, p: int) -> Option<(ParamView, int)> {
    let e = name_end(b, p);
    let n = run_end(b, p, ByteClass::Digit);
    if e > p {
        Some((ParamView::Var(b.subrange(p, e)), e))
    } else if n > p {
        if decimal(b.subrange(p, n)) <= u32::MAX {
            Some((ParamView::Positional(decimal(b.subrange(p, n)) as u32), n))
        } else {
            None
        }
    } else {
        match special_param(byte_at(b, p)) {
            Some(param) => Some((param, p + 1)),
            None => None,
        }
    }
}

/// The atom `x` if `}` stands at `p`.
#[verifier::opaque]
pub open spec fn g_close(b: Seq<u8>, p: int, x: AtomView) -> Parsed<AtomView, int> {
    if byte_at(b, p) == RBRACE {
        Parsed::Done(x, p + 1)
    } else {
        Parsed::Fail(p, "expected '}'"@)
    }
}

/// The atom of a substitution.
pub open spec fn subst(s: SubstView) -> AtomView {
    AtomView::Subst(Box::new(s))
}

/// `${...}` from behind its opening. `#` and `!` in front ask for a length
/// or an indirection; else a parameter comes first and an operator may
/// follow it.
pub open spec fn g_param_subst(b: Seq<u8>, p: int, d: nat) -> Parsed<AtomView, int>
    decreases d, 63int, b.len() - p,
{
    let c = byte_at(b, p);
    let n = byte_at(b, p + 1);
    if c == HASH && n != RBRACE {
        g_length(b, p + 1)
    } else if c == BANG && n != RBRACE {
        g_indirect(b, p + 1)
    } else {
        match g_param(b, p) {
            Some((param, e2)) => g_param_op(b, e2, d, param),
            None => Parsed::Fail(p, "expected parameter name"@),
        }
    }
}

/// `${#...}` from behind the `#`: the length of an array, where `name[@]`
/// or `name[*]` follows, else the length of a parameter.
#[verifier::opaque]
pub open spec fn g_length(b: Seq<u8>, p: int) -> Parsed<AtomView, int> {
    let e = name_end(b, p);
    if e > p && byte_at(b, e) == LBRACKET && (byte_at(b, e + 1) == AT || byte_at(b, e + 1) == STAR)
        && byte_at(b, e + 2) == RBRACKET {
        g_close(b, e + 3, subst(SubstView::ArrayLen(b.subrange(p, e))))
    } else {
        match g_param(b, p) {
            Some((param, e2)) => g_close(b, e2, subst(SubstView::Len(param))),
            None => Parsed::Fail(p, "expected parameter name"@),
        }
    }
}

/// `${!...}` from behind the `!`: the variable that a variable names, or,
/// with `*` or `@` behind the name, the variables whose names start so.
#[verifier::opaque]
pub open spec fn g_indirect(b: Seq<u8>, p: int) -> Parsed<AtomView, int> {
    let e = name_end(b, p);
    if e > p {
        if byte_at(b, e) == STAR || byte_at(b, e) == AT {
            g_close(b, e + 1, subst(SubstView::PrefixList(b.subrange(p, e))))
        } else {
            g_close(b, e, subst(SubstView::Indirect(b.subrange(p, e))))
        }
    } else {
        Parsed::Fail(p, "expected parameter name"@)
    }
}

/// The operand of an operator: a word up to what ends it, or none.
pub open spec fn g_operand(b: Seq<u8>, p: int, d: nat, ctx: WordCtx) -> Parsed<
    Option<WordView>,
    int,
>
    decreases d, 58int, b.len() - p,
{
    if word_end(b, p, ctx) {
        Parsed::Done(None, p)
    } else if d == 0 {
        Parsed::Fail(p, too_deep())
    } else {
        match g_word(b, p, (d - 1) as nat, ctx) {
            Parsed::Done(w, e) => Parsed::Done(Some(w), e),
            Parsed::Fail(at, msg) => Parsed::Fail(at, msg),
        }
    }
}

/// The operators that take one word.
#[derive(Clone, Copy, Debug)]
pub enum WordOp {
    Default,
    Assign,
    Error,
    Alt,
    TrimSuffixSmall,
    TrimSuffixLarge,
    TrimPrefixSmall,
    TrimPrefixLarge,
}

/// The operators that take a pattern and a replacement.
#[derive(Clone, Copy, Debug)]
pub enum ReplaceOp {
    First,
    All,
    Prefix,
    Suffix,
}

/// The operator with one word that stands at `p`, and its length. The
/// longer spelling is tried first: `:-` before `-`, `##` before `#`.
#[verifier::opaque]
pub open spec fn word_op_at(b: Seq<u8>, p: int) -> Option<(WordOp, int)> {
    let c = byte_at(b, p);
    let n = byte_at(b, p + 1);
    let k: int = if c == COLON {
        2
    } else {
        1
    };
    let o = if c == COLON {
        n
    } else {
        c
    };
    if o == MINUS {
        Some((WordOp::Default, k))
    } else if o == EQUALS {
        Some((WordOp::Assign, k))
    } else if o == QUESTION {
        Some((WordOp::Error, k))
    } else if o == PLUS {
        Some((WordOp::Alt, k))
    } else if c == HASH {
        if n == HASH {
            Some((WordOp::TrimPrefixLarge, 2))
        } else {
            Some((WordOp::TrimPrefixSmall, 1))
        }
    } else if c == PERCENT {
        if n == PERCENT {
            Some((WordOp::TrimSuffixLarge, 2))
        } else {
            Some((WordOp::TrimSuffixSmall, 1))
        }
    } else {
        None
    }
}

/// The substitution that applies `op` to `param` and `word`.
pub open spec fn word_subst(op: WordOp, param: ParamView, word: Option<WordView>) -> SubstView {
    match op {
        WordOp::Default => SubstView::Default(param, word),
        WordOp::Assign => SubstView::Assign(param, word),
        WordOp::Error => SubstView::Error(param, word),
        WordOp::Alt => SubstView::Alt(param, word),
        WordOp::TrimSuffixSmall => SubstView::TrimSuffixSmall(param, word),
        WordOp::TrimSuffixLarge => SubstView::TrimSuffixLarge(param, word),
        WordOp::TrimPrefixSmall => SubstView::TrimPrefixSmall(param, word),
        WordOp::TrimPrefixLarge => SubstView::TrimPrefixLarge(param, word),
    }
}

/// The replacement operator at `p`, where a `/` stands, and its length.
pub open spec fn replace_op_at(b: Seq<u8>, p: int) -> (ReplaceOp, int) {
    let n = byte_at(b, p + 1);
    if n == SLASH {
        (ReplaceOp::All, 2)
    } else if n == HASH {
        (ReplaceOp::Prefix, 2)
    } else if n == PERCENT {
        (ReplaceOp::Suffix, 2)
    } else {
        (ReplaceOp::First, 1)
    }
}

/// The substitution that replaces, in `param`, `pattern` as `op` says.
pub open spec fn replace_subst(
    op: ReplaceOp,
    param: ParamView,
    pattern: Option<WordView>,
    with: Option<WordView>,
) -> SubstView {
    match op {
        ReplaceOp::First => SubstView::Replace(param, pattern, with),
        ReplaceOp::All => SubstView::ReplaceAll(param, pattern, with),
        ReplaceOp::Prefix => SubstView::ReplacePrefix(param, pattern, with),
        ReplaceOp::Suffix => SubstView::ReplaceSuffix(param, pattern, with),
    }
}

/// An offset and, behind `:`, a length, each taken as it is written, up to
/// the closing `}`. `p` is behind the `:` that starts the offset.
#[verifier::opaque]
pub open spec fn g_range(b: Seq<u8>, p: int) -> Parsed<(Seq<u8>, Option<Seq<u8>>), int> {
    let e1 = run_end(b, p, ByteClass::OffsetChar);
    let e2 = run_end(b, e1 + 1, ByteClass::NotRbrace);
    if byte_at(b, e1) == COLON {
        if byte_at(b, e2) == RBRACE {
            Parsed::Done((b.subrange(p, e1), Some(b.subrange(e1 + 1, e2))), e2 + 1)
        } else {
            Parsed::Fail(e2, "expected '}'"@)
        }
    } else if byte_at(b, e1) == RBRACE {
        Parsed::Done((b.subrange(p, e1), None), e1 + 1)
    } else {
        Parsed::Fail(e1, "expected '}'"@)
    }
}

/// What follows the parameter of `${param...}`: the closing brace, an
/// array index, or an operator with its operands.
pub open spec fn g_param_op(b: Seq<u8>, p: int, d: nat, param: ParamView) -> Parsed<AtomView, int>
    decreases d, 62int, b.len() - p,
{
    let c = byte_at(b, p);
    if c == RBRACE {
        Parsed::Done(AtomView::Param(param), p + 1)
    } else if c == LBRACKET && param is Var {
        g_array_op(b, p + 1, d, param->Var_0)
    } else if word_op_at(b, p) is Some {
        g_word_op(b, p, d, param)
    } else if c == COLON {
        g_substring(b, p + 1, param)
    } else if c == SLASH {
        g_replace(b, p, d, param)
    } else if c == CARET || c == COMMA {
        g_case_op(b, p, param)
    } else if c == AT && param is Var {
        g_transform(b, p, param->Var_0)
    } else {
        Parsed::Fail(p, "bad substitution"@)
    }
}

/// An operator with one word, its operand, and the closing brace.
pub open spec fn g_word_op(b: Seq<u8>, p: int, d: nat, param: ParamView) -> Parsed<AtomView, int>
    decreases d, 61int, b.len() - p,
{
    match word_op_at(b, p) {
        Some((op, k)) => match g_operand(b, p + k, d, WordCtx::Operand) {
            Parsed::Done(w, e) => g_close(b, e, subst(word_subst(op, param, w))),
            Parsed::Fail(at, msg) => Parsed::Fail(at, msg),
        },
        None => Parsed::Fail(p, "bad substitution"@),
    }
}

/// `${param:offset}` and `${param:offset:length}` from behind the `:`.
#[verifier::opaque]
pub open spec fn g_substring(b: Seq<u8>, p: int, param: ParamView) -> Parsed<AtomView, int> {
    match g_range(b, p) {
        Parsed::Done((offset, length), e) => Parsed::Done(
            subst(SubstView::Substring(param, offset, length)),
            e,
        ),
        Parsed::Fail(at, msg) => Parsed::Fail(at, msg),
    }
}

/// A replacement from its `/` on: the operator, the pattern, and what
/// follows the pattern.
pub open spec fn g_replace(b: Seq<u8>, p: int, d: nat, param: ParamView) -> Parsed<AtomView, int>
    decreases d, 61int, b.len() - p,
{
    let (op, k) = replace_op_at(b, p);
    match g_operand(b, p + k, d, WordCtx::Pattern) {
        Parsed::Done(pattern, e) => g_replace_with(b, e, d, param, op, pattern),
        Parsed::Fail(at, msg) => Parsed::Fail(at, msg),
    }
}

/// What follows the pattern of a replacement: `/` and the replacement, or
/// nothing, and the closing brace.
pub open spec fn g_replace_with(
    b: Seq<u8>,
    p: int,
    d: nat,
    param: ParamView,
    op: ReplaceOp,
    pattern: Option<WordView>,
) -> Parsed<AtomView, int>
    decreases d, 60int, b.len() - p,
{
    if byte_at(b, p) == SLASH {
        match g_operand(b, p + 1, d, WordCtx::Operand) {
            Parsed::Done(with, e) => g_close(
                b,
                e,
                subst(replace_subst(op, param, pattern, with)),
            ),
            Parsed::Fail(at, msg) => Parsed::Fail(at, msg),
        }
    } else {
        g_close(b, p, subst(replace_subst(op, param, pattern, None)))
    }
}

/// `^` and `^^` for upper case, `,` and `,,` for lower case: the doubled
/// form converts every character, the single one the first.
#[verifier::opaque]
pub open spec fn g_case_op(b: Seq<u8>, p: int, param: ParamView) -> Parsed<AtomView, int> {
    let c = byte_at(b, p);
    let all = byte_at(b, p + 1) == c;
    let e = if all {
        p + 2
    } else {
        p + 1
    };
    if c == CARET {
        g_close(b, e, subst(SubstView::Upper(all, param)))
    } else {
        g_close(b, e, subst(SubstView::Lower(all, param)))
    }
}

/// `${name@X}` from the `@` on: the transformation that the letter names.
#[verifier::opaque]
pub open spec fn g_transform(b: Seq<u8>, p: int, name: Seq<u8>) -> Parsed<AtomView, int> {
    let n = byte_at(b, p + 1);
    if is_name_start(n) && n != 0x5f {
        g_close(b, p + 2, subst(SubstView::Transform(name, n)))
    } else {
        Parsed::Fail(p, "bad substitution"@)
    }
}

/// What follows `${name[`: `@]` or `*]` for all elements, with a slice
/// behind them if `:` follows, or else the index of one element.
pub open spec fn g_array_op(b: Seq<u8>, p: int, d: nat, name: Seq<u8>) -> Parsed<AtomView, int>
    decreases d, 61int, b.len() - p,
{
    let c = byte_at(b, p);
    if (c == AT || c == STAR) && byte_at(b, p + 1) == RBRACKET {
        g_array_all(b, p + 2, name)
    } else {
        g_array_element(b, p, d, name)
    }
}

/// What follows `${name[@]`: a slice, or the closing brace.
#[verifier::opaque]
pub open spec fn g_array_all(b: Seq<u8>, p: int, name: Seq<u8>) -> Parsed<AtomView, int> {
    if byte_at(b, p) == COLON {
        match g_range(b, p + 1) {
            Parsed::Done((offset, length), e) => Parsed::Done(
                subst(SubstView::ArraySlice(name, offset, length)),
                e,
            ),
            Parsed::Fail(at, msg) => Parsed::Fail(at, msg),
        }
    } else {
        g_close(b, p, subst(SubstView::ArrayAll(name)))
    }
}

/// The index of one element, `]` and the closing brace.
pub open spec fn g_array_element(b: Seq<u8>, p: int, d: nat, name: Seq<u8>) -> Parsed<
    AtomView,
    int,
>
    decreases d, 58int, b.len() - p,
{
    if d == 0 {
        Parsed::Fail(p, too_deep())
    } else {
        match g_word(b, p, (d - 1) as nat, WordCtx::Index) {
            Parsed::Done(index, e) => if byte_at(b, e) == RBRACKET {
                g_close(b, e + 1, subst(SubstView::ArrayElement(name, index)))
            } else {
                Parsed::Fail(e, "expected ']'"@)
            },
            Parsed::Fail(at, msg) => Parsed::Fail(at, msg),
        }
    }
}

} // verus!
