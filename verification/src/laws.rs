//! What holds of the grammar for every input.

use vstd::prelude::*;
use vstd::string::StringSliceAdditionalSpecFns;
use crate::ast_view::{
    ArithView, CaseArmView, CompoundKindView, ExecutableView, GuardBodyView, HeredocBodyView,
    PipelineView, RedirView,
};
use crate::bytes::EQUALS;
use crate::grammar::arith::{bin_view, binop_at, g_assign, g_binary, g_binary_rest};
use crate::grammar::blanks;
use crate::grammar::commands::{
    body_start, g_arm, g_arms, g_branch, g_heredoc, g_if, g_if_end, g_skip, heredoc_delim,
};
use crate::provenance::arith::{lemma_blanks, lemma_g_binary};
use crate::provenance::commands::{lemma_body_start, lemma_heredoc_delim, lemma_heredoc_end};
use crate::bytes::{COLON, HASH, MINUS, PERCENT, SLASH};
use crate::grammar::commands::{
    at_closer, compound_start, consumed, funcdef_at, g_body, g_executable, g_program, g_simple_exec,
    pipeline_of,
};
use crate::provenance::cmds_from;
use crate::provenance::commands::{lemma_g_list, lemma_g_program};
use crate::grammar::words::{g_nested, replace_op_at, ReplaceOp, word_op_at, WordOp};
use crate::grammar::{kw, Parsed, St, too_deep};
use crate::text::{byte_at, DQUOTE, is_name_start, name_end, SQUOTE};

verus! {

/// A keyword that stands at `p` starts with a letter or is one of `!`,
/// `{`, `}`, `[[`, `]]`: no quote starts it.
proof fn lemma_keyword_starts(b: Seq<u8>, p: int, word: &str, first: u8)
    requires
        kw(b, p, word),
        word.spec_bytes().len() > 0,
        word.spec_bytes()[0] == first,
    ensures
        byte_at(b, p) == first,
{
    let n = word.spec_bytes().len() as int;
    assert(b.subrange(p, p + n)[0] == b[p]);
}

/// The first byte of each keyword.
proof fn lemma_keyword_bytes()
    ensures
        "if".spec_bytes().len() > 0 && "if".spec_bytes()[0] == 0x69,
        "for".spec_bytes().len() > 0 && "for".spec_bytes()[0] == 0x66,
        "while".spec_bytes().len() > 0 && "while".spec_bytes()[0] == 0x77,
        "until".spec_bytes().len() > 0 && "until".spec_bytes()[0] == 0x75,
        "case".spec_bytes().len() > 0 && "case".spec_bytes()[0] == 0x63,
        "function".spec_bytes().len() > 0 && "function".spec_bytes()[0] == 0x66,
        "then".spec_bytes().len() > 0 && "then".spec_bytes()[0] == 0x74,
        "elif".spec_bytes().len() > 0 && "elif".spec_bytes()[0] == 0x65,
        "else".spec_bytes().len() > 0 && "else".spec_bytes()[0] == 0x65,
        "fi".spec_bytes().len() > 0 && "fi".spec_bytes()[0] == 0x66,
        "do".spec_bytes().len() > 0 && "do".spec_bytes()[0] == 0x64,
        "done".spec_bytes().len() > 0 && "done".spec_bytes()[0] == 0x64,
        "esac".spec_bytes().len() > 0 && "esac".spec_bytes()[0] == 0x65,
        "{".spec_bytes().len() > 0 && "{".spec_bytes()[0] == 0x7b,
        "}".spec_bytes().len() > 0 && "}".spec_bytes()[0] == 0x7d,
        "[[".spec_bytes().len() > 0 && "[[".spec_bytes()[0] == 0x5b,
        "]]".spec_bytes().len() > 0 && "]]".spec_bytes()[0] == 0x5d,
{
    broadcast use vstd::string::is_ascii_spec_bytes;

    reveal_strlit("if");
    reveal_strlit("for");
    reveal_strlit("while");
    reveal_strlit("until");
    reveal_strlit("case");
    reveal_strlit("function");
    reveal_strlit("then");
    reveal_strlit("elif");
    reveal_strlit("else");
    reveal_strlit("fi");
    reveal_strlit("do");
    reveal_strlit("done");
    reveal_strlit("esac");
    reveal_strlit("{");
    reveal_strlit("}");
    reveal_strlit("[[");
    reveal_strlit("]]");
    assert(vstd::string::is_ascii("if"));
    assert(vstd::string::is_ascii("for"));
    assert(vstd::string::is_ascii("while"));
    assert(vstd::string::is_ascii("until"));
    assert(vstd::string::is_ascii("case"));
    assert(vstd::string::is_ascii("function"));
    assert(vstd::string::is_ascii("then"));
    assert(vstd::string::is_ascii("elif"));
    assert(vstd::string::is_ascii("else"));
    assert(vstd::string::is_ascii("fi"));
    assert(vstd::string::is_ascii("do"));
    assert(vstd::string::is_ascii("done"));
    assert(vstd::string::is_ascii("esac"));
    assert(vstd::string::is_ascii("{"));
    assert(vstd::string::is_ascii("}"));
    assert(vstd::string::is_ascii("[["));
    assert(vstd::string::is_ascii("]]"));
}

/// Quoting wins over keywords: where a command starts with a quote, it is
/// a simple command, whatever the quotes hold. `"if"` is a word, never
/// the start of an `if`.
pub proof fn law_quoted_is_no_keyword(b: Seq<u8>, st: St, d: nat)
    requires
        byte_at(b, st.pos) == SQUOTE || byte_at(b, st.pos) == DQUOTE,
    ensures
        g_executable(b, st, d) == g_simple_exec(b, st, d),
{
    reveal(at_closer);
    reveal(compound_start);
    reveal(funcdef_at);
    lemma_keyword_bytes();
    let p = st.pos;
    if kw(b, p, "if") {
        lemma_keyword_starts(b, p, "if", 0x69);
    }
    if kw(b, p, "for") {
        lemma_keyword_starts(b, p, "for", 0x66);
    }
    if kw(b, p, "while") {
        lemma_keyword_starts(b, p, "while", 0x77);
    }
    if kw(b, p, "until") {
        lemma_keyword_starts(b, p, "until", 0x75);
    }
    if kw(b, p, "case") {
        lemma_keyword_starts(b, p, "case", 0x63);
    }
    if kw(b, p, "function") {
        lemma_keyword_starts(b, p, "function", 0x66);
    }
    if kw(b, p, "then") {
        lemma_keyword_starts(b, p, "then", 0x74);
    }
    if kw(b, p, "elif") {
        lemma_keyword_starts(b, p, "elif", 0x65);
    }
    if kw(b, p, "else") {
        lemma_keyword_starts(b, p, "else", 0x65);
    }
    if kw(b, p, "fi") {
        lemma_keyword_starts(b, p, "fi", 0x66);
    }
    if kw(b, p, "do") {
        lemma_keyword_starts(b, p, "do", 0x64);
    }
    if kw(b, p, "done") {
        lemma_keyword_starts(b, p, "done", 0x64);
    }
    if kw(b, p, "esac") {
        lemma_keyword_starts(b, p, "esac", 0x65);
    }
    if kw(b, p, "{") {
        lemma_keyword_starts(b, p, "{", 0x7b);
    }
    if kw(b, p, "}") {
        lemma_keyword_starts(b, p, "}", 0x7d);
    }
    if kw(b, p, "[[") {
        lemma_keyword_starts(b, p, "[[", 0x5b);
    }
    if kw(b, p, "]]") {
        lemma_keyword_starts(b, p, "]]", 0x5d);
    }
    assert(!is_name_start(byte_at(b, p)));
    assert(name_end(b, p) == p);
}

/// The longer operator wins: `:-` is the default operator, not `:` with a
/// stray `-`; `##` and `%%` trim the longest match, and `//` replaces
/// every match.
pub proof fn law_longest_operator_wins(b: Seq<u8>, p: int)
    ensures
        byte_at(b, p) == COLON && byte_at(b, p + 1) == MINUS ==> word_op_at(b, p) == Some(
            (WordOp::Default, 2int),
        ),
        byte_at(b, p) == HASH && byte_at(b, p + 1) == HASH ==> word_op_at(b, p) == Some(
            (WordOp::TrimPrefixLarge, 2int),
        ),
        byte_at(b, p) == PERCENT && byte_at(b, p + 1) == PERCENT ==> word_op_at(b, p) == Some(
            (WordOp::TrimSuffixLarge, 2int),
        ),
        byte_at(b, p) == SLASH && byte_at(b, p + 1) == SLASH ==> replace_op_at(b, p) == (
            ReplaceOp::All,
            2int,
        ),
{
    reveal(word_op_at);
}

/// A pipeline of one executable that is not negated has the single form;
/// every other has the pipe form, with all its stages in their order.
pub proof fn law_pipeline_collapses(negated: bool, stages: Seq<ExecutableView>)
    ensures
        !negated && stages.len() == 1 ==> pipeline_of(negated, stages) == PipelineView::Single(
            stages[0],
        ),
        negated || stages.len() != 1 ==> pipeline_of(negated, stages) == PipelineView::Pipe(
            negated,
            stages,
        ),
{
}

/// Zero-copy fidelity: every text in the tree of a script is the script
/// between two positions. No text is made up, copied together or changed.
pub proof fn law_texts_come_from_input(b: Seq<u8>, d: nat)
    ensures
        g_program(b, d) matches Parsed::Done(cmds, _) ==> cmds_from(cmds, b),
{
    lemma_g_program(b, d);
}

/// A script that parses is taken whole: the list of its commands ends
/// where the input ends.
pub proof fn law_parse_takes_all(b: Seq<u8>, d: nat)
    ensures
        g_program(b, d) is Done ==> consumed(b, d),
{
    lemma_g_list(b, St { pos: 0, resume: 0 }, d);
}

/// Nesting is bounded: where no level is left, whatever would nest
/// deeper is an error at the place where it starts.
pub proof fn law_nesting_is_bounded(b: Seq<u8>, st: St)
    ensures
        g_body(b, st, 0) == Parsed::<Seq<crate::ast_view::CmdView>, St>::Fail(st.pos, too_deep()),
        g_nested(b, st.pos, 0) == Parsed::<Seq<crate::ast_view::CmdView>, int>::Fail(
            st.pos,
            too_deep(),
        ),
{
}

/// Case arms keep the order in which they are written, which is the order
/// in which they are tried: the arms read so far stay in front, and the
/// arm that stands next in the text comes next in the tree.
pub proof fn law_case_arms_keep_order(b: Seq<u8>, st: St, d: nat, acc: Seq<CaseArmView>)
    ensures
        g_arms(b, st, d, acc) matches Parsed::Done(arms, _) ==> {
            &&& acc.len() <= arms.len()
            &&& arms.take(acc.len() as int) == acc
            &&& arms.len() > acc.len() ==> (g_arm(b, g_skip(b, st, false), d) matches Parsed::Done(
                arm,
                _,
            ) && arms[acc.len() as int] == arm)
        },
    decreases b.len() - st.pos,
{
    let s1 = g_skip(b, st, false);
    if kw(b, s1.pos, "esac") {
        assert(acc.take(acc.len() as int) =~= acc);
    } else if s1.pos < b.len() {
        if let Parsed::Done(arm, s2) = g_arm(b, s1, d) {
            if st.pos < s2.pos <= b.len() {
                law_case_arms_keep_order(b, s2, d, acc.push(arm));
                if let Parsed::Done(arms, _) = g_arms(b, s2, d, acc.push(arm)) {
                    let longer = acc.push(arm);
                    assert(arms.take(longer.len() as int)[acc.len() as int] == arm);
                    assert(arms.take(acc.len() as int) =~= longer.take(acc.len() as int));
                    assert(longer.take(acc.len() as int) =~= acc);
                }
            }
        }
    }
}

/// The bodies of the heredocs of one line follow each other in the order
/// of their operators: where one has been read, the body of the next one
/// on the line, whose delimiter ends at `after`, begins where the body of
/// the first ended.
pub proof fn law_heredoc_bodies_in_order(b: Seq<u8>, st: St, d: nat, strip: bool, after: int)
    requires
        0 <= st.pos <= b.len(),
        g_heredoc(b, st, d, strip) matches Parsed::Done(_, s2) && s2.pos <= after < s2.resume,
    ensures
        g_heredoc(b, st, d, strip) matches Parsed::Done(_, s2) && s2.resume <= b.len()
            && body_start(b, s2, after) == s2.resume,
{
    reveal(body_start);
    lemma_heredoc_delim(b, st.pos);
    if let Some((from, to, quoted, end)) = heredoc_delim(b, st.pos) {
        lemma_body_start(b, st, end);
        lemma_heredoc_end(b, body_start(b, st, end), b.subrange(from, to), strip);
    }
}

/// Behind a quoted delimiter the body of a heredoc is literal, whatever it
/// holds: nothing in it is taken for an expansion.
pub proof fn law_quoted_heredoc_is_literal(b: Seq<u8>, st: St, d: nat, strip: bool)
    requires
        byte_at(b, st.pos) == SQUOTE || byte_at(b, st.pos) == DQUOTE,
    ensures
        g_heredoc(b, st, d, strip) matches Parsed::Done(r, _) ==> r matches RedirView::Heredoc(
            HeredocBodyView::Literal(_),
        ),
{
    reveal(heredoc_delim);
}

/// What ends where an operator ends it: an expression of a level of
/// binary operators ends only where no operator of that level follows.
proof fn lemma_level_is_whole(b: Seq<u8>, p: int, d: nat, level: nat, lhs: ArithView)
    requires
        0 <= p <= b.len(),
    ensures
        g_binary_rest(b, p, d, level, lhs) matches Parsed::Done(_, e) ==> binop_at(b, e, level)
            is None,
    decreases b.len() - p,
{
    reveal(binop_at);
    if level < 10 {
        if let Some((op, n)) = binop_at(b, p, level) {
            lemma_blanks(b, p + n);
            lemma_g_binary(b, blanks(b, p + n), d, level + 1);
            if let Parsed::Done(rhs, t2) = g_binary(b, blanks(b, p + n), d, level + 1) {
                lemma_level_is_whole(b, t2, d, level, bin_view(op, lhs, rhs));
            }
        }
    }
}

/// Products bind tighter than sums. The operands of `+` and `-` are read
/// at the level of `*`, `/` and `%`, and an operand of that level is
/// whole: it ends only where none of these operators follows. So in
/// `1 + 2 * 3` the right operand of `+` is `2 * 3`.
pub proof fn law_products_bind_tighter(b: Seq<u8>, p: int, d: nat, lhs: ArithView)
    requires
        0 <= p <= b.len(),
    ensures
        binop_at(b, p, 8) matches Some((op, _)) ==> op is Add || op is Sub,
        binop_at(b, p, 9) matches Some((op, _)) ==> op is Mul || op is Div || op is Rem,
        g_binary(b, p, d, 8) == (match g_binary(b, p, d, 9) {
            Parsed::Done(first, t) => g_binary_rest(b, t, d, 8, first),
            Parsed::Fail(at, msg) => Parsed::Fail(at, msg),
        }),
        binop_at(b, p, 8) matches Some((op, n)) ==> (g_binary(b, blanks(b, p + n), d, 9)
            matches Parsed::Done(rhs, t) ==> (g_binary_rest(b, p, d, 8, lhs) == g_binary_rest(
            b,
            t,
            d,
            8,
            bin_view(op, lhs, rhs),
        ))),
        g_binary(b, p, d, 9) matches Parsed::Done(_, e) ==> binop_at(b, e, 9) is None,
{
    reveal(binop_at);
    if let Some((op, n)) = binop_at(b, p, 8) {
        lemma_blanks(b, p + n);
        lemma_g_binary(b, blanks(b, p + n), d, 9);
    }
    lemma_g_binary(b, p, d, 10);
    if let Parsed::Done(first, t) = g_binary(b, p, d, 10) {
        lemma_level_is_whole(b, t, d, 9, first);
    }
}

/// Assignment associates to the right: what stands right of `=` is read
/// as an assignment again, whole. So `a = b = 1` is `a = (b = 1)`.
pub proof fn law_assignment_associates_right(b: Seq<u8>, p: int, d: nat)
    requires
        d > 0,
        name_end(b, p) > p,
        byte_at(b, blanks(b, name_end(b, p))) == EQUALS,
        byte_at(b, blanks(b, name_end(b, p)) + 1) != EQUALS,
    ensures
        g_assign(b, p, d) == (match g_assign(
            b,
            blanks(b, blanks(b, name_end(b, p)) + 1),
            (d - 1) as nat,
        ) {
            Parsed::Done(rhs, t) => Parsed::Done(
                ArithView::Assign(b.subrange(p, name_end(b, p)), Box::new(rhs)),
                t,
            ),
            Parsed::Fail(at, msg) => Parsed::Fail(at, msg),
        }),
{
}

/// An `if` that is not closed is an error, never a partial tree: where
/// neither `elif` nor `else` nor `fi` stands behind a branch, as at the
/// end of the input, the whole `if` fails there.
pub proof fn law_unclosed_if_is_an_error(b: Seq<u8>, st: St, d: nat, acc: Seq<GuardBodyView>)
    requires
        g_branch(b, st, d) matches Parsed::Done(_, s2) && (s2.pos >= b.len() || !(kw(
            b,
            s2.pos,
            "elif",
        ) || kw(b, s2.pos, "else") || kw(b, s2.pos, "fi"))),
    ensures
        g_branch(b, st, d) matches Parsed::Done(_, s2) && g_if(b, st, d, acc) == Parsed::<
            CompoundKindView,
            St,
        >::Fail(s2.pos, "expected 'fi'"@),
{
    if let Parsed::Done(branch, s2) = g_branch(b, st, d) {
        if s2.pos >= b.len() {
            lemma_keywords_not_empty();
        }
        assert(!kw(b, s2.pos, "elif"));
        assert(!kw(b, s2.pos, "else"));
        assert(!kw(b, s2.pos, "fi"));
        assert(g_if(b, st, d, acc) == g_if_end(b, s2, d, acc.push(branch)));
    }
}

/// The keywords that go on or end an `if` are not empty.
proof fn lemma_keywords_not_empty()
    ensures
        "elif".spec_bytes().len() > 0,
        "else".spec_bytes().len() > 0,
        "fi".spec_bytes().len() > 0,
{
    broadcast use vstd::string::is_ascii_spec_bytes;

    reveal_strlit("elif");
    reveal_strlit("else");
    reveal_strlit("fi");
    assert(vstd::string::is_ascii("elif"));
    assert(vstd::string::is_ascii("else"));
    assert(vstd::string::is_ascii("fi"));
}

} // verus!
