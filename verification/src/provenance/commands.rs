//! The texts of commands come from the input.

use vstd::prelude::*;
use crate::ast_view::{
    AndOrView, ArithView, CaseArmView, CmdPrefixView, CmdSuffixView, CmdView, CompoundKindView,
    ExecutableView, GuardBodyView, RedirView, WordView,
};
use crate::bytes::{AMP, LPAREN, PIPE, RPAREN};
use crate::grammar::arith::g_arith;
use crate::grammar::commands::{
    arm_end, assign_at, assign_op_at, at_pos, body_start, clause_end, cmd_end, funcdef_at, g_and_or,
    g_and_or_rest, g_arith_cmd, g_arm, g_arm_from, g_arms, g_array, g_array_value, g_assigned,
    g_assignment, g_body, g_branch, g_case, g_case_in, g_cfor, g_cfor_body, g_chained, g_clause,
    g_cmd, g_compound, g_compound_exec, g_do, g_executable, g_for, g_for_body, g_for_in,
    g_func_body, g_funcdef, g_function, g_group, g_grouping, g_heredoc, g_heredoc_body, g_if,
    g_if_end, g_kind, g_list, g_list_from, g_patterns, g_pipe_rest, g_pipeline, g_prefix,
    g_prefix_item, g_program, g_redir, g_redir_target, g_redirs, g_scalar_value, g_separated,
    g_separator, g_simple, g_simple_exec, g_skip, g_suffix, g_suffix_item, g_while, g_words,
    group_close, grouping_at, heredoc_delim, heredoc_end, job_at, list_end, pattern_sep, redir_at,
    redir_op_at, skip_next, AssignOp, Group, RedirOp,
};
use crate::grammar::words::{g_dq_atoms, g_word, word_end};
use crate::grammar::{blanks, kw, past, Parsed, St, WordCtx};
use crate::provenance::arith::{lemma_blanks, lemma_g_arith, lemma_name_end};
use crate::provenance::words::{lemma_g_dq_atoms, lemma_g_word};
use crate::provenance::{
    and_or_from, and_or_list_from, and_ors_from, arith_from, case_arm_from, case_arms_from,
    cmd_from, cmd_prefix_from, cmd_suffix_from, cmds_from, compound_cmd_from, compound_kind_from,
    executable_from, executables_from, guard_bodies_from, guard_body_from, heredoc_body_from,
    lemma_and_ors_push, lemma_atoms_from_part, lemma_case_arms_push, lemma_cmds_push,
    lemma_executables_push, lemma_guard_bodies_push, lemma_prefixes_push, lemma_redirs_push,
    lemma_suffixes_push, lemma_within, lemma_words_push, pipeline_from, prefixes_from, redir_from,
    redirs_from, simple_cmd_from, suffixes_from, within, word_from, words_from,
};
use crate::text::{byte_at, lemma_run_end, name_end, run_end, ByteClass};

verus! {

/// The state `s2` is not behind `st`, and not outside the input.
pub open spec fn onward(st: St, s2: St, b: Seq<u8>) -> bool {
    st.pos <= s2.pos <= b.len()
}

// ----- separators -----

proof fn lemma_skip_next(b: Seq<u8>, st: St, semis: bool)
    requires
        0 <= st.pos <= b.len(),
    ensures
        onward(st, skip_next(b, st, semis), b),
{
    reveal(skip_next);
    lemma_run_end(b, st.pos, ByteClass::NotNewline);
}

pub proof fn lemma_g_skip(b: Seq<u8>, st: St, semis: bool)
    requires
        0 <= st.pos <= b.len(),
    ensures
        onward(st, g_skip(b, st, semis), b),
    decreases b.len() - st.pos,
{
    reveal(g_skip);
    let q = blanks(b, st.pos);
    lemma_blanks(b, st.pos);
    let next = skip_next(b, at_pos(st, q), semis);
    lemma_skip_next(b, at_pos(st, q), semis);
    if st.pos <= q < next.pos <= b.len() {
        lemma_g_skip(b, next, semis);
    }
}

// ----- lists -----

/// The texts of a script come from it: whatever `g_program` yields, each
/// text of each command is the input between two positions.
pub proof fn lemma_g_program(b: Seq<u8>, d: nat)
    ensures
        g_program(b, d) matches Parsed::Done(cmds, _) ==> cmds_from(cmds, b),
{
    lemma_g_list(b, St { pos: 0, resume: 0 }, d);
}

#[verifier::spinoff_prover]
pub proof fn lemma_g_list(b: Seq<u8>, st: St, d: nat)
    requires
        0 <= st.pos <= b.len(),
    ensures
        g_list(b, st, d) matches Parsed::Done(x, s2) ==> onward(st, s2, b) && cmds_from(x, b),
    decreases d, 100int, b.len() - st.pos,
{
    lemma_g_skip(b, st, true);
    lemma_g_list_from(b, g_skip(b, st, true), d, Seq::empty());
}

#[verifier::spinoff_prover]
proof fn lemma_g_list_from(b: Seq<u8>, st: St, d: nat, acc: Seq<CmdView>)
    requires
        0 <= st.pos <= b.len(),
        cmds_from(acc, b),
    ensures
        g_list_from(b, st, d, acc) matches Parsed::Done(x, s2) ==> onward(st, s2, b) && cmds_from(
            x,
            b,
        ),
    decreases d, 99int, b.len() - st.pos,
{
    if !list_end(b, st.pos) {
        lemma_g_separated(b, st, d);
        if let Parsed::Done(cmd, s3) = g_separated(b, st, d) {
            lemma_cmds_push(acc, cmd, b);
            if st.pos < s3.pos <= b.len() {
                lemma_g_list_from(b, s3, d, acc.push(cmd));
            }
        }
    }
}

#[verifier::spinoff_prover]
proof fn lemma_g_separated(b: Seq<u8>, st: St, d: nat)
    requires
        0 <= st.pos <= b.len(),
    ensures
        g_separated(b, st, d) matches Parsed::Done(x, s2) ==> onward(st, s2, b) && cmd_from(x, b),
    decreases d, 98int, b.len() - st.pos,
{
    reveal(g_separator);
    lemma_g_cmd(b, st, d);
    if let Parsed::Done(cmd, s2) = g_cmd(b, st, d) {
        lemma_g_skip(b, s2, true);
    }
}

#[verifier::spinoff_prover]
proof fn lemma_g_body(b: Seq<u8>, st: St, d: nat)
    requires
        0 <= st.pos <= b.len(),
    ensures
        g_body(b, st, d) matches Parsed::Done(x, s2) ==> onward(st, s2, b) && cmds_from(x, b),
    decreases d, 80int, b.len() - st.pos,
{
    if d > 0 {
        lemma_g_list(b, st, (d - 1) as nat);
    }
}

#[verifier::spinoff_prover]
proof fn lemma_g_cmd(b: Seq<u8>, st: St, d: nat)
    requires
        0 <= st.pos <= b.len(),
    ensures
        g_cmd(b, st, d) matches Parsed::Done(x, s2) ==> onward(st, s2, b) && cmd_from(x, b),
    decreases d, 97int, b.len() - st.pos,
{
    reveal(job_at);
    lemma_g_and_or(b, st, d);
}

#[verifier::spinoff_prover]
proof fn lemma_g_and_or(b: Seq<u8>, st: St, d: nat)
    requires
        0 <= st.pos <= b.len(),
    ensures
        g_and_or(b, st, d) matches Parsed::Done(x, s2) ==> onward(st, s2, b) && and_or_list_from(
            x,
            b,
        ),
    decreases d, 96int, b.len() - st.pos,
{
    lemma_g_pipeline(b, st, d);
    if let Parsed::Done(first, s1) = g_pipeline(b, st, d) {
        lemma_g_and_or_rest(b, s1, d, Seq::empty());
    }
}

#[verifier::spinoff_prover]
proof fn lemma_g_and_or_rest(b: Seq<u8>, st: St, d: nat, acc: Seq<AndOrView>)
    requires
        0 <= st.pos <= b.len(),
        and_ors_from(acc, b),
    ensures
        g_and_or_rest(b, st, d, acc) matches Parsed::Done(x, s2) ==> onward(st, s2, b)
            && and_ors_from(x, b),
    decreases d, 95int, b.len() - st.pos,
{
    let c = byte_at(b, st.pos);
    if (c == AMP || c == PIPE) && byte_at(b, st.pos + 1) == c {
        lemma_g_chained(b, at_pos(st, st.pos + 2), d, c == AMP);
        if let Parsed::Done(item, s2) = g_chained(b, at_pos(st, st.pos + 2), d, c == AMP) {
            lemma_and_ors_push(acc, item, b);
            if st.pos < s2.pos <= b.len() {
                lemma_g_and_or_rest(b, s2, d, acc.push(item));
            }
        }
    }
}

#[verifier::spinoff_prover]
proof fn lemma_g_chained(b: Seq<u8>, st: St, d: nat, and: bool)
    requires
        0 <= st.pos <= b.len(),
    ensures
        g_chained(b, st, d, and) matches Parsed::Done(x, s2) ==> onward(st, s2, b) && and_or_from(
            x,
            b,
        ),
    decreases d, 94int, b.len() - st.pos,
{
    lemma_g_skip(b, st, false);
    lemma_g_pipeline(b, g_skip(b, st, false), d);
}

#[verifier::spinoff_prover]
proof fn lemma_g_pipeline(b: Seq<u8>, st: St, d: nat)
    requires
        0 <= st.pos <= b.len(),
    ensures
        g_pipeline(b, st, d) matches Parsed::Done(x, s2) ==> onward(st, s2, b) && pipeline_from(
            x,
            b,
        ),
    decreases d, 93int, b.len() - st.pos,
{
    let negated = kw(b, st.pos, "!");
    let t1 = if negated {
        blanks(b, past(st.pos, "!"))
    } else {
        st.pos
    };
    if negated {
        lemma_blanks(b, past(st.pos, "!"));
    }
    lemma_g_executable(b, at_pos(st, t1), d);
    if let Parsed::Done(first, s1) = g_executable(b, at_pos(st, t1), d) {
        assert(executables_from(seq![first], b));
        lemma_g_pipe_rest(b, s1, d, seq![first]);
    }
}

#[verifier::spinoff_prover]
proof fn lemma_g_pipe_rest(b: Seq<u8>, st: St, d: nat, acc: Seq<ExecutableView>)
    requires
        0 <= st.pos <= b.len(),
        executables_from(acc, b),
    ensures
        g_pipe_rest(b, st, d, acc) matches Parsed::Done(x, s2) ==> onward(st, s2, b)
            && executables_from(x, b),
    decreases d, 92int, b.len() - st.pos,
{
    let q = blanks(b, st.pos);
    lemma_blanks(b, st.pos);
    if byte_at(b, q) == PIPE && byte_at(b, q + 1) != PIPE {
        let s1 = g_skip(b, at_pos(st, q + 1), false);
        lemma_g_skip(b, at_pos(st, q + 1), false);
        lemma_g_executable(b, s1, d);
        if let Parsed::Done(stage, s2) = g_executable(b, s1, d) {
            lemma_executables_push(acc, stage, b);
            if st.pos < s2.pos <= b.len() {
                lemma_g_pipe_rest(b, s2, d, acc.push(stage));
            }
        }
    }
}

// ----- executables -----

#[verifier::spinoff_prover]
proof fn lemma_g_executable(b: Seq<u8>, st: St, d: nat)
    requires
        0 <= st.pos <= b.len(),
    ensures
        g_executable(b, st, d) matches Parsed::Done(x, s2) ==> onward(st, s2, b)
            && executable_from(x, b),
    decreases d, 91int, b.len() - st.pos,
{
    lemma_g_compound_exec(b, st, d);
    if kw(b, st.pos, "function") {
        lemma_g_function(b, at_pos(st, past(st.pos, "function")), d);
    }
    lemma_g_funcdef(b, st, d);
    lemma_g_simple_exec(b, st, d);
}

#[verifier::spinoff_prover]
proof fn lemma_g_compound_exec(b: Seq<u8>, st: St, d: nat)
    requires
        0 <= st.pos <= b.len(),
    ensures
        g_compound_exec(b, st, d) matches Parsed::Done(x, s2) ==> onward(st, s2, b)
            && executable_from(x, b),
    decreases d, 90int, b.len() - st.pos,
{
    lemma_g_compound(b, st, d);
}

#[verifier::spinoff_prover]
proof fn lemma_g_simple_exec(b: Seq<u8>, st: St, d: nat)
    requires
        0 <= st.pos <= b.len(),
    ensures
        g_simple_exec(b, st, d) matches Parsed::Done(x, s2) ==> onward(st, s2, b)
            && executable_from(x, b),
    decreases d, 90int, b.len() - st.pos,
{
    lemma_g_simple(b, st, d);
}

#[verifier::spinoff_prover]
proof fn lemma_g_funcdef(b: Seq<u8>, st: St, d: nat)
    requires
        0 <= st.pos <= b.len(),
    ensures
        funcdef_at(b, st.pos) ==> (g_funcdef(b, st, d) matches Parsed::Done(x, s2) ==> onward(
            st,
            s2,
            b,
        ) && executable_from(x, b)),
    decreases d, 90int, b.len() - st.pos,
{
    reveal(funcdef_at);
    if funcdef_at(b, st.pos) {
        let e = name_end(b, st.pos);
        lemma_name_end(b, st.pos);
        lemma_blanks(b, e);
        lemma_within(b, st.pos, e);
        lemma_g_func_body(b, at_pos(st, blanks(b, e) + 2), d, b.subrange(st.pos, e));
    }
}

#[verifier::spinoff_prover]
proof fn lemma_g_function(b: Seq<u8>, st: St, d: nat)
    requires
        0 <= st.pos <= b.len(),
    ensures
        g_function(b, st, d) matches Parsed::Done(x, s2) ==> onward(st, s2, b) && executable_from(
            x,
            b,
        ),
    decreases d, 90int, b.len() - st.pos,
{
    let q = blanks(b, st.pos);
    lemma_blanks(b, st.pos);
    let e = name_end(b, q);
    lemma_name_end(b, q);
    let q2 = blanks(b, e);
    lemma_blanks(b, e);
    if e > q {
        lemma_within(b, q, e);
        let after = if byte_at(b, q2) == LPAREN && byte_at(b, q2 + 1) == RPAREN {
            q2 + 2
        } else {
            q2
        };
        lemma_g_func_body(b, at_pos(st, after), d, b.subrange(q, e));
    }
}

#[verifier::spinoff_prover]
proof fn lemma_g_func_body(b: Seq<u8>, st: St, d: nat, name: Seq<u8>)
    requires
        0 <= st.pos <= b.len(),
        within(name, b),
    ensures
        g_func_body(b, st, d, name) matches Parsed::Done(x, s2) ==> onward(st, s2, b)
            && executable_from(x, b),
    decreases d, 89int, b.len() - st.pos,
{
    lemma_g_skip(b, st, false);
    lemma_g_compound(b, g_skip(b, st, false), d);
}

#[verifier::spinoff_prover]
proof fn lemma_g_compound(b: Seq<u8>, st: St, d: nat)
    requires
        0 <= st.pos <= b.len(),
    ensures
        g_compound(b, st, d) matches Parsed::Done(x, s2) ==> onward(st, s2, b)
            && compound_cmd_from(x, b),
    decreases d, 88int, b.len() - st.pos,
{
    lemma_g_kind(b, st, d);
    if let Parsed::Done(kind, s1) = g_kind(b, st, d) {
        lemma_g_redirs(b, s1, d, Seq::empty());
    }
}

/// The outcome of parsing a compound command from `st`.
pub open spec fn kind_ok(r: Parsed<CompoundKindView, St>, b: Seq<u8>, st: St) -> bool {
    r matches Parsed::Done(x, s2) ==> onward(st, s2, b) && compound_kind_from(x, b)
}

#[verifier::spinoff_prover]
proof fn lemma_g_kind(b: Seq<u8>, st: St, d: nat)
    requires
        0 <= st.pos <= b.len(),
    ensures
        kind_ok(g_kind(b, st, d), b, st),
    decreases d, 87int, b.len() - st.pos,
{
    let p = st.pos;
    if kw(b, p, "if") {
        lemma_g_if(b, at_pos(st, past(p, "if")), d, Seq::empty());
    } else if kw(b, p, "while") {
        lemma_g_while(b, at_pos(st, past(p, "while")), d, false);
    } else if kw(b, p, "until") {
        lemma_g_while(b, at_pos(st, past(p, "until")), d, true);
    } else if kw(b, p, "for") {
        lemma_g_for(b, at_pos(st, past(p, "for")), d);
    } else if kw(b, p, "case") {
        lemma_g_case(b, at_pos(st, past(p, "case")), d);
    } else {
        lemma_g_grouping(b, st, d);
    }
}

#[verifier::spinoff_prover]
proof fn lemma_g_grouping(b: Seq<u8>, st: St, d: nat)
    requires
        0 <= st.pos <= b.len(),
    ensures
        kind_ok(g_grouping(b, st, d), b, st),
    decreases d, 86int, b.len() - st.pos,
{
    reveal(grouping_at);
    match grouping_at(b, st.pos) {
        Some((Some(group), k)) => {
            lemma_g_group(b, at_pos(st, st.pos + k), d, group);
        },
        Some((None, k)) => {
            lemma_g_arith_cmd(b, at_pos(st, st.pos + k), d);
        },
        None => {},
    }
}

#[verifier::spinoff_prover]
proof fn lemma_g_group(b: Seq<u8>, st: St, d: nat, group: Group)
    requires
        0 <= st.pos <= b.len(),
    ensures
        kind_ok(g_group(b, st, d, group), b, st),
    decreases d, 85int, b.len() - st.pos,
{
    reveal(group_close);
    lemma_g_body(b, st, d);
}

#[verifier::spinoff_prover]
proof fn lemma_g_arith_cmd(b: Seq<u8>, st: St, d: nat)
    requires
        0 <= st.pos <= b.len(),
    ensures
        kind_ok(g_arith_cmd(b, st, d), b, st),
    decreases d, 85int, b.len() - st.pos,
{
    lemma_g_arith(b, st.pos, d);
}

#[verifier::spinoff_prover]
proof fn lemma_g_if(b: Seq<u8>, st: St, d: nat, acc: Seq<GuardBodyView>)
    requires
        0 <= st.pos <= b.len(),
        guard_bodies_from(acc, b),
    ensures
        kind_ok(g_if(b, st, d, acc), b, st),
    decreases d, 86int, b.len() - st.pos,
{
    lemma_g_branch(b, st, d);
    if let Parsed::Done(branch, s2) = g_branch(b, st, d) {
        lemma_guard_bodies_push(acc, branch, b);
        let conditionals = acc.push(branch);
        if kw(b, s2.pos, "elif") {
            if st.pos < past(s2.pos, "elif") <= b.len() {
                lemma_g_if(b, at_pos(s2, past(s2.pos, "elif")), d, conditionals);
            }
        } else {
            lemma_g_if_end(b, s2, d, conditionals);
        }
    }
}

#[verifier::spinoff_prover]
proof fn lemma_g_branch(b: Seq<u8>, st: St, d: nat)
    requires
        0 <= st.pos <= b.len(),
    ensures
        g_branch(b, st, d) matches Parsed::Done(x, s2) ==> onward(st, s2, b) && guard_body_from(
            x,
            b,
        ),
    decreases d, 85int, b.len() - st.pos,
{
    lemma_g_body(b, st, d);
    if let Parsed::Done(guard, s1) = g_body(b, st, d) {
        if kw(b, s1.pos, "then") {
            lemma_g_body(b, at_pos(s1, past(s1.pos, "then")), d);
        }
    }
}

#[verifier::spinoff_prover]
proof fn lemma_g_if_end(b: Seq<u8>, st: St, d: nat, conditionals: Seq<GuardBodyView>)
    requires
        0 <= st.pos <= b.len(),
        guard_bodies_from(conditionals, b),
    ensures
        kind_ok(g_if_end(b, st, d, conditionals), b, st),
    decreases d, 85int, b.len() - st.pos,
{
    if kw(b, st.pos, "else") {
        lemma_g_body(b, at_pos(st, past(st.pos, "else")), d);
    }
}

#[verifier::spinoff_prover]
proof fn lemma_g_do(b: Seq<u8>, st: St, d: nat)
    requires
        0 <= st.pos <= b.len(),
    ensures
        g_do(b, st, d) matches Parsed::Done(x, s2) ==> onward(st, s2, b) && cmds_from(x, b),
    decreases d, 83int, b.len() - st.pos,
{
    if kw(b, st.pos, "do") {
        lemma_g_body(b, at_pos(st, past(st.pos, "do")), d);
    }
}

#[verifier::spinoff_prover]
proof fn lemma_g_while(b: Seq<u8>, st: St, d: nat, until: bool)
    requires
        0 <= st.pos <= b.len(),
    ensures
        kind_ok(g_while(b, st, d, until), b, st),
    decreases d, 86int, b.len() - st.pos,
{
    lemma_g_body(b, st, d);
    if let Parsed::Done(guard, s1) = g_body(b, st, d) {
        lemma_g_do(b, s1, d);
    }
}

#[verifier::spinoff_prover]
proof fn lemma_g_for(b: Seq<u8>, st: St, d: nat)
    requires
        0 <= st.pos <= b.len(),
    ensures
        kind_ok(g_for(b, st, d), b, st),
    decreases d, 86int, b.len() - st.pos,
{
    let q = blanks(b, st.pos);
    lemma_blanks(b, st.pos);
    if byte_at(b, q) == LPAREN && byte_at(b, q + 1) == LPAREN {
        lemma_g_cfor(b, at_pos(st, q + 2), d);
    } else if name_end(b, q) > q {
        lemma_name_end(b, q);
        lemma_blanks(b, name_end(b, q));
        lemma_within(b, q, name_end(b, q));
        lemma_g_for_in(
            b,
            at_pos(st, blanks(b, name_end(b, q))),
            d,
            b.subrange(q, name_end(b, q)),
        );
    }
}

#[verifier::spinoff_prover]
proof fn lemma_g_for_in(b: Seq<u8>, st: St, d: nat, var: Seq<u8>)
    requires
        0 <= st.pos <= b.len(),
        within(var, b),
    ensures
        kind_ok(g_for_in(b, st, d, var), b, st),
    decreases d, 85int, b.len() - st.pos,
{
    if kw(b, st.pos, "in") {
        lemma_g_words(b, past(st.pos, "in"), d, Seq::empty());
        if let Parsed::Done(words, e2) = g_words(b, past(st.pos, "in"), d, Seq::empty()) {
            lemma_g_for_body(b, at_pos(st, e2), d, var, Some(words));
        }
    } else {
        lemma_g_for_body(b, st, d, var, None);
    }
}

#[verifier::spinoff_prover]
proof fn lemma_g_for_body(b: Seq<u8>, st: St, d: nat, var: Seq<u8>, words: Option<Seq<WordView>>)
    requires
        0 <= st.pos <= b.len(),
        within(var, b),
        words matches Some(w) ==> words_from(w, b),
    ensures
        kind_ok(g_for_body(b, st, d, var, words), b, st),
    decreases d, 84int, b.len() - st.pos,
{
    lemma_g_skip(b, st, true);
    lemma_g_do(b, g_skip(b, st, true), d);
}

/// The outcome of parsing words from `p`.
pub open spec fn words_ok(r: Parsed<Seq<WordView>, int>, b: Seq<u8>, p: int) -> bool {
    r matches Parsed::Done(x, e) ==> p <= e <= b.len() && words_from(x, b)
}

#[verifier::spinoff_prover]
proof fn lemma_g_words(b: Seq<u8>, p: int, d: nat, acc: Seq<WordView>)
    requires
        0 <= p <= b.len(),
        words_from(acc, b),
    ensures
        words_ok(g_words(b, p, d, acc), b, p),
    decreases d, 76int, b.len() - p,
{
    let q = blanks(b, p);
    lemma_blanks(b, p);
    if !cmd_end(b, q) {
        lemma_g_word(b, q, d, WordCtx::Command);
        if let Parsed::Done(w, e) = g_word(b, q, d, WordCtx::Command) {
            lemma_words_push(acc, w, b);
            if p < e <= b.len() {
                lemma_g_words(b, e, d, acc.push(w));
            }
        }
    }
}

#[verifier::spinoff_prover]
proof fn lemma_g_clause(b: Seq<u8>, p: int, d: nat, last: bool)
    requires
        0 <= p <= b.len(),
    ensures
        g_clause(b, p, d, last) matches Parsed::Done(x, e) ==> p <= e <= b.len() && (
        x matches Some(a) ==> arith_from(a, b)),
{
    reveal(clause_end);
    lemma_blanks(b, p);
    lemma_g_arith(b, p, d);
}

#[verifier::spinoff_prover]
proof fn lemma_g_cfor(b: Seq<u8>, st: St, d: nat)
    requires
        0 <= st.pos <= b.len(),
    ensures
        kind_ok(g_cfor(b, st, d), b, st),
    decreases d, 85int, b.len() - st.pos,
{
    lemma_g_clause(b, st.pos, d, false);
    if let Parsed::Done(init, t1) = g_clause(b, st.pos, d, false) {
        lemma_g_clause(b, t1, d, false);
        if let Parsed::Done(cond, t2) = g_clause(b, t1, d, false) {
            lemma_g_cfor_body(b, at_pos(st, t2), d, init, cond);
        }
    }
}

#[verifier::spinoff_prover]
proof fn lemma_g_cfor_body(
    b: Seq<u8>,
    st: St,
    d: nat,
    init: Option<ArithView>,
    cond: Option<ArithView>,
)
    requires
        0 <= st.pos <= b.len(),
        init matches Some(a) ==> arith_from(a, b),
        cond matches Some(a) ==> arith_from(a, b),
    ensures
        kind_ok(g_cfor_body(b, st, d, init, cond), b, st),
    decreases d, 84int, b.len() - st.pos,
{
    lemma_g_clause(b, st.pos, d, true);
    if let Parsed::Done(step, t3) = g_clause(b, st.pos, d, true) {
        lemma_g_skip(b, at_pos(st, t3), true);
        lemma_g_do(b, g_skip(b, at_pos(st, t3), true), d);
    }
}

#[verifier::spinoff_prover]
proof fn lemma_g_case(b: Seq<u8>, st: St, d: nat)
    requires
        0 <= st.pos <= b.len(),
    ensures
        kind_ok(g_case(b, st, d), b, st),
    decreases d, 86int, b.len() - st.pos,
{
    lemma_blanks(b, st.pos);
    lemma_g_word(b, blanks(b, st.pos), d, WordCtx::Command);
    if let Parsed::Done(word, e) = g_word(b, blanks(b, st.pos), d, WordCtx::Command) {
        lemma_g_skip(b, at_pos(st, e), false);
        lemma_g_case_in(b, g_skip(b, at_pos(st, e), false), d, word);
    }
}

#[verifier::spinoff_prover]
proof fn lemma_g_case_in(b: Seq<u8>, st: St, d: nat, word: WordView)
    requires
        0 <= st.pos <= b.len(),
        word_from(word, b),
    ensures
        kind_ok(g_case_in(b, st, d, word), b, st),
    decreases d, 85int, b.len() - st.pos,
{
    if kw(b, st.pos, "in") {
        lemma_g_arms(b, at_pos(st, past(st.pos, "in")), d, Seq::empty());
    }
}

#[verifier::spinoff_prover]
proof fn lemma_g_arms(b: Seq<u8>, st: St, d: nat, acc: Seq<CaseArmView>)
    requires
        0 <= st.pos <= b.len(),
        case_arms_from(acc, b),
    ensures
        g_arms(b, st, d, acc) matches Parsed::Done(x, s2) ==> onward(st, s2, b) && case_arms_from(
            x,
            b,
        ),
    decreases d, 84int, b.len() - st.pos,
{
    let s1 = g_skip(b, st, false);
    lemma_g_skip(b, st, false);
    if !kw(b, s1.pos, "esac") && s1.pos < b.len() {
        lemma_g_arm(b, s1, d);
        if let Parsed::Done(arm, s2) = g_arm(b, s1, d) {
            lemma_case_arms_push(acc, arm, b);
            if st.pos < s2.pos <= b.len() {
                lemma_g_arms(b, s2, d, acc.push(arm));
            }
        }
    }
}

#[verifier::spinoff_prover]
proof fn lemma_g_arm(b: Seq<u8>, st: St, d: nat)
    requires
        0 <= st.pos <= b.len(),
    ensures
        g_arm(b, st, d) matches Parsed::Done(x, s2) ==> onward(st, s2, b) && case_arm_from(x, b),
    decreases d, 83int, b.len() - st.pos,
{
    let t1 = if byte_at(b, st.pos) == LPAREN {
        st.pos + 1
    } else {
        st.pos
    };
    lemma_g_arm_from(b, at_pos(st, t1), d);
}

#[verifier::spinoff_prover]
proof fn lemma_g_arm_from(b: Seq<u8>, st: St, d: nat)
    requires
        0 <= st.pos <= b.len(),
    ensures
        g_arm_from(b, st, d) matches Parsed::Done(x, s2) ==> onward(st, s2, b) && case_arm_from(
            x,
            b,
        ),
    decreases d, 82int, b.len() - st.pos,
{
    reveal(arm_end);
    lemma_g_patterns(b, st.pos, d, Seq::empty());
    if let Parsed::Done(patterns, e) = g_patterns(b, st.pos, d, Seq::empty()) {
        lemma_g_body(b, at_pos(st, e), d);
    }
}

#[verifier::spinoff_prover]
proof fn lemma_g_patterns(b: Seq<u8>, p: int, d: nat, acc: Seq<WordView>)
    requires
        0 <= p <= b.len(),
        words_from(acc, b),
    ensures
        words_ok(g_patterns(b, p, d, acc), b, p),
    decreases d, 81int, b.len() - p,
{
    reveal(pattern_sep);
    lemma_blanks(b, p);
    lemma_g_word(b, blanks(b, p), d, WordCtx::Command);
    if let Parsed::Done(w, e) = g_word(b, blanks(b, p), d, WordCtx::Command) {
        lemma_words_push(acc, w, b);
        lemma_blanks(b, e);
        if let Parsed::Done(more, q) = pattern_sep(b, e) {
            if more && p < q <= b.len() {
                lemma_g_patterns(b, q, d, acc.push(w));
            }
        }
    }
}

// ----- simple commands -----

#[verifier::spinoff_prover]
proof fn lemma_g_simple(b: Seq<u8>, st: St, d: nat)
    requires
        0 <= st.pos <= b.len(),
    ensures
        g_simple(b, st, d) matches Parsed::Done(x, s2) ==> onward(st, s2, b) && simple_cmd_from(
            x,
            b,
        ),
    decreases d, 79int, b.len() - st.pos,
{
    lemma_g_prefix(b, st, d, Seq::empty());
    if let Parsed::Done(prefix, s1) = g_prefix(b, st, d, Seq::empty()) {
        lemma_g_suffix(b, s1, d, Seq::empty());
    }
}

/// The outcome of parsing an assignment from `p`.
pub open spec fn assign_ok(r: Parsed<CmdPrefixView, int>, b: Seq<u8>, p: int) -> bool {
    r matches Parsed::Done(x, e) ==> p <= e <= b.len() && cmd_prefix_from(x, b)
}

#[verifier::spinoff_prover]
proof fn lemma_g_assignment(b: Seq<u8>, p: int, d: nat)
    requires
        0 <= p <= b.len(),
        assign_at(b, p),
    ensures
        assign_ok(g_assignment(b, p, d), b, p),
    decreases d, 76int, b.len() - p,
{
    reveal(assign_at);
    reveal(assign_op_at);
    let e = name_end(b, p);
    lemma_name_end(b, p);
    lemma_within(b, p, e);
    let (op, k) = assign_op_at(b, e);
    lemma_g_assigned(b, e + k, d, b.subrange(p, e), op);
}

#[verifier::spinoff_prover]
proof fn lemma_g_assigned(b: Seq<u8>, p: int, d: nat, name: Seq<u8>, op: AssignOp)
    requires
        0 <= p <= b.len(),
        within(name, b),
    ensures
        assign_ok(g_assigned(b, p, d, name, op), b, p),
    decreases d, 75int, b.len() - p,
{
    match op {
        AssignOp::Append => lemma_g_array_value(b, p, d, name, true),
        AssignOp::Array => lemma_g_array_value(b, p, d, name, false),
        AssignOp::Scalar => lemma_g_scalar_value(b, p, d, name),
    }
}

#[verifier::spinoff_prover]
proof fn lemma_g_array_value(b: Seq<u8>, p: int, d: nat, name: Seq<u8>, append: bool)
    requires
        0 <= p <= b.len(),
        within(name, b),
    ensures
        assign_ok(g_array_value(b, p, d, name, append), b, p),
    decreases d, 74int, b.len() - p,
{
    lemma_g_array(b, p, d, Seq::empty());
}

#[verifier::spinoff_prover]
proof fn lemma_g_scalar_value(b: Seq<u8>, p: int, d: nat, name: Seq<u8>)
    requires
        0 <= p <= b.len(),
        within(name, b),
    ensures
        assign_ok(g_scalar_value(b, p, d, name), b, p),
    decreases d, 74int, b.len() - p,
{
    if !word_end(b, p, WordCtx::Command) {
        lemma_g_word(b, p, d, WordCtx::Command);
    }
}

#[verifier::spinoff_prover]
proof fn lemma_g_array(b: Seq<u8>, p: int, d: nat, acc: Seq<WordView>)
    requires
        0 <= p <= b.len(),
        words_from(acc, b),
    ensures
        words_ok(g_array(b, p, d, acc), b, p),
    decreases d, 73int, b.len() - p,
{
    let q = run_end(b, p, ByteClass::Space);
    lemma_run_end(b, p, ByteClass::Space);
    if byte_at(b, q) != RPAREN && !word_end(b, q, WordCtx::Command) {
        lemma_g_word(b, q, d, WordCtx::Command);
        if let Parsed::Done(w, e) = g_word(b, q, d, WordCtx::Command) {
            lemma_words_push(acc, w, b);
            if p < e <= b.len() {
                lemma_g_array(b, e, d, acc.push(w));
            }
        }
    }
}

#[verifier::spinoff_prover]
proof fn lemma_g_prefix_item(b: Seq<u8>, st: St, d: nat)
    requires
        0 <= st.pos <= b.len(),
    ensures
        g_prefix_item(b, st, d) matches Parsed::Done(x, s2) ==> onward(st, s2, b) && (
        x matches Some(item) ==> cmd_prefix_from(item, b)),
    decreases d, 77int, b.len() - st.pos,
{
    if redir_at(b, st.pos) is Some {
        lemma_g_redir(b, st, d);
    } else if assign_at(b, st.pos) {
        lemma_g_assignment(b, st.pos, d);
    }
}

#[verifier::spinoff_prover]
proof fn lemma_g_prefix(b: Seq<u8>, st: St, d: nat, acc: Seq<CmdPrefixView>)
    requires
        0 <= st.pos <= b.len(),
        prefixes_from(acc, b),
    ensures
        g_prefix(b, st, d, acc) matches Parsed::Done(x, s2) ==> onward(st, s2, b) && prefixes_from(
            x,
            b,
        ),
    decreases d, 78int, b.len() - st.pos,
{
    lemma_blanks(b, st.pos);
    let s1 = at_pos(st, blanks(b, st.pos));
    lemma_g_prefix_item(b, s1, d);
    if let Parsed::Done(Some(item), s2) = g_prefix_item(b, s1, d) {
        lemma_prefixes_push(acc, item, b);
        if st.pos < s2.pos <= b.len() {
            lemma_g_prefix(b, s2, d, acc.push(item));
        }
    }
}

#[verifier::spinoff_prover]
proof fn lemma_g_suffix_item(b: Seq<u8>, st: St, d: nat)
    requires
        0 <= st.pos <= b.len(),
    ensures
        g_suffix_item(b, st, d) matches Parsed::Done(x, s2) ==> onward(st, s2, b) && (
        x matches Some(item) ==> cmd_suffix_from(item, b)),
    decreases d, 77int, b.len() - st.pos,
{
    if redir_at(b, st.pos) is Some {
        lemma_g_redir(b, st, d);
    } else if !cmd_end(b, st.pos) {
        lemma_g_word(b, st.pos, d, WordCtx::Command);
    }
}

#[verifier::spinoff_prover]
proof fn lemma_g_suffix(b: Seq<u8>, st: St, d: nat, acc: Seq<CmdSuffixView>)
    requires
        0 <= st.pos <= b.len(),
        suffixes_from(acc, b),
    ensures
        g_suffix(b, st, d, acc) matches Parsed::Done(x, s2) ==> onward(st, s2, b) && suffixes_from(
            x,
            b,
        ),
    decreases d, 78int, b.len() - st.pos,
{
    lemma_blanks(b, st.pos);
    let s1 = at_pos(st, blanks(b, st.pos));
    lemma_g_suffix_item(b, s1, d);
    if let Parsed::Done(Some(item), s2) = g_suffix_item(b, s1, d) {
        lemma_suffixes_push(acc, item, b);
        if st.pos < s2.pos <= b.len() {
            lemma_g_suffix(b, s2, d, acc.push(item));
        }
    }
}

// ----- redirects -----

proof fn lemma_redir_at(b: Seq<u8>, p: int)
    requires
        0 <= p <= b.len(),
    ensures
        redir_at(b, p) matches Some((_, _, after)) ==> p <= after <= b.len(),
{
    reveal(redir_at);
    reveal(redir_op_at);
    lemma_run_end(b, p, ByteClass::Digit);
}

#[verifier::spinoff_prover]
proof fn lemma_g_redirs(b: Seq<u8>, st: St, d: nat, acc: Seq<RedirView>)
    requires
        0 <= st.pos <= b.len(),
        redirs_from(acc, b),
    ensures
        g_redirs(b, st, d, acc) matches Parsed::Done(x, s2) ==> onward(st, s2, b) && redirs_from(
            x,
            b,
        ),
    decreases d, 74int, b.len() - st.pos,
{
    let q = blanks(b, st.pos);
    lemma_blanks(b, st.pos);
    if redir_at(b, q) is Some {
        lemma_g_redir(b, at_pos(st, q), d);
        if let Parsed::Done(r, s2) = g_redir(b, at_pos(st, q), d) {
            lemma_redirs_push(acc, r, b);
            if st.pos < s2.pos <= b.len() {
                lemma_g_redirs(b, s2, d, acc.push(r));
            }
        }
    }
}

/// The outcome of parsing a redirect from `st`.
pub open spec fn redir_ok(r: Parsed<RedirView, St>, b: Seq<u8>, st: St) -> bool {
    r matches Parsed::Done(x, s2) ==> onward(st, s2, b) && redir_from(x, b)
}

#[verifier::spinoff_prover]
proof fn lemma_g_redir(b: Seq<u8>, st: St, d: nat)
    requires
        0 <= st.pos <= b.len(),
    ensures
        redir_ok(g_redir(b, st, d), b, st),
    decreases d, 73int, b.len() - st.pos,
{
    lemma_redir_at(b, st.pos);
    if let Some((fd, op, after)) = redir_at(b, st.pos) {
        lemma_blanks(b, after);
        if op is Heredoc || op is HeredocStrip {
            lemma_g_heredoc(b, at_pos(st, blanks(b, after)), d, op is HeredocStrip);
        } else {
            lemma_g_redir_target(b, at_pos(st, blanks(b, after)), d, op, fd);
        }
    }
}

#[verifier::spinoff_prover]
proof fn lemma_g_redir_target(b: Seq<u8>, st: St, d: nat, op: RedirOp, fd: Option<u16>)
    requires
        0 <= st.pos <= b.len(),
    ensures
        redir_ok(g_redir_target(b, st, d, op, fd), b, st),
    decreases d, 72int, b.len() - st.pos,
{
    lemma_g_word(b, st.pos, d, WordCtx::Command);
}

// ----- heredocs -----

/// The delimiter of a heredoc lies in the input.
pub proof fn lemma_heredoc_delim(b: Seq<u8>, p: int)
    requires
        0 <= p <= b.len(),
    ensures
        heredoc_delim(b, p) matches Some((from, to, _, after)) ==> p <= from <= to <= after
            <= b.len(),
{
    reveal(heredoc_delim);
    lemma_run_end(b, p + 1, ByteClass::NotSquote);
    lemma_run_end(b, p + 1, ByteClass::NotDquote);
    lemma_run_end(b, p, ByteClass::NotMeta);
}

/// The body of a heredoc starts in the input, behind its delimiter.
pub proof fn lemma_body_start(b: Seq<u8>, st: St, after: int)
    requires
        0 <= after <= b.len(),
    ensures
        after <= body_start(b, st, after) <= b.len(),
{
    reveal(body_start);
    lemma_run_end(b, after, ByteClass::NotNewline);
}

/// The body of a heredoc ends in the input, and so does the line behind
/// it.
pub proof fn lemma_heredoc_end(b: Seq<u8>, ls: int, delim: Seq<u8>, strip: bool)
    requires
        0 <= ls <= b.len(),
    ensures
        heredoc_end(b, ls, delim, strip) matches Some((end, resume)) ==> ls <= end <= resume
            <= b.len(),
    decreases b.len() - ls,
{
    reveal(heredoc_end);
    let le = run_end(b, ls, ByteClass::NotNewline);
    lemma_run_end(b, ls, ByteClass::NotNewline);
    if ls < b.len() && le < b.len() {
        lemma_heredoc_end(b, le + 1, delim, strip);
    }
}

#[verifier::spinoff_prover]
proof fn lemma_g_heredoc(b: Seq<u8>, st: St, d: nat, strip: bool)
    requires
        0 <= st.pos <= b.len(),
    ensures
        redir_ok(g_heredoc(b, st, d, strip), b, st),
    decreases d, 72int, b.len() - st.pos,
{
    lemma_heredoc_delim(b, st.pos);
    if let Some((from, to, quoted, after)) = heredoc_delim(b, st.pos) {
        let start = body_start(b, st, after);
        lemma_body_start(b, st, after);
        lemma_heredoc_end(b, start, b.subrange(from, to), strip);
        if let Some((end, resume)) = heredoc_end(b, start, b.subrange(from, to), strip) {
            lemma_g_heredoc_body(b, start, end, d, quoted, st.pos);
        }
    }
}

#[verifier::spinoff_prover]
proof fn lemma_g_heredoc_body(b: Seq<u8>, start: int, end: int, d: nat, quoted: bool, at: int)
    requires
        0 <= start <= end <= b.len(),
    ensures
        g_heredoc_body(b, start, end, d, quoted, at) matches Parsed::Done(x, _)
            ==> heredoc_body_from(x, b),
    decreases d, 71int, b.len() - start,
{
    let body = b.subrange(start, end);
    lemma_within(b, start, end);
    if !quoted && d > 0 {
        lemma_g_dq_atoms(body, 0, (d - 1) as nat, true, Seq::empty());
        if let Parsed::Done(atoms, _) = g_dq_atoms(body, 0, (d - 1) as nat, true, Seq::empty()) {
            lemma_atoms_from_part(atoms, body, b);
        }
    }
}

} // verus!
