//! Commands: lists, pipelines, simple and compound commands, redirects.

use vstd::prelude::*;
use crate::ast_view::{
    AndOrListView, AndOrView, ArithView, CaseArmView, CmdPrefixView, CmdSuffixView, CmdView,
    CompoundCmdView, CompoundKindView, ExecutableView, GuardBodyView, HeredocBodyView, PipelineView,
    RedirView, SimpleCmdView, WordView,
};
use crate::bytes::{AMP, EQUALS, GT, HASH, LPAREN, LT, MINUS, NL, PIPE, PLUS, RPAREN, SEMI};
use crate::grammar::arith::{decimal, g_arith};
use crate::grammar::words::{g_dq_atoms, g_word, word_end};
use crate::grammar::{blanks, kw, Parsed, past, St, too_deep, WordCtx};
use crate::text::{byte_at, ByteClass, DQUOTE, name_end, run_end, SQUOTE, squote_end};

verus! {

// ----- separators and closers -----

/// The state `st` moved to `pos`.
pub open spec fn at_pos(st: St, pos: int) -> St {
    St { pos, resume: st.resume }
}

/// The state behind one separator at `q`, where no blank stands: a
/// comment up to the end of its line, a newline, or, if `semis` is set, a
/// single semicolon. A newline leads to the line behind the heredoc bodies
/// that were read, if any were. Where no separator stands the state stays.
#[verifier::opaque]
pub open spec fn skip_next(b: Seq<u8>, st: St, semis: bool) -> St {
    let q = st.pos;
    let c = byte_at(b, q);
    if c == HASH {
        St { pos: run_end(b, q, ByteClass::NotNewline), resume: st.resume }
    } else if c == NL {
        St {
            pos: if q < st.resume <= b.len() {
                st.resume
            } else {
                q + 1
            },
            resume: 0,
        }
    } else if c == SEMI && byte_at(b, q + 1) != SEMI && semis {
        St { pos: q + 1, resume: st.resume }
    } else {
        st
    }
}

/// The state behind what separates commands at `st`: blanks, comments and
/// newlines, and single semicolons too if `semis` is set.
#[verifier::opaque]
pub open spec fn g_skip(b: Seq<u8>, st: St, semis: bool) -> St
    decreases b.len() - st.pos,
{
    let q = blanks(b, st.pos);
    let next = skip_next(b, at_pos(st, q), semis);
    if st.pos <= q < next.pos <= b.len() {
        g_skip(b, next, semis)
    } else {
        at_pos(st, q)
    }
}

/// What closes an enclosing construct stands at `p`: `)`, `;;`, or one of
/// the closing keywords where a command would start.
#[verifier::opaque]
pub open spec fn at_closer(b: Seq<u8>, p: int) -> bool {
    ||| byte_at(b, p) == RPAREN
    ||| (byte_at(b, p) == SEMI && byte_at(b, p + 1) == SEMI)
    ||| kw(b, p, "then")
    ||| kw(b, p, "elif")
    ||| kw(b, p, "else")
    ||| kw(b, p, "fi")
    ||| kw(b, p, "do")
    ||| kw(b, p, "done")
    ||| kw(b, p, "esac")
    ||| kw(b, p, "}")
    ||| kw(b, p, "]]")
}

/// No word of a simple command starts at `p`: the command ends there.
#[verifier::opaque]
pub open spec fn cmd_end(b: Seq<u8>, p: int) -> bool {
    word_end(b, p, WordCtx::Command) || byte_at(b, p) == HASH || kw(b, p, "]]")
}

/// No command starts at `p`: the input ends there, or an enclosing
/// construct is closed.
pub open spec fn list_end(b: Seq<u8>, p: int) -> bool {
    p >= b.len() || at_closer(b, p)
}

// ----- lists -----

/// A whole script: commands up to the end of the input, with constructs
/// nested at most `d` deep.
pub open spec fn g_program(b: Seq<u8>, d: nat) -> Parsed<Seq<CmdView>, ()> {
    match g_list(b, St { pos: 0, resume: 0 }, d) {
        Parsed::Done(cmds, st) => if st.pos >= b.len() {
            Parsed::Done(cmds, ())
        } else {
            Parsed::Fail(st.pos, "unexpected token"@)
        },
        Parsed::Fail(at, msg) => Parsed::Fail(at, msg),
    }
}

/// The commands of the script take up the whole input: the list ends
/// where the input ends.
pub open spec fn consumed(b: Seq<u8>, d: nat) -> bool {
    g_list(b, St { pos: 0, resume: 0 }, d) matches Parsed::Done(_, st) && st.pos == b.len()
}

/// Commands, each separated from the next, up to the end of the input or
/// to what closes the enclosing construct.
pub open spec fn g_list(b: Seq<u8>, st: St, d: nat) -> Parsed<Seq<CmdView>, St>
    decreases d, 100int, b.len() - st.pos,
{
    let s1 = g_skip(b, st, true);
    if st.pos <= s1.pos {
        g_list_from(b, s1, d, Seq::empty())
    } else {
        Parsed::Done(Seq::empty(), st)
    }
}

/// The commands from `st` on, where a command may start, behind `acc`.
pub open spec fn g_list_from(b: Seq<u8>, st: St, d: nat, acc: Seq<CmdView>) -> Parsed<
    Seq<CmdView>,
    St,
>
    decreases d, 99int, b.len() - st.pos,
{
    if list_end(b, st.pos) {
        Parsed::Done(acc, st)
    } else {
        match g_separated(b, st, d) {
            Parsed::Done(cmd, s3) => if st.pos < s3.pos <= b.len() {
                g_list_from(b, s3, d, acc.push(cmd))
            } else {
                Parsed::Done(acc.push(cmd), s3)
            },
            Parsed::Fail(at, msg) => Parsed::Fail(at, msg),
        }
    }
}

/// A command and what separates it from the next.
pub open spec fn g_separated(b: Seq<u8>, st: St, d: nat) -> Parsed<CmdView, St>
    decreases d, 98int, b.len() - st.pos,
{
    match g_cmd(b, st, d) {
        Parsed::Done(cmd, s2) => match g_separator(b, s2, cmd is Job) {
            Parsed::Done(_, s3) => Parsed::Done(cmd, s3),
            Parsed::Fail(at, msg) => Parsed::Fail(at, msg),
        },
        Parsed::Fail(at, msg) => Parsed::Fail(at, msg),
    }
}

/// What stands between a command and the next: a separator, unless the
/// command runs in the background or the list ends.
#[verifier::opaque]
pub open spec fn g_separator(b: Seq<u8>, st: St, job: bool) -> Parsed<(), St> {
    let s3 = g_skip(b, st, true);
    if job || s3.pos > st.pos || list_end(b, s3.pos) {
        Parsed::Done((), s3)
    } else {
        Parsed::Fail(s3.pos, "unexpected token"@)
    }
}

/// The commands of a nested list, one level deeper.
pub open spec fn g_body(b: Seq<u8>, st: St, d: nat) -> Parsed<Seq<CmdView>, St>
    decreases d, 80int, b.len() - st.pos,
{
    if d == 0 {
        Parsed::Fail(st.pos, too_deep())
    } else {
        g_list(b, st, (d - 1) as nat)
    }
}

/// An and/or list, run in the background if `&` follows it.
pub open spec fn g_cmd(b: Seq<u8>, st: St, d: nat) -> Parsed<CmdView, St>
    decreases d, 97int, b.len() - st.pos,
{
    match g_and_or(b, st, d) {
        Parsed::Done(list, s1) => Parsed::Done(
            if job_at(b, s1.pos) {
                CmdView::Job(list)
            } else {
                CmdView::List(list)
            },
            at_pos(
                s1,
                if job_at(b, s1.pos) {
                    s1.pos + 1
                } else {
                    s1.pos
                },
            ),
        ),
        Parsed::Fail(at, msg) => Parsed::Fail(at, msg),
    }
}

/// The `&` that sends a command to the background stands at `p`.
#[verifier::opaque]
pub open spec fn job_at(b: Seq<u8>, p: int) -> bool {
    byte_at(b, p) == AMP && byte_at(b, p + 1) != AMP
}

/// A pipeline and the pipelines chained to it by `&&` and `||`.
pub open spec fn g_and_or(b: Seq<u8>, st: St, d: nat) -> Parsed<AndOrListView, St>
    decreases d, 96int, b.len() - st.pos,
{
    match g_pipeline(b, st, d) {
        Parsed::Done(first, s1) => match g_and_or_rest(b, s1, d, Seq::empty()) {
            Parsed::Done(rest, s2) => Parsed::Done(AndOrListView { first, rest }, s2),
            Parsed::Fail(at, msg) => Parsed::Fail(at, msg),
        },
        Parsed::Fail(at, msg) => Parsed::Fail(at, msg),
    }
}

/// The chained pipelines from `st` on, behind `acc`, in the order written.
pub open spec fn g_and_or_rest(b: Seq<u8>, st: St, d: nat, acc: Seq<AndOrView>) -> Parsed<
    Seq<AndOrView>,
    St,
>
    decreases d, 95int, b.len() - st.pos,
{
    let c = byte_at(b, st.pos);
    if (c == AMP || c == PIPE) && byte_at(b, st.pos + 1) == c {
        match g_chained(b, at_pos(st, st.pos + 2), d, c == AMP) {
            Parsed::Done(item, s2) => if st.pos < s2.pos <= b.len() {
                g_and_or_rest(b, s2, d, acc.push(item))
            } else {
                Parsed::Done(acc.push(item), s2)
            },
            Parsed::Fail(at, msg) => Parsed::Fail(at, msg),
        }
    } else {
        Parsed::Done(acc, st)
    }
}

/// The pipeline behind `&&`, if `and` is set, or `||`. It may stand on a
/// later line.
pub open spec fn g_chained(b: Seq<u8>, st: St, d: nat, and: bool) -> Parsed<AndOrView, St>
    decreases d, 94int, b.len() - st.pos,
{
    match g_pipeline(b, g_skip(b, st, false), d) {
        Parsed::Done(pipeline, s2) => Parsed::Done(
            if and {
                AndOrView::And(pipeline)
            } else {
                AndOrView::Or(pipeline)
            },
            s2,
        ),
        Parsed::Fail(at, msg) => Parsed::Fail(at, msg),
    }
}

/// The pipeline of `stages`: of the single form where one executable is
/// not negated.
pub open spec fn pipeline_of(negated: bool, stages: Seq<ExecutableView>) -> PipelineView {
    if !negated && stages.len() == 1 {
        PipelineView::Single(stages[0])
    } else {
        PipelineView::Pipe(negated, stages)
    }
}

/// Executables joined by `|`, negated if `!` leads.
pub open spec fn g_pipeline(b: Seq<u8>, st: St, d: nat) -> Parsed<PipelineView, St>
    decreases d, 93int, b.len() - st.pos,
{
    let negated = kw(b, st.pos, "!");
    let t1 = if negated {
        blanks(b, past(st.pos, "!"))
    } else {
        st.pos
    };
    match g_executable(b, at_pos(st, t1), d) {
        Parsed::Done(first, s1) => match g_pipe_rest(b, s1, d, seq![first]) {
            Parsed::Done(stages, s2) => Parsed::Done(pipeline_of(negated, stages), s2),
            Parsed::Fail(at, msg) => Parsed::Fail(at, msg),
        },
        Parsed::Fail(at, msg) => Parsed::Fail(at, msg),
    }
}

/// The further stages of a pipeline from `st` on, behind `acc`. Ends
/// behind the blanks that follow the last stage.
pub open spec fn g_pipe_rest(b: Seq<u8>, st: St, d: nat, acc: Seq<ExecutableView>) -> Parsed<
    Seq<ExecutableView>,
    St,
>
    decreases d, 92int, b.len() - st.pos,
{
    let q = blanks(b, st.pos);
    if byte_at(b, q) == PIPE && byte_at(b, q + 1) != PIPE {
        match g_executable(b, g_skip(b, at_pos(st, q + 1), false), d) {
            Parsed::Done(stage, s2) => if st.pos < s2.pos <= b.len() {
                g_pipe_rest(b, s2, d, acc.push(stage))
            } else {
                Parsed::Done(acc.push(stage), s2)
            },
            Parsed::Fail(at, msg) => Parsed::Fail(at, msg),
        }
    } else {
        Parsed::Done(acc, at_pos(st, q))
    }
}

// ----- executables -----

/// A compound command starts at `p`.
#[verifier::opaque]
pub open spec fn compound_start(b: Seq<u8>, p: int) -> bool {
    ||| kw(b, p, "if")
    ||| kw(b, p, "for")
    ||| kw(b, p, "while")
    ||| kw(b, p, "until")
    ||| kw(b, p, "case")
    ||| kw(b, p, "{")
    ||| kw(b, p, "[[")
    ||| byte_at(b, p) == LPAREN
}

/// A function definition `name()` starts at `p`.
#[verifier::opaque]
pub open spec fn funcdef_at(b: Seq<u8>, p: int) -> bool {
    let e = name_end(b, p);
    e > p && byte_at(b, blanks(b, e)) == LPAREN && byte_at(b, blanks(b, e) + 1) == RPAREN
}

/// What can be a stage of a pipeline: a compound command, a function
/// definition, or a simple command. The keywords count only here, where a
/// command starts.
pub open spec fn g_executable(b: Seq<u8>, st: St, d: nat) -> Parsed<ExecutableView, St>
    decreases d, 91int, b.len() - st.pos,
{
    let p = st.pos;
    if at_closer(b, p) {
        Parsed::Fail(p, "unexpected token"@)
    } else if compound_start(b, p) {
        g_compound_exec(b, st, d)
    } else if kw(b, p, "function") {
        g_function(b, at_pos(st, past(p, "function")), d)
    } else if funcdef_at(b, p) {
        g_funcdef(b, st, d)
    } else {
        g_simple_exec(b, st, d)
    }
}

/// A compound command as an executable.
pub open spec fn g_compound_exec(b: Seq<u8>, st: St, d: nat) -> Parsed<ExecutableView, St>
    decreases d, 90int, b.len() - st.pos,
{
    match g_compound(b, st, d) {
        Parsed::Done(c, s1) => Parsed::Done(ExecutableView::Compound(c), s1),
        Parsed::Fail(at, msg) => Parsed::Fail(at, msg),
    }
}

/// A simple command as an executable.
pub open spec fn g_simple_exec(b: Seq<u8>, st: St, d: nat) -> Parsed<ExecutableView, St>
    decreases d, 90int, b.len() - st.pos,
{
    match g_simple(b, st, d) {
        Parsed::Done(c, s1) => Parsed::Done(ExecutableView::Simple(c), s1),
        Parsed::Fail(at, msg) => Parsed::Fail(at, msg),
    }
}

/// The function definition `name() body` that starts at `st`.
pub open spec fn g_funcdef(b: Seq<u8>, st: St, d: nat) -> Parsed<ExecutableView, St>
    decreases d, 90int, b.len() - st.pos,
{
    let e = name_end(b, st.pos);
    g_func_body(b, at_pos(st, blanks(b, e) + 2), d, b.subrange(st.pos, e))
}

/// A function definition from behind the keyword `function`: the name,
/// `()` or not, and the body.
pub open spec fn g_function(b: Seq<u8>, st: St, d: nat) -> Parsed<ExecutableView, St>
    decreases d, 90int, b.len() - st.pos,
{
    let q = blanks(b, st.pos);
    let e = name_end(b, q);
    let q2 = blanks(b, e);
    if e > q {
        g_func_body(
            b,
            at_pos(
                st,
                if byte_at(b, q2) == LPAREN && byte_at(b, q2 + 1) == RPAREN {
                    q2 + 2
                } else {
                    q2
                },
            ),
            d,
            b.subrange(q, e),
        )
    } else {
        Parsed::Fail(q, "expected function name"@)
    }
}

/// The body of the function `name`: a compound command, on the same line
/// or a later one.
pub open spec fn g_func_body(b: Seq<u8>, st: St, d: nat, name: Seq<u8>) -> Parsed<
    ExecutableView,
    St,
>
    decreases d, 89int, b.len() - st.pos,
{
    let s1 = g_skip(b, st, false);
    if compound_start(b, s1.pos) {
        match g_compound(b, s1, d) {
            Parsed::Done(c, s2) => Parsed::Done(ExecutableView::FuncDef(name, c), s2),
            Parsed::Fail(at, msg) => Parsed::Fail(at, msg),
        }
    } else {
        Parsed::Fail(s1.pos, "expected compound command"@)
    }
}

/// A compound command with the redirects that follow its closing.
pub open spec fn g_compound(b: Seq<u8>, st: St, d: nat) -> Parsed<CompoundCmdView, St>
    decreases d, 88int, b.len() - st.pos,
{
    match g_kind(b, st, d) {
        Parsed::Done(kind, s1) => match g_redirs(b, s1, d, Seq::empty()) {
            Parsed::Done(redirects, s2) => Parsed::Done(CompoundCmdView { kind, redirects }, s2),
            Parsed::Fail(at, msg) => Parsed::Fail(at, msg),
        },
        Parsed::Fail(at, msg) => Parsed::Fail(at, msg),
    }
}

/// The constructs that are a list between an opening and a closing.
#[derive(Clone, Copy, Debug)]
pub enum Group {
    /// `{ list; }`
    Brace,
    /// `( list )`
    Subshell,
    /// `[[ list ]]`
    DoubleBracket,
}

/// A compound command from its opening keyword to its closing one.
pub open spec fn g_kind(b: Seq<u8>, st: St, d: nat) -> Parsed<CompoundKindView, St>
    decreases d, 87int, b.len() - st.pos,
{
    let p = st.pos;
    if kw(b, p, "if") {
        g_if(b, at_pos(st, past(p, "if")), d, Seq::empty())
    } else if kw(b, p, "while") {
        g_while(b, at_pos(st, past(p, "while")), d, false)
    } else if kw(b, p, "until") {
        g_while(b, at_pos(st, past(p, "until")), d, true)
    } else if kw(b, p, "for") {
        g_for(b, at_pos(st, past(p, "for")), d)
    } else if kw(b, p, "case") {
        g_case(b, at_pos(st, past(p, "case")), d)
    } else {
        g_grouping(b, st, d)
    }
}

/// The opening of a group or of an arithmetic command at `p`: which
/// group it opens, none for the arithmetic command, and its length.
#[verifier::opaque]
pub open spec fn grouping_at(b: Seq<u8>, p: int) -> Option<(Option<Group>, int)> {
    if kw(b, p, "{") {
        Some((Some(Group::Brace), past(p, "{") - p))
    } else if kw(b, p, "[[") {
        Some((Some(Group::DoubleBracket), past(p, "[[") - p))
    } else if byte_at(b, p) == LPAREN && byte_at(b, p + 1) == LPAREN {
        Some((None, 2))
    } else if byte_at(b, p) == LPAREN {
        Some((Some(Group::Subshell), 1))
    } else {
        None
    }
}

/// A group or an arithmetic command from its opening on.
pub open spec fn g_grouping(b: Seq<u8>, st: St, d: nat) -> Parsed<CompoundKindView, St>
    decreases d, 86int, b.len() - st.pos,
{
    match grouping_at(b, st.pos) {
        Some((Some(group), k)) => g_group(b, at_pos(st, st.pos + k), d, group),
        Some((None, k)) => g_arith_cmd(b, at_pos(st, st.pos + k), d),
        None => Parsed::Fail(st.pos, "expected compound command"@),
    }
}

/// The construct of `group` with the commands `body`.
pub open spec fn group_view(group: Group, body: Seq<CmdView>) -> CompoundKindView {
    match group {
        Group::Brace => CompoundKindView::Brace(body),
        Group::Subshell => CompoundKindView::Subshell(body),
        Group::DoubleBracket => CompoundKindView::DoubleBracket(body),
    }
}

/// A group from behind its opening: the list and the closing.
pub open spec fn g_group(b: Seq<u8>, st: St, d: nat, group: Group) -> Parsed<CompoundKindView, St>
    decreases d, 85int, b.len() - st.pos,
{
    match g_body(b, st, d) {
        Parsed::Done(body, s1) => match group_close(b, s1.pos, group) {
            Parsed::Done(_, e) => Parsed::Done(group_view(group, body), at_pos(s1, e)),
            Parsed::Fail(at, msg) => Parsed::Fail(at, msg),
        },
        Parsed::Fail(at, msg) => Parsed::Fail(at, msg),
    }
}

/// The closing of `group` at `p`, and the position behind it.
#[verifier::opaque]
pub open spec fn group_close(b: Seq<u8>, p: int, group: Group) -> Parsed<(), int> {
    match group {
        Group::Brace => if kw(b, p, "}") {
            Parsed::Done((), past(p, "}"))
        } else {
            Parsed::Fail(p, "expected '}'"@)
        },
        Group::Subshell => if byte_at(b, p) == RPAREN {
            Parsed::Done((), p + 1)
        } else {
            Parsed::Fail(p, "expected ')'"@)
        },
        Group::DoubleBracket => if kw(b, p, "]]") {
            Parsed::Done((), past(p, "]]"))
        } else {
            Parsed::Fail(p, "expected ']]'"@)
        },
    }
}

/// `((expr))` from behind its opening.
pub open spec fn g_arith_cmd(b: Seq<u8>, st: St, d: nat) -> Parsed<CompoundKindView, St>
    decreases d, 85int, b.len() - st.pos,
{
    match g_arith(b, st.pos, d) {
        Parsed::Done(x, e) => if byte_at(b, e) == RPAREN && byte_at(b, e + 1) == RPAREN {
            Parsed::Done(CompoundKindView::Arithmetic(x), at_pos(st, e + 2))
        } else {
            Parsed::Fail(e, "expected '))'"@)
        },
        Parsed::Fail(at, msg) => Parsed::Fail(at, msg),
    }
}

/// The branches of an `if` from behind `if` or `elif`, behind the branches
/// `acc`, and what ends the `if`.
pub open spec fn g_if(b: Seq<u8>, st: St, d: nat, acc: Seq<GuardBodyView>) -> Parsed<
    CompoundKindView,
    St,
>
    decreases d, 86int, b.len() - st.pos,
{
    match g_branch(b, st, d) {
        Parsed::Done(branch, s2) => {
            let conditionals = acc.push(branch);
            if kw(b, s2.pos, "elif") {
                if st.pos < past(s2.pos, "elif") <= b.len() {
                    g_if(b, at_pos(s2, past(s2.pos, "elif")), d, conditionals)
                } else {
                    Parsed::Fail(s2.pos, "expected 'fi'"@)
                }
            } else {
                g_if_end(b, s2, d, conditionals)
            }
        },
        Parsed::Fail(at, msg) => Parsed::Fail(at, msg),
    }
}

/// One branch: a guard, `then`, and a body.
pub open spec fn g_branch(b: Seq<u8>, st: St, d: nat) -> Parsed<GuardBodyView, St>
    decreases d, 85int, b.len() - st.pos,
{
    match g_body(b, st, d) {
        Parsed::Done(guard, s1) => if kw(b, s1.pos, "then") {
            match g_body(b, at_pos(s1, past(s1.pos, "then")), d) {
                Parsed::Done(body, s2) => Parsed::Done(GuardBodyView { guard, body }, s2),
                Parsed::Fail(at, msg) => Parsed::Fail(at, msg),
            }
        } else {
            Parsed::Fail(s1.pos, "expected 'then'"@)
        },
        Parsed::Fail(at, msg) => Parsed::Fail(at, msg),
    }
}

/// What ends an `if` behind its branches: `else` with a last body and
/// `fi`, or `fi`.
pub open spec fn g_if_end(b: Seq<u8>, st: St, d: nat, conditionals: Seq<GuardBodyView>) -> Parsed<
    CompoundKindView,
    St,
>
    decreases d, 85int, b.len() - st.pos,
{
    if kw(b, st.pos, "else") {
        match g_body(b, at_pos(st, past(st.pos, "else")), d) {
            Parsed::Done(other, s3) => if kw(b, s3.pos, "fi") {
                Parsed::Done(
                    CompoundKindView::If { conditionals, else_branch: Some(other) },
                    at_pos(s3, past(s3.pos, "fi")),
                )
            } else {
                Parsed::Fail(s3.pos, "expected 'fi'"@)
            },
            Parsed::Fail(at, msg) => Parsed::Fail(at, msg),
        }
    } else if kw(b, st.pos, "fi") {
        Parsed::Done(
            CompoundKindView::If { conditionals, else_branch: None },
            at_pos(st, past(st.pos, "fi")),
        )
    } else {
        Parsed::Fail(st.pos, "expected 'fi'"@)
    }
}

/// `do`, a body, `done`.
pub open spec fn g_do(b: Seq<u8>, st: St, d: nat) -> Parsed<Seq<CmdView>, St>
    decreases d, 83int, b.len() - st.pos,
{
    if kw(b, st.pos, "do") {
        match g_body(b, at_pos(st, past(st.pos, "do")), d) {
            Parsed::Done(body, s1) => if kw(b, s1.pos, "done") {
                Parsed::Done(body, at_pos(s1, past(s1.pos, "done")))
            } else {
                Parsed::Fail(s1.pos, "expected 'done'"@)
            },
            Parsed::Fail(at, msg) => Parsed::Fail(at, msg),
        }
    } else {
        Parsed::Fail(st.pos, "expected 'do'"@)
    }
}

/// `while` and, if `until` is set, `until`, from behind the keyword: the
/// guard, `do`, the body, `done`.
pub open spec fn g_while(b: Seq<u8>, st: St, d: nat, until: bool) -> Parsed<CompoundKindView, St>
    decreases d, 86int, b.len() - st.pos,
{
    match g_body(b, st, d) {
        Parsed::Done(guard, s1) => match g_do(b, s1, d) {
            Parsed::Done(body, s2) => Parsed::Done(
                if until {
                    CompoundKindView::Until(GuardBodyView { guard, body })
                } else {
                    CompoundKindView::While(GuardBodyView { guard, body })
                },
                s2,
            ),
            Parsed::Fail(at, msg) => Parsed::Fail(at, msg),
        },
        Parsed::Fail(at, msg) => Parsed::Fail(at, msg),
    }
}

/// A `for` loop from behind `for`: counting, where `((` follows, else
/// over words.
pub open spec fn g_for(b: Seq<u8>, st: St, d: nat) -> Parsed<CompoundKindView, St>
    decreases d, 86int, b.len() - st.pos,
{
    let q = blanks(b, st.pos);
    if byte_at(b, q) == LPAREN && byte_at(b, q + 1) == LPAREN {
        g_cfor(b, at_pos(st, q + 2), d)
    } else if name_end(b, q) <= q {
        Parsed::Fail(q, "expected variable name"@)
    } else {
        g_for_in(b, at_pos(st, blanks(b, name_end(b, q))), d, b.subrange(q, name_end(b, q)))
    }
}

/// A `for` loop from behind its variable: `in` and words, or neither for
/// the positional parameters; then the body.
pub open spec fn g_for_in(b: Seq<u8>, st: St, d: nat, var: Seq<u8>) -> Parsed<CompoundKindView, St>
    decreases d, 85int, b.len() - st.pos,
{
    if kw(b, st.pos, "in") {
        match g_words(b, past(st.pos, "in"), d, Seq::empty()) {
            Parsed::Done(words, e2) => g_for_body(b, at_pos(st, e2), d, var, Some(words)),
            Parsed::Fail(at, msg) => Parsed::Fail(at, msg),
        }
    } else {
        g_for_body(b, st, d, var, None)
    }
}

/// The body of a `for` loop over `words`, behind the separator.
pub open spec fn g_for_body(
    b: Seq<u8>,
    st: St,
    d: nat,
    var: Seq<u8>,
    words: Option<Seq<WordView>>,
) -> Parsed<CompoundKindView, St>
    decreases d, 84int, b.len() - st.pos,
{
    match g_do(b, g_skip(b, st, true), d) {
        Parsed::Done(body, s2) => Parsed::Done(CompoundKindView::For { var, words, body }, s2),
        Parsed::Fail(at, msg) => Parsed::Fail(at, msg),
    }
}

/// The words from `p` up to the end of the command, behind `acc`.
pub open spec fn g_words(b: Seq<u8>, p: int, d: nat, acc: Seq<WordView>) -> Parsed<
    Seq<WordView>,
    int,
>
    decreases d, 76int, b.len() - p,
{
    let q = blanks(b, p);
    if cmd_end(b, q) {
        Parsed::Done(acc, q)
    } else {
        match g_word(b, q, d, WordCtx::Command) {
            Parsed::Done(w, e) => if p < e <= b.len() {
                g_words(b, e, d, acc.push(w))
            } else {
                Parsed::Done(acc.push(w), e)
            },
            Parsed::Fail(at, msg) => Parsed::Fail(at, msg),
        }
    }
}

/// One clause of a counting loop: an expression, or none, up to and with
/// the `;` behind it, or, for the last clause, the `))`.
pub open spec fn g_clause(b: Seq<u8>, p: int, d: nat, last: bool) -> Parsed<
    Option<ArithView>,
    int,
> {
    let q = blanks(b, p);
    if last && byte_at(b, q) == RPAREN && byte_at(b, q + 1) == RPAREN {
        Parsed::Done(None, q + 2)
    } else if !last && byte_at(b, q) == SEMI {
        Parsed::Done(None, q + 1)
    } else {
        match g_arith(b, p, d) {
            Parsed::Done(x, e) => clause_end(b, e, last, x),
            Parsed::Fail(at, msg) => Parsed::Fail(at, msg),
        }
    }
}

/// What ends the clause `x` at `e`.
#[verifier::opaque]
pub open spec fn clause_end(b: Seq<u8>, e: int, last: bool, x: ArithView) -> Parsed<
    Option<ArithView>,
    int,
> {
    if last {
        if byte_at(b, e) == RPAREN && byte_at(b, e + 1) == RPAREN {
            Parsed::Done(Some(x), e + 2)
        } else {
            Parsed::Fail(e, "expected '))'"@)
        }
    } else if byte_at(b, e) == SEMI {
        Parsed::Done(Some(x), e + 1)
    } else {
        Parsed::Fail(e, "expected ';'"@)
    }
}

/// A counting loop from behind `for ((`: the first two clauses, and the
/// rest.
pub open spec fn g_cfor(b: Seq<u8>, st: St, d: nat) -> Parsed<CompoundKindView, St>
    decreases d, 85int, b.len() - st.pos,
{
    match g_clause(b, st.pos, d, false) {
        Parsed::Done(init, t1) => match g_clause(b, t1, d, false) {
            Parsed::Done(cond, t2) => g_cfor_body(b, at_pos(st, t2), d, init, cond),
            Parsed::Fail(at, msg) => Parsed::Fail(at, msg),
        },
        Parsed::Fail(at, msg) => Parsed::Fail(at, msg),
    }
}

/// The last clause of a counting loop and its body.
pub open spec fn g_cfor_body(
    b: Seq<u8>,
    st: St,
    d: nat,
    init: Option<ArithView>,
    cond: Option<ArithView>,
) -> Parsed<CompoundKindView, St>
    decreases d, 84int, b.len() - st.pos,
{
    match g_clause(b, st.pos, d, true) {
        Parsed::Done(step, t3) => match g_do(b, g_skip(b, at_pos(st, t3), true), d) {
            Parsed::Done(body, s2) => Parsed::Done(
                CompoundKindView::CFor { init, cond, step, body },
                s2,
            ),
            Parsed::Fail(at, msg) => Parsed::Fail(at, msg),
        },
        Parsed::Fail(at, msg) => Parsed::Fail(at, msg),
    }
}

/// A `case` from behind `case`: the word, `in`, and the arms up to `esac`.
pub open spec fn g_case(b: Seq<u8>, st: St, d: nat) -> Parsed<CompoundKindView, St>
    decreases d, 86int, b.len() - st.pos,
{
    match g_word(b, blanks(b, st.pos), d, WordCtx::Command) {
        Parsed::Done(word, e) => g_case_in(b, g_skip(b, at_pos(st, e), false), d, word),
        Parsed::Fail(at, msg) => Parsed::Fail(at, msg),
    }
}

/// A `case` from behind its word: `in` and the arms.
pub open spec fn g_case_in(b: Seq<u8>, st: St, d: nat, word: WordView) -> Parsed<
    CompoundKindView,
    St,
>
    decreases d, 85int, b.len() - st.pos,
{
    if kw(b, st.pos, "in") {
        match g_arms(b, at_pos(st, past(st.pos, "in")), d, Seq::empty()) {
            Parsed::Done(arms, s2) => Parsed::Done(CompoundKindView::Case { word, arms }, s2),
            Parsed::Fail(at, msg) => Parsed::Fail(at, msg),
        }
    } else {
        Parsed::Fail(st.pos, "expected 'in'"@)
    }
}

/// The arms of a `case` from `st` up to and with `esac`, behind the arms
/// `acc`, in the order written: that is the order in which they are tried.
pub open spec fn g_arms(b: Seq<u8>, st: St, d: nat, acc: Seq<CaseArmView>) -> Parsed<
    Seq<CaseArmView>,
    St,
>
    decreases d, 84int, b.len() - st.pos,
{
    let s1 = g_skip(b, st, false);
    let p = s1.pos;
    if kw(b, p, "esac") {
        Parsed::Done(acc, at_pos(s1, past(p, "esac")))
    } else if p >= b.len() {
        Parsed::Fail(p, "expected 'esac'"@)
    } else {
        match g_arm(b, s1, d) {
            Parsed::Done(arm, s2) => if st.pos < s2.pos <= b.len() {
                g_arms(b, s2, d, acc.push(arm))
            } else {
                Parsed::Fail(s2.pos, "expected 'esac'"@)
            },
            Parsed::Fail(at, msg) => Parsed::Fail(at, msg),
        }
    }
}

/// One arm: `(` or not, its patterns, its body, and the `;;` behind it
/// if there is one.
pub open spec fn g_arm(b: Seq<u8>, st: St, d: nat) -> Parsed<CaseArmView, St>
    decreases d, 83int, b.len() - st.pos,
{
    g_arm_from(
        b,
        at_pos(
            st,
            if byte_at(b, st.pos) == LPAREN {
                st.pos + 1
            } else {
                st.pos
            },
        ),
        d,
    )
}

/// One arm from its first pattern on.
pub open spec fn g_arm_from(b: Seq<u8>, st: St, d: nat) -> Parsed<CaseArmView, St>
    decreases d, 82int, b.len() - st.pos,
{
    match g_patterns(b, st.pos, d, Seq::empty()) {
        Parsed::Done(patterns, e) => match g_body(b, at_pos(st, e), d) {
            Parsed::Done(body, s2) => Parsed::Done(
                CaseArmView { patterns, body },
                at_pos(s2, arm_end(b, s2.pos)),
            ),
            Parsed::Fail(at, msg) => Parsed::Fail(at, msg),
        },
        Parsed::Fail(at, msg) => Parsed::Fail(at, msg),
    }
}

/// The position behind the `;;` at `p`, if one stands there.
#[verifier::opaque]
pub open spec fn arm_end(b: Seq<u8>, p: int) -> int {
    if byte_at(b, p) == SEMI && byte_at(b, p + 1) == SEMI {
        p + 2
    } else {
        p
    }
}

/// The patterns of one arm, separated by `|`, up to and with the `)`.
pub open spec fn g_patterns(b: Seq<u8>, p: int, d: nat, acc: Seq<WordView>) -> Parsed<
    Seq<WordView>,
    int,
>
    decreases d, 81int, b.len() - p,
{
    match g_word(b, blanks(b, p), d, WordCtx::Command) {
        Parsed::Done(w, e) => match pattern_sep(b, e) {
            Parsed::Done(more, q) => if more && p < q <= b.len() {
                g_patterns(b, q, d, acc.push(w))
            } else {
                Parsed::Done(acc.push(w), q)
            },
            Parsed::Fail(at, msg) => Parsed::Fail(at, msg),
        },
        Parsed::Fail(at, msg) => Parsed::Fail(at, msg),
    }
}

/// What follows a pattern at `e`: `|` and more patterns, or the `)` that
/// ends them. With the position behind it.
#[verifier::opaque]
pub open spec fn pattern_sep(b: Seq<u8>, e: int) -> Parsed<bool, int> {
    let q = blanks(b, e);
    if byte_at(b, q) == PIPE {
        Parsed::Done(true, q + 1)
    } else if byte_at(b, q) == RPAREN {
        Parsed::Done(false, q + 1)
    } else {
        Parsed::Fail(q, "expected ')'"@)
    }
}

// ----- simple commands -----

/// Assignments and redirects, then words and redirects. There must be one
/// of them at least.
pub open spec fn g_simple(b: Seq<u8>, st: St, d: nat) -> Parsed<SimpleCmdView, St>
    decreases d, 79int, b.len() - st.pos,
{
    match g_prefix(b, st, d, Seq::empty()) {
        Parsed::Done(prefix, s1) => match g_suffix(b, s1, d, Seq::empty()) {
            Parsed::Done(suffix, s2) => if prefix.len() == 0 && suffix.len() == 0 {
                Parsed::Fail(s2.pos, "expected command"@)
            } else {
                Parsed::Done(SimpleCmdView { prefix, suffix }, s2)
            },
            Parsed::Fail(at, msg) => Parsed::Fail(at, msg),
        },
        Parsed::Fail(at, msg) => Parsed::Fail(at, msg),
    }
}

/// An assignment starts at `p`: a name and `=`, or a name and `+=(`.
#[verifier::opaque]
pub open spec fn assign_at(b: Seq<u8>, p: int) -> bool {
    let e = name_end(b, p);
    e > p && (byte_at(b, e) == EQUALS || (byte_at(b, e) == PLUS && byte_at(b, e + 1) == EQUALS
        && byte_at(b, e + 2) == LPAREN))
}

/// The three forms of an assignment.
#[derive(Clone, Copy, Debug)]
pub enum AssignOp {
    /// `name=word`
    Scalar,
    /// `name=(words)`
    Array,
    /// `name+=(words)`
    Append,
}

/// The form of the assignment whose operator stands at `e`, and the
/// length of what is written before the value.
#[verifier::opaque]
pub open spec fn assign_op_at(b: Seq<u8>, e: int) -> (AssignOp, int) {
    if byte_at(b, e) == PLUS {
        (AssignOp::Append, 3)
    } else if byte_at(b, e + 1) == LPAREN {
        (AssignOp::Array, 2)
    } else {
        (AssignOp::Scalar, 1)
    }
}

/// The assignment that starts at `p`: of an array, where `(` follows the
/// operator, else of a word or of nothing.
pub open spec fn g_assignment(b: Seq<u8>, p: int, d: nat) -> Parsed<CmdPrefixView, int>
    decreases d, 76int, b.len() - p,
{
    let e = name_end(b, p);
    let (op, k) = assign_op_at(b, e);
    g_assigned(b, e + k, d, b.subrange(p, e), op)
}

/// The value assigned to `name` in the form `op`.
pub open spec fn g_assigned(b: Seq<u8>, p: int, d: nat, name: Seq<u8>, op: AssignOp) -> Parsed<
    CmdPrefixView,
    int,
>
    decreases d, 75int, b.len() - p,
{
    match op {
        AssignOp::Append => g_array_value(b, p, d, name, true),
        AssignOp::Array => g_array_value(b, p, d, name, false),
        AssignOp::Scalar => g_scalar_value(b, p, d, name),
    }
}

/// The words of an array assigned or, if `append` is set, appended to
/// `name`, from behind the `(`.
pub open spec fn g_array_value(b: Seq<u8>, p: int, d: nat, name: Seq<u8>, append: bool) -> Parsed<
    CmdPrefixView,
    int,
>
    decreases d, 74int, b.len() - p,
{
    match g_array(b, p, d, Seq::empty()) {
        Parsed::Done(words, e2) => Parsed::Done(
            if append {
                CmdPrefixView::ArrayAppend(name, words)
            } else {
                CmdPrefixView::ArrayAssign(name, words)
            },
            e2,
        ),
        Parsed::Fail(at, msg) => Parsed::Fail(at, msg),
    }
}

/// The word assigned to `name` from behind the `=`, or none.
pub open spec fn g_scalar_value(b: Seq<u8>, p: int, d: nat, name: Seq<u8>) -> Parsed<
    CmdPrefixView,
    int,
>
    decreases d, 74int, b.len() - p,
{
    if word_end(b, p, WordCtx::Command) {
        Parsed::Done(CmdPrefixView::Assign(name, None), p)
    } else {
        match g_word(b, p, d, WordCtx::Command) {
            Parsed::Done(w, e2) => Parsed::Done(CmdPrefixView::Assign(name, Some(w)), e2),
            Parsed::Fail(at, msg) => Parsed::Fail(at, msg),
        }
    }
}

/// The words of an array from behind `(` up to and with `)`, behind `acc`.
/// Blanks and newlines separate them.
pub open spec fn g_array(b: Seq<u8>, p: int, d: nat, acc: Seq<WordView>) -> Parsed<
    Seq<WordView>,
    int,
>
    decreases d, 73int, b.len() - p,
{
    let q = run_end(b, p, ByteClass::Space);
    if byte_at(b, q) == RPAREN {
        Parsed::Done(acc, q + 1)
    } else if word_end(b, q, WordCtx::Command) {
        Parsed::Fail(q, "expected ')'"@)
    } else {
        match g_word(b, q, d, WordCtx::Command) {
            Parsed::Done(w, e) => if p < e <= b.len() {
                g_array(b, e, d, acc.push(w))
            } else {
                Parsed::Fail(e, "expected ')'"@)
            },
            Parsed::Fail(at, msg) => Parsed::Fail(at, msg),
        }
    }
}

/// One item of the prefix of a simple command at `st`, where no blank
/// stands: a redirect or an assignment; none where neither starts there.
pub open spec fn g_prefix_item(b: Seq<u8>, st: St, d: nat) -> Parsed<Option<CmdPrefixView>, St>
    decreases d, 77int, b.len() - st.pos,
{
    if redir_at(b, st.pos) is Some {
        match g_redir(b, st, d) {
            Parsed::Done(r, s2) => Parsed::Done(Some(CmdPrefixView::Redirect(r)), s2),
            Parsed::Fail(at, msg) => Parsed::Fail(at, msg),
        }
    } else if assign_at(b, st.pos) {
        match g_assignment(b, st.pos, d) {
            Parsed::Done(a, e) => Parsed::Done(Some(a), at_pos(st, e)),
            Parsed::Fail(at, msg) => Parsed::Fail(at, msg),
        }
    } else {
        Parsed::Done(None, st)
    }
}

/// The assignments and redirects that start a simple command, behind
/// `acc`. The run ends for good at the first word that is neither.
pub open spec fn g_prefix(b: Seq<u8>, st: St, d: nat, acc: Seq<CmdPrefixView>) -> Parsed<
    Seq<CmdPrefixView>,
    St,
>
    decreases d, 78int, b.len() - st.pos,
{
    match g_prefix_item(b, at_pos(st, blanks(b, st.pos)), d) {
        Parsed::Done(Some(item), s2) => if st.pos < s2.pos <= b.len() {
            g_prefix(b, s2, d, acc.push(item))
        } else {
            Parsed::Done(acc.push(item), s2)
        },
        Parsed::Done(None, s2) => Parsed::Done(acc, s2),
        Parsed::Fail(at, msg) => Parsed::Fail(at, msg),
    }
}

/// One item of the suffix of a simple command at `st`, where no blank
/// stands: a redirect or a word; none where the command ends.
pub open spec fn g_suffix_item(b: Seq<u8>, st: St, d: nat) -> Parsed<Option<CmdSuffixView>, St>
    decreases d, 77int, b.len() - st.pos,
{
    if redir_at(b, st.pos) is Some {
        match g_redir(b, st, d) {
            Parsed::Done(r, s2) => Parsed::Done(Some(CmdSuffixView::Redirect(r)), s2),
            Parsed::Fail(at, msg) => Parsed::Fail(at, msg),
        }
    } else if cmd_end(b, st.pos) {
        Parsed::Done(None, st)
    } else {
        match g_word(b, st.pos, d, WordCtx::Command) {
            Parsed::Done(w, e) => Parsed::Done(Some(CmdSuffixView::Word(w)), at_pos(st, e)),
            Parsed::Fail(at, msg) => Parsed::Fail(at, msg),
        }
    }
}

/// The words and redirects of a simple command from `st` on, behind
/// `acc`, up to what ends the command.
pub open spec fn g_suffix(b: Seq<u8>, st: St, d: nat, acc: Seq<CmdSuffixView>) -> Parsed<
    Seq<CmdSuffixView>,
    St,
>
    decreases d, 78int, b.len() - st.pos,
{
    match g_suffix_item(b, at_pos(st, blanks(b, st.pos)), d) {
        Parsed::Done(Some(item), s2) => if st.pos < s2.pos <= b.len() {
            g_suffix(b, s2, d, acc.push(item))
        } else {
            Parsed::Done(acc.push(item), s2)
        },
        Parsed::Done(None, s2) => Parsed::Done(acc, s2),
        Parsed::Fail(at, msg) => Parsed::Fail(at, msg),
    }
}

// ----- redirects -----

/// The redirect operators.
#[derive(Clone, Copy, Debug)]
pub enum RedirOp {
    Read,
    Write,
    Append,
    ReadWrite,
    Clobber,
    DupRead,
    DupWrite,
    HereString,
    Heredoc,
    HeredocStrip,
    WriteAll,
    AppendAll,
}

/// The redirect operator that stands at `p`, and its length. `<(` is none:
/// it starts a process substitution.
#[verifier::opaque]
pub open spec fn redir_op_at(b: Seq<u8>, p: int) -> Option<(RedirOp, int)> {
    let c = byte_at(b, p);
    let n = byte_at(b, p + 1);
    let m = byte_at(b, p + 2);
    if c == LT {
        if n == LT {
            if m == LT {
                Some((RedirOp::HereString, 3))
            } else if m == MINUS {
                Some((RedirOp::HeredocStrip, 3))
            } else {
                Some((RedirOp::Heredoc, 2))
            }
        } else if n == AMP {
            Some((RedirOp::DupRead, 2))
        } else if n == GT {
            Some((RedirOp::ReadWrite, 2))
        } else if n == LPAREN {
            None
        } else {
            Some((RedirOp::Read, 1))
        }
    } else if c == GT {
        if n == GT {
            Some((RedirOp::Append, 2))
        } else if n == AMP {
            Some((RedirOp::DupWrite, 2))
        } else if n == PIPE {
            Some((RedirOp::Clobber, 2))
        } else {
            Some((RedirOp::Write, 1))
        }
    } else if c == AMP && n == GT {
        if m == GT {
            Some((RedirOp::AppendAll, 3))
        } else {
            Some((RedirOp::WriteAll, 2))
        }
    } else {
        None
    }
}

/// The redirect that starts at `p`: the file descriptor written in front
/// of the operator, if any, the operator, and the position behind it.
#[verifier::opaque]
pub open spec fn redir_at(b: Seq<u8>, p: int) -> Option<(Option<u16>, RedirOp, int)> {
    let n = run_end(b, p, ByteClass::Digit);
    if n > p {
        if decimal(b.subrange(p, n)) <= u16::MAX && (byte_at(b, n) == LT || byte_at(b, n) == GT) {
            match redir_op_at(b, n) {
                Some((op, k)) => Some((Some(decimal(b.subrange(p, n)) as u16), op, n + k)),
                None => None,
            }
        } else {
            None
        }
    } else {
        match redir_op_at(b, p) {
            Some((op, k)) => Some((None, op, p + k)),
            None => None,
        }
    }
}

/// The redirect of `op` with the descriptor `fd` and the target `w`.
pub open spec fn redir_view(op: RedirOp, fd: Option<u16>, w: WordView) -> RedirView {
    match op {
        RedirOp::Read => RedirView::Read(fd, w),
        RedirOp::Write => RedirView::Write(fd, w),
        RedirOp::Append => RedirView::Append(fd, w),
        RedirOp::ReadWrite => RedirView::ReadWrite(fd, w),
        RedirOp::Clobber => RedirView::Clobber(fd, w),
        RedirOp::DupRead => RedirView::DupRead(fd, w),
        RedirOp::DupWrite => RedirView::DupWrite(fd, w),
        RedirOp::WriteAll => RedirView::WriteAll(w),
        RedirOp::AppendAll => RedirView::AppendAll(w),
        _ => RedirView::HereString(w),
    }
}

/// The redirects from `st` on, behind `acc`. Ends behind the blanks that
/// follow the last.
pub open spec fn g_redirs(b: Seq<u8>, st: St, d: nat, acc: Seq<RedirView>) -> Parsed<
    Seq<RedirView>,
    St,
>
    decreases d, 74int, b.len() - st.pos,
{
    let q = blanks(b, st.pos);
    if redir_at(b, q) is Some {
        match g_redir(b, at_pos(st, q), d) {
            Parsed::Done(r, s2) => if st.pos < s2.pos <= b.len() {
                g_redirs(b, s2, d, acc.push(r))
            } else {
                Parsed::Done(acc.push(r), s2)
            },
            Parsed::Fail(at, msg) => Parsed::Fail(at, msg),
        }
    } else {
        Parsed::Done(acc, at_pos(st, q))
    }
}

/// The redirect that starts at `st`: the operator and its target word,
/// or, for a heredoc, its delimiter and the body read from the lines that
/// follow.
pub open spec fn g_redir(b: Seq<u8>, st: St, d: nat) -> Parsed<RedirView, St>
    decreases d, 73int, b.len() - st.pos,
{
    match redir_at(b, st.pos) {
        Some((fd, op, after)) => if op is Heredoc || op is HeredocStrip {
            g_heredoc(b, at_pos(st, blanks(b, after)), d, op is HeredocStrip)
        } else {
            g_redir_target(b, at_pos(st, blanks(b, after)), d, op, fd)
        },
        None => Parsed::Fail(st.pos, "expected redirect"@),
    }
}

/// The target word of the redirect of `op` and `fd`.
pub open spec fn g_redir_target(b: Seq<u8>, st: St, d: nat, op: RedirOp, fd: Option<u16>) -> Parsed<
    RedirView,
    St,
>
    decreases d, 72int, b.len() - st.pos,
{
    match g_word(b, st.pos, d, WordCtx::Command) {
        Parsed::Done(w, e) => Parsed::Done(redir_view(op, fd, w), at_pos(st, e)),
        Parsed::Fail(at, msg) => Parsed::Fail(at, msg),
    }
}

// ----- heredocs -----

/// The delimiter of a heredoc that is written at `p`: where its text
/// starts and ends, whether it is quoted, and where reading goes on.
#[verifier::opaque]
pub open spec fn heredoc_delim(b: Seq<u8>, p: int) -> Option<(int, int, bool, int)> {
    let c = byte_at(b, p);
    if c == SQUOTE {
        let e = squote_end(b, p + 1);
        if e < b.len() {
            Some((p + 1, e, true, e + 1))
        } else {
            None
        }
    } else if c == DQUOTE {
        let e = run_end(b, p + 1, ByteClass::NotDquote);
        if e < b.len() {
            Some((p + 1, e, true, e + 1))
        } else {
            None
        }
    } else {
        let e = run_end(b, p, ByteClass::NotMeta);
        if e > p {
            Some((p, e, false, e))
        } else {
            None
        }
    }
}

/// The first line at or after the line start `ls` that is the delimiter,
/// leading tabs aside if `strip` is set: where that line starts, and where
/// the line behind it starts.
#[verifier::opaque]
pub open spec fn heredoc_end(b: Seq<u8>, ls: int, delim: Seq<u8>, strip: bool) -> Option<
    (int, int),
>
    decreases b.len() - ls,
{
    let le = run_end(b, ls, ByteClass::NotNewline);
    let cs = if strip {
        run_end(b, ls, ByteClass::Tab)
    } else {
        ls
    };
    if !(0 <= ls < b.len()) || !(ls <= cs <= le <= b.len()) {
        None
    } else if b.subrange(cs, le) == delim {
        Some(
            (
                ls,
                if le < b.len() {
                    le + 1
                } else {
                    le
                },
            ),
        )
    } else if le < b.len() {
        heredoc_end(b, le + 1, delim, strip)
    } else {
        None
    }
}

/// Where the body of a heredoc begins whose delimiter ends at `after`:
/// behind the bodies already read for this line, or on the next line.
#[verifier::opaque]
pub open spec fn body_start(b: Seq<u8>, st: St, after: int) -> int {
    let le = run_end(b, after, ByteClass::NotNewline);
    if after < st.resume <= b.len() {
        st.resume
    } else if le < b.len() {
        le + 1
    } else {
        b.len() as int
    }
}

/// A heredoc from its delimiter, at `st`, on. The body is all the lines up
/// to the one that is the delimiter. Reading goes on behind the delimiter,
/// and, after the line, behind the body.
pub open spec fn g_heredoc(b: Seq<u8>, st: St, d: nat, strip: bool) -> Parsed<RedirView, St>
    decreases d, 72int, b.len() - st.pos,
{
    match heredoc_delim(b, st.pos) {
        Some((from, to, quoted, after)) => {
            let start = body_start(b, st, after);
            match heredoc_end(b, start, b.subrange(from, to), strip) {
                Some((end, resume)) => match g_heredoc_body(b, start, end, d, quoted, st.pos) {
                    Parsed::Done(body, _) => Parsed::Done(
                        RedirView::Heredoc(body),
                        St { pos: after, resume },
                    ),
                    Parsed::Fail(at, msg) => Parsed::Fail(at, msg),
                },
                None => Parsed::Fail(b.len() as int, "unterminated heredoc"@),
            }
        },
        None => Parsed::Fail(st.pos, "expected heredoc delimiter"@),
    }
}

/// The body of a heredoc that lies from `start` to `end`. Behind a quoted
/// delimiter it is literal; else parameters and substitutions are
/// recognised in it, one level deeper, and the places of its errors are
/// counted in the whole input. `at` is where the delimiter is written.
pub open spec fn g_heredoc_body(
    b: Seq<u8>,
    start: int,
    end: int,
    d: nat,
    quoted: bool,
    at: int,
) -> Parsed<HeredocBodyView, int>
    decreases d, 71int, b.len() - start,
{
    let body = b.subrange(start, end);
    if quoted {
        Parsed::Done(HeredocBodyView::Literal(body), end)
    } else if d == 0 {
        Parsed::Fail(at, too_deep())
    } else {
        match g_dq_atoms(body, 0, (d - 1) as nat, true, Seq::empty()) {
            Parsed::Done(atoms, _) => Parsed::Done(HeredocBodyView::Interpolated(atoms), end),
            Parsed::Fail(pos, msg) => Parsed::Fail(start + pos, msg),
        }
    }
}

} // verus!
