//! Parsing of commands: lists, pipelines, compound and simple commands,
//! redirects and heredocs.

use vstd::pervasive::unreached;
use vstd::prelude::*;
use vstd::slice::slice_subrange;
use vstd::string::StringSliceAdditionalSpecFns;
use crate::ast::{
    AndOr, AndOrList, Arith, CaseArm, Cmd, CmdPrefix, CmdSuffix, CompoundCmd, CompoundKind,
    Executable, GuardBody, HeredocBody, Pipeline, Redir, SimpleCmd, Word,
};
use crate::ast_view::{
    and_or_list_view, and_or_view, and_ors_view, arith_view, case_arm_view, case_arms_view,
    cmd_prefix_view, cmd_suffix_view, cmd_view, cmds_view, compound_cmd_view, compound_kind_view,
    executable_view, executables_view, guard_bodies_view, guard_body_view, heredoc_body_view,
    pipeline_view, prefixes_view, redir_view as redir_node_view, redirs_view, simple_cmd_view,
    suffixes_view, word_view, words_view,
};
use crate::bytes::{AMP, EQUALS, GT, HASH, LPAREN, LT, MINUS, NL, PIPE, PLUS, RPAREN, SEMI};
use crate::grammar::arith::decimal;
use crate::grammar::commands::{
    arm_end, assign_at, assign_op_at, AssignOp, at_closer, body_start, clause_end, cmd_end,
    compound_start, funcdef_at, g_and_or, g_and_or_rest, g_arith_cmd, g_arm, g_arm_from, g_arms,
    g_array, g_array_value, g_assigned, g_assignment, g_body, g_branch, g_case, g_case_in, g_cfor,
    g_cfor_body, g_chained, g_clause, g_cmd, g_compound, g_compound_exec, g_do, g_executable, g_for,
    g_for_body, g_for_in, g_func_body, g_funcdef, g_function, g_group, g_grouping, g_heredoc,
    g_heredoc_body, g_if, g_if_end, g_kind, g_list, g_list_from, g_patterns, g_pipe_rest,
    g_pipeline, g_prefix, g_prefix_item, g_redir, g_redir_target, g_redirs, g_scalar_value,
    g_separated, g_separator, g_simple, g_simple_exec, g_skip, g_suffix, g_suffix_item, g_while,
    g_words, Group, group_close, group_view, grouping_at, heredoc_delim, heredoc_end, job_at,
    list_end, pattern_sep, pipeline_of, redir_at, redir_op_at, redir_view, RedirOp, skip_next,
};
use crate::grammar::{blanks, WordCtx};
use crate::lexer::ParseError;
use crate::parser::arith::decimal_value;
use crate::parser::{cut, lemma_cut_at, lemma_cut_run, lemma_cut_step, Parser};
use crate::text::{byte_at, ByteClass, DQUOTE, lemma_run_end, name_end, run_end, scan_run, SQUOTE};

verus! {


/// Builds the construct of a group.
fn mk_group<'a>(group: Group, body: Vec<Cmd<'a>>) -> (k: CompoundKind<'a>)
    ensures
        compound_kind_view(k) == group_view(group, cmds_view(body)),
{
    match group {
        Group::Brace => CompoundKind::Brace(body),
        Group::Subshell => CompoundKind::Subshell(body),
        Group::DoubleBracket => CompoundKind::DoubleBracket(body),
    }
}

/// Builds the redirect of an operator that takes a word.
fn mk_redir<'a>(op: RedirOp, fd: Option<u16>, w: Word<'a>) -> (r: Redir<'a>)
    ensures
        redir_node_view(r) == redir_view(op, fd, word_view(w)),
{
    match op {
        RedirOp::Read => Redir::Read(fd, w),
        RedirOp::Write => Redir::Write(fd, w),
        RedirOp::Append => Redir::Append(fd, w),
        RedirOp::ReadWrite => Redir::ReadWrite(fd, w),
        RedirOp::Clobber => Redir::Clobber(fd, w),
        RedirOp::DupRead => Redir::DupRead(fd, w),
        RedirOp::DupWrite => Redir::DupWrite(fd, w),
        RedirOp::WriteAll => Redir::WriteAll(w),
        RedirOp::AppendAll => Redir::AppendAll(w),
        _ => Redir::HereString(w),
    }
}

/// Builds the pipeline of the stages read.
fn mk_pipeline<'a>(negated: bool, stages: Vec<Executable<'a>>) -> (p: Pipeline<'a>)
    requires
        stages@.len() > 0,
    ensures
        pipeline_view(p) == pipeline_of(negated, executables_view(stages)),
{
    let mut stages = stages;
    if !negated && stages.len() == 1 {
        match stages.pop() {
            Some(only) => Pipeline::Single(only),
            None => unreached(),
        }
    } else {
        Pipeline::Pipe(negated, stages)
    }
}

/// The byte at index `i`, or the sentinel outside the input.
fn byte(src: &[u8], i: usize) -> (c: u8)
    ensures
        c == byte_at(src@, i as int),
{
    if i < src.len() {
        src[i]
    } else {
        0
    }
}

/// Whether the `n` bytes at `a` are the `n` bytes at `b`.
fn same_bytes(src: &[u8], a: usize, b: usize, n: usize) -> (r: bool)
    requires
        a + n <= src@.len(),
        b + n <= src@.len(),
    ensures
        r == (src@.subrange(a as int, a + n) == src@.subrange(b as int, b + n)),
{
    let len = src.len();
    let mut i: usize = 0;
    while i < n
        invariant
            i <= n,
            a + n <= src@.len() <= usize::MAX,
            b + n <= src@.len(),
            src@.subrange(a as int, a + i) == src@.subrange(b as int, b + i),
        decreases n - i,
    {
        if src[a + i] != src[b + i] {
            assert(src@.subrange(a as int, a + n)[i as int] != src@.subrange(b as int, b + n)[i
                as int]);
            return false;
        }
        assert(src@.subrange(a as int, a + i + 1) =~= src@.subrange(a as int, a + i).push(
            src@[a + i],
        ));
        assert(src@.subrange(b as int, b + i + 1) =~= src@.subrange(b as int, b + i).push(
            src@[b + i],
        ));
        i += 1;
    }
    true
}

/// The redirect operator at index `p`, and its length.
fn redir_op(src: &[u8], p: usize) -> (r: Option<(RedirOp, usize)>)
    requires
        p <= src@.len(),
    ensures
        match r {
            Some((op, k)) => redir_op_at(src@, p as int) == Some((op, k as int)) && 1 <= k <= 3
                && p + k <= src@.len() && forall|i: int|
                p <= i < p + k ==> 0 < #[trigger] byte_at(src@, i) < 0x80,
            None => redir_op_at(src@, p as int) is None,
        },
{
    reveal(redir_op_at);
    let c = byte(src, p);
    let n = if p < src.len() {
        byte(src, p + 1)
    } else {
        0
    };
    let m = if p < src.len() && p + 1 < src.len() {
        byte(src, p + 2)
    } else {
        0
    };
    if c == LT {
        if n == LT {
            if m == LT {
                Some((RedirOp::HereString, 3))
            } else if m == MINUS {
                Some((RedirOp::HeredocStrip, 3))
            } else {
                Some((RedirOp::Heredoc, 2))
            }
        } else if n == AMP {
            Some((RedirOp::DupRead, 2))
        } else if n == GT {
            Some((RedirOp::ReadWrite, 2))
        } else if n == LPAREN {
            None
        } else {
            Some((RedirOp::Read, 1))
        }
    } else if c == GT {
        if n == GT {
            Some((RedirOp::Append, 2))
        } else if n == AMP {
            Some((RedirOp::DupWrite, 2))
        } else if n == PIPE {
            Some((RedirOp::Clobber, 2))
        } else {
            Some((RedirOp::Write, 1))
        }
    } else if c == AMP && n == GT {
        if m == GT {
            Some((RedirOp::AppendAll, 3))
        } else {
            Some((RedirOp::WriteAll, 2))
        }
    } else {
        None
    }
}

impl<'a> Parser<'a> {
    // ----- separators and closers -----

    /// Steps over one separator at the cursor, where no blank stands, and
    /// says whether there was one.
    #[verifier::spinoff_prover]
    fn skip_one(&mut self, semis: bool) -> (moved: bool)
        requires
            old(self).inv(),
        ensures
            final(self).after(old(self)),
            final(self).st() == skip_next(old(self).bytes(), old(self).st(), semis),
            moved == (old(self).at() < final(self).at()),
            !moved ==> final(self).st() == old(self).st(),
    {
        reveal(skip_next);
        let c = self.peek();
        if c == HASH {
            let here = self.here();
            let end = scan_run(self.src(), here, ByteClass::NotNewline);
            proof {
                lemma_run_end(self.bytes(), here as int, ByteClass::NotNewline);
            }
            self.jump_to_ascii(end);
            true
        } else if c == NL {
            if self.resume > self.here() {
                let to = self.resume;
                self.jump(to);
            } else {
                self.take(1);
            }
            proof {
                lemma_cut_at(self.bytes(), 0);
            }
            self.resume = 0;
            true
        } else if c == SEMI && self.peek_at(1) != SEMI && semis {
            self.take(1);
            true
        } else {
            false
        }
    }

    /// Steps over what separates commands.
    #[verifier::spinoff_prover]
    pub(crate) fn skip(&mut self, semis: bool)
        requires
            old(self).inv(),
        ensures
            final(self).after(old(self)),
            final(self).st() == g_skip(old(self).bytes(), old(self).st(), semis),
    {
        loop
            invariant
                self.after(old(self)),
                g_skip(old(self).bytes(), old(self).st(), semis) == g_skip(
                    self.bytes(),
                    self.st(),
                    semis,
                ),
            decreases self.bytes().len() - self.at(),
        {
            reveal(g_skip);
            self.skip_blanks();
            if !self.skip_one(semis) {
                return;
            }
        }
    }

    /// Whether what closes an enclosing construct stands at the cursor.
    #[verifier::spinoff_prover]
    fn at_closer(&self) -> (r: bool)
        ensures
            r == at_closer(self.bytes(), self.at()),
    {
        reveal(at_closer);
        let c = self.peek();
        c == RPAREN || (c == SEMI && self.peek_at(1) == SEMI) || self.at_kw("then") || self.at_kw(
            "elif",
        ) || self.at_kw("else") || self.at_kw("fi") || self.at_kw("do") || self.at_kw("done")
            || self.at_kw("esac") || self.at_kw("}") || self.at_kw("]]")
    }

    /// Whether no command starts at the cursor.
    #[verifier::spinoff_prover]
    fn at_list_end(&self) -> (r: bool)
        requires
            self.inv(),
        ensures
            r == list_end(self.bytes(), self.at()),
            !r ==> self.at() < self.bytes().len(),
    {
        self.lex.is_eof() || self.at_closer()
    }

    /// Whether the simple command ends at the cursor.
    #[verifier::spinoff_prover]
    fn at_cmd_end(&self) -> (r: bool)
        requires
            self.inv(),
        ensures
            r == cmd_end(self.bytes(), self.at()),
            !r ==> self.at() < self.bytes().len(),
    {
        reveal(cmd_end);
        self.at_word_end(WordCtx::Command) || self.peek() == HASH || self.at_kw("]]")
    }

    /// Whether a compound command starts at the cursor.
    #[verifier::spinoff_prover]
    fn at_compound(&self) -> (r: bool)
        ensures
            r == compound_start(self.bytes(), self.at()),
    {
        reveal(compound_start);
        self.at_kw("if") || self.at_kw("for") || self.at_kw("while") || self.at_kw("until")
            || self.at_kw("case") || self.at_kw("{") || self.at_kw("[[") || self.peek() == LPAREN
    }

    /// Whether a function definition `name()` starts at the cursor.
    #[verifier::spinoff_prover]
    fn at_funcdef(&mut self) -> (r: bool)
        requires
            old(self).inv(),
        ensures
            final(self).same_input(old(self)),
            final(self).st() == old(self).st(),
            r == funcdef_at(old(self).bytes(), old(self).at()),
    {
        reveal(funcdef_at);
        let start = self.here();
        self.name();
        let named = self.here() > start;
        self.skip_blanks();
        let r = named && self.peek() == LPAREN && self.peek_at(1) == RPAREN;
        self.rewind(start);
        r
    }

    /// Whether an assignment starts at the cursor.
    #[verifier::spinoff_prover]
    fn at_assign(&mut self) -> (r: bool)
        requires
            old(self).inv(),
        ensures
            final(self).same_input(old(self)),
            final(self).st() == old(self).st(),
            r == assign_at(old(self).bytes(), old(self).at()),
    {
        reveal(assign_at);
        let start = self.here();
        self.name();
        let named = self.here() > start;
        let c = self.peek();
        let r = named && (c == EQUALS || (c == PLUS && self.peek_at(1) == EQUALS && self.peek_at(2)
            == LPAREN));
        self.rewind(start);
        r
    }

    // ----- lists -----

    /// Commands up to the end of the input or to what closes the
    /// enclosing construct.
    #[verifier::spinoff_prover]
    pub(crate) fn parse_list(&mut self, depth: usize) -> (r: Result<Vec<Cmd<'a>>, ParseError>)
        requires
            old(self).inv(),
        ensures
            final(self).same_input(old(self)),
            final(self).in_input(r),
            r is Ok ==> final(self).after(old(self)),
            r is Ok ==> g_list(old(self).bytes(), old(self).st(), depth as nat).is_done(
                cmds_view(r->Ok_0),
                final(self).st(),
            ),
            r is Err ==> g_list(old(self).bytes(), old(self).st(), depth as nat).is_fail(r->Err_0),
        decreases depth, 100int,
    {
        self.skip(true);
        let mut cmds: Vec<Cmd<'a>> = Vec::new();
        assert(cmds_view(cmds) =~= Seq::empty());
        loop
            invariant
                self.after(old(self)),
                g_list(old(self).bytes(), old(self).st(), depth as nat) == g_list_from(
                    self.bytes(),
                    self.st(),
                    depth as nat,
                    cmds_view(cmds),
                ),
            decreases self.bytes().len() - self.at(),
        {
            if self.at_list_end() {
                return Ok(cmds);
            }
            let start = self.here();
            let cmd = self.parse_separated(depth)?;
            let ghost before = cmds_view(cmds);
            cmds.push(cmd);
            assert(cmds_view(cmds) =~= before.push(cmd_view(cmd)));
            if !(start < self.here()) {
                return Ok(cmds);
            }
        }
    }

    /// A command and the separator behind it.
    #[verifier::spinoff_prover]
    fn parse_separated(&mut self, depth: usize) -> (r: Result<Cmd<'a>, ParseError>)
        requires
            old(self).inv(),
        ensures
            final(self).same_input(old(self)),
            final(self).in_input(r),
            r is Ok ==> final(self).after(old(self)),
            r is Ok ==> g_separated(
                old(self).bytes(),
                old(self).st(),
                depth as nat,
            ).is_done(cmd_view(r->Ok_0), final(self).st()),
            r is Err ==> g_separated(
                old(self).bytes(),
                old(self).st(),
                depth as nat,
            ).is_fail(r->Err_0),
        decreases depth, 98int,
    {
        let cmd = self.parse_cmd(depth)?;
        let job = matches!(cmd, Cmd::Job(_));
        self.separator(job)?;
        Ok(cmd)
    }

    /// What stands between a command and the next.
    #[verifier::spinoff_prover]
    fn separator(&mut self, job: bool) -> (r: Result<(), ParseError>)
        requires
            old(self).inv(),
        ensures
            final(self).same_input(old(self)),
            final(self).in_input(r),
            r is Ok ==> final(self).after(old(self)),
            r is Ok ==> g_separator(old(self).bytes(), old(self).st(), job).is_done(
                (),
                final(self).st(),
            ),
            r is Err ==> g_separator(old(self).bytes(), old(self).st(), job).is_fail(r->Err_0),
    {
        reveal(g_separator);
        let before = self.here();
        self.skip(true);
        if job || self.here() > before || self.at_list_end() {
            Ok(())
        } else {
            self.fail("unexpected token")
        }
    }

    /// The commands of a nested list, one level deeper.
    #[verifier::spinoff_prover]
    pub(crate) fn parse_body(&mut self, depth: usize) -> (r: Result<Vec<Cmd<'a>>, ParseError>)
        requires
            old(self).inv(),
        ensures
            final(self).same_input(old(self)),
            final(self).in_input(r),
            r is Ok ==> final(self).after(old(self)),
            r is Ok ==> g_body(
                old(self).bytes(),
                old(self).st(),
                depth as nat,
            ).is_done(cmds_view(r->Ok_0), final(self).st()),
            r is Err ==> g_body(old(self).bytes(), old(self).st(), depth as nat).is_fail(r->Err_0),
        decreases depth, 80int,
    {
        if depth == 0 {
            return self.fail("nesting too deep");
        }
        self.parse_list(depth - 1)
    }

    /// An and/or list, run in the background if `&` follows it.
    #[verifier::spinoff_prover]
    fn parse_cmd(&mut self, depth: usize) -> (r: Result<Cmd<'a>, ParseError>)
        requires
            old(self).inv(),
        ensures
            final(self).same_input(old(self)),
            final(self).in_input(r),
            r is Ok ==> final(self).after(old(self)),
            r is Ok ==> g_cmd(
                old(self).bytes(),
                old(self).st(),
                depth as nat,
            ).is_done(cmd_view(r->Ok_0), final(self).st()),
            r is Err ==> g_cmd(old(self).bytes(), old(self).st(), depth as nat).is_fail(r->Err_0),
        decreases depth, 97int,
    {
        let list = self.parse_and_or(depth)?;
        if self.background() {
            Ok(Cmd::Job(list))
        } else {
            Ok(Cmd::List(list))
        }
    }

    /// Steps over the `&` that sends a command to the background, if one
    /// stands at the cursor, and says whether.
    #[verifier::spinoff_prover]
    fn background(&mut self) -> (job: bool)
        requires
            old(self).inv(),
        ensures
            final(self).after_in_line(old(self)),
            job == job_at(old(self).bytes(), old(self).at()),
            final(self).at() == old(self).at() + if job { 1int } else { 0int },
    {
        reveal(job_at);
        if self.peek() == AMP && self.peek_at(1) != AMP {
            self.take(1);
            true
        } else {
            false
        }
    }

    /// A pipeline and the pipelines chained to it.
    #[verifier::spinoff_prover]
    fn parse_and_or(&mut self, depth: usize) -> (r: Result<AndOrList<'a>, ParseError>)
        requires
            old(self).inv(),
        ensures
            final(self).same_input(old(self)),
            final(self).in_input(r),
            r is Ok ==> final(self).after(old(self)),
            r is Ok ==> g_and_or(
                old(self).bytes(),
                old(self).st(),
                depth as nat,
            ).is_done(and_or_list_view(r->Ok_0), final(self).st()),
            r is Err ==> g_and_or(
                old(self).bytes(),
                old(self).st(),
                depth as nat,
            ).is_fail(r->Err_0),
        decreases depth, 96int,
    {
        let first = self.parse_pipeline(depth)?;
        let rest = self.parse_and_or_rest(depth)?;
        Ok(AndOrList { first, rest })
    }

    /// The pipelines chained by `&&` and `||`.
    #[verifier::spinoff_prover]
    fn parse_and_or_rest(&mut self, depth: usize) -> (r: Result<Vec<AndOr<'a>>, ParseError>)
        requires
            old(self).inv(),
        ensures
            final(self).same_input(old(self)),
            final(self).in_input(r),
            r is Ok ==> final(self).after(old(self)),
            r is Ok ==> g_and_or_rest(
                old(self).bytes(),
                old(self).st(),
                depth as nat,
                Seq::empty(),
            ).is_done(and_ors_view(r->Ok_0), final(self).st()),
            r is Err ==> g_and_or_rest(
                old(self).bytes(),
                old(self).st(),
                depth as nat,
                Seq::empty(),
            ).is_fail(r->Err_0),
        decreases depth, 95int,
    {
        let mut rest: Vec<AndOr<'a>> = Vec::new();
        assert(and_ors_view(rest) =~= Seq::empty());
        loop
            invariant
                self.after(old(self)),
                g_and_or_rest(old(self).bytes(), old(self).st(), depth as nat, Seq::empty())
                    == g_and_or_rest(self.bytes(), self.st(), depth as nat, and_ors_view(rest)),
            decreases self.bytes().len() - self.at(),
        {
            let c = self.peek();
            if !((c == AMP || c == PIPE) && self.peek_at(1) == c) {
                return Ok(rest);
            }
            self.take(2);
            let item = self.parse_chained(depth, c == AMP)?;
            let ghost before = and_ors_view(rest);
            rest.push(item);
            assert(and_ors_view(rest) =~= before.push(and_or_view(item)));
        }
    }

    /// The pipeline behind `&&` or `||`.
    #[verifier::spinoff_prover]
    fn parse_chained(&mut self, depth: usize, and: bool) -> (r: Result<AndOr<'a>, ParseError>)
        requires
            old(self).inv(),
        ensures
            final(self).same_input(old(self)),
            final(self).in_input(r),
            r is Ok ==> final(self).after(old(self)),
            r is Ok ==> g_chained(
                old(self).bytes(),
                old(self).st(),
                depth as nat,
                and,
            ).is_done(and_or_view(r->Ok_0), final(self).st()),
            r is Err ==> g_chained(
                old(self).bytes(),
                old(self).st(),
                depth as nat,
                and,
            ).is_fail(r->Err_0),
        decreases depth, 94int,
    {
        self.skip(false);
        let pipeline = self.parse_pipeline(depth)?;
        if and {
            Ok(AndOr::And(pipeline))
        } else {
            Ok(AndOr::Or(pipeline))
        }
    }

    /// Executables joined by `|`, negated if `!` leads.
    #[verifier::spinoff_prover]
    fn parse_pipeline(&mut self, depth: usize) -> (r: Result<Pipeline<'a>, ParseError>)
        requires
            old(self).inv(),
        ensures
            final(self).same_input(old(self)),
            final(self).in_input(r),
            r is Ok ==> final(self).after(old(self)),
            r is Ok ==> g_pipeline(
                old(self).bytes(),
                old(self).st(),
                depth as nat,
            ).is_done(pipeline_view(r->Ok_0), final(self).st()),
            r is Err ==> g_pipeline(
                old(self).bytes(),
                old(self).st(),
                depth as nat,
            ).is_fail(r->Err_0),
        decreases depth, 93int,
    {
        let negated = self.at_kw("!");
        if negated {
            self.take_kw("!");
            self.skip_blanks();
        }
        let first = self.parse_executable(depth)?;
        let stages = self.parse_pipe_rest(depth, first)?;
        Ok(mk_pipeline(negated, stages))
    }

    /// The further stages of a pipeline, behind the first.
    #[verifier::spinoff_prover]
    fn parse_pipe_rest(&mut self, depth: usize, first: Executable<'a>) -> (r: Result<
        Vec<Executable<'a>>,
        ParseError,
    >)
        requires
            old(self).inv(),
        ensures
            final(self).same_input(old(self)),
            final(self).in_input(r),
            r is Ok ==> final(self).after(old(self)) && r->Ok_0@.len() > 0,
            r is Ok ==> g_pipe_rest(
                old(self).bytes(),
                old(self).st(),
                depth as nat,
                seq![executable_view(first)],
            ).is_done(executables_view(r->Ok_0), final(self).st()),
            r is Err ==> g_pipe_rest(
                old(self).bytes(),
                old(self).st(),
                depth as nat,
                seq![executable_view(first)],
            ).is_fail(r->Err_0),
        decreases depth, 92int,
    {
        let mut stages: Vec<Executable<'a>> = Vec::new();
        stages.push(first);
        assert(executables_view(stages) =~= seq![executable_view(first)]);
        loop
            invariant
                self.after(old(self)),
                stages@.len() > 0,
                g_pipe_rest(
                    old(self).bytes(),
                    old(self).st(),
                    depth as nat,
                    seq![executable_view(first)],
                ) == g_pipe_rest(
                    self.bytes(),
                    self.st(),
                    depth as nat,
                    executables_view(stages),
                ),
            decreases self.bytes().len() - self.at(),
        {
            let start = self.here();
            self.skip_blanks();
            if !(self.peek() == PIPE && self.peek_at(1) != PIPE) {
                return Ok(stages);
            }
            self.take(1);
            self.skip(false);
            let stage = self.parse_executable(depth)?;
            let ghost before = executables_view(stages);
            stages.push(stage);
            assert(executables_view(stages) =~= before.push(executable_view(stage)));
        }
    }

    // ----- executables -----

    /// A compound command, a function definition, or a simple command.
    #[verifier::spinoff_prover]
    fn parse_executable(&mut self, depth: usize) -> (r: Result<Executable<'a>, ParseError>)
        requires
            old(self).inv(),
        ensures
            final(self).same_input(old(self)),
            final(self).in_input(r),
            r is Ok ==> final(self).after(old(self)),
            r is Ok ==> g_executable(
                old(self).bytes(),
                old(self).st(),
                depth as nat,
            ).is_done(executable_view(r->Ok_0), final(self).st()),
            r is Err ==> g_executable(
                old(self).bytes(),
                old(self).st(),
                depth as nat,
            ).is_fail(r->Err_0),
        decreases depth, 91int,
    {
        if self.at_closer() {
            self.fail("unexpected token")
        } else if self.at_compound() {
            self.parse_compound_exec(depth)
        } else if self.at_kw("function") {
            self.take_kw("function");
            self.parse_function(depth)
        } else if self.at_funcdef() {
            self.parse_funcdef(depth)
        } else {
            self.parse_simple_exec(depth)
        }
    }

    /// A compound command as an executable.
    #[verifier::spinoff_prover]
    fn parse_compound_exec(&mut self, depth: usize) -> (r: Result<Executable<'a>, ParseError>)
        requires
            old(self).inv(),
        ensures
            final(self).same_input(old(self)),
            final(self).in_input(r),
            r is Ok ==> final(self).after(old(self)),
            r is Ok ==> g_compound_exec(
                old(self).bytes(),
                old(self).st(),
                depth as nat,
            ).is_done(executable_view(r->Ok_0), final(self).st()),
            r is Err ==> g_compound_exec(
                old(self).bytes(),
                old(self).st(),
                depth as nat,
            ).is_fail(r->Err_0),
        decreases depth, 90int,
    {
        let c = self.parse_compound(depth)?;
        Ok(Executable::Compound(c))
    }

    /// A simple command as an executable.
    #[verifier::spinoff_prover]
    fn parse_simple_exec(&mut self, depth: usize) -> (r: Result<Executable<'a>, ParseError>)
        requires
            old(self).inv(),
        ensures
            final(self).same_input(old(self)),
            final(self).in_input(r),
            r is Ok ==> final(self).after(old(self)),
            r is Ok ==> g_simple_exec(
                old(self).bytes(),
                old(self).st(),
                depth as nat,
            ).is_done(executable_view(r->Ok_0), final(self).st()),
            r is Err ==> g_simple_exec(
                old(self).bytes(),
                old(self).st(),
                depth as nat,
            ).is_fail(r->Err_0),
        decreases depth, 90int,
    {
        let c = self.parse_simple(depth)?;
        Ok(Executable::Simple(c))
    }

    /// The function definition `name() body` at the cursor.
    #[verifier::spinoff_prover]
    fn parse_funcdef(&mut self, depth: usize) -> (r: Result<Executable<'a>, ParseError>)
        requires
            old(self).inv(),
            funcdef_at(old(self).bytes(), old(self).at()),
        ensures
            final(self).same_input(old(self)),
            final(self).in_input(r),
            r is Ok ==> final(self).after(old(self)),
            r is Ok ==> g_funcdef(
                old(self).bytes(),
                old(self).st(),
                depth as nat,
            ).is_done(executable_view(r->Ok_0), final(self).st()),
            r is Err ==> g_funcdef(
                old(self).bytes(),
                old(self).st(),
                depth as nat,
            ).is_fail(r->Err_0),
        decreases depth, 90int,
    {
        reveal(funcdef_at);
        let name = self.name();
        self.skip_blanks();
        self.take(2);
        self.parse_func_body(depth, name)
    }

    /// A function definition from behind the keyword `function`.
    #[verifier::spinoff_prover]
    fn parse_function(&mut self, depth: usize) -> (r: Result<Executable<'a>, ParseError>)
        requires
            old(self).inv(),
        ensures
            final(self).same_input(old(self)),
            final(self).in_input(r),
            r is Ok ==> final(self).after(old(self)),
            r is Ok ==> g_function(
                old(self).bytes(),
                old(self).st(),
                depth as nat,
            ).is_done(executable_view(r->Ok_0), final(self).st()),
            r is Err ==> g_function(
                old(self).bytes(),
                old(self).st(),
                depth as nat,
            ).is_fail(r->Err_0),
        decreases depth, 90int,
    {
        self.skip_blanks();
        let start = self.here();
        let name = self.name();
        if self.here() == start {
            return self.fail("expected function name");
        }
        self.skip_blanks();
        if self.peek() == LPAREN && self.peek_at(1) == RPAREN {
            self.take(2);
        }
        self.parse_func_body(depth, name)
    }

    /// The body of a function.
    #[verifier::spinoff_prover]
    fn parse_func_body(
        &mut self,
        depth: usize,
        name: &'a str,
    ) -> (r: Result<Executable<'a>, ParseError>)
        requires
            old(self).inv(),
        ensures
            final(self).same_input(old(self)),
            final(self).in_input(r),
            r is Ok ==> final(self).after(old(self)),
            r is Ok ==> g_func_body(
                old(self).bytes(),
                old(self).st(),
                depth as nat,
                name.spec_bytes(),
            ).is_done(executable_view(r->Ok_0), final(self).st()),
            r is Err ==> g_func_body(
                old(self).bytes(),
                old(self).st(),
                depth as nat,
                name.spec_bytes(),
            ).is_fail(r->Err_0),
        decreases depth, 89int,
    {
        self.skip(false);
        if !self.at_compound() {
            return self.fail("expected compound command");
        }
        let c = self.parse_compound(depth)?;
        Ok(Executable::FuncDef(name, c))
    }

    /// A compound command with the redirects behind it.
    #[verifier::spinoff_prover]
    fn parse_compound(&mut self, depth: usize) -> (r: Result<CompoundCmd<'a>, ParseError>)
        requires
            old(self).inv(),
        ensures
            final(self).same_input(old(self)),
            final(self).in_input(r),
            r is Ok ==> final(self).after(old(self)),
            r is Ok ==> g_compound(
                old(self).bytes(),
                old(self).st(),
                depth as nat,
            ).is_done(compound_cmd_view(r->Ok_0), final(self).st()),
            r is Err ==> g_compound(
                old(self).bytes(),
                old(self).st(),
                depth as nat,
            ).is_fail(r->Err_0),
        decreases depth, 88int,
    {
        let kind = self.parse_kind(depth)?;
        let redirects = self.parse_redirs(depth)?;
        Ok(CompoundCmd { kind, redirects })
    }

    /// A compound command from its opening keyword to its closing one.
    #[verifier::spinoff_prover]
    fn parse_kind(&mut self, depth: usize) -> (r: Result<CompoundKind<'a>, ParseError>)
        requires
            old(self).inv(),
        ensures
            final(self).same_input(old(self)),
            final(self).in_input(r),
            r is Ok ==> final(self).after(old(self)),
            r is Ok ==> g_kind(
                old(self).bytes(),
                old(self).st(),
                depth as nat,
            ).is_done(compound_kind_view(r->Ok_0), final(self).st()),
            r is Err ==> g_kind(old(self).bytes(), old(self).st(), depth as nat).is_fail(r->Err_0),
        decreases depth, 87int,
    {
        if self.at_kw("if") {
            self.take_kw("if");
            self.parse_if(depth)
        } else if self.at_kw("while") {
            self.take_kw("while");
            self.parse_while(depth, false)
        } else if self.at_kw("until") {
            self.take_kw("until");
            self.parse_while(depth, true)
        } else if self.at_kw("for") {
            self.take_kw("for");
            self.parse_for(depth)
        } else if self.at_kw("case") {
            self.take_kw("case");
            self.parse_case(depth)
        } else {
            self.parse_grouping(depth)
        }
    }

    /// A group or an arithmetic command.
    #[verifier::spinoff_prover]
    fn parse_grouping(&mut self, depth: usize) -> (r: Result<CompoundKind<'a>, ParseError>)
        requires
            old(self).inv(),
        ensures
            final(self).same_input(old(self)),
            final(self).in_input(r),
            r is Ok ==> final(self).after(old(self)),
            r is Ok ==> g_grouping(
                old(self).bytes(),
                old(self).st(),
                depth as nat,
            ).is_done(compound_kind_view(r->Ok_0), final(self).st()),
            r is Err ==> g_grouping(
                old(self).bytes(),
                old(self).st(),
                depth as nat,
            ).is_fail(r->Err_0),
        decreases depth, 86int,
    {
        match self.open_grouping() {
            Some(Some(group)) => self.parse_group(depth, group),
            Some(None) => self.parse_arith_cmd(depth),
            None => self.fail("expected compound command"),
        }
    }

    /// Steps over the opening of a group or of an arithmetic command, if
    /// one stands at the cursor, and says which.
    #[verifier::spinoff_prover]
    fn open_grouping(&mut self) -> (r: Option<Option<Group>>)
        requires
            old(self).inv(),
        ensures
            final(self).after_in_line(old(self)),
            match r {
                Some(group) => grouping_at(old(self).bytes(), old(self).at()) == Some(
                    (group, final(self).at() - old(self).at()),
                ),
                None => grouping_at(old(self).bytes(), old(self).at()) is None && final(self).at()
                    == old(self).at(),
            },
    {
        reveal(grouping_at);
        if self.at_kw("{") {
            self.take_kw("{");
            Some(Some(Group::Brace))
        } else if self.at_kw("[[") {
            self.take_kw("[[");
            Some(Some(Group::DoubleBracket))
        } else if self.peek() == LPAREN && self.peek_at(1) == LPAREN {
            self.take(2);
            Some(None)
        } else if self.peek() == LPAREN {
            self.take(1);
            Some(Some(Group::Subshell))
        } else {
            None
        }
    }

    /// A group from behind its opening.
    #[verifier::spinoff_prover]
    fn parse_group(
        &mut self,
        depth: usize,
        group: Group,
    ) -> (r: Result<CompoundKind<'a>, ParseError>)
        requires
            old(self).inv(),
        ensures
            final(self).same_input(old(self)),
            final(self).in_input(r),
            r is Ok ==> final(self).after(old(self)),
            r is Ok ==> g_group(
                old(self).bytes(),
                old(self).st(),
                depth as nat,
                group,
            ).is_done(compound_kind_view(r->Ok_0), final(self).st()),
            r is Err ==> g_group(
                old(self).bytes(),
                old(self).st(),
                depth as nat,
                group,
            ).is_fail(r->Err_0),
        decreases depth, 85int,
    {
        let body = self.parse_body(depth)?;
        self.close_group(group)?;
        Ok(mk_group(group, body))
    }

    /// The closing of a group.
    #[verifier::spinoff_prover]
    fn close_group(&mut self, group: Group) -> (r: Result<(), ParseError>)
        requires
            old(self).inv(),
        ensures
            final(self).after_in_line(old(self)),
            final(self).in_input(r),
            r is Ok ==> group_close(old(self).bytes(), old(self).at(), group).is_done(
                (),
                final(self).at(),
            ),
            r is Err ==> group_close(old(self).bytes(), old(self).at(), group).is_fail(r->Err_0),
    {
        reveal(group_close);
        match group {
            Group::Brace => {
                if self.at_kw("}") {
                    self.take_kw("}");
                    Ok(())
                } else {
                    self.fail("expected '}'")
                }
            },
            Group::Subshell => {
                if self.peek() == RPAREN {
                    self.take(1);
                    Ok(())
                } else {
                    self.fail("expected ')'")
                }
            },
            Group::DoubleBracket => {
                if self.at_kw("]]") {
                    self.take_kw("]]");
                    Ok(())
                } else {
                    self.fail("expected ']]'")
                }
            },
        }
    }

    /// `((expr))` from behind its opening.
    #[verifier::spinoff_prover]
    fn parse_arith_cmd(&mut self, depth: usize) -> (r: Result<CompoundKind<'a>, ParseError>)
        requires
            old(self).inv(),
        ensures
            final(self).same_input(old(self)),
            final(self).in_input(r),
            r is Ok ==> final(self).after(old(self)),
            r is Ok ==> g_arith_cmd(
                old(self).bytes(),
                old(self).st(),
                depth as nat,
            ).is_done(compound_kind_view(r->Ok_0), final(self).st()),
            r is Err ==> g_arith_cmd(
                old(self).bytes(),
                old(self).st(),
                depth as nat,
            ).is_fail(r->Err_0),
        decreases depth, 85int,
    {
        let x = self.parse_arith(depth)?;
        if self.peek() == RPAREN && self.peek_at(1) == RPAREN {
            self.take(2);
            Ok(CompoundKind::Arithmetic(x))
        } else {
            self.fail("expected '))'")
        }
    }

    /// An `if` from behind the keyword.
    #[verifier::spinoff_prover]
    fn parse_if(&mut self, depth: usize) -> (r: Result<CompoundKind<'a>, ParseError>)
        requires
            old(self).inv(),
        ensures
            final(self).same_input(old(self)),
            final(self).in_input(r),
            r is Ok ==> final(self).after(old(self)),
            r is Ok ==> g_if(old(self).bytes(), old(self).st(), depth as nat, Seq::empty()).is_done(
                compound_kind_view(r->Ok_0),
                final(self).st(),
            ),
            r is Err ==> g_if(
                old(self).bytes(),
                old(self).st(),
                depth as nat,
                Seq::empty(),
            ).is_fail(
                r->Err_0,
            ),
        decreases depth, 86int,
    {
        let mut conds: Vec<GuardBody<'a>> = Vec::new();
        assert(guard_bodies_view(conds) =~= Seq::empty());
        loop
            invariant
                self.after(old(self)),
                g_if(old(self).bytes(), old(self).st(), depth as nat, Seq::empty()) == g_if(
                    self.bytes(),
                    self.st(),
                    depth as nat,
                    guard_bodies_view(conds),
                ),
            decreases self.bytes().len() - self.at(),
        {
            let start = self.here();
            let branch = self.parse_branch(depth)?;
            let ghost before = guard_bodies_view(conds);
            conds.push(branch);
            assert(guard_bodies_view(conds) =~= before.push(guard_body_view(branch)));
            if !self.at_kw("elif") {
                return self.parse_if_end(depth, conds);
            }
            let at = self.here();
            self.take_kw("elif");
            if !(start < self.here()) {
                return self.fail_at(at, "expected 'fi'");
            }
        }
    }

    /// One branch: a guard, `then`, and a body.
    #[verifier::spinoff_prover]
    fn parse_branch(&mut self, depth: usize) -> (r: Result<GuardBody<'a>, ParseError>)
        requires
            old(self).inv(),
        ensures
            final(self).same_input(old(self)),
            final(self).in_input(r),
            r is Ok ==> final(self).after(old(self)),
            r is Ok ==> g_branch(
                old(self).bytes(),
                old(self).st(),
                depth as nat,
            ).is_done(guard_body_view(r->Ok_0), final(self).st()),
            r is Err ==> g_branch(
                old(self).bytes(),
                old(self).st(),
                depth as nat,
            ).is_fail(r->Err_0),
        decreases depth, 85int,
    {
        let guard = self.parse_body(depth)?;
        if !self.at_kw("then") {
            return self.fail("expected 'then'");
        }
        self.take_kw("then");
        let body = self.parse_body(depth)?;
        Ok(GuardBody { guard, body })
    }

    /// What ends an `if` behind its branches.
    #[verifier::spinoff_prover]
    fn parse_if_end(&mut self, depth: usize, conditionals: Vec<GuardBody<'a>>) -> (r: Result<
        CompoundKind<'a>,
        ParseError,
    >)
        requires
            old(self).inv(),
        ensures
            final(self).same_input(old(self)),
            final(self).in_input(r),
            r is Ok ==> final(self).after(old(self)),
            r is Ok ==> g_if_end(
                old(self).bytes(),
                old(self).st(),
                depth as nat,
                guard_bodies_view(conditionals),
            ).is_done(compound_kind_view(r->Ok_0), final(self).st()),
            r is Err ==> g_if_end(
                old(self).bytes(),
                old(self).st(),
                depth as nat,
                guard_bodies_view(conditionals),
            ).is_fail(r->Err_0),
        decreases depth, 85int,
    {
        if self.at_kw("else") {
            self.take_kw("else");
            let other = self.parse_body(depth)?;
            if !self.at_kw("fi") {
                return self.fail("expected 'fi'");
            }
            self.take_kw("fi");
            Ok(CompoundKind::If { conditionals, else_branch: Some(other) })
        } else if self.at_kw("fi") {
            self.take_kw("fi");
            Ok(CompoundKind::If { conditionals, else_branch: None })
        } else {
            self.fail("expected 'fi'")
        }
    }

    /// `do`, a body, `done`.
    #[verifier::spinoff_prover]
    fn parse_do(&mut self, depth: usize) -> (r: Result<Vec<Cmd<'a>>, ParseError>)
        requires
            old(self).inv(),
        ensures
            final(self).same_input(old(self)),
            final(self).in_input(r),
            r is Ok ==> final(self).after(old(self)),
            r is Ok ==> g_do(
                old(self).bytes(),
                old(self).st(),
                depth as nat,
            ).is_done(cmds_view(r->Ok_0), final(self).st()),
            r is Err ==> g_do(old(self).bytes(), old(self).st(), depth as nat).is_fail(r->Err_0),
        decreases depth, 83int,
    {
        if !self.at_kw("do") {
            return self.fail("expected 'do'");
        }
        self.take_kw("do");
        let body = self.parse_body(depth)?;
        if !self.at_kw("done") {
            return self.fail("expected 'done'");
        }
        self.take_kw("done");
        Ok(body)
    }

    /// `while` or `until` from behind the keyword.
    #[verifier::spinoff_prover]
    fn parse_while(
        &mut self,
        depth: usize,
        until: bool,
    ) -> (r: Result<CompoundKind<'a>, ParseError>)
        requires
            old(self).inv(),
        ensures
            final(self).same_input(old(self)),
            final(self).in_input(r),
            r is Ok ==> final(self).after(old(self)),
            r is Ok ==> g_while(
                old(self).bytes(),
                old(self).st(),
                depth as nat,
                until,
            ).is_done(compound_kind_view(r->Ok_0), final(self).st()),
            r is Err ==> g_while(
                old(self).bytes(),
                old(self).st(),
                depth as nat,
                until,
            ).is_fail(r->Err_0),
        decreases depth, 86int,
    {
        let guard = self.parse_body(depth)?;
        let body = self.parse_do(depth)?;
        if until {
            Ok(CompoundKind::Until(GuardBody { guard, body }))
        } else {
            Ok(CompoundKind::While(GuardBody { guard, body }))
        }
    }

    /// A `for` loop from behind the keyword.
    #[verifier::spinoff_prover]
    fn parse_for(&mut self, depth: usize) -> (r: Result<CompoundKind<'a>, ParseError>)
        requires
            old(self).inv(),
        ensures
            final(self).same_input(old(self)),
            final(self).in_input(r),
            r is Ok ==> final(self).after(old(self)),
            r is Ok ==> g_for(
                old(self).bytes(),
                old(self).st(),
                depth as nat,
            ).is_done(compound_kind_view(r->Ok_0), final(self).st()),
            r is Err ==> g_for(old(self).bytes(), old(self).st(), depth as nat).is_fail(r->Err_0),
        decreases depth, 86int,
    {
        self.skip_blanks();
        if self.peek() == LPAREN && self.peek_at(1) == LPAREN {
            self.take(2);
            return self.parse_cfor(depth);
        }
        let start = self.here();
        let var = self.name();
        if self.here() == start {
            return self.fail("expected variable name");
        }
        self.skip_blanks();
        self.parse_for_in(depth, var)
    }

    /// A `for` loop from behind its variable.
    #[verifier::spinoff_prover]
    fn parse_for_in(
        &mut self,
        depth: usize,
        var: &'a str,
    ) -> (r: Result<CompoundKind<'a>, ParseError>)
        requires
            old(self).inv(),
        ensures
            final(self).same_input(old(self)),
            final(self).in_input(r),
            r is Ok ==> final(self).after(old(self)),
            r is Ok ==> g_for_in(
                old(self).bytes(),
                old(self).st(),
                depth as nat,
                var.spec_bytes(),
            ).is_done(compound_kind_view(r->Ok_0), final(self).st()),
            r is Err ==> g_for_in(
                old(self).bytes(),
                old(self).st(),
                depth as nat,
                var.spec_bytes(),
            ).is_fail(r->Err_0),
        decreases depth, 85int,
    {
        if self.at_kw("in") {
            self.take_kw("in");
            let words = self.parse_words(depth)?;
            self.parse_for_body(depth, var, Some(words))
        } else {
            self.parse_for_body(depth, var, None)
        }
    }

    /// The body of a `for` loop over `words`.
    #[verifier::spinoff_prover]
    fn parse_for_body(
        &mut self,
        depth: usize,
        var: &'a str,
        words: Option<Vec<Word<'a>>>,
    ) -> (r: Result<CompoundKind<'a>, ParseError>)
        requires
            old(self).inv(),
        ensures
            final(self).same_input(old(self)),
            final(self).in_input(r),
            r is Ok ==> final(self).after(old(self)),
            r is Ok ==> g_for_body(
                old(self).bytes(),
                old(self).st(),
                depth as nat,
                var.spec_bytes(),
                match words {
                    Some(w) => Some(words_view(w)),
                    None => None,
                },
            ).is_done(compound_kind_view(r->Ok_0), final(self).st()),
            r is Err ==> g_for_body(
                old(self).bytes(),
                old(self).st(),
                depth as nat,
                var.spec_bytes(),
                match words {
                    Some(w) => Some(words_view(w)),
                    None => None,
                },
            ).is_fail(r->Err_0),
        decreases depth, 84int,
    {
        self.skip(true);
        let body = self.parse_do(depth)?;
        Ok(CompoundKind::For { var, words, body })
    }

    /// The words up to the end of the command.
    #[verifier::spinoff_prover]
    fn parse_words(&mut self, depth: usize) -> (r: Result<Vec<Word<'a>>, ParseError>)
        requires
            old(self).inv(),
        ensures
            final(self).same_input(old(self)),
            final(self).in_input(r),
            r is Ok ==> final(self).after_in_line(old(self)),
            r is Ok ==> g_words(
                old(self).bytes(),
                old(self).at(),
                depth as nat,
                Seq::empty(),
            ).is_done(
                words_view(r->Ok_0),
                final(self).at(),
            ),
            r is Err ==> g_words(
                old(self).bytes(),
                old(self).at(),
                depth as nat,
                Seq::empty(),
            ).is_fail(
                r->Err_0,
            ),
        decreases depth, 76int,
    {
        let mut words: Vec<Word<'a>> = Vec::new();
        assert(words_view(words) =~= Seq::empty());
        loop
            invariant
                self.after_in_line(old(self)),
                g_words(old(self).bytes(), old(self).at(), depth as nat, Seq::empty()) == g_words(
                    self.bytes(),
                    self.at(),
                    depth as nat,
                    words_view(words),
                ),
            decreases self.bytes().len() - self.at(),
        {
            self.skip_blanks();
            if self.at_cmd_end() {
                return Ok(words);
            }
            let w = self.parse_word(depth, WordCtx::Command)?;
            let ghost before = words_view(words);
            words.push(w);
            assert(words_view(words) =~= before.push(word_view(w)));
        }
    }

    /// One clause of a counting loop.
    #[verifier::spinoff_prover]
    fn parse_clause(
        &mut self,
        depth: usize,
        last: bool,
    ) -> (r: Result<Option<Arith<'a>>, ParseError>)
        requires
            old(self).inv(),
        ensures
            final(self).same_input(old(self)),
            final(self).in_input(r),
            r is Ok ==> final(self).after_in_line(old(self)),
            r is Ok ==> g_clause(old(self).bytes(), old(self).at(), depth as nat, last).is_done(
                match r->Ok_0 {
                    Some(x) => Some(arith_view(x)),
                    None => None,
                },
                final(self).at(),
            ),
            r is Err ==> g_clause(old(self).bytes(), old(self).at(), depth as nat, last).is_fail(
                r->Err_0,
            ),
    {
        let start = self.here();
        self.skip_blanks();
        if last && self.peek() == RPAREN && self.peek_at(1) == RPAREN {
            self.take(2);
            return Ok(None);
        }
        if !last && self.peek() == SEMI {
            self.take(1);
            return Ok(None);
        }
        self.rewind(start);
        let x = self.parse_arith(depth)?;
        self.end_clause(last, x)
    }

    /// What ends a clause.
    #[verifier::spinoff_prover]
    fn end_clause(&mut self, last: bool, x: Arith<'a>) -> (r: Result<Option<Arith<'a>>, ParseError>)
        requires
            old(self).inv(),
        ensures
            final(self).after_in_line(old(self)),
            final(self).in_input(r),
            r is Ok ==> clause_end(old(self).bytes(), old(self).at(), last, arith_view(x)).is_done(
                match r->Ok_0 {
                    Some(y) => Some(arith_view(y)),
                    None => None,
                },
                final(self).at(),
            ),
            r is Err ==> clause_end(old(self).bytes(), old(self).at(), last, arith_view(x)).is_fail(
                r->Err_0,
            ),
    {
        reveal(clause_end);
        if last {
            if self.peek() == RPAREN && self.peek_at(1) == RPAREN {
                self.take(2);
                Ok(Some(x))
            } else {
                self.fail("expected '))'")
            }
        } else if self.peek() == SEMI {
            self.take(1);
            Ok(Some(x))
        } else {
            self.fail("expected ';'")
        }
    }

    /// A counting loop from behind `for ((`.
    #[verifier::spinoff_prover]
    fn parse_cfor(&mut self, depth: usize) -> (r: Result<CompoundKind<'a>, ParseError>)
        requires
            old(self).inv(),
        ensures
            final(self).same_input(old(self)),
            final(self).in_input(r),
            r is Ok ==> final(self).after(old(self)),
            r is Ok ==> g_cfor(
                old(self).bytes(),
                old(self).st(),
                depth as nat,
            ).is_done(compound_kind_view(r->Ok_0), final(self).st()),
            r is Err ==> g_cfor(old(self).bytes(), old(self).st(), depth as nat).is_fail(r->Err_0),
        decreases depth, 85int,
    {
        let init = self.parse_clause(depth, false)?;
        let cond = self.parse_clause(depth, false)?;
        self.parse_cfor_body(depth, init, cond)
    }

    /// The last clause of a counting loop and its body.
    #[verifier::spinoff_prover]
    fn parse_cfor_body(
        &mut self,
        depth: usize,
        init: Option<Arith<'a>>,
        cond: Option<Arith<'a>>,
    ) -> (r: Result<CompoundKind<'a>, ParseError>)
        requires
            old(self).inv(),
        ensures
            final(self).same_input(old(self)),
            final(self).in_input(r),
            r is Ok ==> final(self).after(old(self)),
            r is Ok ==> g_cfor_body(
                old(self).bytes(),
                old(self).st(),
                depth as nat,
                match init {
                    Some(x) => Some(arith_view(x)),
                    None => None,
                },
                match cond {
                    Some(x) => Some(arith_view(x)),
                    None => None,
                },
            ).is_done(compound_kind_view(r->Ok_0), final(self).st()),
            r is Err ==> g_cfor_body(
                old(self).bytes(),
                old(self).st(),
                depth as nat,
                match init {
                    Some(x) => Some(arith_view(x)),
                    None => None,
                },
                match cond {
                    Some(x) => Some(arith_view(x)),
                    None => None,
                },
            ).is_fail(r->Err_0),
        decreases depth, 84int,
    {
        let step = self.parse_clause(depth, true)?;
        self.skip(true);
        let body = self.parse_do(depth)?;
        Ok(CompoundKind::CFor { init, cond, step, body })
    }

    /// A `case` from behind the keyword.
    #[verifier::spinoff_prover]
    fn parse_case(&mut self, depth: usize) -> (r: Result<CompoundKind<'a>, ParseError>)
        requires
            old(self).inv(),
        ensures
            final(self).same_input(old(self)),
            final(self).in_input(r),
            r is Ok ==> final(self).after(old(self)),
            r is Ok ==> g_case(
                old(self).bytes(),
                old(self).st(),
                depth as nat,
            ).is_done(compound_kind_view(r->Ok_0), final(self).st()),
            r is Err ==> g_case(old(self).bytes(), old(self).st(), depth as nat).is_fail(r->Err_0),
        decreases depth, 86int,
    {
        self.skip_blanks();
        let word = self.parse_word(depth, WordCtx::Command)?;
        self.skip(false);
        self.parse_case_in(depth, word)
    }

    /// A `case` from behind its word.
    #[verifier::spinoff_prover]
    fn parse_case_in(
        &mut self,
        depth: usize,
        word: Word<'a>,
    ) -> (r: Result<CompoundKind<'a>, ParseError>)
        requires
            old(self).inv(),
        ensures
            final(self).same_input(old(self)),
            final(self).in_input(r),
            r is Ok ==> final(self).after(old(self)),
            r is Ok ==> g_case_in(
                old(self).bytes(),
                old(self).st(),
                depth as nat,
                word_view(word),
            ).is_done(compound_kind_view(r->Ok_0), final(self).st()),
            r is Err ==> g_case_in(
                old(self).bytes(),
                old(self).st(),
                depth as nat,
                word_view(word),
            ).is_fail(r->Err_0),
        decreases depth, 85int,
    {
        if !self.at_kw("in") {
            return self.fail("expected 'in'");
        }
        self.take_kw("in");
        let arms = self.parse_arms(depth)?;
        Ok(CompoundKind::Case { word, arms })
    }

    /// The arms of a `case` up to and with `esac`.
    #[verifier::spinoff_prover]
    fn parse_arms(&mut self, depth: usize) -> (r: Result<Vec<CaseArm<'a>>, ParseError>)
        requires
            old(self).inv(),
        ensures
            final(self).same_input(old(self)),
            final(self).in_input(r),
            r is Ok ==> final(self).after(old(self)),
            r is Ok ==> g_arms(
                old(self).bytes(),
                old(self).st(),
                depth as nat,
                Seq::empty(),
            ).is_done(
                case_arms_view(r->Ok_0),
                final(self).st(),
            ),
            r is Err ==> g_arms(
                old(self).bytes(),
                old(self).st(),
                depth as nat,
                Seq::empty(),
            ).is_fail(
                r->Err_0,
            ),
        decreases depth, 84int,
    {
        let mut arms: Vec<CaseArm<'a>> = Vec::new();
        assert(case_arms_view(arms) =~= Seq::empty());
        loop
            invariant
                self.after(old(self)),
                g_arms(old(self).bytes(), old(self).st(), depth as nat, Seq::empty()) == g_arms(
                    self.bytes(),
                    self.st(),
                    depth as nat,
                    case_arms_view(arms),
                ),
            decreases self.bytes().len() - self.at(),
        {
            let start = self.here();
            self.skip(false);
            if self.at_kw("esac") {
                self.take_kw("esac");
                return Ok(arms);
            }
            if self.lex.is_eof() {
                return self.fail("expected 'esac'");
            }
            let arm = self.parse_arm(depth)?;
            let ghost before = case_arms_view(arms);
            arms.push(arm);
            assert(case_arms_view(arms) =~= before.push(case_arm_view(arm)));
            if !(start < self.here()) {
                return self.fail("expected 'esac'");
            }
        }
    }

    /// One arm of a `case`.
    #[verifier::spinoff_prover]
    fn parse_arm(&mut self, depth: usize) -> (r: Result<CaseArm<'a>, ParseError>)
        requires
            old(self).inv(),
        ensures
            final(self).same_input(old(self)),
            final(self).in_input(r),
            r is Ok ==> final(self).after(old(self)),
            r is Ok ==> g_arm(
                old(self).bytes(),
                old(self).st(),
                depth as nat,
            ).is_done(case_arm_view(r->Ok_0), final(self).st()),
            r is Err ==> g_arm(old(self).bytes(), old(self).st(), depth as nat).is_fail(r->Err_0),
        decreases depth, 83int,
    {
        if self.peek() == LPAREN {
            self.take(1);
        }
        self.parse_arm_from(depth)
    }

    /// One arm from its first pattern on.
    #[verifier::spinoff_prover]
    fn parse_arm_from(&mut self, depth: usize) -> (r: Result<CaseArm<'a>, ParseError>)
        requires
            old(self).inv(),
        ensures
            final(self).same_input(old(self)),
            final(self).in_input(r),
            r is Ok ==> final(self).after(old(self)),
            r is Ok ==> g_arm_from(
                old(self).bytes(),
                old(self).st(),
                depth as nat,
            ).is_done(case_arm_view(r->Ok_0), final(self).st()),
            r is Err ==> g_arm_from(
                old(self).bytes(),
                old(self).st(),
                depth as nat,
            ).is_fail(r->Err_0),
        decreases depth, 82int,
    {
        let patterns = self.parse_patterns(depth)?;
        let body = self.parse_body(depth)?;
        self.end_arm();
        Ok(CaseArm { patterns, body })
    }

    /// Steps over the `;;` behind an arm, if one stands there.
    #[verifier::spinoff_prover]
    fn end_arm(&mut self)
        requires
            old(self).inv(),
        ensures
            final(self).after_in_line(old(self)),
            final(self).at() == arm_end(old(self).bytes(), old(self).at()),
    {
        reveal(arm_end);
        if self.peek() == SEMI && self.peek_at(1) == SEMI {
            self.take(2);
        }
    }

    /// The patterns of one arm, up to and with the `)`.
    #[verifier::spinoff_prover]
    fn parse_patterns(&mut self, depth: usize) -> (r: Result<Vec<Word<'a>>, ParseError>)
        requires
            old(self).inv(),
        ensures
            final(self).same_input(old(self)),
            final(self).in_input(r),
            r is Ok ==> final(self).after_in_line(old(self)),
            r is Ok ==> g_patterns(
                old(self).bytes(),
                old(self).at(),
                depth as nat,
                Seq::empty(),
            ).is_done(words_view(r->Ok_0), final(self).at()),
            r is Err ==> g_patterns(
                old(self).bytes(),
                old(self).at(),
                depth as nat,
                Seq::empty(),
            ).is_fail(r->Err_0),
        decreases depth, 81int,
    {
        let mut patterns: Vec<Word<'a>> = Vec::new();
        assert(words_view(patterns) =~= Seq::empty());
        loop
            invariant
                self.after_in_line(old(self)),
                g_patterns(old(self).bytes(), old(self).at(), depth as nat, Seq::empty())
                    == g_patterns(self.bytes(), self.at(), depth as nat, words_view(patterns)),
            decreases self.bytes().len() - self.at(),
        {
            let start = self.here();
            self.skip_blanks();
            let w = self.parse_word(depth, WordCtx::Command)?;
            let ghost before = words_view(patterns);
            patterns.push(w);
            assert(words_view(patterns) =~= before.push(word_view(w)));
            let more = self.pattern_sep()?;
            if !(more && start < self.here()) {
                return Ok(patterns);
            }
        }
    }

    /// What follows a pattern: whether more patterns do.
    #[verifier::spinoff_prover]
    fn pattern_sep(&mut self) -> (r: Result<bool, ParseError>)
        requires
            old(self).inv(),
        ensures
            final(self).after_in_line(old(self)),
            final(self).in_input(r),
            r is Ok ==> pattern_sep(old(self).bytes(), old(self).at()).is_done(
                r->Ok_0,
                final(self).at(),
            ),
            r is Err ==> pattern_sep(old(self).bytes(), old(self).at()).is_fail(r->Err_0),
    {
        reveal(pattern_sep);
        self.skip_blanks();
        let c = self.peek();
        if c == PIPE {
            self.take(1);
            Ok(true)
        } else if c == RPAREN {
            self.take(1);
            Ok(false)
        } else {
            self.fail("expected ')'")
        }
    }

    // ----- simple commands -----

    /// A simple command: its prefix and its suffix.
    #[verifier::spinoff_prover]
    fn parse_simple(&mut self, depth: usize) -> (r: Result<SimpleCmd<'a>, ParseError>)
        requires
            old(self).inv(),
        ensures
            final(self).same_input(old(self)),
            final(self).in_input(r),
            r is Ok ==> final(self).after(old(self)),
            r is Ok ==> g_simple(
                old(self).bytes(),
                old(self).st(),
                depth as nat,
            ).is_done(simple_cmd_view(r->Ok_0), final(self).st()),
            r is Err ==> g_simple(
                old(self).bytes(),
                old(self).st(),
                depth as nat,
            ).is_fail(r->Err_0),
        decreases depth, 79int,
    {
        let prefix = self.parse_prefix(depth)?;
        let suffix = self.parse_suffix(depth)?;
        if prefix.len() == 0 && suffix.len() == 0 {
            self.fail("expected command")
        } else {
            Ok(SimpleCmd { prefix, suffix })
        }
    }

    /// The assignments and redirects that start a simple command.
    #[verifier::spinoff_prover]
    fn parse_prefix(&mut self, depth: usize) -> (r: Result<Vec<CmdPrefix<'a>>, ParseError>)
        requires
            old(self).inv(),
        ensures
            final(self).same_input(old(self)),
            final(self).in_input(r),
            r is Ok ==> final(self).after(old(self)),
            r is Ok ==> g_prefix(
                old(self).bytes(),
                old(self).st(),
                depth as nat,
                Seq::empty(),
            ).is_done(
                prefixes_view(r->Ok_0),
                final(self).st(),
            ),
            r is Err ==> g_prefix(
                old(self).bytes(),
                old(self).st(),
                depth as nat,
                Seq::empty(),
            ).is_fail(
                r->Err_0,
            ),
        decreases depth, 78int,
    {
        let mut items: Vec<CmdPrefix<'a>> = Vec::new();
        assert(prefixes_view(items) =~= Seq::empty());
        loop
            invariant
                self.after(old(self)),
                g_prefix(old(self).bytes(), old(self).st(), depth as nat, Seq::empty()) == g_prefix(
                    self.bytes(),
                    self.st(),
                    depth as nat,
                    prefixes_view(items),
                ),
            decreases self.bytes().len() - self.at(),
        {
            let start = self.here();
            self.skip_blanks();
            match self.parse_prefix_item(depth)? {
                Some(item) => {
                    let ghost before = prefixes_view(items);
                    items.push(item);
                    assert(prefixes_view(items) =~= before.push(cmd_prefix_view(item)));
                    if !(start < self.here()) {
                        return Ok(items);
                    }
                },
                None => {
                    return Ok(items);
                },
            }
        }
    }

    /// The words and redirects of a simple command.
    #[verifier::spinoff_prover]
    fn parse_suffix(&mut self, depth: usize) -> (r: Result<Vec<CmdSuffix<'a>>, ParseError>)
        requires
            old(self).inv(),
        ensures
            final(self).same_input(old(self)),
            final(self).in_input(r),
            r is Ok ==> final(self).after(old(self)),
            r is Ok ==> g_suffix(
                old(self).bytes(),
                old(self).st(),
                depth as nat,
                Seq::empty(),
            ).is_done(
                suffixes_view(r->Ok_0),
                final(self).st(),
            ),
            r is Err ==> g_suffix(
                old(self).bytes(),
                old(self).st(),
                depth as nat,
                Seq::empty(),
            ).is_fail(
                r->Err_0,
            ),
        decreases depth, 78int,
    {
        let mut items: Vec<CmdSuffix<'a>> = Vec::new();
        assert(suffixes_view(items) =~= Seq::empty());
        loop
            invariant
                self.after(old(self)),
                g_suffix(old(self).bytes(), old(self).st(), depth as nat, Seq::empty()) == g_suffix(
                    self.bytes(),
                    self.st(),
                    depth as nat,
                    suffixes_view(items),
                ),
            decreases self.bytes().len() - self.at(),
        {
            let start = self.here();
            self.skip_blanks();
            match self.parse_suffix_item(depth)? {
                Some(item) => {
                    let ghost before = suffixes_view(items);
                    items.push(item);
                    assert(suffixes_view(items) =~= before.push(cmd_suffix_view(item)));
                    if !(start < self.here()) {
                        return Ok(items);
                    }
                },
                None => {
                    return Ok(items);
                },
            }
        }
    }

    /// One item of the prefix, or none where the prefix ends.
    #[verifier::spinoff_prover]
    fn parse_prefix_item(&mut self, depth: usize) -> (r: Result<Option<CmdPrefix<'a>>, ParseError>)
        requires
            old(self).inv(),
        ensures
            final(self).same_input(old(self)),
            final(self).in_input(r),
            r is Ok ==> final(self).after(old(self)),
            r is Ok ==> g_prefix_item(old(self).bytes(), old(self).st(), depth as nat).is_done(
                match r->Ok_0 {
                    Some(x) => Some(cmd_prefix_view(x)),
                    None => None,
                },
                final(self).st(),
            ),
            r is Err ==> g_prefix_item(
                old(self).bytes(),
                old(self).st(),
                depth as nat,
            ).is_fail(r->Err_0),
        decreases depth, 77int,
    {
        if self.redir_start().is_some() {
            let r = self.parse_redir(depth)?;
            Ok(Some(CmdPrefix::Redirect(r)))
        } else if self.at_assign() {
            let a = self.parse_assignment(depth)?;
            Ok(Some(a))
        } else {
            Ok(None)
        }
    }

    /// One item of the suffix, or none where the command ends.
    #[verifier::spinoff_prover]
    fn parse_suffix_item(&mut self, depth: usize) -> (r: Result<Option<CmdSuffix<'a>>, ParseError>)
        requires
            old(self).inv(),
        ensures
            final(self).same_input(old(self)),
            final(self).in_input(r),
            r is Ok ==> final(self).after(old(self)),
            r is Ok ==> g_suffix_item(old(self).bytes(), old(self).st(), depth as nat).is_done(
                match r->Ok_0 {
                    Some(x) => Some(cmd_suffix_view(x)),
                    None => None,
                },
                final(self).st(),
            ),
            r is Err ==> g_suffix_item(
                old(self).bytes(),
                old(self).st(),
                depth as nat,
            ).is_fail(r->Err_0),
        decreases depth, 77int,
    {
        if self.redir_start().is_some() {
            let r = self.parse_redir(depth)?;
            Ok(Some(CmdSuffix::Redirect(r)))
        } else if self.at_cmd_end() {
            Ok(None)
        } else {
            let w = self.parse_word(depth, WordCtx::Command)?;
            Ok(Some(CmdSuffix::Word(w)))
        }
    }

    /// Reads the name and the operator of the assignment at the cursor.
    #[verifier::spinoff_prover]
    fn assign_op(&mut self) -> (r: (&'a str, AssignOp))
        requires
            old(self).inv(),
            assign_at(old(self).bytes(), old(self).at()),
        ensures
            final(self).after_in_line(old(self)),
            r.0.spec_bytes() == old(self).bytes().subrange(
                old(self).at(),
                name_end(old(self).bytes(), old(self).at()),
            ),
            assign_op_at(old(self).bytes(), name_end(old(self).bytes(), old(self).at())) == (
                r.1,
                final(self).at() - name_end(old(self).bytes(), old(self).at()),
            ),
    {
        reveal(assign_at);
        reveal(assign_op_at);
        let name = self.name();
        if self.peek() == PLUS {
            self.take(3);
            (name, AssignOp::Append)
        } else if self.peek_at(1) == LPAREN {
            self.take(2);
            (name, AssignOp::Array)
        } else {
            self.take(1);
            (name, AssignOp::Scalar)
        }
    }

    /// The assignment at the cursor.
    #[verifier::spinoff_prover]
    fn parse_assignment(&mut self, depth: usize) -> (r: Result<CmdPrefix<'a>, ParseError>)
        requires
            old(self).inv(),
            assign_at(old(self).bytes(), old(self).at()),
        ensures
            final(self).same_input(old(self)),
            final(self).in_input(r),
            r is Ok ==> final(self).after_in_line(old(self)),
            r is Ok ==> g_assignment(
                old(self).bytes(),
                old(self).at(),
                depth as nat,
            ).is_done(cmd_prefix_view(r->Ok_0), final(self).at()),
            r is Err ==> g_assignment(
                old(self).bytes(),
                old(self).at(),
                depth as nat,
            ).is_fail(r->Err_0),
        decreases depth, 76int,
    {
        let (name, op) = self.assign_op();
        self.parse_assigned(depth, name, op)
    }

    /// The value assigned in the form `op`.
    #[verifier::spinoff_prover]
    fn parse_assigned(
        &mut self,
        depth: usize,
        name: &'a str,
        op: AssignOp,
    ) -> (r: Result<CmdPrefix<'a>, ParseError>)
        requires
            old(self).inv(),
        ensures
            final(self).same_input(old(self)),
            final(self).in_input(r),
            r is Ok ==> final(self).after_in_line(old(self)),
            r is Ok ==> g_assigned(
                old(self).bytes(),
                old(self).at(),
                depth as nat,
                name.spec_bytes(),
                op,
            ).is_done(cmd_prefix_view(r->Ok_0), final(self).at()),
            r is Err ==> g_assigned(
                old(self).bytes(),
                old(self).at(),
                depth as nat,
                name.spec_bytes(),
                op,
            ).is_fail(r->Err_0),
        decreases depth, 75int,
    {
        match op {
            AssignOp::Append => self.parse_array_value(depth, name, true),
            AssignOp::Array => self.parse_array_value(depth, name, false),
            AssignOp::Scalar => self.parse_scalar_value(depth, name),
        }
    }

    /// The words of an array from behind the `(`.
    #[verifier::spinoff_prover]
    fn parse_array_value(
        &mut self,
        depth: usize,
        name: &'a str,
        append: bool,
    ) -> (r: Result<CmdPrefix<'a>, ParseError>)
        requires
            old(self).inv(),
        ensures
            final(self).same_input(old(self)),
            final(self).in_input(r),
            r is Ok ==> final(self).after_in_line(old(self)),
            r is Ok ==> g_array_value(
                old(self).bytes(),
                old(self).at(),
                depth as nat,
                name.spec_bytes(),
                append,
            ).is_done(cmd_prefix_view(r->Ok_0), final(self).at()),
            r is Err ==> g_array_value(
                old(self).bytes(),
                old(self).at(),
                depth as nat,
                name.spec_bytes(),
                append,
            ).is_fail(r->Err_0),
        decreases depth, 74int,
    {
        let words = self.parse_array(depth)?;
        if append {
            Ok(CmdPrefix::ArrayAppend(name, words))
        } else {
            Ok(CmdPrefix::ArrayAssign(name, words))
        }
    }

    /// The word assigned from behind the `=`, or none.
    #[verifier::spinoff_prover]
    fn parse_scalar_value(
        &mut self,
        depth: usize,
        name: &'a str,
    ) -> (r: Result<CmdPrefix<'a>, ParseError>)
        requires
            old(self).inv(),
        ensures
            final(self).same_input(old(self)),
            final(self).in_input(r),
            r is Ok ==> final(self).after_in_line(old(self)),
            r is Ok ==> g_scalar_value(
                old(self).bytes(),
                old(self).at(),
                depth as nat,
                name.spec_bytes(),
            ).is_done(cmd_prefix_view(r->Ok_0), final(self).at()),
            r is Err ==> g_scalar_value(
                old(self).bytes(),
                old(self).at(),
                depth as nat,
                name.spec_bytes(),
            ).is_fail(r->Err_0),
        decreases depth, 74int,
    {
        if self.at_word_end(WordCtx::Command) {
            Ok(CmdPrefix::Assign(name, None))
        } else {
            let w = self.parse_word(depth, WordCtx::Command)?;
            Ok(CmdPrefix::Assign(name, Some(w)))
        }
    }

    /// The words of an array up to and with `)`.
    #[verifier::spinoff_prover]
    fn parse_array(&mut self, depth: usize) -> (r: Result<Vec<Word<'a>>, ParseError>)
        requires
            old(self).inv(),
        ensures
            final(self).same_input(old(self)),
            final(self).in_input(r),
            r is Ok ==> final(self).after_in_line(old(self)),
            r is Ok ==> g_array(
                old(self).bytes(),
                old(self).at(),
                depth as nat,
                Seq::empty(),
            ).is_done(
                words_view(r->Ok_0),
                final(self).at(),
            ),
            r is Err ==> g_array(
                old(self).bytes(),
                old(self).at(),
                depth as nat,
                Seq::empty(),
            ).is_fail(
                r->Err_0,
            ),
        decreases depth, 73int,
    {
        let mut words: Vec<Word<'a>> = Vec::new();
        assert(words_view(words) =~= Seq::empty());
        loop
            invariant
                self.after_in_line(old(self)),
                g_array(old(self).bytes(), old(self).at(), depth as nat, Seq::empty()) == g_array(
                    self.bytes(),
                    self.at(),
                    depth as nat,
                    words_view(words),
                ),
            decreases self.bytes().len() - self.at(),
        {
            self.skip_space();
            if self.peek() == RPAREN {
                self.take(1);
                return Ok(words);
            }
            if self.at_word_end(WordCtx::Command) {
                return self.fail("expected ')'");
            }
            let w = self.parse_word(depth, WordCtx::Command)?;
            let ghost before = words_view(words);
            words.push(w);
            assert(words_view(words) =~= before.push(word_view(w)));
        }
    }

    /// Steps over blanks and newlines.
    #[verifier::spinoff_prover]
    fn skip_space(&mut self)
        requires
            old(self).inv(),
        ensures
            final(self).after_in_line(old(self)),
            final(self).at() == run_end(old(self).bytes(), old(self).at(), ByteClass::Space),
    {
        let here = self.here();
        let end = scan_run(self.src(), here, ByteClass::Space);
        proof {
            lemma_run_end(self.bytes(), here as int, ByteClass::Space);
            lemma_cut_run(self.bytes(), here as int, ByteClass::Space);
        }
        self.jump(end);
    }

    // ----- redirects -----

    /// The redirect that starts at the cursor, if one does: its file
    /// descriptor, its operator, and the position behind the operator.
    #[verifier::spinoff_prover]
    fn redir_start(&self) -> (r: Option<(Option<u16>, RedirOp, usize)>)
        requires
            self.inv(),
        ensures
            match r {
                Some((fd, op, after)) => redir_at(self.bytes(), self.at()) == Some(
                    (fd, op, after as int),
                ) && self.at() < after <= self.bytes().len() && forall|i: int|
                    self.at() <= i < after ==> 0 < #[trigger] byte_at(self.bytes(), i) < 0x80,
                None => redir_at(self.bytes(), self.at()) is None,
            },
    {
        reveal(redir_at);
        let src = self.src();
        let p = self.here();
        let n = scan_run(src, p, ByteClass::Digit);
        proof {
            lemma_run_end(self.bytes(), p as int, ByteClass::Digit);
        }
        if n > p {
            let c = byte(src, n);
            if !(c == LT || c == GT) {
                return None;
            }
            let digits = slice_subrange(src, p, n);
            let fd = match decimal_value(digits) {
                Some(v) => v,
                None => {
                    return None;
                },
            };
            if fd > 0xffff {
                return None;
            }
            match redir_op(src, n) {
                Some((op, k)) => Some((Some(fd as u16), op, n + k)),
                None => None,
            }
        } else {
            match redir_op(src, p) {
                Some((op, k)) => Some((None, op, p + k)),
                None => None,
            }
        }
    }

    /// The redirects behind a compound command.
    #[verifier::spinoff_prover]
    fn parse_redirs(&mut self, depth: usize) -> (r: Result<Vec<Redir<'a>>, ParseError>)
        requires
            old(self).inv(),
        ensures
            final(self).same_input(old(self)),
            final(self).in_input(r),
            r is Ok ==> final(self).after(old(self)),
            r is Ok ==> g_redirs(
                old(self).bytes(),
                old(self).st(),
                depth as nat,
                Seq::empty(),
            ).is_done(
                redirs_view(r->Ok_0),
                final(self).st(),
            ),
            r is Err ==> g_redirs(
                old(self).bytes(),
                old(self).st(),
                depth as nat,
                Seq::empty(),
            ).is_fail(r->Err_0),
        decreases depth, 74int,
    {
        let mut redirs: Vec<Redir<'a>> = Vec::new();
        assert(redirs_view(redirs) =~= Seq::empty());
        loop
            invariant
                self.after(old(self)),
                g_redirs(old(self).bytes(), old(self).st(), depth as nat, Seq::empty())
                    == g_redirs(self.bytes(), self.st(), depth as nat, redirs_view(redirs)),
            decreases self.bytes().len() - self.at(),
        {
            let start = self.here();
            self.skip_blanks();
            if self.redir_start().is_none() {
                return Ok(redirs);
            }
            let x = self.parse_redir(depth)?;
            let ghost before = redirs_view(redirs);
            redirs.push(x);
            assert(redirs_view(redirs) =~= before.push(redir_node_view(x)));
            if !(start < self.here()) {
                return Ok(redirs);
            }
        }
    }

    /// The redirect at the cursor.
    #[verifier::spinoff_prover]
    fn parse_redir(&mut self, depth: usize) -> (r: Result<Redir<'a>, ParseError>)
        requires
            old(self).inv(),
        ensures
            final(self).same_input(old(self)),
            final(self).in_input(r),
            r is Ok ==> final(self).after(old(self)),
            r is Ok ==> g_redir(
                old(self).bytes(),
                old(self).st(),
                depth as nat,
            ).is_done(redir_node_view(r->Ok_0), final(self).st()),
            r is Err ==> g_redir(old(self).bytes(), old(self).st(), depth as nat).is_fail(r->Err_0),
        decreases depth, 73int,
    {
        match self.redir_start() {
            Some((fd, op, after)) => {
                self.take(after - self.here());
                self.skip_blanks();
                match op {
                    RedirOp::Heredoc => self.parse_heredoc(depth, false),
                    RedirOp::HeredocStrip => self.parse_heredoc(depth, true),
                    _ => self.parse_redir_target(depth, op, fd),
                }
            },
            None => self.fail("expected redirect"),
        }
    }

    /// The target word of a redirect.
    #[verifier::spinoff_prover]
    fn parse_redir_target(
        &mut self,
        depth: usize,
        op: RedirOp,
        fd: Option<u16>,
    ) -> (r: Result<Redir<'a>, ParseError>)
        requires
            old(self).inv(),
        ensures
            final(self).same_input(old(self)),
            final(self).in_input(r),
            r is Ok ==> final(self).after(old(self)),
            r is Ok ==> g_redir_target(
                old(self).bytes(),
                old(self).st(),
                depth as nat,
                op,
                fd,
            ).is_done(redir_node_view(r->Ok_0), final(self).st()),
            r is Err ==> g_redir_target(
                old(self).bytes(),
                old(self).st(),
                depth as nat,
                op,
                fd,
            ).is_fail(r->Err_0),
        decreases depth, 72int,
    {
        let w = self.parse_word(depth, WordCtx::Command)?;
        Ok(mk_redir(op, fd, w))
    }

    // ----- heredocs -----

    /// The delimiter of a heredoc written at the cursor: where its text
    /// starts and ends, whether it is quoted, and where reading goes on.
    #[verifier::spinoff_prover]
    fn delimiter(&self) -> (r: Option<(usize, usize, bool, usize)>)
        requires
            self.inv(),
        ensures
            match r {
                Some((from, to, quoted, after)) => {
                    &&& heredoc_delim(self.bytes(), self.at()) == Some(
                        (from as int, to as int, quoted, after as int),
                    )
                    &&& self.at() <= from <= to <= after <= self.bytes().len()
                    &&& cut(self.bytes(), from as int)
                    &&& cut(self.bytes(), to as int)
                    &&& cut(self.bytes(), after as int)
                },
                None => heredoc_delim(self.bytes(), self.at()) is None,
            },
    {
        reveal(heredoc_delim);
        let src = self.src();
        let p = self.here();
        let c = self.peek();
        if c == SQUOTE || c == DQUOTE {
            let class = if c == SQUOTE {
                ByteClass::NotSquote
            } else {
                ByteClass::NotDquote
            };
            let e = scan_run(src, p + 1, class);
            proof {
                lemma_run_end(self.bytes(), p + 1, class);
                lemma_cut_step(self.bytes(), p as int);
            }
            if e < src.len() {
                proof {
                    lemma_cut_at(self.bytes(), e as int);
                    lemma_cut_step(self.bytes(), e as int);
                }
                Some((p + 1, e, true, e + 1))
            } else {
                None
            }
        } else {
            let e = scan_run(src, p, ByteClass::NotMeta);
            proof {
                lemma_run_end(self.bytes(), p as int, ByteClass::NotMeta);
                lemma_cut_at(self.bytes(), e as int);
            }
            if e > p {
                Some((p, e, false, e))
            } else {
                None
            }
        }
    }

    /// Where the body of a heredoc begins whose delimiter ends at `after`.
    #[verifier::spinoff_prover]
    fn body_start(&self, after: usize) -> (start: usize)
        requires
            self.inv(),
            after <= self.bytes().len(),
        ensures
            start == body_start(self.bytes(), self.st(), after as int),
            after <= start <= self.bytes().len(),
            cut(self.bytes(), start as int),
    {
        reveal(body_start);
        let src = self.src();
        let le = scan_run(src, after, ByteClass::NotNewline);
        proof {
            lemma_run_end(self.bytes(), after as int, ByteClass::NotNewline);
            lemma_cut_at(self.bytes(), le as int);
        }
        if self.resume > after {
            self.resume
        } else if le < src.len() {
            proof {
                lemma_cut_step(self.bytes(), le as int);
            }
            le + 1
        } else {
            src.len()
        }
    }

    /// The line that ends the body of a heredoc which begins at `start`:
    /// where it starts, and where the line behind it starts.
    #[verifier::spinoff_prover]
    fn body_end(&self, start: usize, from: usize, to: usize, strip: bool) -> (r: Option<
        (usize, usize),
    >)
        requires
            self.inv(),
            start <= self.bytes().len(),
            from <= to <= self.bytes().len(),
            cut(self.bytes(), start as int),
        ensures
            match r {
                Some((end, resume)) => {
                    &&& heredoc_end(
                        self.bytes(),
                        start as int,
                        self.bytes().subrange(from as int, to as int),
                        strip,
                    ) == Some((end as int, resume as int))
                    &&& start <= end <= resume <= self.bytes().len()
                    &&& cut(self.bytes(), end as int)
                    &&& cut(self.bytes(), resume as int)
                },
                None => heredoc_end(
                    self.bytes(),
                    start as int,
                    self.bytes().subrange(from as int, to as int),
                    strip,
                ) is None,
            },
    {
        let src = self.src();
        let len = src.len();
        let mut ls = start;
        while ls < len
            invariant
                self.inv(),
                src@ == self.bytes(),
                len == src@.len(),
                start <= ls <= len,
                from <= to <= len,
                cut(self.bytes(), ls as int),
                heredoc_end(
                    self.bytes(),
                    start as int,
                    self.bytes().subrange(from as int, to as int),
                    strip,
                ) == heredoc_end(
                    self.bytes(),
                    ls as int,
                    self.bytes().subrange(from as int, to as int),
                    strip,
                ),
            decreases len - ls,
        {
            reveal(heredoc_end);
            let le = scan_run(src, ls, ByteClass::NotNewline);
            let cs = if strip {
                scan_run(src, ls, ByteClass::Tab)
            } else {
                ls
            };
            proof {
                lemma_run_end(self.bytes(), ls as int, ByteClass::NotNewline);
                lemma_run_end(self.bytes(), ls as int, ByteClass::Tab);
                lemma_cut_at(self.bytes(), le as int);
                if le < len {
                    lemma_cut_step(self.bytes(), le as int);
                }
            }
            if cs > le {
                return None;
            }
            if le - cs == to - from && same_bytes(src, cs, from, to - from) {
                return Some(
                    (
                        ls,
                        if le < len {
                            le + 1
                        } else {
                            le
                        },
                    ),
                );
            }
            assert(self.bytes().subrange(cs as int, le as int) != self.bytes().subrange(
                from as int,
                to as int,
            )) by {
                if le - cs != to - from {
                    let line = self.bytes().subrange(cs as int, le as int);
                    let delim = self.bytes().subrange(from as int, to as int);
                    assert(line.len() != delim.len());
                }
            }
            if le < len {
                ls = le + 1;
            } else {
                return None;
            }
        }
        reveal(heredoc_end);
        None
    }

    /// A heredoc from its delimiter on.
    #[verifier::spinoff_prover]
    fn parse_heredoc(&mut self, depth: usize, strip: bool) -> (r: Result<Redir<'a>, ParseError>)
        requires
            old(self).inv(),
        ensures
            final(self).same_input(old(self)),
            final(self).in_input(r),
            r is Ok ==> final(self).after(old(self)),
            r is Ok ==> g_heredoc(
                old(self).bytes(),
                old(self).st(),
                depth as nat,
                strip,
            ).is_done(redir_node_view(r->Ok_0), final(self).st()),
            r is Err ==> g_heredoc(
                old(self).bytes(),
                old(self).st(),
                depth as nat,
                strip,
            ).is_fail(r->Err_0),
        decreases depth, 72int,
    {
        let at = self.here();
        let (from, to, quoted, after) = match self.delimiter() {
            Some(d) => d,
            None => {
                return self.fail("expected heredoc delimiter");
            },
        };
        let start = self.body_start(after);
        let (end, resume) = match self.body_end(start, from, to, strip) {
            Some(e) => e,
            None => {
                return self.fail_at(self.src().len(), "unterminated heredoc");
            },
        };
        let body = self.parse_heredoc_body(start, end, depth, quoted, at)?;
        self.jump(after);
        self.resume = resume;
        Ok(Redir::Heredoc(body))
    }

    /// The body of a heredoc that lies from `start` to `end`.
    #[verifier::spinoff_prover]
    fn parse_heredoc_body(
        &self,
        start: usize,
        end: usize,
        depth: usize,
        quoted: bool,
        at: usize,
    ) -> (r: Result<HeredocBody<'a>, ParseError>)
        requires
            self.inv(),
            start <= end <= self.bytes().len(),
            at <= self.bytes().len(),
            cut(self.bytes(), start as int),
            cut(self.bytes(), end as int),
        ensures
            self.in_input(r),
            r is Ok ==> g_heredoc_body(
                self.bytes(),
                start as int,
                end as int,
                depth as nat,
                quoted,
                at as int,
            ).is_done(heredoc_body_view(r->Ok_0), end as int),
            r is Err ==> g_heredoc_body(
                self.bytes(),
                start as int,
                end as int,
                depth as nat,
                quoted,
                at as int,
            ).is_fail(r->Err_0),
        decreases depth, 71int,
    {
        let body = self.span(start, end);
        if quoted {
            return Ok(HeredocBody::Literal(body));
        }
        if depth == 0 {
            return self.fail_at(at, "nesting too deep");
        }
        let mut sub = Parser::new(body);
        match sub.parse_dq_atoms(depth - 1, true) {
            Ok(atoms) => Ok(HeredocBody::Interpolated(atoms)),
            Err(e) => Err(ParseError { pos: start + e.pos, msg: e.msg }),
        }
    }
}

} // verus!
