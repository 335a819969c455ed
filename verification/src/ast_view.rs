//! The mathematical model of the syntax tree: the same shapes over
//! sequences, with every text as its bytes. Contracts speak of trees
//! through these views.

use std::borrow::Cow;
use vstd::prelude::*;
use vstd::string::StringSliceAdditionalSpecFns;
use vstd::utf8::encode_utf8;
use crate::ast::{
    AndOr, AndOrList, Arith, Atom, CaseArm, Cmd, CmdPrefix, CmdSuffix, CompoundCmd, CompoundKind,
    Executable, GuardBody, HeredocBody, Param, Pipeline, Redir, SimpleCmd, Subst, Word, WordPart,
};

verus! {

// ----- the shapes -----

/// Model of a command.
pub enum CmdView {
    List(AndOrListView),
    Job(AndOrListView),
}

/// Model of an and/or list.
pub struct AndOrListView {
    pub first: PipelineView,
    pub rest: Seq<AndOrView>,
}

/// Model of a chained pipeline.
pub enum AndOrView {
    And(PipelineView),
    Or(PipelineView),
}

/// Model of a pipeline.
pub enum PipelineView {
    Single(ExecutableView),
    Pipe(bool, Seq<ExecutableView>),
}

/// Model of an executable.
pub enum ExecutableView {
    Simple(SimpleCmdView),
    Compound(CompoundCmdView),
    FuncDef(Seq<u8>, CompoundCmdView),
}

/// Model of a simple command.
pub struct SimpleCmdView {
    pub prefix: Seq<CmdPrefixView>,
    pub suffix: Seq<CmdSuffixView>,
}

/// Model of a prefix item.
pub enum CmdPrefixView {
    Assign(Seq<u8>, Option<WordView>),
    ArrayAssign(Seq<u8>, Seq<WordView>),
    ArrayAppend(Seq<u8>, Seq<WordView>),
    Redirect(RedirView),
}

/// Model of a suffix item.
pub enum CmdSuffixView {
    Word(WordView),
    Redirect(RedirView),
}

/// Model of a compound command.
pub struct CompoundCmdView {
    pub kind: CompoundKindView,
    pub redirects: Seq<RedirView>,
}

/// Model of the kinds of compound command.
pub enum CompoundKindView {
    For { var: Seq<u8>, words: Option<Seq<WordView>>, body: Seq<CmdView> },
    While(GuardBodyView),
    Until(GuardBodyView),
    If { conditionals: Seq<GuardBodyView>, else_branch: Option<Seq<CmdView>> },
    Case { word: WordView, arms: Seq<CaseArmView> },
    CFor {
        init: Option<ArithView>,
        cond: Option<ArithView>,
        step: Option<ArithView>,
        body: Seq<CmdView>,
    },
    Brace(Seq<CmdView>),
    Subshell(Seq<CmdView>),
    DoubleBracket(Seq<CmdView>),
    Arithmetic(ArithView),
}

/// Model of a guard and its body.
pub struct GuardBodyView {
    pub guard: Seq<CmdView>,
    pub body: Seq<CmdView>,
}

/// Model of a case arm.
pub struct CaseArmView {
    pub patterns: Seq<WordView>,
    pub body: Seq<CmdView>,
}

/// Model of a word.
pub enum WordView {
    Simple(WordPartView),
    Concat(Seq<WordPartView>),
}

/// Model of a part of a word.
pub enum WordPartView {
    Bare(AtomView),
    DQuoted(Seq<AtomView>),
    SQuoted(Seq<u8>),
}

/// Model of an atom.
pub enum AtomView {
    Lit(Seq<u8>),
    Escaped(Seq<u8>),
    Param(ParamView),
    Subst(Box<SubstView>),
    Star,
    Question,
    SquareOpen,
    SquareClose,
    Tilde,
    ProcSubIn(Seq<CmdView>),
    AnsiCQuoted(Seq<u8>),
    BraceRange { start: Seq<u8>, end: Seq<u8>, step: Option<Seq<u8>> },
}

/// Model of a parameter.
pub enum ParamView {
    Var(Seq<u8>),
    Positional(u32),
    At,
    Star,
    Pound,
    Status,
    Pid,
    Bang,
    Dash,
}

/// Model of a substitution.
pub enum SubstView {
    Cmd(Seq<CmdView>),
    Arith(Option<ArithView>),
    Len(ParamView),
    Indirect(Seq<u8>),
    PrefixList(Seq<u8>),
    Transform(Seq<u8>, u8),
    Default(ParamView, Option<WordView>),
    Assign(ParamView, Option<WordView>),
    Error(ParamView, Option<WordView>),
    Alt(ParamView, Option<WordView>),
    TrimSuffixSmall(ParamView, Option<WordView>),
    TrimSuffixLarge(ParamView, Option<WordView>),
    TrimPrefixSmall(ParamView, Option<WordView>),
    TrimPrefixLarge(ParamView, Option<WordView>),
    Replace(ParamView, Option<WordView>, Option<WordView>),
    ReplaceAll(ParamView, Option<WordView>, Option<WordView>),
    ReplacePrefix(ParamView, Option<WordView>, Option<WordView>),
    ReplaceSuffix(ParamView, Option<WordView>, Option<WordView>),
    Substring(ParamView, Seq<u8>, Option<Seq<u8>>),
    Upper(bool, ParamView),
    Lower(bool, ParamView),
    ArrayElement(Seq<u8>, WordView),
    ArrayAll(Seq<u8>),
    ArrayLen(Seq<u8>),
    ArraySlice(Seq<u8>, Seq<u8>, Option<Seq<u8>>),
}

/// Model of an arithmetic expression.
pub enum ArithView {
    Var(Seq<u8>),
    Lit(i64),
    Add(Box<ArithView>, Box<ArithView>),
    Sub(Box<ArithView>, Box<ArithView>),
    Mul(Box<ArithView>, Box<ArithView>),
    Div(Box<ArithView>, Box<ArithView>),
    Rem(Box<ArithView>, Box<ArithView>),
    Pow(Box<ArithView>, Box<ArithView>),
    Lt(Box<ArithView>, Box<ArithView>),
    Le(Box<ArithView>, Box<ArithView>),
    Gt(Box<ArithView>, Box<ArithView>),
    Ge(Box<ArithView>, Box<ArithView>),
    Eq(Box<ArithView>, Box<ArithView>),
    Ne(Box<ArithView>, Box<ArithView>),
    BitAnd(Box<ArithView>, Box<ArithView>),
    BitOr(Box<ArithView>, Box<ArithView>),
    BitXor(Box<ArithView>, Box<ArithView>),
    LogAnd(Box<ArithView>, Box<ArithView>),
    LogOr(Box<ArithView>, Box<ArithView>),
    Shl(Box<ArithView>, Box<ArithView>),
    Shr(Box<ArithView>, Box<ArithView>),
    Pos(Box<ArithView>),
    Neg(Box<ArithView>),
    LogNot(Box<ArithView>),
    BitNot(Box<ArithView>),
    PreInc(Seq<u8>),
    PostInc(Seq<u8>),
    PreDec(Seq<u8>),
    PostDec(Seq<u8>),
    Ternary(Box<ArithView>, Box<ArithView>, Box<ArithView>),
    Assign(Seq<u8>, Box<ArithView>),
}

/// Model of a heredoc body.
pub enum HeredocBodyView {
    Literal(Seq<u8>),
    Interpolated(Seq<AtomView>),
}

/// Model of a redirect.
pub enum RedirView {
    Read(Option<u16>, WordView),
    Write(Option<u16>, WordView),
    Append(Option<u16>, WordView),
    ReadWrite(Option<u16>, WordView),
    Clobber(Option<u16>, WordView),
    DupRead(Option<u16>, WordView),
    DupWrite(Option<u16>, WordView),
    HereString(WordView),
    Heredoc(HeredocBodyView),
    WriteAll(WordView),
    AppendAll(WordView),
}

// ----- the views -----

pub open spec fn cmd_view(x: Cmd) -> CmdView
    decreases x,
{
    match x {
        Cmd::List(a) => CmdView::List(and_or_list_view(a)),
        Cmd::Job(a) => CmdView::Job(and_or_list_view(a)),
    }
}

pub open spec fn and_or_list_view(x: AndOrList) -> AndOrListView
    decreases x,
{
    AndOrListView {
        first: pipeline_view(x.first),
        rest: and_ors_view(x.rest),
    }
}

pub open spec fn and_or_view(x: AndOr) -> AndOrView
    decreases x,
{
    match x {
        AndOr::And(a) => AndOrView::And(pipeline_view(a)),
        AndOr::Or(a) => AndOrView::Or(pipeline_view(a)),
    }
}

pub open spec fn pipeline_view(x: Pipeline) -> PipelineView
    decreases x,
{
    match x {
        Pipeline::Single(a) => PipelineView::Single(executable_view(a)),
        Pipeline::Pipe(a, b) => PipelineView::Pipe(a, executables_view(b)),
    }
}

pub open spec fn executable_view(x: Executable) -> ExecutableView
    decreases x,
{
    match x {
        Executable::Simple(a) => ExecutableView::Simple(simple_cmd_view(a)),
        Executable::Compound(a) => ExecutableView::Compound(compound_cmd_view(a)),
        Executable::FuncDef(a, b) => ExecutableView::FuncDef(a.spec_bytes(), compound_cmd_view(b)),
    }
}

pub open spec fn simple_cmd_view(x: SimpleCmd) -> SimpleCmdView
    decreases x,
{
    SimpleCmdView {
        prefix: prefixes_view(x.prefix),
        suffix: suffixes_view(x.suffix),
    }
}

pub open spec fn cmd_prefix_view(x: CmdPrefix) -> CmdPrefixView
    decreases x,
{
    match x {
        CmdPrefix::Assign(a, b) => CmdPrefixView::Assign(
            a.spec_bytes(),
            match b {
                Some(x) => Some(word_view(x)),
                None => None,
            },
        ),
        CmdPrefix::ArrayAssign(a, b) => CmdPrefixView::ArrayAssign(a.spec_bytes(), words_view(b)),
        CmdPrefix::ArrayAppend(a, b) => CmdPrefixView::ArrayAppend(a.spec_bytes(), words_view(b)),
        CmdPrefix::Redirect(a) => CmdPrefixView::Redirect(redir_view(a)),
    }
}

pub open spec fn cmd_suffix_view(x: CmdSuffix) -> CmdSuffixView
    decreases x,
{
    match x {
        CmdSuffix::Word(a) => CmdSuffixView::Word(word_view(a)),
        CmdSuffix::Redirect(a) => CmdSuffixView::Redirect(redir_view(a)),
    }
}

pub open spec fn compound_cmd_view(x: CompoundCmd) -> CompoundCmdView
    decreases x,
{
    CompoundCmdView {
        kind: compound_kind_view(x.kind),
        redirects: redirs_view(x.redirects),
    }
}

pub open spec fn compound_kind_view(x: CompoundKind) -> CompoundKindView
    decreases x,
{
    match x {
        CompoundKind::For { var, words, body } => CompoundKindView::For {
            var: var.spec_bytes(),
            words: match words {
                Some(x) => Some(words_view(x)),
                None => None,
            },
            body: cmds_view(body),
        },
        CompoundKind::While(a) => CompoundKindView::While(guard_body_view(a)),
        CompoundKind::Until(a) => CompoundKindView::Until(guard_body_view(a)),
        CompoundKind::If { conditionals, else_branch } => CompoundKindView::If {
            conditionals: guard_bodies_view(conditionals),
            else_branch: match else_branch {
                Some(x) => Some(cmds_view(x)),
                None => None,
            },
        },
        CompoundKind::Case { word, arms } => CompoundKindView::Case {
            word: word_view(word),
            arms: case_arms_view(arms),
        },
        CompoundKind::CFor { init, cond, step, body } => CompoundKindView::CFor {
            init: match init {
                Some(x) => Some(arith_view(x)),
                None => None,
            },
            cond: match cond {
                Some(x) => Some(arith_view(x)),
                None => None,
            },
            step: match step {
                Some(x) => Some(arith_view(x)),
                None => None,
            },
            body: cmds_view(body),
        },
        CompoundKind::Brace(a) => CompoundKindView::Brace(cmds_view(a)),
        CompoundKind::Subshell(a) => CompoundKindView::Subshell(cmds_view(a)),
        CompoundKind::DoubleBracket(a) => CompoundKindView::DoubleBracket(cmds_view(a)),
        CompoundKind::Arithmetic(a) => CompoundKindView::Arithmetic(arith_view(a)),
    }
}

pub open spec fn guard_body_view(x: GuardBody) -> GuardBodyView
    decreases x,
{
    GuardBodyView {
        guard: cmds_view(x.guard),
        body: cmds_view(x.body),
    }
}

pub open spec fn case_arm_view(x: CaseArm) -> CaseArmView
    decreases x,
{
    CaseArmView {
        patterns: words_view(x.patterns),
        body: cmds_view(x.body),
    }
}

pub open spec fn word_view(x: Word) -> WordView
    decreases x,
{
    match x {
        Word::Simple(a) => WordView::Simple(word_part_view(a)),
        Word::Concat(a) => WordView::Concat(parts_view(a)),
    }
}

pub open spec fn word_part_view(x: WordPart) -> WordPartView
    decreases x,
{
    match x {
        WordPart::Bare(a) => WordPartView::Bare(atom_view(a)),
        WordPart::DQuoted(a) => WordPartView::DQuoted(atoms_view(a)),
        WordPart::SQuoted(a) => WordPartView::SQuoted(a.spec_bytes()),
    }
}

pub open spec fn atom_view(x: Atom) -> AtomView
    decreases x,
{
    match x {
        Atom::Lit(a) => AtomView::Lit(a.spec_bytes()),
        Atom::Escaped(a) => AtomView::Escaped(encode_utf8(a@)),
        Atom::Param(a) => AtomView::Param(param_view(a)),
        Atom::Subst(a) => AtomView::Subst(Box::new(subst_view(*a))),
        Atom::Star => AtomView::Star,
        Atom::Question => AtomView::Question,
        Atom::SquareOpen => AtomView::SquareOpen,
        Atom::SquareClose => AtomView::SquareClose,
        Atom::Tilde => AtomView::Tilde,
        Atom::ProcSubIn(a) => AtomView::ProcSubIn(cmds_view(a)),
        Atom::AnsiCQuoted(a) => AtomView::AnsiCQuoted(a.spec_bytes()),
        Atom::BraceRange { start, end, step } => AtomView::BraceRange {
            start: start.spec_bytes(),
            end: end.spec_bytes(),
            step: match step {
                Some(s) => Some(s.spec_bytes()),
                None => None,
            },
        },
    }
}

pub open spec fn param_view(x: Param) -> ParamView
    decreases x,
{
    match x {
        Param::Var(a) => ParamView::Var(a.spec_bytes()),
        Param::Positional(a) => ParamView::Positional(a),
        Param::At => ParamView::At,
        Param::Star => ParamView::Star,
        Param::Pound => ParamView::Pound,
        Param::Status => ParamView::Status,
        Param::Pid => ParamView::Pid,
        Param::Bang => ParamView::Bang,
        Param::Dash => ParamView::Dash,
    }
}

pub open spec fn subst_view(x: Subst) -> SubstView
    decreases x,
{
    match x {
        Subst::Cmd(a) => SubstView::Cmd(cmds_view(a)),
        Subst::Arith(a) => SubstView::Arith(
            match a {
                Some(x) => Some(arith_view(x)),
                None => None,
            },
        ),
        Subst::Len(a) => SubstView::Len(param_view(a)),
        Subst::Indirect(a) => SubstView::Indirect(a.spec_bytes()),
        Subst::PrefixList(a) => SubstView::PrefixList(a.spec_bytes()),
        Subst::Transform(a, b) => SubstView::Transform(a.spec_bytes(), b),
        Subst::Default(a, b) => SubstView::Default(
            param_view(a),
            match b {
                Some(x) => Some(word_view(x)),
                None => None,
            },
        ),
        Subst::Assign(a, b) => SubstView::Assign(
            param_view(a),
            match b {
                Some(x) => Some(word_view(x)),
                None => None,
            },
        ),
        Subst::Error(a, b) => SubstView::Error(
            param_view(a),
            match b {
                Some(x) => Some(word_view(x)),
                None => None,
            },
        ),
        Subst::Alt(a, b) => SubstView::Alt(
            param_view(a),
            match b {
                Some(x) => Some(word_view(x)),
                None => None,
            },
        ),
        Subst::TrimSuffixSmall(a, b) => SubstView::TrimSuffixSmall(
            param_view(a),
            match b {
                Some(x) => Some(word_view(x)),
                None => None,
            },
        ),
        Subst::TrimSuffixLarge(a, b) => SubstView::TrimSuffixLarge(
            param_view(a),
            match b {
                Some(x) => Some(word_view(x)),
                None => None,
            },
        ),
        Subst::TrimPrefixSmall(a, b) => SubstView::TrimPrefixSmall(
            param_view(a),
            match b {
                Some(x) => Some(word_view(x)),
                None => None,
            },
        ),
        Subst::TrimPrefixLarge(a, b) => SubstView::TrimPrefixLarge(
            param_view(a),
            match b {
                Some(x) => Some(word_view(x)),
                None => None,
            },
        ),
        Subst::Replace(a, b, c) => SubstView::Replace(
            param_view(a),
            match b {
                Some(x) => Some(word_view(x)),
                None => None,
            },
            match c {
                Some(x) => Some(word_view(x)),
                None => None,
            },
        ),
        Subst::ReplaceAll(a, b, c) => SubstView::ReplaceAll(
            param_view(a),
            match b {
                Some(x) => Some(word_view(x)),
                None => None,
            },
            match c {
                Some(x) => Some(word_view(x)),
                None => None,
            },
        ),
        Subst::ReplacePrefix(a, b, c) => SubstView::ReplacePrefix(
            param_view(a),
            match b {
                Some(x) => Some(word_view(x)),
                None => None,
            },
            match c {
                Some(x) => Some(word_view(x)),
                None => None,
            },
        ),
        Subst::ReplaceSuffix(a, b, c) => SubstView::ReplaceSuffix(
            param_view(a),
            match b {
                Some(x) => Some(word_view(x)),
                None => None,
            },
            match c {
                Some(x) => Some(word_view(x)),
                None => None,
            },
        ),
        Subst::Substring(a, b, c) => SubstView::Substring(
            param_view(a),
            b.spec_bytes(),
            match c {
                Some(s) => Some(s.spec_bytes()),
                None => None,
            },
        ),
        Subst::Upper(a, b) => SubstView::Upper(a, param_view(b)),
        Subst::Lower(a, b) => SubstView::Lower(a, param_view(b)),
        Subst::ArrayElement(a, b) => SubstView::ArrayElement(a.spec_bytes(), word_view(b)),
        Subst::ArrayAll(a) => SubstView::ArrayAll(a.spec_bytes()),
        Subst::ArrayLen(a) => SubstView::ArrayLen(a.spec_bytes()),
        Subst::ArraySlice(a, b, c) => SubstView::ArraySlice(
            a.spec_bytes(),
            b.spec_bytes(),
            match c {
                Some(s) => Some(s.spec_bytes()),
                None => None,
            },
        ),
    }
}

pub open spec fn arith_view(x: Arith) -> ArithView
    decreases x,
{
    match x {
        Arith::Var(a) => ArithView::Var(a.spec_bytes()),
        Arith::Lit(a) => ArithView::Lit(a),
        Arith::Add(a, b) => ArithView::Add(Box::new(arith_view(*a)), Box::new(arith_view(*b))),
        Arith::Sub(a, b) => ArithView::Sub(Box::new(arith_view(*a)), Box::new(arith_view(*b))),
        Arith::Mul(a, b) => ArithView::Mul(Box::new(arith_view(*a)), Box::new(arith_view(*b))),
        Arith::Div(a, b) => ArithView::Div(Box::new(arith_view(*a)), Box::new(arith_view(*b))),
        Arith::Rem(a, b) => ArithView::Rem(Box::new(arith_view(*a)), Box::new(arith_view(*b))),
        Arith::Pow(a, b) => ArithView::Pow(Box::new(arith_view(*a)), Box::new(arith_view(*b))),
        Arith::Lt(a, b) => ArithView::Lt(Box::new(arith_view(*a)), Box::new(arith_view(*b))),
        Arith::Le(a, b) => ArithView::Le(Box::new(arith_view(*a)), Box::new(arith_view(*b))),
        Arith::Gt(a, b) => ArithView::Gt(Box::new(arith_view(*a)), Box::new(arith_view(*b))),
        Arith::Ge(a, b) => ArithView::Ge(Box::new(arith_view(*a)), Box::new(arith_view(*b))),
        Arith::Eq(a, b) => ArithView::Eq(Box::new(arith_view(*a)), Box::new(arith_view(*b))),
        Arith::Ne(a, b) => ArithView::Ne(Box::new(arith_view(*a)), Box::new(arith_view(*b))),
        Arith::BitAnd(a, b) => ArithView::BitAnd(
            Box::new(arith_view(*a)),
            Box::new(arith_view(*b)),
        ),
        Arith::BitOr(a, b) => ArithView::BitOr(Box::new(arith_view(*a)), Box::new(arith_view(*b))),
        Arith::BitXor(a, b) => ArithView::BitXor(
            Box::new(arith_view(*a)),
            Box::new(arith_view(*b)),
        ),
        Arith::LogAnd(a, b) => ArithView::LogAnd(
            Box::new(arith_view(*a)),
            Box::new(arith_view(*b)),
        ),
        Arith::LogOr(a, b) => ArithView::LogOr(Box::new(arith_view(*a)), Box::new(arith_view(*b))),
        Arith::Shl(a, b) => ArithView::Shl(Box::new(arith_view(*a)), Box::new(arith_view(*b))),
        Arith::Shr(a, b) => ArithView::Shr(Box::new(arith_view(*a)), Box::new(arith_view(*b))),
        Arith::Pos(a) => ArithView::Pos(Box::new(arith_view(*a))),
        Arith::Neg(a) => ArithView::Neg(Box::new(arith_view(*a))),
        Arith::LogNot(a) => ArithView::LogNot(Box::new(arith_view(*a))),
        Arith::BitNot(a) => ArithView::BitNot(Box::new(arith_view(*a))),
        Arith::PreInc(a) => ArithView::PreInc(a.spec_bytes()),
        Arith::PostInc(a) => ArithView::PostInc(a.spec_bytes()),
        Arith::PreDec(a) => ArithView::PreDec(a.spec_bytes()),
        Arith::PostDec(a) => ArithView::PostDec(a.spec_bytes()),
        Arith::Ternary(a, b, c) => ArithView::Ternary(
            Box::new(arith_view(*a)),
            Box::new(arith_view(*b)),
            Box::new(arith_view(*c)),
        ),
        Arith::Assign(a, b) => ArithView::Assign(a.spec_bytes(), Box::new(arith_view(*b))),
    }
}

pub open spec fn heredoc_body_view(x: HeredocBody) -> HeredocBodyView
    decreases x,
{
    match x {
        HeredocBody::Literal(a) => HeredocBodyView::Literal(a.spec_bytes()),
        HeredocBody::Interpolated(a) => HeredocBodyView::Interpolated(atoms_view(a)),
    }
}

pub open spec fn redir_view(x: Redir) -> RedirView
    decreases x,
{
    match x {
        Redir::Read(a, b) => RedirView::Read(a, word_view(b)),
        Redir::Write(a, b) => RedirView::Write(a, word_view(b)),
        Redir::Append(a, b) => RedirView::Append(a, word_view(b)),
        Redir::ReadWrite(a, b) => RedirView::ReadWrite(a, word_view(b)),
        Redir::Clobber(a, b) => RedirView::Clobber(a, word_view(b)),
        Redir::DupRead(a, b) => RedirView::DupRead(a, word_view(b)),
        Redir::DupWrite(a, b) => RedirView::DupWrite(a, word_view(b)),
        Redir::HereString(a) => RedirView::HereString(word_view(a)),
        Redir::Heredoc(a) => RedirView::Heredoc(heredoc_body_view(a)),
        Redir::WriteAll(a) => RedirView::WriteAll(word_view(a)),
        Redir::AppendAll(a) => RedirView::AppendAll(word_view(a)),
    }
}

// ----- the views of lists -----

pub open spec fn cmds_view(v: Vec<Cmd>) -> Seq<CmdView>
    decreases v,
{
    Seq::new(
        v@.len(),
        |i: int|
            if 0 <= i < v@.len() {
                cmd_view(v@[i])
            } else {
                arbitrary()
            },
    )
}

pub open spec fn and_ors_view(v: Vec<AndOr>) -> Seq<AndOrView>
    decreases v,
{
    Seq::new(
        v@.len(),
        |i: int|
            if 0 <= i < v@.len() {
                and_or_view(v@[i])
            } else {
                arbitrary()
            },
    )
}

pub open spec fn executables_view(v: Vec<Executable>) -> Seq<ExecutableView>
    decreases v,
{
    Seq::new(
        v@.len(),
        |i: int|
            if 0 <= i < v@.len() {
                executable_view(v@[i])
            } else {
                arbitrary()
            },
    )
}

pub open spec fn prefixes_view(v: Vec<CmdPrefix>) -> Seq<CmdPrefixView>
    decreases v,
{
    Seq::new(
        v@.len(),
        |i: int|
            if 0 <= i < v@.len() {
                cmd_prefix_view(v@[i])
            } else {
                arbitrary()
            },
    )
}

pub open spec fn suffixes_view(v: Vec<CmdSuffix>) -> Seq<CmdSuffixView>
    decreases v,
{
    Seq::new(
        v@.len(),
        |i: int|
            if 0 <= i < v@.len() {
                cmd_suffix_view(v@[i])
            } else {
                arbitrary()
            },
    )
}

pub open spec fn redirs_view(v: Vec<Redir>) -> Seq<RedirView>
    decreases v,
{
    Seq::new(
        v@.len(),
        |i: int|
            if 0 <= i < v@.len() {
                redir_view(v@[i])
            } else {
                arbitrary()
            },
    )
}

pub open spec fn words_view(v: Vec<Word>) -> Seq<WordView>
    decreases v,
{
    Seq::new(
        v@.len(),
        |i: int|
            if 0 <= i < v@.len() {
                word_view(v@[i])
            } else {
                arbitrary()
            },
    )
}

pub open spec fn guard_bodies_view(v: Vec<GuardBody>) -> Seq<GuardBodyView>
    decreases v,
{
    Seq::new(
        v@.len(),
        |i: int|
            if 0 <= i < v@.len() {
                guard_body_view(v@[i])
            } else {
                arbitrary()
            },
    )
}

pub open spec fn case_arms_view(v: Vec<CaseArm>) -> Seq<CaseArmView>
    decreases v,
{
    Seq::new(
        v@.len(),
        |i: int|
            if 0 <= i < v@.len() {
                case_arm_view(v@[i])
            } else {
                arbitrary()
            },
    )
}

pub open spec fn parts_view(v: Vec<WordPart>) -> Seq<WordPartView>
    decreases v,
{
    Seq::new(
        v@.len(),
        |i: int|
            if 0 <= i < v@.len() {
                word_part_view(v@[i])
            } else {
                arbitrary()
            },
    )
}

pub open spec fn atoms_view(v: Vec<Atom>) -> Seq<AtomView>
    decreases v,
{
    Seq::new(
        v@.len(),
        |i: int|
            if 0 <= i < v@.len() {
                atom_view(v@[i])
            } else {
                arbitrary()
            },
    )
}

impl<'a> View for Cmd<'a> {
    type V = CmdView;

    open spec fn view(&self) -> CmdView {
        cmd_view(*self)
    }
}

impl<'a> View for AndOrList<'a> {
    type V = AndOrListView;

    open spec fn view(&self) -> AndOrListView {
        and_or_list_view(*self)
    }
}

impl<'a> View for AndOr<'a> {
    type V = AndOrView;

    open spec fn view(&self) -> AndOrView {
        and_or_view(*self)
    }
}

impl<'a> View for Pipeline<'a> {
    type V = PipelineView;

    open spec fn view(&self) -> PipelineView {
        pipeline_view(*self)
    }
}

impl<'a> View for Executable<'a> {
    type V = ExecutableView;

    open spec fn view(&self) -> ExecutableView {
        executable_view(*self)
    }
}

impl<'a> View for SimpleCmd<'a> {
    type V = SimpleCmdView;

    open spec fn view(&self) -> SimpleCmdView {
        simple_cmd_view(*self)
    }
}

impl<'a> View for CmdPrefix<'a> {
    type V = CmdPrefixView;

    open spec fn view(&self) -> CmdPrefixView {
        cmd_prefix_view(*self)
    }
}

impl<'a> View for CmdSuffix<'a> {
    type V = CmdSuffixView;

    open spec fn view(&self) -> CmdSuffixView {
        cmd_suffix_view(*self)
    }
}

impl<'a> View for CompoundCmd<'a> {
    type V = CompoundCmdView;

    open spec fn view(&self) -> CompoundCmdView {
        compound_cmd_view(*self)
    }
}

impl<'a> View for CompoundKind<'a> {
    type V = CompoundKindView;

    open spec fn view(&self) -> CompoundKindView {
        compound_kind_view(*self)
    }
}

impl<'a> View for GuardBody<'a> {
    type V = GuardBodyView;

    open spec fn view(&self) -> GuardBodyView {
        guard_body_view(*self)
    }
}

impl<'a> View for CaseArm<'a> {
    type V = CaseArmView;

    open spec fn view(&self) -> CaseArmView {
        case_arm_view(*self)
    }
}

impl<'a> View for Word<'a> {
    type V = WordView;

    open spec fn view(&self) -> WordView {
        word_view(*self)
    }
}

impl<'a> View for WordPart<'a> {
    type V = WordPartView;

    open spec fn view(&self) -> WordPartView {
        word_part_view(*self)
    }
}

impl<'a> View for Atom<'a> {
    type V = AtomView;

    open spec fn view(&self) -> AtomView {
        atom_view(*self)
    }
}

impl<'a> View for Param<'a> {
    type V = ParamView;

    open spec fn view(&self) -> ParamView {
        param_view(*self)
    }
}

impl<'a> View for Subst<'a> {
    type V = SubstView;

    open spec fn view(&self) -> SubstView {
        subst_view(*self)
    }
}

impl<'a> View for Arith<'a> {
    type V = ArithView;

    open spec fn view(&self) -> ArithView {
        arith_view(*self)
    }
}

impl<'a> View for HeredocBody<'a> {
    type V = HeredocBodyView;

    open spec fn view(&self) -> HeredocBodyView {
        heredoc_body_view(*self)
    }
}

impl<'a> View for Redir<'a> {
    type V = RedirView;

    open spec fn view(&self) -> RedirView {
        redir_view(*self)
    }
}

} // verus!
