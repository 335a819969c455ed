//! Where the texts of a tree come from: each is the input between two
//! positions.

use vstd::prelude::*;
use crate::ast_view::{
    AndOrListView, AndOrView, ArithView, AtomView, CaseArmView, CmdPrefixView, CmdSuffixView,
    CmdView, CompoundCmdView, CompoundKindView, ExecutableView, GuardBodyView, HeredocBodyView,
    ParamView, PipelineView, RedirView, SimpleCmdView, SubstView, WordPartView, WordView,
};

pub mod arith;
pub mod words;
pub mod commands;

verus! {

/// The text `t` is the input `b` between two positions.
pub open spec fn within(t: Seq<u8>, b: Seq<u8>) -> bool {
    exists|i: int, j: int| 0 <= i <= j <= b.len() && #[trigger] b.subrange(i, j) == t
}

/// The input between two positions is within the input.
pub proof fn lemma_within(b: Seq<u8>, i: int, j: int)
    requires
        0 <= i <= j <= b.len(),
    ensures
        within(b.subrange(i, j), b),
{
}

/// What is within a part of the input is within the input.
pub proof fn lemma_within_part(t: Seq<u8>, inner: Seq<u8>, b: Seq<u8>)
    requires
        within(t, inner),
        within(inner, b),
    ensures
        within(t, b),
{
    let (i, j) = choose|i: int, j: int|
        0 <= i <= j <= inner.len() && #[trigger] inner.subrange(i, j) == t;
    let (x, y) = choose|x: int, y: int|
        0 <= x <= y <= b.len() && #[trigger] b.subrange(x, y) == inner;
    assert(b.subrange(x + i, x + j) =~= t);
}

// ----- every text of a tree comes from the input -----

pub open spec fn cmd_from(x: CmdView, b: Seq<u8>) -> bool
    decreases x,
{
    match x {
        CmdView::List(x0) => and_or_list_from(x0, b),
        CmdView::Job(x0) => and_or_list_from(x0, b),
    }
}

pub open spec fn and_or_list_from(x: AndOrListView, b: Seq<u8>) -> bool
    decreases x,
{
    pipeline_from(x.first, b)
    && and_ors_from(x.rest, b)
}

pub open spec fn and_or_from(x: AndOrView, b: Seq<u8>) -> bool
    decreases x,
{
    match x {
        AndOrView::And(x0) => pipeline_from(x0, b),
        AndOrView::Or(x0) => pipeline_from(x0, b),
    }
}

pub open spec fn pipeline_from(x: PipelineView, b: Seq<u8>) -> bool
    decreases x,
{
    match x {
        PipelineView::Single(x0) => executable_from(x0, b),
        PipelineView::Pipe(_, x1) => executables_from(x1, b),
    }
}

pub open spec fn executable_from(x: ExecutableView, b: Seq<u8>) -> bool
    decreases x,
{
    match x {
        ExecutableView::Simple(x0) => simple_cmd_from(x0, b),
        ExecutableView::Compound(x0) => compound_cmd_from(x0, b),
        ExecutableView::FuncDef(x0, x1) => within(x0, b) && compound_cmd_from(x1, b),
    }
}

pub open spec fn simple_cmd_from(x: SimpleCmdView, b: Seq<u8>) -> bool
    decreases x,
{
    prefixes_from(x.prefix, b)
    && suffixes_from(x.suffix, b)
}

pub open spec fn cmd_prefix_from(x: CmdPrefixView, b: Seq<u8>) -> bool
    decreases x,
{
    match x {
        CmdPrefixView::Assign(x0, x1) => within(x0, b) && (x1 matches Some(y) ==> word_from(y, b)),
        CmdPrefixView::ArrayAssign(x0, x1) => within(x0, b) && words_from(x1, b),
        CmdPrefixView::ArrayAppend(x0, x1) => within(x0, b) && words_from(x1, b),
        CmdPrefixView::Redirect(x0) => redir_from(x0, b),
    }
}

pub open spec fn cmd_suffix_from(x: CmdSuffixView, b: Seq<u8>) -> bool
    decreases x,
{
    match x {
        CmdSuffixView::Word(x0) => word_from(x0, b),
        CmdSuffixView::Redirect(x0) => redir_from(x0, b),
    }
}

pub open spec fn compound_cmd_from(x: CompoundCmdView, b: Seq<u8>) -> bool
    decreases x,
{
    compound_kind_from(x.kind, b)
    && redirs_from(x.redirects, b)
}

pub open spec fn compound_kind_from(x: CompoundKindView, b: Seq<u8>) -> bool
    decreases x,
{
    match x {
        CompoundKindView::For { var, words, body } => {
            within(var, b)
            && (words matches Some(y) ==> words_from(y, b))
            && cmds_from(body, b)
        },
        CompoundKindView::While(x0) => guard_body_from(x0, b),
        CompoundKindView::Until(x0) => guard_body_from(x0, b),
        CompoundKindView::If { conditionals, else_branch } => {
            guard_bodies_from(conditionals, b)
            && (else_branch matches Some(y) ==> cmds_from(y, b))
        },
        CompoundKindView::Case { word, arms } => word_from(word, b) && case_arms_from(arms, b),
        CompoundKindView::CFor { init, cond, step, body } => {
            (init matches Some(y) ==> arith_from(y, b))
            && (cond matches Some(y) ==> arith_from(y, b))
            && (step matches Some(y) ==> arith_from(y, b))
            && cmds_from(body, b)
        },
        CompoundKindView::Brace(x0) => cmds_from(x0, b),
        CompoundKindView::Subshell(x0) => cmds_from(x0, b),
        CompoundKindView::DoubleBracket(x0) => cmds_from(x0, b),
        CompoundKindView::Arithmetic(x0) => arith_from(x0, b),
    }
}

pub open spec fn guard_body_from(x: GuardBodyView, b: Seq<u8>) -> bool
    decreases x,
{
    cmds_from(x.guard, b)
    && cmds_from(x.body, b)
}

pub open spec fn case_arm_from(x: CaseArmView, b: Seq<u8>) -> bool
    decreases x,
{
    words_from(x.patterns, b)
    && cmds_from(x.body, b)
}

pub open spec fn word_from(x: WordView, b: Seq<u8>) -> bool
    decreases x,
{
    match x {
        WordView::Simple(x0) => word_part_from(x0, b),
        WordView::Concat(x0) => parts_from(x0, b),
    }
}

pub open spec fn word_part_from(x: WordPartView, b: Seq<u8>) -> bool
    decreases x,
{
    match x {
        WordPartView::Bare(x0) => atom_from(x0, b),
        WordPartView::DQuoted(x0) => atoms_from(x0, b),
        WordPartView::SQuoted(x0) => within(x0, b),
    }
}

pub open spec fn atom_from(x: AtomView, b: Seq<u8>) -> bool
    decreases x,
{
    match x {
        AtomView::Lit(x0) => within(x0, b),
        AtomView::Escaped(x0) => within(x0, b),
        AtomView::Param(x0) => param_from(x0, b),
        AtomView::Subst(x0) => subst_from(*x0, b),
        AtomView::ProcSubIn(x0) => cmds_from(x0, b),
        AtomView::AnsiCQuoted(x0) => within(x0, b),
        AtomView::BraceRange { start, end, step } => {
            within(start, b)
            && within(end, b)
            && (step matches Some(y) ==> within(y, b))
        },
        _ => true,
    }
}

pub open spec fn param_from(x: ParamView, b: Seq<u8>) -> bool
    decreases x,
{
    match x {
        ParamView::Var(x0) => within(x0, b),
        _ => true,
    }
}

pub open spec fn subst_from(x: SubstView, b: Seq<u8>) -> bool
    decreases x,
{
    match x {
        SubstView::Cmd(x0) => cmds_from(x0, b),
        SubstView::Arith(x0) => (x0 matches Some(y) ==> arith_from(y, b)),
        SubstView::Len(x0) => param_from(x0, b),
        SubstView::Indirect(x0) => within(x0, b),
        SubstView::PrefixList(x0) => within(x0, b),
        SubstView::Transform(x0, _) => within(x0, b),
        SubstView::Default(x0, x1) => param_from(x0, b) && (x1 matches Some(y) ==> word_from(y, b)),
        SubstView::Assign(x0, x1) => param_from(x0, b) && (x1 matches Some(y) ==> word_from(y, b)),
        SubstView::Error(x0, x1) => param_from(x0, b) && (x1 matches Some(y) ==> word_from(y, b)),
        SubstView::Alt(x0, x1) => param_from(x0, b) && (x1 matches Some(y) ==> word_from(y, b)),
        SubstView::TrimSuffixSmall(x0, x1) => {
            param_from(x0, b)
            && (x1 matches Some(y) ==> word_from(y, b))
        },
        SubstView::TrimSuffixLarge(x0, x1) => {
            param_from(x0, b)
            && (x1 matches Some(y) ==> word_from(y, b))
        },
        SubstView::TrimPrefixSmall(x0, x1) => {
            param_from(x0, b)
            && (x1 matches Some(y) ==> word_from(y, b))
        },
        SubstView::TrimPrefixLarge(x0, x1) => {
            param_from(x0, b)
            && (x1 matches Some(y) ==> word_from(y, b))
        },
        SubstView::Replace(x0, x1, x2) => {
            param_from(x0, b)
            && (x1 matches Some(y) ==> word_from(y, b))
            && (x2 matches Some(y) ==> word_from(y, b))
        },
        SubstView::ReplaceAll(x0, x1, x2) => {
            param_from(x0, b)
            && (x1 matches Some(y) ==> word_from(y, b))
            && (x2 matches Some(y) ==> word_from(y, b))
        },
        SubstView::ReplacePrefix(x0, x1, x2) => {
            param_from(x0, b)
            && (x1 matches Some(y) ==> word_from(y, b))
            && (x2 matches Some(y) ==> word_from(y, b))
        },
        SubstView::ReplaceSuffix(x0, x1, x2) => {
            param_from(x0, b)
            && (x1 matches Some(y) ==> word_from(y, b))
            && (x2 matches Some(y) ==> word_from(y, b))
        },
        SubstView::Substring(x0, x1, x2) => {
            param_from(x0, b)
            && within(x1, b)
            && (x2 matches Some(y) ==> within(y, b))
        },
        SubstView::Upper(_, x1) => param_from(x1, b),
        SubstView::Lower(_, x1) => param_from(x1, b),
        SubstView::ArrayElement(x0, x1) => within(x0, b) && word_from(x1, b),
        SubstView::ArrayAll(x0) => within(x0, b),
        SubstView::ArrayLen(x0) => within(x0, b),
        SubstView::ArraySlice(x0, x1, x2) => {
            within(x0, b)
            && within(x1, b)
            && (x2 matches Some(y) ==> within(y, b))
        },
    }
}

pub open spec fn arith_from(x: ArithView, b: Seq<u8>) -> bool
    decreases x,
{
    match x {
        ArithView::Var(x0) => within(x0, b),
        ArithView::Add(x0, x1) => arith_from(*x0, b) && arith_from(*x1, b),
        ArithView::Sub(x0, x1) => arith_from(*x0, b) && arith_from(*x1, b),
        ArithView::Mul(x0, x1) => arith_from(*x0, b) && arith_from(*x1, b),
        ArithView::Div(x0, x1) => arith_from(*x0, b) && arith_from(*x1, b),
        ArithView::Rem(x0, x1) => arith_from(*x0, b) && arith_from(*x1, b),
        ArithView::Pow(x0, x1) => arith_from(*x0, b) && arith_from(*x1, b),
        ArithView::Lt(x0, x1) => arith_from(*x0, b) && arith_from(*x1, b),
        ArithView::Le(x0, x1) => arith_from(*x0, b) && arith_from(*x1, b),
        ArithView::Gt(x0, x1) => arith_from(*x0, b) && arith_from(*x1, b),
        ArithView::Ge(x0, x1) => arith_from(*x0, b) && arith_from(*x1, b),
        ArithView::Eq(x0, x1) => arith_from(*x0, b) && arith_from(*x1, b),
        ArithView::Ne(x0, x1) => arith_from(*x0, b) && arith_from(*x1, b),
        ArithView::BitAnd(x0, x1) => arith_from(*x0, b) && arith_from(*x1, b),
        ArithView::BitOr(x0, x1) => arith_from(*x0, b) && arith_from(*x1, b),
        ArithView::BitXor(x0, x1) => arith_from(*x0, b) && arith_from(*x1, b),
        ArithView::LogAnd(x0, x1) => arith_from(*x0, b) && arith_from(*x1, b),
        ArithView::LogOr(x0, x1) => arith_from(*x0, b) && arith_from(*x1, b),
        ArithView::Shl(x0, x1) => arith_from(*x0, b) && arith_from(*x1, b),
        ArithView::Shr(x0, x1) => arith_from(*x0, b) && arith_from(*x1, b),
        ArithView::Pos(x0) => arith_from(*x0, b),
        ArithView::Neg(x0) => arith_from(*x0, b),
        ArithView::LogNot(x0) => arith_from(*x0, b),
        ArithView::BitNot(x0) => arith_from(*x0, b),
        ArithView::PreInc(x0) => within(x0, b),
        ArithView::PostInc(x0) => within(x0, b),
        ArithView::PreDec(x0) => within(x0, b),
        ArithView::PostDec(x0) => within(x0, b),
        ArithView::Ternary(x0, x1, x2) => {
            arith_from(*x0, b)
            && arith_from(*x1, b)
            && arith_from(*x2, b)
        },
        ArithView::Assign(x0, x1) => within(x0, b) && arith_from(*x1, b),
        _ => true,
    }
}

pub open spec fn heredoc_body_from(x: HeredocBodyView, b: Seq<u8>) -> bool
    decreases x,
{
    match x {
        HeredocBodyView::Literal(x0) => within(x0, b),
        HeredocBodyView::Interpolated(x0) => atoms_from(x0, b),
    }
}

pub open spec fn redir_from(x: RedirView, b: Seq<u8>) -> bool
    decreases x,
{
    match x {
        RedirView::Read(_, x1) => word_from(x1, b),
        RedirView::Write(_, x1) => word_from(x1, b),
        RedirView::Append(_, x1) => word_from(x1, b),
        RedirView::ReadWrite(_, x1) => word_from(x1, b),
        RedirView::Clobber(_, x1) => word_from(x1, b),
        RedirView::DupRead(_, x1) => word_from(x1, b),
        RedirView::DupWrite(_, x1) => word_from(x1, b),
        RedirView::HereString(x0) => word_from(x0, b),
        RedirView::Heredoc(x0) => heredoc_body_from(x0, b),
        RedirView::WriteAll(x0) => word_from(x0, b),
        RedirView::AppendAll(x0) => word_from(x0, b),
    }
}

pub open spec fn cmds_from(v: Seq<CmdView>, b: Seq<u8>) -> bool
    decreases v,
{
    forall|i: int| 0 <= i < v.len() ==> cmd_from(#[trigger] v[i], b)
}

pub open spec fn and_ors_from(v: Seq<AndOrView>, b: Seq<u8>) -> bool
    decreases v,
{
    forall|i: int| 0 <= i < v.len() ==> and_or_from(#[trigger] v[i], b)
}

pub open spec fn executables_from(v: Seq<ExecutableView>, b: Seq<u8>) -> bool
    decreases v,
{
    forall|i: int| 0 <= i < v.len() ==> executable_from(#[trigger] v[i], b)
}

pub open spec fn prefixes_from(v: Seq<CmdPrefixView>, b: Seq<u8>) -> bool
    decreases v,
{
    forall|i: int| 0 <= i < v.len() ==> cmd_prefix_from(#[trigger] v[i], b)
}

pub open spec fn suffixes_from(v: Seq<CmdSuffixView>, b: Seq<u8>) -> bool
    decreases v,
{
    forall|i: int| 0 <= i < v.len() ==> cmd_suffix_from(#[trigger] v[i], b)
}

pub open spec fn redirs_from(v: Seq<RedirView>, b: Seq<u8>) -> bool
    decreases v,
{
    forall|i: int| 0 <= i < v.len() ==> redir_from(#[trigger] v[i], b)
}

pub open spec fn words_from(v: Seq<WordView>, b: Seq<u8>) -> bool
    decreases v,
{
    forall|i: int| 0 <= i < v.len() ==> word_from(#[trigger] v[i], b)
}

pub open spec fn guard_bodies_from(v: Seq<GuardBodyView>, b: Seq<u8>) -> bool
    decreases v,
{
    forall|i: int| 0 <= i < v.len() ==> guard_body_from(#[trigger] v[i], b)
}

pub open spec fn case_arms_from(v: Seq<CaseArmView>, b: Seq<u8>) -> bool
    decreases v,
{
    forall|i: int| 0 <= i < v.len() ==> case_arm_from(#[trigger] v[i], b)
}

pub open spec fn parts_from(v: Seq<WordPartView>, b: Seq<u8>) -> bool
    decreases v,
{
    forall|i: int| 0 <= i < v.len() ==> word_part_from(#[trigger] v[i], b)
}

pub open spec fn atoms_from(v: Seq<AtomView>, b: Seq<u8>) -> bool
    decreases v,
{
    forall|i: int| 0 <= i < v.len() ==> atom_from(#[trigger] v[i], b)
}

// ----- from a part of the input to the whole -----

pub proof fn lemma_cmd_from_part(x: CmdView, inner: Seq<u8>, b: Seq<u8>)
    requires
        cmd_from(x, inner),
        within(inner, b),
    ensures
        cmd_from(x, b),
    decreases x,
{
    match x {
        CmdView::List(x0) => {
            lemma_and_or_list_from_part(x0, inner, b);
        },
        CmdView::Job(x0) => {
            lemma_and_or_list_from_part(x0, inner, b);
        },
    }
}

pub proof fn lemma_and_or_list_from_part(x: AndOrListView, inner: Seq<u8>, b: Seq<u8>)
    requires
        and_or_list_from(x, inner),
        within(inner, b),
    ensures
        and_or_list_from(x, b),
    decreases x,
{
    lemma_pipeline_from_part(x.first, inner, b);
    lemma_and_ors_from_part(x.rest, inner, b);
}

pub proof fn lemma_and_or_from_part(x: AndOrView, inner: Seq<u8>, b: Seq<u8>)
    requires
        and_or_from(x, inner),
        within(inner, b),
    ensures
        and_or_from(x, b),
    decreases x,
{
    match x {
        AndOrView::And(x0) => {
            lemma_pipeline_from_part(x0, inner, b);
        },
        AndOrView::Or(x0) => {
            lemma_pipeline_from_part(x0, inner, b);
        },
    }
}

pub proof fn lemma_pipeline_from_part(x: PipelineView, inner: Seq<u8>, b: Seq<u8>)
    requires
        pipeline_from(x, inner),
        within(inner, b),
    ensures
        pipeline_from(x, b),
    decreases x,
{
    match x {
        PipelineView::Single(x0) => {
            lemma_executable_from_part(x0, inner, b);
        },
        PipelineView::Pipe(_, x1) => {
            lemma_executables_from_part(x1, inner, b);
        },
    }
}

pub proof fn lemma_executable_from_part(x: ExecutableView, inner: Seq<u8>, b: Seq<u8>)
    requires
        executable_from(x, inner),
        within(inner, b),
    ensures
        executable_from(x, b),
    decreases x,
{
    match x {
        ExecutableView::Simple(x0) => {
            lemma_simple_cmd_from_part(x0, inner, b);
        },
        ExecutableView::Compound(x0) => {
            lemma_compound_cmd_from_part(x0, inner, b);
        },
        ExecutableView::FuncDef(x0, x1) => {
            lemma_within_part(x0, inner, b);
            lemma_compound_cmd_from_part(x1, inner, b);
        },
    }
}

pub proof fn lemma_simple_cmd_from_part(x: SimpleCmdView, inner: Seq<u8>, b: Seq<u8>)
    requires
        simple_cmd_from(x, inner),
        within(inner, b),
    ensures
        simple_cmd_from(x, b),
    decreases x,
{
    lemma_prefixes_from_part(x.prefix, inner, b);
    lemma_suffixes_from_part(x.suffix, inner, b);
}

pub proof fn lemma_cmd_prefix_from_part(x: CmdPrefixView, inner: Seq<u8>, b: Seq<u8>)
    requires
        cmd_prefix_from(x, inner),
        within(inner, b),
    ensures
        cmd_prefix_from(x, b),
    decreases x,
{
    match x {
        CmdPrefixView::Assign(x0, x1) => {
            lemma_within_part(x0, inner, b);
            match x1 {
                Some(y) => {
                    lemma_word_from_part(y, inner, b);
                },
                None => {},
            }
        },
        CmdPrefixView::ArrayAssign(x0, x1) => {
            lemma_within_part(x0, inner, b);
            lemma_words_from_part(x1, inner, b);
        },
        CmdPrefixView::ArrayAppend(x0, x1) => {
            lemma_within_part(x0, inner, b);
            lemma_words_from_part(x1, inner, b);
        },
        CmdPrefixView::Redirect(x0) => {
            lemma_redir_from_part(x0, inner, b);
        },
    }
}

pub proof fn lemma_cmd_suffix_from_part(x: CmdSuffixView, inner: Seq<u8>, b: Seq<u8>)
    requires
        cmd_suffix_from(x, inner),
        within(inner, b),
    ensures
        cmd_suffix_from(x, b),
    decreases x,
{
    match x {
        CmdSuffixView::Word(x0) => {
            lemma_word_from_part(x0, inner, b);
        },
        CmdSuffixView::Redirect(x0) => {
            lemma_redir_from_part(x0, inner, b);
        },
    }
}

pub proof fn lemma_compound_cmd_from_part(x: CompoundCmdView, inner: Seq<u8>, b: Seq<u8>)
    requires
        compound_cmd_from(x, inner),
        within(inner, b),
    ensures
        compound_cmd_from(x, b),
    decreases x,
{
    lemma_compound_kind_from_part(x.kind, inner, b);
    lemma_redirs_from_part(x.redirects, inner, b);
}

pub proof fn lemma_compound_kind_from_part(x: CompoundKindView, inner: Seq<u8>, b: Seq<u8>)
    requires
        compound_kind_from(x, inner),
        within(inner, b),
    ensures
        compound_kind_from(x, b),
    decreases x,
{
    match x {
        CompoundKindView::For { var, words, body } => {
            lemma_within_part(var, inner, b);
            match words {
                Some(y) => {
                    lemma_words_from_part(y, inner, b);
                },
                None => {},
            }
            lemma_cmds_from_part(body, inner, b);
        },
        CompoundKindView::While(x0) => {
            lemma_guard_body_from_part(x0, inner, b);
        },
        CompoundKindView::Until(x0) => {
            lemma_guard_body_from_part(x0, inner, b);
        },
        CompoundKindView::If { conditionals, else_branch } => {
            lemma_guard_bodies_from_part(conditionals, inner, b);
            match else_branch {
                Some(y) => {
                    lemma_cmds_from_part(y, inner, b);
                },
                None => {},
            }
        },
        CompoundKindView::Case { word, arms } => {
            lemma_word_from_part(word, inner, b);
            lemma_case_arms_from_part(arms, inner, b);
        },
        CompoundKindView::CFor { init, cond, step, body } => {
            match init {
                Some(y) => {
                    lemma_arith_from_part(y, inner, b);
                },
                None => {},
            }
            match cond {
                Some(y) => {
                    lemma_arith_from_part(y, inner, b);
                },
                None => {},
            }
            match step {
                Some(y) => {
                    lemma_arith_from_part(y, inner, b);
                },
                None => {},
            }
            lemma_cmds_from_part(body, inner, b);
        },
        CompoundKindView::Brace(x0) => {
            lemma_cmds_from_part(x0, inner, b);
        },
        CompoundKindView::Subshell(x0) => {
            lemma_cmds_from_part(x0, inner, b);
        },
        CompoundKindView::DoubleBracket(x0) => {
            lemma_cmds_from_part(x0, inner, b);
        },
        CompoundKindView::Arithmetic(x0) => {
            lemma_arith_from_part(x0, inner, b);
        },
    }
}

pub proof fn lemma_guard_body_from_part(x: GuardBodyView, inner: Seq<u8>, b: Seq<u8>)
    requires
        guard_body_from(x, inner),
        within(inner, b),
    ensures
        guard_body_from(x, b),
    decreases x,
{
    lemma_cmds_from_part(x.guard, inner, b);
    lemma_cmds_from_part(x.body, inner, b);
}

pub proof fn lemma_case_arm_from_part(x: CaseArmView, inner: Seq<u8>, b: Seq<u8>)
    requires
        case_arm_from(x, inner),
        within(inner, b),
    ensures
        case_arm_from(x, b),
    decreases x,
{
    lemma_words_from_part(x.patterns, inner, b);
    lemma_cmds_from_part(x.body, inner, b);
}

pub proof fn lemma_word_from_part(x: WordView, inner: Seq<u8>, b: Seq<u8>)
    requires
        word_from(x, inner),
        within(inner, b),
    ensures
        word_from(x, b),
    decreases x,
{
    match x {
        WordView::Simple(x0) => {
            lemma_word_part_from_part(x0, inner, b);
        },
        WordView::Concat(x0) => {
            lemma_parts_from_part(x0, inner, b);
        },
    }
}

pub proof fn lemma_word_part_from_part(x: WordPartView, inner: Seq<u8>, b: Seq<u8>)
    requires
        word_part_from(x, inner),
        within(inner, b),
    ensures
        word_part_from(x, b),
    decreases x,
{
    match x {
        WordPartView::Bare(x0) => {
            lemma_atom_from_part(x0, inner, b);
        },
        WordPartView::DQuoted(x0) => {
            lemma_atoms_from_part(x0, inner, b);
        },
        WordPartView::SQuoted(x0) => {
            lemma_within_part(x0, inner, b);
        },
    }
}

pub proof fn lemma_atom_from_part(x: AtomView, inner: Seq<u8>, b: Seq<u8>)
    requires
        atom_from(x, inner),
        within(inner, b),
    ensures
        atom_from(x, b),
    decreases x,
{
    match x {
        AtomView::Lit(x0) => {
            lemma_within_part(x0, inner, b);
        },
        AtomView::Escaped(x0) => {
            lemma_within_part(x0, inner, b);
        },
        AtomView::Param(x0) => {
            lemma_param_from_part(x0, inner, b);
        },
        AtomView::Subst(x0) => {
            lemma_subst_from_part(*x0, inner, b);
        },
        AtomView::ProcSubIn(x0) => {
            lemma_cmds_from_part(x0, inner, b);
        },
        AtomView::AnsiCQuoted(x0) => {
            lemma_within_part(x0, inner, b);
        },
        AtomView::BraceRange { start, end, step } => {
            lemma_within_part(start, inner, b);
            lemma_within_part(end, inner, b);
            match step {
                Some(y) => {
                    lemma_within_part(y, inner, b);
                },
                None => {},
            }
        },
        _ => {},
    }
}

pub proof fn lemma_param_from_part(x: ParamView, inner: Seq<u8>, b: Seq<u8>)
    requires
        param_from(x, inner),
        within(inner, b),
    ensures
        param_from(x, b),
    decreases x,
{
    match x {
        ParamView::Var(x0) => {
            lemma_within_part(x0, inner, b);
        },
        _ => {},
    }
}

pub proof fn lemma_subst_from_part(x: SubstView, inner: Seq<u8>, b: Seq<u8>)
    requires
        subst_from(x, inner),
        within(inner, b),
    ensures
        subst_from(x, b),
    decreases x,
{
    match x {
        SubstView::Cmd(x0) => {
            lemma_cmds_from_part(x0, inner, b);
        },
        SubstView::Arith(x0) => {
            match x0 {
                Some(y) => {
                    lemma_arith_from_part(y, inner, b);
                },
                None => {},
            }
        },
        SubstView::Len(x0) => {
            lemma_param_from_part(x0, inner, b);
        },
        SubstView::Indirect(x0) => {
            lemma_within_part(x0, inner, b);
        },
        SubstView::PrefixList(x0) => {
            lemma_within_part(x0, inner, b);
        },
        SubstView::Transform(x0, _) => {
            lemma_within_part(x0, inner, b);
        },
        SubstView::Default(x0, x1) => {
            lemma_param_from_part(x0, inner, b);
            match x1 {
                Some(y) => {
                    lemma_word_from_part(y, inner, b);
                },
                None => {},
            }
        },
        SubstView::Assign(x0, x1) => {
            lemma_param_from_part(x0, inner, b);
            match x1 {
                Some(y) => {
                    lemma_word_from_part(y, inner, b);
                },
                None => {},
            }
        },
        SubstView::Error(x0, x1) => {
            lemma_param_from_part(x0, inner, b);
            match x1 {
                Some(y) => {
                    lemma_word_from_part(y, inner, b);
                },
                None => {},
            }
        },
        SubstView::Alt(x0, x1) => {
            lemma_param_from_part(x0, inner, b);
            match x1 {
                Some(y) => {
                    lemma_word_from_part(y, inner, b);
                },
                None => {},
            }
        },
        SubstView::TrimSuffixSmall(x0, x1) => {
            lemma_param_from_part(x0, inner, b);
            match x1 {
                Some(y) => {
                    lemma_word_from_part(y, inner, b);
                },
                None => {},
            }
        },
        SubstView::TrimSuffixLarge(x0, x1) => {
            lemma_param_from_part(x0, inner, b);
            match x1 {
                Some(y) => {
                    lemma_word_from_part(y, inner, b);
                },
                None => {},
            }
        },
        SubstView::TrimPrefixSmall(x0, x1) => {
            lemma_param_from_part(x0, inner, b);
            match x1 {
                Some(y) => {
                    lemma_word_from_part(y, inner, b);
                },
                None => {},
            }
        },
        SubstView::TrimPrefixLarge(x0, x1) => {
            lemma_param_from_part(x0, inner, b);
            match x1 {
                Some(y) => {
                    lemma_word_from_part(y, inner, b);
                },
                None => {},
            }
        },
        SubstView::Replace(x0, x1, x2) => {
            lemma_param_from_part(x0, inner, b);
            match x1 {
                Some(y) => {
                    lemma_word_from_part(y, inner, b);
                },
                None => {},
            }
            match x2 {
                Some(y) => {
                    lemma_word_from_part(y, inner, b);
                },
                None => {},
            }
        },
        SubstView::ReplaceAll(x0, x1, x2) => {
            lemma_param_from_part(x0, inner, b);
            match x1 {
                Some(y) => {
                    lemma_word_from_part(y, inner, b);
                },
                None => {},
            }
            match x2 {
                Some(y) => {
                    lemma_word_from_part(y, inner, b);
                },
                None => {},
            }
        },
        SubstView::ReplacePrefix(x0, x1, x2) => {
            lemma_param_from_part(x0, inner, b);
            match x1 {
                Some(y) => {
                    lemma_word_from_part(y, inner, b);
                },
                None => {},
            }
            match x2 {
                Some(y) => {
                    lemma_word_from_part(y, inner, b);
                },
                None => {},
            }
        },
        SubstView::ReplaceSuffix(x0, x1, x2) => {
            lemma_param_from_part(x0, inner, b);
            match x1 {
                Some(y) => {
                    lemma_word_from_part(y, inner, b);
                },
                None => {},
            }
            match x2 {
                Some(y) => {
                    lemma_word_from_part(y, inner, b);
                },
                None => {},
            }
        },
        SubstView::Substring(x0, x1, x2) => {
            lemma_param_from_part(x0, inner, b);
            lemma_within_part(x1, inner, b);
            match x2 {
                Some(y) => {
                    lemma_within_part(y, inner, b);
                },
                None => {},
            }
        },
        SubstView::Upper(_, x1) => {
            lemma_param_from_part(x1, inner, b);
        },
        SubstView::Lower(_, x1) => {
            lemma_param_from_part(x1, inner, b);
        },
        SubstView::ArrayElement(x0, x1) => {
            lemma_within_part(x0, inner, b);
            lemma_word_from_part(x1, inner, b);
        },
        SubstView::ArrayAll(x0) => {
            lemma_within_part(x0, inner, b);
        },
        SubstView::ArrayLen(x0) => {
            lemma_within_part(x0, inner, b);
        },
        SubstView::ArraySlice(x0, x1, x2) => {
            lemma_within_part(x0, inner, b);
            lemma_within_part(x1, inner, b);
            match x2 {
                Some(y) => {
                    lemma_within_part(y, inner, b);
                },
                None => {},
            }
        },
    }
}

pub proof fn lemma_arith_from_part(x: ArithView, inner: Seq<u8>, b: Seq<u8>)
    requires
        arith_from(x, inner),
        within(inner, b),
    ensures
        arith_from(x, b),
    decreases x,
{
    match x {
        ArithView::Var(x0) => {
            lemma_within_part(x0, inner, b);
        },
        ArithView::Add(x0, x1) => {
            lemma_arith_from_part(*x0, inner, b);
            lemma_arith_from_part(*x1, inner, b);
        },
        ArithView::Sub(x0, x1) => {
            lemma_arith_from_part(*x0, inner, b);
            lemma_arith_from_part(*x1, inner, b);
        },
        ArithView::Mul(x0, x1) => {
            lemma_arith_from_part(*x0, inner, b);
            lemma_arith_from_part(*x1, inner, b);
        },
        ArithView::Div(x0, x1) => {
            lemma_arith_from_part(*x0, inner, b);
            lemma_arith_from_part(*x1, inner, b);
        },
        ArithView::Rem(x0, x1) => {
            lemma_arith_from_part(*x0, inner, b);
            lemma_arith_from_part(*x1, inner, b);
        },
        ArithView::Pow(x0, x1) => {
            lemma_arith_from_part(*x0, inner, b);
            lemma_arith_from_part(*x1, inner, b);
        },
        ArithView::Lt(x0, x1) => {
            lemma_arith_from_part(*x0, inner, b);
            lemma_arith_from_part(*x1, inner, b);
        },
        ArithView::Le(x0, x1) => {
            lemma_arith_from_part(*x0, inner, b);
            lemma_arith_from_part(*x1, inner, b);
        },
        ArithView::Gt(x0, x1) => {
            lemma_arith_from_part(*x0, inner, b);
            lemma_arith_from_part(*x1, inner, b);
        },
        ArithView::Ge(x0, x1) => {
            lemma_arith_from_part(*x0, inner, b);
            lemma_arith_from_part(*x1, inner, b);
        },
        ArithView::Eq(x0, x1) => {
            lemma_arith_from_part(*x0, inner, b);
            lemma_arith_from_part(*x1, inner, b);
        },
        ArithView::Ne(x0, x1) => {
            lemma_arith_from_part(*x0, inner, b);
            lemma_arith_from_part(*x1, inner, b);
        },
        ArithView::BitAnd(x0, x1) => {
            lemma_arith_from_part(*x0, inner, b);
            lemma_arith_from_part(*x1, inner, b);
        },
        ArithView::BitOr(x0, x1) => {
            lemma_arith_from_part(*x0, inner, b);
            lemma_arith_from_part(*x1, inner, b);
        },
        ArithView::BitXor(x0, x1) => {
            lemma_arith_from_part(*x0, inner, b);
            lemma_arith_from_part(*x1, inner, b);
        },
        ArithView::LogAnd(x0, x1) => {
            lemma_arith_from_part(*x0, inner, b);
            lemma_arith_from_part(*x1, inner, b);
        },
        ArithView::LogOr(x0, x1) => {
            lemma_arith_from_part(*x0, inner, b);
            lemma_arith_from_part(*x1, inner, b);
        },
        ArithView::Shl(x0, x1) => {
            lemma_arith_from_part(*x0, inner, b);
            lemma_arith_from_part(*x1, inner, b);
        },
        ArithView::Shr(x0, x1) => {
            lemma_arith_from_part(*x0, inner, b);
            lemma_arith_from_part(*x1, inner, b);
        },
        ArithView::Pos(x0) => {
            lemma_arith_from_part(*x0, inner, b);
        },
        ArithView::Neg(x0) => {
            lemma_arith_from_part(*x0, inner, b);
        },
        ArithView::LogNot(x0) => {
            lemma_arith_from_part(*x0, inner, b);
        },
        ArithView::BitNot(x0) => {
            lemma_arith_from_part(*x0, inner, b);
        },
        ArithView::PreInc(x0) => {
            lemma_within_part(x0, inner, b);
        },
        ArithView::PostInc(x0) => {
            lemma_within_part(x0, inner, b);
        },
        ArithView::PreDec(x0) => {
            lemma_within_part(x0, inner, b);
        },
        ArithView::PostDec(x0) => {
            lemma_within_part(x0, inner, b);
        },
        ArithView::Ternary(x0, x1, x2) => {
            lemma_arith_from_part(*x0, inner, b);
            lemma_arith_from_part(*x1, inner, b);
            lemma_arith_from_part(*x2, inner, b);
        },
        ArithView::Assign(x0, x1) => {
            lemma_within_part(x0, inner, b);
            lemma_arith_from_part(*x1, inner, b);
        },
        _ => {},
    }
}

pub proof fn lemma_heredoc_body_from_part(x: HeredocBodyView, inner: Seq<u8>, b: Seq<u8>)
    requires
        heredoc_body_from(x, inner),
        within(inner, b),
    ensures
        heredoc_body_from(x, b),
    decreases x,
{
    match x {
        HeredocBodyView::Literal(x0) => {
            lemma_within_part(x0, inner, b);
        },
        HeredocBodyView::Interpolated(x0) => {
            lemma_atoms_from_part(x0, inner, b);
        },
    }
}

pub proof fn lemma_redir_from_part(x: RedirView, inner: Seq<u8>, b: Seq<u8>)
    requires
        redir_from(x, inner),
        within(inner, b),
    ensures
        redir_from(x, b),
    decreases x,
{
    match x {
        RedirView::Read(_, x1) => {
            lemma_word_from_part(x1, inner, b);
        },
        RedirView::Write(_, x1) => {
            lemma_word_from_part(x1, inner, b);
        },
        RedirView::Append(_, x1) => {
            lemma_word_from_part(x1, inner, b);
        },
        RedirView::ReadWrite(_, x1) => {
            lemma_word_from_part(x1, inner, b);
        },
        RedirView::Clobber(_, x1) => {
            lemma_word_from_part(x1, inner, b);
        },
        RedirView::DupRead(_, x1) => {
            lemma_word_from_part(x1, inner, b);
        },
        RedirView::DupWrite(_, x1) => {
            lemma_word_from_part(x1, inner, b);
        },
        RedirView::HereString(x0) => {
            lemma_word_from_part(x0, inner, b);
        },
        RedirView::Heredoc(x0) => {
            lemma_heredoc_body_from_part(x0, inner, b);
        },
        RedirView::WriteAll(x0) => {
            lemma_word_from_part(x0, inner, b);
        },
        RedirView::AppendAll(x0) => {
            lemma_word_from_part(x0, inner, b);
        },
    }
}

pub proof fn lemma_cmds_from_part(v: Seq<CmdView>, inner: Seq<u8>, b: Seq<u8>)
    requires
        cmds_from(v, inner),
        within(inner, b),
    ensures
        cmds_from(v, b),
    decreases v,
{
    assert forall|i: int| 0 <= i < v.len() implies cmd_from(#[trigger] v[i], b) by {
        lemma_cmd_from_part(v[i], inner, b);
    }
}

pub proof fn lemma_and_ors_from_part(v: Seq<AndOrView>, inner: Seq<u8>, b: Seq<u8>)
    requires
        and_ors_from(v, inner),
        within(inner, b),
    ensures
        and_ors_from(v, b),
    decreases v,
{
    assert forall|i: int| 0 <= i < v.len() implies and_or_from(#[trigger] v[i], b) by {
        lemma_and_or_from_part(v[i], inner, b);
    }
}

pub proof fn lemma_executables_from_part(v: Seq<ExecutableView>, inner: Seq<u8>, b: Seq<u8>)
    requires
        executables_from(v, inner),
        within(inner, b),
    ensures
        executables_from(v, b),
    decreases v,
{
    assert forall|i: int| 0 <= i < v.len() implies executable_from(#[trigger] v[i], b) by {
        lemma_executable_from_part(v[i], inner, b);
    }
}

pub proof fn lemma_prefixes_from_part(v: Seq<CmdPrefixView>, inner: Seq<u8>, b: Seq<u8>)
    requires
        prefixes_from(v, inner),
        within(inner, b),
    ensures
        prefixes_from(v, b),
    decreases v,
{
    assert forall|i: int| 0 <= i < v.len() implies cmd_prefix_from(#[trigger] v[i], b) by {
        lemma_cmd_prefix_from_part(v[i], inner, b);
    }
}

pub proof fn lemma_suffixes_from_part(v: Seq<CmdSuffixView>, inner: Seq<u8>, b: Seq<u8>)
    requires
        suffixes_from(v, inner),
        within(inner, b),
    ensures
        suffixes_from(v, b),
    decreases v,
{
    assert forall|i: int| 0 <= i < v.len() implies cmd_suffix_from(#[trigger] v[i], b) by {
        lemma_cmd_suffix_from_part(v[i], inner, b);
    }
}

pub proof fn lemma_redirs_from_part(v: Seq<RedirView>, inner: Seq<u8>, b: Seq<u8>)
    requires
        redirs_from(v, inner),
        within(inner, b),
    ensures
        redirs_from(v, b),
    decreases v,
{
    assert forall|i: int| 0 <= i < v.len() implies redir_from(#[trigger] v[i], b) by {
        lemma_redir_from_part(v[i], inner, b);
    }
}

pub proof fn lemma_words_from_part(v: Seq<WordView>, inner: Seq<u8>, b: Seq<u8>)
    requires
        words_from(v, inner),
        within(inner, b),
    ensures
        words_from(v, b),
    decreases v,
{
    assert forall|i: int| 0 <= i < v.len() implies word_from(#[trigger] v[i], b) by {
        lemma_word_from_part(v[i], inner, b);
    }
}

pub proof fn lemma_guard_bodies_from_part(v: Seq<GuardBodyView>, inner: Seq<u8>, b: Seq<u8>)
    requires
        guard_bodies_from(v, inner),
        within(inner, b),
    ensures
        guard_bodies_from(v, b),
    decreases v,
{
    assert forall|i: int| 0 <= i < v.len() implies guard_body_from(#[trigger] v[i], b) by {
        lemma_guard_body_from_part(v[i], inner, b);
    }
}

pub proof fn lemma_case_arms_from_part(v: Seq<CaseArmView>, inner: Seq<u8>, b: Seq<u8>)
    requires
        case_arms_from(v, inner),
        within(inner, b),
    ensures
        case_arms_from(v, b),
    decreases v,
{
    assert forall|i: int| 0 <= i < v.len() implies case_arm_from(#[trigger] v[i], b) by {
        lemma_case_arm_from_part(v[i], inner, b);
    }
}

pub proof fn lemma_parts_from_part(v: Seq<WordPartView>, inner: Seq<u8>, b: Seq<u8>)
    requires
        parts_from(v, inner),
        within(inner, b),
    ensures
        parts_from(v, b),
    decreases v,
{
    assert forall|i: int| 0 <= i < v.len() implies word_part_from(#[trigger] v[i], b) by {
        lemma_word_part_from_part(v[i], inner, b);
    }
}

pub proof fn lemma_atoms_from_part(v: Seq<AtomView>, inner: Seq<u8>, b: Seq<u8>)
    requires
        atoms_from(v, inner),
        within(inner, b),
    ensures
        atoms_from(v, b),
    decreases v,
{
    assert forall|i: int| 0 <= i < v.len() implies atom_from(#[trigger] v[i], b) by {
        lemma_atom_from_part(v[i], inner, b);
    }
}

// ----- one more item -----

pub proof fn lemma_cmds_push(v: Seq<CmdView>, x: CmdView, b: Seq<u8>)
    requires
        cmds_from(v, b),
        cmd_from(x, b),
    ensures
        cmds_from(v.push(x), b),
{
    assert forall|i: int| 0 <= i < v.push(x).len() implies cmd_from(
        #[trigger] v.push(x)[i],
        b,
    ) by {
        if i < v.len() {
            assert(v.push(x)[i] == v[i]);
        }
    }
}

pub proof fn lemma_and_ors_push(v: Seq<AndOrView>, x: AndOrView, b: Seq<u8>)
    requires
        and_ors_from(v, b),
        and_or_from(x, b),
    ensures
        and_ors_from(v.push(x), b),
{
    assert forall|i: int| 0 <= i < v.push(x).len() implies and_or_from(
        #[trigger] v.push(x)[i],
        b,
    ) by {
        if i < v.len() {
            assert(v.push(x)[i] == v[i]);
        }
    }
}

pub proof fn lemma_executables_push(v: Seq<ExecutableView>, x: ExecutableView, b: Seq<u8>)
    requires
        executables_from(v, b),
        executable_from(x, b),
    ensures
        executables_from(v.push(x), b),
{
    assert forall|i: int| 0 <= i < v.push(x).len() implies executable_from(
        #[trigger] v.push(x)[i],
        b,
    ) by {
        if i < v.len() {
            assert(v.push(x)[i] == v[i]);
        }
    }
}

pub proof fn lemma_prefixes_push(v: Seq<CmdPrefixView>, x: CmdPrefixView, b: Seq<u8>)
    requires
        prefixes_from(v, b),
        cmd_prefix_from(x, b),
    ensures
        prefixes_from(v.push(x), b),
{
    assert forall|i: int| 0 <= i < v.push(x).len() implies cmd_prefix_from(
        #[trigger] v.push(x)[i],
        b,
    ) by {
        if i < v.len() {
            assert(v.push(x)[i] == v[i]);
        }
    }
}

pub proof fn lemma_suffixes_push(v: Seq<CmdSuffixView>, x: CmdSuffixView, b: Seq<u8>)
    requires
        suffixes_from(v, b),
        cmd_suffix_from(x, b),
    ensures
        suffixes_from(v.push(x), b),
{
    assert forall|i: int| 0 <= i < v.push(x).len() implies cmd_suffix_from(
        #[trigger] v.push(x)[i],
        b,
    ) by {
        if i < v.len() {
            assert(v.push(x)[i] == v[i]);
        }
    }
}

pub proof fn lemma_redirs_push(v: Seq<RedirView>, x: RedirView, b: Seq<u8>)
    requires
        redirs_from(v, b),
        redir_from(x, b),
    ensures
        redirs_from(v.push(x), b),
{
    assert forall|i: int| 0 <= i < v.push(x).len() implies redir_from(
        #[trigger] v.push(x)[i],
        b,
    ) by {
        if i < v.len() {
            assert(v.push(x)[i] == v[i]);
        }
    }
}

pub proof fn lemma_words_push(v: Seq<WordView>, x: WordView, b: Seq<u8>)
    requires
        words_from(v, b),
        word_from(x, b),
    ensures
        words_from(v.push(x), b),
{
    assert forall|i: int| 0 <= i < v.push(x).len() implies word_from(
        #[trigger] v.push(x)[i],
        b,
    ) by {
        if i < v.len() {
            assert(v.push(x)[i] == v[i]);
        }
    }
}

pub proof fn lemma_guard_bodies_push(v: Seq<GuardBodyView>, x: GuardBodyView, b: Seq<u8>)
    requires
        guard_bodies_from(v, b),
        guard_body_from(x, b),
    ensures
        guard_bodies_from(v.push(x), b),
{
    assert forall|i: int| 0 <= i < v.push(x).len() implies guard_body_from(
        #[trigger] v.push(x)[i],
        b,
    ) by {
        if i < v.len() {
            assert(v.push(x)[i] == v[i]);
        }
    }
}

pub proof fn lemma_case_arms_push(v: Seq<CaseArmView>, x: CaseArmView, b: Seq<u8>)
    requires
        case_arms_from(v, b),
        case_arm_from(x, b),
    ensures
        case_arms_from(v.push(x), b),
{
    assert forall|i: int| 0 <= i < v.push(x).len() implies case_arm_from(
        #[trigger] v.push(x)[i],
        b,
    ) by {
        if i < v.len() {
            assert(v.push(x)[i] == v[i]);
        }
    }
}

pub proof fn lemma_parts_push(v: Seq<WordPartView>, x: WordPartView, b: Seq<u8>)
    requires
        parts_from(v, b),
        word_part_from(x, b),
    ensures
        parts_from(v.push(x), b),
{
    assert forall|i: int| 0 <= i < v.push(x).len() implies word_part_from(
        #[trigger] v.push(x)[i],
        b,
    ) by {
        if i < v.len() {
            assert(v.push(x)[i] == v[i]);
        }
    }
}

pub proof fn lemma_atoms_push(v: Seq<AtomView>, x: AtomView, b: Seq<u8>)
    requires
        atoms_from(v, b),
        atom_from(x, b),
    ensures
        atoms_from(v.push(x), b),
{
    assert forall|i: int| 0 <= i < v.push(x).len() implies atom_from(
        #[trigger] v.push(x)[i],
        b,
    ) by {
        if i < v.len() {
            assert(v.push(x)[i] == v[i]);
        }
    }
}

} // verus!
