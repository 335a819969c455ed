//! The syntax tree of the source dialect. Every node borrows its text from
//! the parsed input; nothing is evaluated or expanded here.

use std::borrow::Cow;
use vstd::prelude::*;

verus! {

// ----- commands -----

/// One command of a script: run in the foreground, or as a background job.
#[derive(Debug)]
pub enum Cmd<'a> {
    List(AndOrList<'a>),
    Job(AndOrList<'a>),
}

/// A pipeline followed by the pipelines chained to it with `&&` and `||`,
/// in the order in which the operators were written.
#[derive(Debug)]
pub struct AndOrList<'a> {
    pub first: Pipeline<'a>,
    pub rest: Vec<AndOr<'a>>,
}

/// A pipeline together with the operator that chains it to what is before.
#[derive(Debug)]
pub enum AndOr<'a> {
    And(Pipeline<'a>),
    Or(Pipeline<'a>),
}

/// One executable, or several joined by `|`.
#[derive(Debug)]
pub enum Pipeline<'a> {
    Single(Executable<'a>),
    /// `[!] cmd1 | cmd2 | ...`; the flag says whether `!` leads it.
    Pipe(bool, Vec<Executable<'a>>),
}

#[derive(Debug)]
pub enum Executable<'a> {
    Simple(SimpleCmd<'a>),
    Compound(CompoundCmd<'a>),
    /// `name() body`.
    FuncDef(&'a str, CompoundCmd<'a>),
}

// ----- simple command -----

/// Assignments and redirects, then words and redirects.
#[derive(Debug)]
pub struct SimpleCmd<'a> {
    pub prefix: Vec<CmdPrefix<'a>>,
    pub suffix: Vec<CmdSuffix<'a>>,
}

#[derive(Debug)]
pub enum CmdPrefix<'a> {
    /// `name=word`; no word for `name=`.
    Assign(&'a str, Option<Word<'a>>),
    /// `name=(word ...)`.
    ArrayAssign(&'a str, Vec<Word<'a>>),
    /// `name+=(word ...)`.
    ArrayAppend(&'a str, Vec<Word<'a>>),
    Redirect(Redir<'a>),
}

#[derive(Debug)]
pub enum CmdSuffix<'a> {
    Word(Word<'a>),
    Redirect(Redir<'a>),
}

// ----- compound commands -----

/// A control-flow construct or group, with the redirects that follow its
/// closing keyword.
#[derive(Debug)]
pub struct CompoundCmd<'a> {
    pub kind: CompoundKind<'a>,
    pub redirects: Vec<Redir<'a>>,
}

#[derive(Debug)]
pub enum CompoundKind<'a> {
    /// `for var [in words]; do body done`; no word list means the
    /// positional parameters.
    For { var: &'a str, words: Option<Vec<Word<'a>>>, body: Vec<Cmd<'a>> },
    While(GuardBody<'a>),
    Until(GuardBody<'a>),
    /// `if`/`elif` branches in order, then the `else` body if there is one.
    If { conditionals: Vec<GuardBody<'a>>, else_branch: Option<Vec<Cmd<'a>>> },
    /// `case word in arms esac`; the arms are tried in order.
    Case { word: Word<'a>, arms: Vec<CaseArm<'a>> },
    /// `for ((init; cond; step)); do body done`.
    CFor {
        init: Option<Arith<'a>>,
        cond: Option<Arith<'a>>,
        step: Option<Arith<'a>>,
        body: Vec<Cmd<'a>>,
    },
    Brace(Vec<Cmd<'a>>),
    Subshell(Vec<Cmd<'a>>),
    DoubleBracket(Vec<Cmd<'a>>),
    Arithmetic(Arith<'a>),
}

/// A condition and the commands it guards.
#[derive(Debug)]
pub struct GuardBody<'a> {
    pub guard: Vec<Cmd<'a>>,
    pub body: Vec<Cmd<'a>>,
}

/// The patterns of one `case` arm and its body.
#[derive(Debug)]
pub struct CaseArm<'a> {
    pub patterns: Vec<Word<'a>>,
    pub body: Vec<Cmd<'a>>,
}

// ----- words -----

/// One part, or several written with no blank between them.
#[derive(Debug)]
pub enum Word<'a> {
    Simple(WordPart<'a>),
    Concat(Vec<WordPart<'a>>),
}

#[derive(Debug)]
pub enum WordPart<'a> {
    Bare(Atom<'a>),
    DQuoted(Vec<Atom<'a>>),
    SQuoted(&'a str),
}

#[derive(Debug)]
pub enum Atom<'a> {
    Lit(&'a str),
    /// The character behind a backslash.
    Escaped(Cow<'a, str>),
    Param(Param<'a>),
    Subst(Box<Subst<'a>>),
    Star,
    Question,
    SquareOpen,
    SquareClose,
    Tilde,
    /// `<(commands)`.
    ProcSubIn(Vec<Cmd<'a>>),
    /// `$'...'`: the text between the quotes, its escapes unresolved.
    AnsiCQuoted(&'a str),
    /// `{start..end[..step]}`.
    BraceRange { start: &'a str, end: &'a str, step: Option<&'a str> },
}

// ----- parameters -----

#[derive(Debug)]
pub enum Param<'a> {
    Var(&'a str),
    Positional(u32),
    /// `$@`
    At,
    /// `$*`
    Star,
    /// `$#`
    Pound,
    /// `$?`
    Status,
    /// `$$`
    Pid,
    /// `$!`
    Bang,
    /// `$-`
    Dash,
}

// ----- substitutions -----

#[derive(Debug)]
pub enum Subst<'a> {
    /// `$(commands)` or `` `commands` ``.
    Cmd(Vec<Cmd<'a>>),
    /// `$((expr))`; the expression may be empty.
    Arith(Option<Arith<'a>>),
    /// `${#param}`.
    Len(Param<'a>),
    /// `${!var}`.
    Indirect(&'a str),
    /// `${!prefix*}` and `${!prefix@}`.
    PrefixList(&'a str),
    /// `${var@X}`, with the operator letter.
    Transform(&'a str, u8),
    /// `${param:-word}` and `${param-word}`.
    Default(Param<'a>, Option<Word<'a>>),
    /// `${param:=word}` and `${param=word}`.
    Assign(Param<'a>, Option<Word<'a>>),
    /// `${param:?word}` and `${param?word}`.
    Error(Param<'a>, Option<Word<'a>>),
    /// `${param:+word}` and `${param+word}`.
    Alt(Param<'a>, Option<Word<'a>>),
    /// `${param%pattern}`.
    TrimSuffixSmall(Param<'a>, Option<Word<'a>>),
    /// `${param%%pattern}`.
    TrimSuffixLarge(Param<'a>, Option<Word<'a>>),
    /// `${param#pattern}`.
    TrimPrefixSmall(Param<'a>, Option<Word<'a>>),
    /// `${param##pattern}`.
    TrimPrefixLarge(Param<'a>, Option<Word<'a>>),
    /// `${param/pattern/replacement}`.
    Replace(Param<'a>, Option<Word<'a>>, Option<Word<'a>>),
    /// `${param//pattern/replacement}`.
    ReplaceAll(Param<'a>, Option<Word<'a>>, Option<Word<'a>>),
    /// `${param/#pattern/replacement}`.
    ReplacePrefix(Param<'a>, Option<Word<'a>>, Option<Word<'a>>),
    /// `${param/%pattern/replacement}`.
    ReplaceSuffix(Param<'a>, Option<Word<'a>>, Option<Word<'a>>),
    /// `${param:offset[:length]}`.
    Substring(Param<'a>, &'a str, Option<&'a str>),
    /// `${param^}` and, with the flag set, `${param^^}`.
    Upper(bool, Param<'a>),
    /// `${param,}` and, with the flag set, `${param,,}`.
    Lower(bool, Param<'a>),
    /// `${arr[index]}`.
    ArrayElement(&'a str, Word<'a>),
    /// `${arr[@]}` and `${arr[*]}`.
    ArrayAll(&'a str),
    /// `${#arr[@]}` and `${#arr[*]}`.
    ArrayLen(&'a str),
    /// `${arr[@]:offset[:length]}`.
    ArraySlice(&'a str, &'a str, Option<&'a str>),
}

// ----- arithmetic -----

#[derive(Debug)]
pub enum Arith<'a> {
    Var(&'a str),
    Lit(i64),
    Add(Box<Arith<'a>>, Box<Arith<'a>>),
    Sub(Box<Arith<'a>>, Box<Arith<'a>>),
    Mul(Box<Arith<'a>>, Box<Arith<'a>>),
    Div(Box<Arith<'a>>, Box<Arith<'a>>),
    Rem(Box<Arith<'a>>, Box<Arith<'a>>),
    Pow(Box<Arith<'a>>, Box<Arith<'a>>),
    Lt(Box<Arith<'a>>, Box<Arith<'a>>),
    Le(Box<Arith<'a>>, Box<Arith<'a>>),
    Gt(Box<Arith<'a>>, Box<Arith<'a>>),
    Ge(Box<Arith<'a>>, Box<Arith<'a>>),
    Eq(Box<Arith<'a>>, Box<Arith<'a>>),
    Ne(Box<Arith<'a>>, Box<Arith<'a>>),
    BitAnd(Box<Arith<'a>>, Box<Arith<'a>>),
    BitOr(Box<Arith<'a>>, Box<Arith<'a>>),
    BitXor(Box<Arith<'a>>, Box<Arith<'a>>),
    LogAnd(Box<Arith<'a>>, Box<Arith<'a>>),
    LogOr(Box<Arith<'a>>, Box<Arith<'a>>),
    Shl(Box<Arith<'a>>, Box<Arith<'a>>),
    Shr(Box<Arith<'a>>, Box<Arith<'a>>),
    Pos(Box<Arith<'a>>),
    Neg(Box<Arith<'a>>),
    LogNot(Box<Arith<'a>>),
    BitNot(Box<Arith<'a>>),
    PreInc(&'a str),
    PostInc(&'a str),
    PreDec(&'a str),
    PostDec(&'a str),
    Ternary(Box<Arith<'a>>, Box<Arith<'a>>, Box<Arith<'a>>),
    Assign(&'a str, Box<Arith<'a>>),
}

// ----- heredoc bodies -----

#[derive(Debug)]
pub enum HeredocBody<'a> {
    /// Quoted delimiter: the body is taken as it stands.
    Literal(&'a str),
    /// Unquoted delimiter: parameters and substitutions are recognised.
    Interpolated(Vec<Atom<'a>>),
}

// ----- redirects -----

/// A redirect; the number is the file descriptor written before the
/// operator, if any.
#[derive(Debug)]
pub enum Redir<'a> {
    /// `[n]<word`
    Read(Option<u16>, Word<'a>),
    /// `[n]>word`
    Write(Option<u16>, Word<'a>),
    /// `[n]>>word`
    Append(Option<u16>, Word<'a>),
    /// `[n]<>word`
    ReadWrite(Option<u16>, Word<'a>),
    /// `[n]>|word`
    Clobber(Option<u16>, Word<'a>),
    /// `[n]<&word`
    DupRead(Option<u16>, Word<'a>),
    /// `[n]>&word`
    DupWrite(Option<u16>, Word<'a>),
    /// `<<<word`
    HereString(Word<'a>),
    /// `<<delimiter` and `<<-delimiter`, with the body read after the line.
    Heredoc(HeredocBody<'a>),
    /// `&>word`
    WriteAll(Word<'a>),
    /// `&>>word`
    AppendAll(Word<'a>),
}

impl<'a> Redir<'a> {
    /// The file descriptor in front of the operator, or, where none is
    /// written, the one the operator has by itself: 0 for the operators
    /// that read, 1 for those that write.
    pub open spec fn spec_fd(&self) -> u16 {
        match self {
            Redir::Read(n, _) | Redir::ReadWrite(n, _) | Redir::DupRead(n, _) => match n {
                Some(n) => *n,
                None => 0,
            },
            Redir::Write(n, _) | Redir::Append(n, _) | Redir::Clobber(n, _) | Redir::DupWrite(
                n,
                _,
            ) => match n {
                Some(n) => *n,
                None => 1,
            },
            Redir::HereString(_) | Redir::Heredoc(_) => 0,
            Redir::WriteAll(_) | Redir::AppendAll(_) => 1,
        }
    }

    /// The file descriptor that the redirect applies to.
    pub fn fd(&self) -> (fd: u16)
        ensures
            fd == self.spec_fd(),
    {
        match self {
            Redir::Read(n, _) | Redir::ReadWrite(n, _) | Redir::DupRead(n, _) => match n {
                Some(n) => *n,
                None => 0,
            },
            Redir::Write(n, _) | Redir::Append(n, _) | Redir::Clobber(n, _) | Redir::DupWrite(
                n,
                _,
            ) => match n {
                Some(n) => *n,
                None => 1,
            },
            Redir::HereString(_) | Redir::Heredoc(_) => 0,
            Redir::WriteAll(_) | Redir::AppendAll(_) => 1,
        }
    }
}

} // verus!
