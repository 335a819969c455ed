use reef::ast::{
    AndOr, Arith, Atom, CaseArm, Cmd, CmdPrefix, CmdSuffix, CompoundCmd, CompoundKind, Executable,
    GuardBody, HeredocBody, Param, Pipeline, Redir, SimpleCmd, Subst, Word, WordPart,
};
use reef::parser::{parse, parse_with_depth, MAX_DEPTH};

// ----- a compact rendering of trees, for the assertions below -----

fn cmds(v: &[Cmd]) -> String {
    v.iter().map(cmd).collect::<Vec<_>>().join("; ")
}

fn cmd(c: &Cmd) -> String {
    match c {
        Cmd::List(l) => and_or_list(&l.first, &l.rest),
        Cmd::Job(l) => format!("(job {})", and_or_list(&l.first, &l.rest)),
    }
}

fn and_or_list(first: &Pipeline, rest: &[AndOr]) -> String {
    let mut s = pipeline(first);
    for r in rest {
        match r {
            AndOr::And(p) => s = format!("{} && {}", s, pipeline(p)),
            AndOr::Or(p) => s = format!("{} || {}", s, pipeline(p)),
        }
    }
    s
}

fn pipeline(p: &Pipeline) -> String {
    match p {
        Pipeline::Single(e) => exec(e),
        Pipeline::Pipe(neg, stages) => format!(
            "({} {})",
            if *neg { "!pipe" } else { "pipe" },
            stages.iter().map(exec).collect::<Vec<_>>().join(" | ")
        ),
    }
}

fn exec(e: &Executable) -> String {
    match e {
        Executable::Simple(s) => simple(s),
        Executable::Compound(c) => compound(c),
        Executable::FuncDef(name, c) => format!("(fn {} {})", name, compound(c)),
    }
}

fn simple(s: &SimpleCmd) -> String {
    let mut items: Vec<String> = Vec::new();
    for p in &s.prefix {
        items.push(match p {
            CmdPrefix::Assign(n, None) => format!("{}=", n),
            CmdPrefix::Assign(n, Some(w)) => format!("{}={}", n, word(w)),
            CmdPrefix::ArrayAssign(n, ws) => format!("{}=({})", n, words(ws)),
            CmdPrefix::ArrayAppend(n, ws) => format!("{}+=({})", n, words(ws)),
            CmdPrefix::Redirect(r) => redir(r),
        });
    }
    for x in &s.suffix {
        items.push(match x {
            CmdSuffix::Word(w) => word(w),
            CmdSuffix::Redirect(r) => redir(r),
        });
    }
    format!("[{}]", items.join(" "))
}

fn words(ws: &[Word]) -> String {
    ws.iter().map(word).collect::<Vec<_>>().join(" ")
}

fn fd(n: &Option<u16>) -> String {
    match n {
        Some(n) => n.to_string(),
        None => String::new(),
    }
}

fn redir(r: &Redir) -> String {
    match r {
        Redir::Read(n, w) => format!("{}<{}", fd(n), word(w)),
        Redir::Write(n, w) => format!("{}>{}", fd(n), word(w)),
        Redir::Append(n, w) => format!("{}>>{}", fd(n), word(w)),
        Redir::ReadWrite(n, w) => format!("{}<>{}", fd(n), word(w)),
        Redir::Clobber(n, w) => format!("{}>|{}", fd(n), word(w)),
        Redir::DupRead(n, w) => format!("{}<&{}", fd(n), word(w)),
        Redir::DupWrite(n, w) => format!("{}>&{}", fd(n), word(w)),
        Redir::HereString(w) => format!("<<<{}", word(w)),
        Redir::Heredoc(HeredocBody::Literal(s)) => format!("<<lit{:?}", s),
        Redir::Heredoc(HeredocBody::Interpolated(a)) => format!("<<int({})", atoms(a)),
        Redir::WriteAll(w) => format!("&>{}", word(w)),
        Redir::AppendAll(w) => format!("&>>{}", word(w)),
    }
}

fn body(v: &[Cmd]) -> String {
    format!("{{{}}}", cmds(v))
}

fn guard_body(g: &GuardBody) -> String {
    format!("{} {}", body(&g.guard), body(&g.body))
}

fn arm(a: &CaseArm) -> String {
    format!("({}) {}", a.patterns.iter().map(word).collect::<Vec<_>>().join("|"), body(&a.body))
}

fn opt_arith(a: &Option<Arith>) -> String {
    match a {
        Some(a) => arith(a),
        None => "-".to_string(),
    }
}

fn compound(c: &CompoundCmd) -> String {
    let kind = match &c.kind {
        CompoundKind::For { var, words: ws, body: b } => match ws {
            Some(ws) => format!("(for {} in ({}) {})", var, words(ws), body(b)),
            None => format!("(for {} {})", var, body(b)),
        },
        CompoundKind::While(g) => format!("(while {})", guard_body(g)),
        CompoundKind::Until(g) => format!("(until {})", guard_body(g)),
        CompoundKind::If { conditionals, else_branch } => {
            let mut s = String::from("(if");
            for g in conditionals {
                s.push_str(&format!(" [{}]", guard_body(g)));
            }
            if let Some(e) = else_branch {
                s.push_str(&format!(" else {}", body(e)));
            }
            s.push(')');
            s
        }
        CompoundKind::Case { word: w, arms } => format!(
            "(case {} {})",
            word(w),
            arms.iter().map(arm).collect::<Vec<_>>().join(" ")
        ),
        CompoundKind::CFor { init, cond, step, body: b } => format!(
            "(cfor {} {} {} {})",
            opt_arith(init),
            opt_arith(cond),
            opt_arith(step),
            body(b)
        ),
        CompoundKind::Brace(b) => format!("(brace {})", body(b)),
        CompoundKind::Subshell(b) => format!("(subshell {})", body(b)),
        CompoundKind::DoubleBracket(b) => format!("(test {})", body(b)),
        CompoundKind::Arithmetic(a) => format!("(arith {})", arith(a)),
    };
    if c.redirects.is_empty() {
        kind
    } else {
        format!("{} {}", kind, c.redirects.iter().map(redir).collect::<Vec<_>>().join(" "))
    }
}

fn word(w: &Word) -> String {
    match w {
        Word::Simple(p) => part(p),
        Word::Concat(ps) => format!("<{}>", ps.iter().map(part).collect::<Vec<_>>().join("+")),
    }
}

fn part(p: &WordPart) -> String {
    match p {
        WordPart::Bare(a) => atom(a),
        WordPart::DQuoted(a) => format!("\"{}\"", atoms(a)),
        WordPart::SQuoted(s) => format!("'{}'", s),
    }
}

fn atoms(a: &[Atom]) -> String {
    a.iter().map(atom).collect::<Vec<_>>().join(",")
}

fn param(p: &Param) -> String {
    match p {
        Param::Var(n) => format!("${}", n),
        Param::Positional(n) => format!("${}", n),
        Param::At => "$@".into(),
        Param::Star => "$*".into(),
        Param::Pound => "$#".into(),
        Param::Status => "$?".into(),
        Param::Pid => "$$".into(),
        Param::Bang => "$!".into(),
        Param::Dash => "$-".into(),
    }
}

fn opt_word(w: &Option<Word>) -> String {
    match w {
        Some(w) => word(w),
        None => "-".to_string(),
    }
}

fn atom(a: &Atom) -> String {
    match a {
        Atom::Lit(s) => s.to_string(),
        Atom::Escaped(s) => format!("\\{}", s),
        Atom::Param(p) => param(p),
        Atom::Subst(s) => subst(s),
        Atom::Star => "STAR".into(),
        Atom::Question => "QUESTION".into(),
        Atom::SquareOpen => "OPEN".into(),
        Atom::SquareClose => "CLOSE".into(),
        Atom::Tilde => "TILDE".into(),
        Atom::ProcSubIn(c) => format!("<({})", cmds(c)),
        Atom::AnsiCQuoted(s) => format!("$'{}'", s),
        Atom::BraceRange { start, end, step } => match step {
            Some(step) => format!("{{{}..{}..{}}}", start, end, step),
            None => format!("{{{}..{}}}", start, end),
        },
    }
}

fn subst(s: &Subst) -> String {
    match s {
        Subst::Cmd(c) => format!("$({})", cmds(c)),
        Subst::Arith(a) => format!("$(({}))", opt_arith(a)),
        Subst::Len(p) => format!("(len {})", param(p)),
        Subst::Indirect(n) => format!("(indirect {})", n),
        Subst::PrefixList(n) => format!("(prefix-list {})", n),
        Subst::Transform(n, op) => format!("(transform {} {})", n, *op as char),
        Subst::Default(p, w) => format!("(default {} {})", param(p), opt_word(w)),
        Subst::Assign(p, w) => format!("(assign {} {})", param(p), opt_word(w)),
        Subst::Error(p, w) => format!("(error {} {})", param(p), opt_word(w)),
        Subst::Alt(p, w) => format!("(alt {} {})", param(p), opt_word(w)),
        Subst::TrimSuffixSmall(p, w) => format!("(trim-suffix {} {})", param(p), opt_word(w)),
        Subst::TrimSuffixLarge(p, w) => format!("(trim-suffix-long {} {})", param(p), opt_word(w)),
        Subst::TrimPrefixSmall(p, w) => format!("(trim-prefix {} {})", param(p), opt_word(w)),
        Subst::TrimPrefixLarge(p, w) => format!("(trim-prefix-long {} {})", param(p), opt_word(w)),
        Subst::Replace(p, a, b) => format!("(replace {} {} {})", param(p), opt_word(a), opt_word(b)),
        Subst::ReplaceAll(p, a, b) => {
            format!("(replace-all {} {} {})", param(p), opt_word(a), opt_word(b))
        }
        Subst::ReplacePrefix(p, a, b) => {
            format!("(replace-prefix {} {} {})", param(p), opt_word(a), opt_word(b))
        }
        Subst::ReplaceSuffix(p, a, b) => {
            format!("(replace-suffix {} {} {})", param(p), opt_word(a), opt_word(b))
        }
        Subst::Substring(p, o, l) => match l {
            Some(l) => format!("(substring {} {} {})", param(p), o, l),
            None => format!("(substring {} {})", param(p), o),
        },
        Subst::Upper(all, p) => format!("(upper {} {})", all, param(p)),
        Subst::Lower(all, p) => format!("(lower {} {})", all, param(p)),
        Subst::ArrayElement(n, w) => format!("(element {} {})", n, word(w)),
        Subst::ArrayAll(n) => format!("(all {})", n),
        Subst::ArrayLen(n) => format!("(array-len {})", n),
        Subst::ArraySlice(n, o, l) => match l {
            Some(l) => format!("(slice {} {} {})", n, o, l),
            None => format!("(slice {} {})", n, o),
        },
    }
}

fn arith(a: &Arith) -> String {
    let bin = |op: &str, l: &Arith, r: &Arith| format!("({} {} {})", arith(l), op, arith(r));
    match a {
        Arith::Var(n) => n.to_string(),
        Arith::Lit(n) => n.to_string(),
        Arith::Add(l, r) => bin("+", l, r),
        Arith::Sub(l, r) => bin("-", l, r),
        Arith::Mul(l, r) => bin("*", l, r),
        Arith::Div(l, r) => bin("/", l, r),
        Arith::Rem(l, r) => bin("%", l, r),
        Arith::Pow(l, r) => bin("**", l, r),
        Arith::Lt(l, r) => bin("<", l, r),
        Arith::Le(l, r) => bin("<=", l, r),
        Arith::Gt(l, r) => bin(">", l, r),
        Arith::Ge(l, r) => bin(">=", l, r),
        Arith::Eq(l, r) => bin("==", l, r),
        Arith::Ne(l, r) => bin("!=", l, r),
        Arith::BitAnd(l, r) => bin("&", l, r),
        Arith::BitOr(l, r) => bin("|", l, r),
        Arith::BitXor(l, r) => bin("^", l, r),
        Arith::LogAnd(l, r) => bin("&&", l, r),
        Arith::LogOr(l, r) => bin("||", l, r),
        Arith::Shl(l, r) => bin("<<", l, r),
        Arith::Shr(l, r) => bin(">>", l, r),
        Arith::Pos(x) => format!("(+ {})", arith(x)),
        Arith::Neg(x) => format!("(- {})", arith(x)),
        Arith::LogNot(x) => format!("(! {})", arith(x)),
        Arith::BitNot(x) => format!("(~ {})", arith(x)),
        Arith::PreInc(n) => format!("(++ {})", n),
        Arith::PostInc(n) => format!("({} ++)", n),
        Arith::PreDec(n) => format!("(-- {})", n),
        Arith::PostDec(n) => format!("({} --)", n),
        Arith::Ternary(c, a, b) => format!("({} ? {} : {})", arith(c), arith(a), arith(b)),
        Arith::Assign(n, x) => format!("({} = {})", n, arith(x)),
    }
}

fn show(input: &str) -> String {
    match parse(input) {
        Ok(c) => cmds(&c),
        Err(e) => format!("error at {}: {}", e.pos, e.msg),
    }
}

// ----- lists, pipelines -----

#[test]
fn single_command_is_single_pipeline() {
    let cmds = parse("echo hi").unwrap();
    assert_eq!(cmds.len(), 1);
    match &cmds[0] {
        Cmd::List(l) => {
            assert!(l.rest.is_empty());
            assert!(matches!(l.first, Pipeline::Single(Executable::Simple(_))));
        }
        other => panic!("{:?}", other),
    }
    assert_eq!(show("echo hi"), "[echo hi]");
}

#[test]
fn two_stages_are_a_pipe_without_negation() {
    let cmds = parse("echo hi | cat").unwrap();
    match &cmds[0] {
        Cmd::List(l) => match &l.first {
            Pipeline::Pipe(negated, stages) => {
                assert!(!negated);
                assert_eq!(stages.len(), 2);
            }
            other => panic!("{:?}", other),
        },
        other => panic!("{:?}", other),
    }
    assert_eq!(show("echo hi | cat"), "(pipe [echo hi] | [cat])");
}

#[test]
fn negated_single_command_is_a_pipe() {
    assert_eq!(show("! true"), "(!pipe [true])");
    assert_eq!(show("! a | b"), "(!pipe [a] | [b])");
    assert_eq!(show("!true"), "[!true]");
}

#[test]
fn pipe_stage_may_stand_on_the_next_line() {
    assert_eq!(show("a |\n  b"), "(pipe [a] | [b])");
}

#[test]
fn and_or_keeps_the_written_order() {
    assert_eq!(show("a && b || c && d"), "[a] && [b] || [c] && [d]");
    assert_eq!(show("a &&\n b"), "[a] && [b]");
}

#[test]
fn commands_are_separated_by_semicolon_and_newline() {
    assert_eq!(show("a; b\nc"), "[a]; [b]; [c]");
    assert_eq!(show("a;"), "[a]");
    assert_eq!(show("\n\n a \n\n"), "[a]");
    assert_eq!(show(""), "");
    assert_eq!(show("   \t "), "");
}

#[test]
fn ampersand_makes_a_job() {
    assert_eq!(show("sleep 1 &"), "(job [sleep 1])");
    assert_eq!(show("a & b"), "(job [a]); [b]");
    assert_eq!(show("a && b &"), "(job [a] && [b])");
}

#[test]
fn comments_run_to_the_end_of_the_line() {
    assert_eq!(show("# nothing"), "");
    assert_eq!(show("echo hi # there\necho ho"), "[echo hi]; [echo ho]");
    assert_eq!(show("echo a#b"), "[echo a#b]");
}

#[test]
fn whole_input_is_consumed_or_rejected() {
    assert!(parse("echo hi   \n\n").is_ok());
    assert_eq!(show("echo hi )"), "error at 8: unexpected token");
    assert_eq!(show("fi"), "error at 0: unexpected token");
    assert_eq!(show("echo (a)"), "error at 5: unexpected token");
    assert_eq!(show("a | | b"), "error at 4: expected command");
    assert_eq!(show("a && "), "error at 5: expected command");
    assert_eq!(show("a | then"), "error at 4: unexpected token");
}

#[test]
fn texts_are_slices_of_the_input() {
    let input = "name=héllo echo 'a b' \"$var\" ${x:-dflt}";
    let at = |s: &str| s.as_ptr() as usize - input.as_ptr() as usize;
    let cmds = parse(input).unwrap();
    let c = match &cmds[0] {
        Cmd::List(l) => match &l.first {
            Pipeline::Single(Executable::Simple(c)) => c,
            other => panic!("{:?}", other),
        },
        other => panic!("{:?}", other),
    };
    match &c.prefix[0] {
        CmdPrefix::Assign(name, Some(Word::Simple(WordPart::Bare(Atom::Lit(value))))) => {
            assert_eq!((at(name), *name), (0, "name"));
            assert_eq!((at(value), *value), (5, "héllo"));
            assert_eq!(&input[5..5 + value.len()], *value);
        }
        other => panic!("{:?}", other),
    }
    match &c.suffix[1] {
        CmdSuffix::Word(Word::Simple(WordPart::SQuoted(s))) => assert_eq!((at(s), *s), (18, "a b")),
        other => panic!("{:?}", other),
    }
    match &c.suffix[2] {
        CmdSuffix::Word(Word::Simple(WordPart::DQuoted(atoms))) => match &atoms[0] {
            Atom::Param(Param::Var(v)) => assert_eq!((at(v), *v), (25, "var")),
            other => panic!("{:?}", other),
        },
        other => panic!("{:?}", other),
    }
    match &c.suffix[3] {
        CmdSuffix::Word(Word::Simple(WordPart::Bare(Atom::Subst(s)))) => match &**s {
            Subst::Default(Param::Var(v), Some(Word::Simple(WordPart::Bare(Atom::Lit(w))))) => {
                assert_eq!((at(v), *v), (32, "x"));
                assert_eq!((at(w), *w), (35, "dflt"));
            }
            other => panic!("{:?}", other),
        },
        other => panic!("{:?}", other),
    }
}

// ----- quoting -----

#[test]
fn quoted_keyword_is_a_word() {
    assert_eq!(show("\"if\" true"), "[\"if\" true]");
    assert_eq!(show("'if' true"), "['if' true]");
    assert_eq!(show("'while'"), "['while']");
    assert_eq!(show("\"done\""), "[\"done\"]");
}

#[test]
fn keyword_later_in_a_command_is_a_word() {
    assert_eq!(show("echo if then fi done"), "[echo if then fi done]");
    assert_eq!(show("echo }"), "[echo }]");
    assert_eq!(show("ifx"), "[ifx]");
    assert_eq!(show("donesomething"), "[donesomething]");
}

#[test]
fn single_quotes_keep_everything() {
    assert_eq!(show("echo 'a $b \"c\" \\d'"), "[echo 'a $b \"c\" \\d']");
    assert_eq!(show("echo ''"), "[echo '']");
    assert_eq!(show("echo 'a"), "error at 7: unterminated single quote");
}

#[test]
fn double_quotes_keep_expansions_only() {
    assert_eq!(show("echo \"a $b c\""), "[echo \"a ,$b, c\"]");
    assert_eq!(show("echo \"*?[]~\""), "[echo \"*?[]~\"]");
    assert_eq!(show("echo \"a\\\"b\""), "[echo \"a,\\\",b\"]");
    assert_eq!(show("echo \"a\\nb\""), "[echo \"a,\\nb\"]");
    assert_eq!(show("echo \"$(ls)\""), "[echo \"$([ls])\"]");
    assert_eq!(show("echo \"\""), "[echo \"\"]");
    assert_eq!(show("echo \"a"), "error at 7: unterminated double quote");
}

#[test]
fn adjacent_parts_make_one_word() {
    assert_eq!(show("echo a'b'\"c\"$d"), "[echo <a+'b'+\"c\"+$d>]");
    assert_eq!(show("echo a\\ b"), "[echo <a+\\ +b>]");
}

#[test]
fn unquoted_globs_and_tilde() {
    assert_eq!(show("ls *.rs"), "[ls <STAR+.rs>]");
    assert_eq!(show("ls a?[bc]"), "[ls <a+QUESTION+OPEN+bc+CLOSE>]");
    assert_eq!(show("cd ~/src"), "[cd <TILDE+/src>]");
    assert_eq!(show("echo a~b"), "[echo a~b]");
}

#[test]
fn brace_ranges() {
    assert_eq!(show("echo {1..5}"), "[echo {1..5}]");
    assert_eq!(show("echo {a..z..2}"), "[echo {a..z..2}]");
    assert_eq!(show("echo {a,b}"), "[echo <{+a,b}>]");
    assert_eq!(show("echo {1..}"), "[echo <{+1..}>]");
}

#[test]
fn escapes_take_a_whole_character() {
    assert_eq!(show("echo \\é"), "[echo \\é]");
    assert_eq!(show("echo \\$x"), "[echo <\\$+x>]");
    assert_eq!(show("echo a\\"), "[echo <a+\\>]");
}

#[test]
fn ansi_c_quotes_are_kept_raw() {
    assert_eq!(show("echo $'a\\nb'"), "[echo $'a\\nb']");
    assert_eq!(show("echo $'it\\'s'"), "[echo $'it\\'s']");
    assert_eq!(show("echo $'a"), "error at 8: unterminated single quote");
    assert_eq!(show("echo \"$'a'\""), "[echo \"$,'a'\"]");
}

#[test]
fn text_is_not_only_ascii() {
    assert_eq!(show("echo héllo wörld"), "[echo héllo wörld]");
    assert_eq!(show("echo '日本語' \"ü$x\""), "[echo '日本語' \"ü,$x\"]");
}

// ----- parameters and substitutions -----

#[test]
fn simple_parameters() {
    assert_eq!(show("echo $a $1 $@ $* $# $? $$ $! $-"), "[echo $a $1 $@ $* $# $? $$ $! $-]");
    assert_eq!(show("echo $10"), "[echo <$1+0>]");
    assert_eq!(show("echo $ $%"), "[echo $ <$+%>]");
    assert_eq!(show("echo ${a} ${10} ${#} ${!} ${@}"), "[echo $a $10 $# $! $@]");
}

#[test]
fn default_is_not_a_stray_minus() {
    assert_eq!(show("echo ${v:-x}"), "[echo (default $v x)]");
    assert_eq!(show("echo ${v-x}"), "[echo (default $v x)]");
    assert_eq!(show("echo ${v:-}"), "[echo (default $v -)]");
}

#[test]
fn double_hash_trims_the_longest_prefix() {
    assert_eq!(show("echo ${v##*/}"), "[echo (trim-prefix-long $v <STAR+/>)]");
    assert_eq!(show("echo ${v#*/}"), "[echo (trim-prefix $v <STAR+/>)]");
    assert_eq!(show("echo ${v%%.*}"), "[echo (trim-suffix-long $v <.+STAR>)]");
    assert_eq!(show("echo ${v%.*}"), "[echo (trim-suffix $v <.+STAR>)]");
    assert_eq!(show("echo ${#v}"), "[echo (len $v)]");
}

#[test]
fn word_operators() {
    assert_eq!(show("echo ${v:=x} ${v=x}"), "[echo (assign $v x) (assign $v x)]");
    assert_eq!(show("echo ${v:?gone} ${v?gone}"), "[echo (error $v gone) (error $v gone)]");
    assert_eq!(show("echo ${v:+x} ${v+x}"), "[echo (alt $v x) (alt $v x)]");
    assert_eq!(show("echo ${v:-a b}"), "[echo (default $v a b)]");
    assert_eq!(show("echo ${v:-$w}"), "[echo (default $v $w)]");
    assert_eq!(show("echo ${1:-x}"), "[echo (default $1 x)]");
}

#[test]
fn replacements() {
    assert_eq!(show("echo ${v/a/b}"), "[echo (replace $v a b)]");
    assert_eq!(show("echo ${v//a/b}"), "[echo (replace-all $v a b)]");
    assert_eq!(show("echo ${v/#a/b}"), "[echo (replace-prefix $v a b)]");
    assert_eq!(show("echo ${v/%a/b}"), "[echo (replace-suffix $v a b)]");
    assert_eq!(show("echo ${v/a}"), "[echo (replace $v a -)]");
    assert_eq!(show("echo ${v/a/}"), "[echo (replace $v a -)]");
}

#[test]
fn substrings_and_case() {
    assert_eq!(show("echo ${v:1}"), "[echo (substring $v 1)]");
    assert_eq!(show("echo ${v:1:2}"), "[echo (substring $v 1 2)]");
    assert_eq!(show("echo ${v^} ${v^^} ${v,} ${v,,}"),
        "[echo (upper false $v) (upper true $v) (lower false $v) (lower true $v)]");
    assert_eq!(show("echo ${v@Q}"), "[echo (transform v Q)]");
}

#[test]
fn indirection_and_prefix_lists() {
    assert_eq!(show("echo ${!v}"), "[echo (indirect v)]");
    assert_eq!(show("echo ${!v*} ${!v@}"), "[echo (prefix-list v) (prefix-list v)]");
}

#[test]
fn arrays() {
    assert_eq!(show("echo ${a[0]}"), "[echo (element a 0)]");
    assert_eq!(show("echo ${a[$i]}"), "[echo (element a $i)]");
    assert_eq!(show("echo ${a[@]} ${a[*]}"), "[echo (all a) (all a)]");
    assert_eq!(show("echo ${#a[@]} ${#a[*]}"), "[echo (array-len a) (array-len a)]");
    assert_eq!(show("echo ${a[@]:1:2} ${a[@]:1}"), "[echo (slice a 1 2) (slice a 1)]");
    assert_eq!(show("a=(x y z)"), "[a=(x y z)]");
    assert_eq!(show("a+=(x)"), "[a+=(x)]");
    assert_eq!(show("a=(\n x\n y\n)"), "[a=(x y)]");
    assert_eq!(show("a=()"), "[a=()]");
}

#[test]
fn bad_substitutions() {
    assert_eq!(show("echo ${v"), "error at 8: bad substitution");
    assert_eq!(show("echo ${v:-x"), "error at 11: expected '}'");
    assert_eq!(show("echo ${}"), "error at 7: expected parameter name");
    assert_eq!(show("echo ${v!}"), "error at 8: bad substitution");
    assert_eq!(show("echo ${a[1}"), "error at 11: expected ']'");
    assert_eq!(show("echo ${#a"), "error at 9: expected '}'");
    assert_eq!(show("echo ${!}x"), "[echo <$!+x>]");
    assert_eq!(show("echo ${99999999999}"), "error at 7: expected parameter name");
}

#[test]
fn command_substitutions() {
    assert_eq!(show("echo $(ls -l)"), "[echo $([ls -l])]");
    assert_eq!(show("echo $(a | b; c)"), "[echo $((pipe [a] | [b]); [c])]");
    assert_eq!(show("echo `ls -l`"), "[echo $([ls -l])]");
    assert_eq!(show("echo $(echo $(echo hi))"), "[echo $([echo $([echo hi])])]");
    assert_eq!(show("echo $()"), "[echo $()]");
    assert_eq!(show("diff <(a) <(b)"), "[diff <([a]) <([b])]");
    assert_eq!(show("echo $(ls"), "error at 9: expected ')'");
    assert_eq!(show("echo `ls"), "error at 8: unterminated backquote");
    assert_eq!(show("echo `ls )`"), "error at 9: unexpected token");
}

// ----- arithmetic -----

#[test]
fn arithmetic_precedence() {
    assert_eq!(show("echo $((1 + 2 * 3))"), "[echo $(((1 + (2 * 3))))]");
    assert_eq!(show("echo $((1 * 2 + 3))"), "[echo $((((1 * 2) + 3)))]");
    assert_eq!(show("echo $(((1 + 2) * 3))"), "[echo $((((1 + 2) * 3)))]");
    assert_eq!(show("echo $((1 - 2 - 3))"), "[echo $((((1 - 2) - 3)))]");
    assert_eq!(show("echo $((a || b && c | d ^ e & f == g < h << i + j * k))"),
        "[echo $(((a || (b && (c | (d ^ (e & (f == (g < (h << (i + (j * k))))))))))))]");
}

#[test]
fn assignment_associates_right() {
    assert_eq!(show("echo $((a = b = 1))"), "[echo $(((a = (b = 1))))]");
    assert_eq!(show("echo $((2 ** 3 ** 2))"), "[echo $(((2 ** (3 ** 2))))]");
    assert_eq!(show("echo $((a ? b : c ? d : e))"), "[echo $(((a ? b : (c ? d : e))))]");
}

#[test]
fn arithmetic_operands() {
    assert_eq!(show("echo $((-a + !b - ~c))"), "[echo $(((((- a) + (! b)) - (~ c))))]");
    assert_eq!(show("echo $((i++ + ++j))"), "[echo $((((i ++) + (++ j))))]");
    assert_eq!(show("echo $((i-- - --j))"), "[echo $((((i --) - (-- j))))]");
    assert_eq!(show("echo $(($x + 1))"), "[echo $(((x + 1)))]");
    assert_eq!(show("echo $(())"), "[echo $((-))]");
    assert_eq!(show("echo $((a <= b))"), "[echo $(((a <= b)))]");
    assert_eq!(show("echo $((a != b))"), "[echo $(((a != b)))]");
    assert_eq!(show("echo $((9223372036854775807))"), "[echo $((9223372036854775807))]");
}

#[test]
fn arithmetic_errors() {
    assert_eq!(show("echo $((1 +))"), "error at 11: expected arithmetic operand");
    assert_eq!(show("echo $((1 + 2)"), "error at 13: expected '))'");
    assert_eq!(show("echo $(((1 + 2))"), "error at 15: expected '))'");
    assert_eq!(show("echo $(((1 + 2"), "error at 14: expected ')'");
    assert_eq!(show("echo $((a ? b))"), "error at 13: expected ':'");
    assert_eq!(show("echo $((++1))"), "error at 10: expected variable name");
    assert_eq!(show("echo $((9223372036854775808))"), "error at 8: number too large");
    assert_eq!(show("((1 + 2))"), "(arith (1 + 2))");
}

// ----- compound commands -----

#[test]
fn missing_fi_is_an_error() {
    let e = parse("if true; then echo hi").unwrap_err();
    assert_eq!(e.msg, "expected 'fi'");
    assert_eq!(e.pos, 21);
    assert_eq!(show("if true; echo hi; fi"), "error at 18: expected 'then'");
    assert_eq!(show("if true; then a; else b"), "error at 23: expected 'fi'");
}

#[test]
fn if_elif_else() {
    assert_eq!(show("if a; then b; fi"), "(if [{[a]} {[b]}])");
    assert_eq!(show("if a; then b; else c; fi"), "(if [{[a]} {[b]}] else {[c]})");
    assert_eq!(show("if a; then b; elif c; then d; elif e; then f; else g; fi"),
        "(if [{[a]} {[b]}] [{[c]} {[d]}] [{[e]} {[f]}] else {[g]})");
    assert_eq!(show("if a\nthen\n b\nfi"), "(if [{[a]} {[b]}])");
}

#[test]
fn loops() {
    assert_eq!(show("while a; do b; done"), "(while {[a]} {[b]})");
    assert_eq!(show("until a; do b; c; done"), "(until {[a]} {[b]; [c]})");
    assert_eq!(show("for x in a b c; do echo $x; done"), "(for x in (a b c) {[echo $x]})");
    assert_eq!(show("for x; do echo $x; done"), "(for x {[echo $x]})");
    assert_eq!(show("for x in; do :; done"), "(for x in () {[:]})");
    assert_eq!(show("for x in a\ndo\n b\ndone"), "(for x in (a) {[b]})");
    assert_eq!(show("for ((i = 0; i < 3; i++)); do echo; done"),
        "(cfor (i = 0) (i < 3) (i ++) {[echo]})");
    assert_eq!(show("for ((;;)); do echo; done"), "(cfor - - - {[echo]})");
    assert_eq!(show("while a; do b"), "error at 13: expected 'done'");
    assert_eq!(show("while a; b; done"), "error at 12: expected 'do'");
    assert_eq!(show("for 1 in a; do b; done"), "error at 4: expected variable name");
    assert_eq!(show("for ((i = 0; i < 3)); do echo; done"), "error at 18: expected ';'");
}

#[test]
fn case_arms_keep_their_order() {
    let cmds = parse("case x in a) A;; b) B;; esac").unwrap();
    match &cmds[0] {
        Cmd::List(l) => match &l.first {
            Pipeline::Single(Executable::Compound(c)) => match &c.kind {
                CompoundKind::Case { arms, .. } => {
                    assert_eq!(arms.len(), 2);
                    assert_eq!(word(&arms[0].patterns[0]), "a");
                    assert_eq!(body(&arms[0].body), "{[A]}");
                    assert_eq!(word(&arms[1].patterns[0]), "b");
                    assert_eq!(body(&arms[1].body), "{[B]}");
                }
                other => panic!("{:?}", other),
            },
            other => panic!("{:?}", other),
        },
        other => panic!("{:?}", other),
    }
    assert_eq!(show("case $x in\n  a|b) A;;\n  (c) C; D;;\n  *) E\nesac"),
        "(case $x (a|b) {[A]} (c) {[C]; [D]} (STAR) {[E]})");
    assert_eq!(show("case x in esac"), "(case x )");
    assert_eq!(show("case x in a) A;;"), "error at 16: expected 'esac'");
    assert_eq!(show("case x a) A;; esac"), "error at 7: expected 'in'");
    assert_eq!(show("case x in a A;; esac"), "error at 12: expected ')'");
}

#[test]
fn groups() {
    assert_eq!(show("{ a; b; }"), "(brace {[a]; [b]})");
    assert_eq!(show("(a; b)"), "(subshell {[a]; [b]})");
    assert_eq!(show("[[ -f x ]]"), "(test {[-f x]})");
    assert_eq!(show("[[ -f x && -d y ]]"), "(test {[-f x] && [-d y]})");
    assert_eq!(show("{ a; "), "error at 5: expected '}'");
    assert_eq!(show("(a"), "error at 2: expected ')'");
    assert_eq!(show("[[ a"), "error at 4: expected ']]'");
    assert_eq!(show("{a}"), "[<{+a}>]");
}

#[test]
fn redirects_behind_a_compound_belong_to_it() {
    assert_eq!(show("{ a; } > out 2>&1"), "(brace {[a]}) >out 2>&1");
    assert_eq!(show("while a; do b; done < in"), "(while {[a]} {[b]}) <in");
    assert_eq!(show("if a; then b; fi | c"), "(pipe (if [{[a]} {[b]}]) | [c])");
}

#[test]
fn function_definitions() {
    assert_eq!(show("f() { a; }"), "(fn f (brace {[a]}))");
    assert_eq!(show("f ()\n{\n a\n}"), "(fn f (brace {[a]}))");
    assert_eq!(show("function f { a; }"), "(fn f (brace {[a]}))");
    assert_eq!(show("function f() { a; }"), "(fn f (brace {[a]}))");
    assert_eq!(show("f() (a)"), "(fn f (subshell {[a]}))");
    assert_eq!(show("f() a"), "error at 4: expected compound command");
    assert_eq!(show("function { a; }"), "error at 9: expected function name");
}

// ----- simple commands and redirects -----

#[test]
fn assignments_stand_only_in_front() {
    assert_eq!(show("a=1 b=2 cmd c=3"), "[a=1 b=2 cmd c=3]");
    assert_eq!(show("a=1"), "[a=1]");
    assert_eq!(show("a= cmd"), "[a= cmd]");
    assert_eq!(show("a=\"x y\" cmd"), "[a=\"x y\" cmd]");
    assert_eq!(show("1a=2"), "[1a=2]");
    assert_eq!(show(">out a=1 cmd"), "[>out a=1 cmd]");
}

#[test]
fn redirect_operators() {
    assert_eq!(show("a <in >out >>log"), "[a <in >out >>log]");
    assert_eq!(show("a 2>err 2>&1 0<&3"), "[a 2>err 2>&1 0<&3]");
    assert_eq!(show("a <>rw >|force"), "[a <>rw >|force]");
    assert_eq!(show("a &>all &>>more"), "[a &>all &>>more]");
    assert_eq!(show("a <<<word"), "[a <<<word]");
    assert_eq!(show("a > out"), "[a >out]");
    assert_eq!(show("a 2 >out"), "[a 2 >out]");
    assert_eq!(show("a >"), "error at 3: expected word");
    assert_eq!(show("a 65535>x 65536>y"), "[a 65535>x 65536 >y]");
}

#[test]
fn default_descriptors() {
    let cmds = parse("a <in >out 2>err <<<x &>all").unwrap();
    let fds: Vec<u16> = match &cmds[0] {
        Cmd::List(l) => match &l.first {
            Pipeline::Single(Executable::Simple(c)) => c
                .suffix
                .iter()
                .filter_map(|s| match s {
                    CmdSuffix::Redirect(r) => Some(r.fd()),
                    _ => None,
                })
                .collect(),
            other => panic!("{:?}", other),
        },
        other => panic!("{:?}", other),
    };
    assert_eq!(fds, vec![0, 1, 2, 0, 1]);
}

// ----- heredocs -----

#[test]
fn heredoc_bodies_follow_the_line() {
    assert_eq!(show("cat <<EOF\nhello\nEOF\necho done"), "[cat <<int(hello\n)]; [echo done]");
    assert_eq!(show("cat <<EOF\nEOF"), "[cat <<int()]");
    assert_eq!(show("cat <<EOF | wc\na\nb\nEOF\n"), "(pipe [cat <<int(a\nb\n)] | [wc])");
}

#[test]
fn two_heredocs_on_one_line() {
    assert_eq!(show("cat <<A <<B\none\nA\ntwo\nB\nnext"),
        "[cat <<int(one\n) <<int(two\n)]; [next]");
}

#[test]
fn quoted_delimiter_makes_a_literal_body() {
    assert_eq!(show("cat <<'EOF'\n$x $(y)\nEOF"), "[cat <<lit\"$x $(y)\\n\"]");
    assert_eq!(show("cat <<\"EOF\"\n$x\nEOF"), "[cat <<lit\"$x\\n\"]");
    assert_eq!(show("cat <<EOF\n$x $(y) \"z\"\nEOF"), "[cat <<int($x, ,$([y]), \"z\"\n)]");
}

#[test]
fn stripped_heredoc_ignores_leading_tabs_of_the_delimiter() {
    assert_eq!(show("cat <<-EOF\n\thello\n\tEOF\nnext"), "[cat <<int(\thello\n)]; [next]");
    assert_eq!(show("cat <<EOF\n\tEOF\nEOF"), "[cat <<int(\tEOF\n)]");
}

#[test]
fn heredoc_errors() {
    assert_eq!(show("cat <<EOF\nhello"), "error at 15: unterminated heredoc");
    assert_eq!(show("cat <<EOF"), "error at 9: unterminated heredoc");
    assert_eq!(show("cat <<"), "error at 6: expected heredoc delimiter");
    assert_eq!(show("cat <<EOF\n$(\nEOF"), "error at 13: expected ')'");
}

// ----- nesting -----

#[test]
fn deep_nesting_is_an_error() {
    let mut s = String::new();
    for _ in 0..200 {
        s.push_str("$(");
    }
    s.push_str("echo");
    for _ in 0..200 {
        s.push(')');
    }
    let e = parse(&s).unwrap_err();
    assert_eq!(e.msg, "nesting too deep");
    assert_eq!(e.pos, 2 * MAX_DEPTH + 2);
    assert!(parse_with_depth("echo $(echo $(echo hi))", 2).is_ok());
    let e = parse_with_depth("echo $(echo $(echo hi))", 1).unwrap_err();
    assert_eq!((e.pos, e.msg), (14, "nesting too deep"));
    assert_eq!(parse_with_depth("{ a; }", 0).unwrap_err().msg, "nesting too deep");
    assert!(parse_with_depth("a | b && c", 0).is_ok());
}

#[test]
fn nesting_at_the_bound_is_accepted() {
    let mut s = String::from("echo ");
    for _ in 0..MAX_DEPTH {
        s.push_str("$(echo ");
    }
    s.push_str("hi");
    for _ in 0..MAX_DEPTH {
        s.push(')');
    }
    assert!(parse(&s).is_ok());
    let deeper = format!("echo $({})", &s);
    assert_eq!(parse(&deeper).unwrap_err().msg, "nesting too deep");
}

#[test]
fn long_chains_do_not_nest() {
    let mut s = String::from("a");
    for _ in 0..5000 {
        s.push_str(" | a && a; a");
    }
    assert!(parse(&s).is_ok());
    let mut sum = String::from("echo $((1");
    for _ in 0..5000 {
        sum.push_str(" + 1");
    }
    sum.push_str("))");
    assert!(parse(&sum).is_ok());
}
