//! Replaying environment changes: the difference between two snapshots of a
//! shell environment, written as statements of the target shell.

use std::borrow::Cow;
use vstd::prelude::*;
use vstd::string::{StringExecFns, StringSliceAdditionalSpecFns};
use vstd::utf8::{decode_utf8, encode_utf8, encode_utf8_valid_utf8, is_char_boundary, valid_utf8};
use crate::text::{
    ByteClass, lemma_boundary_after_run, lemma_boundary_at, lemma_boundary_step, lemma_run_end,
    run_end, scan_run, single_quote, single_quoted, str_eq, str_slice,
};

verus! {

/// Names of the variables that belong to the source shell itself and are
/// never replayed, in ascending byte order.
pub const SKIP_VARS: [&'static str; 47] = [
    "BASH",
    "BASHOPTS",
    "BASHPID",
    "BASH_ALIASES",
    "BASH_ARGC",
    "BASH_ARGV",
    "BASH_CMDS",
    "BASH_COMMAND",
    "BASH_EXECUTION_STRING",
    "BASH_LINENO",
    "BASH_LOADABLES_PATH",
    "BASH_REMATCH",
    "BASH_SOURCE",
    "BASH_SUBSHELL",
    "BASH_VERSINFO",
    "BASH_VERSION",
    "COLUMNS",
    "COMP_WORDBREAKS",
    "DIRSTACK",
    "EUID",
    "FUNCNAME",
    "GROUPS",
    "HISTCMD",
    "HISTFILE",
    "HOSTNAME",
    "HOSTTYPE",
    "IFS",
    "LINES",
    "MACHTYPE",
    "MAILCHECK",
    "OLDPWD",
    "OPTERR",
    "OPTIND",
    "OSTYPE",
    "PIPESTATUS",
    "PPID",
    "PS1",
    "PS2",
    "PS4",
    "PWD",
    "RANDOM",
    "SECONDS",
    "SHELL",
    "SHELLOPTS",
    "SHLVL",
    "UID",
    "_",
];

/// The name is on the list of variables that are never replayed.
pub open spec fn is_skip_name(name: Seq<char>) -> bool {
    exists|i: int| 0 <= i < 47 && (#[trigger] SKIP_VARS[i])@ == name
}

/// Whether a variable is left out when the environment is replayed.
pub fn should_skip_var(name: &str) -> (r: bool)
    ensures
        r == is_skip_name(name@),
{
    let mut i: usize = 0;
    while i < 47
        invariant
            i <= 47,
            forall|j: int| 0 <= j < i ==> (#[trigger] SKIP_VARS[j])@ != name@,
        decreases 47 - i,
    {
        if str_eq(SKIP_VARS[i], name) {
            return true;
        }
        i += 1;
    }
    false
}

/// Bytes that the target shell reads as themselves: letters, digits and
/// `/ . - _ : ~ + ,`.
pub open spec fn is_plain(b: u8) -> bool {
    (0x30 <= b <= 0x39) || (0x41 <= b <= 0x5a) || (0x61 <= b <= 0x7a) || b == 0x2f || b == 0x2e
        || b == 0x2d || b == 0x5f || b == 0x3a || b == 0x7e || b == 0x2b || b == 0x2c
}

/// No byte of the text needs quoting.
pub open spec fn all_plain(bytes: Seq<u8>) -> bool {
    forall|i: int| 0 <= i < bytes.len() ==> is_plain(#[trigger] bytes[i])
}

/// A value as it is written in a statement of the target shell: as it
/// stands where every byte is plain, in single quotes otherwise.
pub open spec fn escaped(value: Seq<char>) -> Seq<char> {
    if all_plain(encode_utf8(value)) {
        value
    } else {
        single_quoted(value)
    }
}

/// Escapes a text for use in a statement of the target shell. A text of
/// plain bytes is handed back as it is, without a copy.
pub fn shell_escape(s: &str) -> (r: Cow<'_, str>)
    ensures
        r@ == escaped(s@),
        all_plain(s.spec_bytes()) <==> r is Borrowed,
{
    let bytes = s.as_bytes();
    let mut i: usize = 0;
    while i < bytes.len()
        invariant
            i <= bytes@.len(),
            bytes@ == s.spec_bytes(),
            forall|j: int| 0 <= j < i ==> is_plain(#[trigger] bytes@[j]),
        decreases bytes@.len() - i,
    {
        let b = bytes[i];
        let plain = (0x30 <= b && b <= 0x39) || (0x41 <= b && b <= 0x5a) || (0x61 <= b && b
            <= 0x7a) || b == 0x2f || b == 0x2e || b == 0x2d || b == 0x5f || b == 0x3a || b == 0x7e
            || b == 0x2b || b == 0x2c;
        if !plain {
            return Cow::Owned(single_quote(s));
        }
        i += 1;
    }
    Cow::Borrowed(s)
}

// ----- variables -----

/// The variables of an environment as a list of name and value.
pub type Entries = Seq<(Seq<char>, Seq<char>)>;

/// Some entry of the list has the name `key`.
pub open spec fn has_key(entries: Entries, key: Seq<char>) -> bool {
    exists|i: int| 0 <= i < entries.len() && (#[trigger] entries[i]).0 == key
}

/// Index of an entry named `key`.
pub open spec fn key_index(entries: Entries, key: Seq<char>) -> int {
    choose|i: int| 0 <= i < entries.len() && (#[trigger] entries[i]).0 == key
}

/// The value that the list gives to `key`, if any.
pub open spec fn value_of(entries: Entries, key: Seq<char>) -> Option<Seq<char>> {
    if has_key(entries, key) {
        Some(entries[key_index(entries, key)].1)
    } else {
        None
    }
}

/// No name occurs twice.
pub open spec fn distinct_keys(entries: Entries) -> bool {
    forall|i: int, j: int|
        0 <= i < j < entries.len() ==> (#[trigger] entries[i]).0 != (#[trigger] entries[j]).0
}

/// The list after `key` has been given `value`: in place where the name
/// was there, at the end where it was not.
pub open spec fn upsert(entries: Entries, key: Seq<char>, value: Seq<char>) -> Entries {
    if has_key(entries, key) {
        entries.update(key_index(entries, key), (key, value))
    } else {
        entries.push((key, value))
    }
}

/// The named variables of an environment. Each name occurs once; the
/// variables keep the order in which they were first inserted.
#[derive(Debug)]
pub struct EnvVars {
    entries: Vec<(String, String)>,
}

impl View for EnvVars {
    type V = Entries;

    closed spec fn view(&self) -> Entries {
        Seq::new(self.entries@.len(), |i: int| (self.entries@[i].0@, self.entries@[i].1@))
    }
}

impl EnvVars {
    #[verifier::type_invariant]
    spec fn inv(self) -> bool {
        distinct_keys(self@)
    }

    pub fn new() -> (vars: Self)
        ensures
            vars@ == Entries::empty(),
    {
        let vars = EnvVars { entries: Vec::new() };
        assert(vars@ =~= Entries::empty());
        vars
    }

    pub fn len(&self) -> (n: usize)
        ensures
            n == self@.len(),
            distinct_keys(self@),
    {
        proof {
            use_type_invariant(self);
        }
        self.entries.len()
    }

    pub fn is_empty(&self) -> (r: bool)
        ensures
            r == (self@.len() == 0),
    {
        self.entries.len() == 0
    }

    /// Index of the entry named `key`.
    fn find(&self, key: &str) -> (r: Option<usize>)
        ensures
            distinct_keys(self@),
            r is Some == has_key(self@, key@),
            r matches Some(i) ==> i < self.entries@.len() && i == key_index(self@, key@)
                && self.entries@[i as int].0@ == key@,
    {
        proof {
            use_type_invariant(self);
        }
        let mut i: usize = 0;
        while i < self.entries.len()
            invariant
                i <= self.entries@.len(),
                distinct_keys(self@),
                forall|j: int| 0 <= j < i ==> (#[trigger] self@[j]).0 != key@,
            decreases self.entries@.len() - i,
        {
            if str_eq(self.entries[i].0.as_str(), key) {
                assert(self@[i as int].0 == key@);
                return Some(i);
            }
            i += 1;
        }
        None
    }

    pub fn contains_key(&self, key: &str) -> (r: bool)
        ensures
            r == has_key(self@, key@),
    {
        self.find(key).is_some()
    }

    /// The value of the variable `key`, if it is set.
    pub fn get(&self, key: &str) -> (r: Option<&String>)
        ensures
            match r {
                Some(v) => value_of(self@, key@) == Some(v@),
                None => value_of(self@, key@) is None,
            },
    {
        match self.find(key) {
            Some(i) => Some(&self.entries[i].1),
            None => None,
        }
    }

    /// Sets the variable `key` to `value`, whether or not it was set.
    pub fn insert(&mut self, key: String, value: String)
        ensures
            final(self)@ == upsert(old(self)@, key@, value@),
    {
        proof {
            use_type_invariant(&*self);
        }
        let found = self.find(key.as_str());
        let mut entries: Vec<(String, String)> = Vec::new();
        assert(distinct_keys(Seq::new(0, |i: int| (entries@[i].0@, entries@[i].1@))));
        std::mem::swap(&mut self.entries, &mut entries);
        match found {
            Some(i) => {
                entries.set(i, (key, value));
            },
            None => {
                entries.push((key, value));
            },
        }
        let ghost after = Seq::new(entries@.len(), |i: int| (entries@[i].0@, entries@[i].1@));
        assert(after =~= upsert(old(self)@, key@, value@));
        self.entries = entries;
    }
}

/// The variables and the working directory of a shell at one moment.
#[derive(Debug)]
pub struct EnvSnapshot {
    pub vars: EnvVars,
    pub cwd: String,
}

// ----- the difference between two snapshots -----

/// The bytes of a name end in `PATH`.
pub open spec fn ends_in_path(name: Seq<u8>) -> bool {
    name.len() >= 4 && name.subrange(name.len() - 4, name.len() as int) == seq![
        0x50u8,
        0x41u8,
        0x54u8,
        0x48u8,
    ]
}

/// The variable holds a colon-separated list of paths.
pub open spec fn is_path_list(key: Seq<char>, value: Seq<char>) -> bool {
    ends_in_path(encode_utf8(key)) && value.contains(':')
}

/// The statement that sets and exports a variable.
pub open spec fn set_command(key: Seq<char>, value: Seq<char>) -> Seq<char> {
    "set -gx "@ + key + seq![' '] + if is_path_list(key, value) {
        spaced(value)
    } else {
        escaped(value)
    }
}

/// The statement that removes a variable.
pub open spec fn unset_command(key: Seq<char>) -> Seq<char> {
    "set -e "@ + key
}

/// The statement that changes the working directory.
pub open spec fn cd_command(cwd: Seq<char>) -> Seq<char> {
    "cd "@ + escaped(cwd)
}

/// One statement for each variable of `after` that is replayed and that
/// `before` does not hold with the same value, in the order of `after`.
pub open spec fn set_commands(before: Entries, after: Entries) -> Seq<Seq<char>>
    decreases after.len(),
{
    if after.len() == 0 {
        Seq::empty()
    } else {
        let rest = set_commands(before, after.drop_last());
        let (key, value) = after.last();
        if !is_skip_name(key) && value_of(before, key) != Some(value) {
            rest.push(set_command(key, value))
        } else {
            rest
        }
    }
}

/// One statement for each variable of `before` that is replayed and that
/// `after` no longer holds, in the order of `before`.
pub open spec fn unset_commands(before: Entries, after: Entries) -> Seq<Seq<char>>
    decreases before.len(),
{
    if before.len() == 0 {
        Seq::empty()
    } else {
        let rest = unset_commands(before.drop_last(), after);
        let (key, _) = before.last();
        if !is_skip_name(key) && !has_key(after, key) {
            rest.push(unset_command(key))
        } else {
            rest
        }
    }
}

/// The statements that turn the environment `before` into `after`: the
/// variables that are new or changed, those that are gone, and the working
/// directory if `after` names one and it differs.
pub open spec fn diff_commands(
    before: Entries,
    before_cwd: Seq<char>,
    after: Entries,
    after_cwd: Seq<char>,
) -> Seq<Seq<char>> {
    set_commands(before, after) + unset_commands(before, after) + if after_cwd.len() > 0
        && before_cwd != after_cwd {
        seq![cd_command(after_cwd)]
    } else {
        Seq::empty()
    }
}

/// Whether the text holds a colon.
fn has_colon(value: &str) -> (r: bool)
    ensures
        r == value@.contains(':'),
{
    broadcast use vstd::string::group_string_axioms;

    let mut found = false;
    for c in it: value.chars()
        invariant
            it.seq() == value@,
            found == value@.take(it.index() as int).contains(':'),
    {
        let ghost before = value@.take(it.index() as int);
        assert(value@.take(it.index() + 1) == before.push(c));
        proof {
            if before.contains(':') {
                let k = choose|k: int| 0 <= k < before.len() && before[k] == ':';
                assert(before.push(c)[k] == ':');
            }
            if c == ':' {
                assert(before.push(c)[before.len() as int] == ':');
            }
        }
        if c == ':' {
            found = true;
        }
    }
    assert(value@.take(value@.len() as int) == value@);
    found
}

/// Whether the name ends in `PATH`.
fn name_ends_in_path(key: &str) -> (r: bool)
    ensures
        r == ends_in_path(encode_utf8(key@)),
{
    let bytes = key.as_bytes();
    let n = bytes.len();
    if n < 4 {
        return false;
    }
    let r = bytes[n - 4] == 0x50 && bytes[n - 3] == 0x41 && bytes[n - 2] == 0x54 && bytes[n - 1]
        == 0x48;
    proof {
        let tail = bytes@.subrange(n - 4, n as int);
        let path = seq![0x50u8, 0x41u8, 0x54u8, 0x48u8];
        assert(tail[0] == bytes@[n - 4] && tail[1] == bytes@[n - 3] && tail[2] == bytes@[n - 2]
            && tail[3] == bytes@[n - 1]);
        if r {
            assert(tail =~= path);
        }
    }
    r
}

/// Appends the text of an escaped value.
fn push_escaped(out: &mut String, value: &str)
    ensures
        final(out)@ == old(out)@ + escaped(value@),
{
    match shell_escape(value) {
        Cow::Borrowed(plain) => out.append(plain),
        Cow::Owned(quoted) => out.append(quoted.as_str()),
    }
}

/// Index of the first colon of the text; its length where it has none.
pub open spec fn colon_index(value: Seq<char>) -> int
    decreases value.len(),
{
    if value.len() == 0 || value[0] == ':' {
        0
    } else {
        1 + colon_index(value.drop_first())
    }
}

/// A colon-separated list as the target shell writes lists: each part
/// between two colons written as a value of its own, quoted where it needs
/// it, with one blank between two parts.
pub open spec fn spaced(value: Seq<char>) -> Seq<char>
    decreases value.len(),
{
    let k = colon_index(value);
    if 0 <= k < value.len() {
        escaped(value.take(k)) + seq![' '] + spaced(value.skip(k + 1))
    } else {
        escaped(value)
    }
}

/// Behind a text without a colon the first colon is that of what follows.
proof fn lemma_colon_index(part: Seq<char>, rest: Seq<char>)
    requires
        forall|i: int| 0 <= i < part.len() ==> part[i] != ':',
    ensures
        colon_index(part + rest) == part.len() + colon_index(rest),
        0 <= colon_index(rest) <= rest.len(),
    decreases part.len() + rest.len(),
{
    if part.len() == 0 {
        assert(part + rest =~= rest);
        if rest.len() > 0 && rest[0] != ':' {
            lemma_colon_index(part, rest.drop_first());
        }
    } else {
        assert((part + rest).drop_first() =~= part.drop_first() + rest);
        lemma_colon_index(part.drop_first(), rest);
    }
}

/// Writes the parts of a colon-separated value, each escaped, with blanks
/// between them.
pub fn push_spaced(out: &mut String, value: &str)
    ensures
        final(out)@ == old(out)@ + spaced(value@),
{
    broadcast use vstd::string::group_string_axioms;

    let mut part = String::new();
    assert(part@ + value@.skip(0) =~= value@);
    for c in it: value.chars()
        invariant
            it.seq() == value@,
            forall|i: int| 0 <= i < part@.len() ==> part@[i] != ':',
            old(out)@ + spaced(value@) == out@ + spaced(part@ + value@.skip(it.index() as int)),
    {
        let ghost i = it.index() as int;
        let ghost whole = part@ + value@.skip(i);
        if c == ':' {
            proof {
                lemma_colon_index(part@, value@.skip(i));
                assert(whole.take(part@.len() as int) =~= part@);
                assert(whole.skip(part@.len() as int + 1) =~= value@.skip(i + 1));
                assert(Seq::<char>::empty() + value@.skip(i + 1) =~= value@.skip(i + 1));
            }
            let ghost before = out@;
            push_escaped(out, part.as_str());
            out.push(' ');
            assert(out@ =~= before + (escaped(part@) + seq![' ']));
            part = String::new();
            assert(out@ + spaced(value@.skip(i + 1)) =~= before + spaced(whole));
        } else {
            part.push(c);
            assert(part@ + value@.skip(i + 1) =~= whole);
        }
    }
    proof {
        assert(part@ + value@.skip(value@.len() as int) =~= part@);
        lemma_colon_index(part@, Seq::empty());
        assert(part@ + Seq::<char>::empty() =~= part@);
    }
    let ghost before = out@;
    push_escaped(out, part.as_str());
    assert(out@ =~= old(out)@ + spaced(value@));
}

impl EnvSnapshot {
    /// The statements of the target shell that replay what changed from
    /// this snapshot to `after`.
    pub fn diff(&self, after: &EnvSnapshot) -> (commands: Vec<String>)
        ensures
            commands.deep_view() == diff_commands(self.vars@, self.cwd@, after.vars@, after.cwd@),
    {
        let mut commands: Vec<String> = Vec::new();
        assert(commands.deep_view() =~= Seq::empty());
        let n = after.vars.len();
        let mut i: usize = 0;
        while i < n
            invariant
                i <= n,
                n == after.vars@.len(),
                n == after.vars.entries@.len(),
                commands.deep_view() == set_commands(self.vars@, after.vars@.take(i as int)),
            decreases n - i,
        {
            let key = after.vars.entries[i].0.as_str();
            let new_val = after.vars.entries[i].1.as_str();
            assert(after.vars@.take(i + 1).drop_last() == after.vars@.take(i as int));
            assert(after.vars@.take(i + 1).last() == (key@, new_val@));
            if !should_skip_var(key) {
                let changed = match self.vars.get(key) {
                    Some(old_val) => !str_eq(old_val.as_str(), new_val),
                    None => true,
                };
                if changed {
                    let mut cmd = String::new();
                    cmd.append("set -gx ");
                    cmd.append(key);
                    cmd.push(' ');
                    if name_ends_in_path(key) && has_colon(new_val) {
                        push_spaced(&mut cmd, new_val);
                    } else {
                        push_escaped(&mut cmd, new_val);
                    }
                    assert(cmd@ =~= set_command(key@, new_val@));
                    let ghost before = commands.deep_view();
                    commands.push(cmd);
                    assert(commands.deep_view() =~= before.push(cmd@));
                }
            }
            i += 1;
        }
        assert(after.vars@.take(n as int) == after.vars@);
        let ghost sets = commands.deep_view();

        let m = self.vars.len();
        let mut j: usize = 0;
        while j < m
            invariant
                j <= m,
                m == self.vars@.len(),
                m == self.vars.entries@.len(),
                commands.deep_view() == sets + unset_commands(
                    self.vars@.take(j as int),
                    after.vars@,
                ),
            decreases m - j,
        {
            let key = self.vars.entries[j].0.as_str();
            assert(self.vars@.take(j + 1).drop_last() == self.vars@.take(j as int));
            assert(self.vars@.take(j + 1).last().0 == key@);
            if !should_skip_var(key) && !after.vars.contains_key(key) {
                let mut cmd = String::new();
                cmd.append("set -e ");
                cmd.append(key);
                let ghost before = commands.deep_view();
                commands.push(cmd);
                assert(commands.deep_view() =~= before.push(cmd@));
            }
            j += 1;
        }
        assert(self.vars@.take(m as int) == self.vars@);

        if !after.cwd.as_str().is_empty() && !str_eq(self.cwd.as_str(), after.cwd.as_str()) {
            let mut cmd = String::new();
            cmd.append("cd ");
            push_escaped(&mut cmd, after.cwd.as_str());
            let ghost before = commands.deep_view();
            commands.push(cmd);
            assert(commands.deep_view() =~= before.push(cmd@));
        }
        commands
    }
}

// ----- reading a dumped environment -----

/// The variables of the NUL-separated entries of `bytes` from index `from`
/// on, added to `acc` one after the other. An entry may begin with
/// newlines, which are dropped. It counts where a name of letters, digits
/// and `_` is followed by `=`; the value is all that follows, up to the NUL.
pub open spec fn env_entries(bytes: Seq<u8>, from: int, acc: Entries) -> Entries
    decreases bytes.len() - from,
{
    if 0 <= from <= bytes.len() {
        let end = run_end(bytes, from, ByteClass::NotNul);
        let start = run_end(bytes, from, ByteClass::Newline);
        let key_end = run_end(bytes, start, ByteClass::NameChar);
        let next = if start < key_end < end && bytes[key_end] == 0x3d {
            upsert(
                acc,
                decode_utf8(bytes.subrange(start, key_end)),
                decode_utf8(bytes.subrange(key_end + 1, end)),
            )
        } else {
            acc
        };
        if from <= end < bytes.len() {
            env_entries(bytes, end + 1, next)
        } else {
            next
        }
    } else {
        acc
    }
}

/// Reads the variables of an environment dumped as `NAME=value` entries,
/// each ended by a NUL byte. Of two entries with one name the later wins.
pub fn parse_null_separated_env(data: &str) -> (vars: EnvVars)
    ensures
        vars@ == env_entries(data.spec_bytes(), 0, Entries::empty()),
{
    broadcast use encode_utf8_valid_utf8;

    let bytes = data.as_bytes();
    let mut vars = EnvVars::new();
    let mut from: usize = 0;
    proof {
        lemma_boundary_at(bytes@, 0);
    }
    loop
        invariant_except_break
            from <= bytes@.len(),
            is_char_boundary(bytes@, from as int),
            env_entries(bytes@, 0, Entries::empty()) == env_entries(bytes@, from as int, vars@),
        invariant
            bytes@ == data.spec_bytes(),
            valid_utf8(bytes@),
        ensures
            vars@ == env_entries(bytes@, 0, Entries::empty()),
        decreases bytes@.len() - from,
    {
        let end = scan_run(bytes, from, ByteClass::NotNul);
        let start = scan_run(bytes, from, ByteClass::Newline);
        let key_end = scan_run(bytes, start, ByteClass::NameChar);
        proof {
            lemma_run_end(bytes@, from as int, ByteClass::NotNul);
            lemma_run_end(bytes@, from as int, ByteClass::Newline);
            lemma_run_end(bytes@, start as int, ByteClass::NameChar);
            lemma_boundary_after_run(bytes@, from as int, ByteClass::Newline);
            lemma_boundary_after_run(bytes@, start as int, ByteClass::NameChar);
            lemma_boundary_at(bytes@, end as int);
        }
        if start < key_end && key_end < end && bytes[key_end] == 0x3d {
            proof {
                lemma_boundary_step(bytes@, key_end as int);
            }
            let key = str_slice(data, start, key_end).to_owned();
            let value = str_slice(data, key_end + 1, end).to_owned();
            vars.insert(key, value);
        }
        if end < bytes.len() {
            proof {
                lemma_boundary_step(bytes@, end as int);
            }
            from = end + 1;
        } else {
            break;
        }
    }
    vars
}

/// The listed variables that are replayed, added to `acc` in their order.
pub open spec fn captured(pairs: Entries, acc: Entries) -> Entries
    decreases pairs.len(),
{
    if pairs.len() == 0 {
        acc
    } else {
        let (key, value) = pairs[0];
        captured(
            pairs.drop_first(),
            if is_skip_name(key) {
                acc
            } else {
                upsert(acc, key, value)
            },
        )
    }
}

/// The names and values of a list of pairs of texts.
pub open spec fn pairs_view(pairs: Seq<(String, String)>) -> Entries {
    Seq::new(pairs.len(), |i: int| (pairs[i].0@, pairs[i].1@))
}

impl EnvSnapshot {
    /// The snapshot of an environment with the variables `pairs` and the
    /// working directory `cwd`. Variables of the source shell itself are
    /// left out.
    pub fn capture(pairs: Vec<(String, String)>, cwd: String) -> (snap: EnvSnapshot)
        ensures
            snap.vars@ == captured(pairs_view(pairs@), Entries::empty()),
            snap.cwd@ == cwd@,
    {
        let mut vars = EnvVars::new();
        let mut i: usize = 0;
        let ghost all = pairs_view(pairs@);
        assert(all.skip(0) == all);
        while i < pairs.len()
            invariant
                i <= pairs@.len(),
                all == pairs_view(pairs@),
                captured(all, Entries::empty()) == captured(all.skip(i as int), vars@),
            decreases pairs@.len() - i,
        {
            assert(all.skip(i as int).drop_first() == all.skip(i + 1));
            if !should_skip_var(pairs[i].0.as_str()) {
                vars.insert(pairs[i].0.clone(), pairs[i].1.clone());
            }
            i += 1;
        }
        EnvSnapshot { vars, cwd }
    }
}

} // verus!
