//! Running a command in the source shell and replaying what it changed: the
//! script handed to that shell, and the reading of what it printed.

use vstd::prelude::*;
use vstd::string::{StringExecFns, StringSliceAdditionalSpecFns};
use vstd::utf8::{decode_utf8, encode_utf8, encode_utf8_valid_utf8, is_char_boundary, valid_utf8};
use crate::env_diff::{diff_commands, Entries, env_entries, EnvSnapshot, parse_null_separated_env};
use crate::text::{
    find_from, first_match, lemma_boundary_after_ascii, lemma_boundary_at, single_quote,
    single_quoted, str_slice,
};

verus! {

/// Printed by the script before the dump of the environment.
pub const ENV_MARKER: &'static str = "__REEF_ENV_MARKER_5f3a__";

/// Printed by the script before the working directory.
pub const CWD_MARKER: &'static str = "__REEF_CWD_MARKER_5f3a__";

/// Writes a command as one single-quoted word, so that the source shell
/// interprets nothing in it before `eval` does.
pub fn shell_escape_for_bash(s: &str) -> (r: String)
    ensures
        r@ == single_quoted(s@),
{
    single_quote(s)
}

/// The script that runs a command and then dumps the environment.
pub open spec fn script(escaped_cmd: Seq<char>, redirect: Seq<char>, track_exit: bool) -> Seq<
    char,
> {
    "eval "@ + escaped_cmd + redirect + "\n"@ + (if track_exit {
        "__reef_exit=$?\n"@
    } else {
        Seq::empty()
    }) + "echo '"@ + ENV_MARKER@ + "'\nenv -0\necho '"@ + CWD_MARKER@ + "'\npwd"@ + (if track_exit {
        "\nexit $__reef_exit"@
    } else {
        Seq::empty()
    })
}

/// Builds the script for the source shell: it evaluates the escaped
/// command with `redirect` behind it, then prints the two markers, each
/// followed by the environment and the working directory. With `track_exit`
/// the script ends with the exit status of the command.
pub fn build_script(escaped_cmd: &str, redirect: &str, track_exit: bool) -> (s: String)
    ensures
        s@ == script(escaped_cmd@, redirect@, track_exit),
{
    let mut s = String::new();
    s.append("eval ");
    s.append(escaped_cmd);
    s.append(redirect);
    s.append("\n");
    if track_exit {
        s.append("__reef_exit=$?\n");
    }
    s.append("echo '");
    s.append(ENV_MARKER);
    s.append("'\nenv -0\necho '");
    s.append(CWD_MARKER);
    s.append("'\npwd");
    if track_exit {
        s.append("\nexit $__reef_exit");
    }
    assert(s@ =~= script(escaped_cmd@, redirect@, track_exit));
    s
}

// ----- reading what the script printed -----

/// The text that `str::trim` hands back for a text: the same without the
/// white space at its two ends.
pub uninterp spec fn trimmed(s: Seq<char>) -> Seq<char>;

/// `str::trim`: removes leading and trailing white space, as Unicode
/// defines it. The result is a function of the text alone, named `trimmed`.
#[verifier::external_body]
fn trim<'a>(s: &'a str) -> (r: &'a str)
    ensures
        r@ == trimmed(s@),
{
    s.trim()
}

/// Where the two sections of the output lie: the dump of the environment
/// from the end of the first environment marker to the first directory
/// marker, and the working directory from the end of that marker on. There
/// are none where a marker is missing or the directory marker comes first.
pub open spec fn sections(out: Seq<u8>) -> Option<(int, int, int)> {
    match (
        first_match(out, ENV_MARKER.spec_bytes(), 0),
        first_match(out, CWD_MARKER.spec_bytes(), 0),
    ) {
        (Some(env_pos), Some(cwd_pos)) => if env_pos + ENV_MARKER.spec_bytes().len() <= cwd_pos {
            Some(
                (
                    env_pos + ENV_MARKER.spec_bytes().len(),
                    cwd_pos,
                    cwd_pos + CWD_MARKER.spec_bytes().len(),
                ),
            )
        } else {
            None
        },
        _ => None,
    }
}

/// The markers are made of one-byte characters.
proof fn lemma_markers_ascii()
    ensures
        ENV_MARKER.spec_bytes().len() == 24,
        CWD_MARKER.spec_bytes().len() == 24,
        forall|i: int| 0 <= i < 24 ==> #[trigger] ENV_MARKER.spec_bytes()[i] < 0x80,
        forall|i: int| 0 <= i < 24 ==> #[trigger] CWD_MARKER.spec_bytes()[i] < 0x80,
{
    broadcast use vstd::string::is_ascii_spec_bytes;

    reveal_strlit("__REEF_ENV_MARKER_5f3a__");
    reveal_strlit("__REEF_CWD_MARKER_5f3a__");
    assert(vstd::string::is_ascii(ENV_MARKER));
    assert(vstd::string::is_ascii(CWD_MARKER));
}

/// A match of a text of one-byte characters begins and ends on character
/// boundaries.
proof fn lemma_match_boundaries(hay: Seq<u8>, needle: Seq<u8>, from: int)
    requires
        vstd::utf8::valid_utf8(hay),
        needle.len() > 0,
        forall|i: int| 0 <= i < needle.len() ==> #[trigger] needle[i] < 0x80,
        first_match(hay, needle, from) is Some,
    ensures
        from <= first_match(hay, needle, from)->0,
        first_match(hay, needle, from)->0 + needle.len() <= hay.len(),
        is_char_boundary(hay, first_match(hay, needle, from)->0),
        is_char_boundary(hay, first_match(hay, needle, from)->0 + needle.len()),
    decreases hay.len() - from,
{
    if crate::text::matches_at(hay, from, needle) {
        assert forall|i: int| from <= i < from + needle.len() implies #[trigger] hay[i] < 0x80 by {
            assert(hay[i] == hay.subrange(from, from + needle.len())[i - from]);
            assert(needle[i - from] < 0x80);
        }
        lemma_boundary_at(hay, from);
        lemma_boundary_after_ascii(hay, from, from + needle.len());
    } else {
        lemma_match_boundaries(hay, needle, from + 1);
    }
}

/// Splits what the script printed into the dump of the environment and
/// the text behind the directory marker.
pub fn split_output<'a>(stdout: &'a str) -> (r: Option<(&'a str, &'a str)>)
    ensures
        match r {
            Some((env, cwd)) => {
                &&& sections(stdout.spec_bytes()) matches Some((env_start, env_end, cwd_start))
                &&& env.spec_bytes() == stdout.spec_bytes().subrange(env_start, env_end)
                &&& cwd@ == decode_utf8(
                    stdout.spec_bytes().subrange(cwd_start, stdout.spec_bytes().len() as int),
                )
            },
            None => sections(stdout.spec_bytes()) is None,
        },
{
    broadcast use encode_utf8_valid_utf8;

    let bytes = stdout.as_bytes();
    let env_pos = find_from(bytes, ENV_MARKER.as_bytes(), 0);
    let cwd_pos = find_from(bytes, CWD_MARKER.as_bytes(), 0);
    match (env_pos, cwd_pos) {
        (Some(env_pos), Some(cwd_pos)) => {
            proof {
                lemma_markers_ascii();
                lemma_match_boundaries(bytes@, ENV_MARKER.spec_bytes(), 0);
                lemma_match_boundaries(bytes@, CWD_MARKER.spec_bytes(), 0);
                lemma_boundary_at(bytes@, bytes@.len() as int);
            }
            let len = bytes.len();
            assert(env_pos + ENV_MARKER.spec_bytes().len() <= len);
            assert(cwd_pos + CWD_MARKER.spec_bytes().len() <= len);
            let env_start = env_pos + ENV_MARKER.len();
            if env_start <= cwd_pos {
                let env = str_slice(stdout, env_start, cwd_pos);
                let cwd = str_slice(stdout, cwd_pos + CWD_MARKER.len(), len);
                Some((env, cwd))
            } else {
                None
            }
        },
        _ => None,
    }
}

/// Statements, each on a line of its own.
pub open spec fn lines(commands: Seq<Seq<char>>) -> Seq<char>
    decreases commands.len(),
{
    if commands.len() == 0 {
        Seq::empty()
    } else {
        lines(commands.drop_last()) + commands.last() + seq!['\n']
    }
}

/// The statements that replay, on top of `before`, the environment dumped
/// in `env_section` with the working directory `cwd`, one to a line.
pub fn replay_script(before: &EnvSnapshot, env_section: &str, cwd: &str) -> (buf: String)
    ensures
        buf@ == lines(
            diff_commands(
                before.vars@,
                before.cwd@,
                env_entries(env_section.spec_bytes(), 0, Entries::empty()),
                cwd@,
            ),
        ),
{
    let after = EnvSnapshot { vars: parse_null_separated_env(env_section), cwd: cwd.to_owned() };
    let commands = before.diff(&after);
    join_lines(&commands)
}

/// Writes each statement on a line of its own.
pub fn join_lines(commands: &Vec<String>) -> (buf: String)
    ensures
        buf@ == lines(commands.deep_view()),
{
    let ghost all = commands.deep_view();
    let mut buf = String::new();
    let mut i: usize = 0;
    while i < commands.len()
        invariant
            i <= commands@.len(),
            all.len() == commands@.len(),
            forall|j: int| 0 <= j < all.len() ==> all[j] == (#[trigger] commands@[j])@,
            buf@ == lines(all.take(i as int)),
        decreases commands@.len() - i,
    {
        assert(all.take(i + 1).drop_last() == all.take(i as int));
        assert(all.take(i + 1).last() == commands@[i as int]@);
        buf.append(commands[i].as_str());
        buf.push('\n');
        i += 1;
    }
    assert(all.take(all.len() as int) == all);
    buf
}

/// The statements, one to a line, that replay on top of the environment
/// `before` what the script reported in the output `out`: nothing where
/// the output does not hold the two markers in their order.
pub open spec fn update_text(before: Entries, before_cwd: Seq<char>, out: Seq<u8>) -> Seq<char> {
    match sections(out) {
        Some((env_start, env_end, cwd_start)) => lines(
            diff_commands(
                before,
                before_cwd,
                env_entries(out.subrange(env_start, env_end), 0, Entries::empty()),
                trimmed(decode_utf8(out.subrange(cwd_start, out.len() as int))),
            ),
        ),
        None => Seq::empty(),
    }
}

/// Reads what the script printed and writes the statements that replay,
/// on top of `before`, the environment it reports. Nothing is written
/// where the output does not hold the two markers in their order.
pub fn env_update(before: &EnvSnapshot, stdout: &str) -> (buf: String)
    ensures
        buf@ == update_text(before.vars@, before.cwd@, stdout.spec_bytes()),
{
    match split_output(stdout) {
        Some((env, cwd)) => replay_script(before, env, trim(cwd)),
        None => String::new(),
    }
}

/// The text that `String::from_utf8_lossy` makes of bytes: the text they
/// encode, with the replacement character in place of what encodes none.
pub uninterp spec fn lossy(bytes: Seq<u8>) -> Seq<char>;

/// `String::from_utf8_lossy`: turns bytes into a text, whatever they are.
/// The result is a function of the bytes alone, named `lossy`; bytes that
/// encode a text give that text.
#[verifier::external_body]
fn lossy_text(raw: &[u8]) -> (text: String)
    ensures
        text@ == lossy(raw@),
        valid_utf8(raw@) ==> text@ == decode_utf8(raw@),
{
    String::from_utf8_lossy(raw).into_owned()
}

/// As `env_update`, from the bytes that the script printed: what is no
/// text in them is replaced first.
pub fn env_update_from_bytes(before: &EnvSnapshot, raw_stdout: &[u8]) -> (buf: String)
    ensures
        buf@ == update_text(before.vars@, before.cwd@, encode_utf8(lossy(raw_stdout@))),
{
    let stdout = lossy_text(raw_stdout);
    env_update(before, stdout.as_str())
}

/// The exit status to report for a command run for its output: its own,
/// or 1 where a signal ended it.
pub fn exit_status(code: Option<i32>) -> (status: i32)
    ensures
        status == match code {
            Some(c) => c,
            None => 1,
        },
{
    match code {
        Some(c) => c,
        None => 1,
    }
}

/// The exit status to report for a script run for its environment: 0 where
/// it succeeded, else its own, or 1 where a signal ended it.
pub fn env_diff_status(success: bool, code: Option<i32>) -> (status: i32)
    ensures
        status == if success {
            0
        } else {
            match code {
                Some(c) => c,
                None => 1,
            }
        },
{
    if success {
        0
    } else {
        exit_status(code)
    }
}

} // verus!
