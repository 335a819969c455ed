use reef::env_diff::{EnvSnapshot, EnvVars};
use reef::passthrough::{
    build_script, env_diff_status, env_update, env_update_from_bytes, exit_status, join_lines, replay_script,
    shell_escape_for_bash, split_output, CWD_MARKER, ENV_MARKER,
};

#[test]
fn passthrough_shell_escape_simple() {
    assert_eq!(shell_escape_for_bash("echo hello"), "'echo hello'");
}

#[test]
fn shell_escape_with_quotes() {
    assert_eq!(shell_escape_for_bash("echo 'it'\"s\""), "'echo '\\''it'\\''\"s\"'");
}

// ----- more of the same kind -----

#[test]
fn escaping_for_eval_always_quotes() {
    assert_eq!(shell_escape_for_bash(""), "''");
    assert_eq!(shell_escape_for_bash("plain"), "'plain'");
    assert_eq!(shell_escape_for_bash("'"), "''\\'''");
}

#[test]
fn script_text() {
    assert_eq!(
        build_script("'true'", " >&2", true),
        "eval 'true' >&2\n__reef_exit=$?\necho '__REEF_ENV_MARKER_5f3a__'\nenv -0\necho '__REEF_CWD_MARKER_5f3a__'\npwd\nexit $__reef_exit"
    );
    assert_eq!(
        build_script("'x'", " >/dev/null 2>&1", false),
        "eval 'x' >/dev/null 2>&1\necho '__REEF_ENV_MARKER_5f3a__'\nenv -0\necho '__REEF_CWD_MARKER_5f3a__'\npwd"
    );
}

#[test]
fn output_is_split_at_the_markers() {
    let out = format!("noise{}\nA=1\0B=2\0{}\n/tmp\n", ENV_MARKER, CWD_MARKER);
    let (env, cwd) = split_output(&out).unwrap();
    assert_eq!(env, "\nA=1\0B=2\0");
    assert_eq!(cwd, "\n/tmp\n");
    assert!(split_output("no markers").is_none());
    assert!(split_output(ENV_MARKER).is_none());
    assert!(split_output(CWD_MARKER).is_none());
    let reversed = format!("{}{}", CWD_MARKER, ENV_MARKER);
    assert!(split_output(&reversed).is_none());
    let adjacent = format!("{}{}", ENV_MARKER, CWD_MARKER);
    assert_eq!(split_output(&adjacent).unwrap(), ("", ""));
}

#[test]
fn update_replays_the_reported_environment() {
    let mut vars = EnvVars::new();
    vars.insert("A".to_string(), "1".to_string());
    vars.insert("OLD".to_string(), "x".to_string());
    let before = EnvSnapshot { vars, cwd: "/home".to_string() };
    let out = format!("{}\nA=2\0NEW=n w\0{}\n/tmp\n", ENV_MARKER, CWD_MARKER);
    assert_eq!(env_update(&before, &out), "set -gx A 2\nset -gx NEW 'n w'\nset -e OLD\ncd /tmp\n");
    assert_eq!(env_update(&before, "nothing"), "");
    let same = format!("{}\nA=1\0OLD=x\0{}\n/home\n", ENV_MARKER, CWD_MARKER);
    assert_eq!(env_update(&before, &same), "");
}

#[test]
fn replay_takes_the_directory_as_given() {
    let before = EnvSnapshot { vars: EnvVars::new(), cwd: "/home".to_string() };
    assert_eq!(replay_script(&before, "", "/tmp"), "cd /tmp\n");
    assert_eq!(replay_script(&before, "", " /tmp "), "cd ' /tmp '\n");
    assert_eq!(replay_script(&before, "X=1\0", "/home"), "set -gx X 1\n");
}

#[test]
fn lines_are_joined_with_newlines() {
    assert_eq!(join_lines(&vec![]), "");
    assert_eq!(join_lines(&vec!["a".to_string(), "b c".to_string()]), "a\nb c\n");
}

#[test]
fn exit_statuses() {
    assert_eq!(exit_status(Some(42)), 42);
    assert_eq!(exit_status(Some(0)), 0);
    assert_eq!(exit_status(None), 1);
    assert_eq!(env_diff_status(true, Some(0)), 0);
    assert_eq!(env_diff_status(true, None), 0);
    assert_eq!(env_diff_status(false, Some(3)), 3);
    assert_eq!(env_diff_status(false, None), 1);
}

#[test]
fn escaping_for_eval_keeps_characters_that_are_not_ascii() {
    assert_eq!(shell_escape_for_bash("é"), "'é'");
    assert_eq!(shell_escape_for_bash("é").chars().count(), 3);
    assert_eq!(shell_escape_for_bash("echo 'ü' 日本"), "'echo '\\''ü'\\'' 日本'");
}

#[test]
fn update_from_bytes_replaces_what_is_no_text() {
    let before = EnvSnapshot { vars: EnvVars::new(), cwd: "/home".to_string() };
    let mut out: Vec<u8> = Vec::new();
    out.extend_from_slice(ENV_MARKER.as_bytes());
    out.extend_from_slice(b"\nA=x\xffy\0B=\xc3\xa9\0");
    out.extend_from_slice(CWD_MARKER.as_bytes());
    out.extend_from_slice(b"\n/home\n");
    assert_eq!(
        env_update_from_bytes(&before, &out),
        "set -gx A 'x\u{fffd}y'\nset -gx B 'é'\n"
    );
    assert_eq!(env_update_from_bytes(&before, b"\xff\xfe"), "");
    let text = format!("{}\nA=1\0{}\n/tmp\n", ENV_MARKER, CWD_MARKER);
    assert_eq!(env_update_from_bytes(&before, text.as_bytes()), env_update(&before, &text));
}

#[test]
fn directory_is_trimmed_of_white_space() {
    let before = EnvSnapshot { vars: EnvVars::new(), cwd: "/home".to_string() };
    let out = format!("{}{}\n \t/my dir\u{a0}\r\n", ENV_MARKER, CWD_MARKER);
    assert_eq!(env_update(&before, &out), "cd '/my dir'\n");
}
