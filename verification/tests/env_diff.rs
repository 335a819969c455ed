use reef::env_diff::{
    parse_null_separated_env, shell_escape, should_skip_var, EnvSnapshot, EnvVars, SKIP_VARS,
};

fn snapshot(vars: &[(&str, &str)], cwd: &str) -> EnvSnapshot {
    let mut v = EnvVars::new();
    for (k, val) in vars {
        v.insert(k.to_string(), val.to_string());
    }
    EnvSnapshot { vars: v, cwd: cwd.to_string() }
}

#[test]
fn skip_vars_sorted() {
    for pair in SKIP_VARS.windows(2) {
        assert!(pair[0] < pair[1], "SKIP_VARS not sorted: {:?} >= {:?}", pair[0], pair[1]);
    }
}

#[test]
fn parse_null_env() {
    let data = "FOO=bar\0BAZ=qux\0MULTI=hello world\0";
    let vars = parse_null_separated_env(data);
    assert_eq!(vars.get("FOO").unwrap(), "bar");
    assert_eq!(vars.get("BAZ").unwrap(), "qux");
    assert_eq!(vars.get("MULTI").unwrap(), "hello world");
}

#[test]
fn diff_new_var() {
    let before = EnvSnapshot { vars: EnvVars::new(), cwd: "/home".to_string() };
    let mut after_vars = EnvVars::new();
    after_vars.insert("NEW_VAR".to_string(), "hello".to_string());
    let after = EnvSnapshot { vars: after_vars, cwd: "/home".to_string() };

    let cmds = before.diff(&after);
    assert!(cmds.iter().any(|c| c.contains("set -gx NEW_VAR")));
}

#[test]
fn diff_removed_var() {
    let mut before_vars = EnvVars::new();
    before_vars.insert("OLD_VAR".to_string(), "gone".to_string());
    let before = EnvSnapshot { vars: before_vars, cwd: "/home".to_string() };
    let after = EnvSnapshot { vars: EnvVars::new(), cwd: "/home".to_string() };

    let cmds = before.diff(&after);
    assert!(cmds.iter().any(|c| c == "set -e OLD_VAR"));
}

#[test]
fn diff_changed_cwd() {
    let before = EnvSnapshot { vars: EnvVars::new(), cwd: "/home".to_string() };
    let after = EnvSnapshot { vars: EnvVars::new(), cwd: "/tmp".to_string() };

    let cmds = before.diff(&after);
    assert!(cmds.iter().any(|c| c.contains("cd /tmp")));
}

#[test]
fn diff_path_split() {
    let before = EnvSnapshot { vars: EnvVars::new(), cwd: "/home".to_string() };
    let mut after_vars = EnvVars::new();
    after_vars.insert("PATH".to_string(), "/usr/bin:/usr/local/bin".to_string());
    let after = EnvSnapshot { vars: after_vars, cwd: "/home".to_string() };

    let cmds = before.diff(&after);
    let path_cmd = cmds.iter().find(|c| c.contains("PATH")).unwrap();
    assert!(path_cmd.contains("/usr/bin /usr/local/bin"));
}

#[test]
fn skip_bash_internal_vars() {
    let before = EnvSnapshot { vars: EnvVars::new(), cwd: "/home".to_string() };
    let mut after_vars = EnvVars::new();
    after_vars.insert("BASH_VERSION".to_string(), "5.2.0".to_string());
    after_vars.insert("REAL_VAR".to_string(), "keep".to_string());
    let after = EnvSnapshot { vars: after_vars, cwd: "/home".to_string() };

    let cmds = before.diff(&after);
    assert!(!cmds.iter().any(|c| c.contains("BASH_VERSION")));
    assert!(cmds.iter().any(|c| c.contains("REAL_VAR")));
}

#[test]
fn env_diff_shell_escape_simple() {
    assert_eq!(shell_escape("/usr/bin"), "/usr/bin");
    assert_eq!(shell_escape("hello"), "hello");
}

#[test]
fn shell_escape_spaces() {
    assert_eq!(shell_escape("hello world"), "'hello world'");
}

#[test]
fn shell_escape_quotes() {
    assert_eq!(shell_escape("it's"), "'it'\\''s'");
}

// ----- more of the same kind -----

#[test]
fn shell_escape_borrows_plain_text() {
    assert!(matches!(shell_escape("a/b.c-d_e:f~g+h,i"), std::borrow::Cow::Borrowed(_)));
    assert!(matches!(shell_escape("a b"), std::borrow::Cow::Owned(_)));
    assert_eq!(shell_escape(""), "");
    assert_eq!(shell_escape("'"), "''\\'''");
    assert_eq!(shell_escape("$HOME"), "'$HOME'");
}

#[test]
fn skip_list_membership() {
    assert!(should_skip_var("BASH"));
    assert!(should_skip_var("_"));
    assert!(should_skip_var("PWD"));
    assert!(should_skip_var("SHLVL"));
    assert!(!should_skip_var("PATH"));
    assert!(!should_skip_var("BASH_"));
    assert!(!should_skip_var(""));
    assert!(!should_skip_var("bash"));
    assert_eq!(SKIP_VARS.len(), 47);
    for name in SKIP_VARS {
        assert!(should_skip_var(name));
    }
}

#[test]
fn variables_keep_one_value_for_a_name() {
    let mut v = EnvVars::new();
    assert!(v.is_empty());
    v.insert("A".to_string(), "1".to_string());
    v.insert("B".to_string(), "2".to_string());
    v.insert("A".to_string(), "3".to_string());
    assert_eq!(v.len(), 2);
    assert_eq!(v.get("A").unwrap(), "3");
    assert_eq!(v.get("B").unwrap(), "2");
    assert!(v.get("C").is_none());
    assert!(v.contains_key("A"));
    assert!(!v.contains_key("C"));
    assert!(!v.is_empty());
}

#[test]
fn diff_is_exact_and_ordered() {
    let before = snapshot(&[("KEEP", "same"), ("GONE", "x"), ("CHANGED", "old"), ("SHLVL", "1")], "/a");
    let after = snapshot(
        &[
            ("CHANGED", "new value"),
            ("KEEP", "same"),
            ("NEW", "it's"),
            ("MANPATH", "/a:/b c:/d"),
            ("XPATH", "single"),
            ("SHLVL", "2"),
        ],
        "/b c",
    );
    assert_eq!(
        before.diff(&after),
        vec![
            "set -gx CHANGED 'new value'",
            "set -gx NEW 'it'\\''s'",
            "set -gx MANPATH /a '/b c' /d",
            "set -gx XPATH single",
            "set -e GONE",
            "cd '/b c'",
        ]
    );
}

#[test]
fn diff_of_equal_snapshots_is_empty() {
    let a = snapshot(&[("A", "1")], "/x");
    let b = snapshot(&[("A", "1")], "/x");
    assert!(a.diff(&b).is_empty());
    let no_cwd = snapshot(&[("A", "1")], "");
    assert!(a.diff(&no_cwd).is_empty());
}

#[test]
fn dumped_environment_entries() {
    let vars = parse_null_separated_env("A=1\0\nB=two=2\0bad-name=x\0=empty\0NOEQ\0\0C=\0A=last");
    assert_eq!(vars.len(), 3);
    assert_eq!(vars.get("A").unwrap(), "last");
    assert_eq!(vars.get("B").unwrap(), "two=2");
    assert_eq!(vars.get("C").unwrap(), "");
    assert!(vars.get("bad-name").is_none());
    assert!(parse_null_separated_env("").is_empty());
    let vars = parse_null_separated_env("9LIVES=c\0K=é\nü\0");
    assert_eq!(vars.get("9LIVES").unwrap(), "c");
    assert_eq!(vars.get("K").unwrap(), "é\nü");
}

#[test]
fn capture_leaves_out_the_shell_own_variables() {
    let snap = EnvSnapshot::capture(
        vec![
            ("HOME".to_string(), "/root".to_string()),
            ("BASH_VERSION".to_string(), "5".to_string()),
            ("PWD".to_string(), "/x".to_string()),
            ("EDITOR".to_string(), "vi".to_string()),
        ],
        "/x".to_string(),
    );
    assert_eq!(snap.vars.len(), 2);
    assert_eq!(snap.vars.get("HOME").unwrap(), "/root");
    assert_eq!(snap.vars.get("EDITOR").unwrap(), "vi");
    assert_eq!(snap.cwd, "/x");
}

#[test]
fn path_elements_are_quoted_one_by_one() {
    let before = snapshot(&[], "/home");
    let after = snapshot(&[("PATH", "/my dir:/usr/bin")], "/home");
    assert_eq!(before.diff(&after), vec!["set -gx PATH '/my dir' /usr/bin"]);
    let after = snapshot(&[("PATH", "/a::it's:/b:")], "/home");
    assert_eq!(before.diff(&after), vec!["set -gx PATH /a  'it'\\''s' /b "]);
    let after = snapshot(&[("PATH", "/only one")], "/home");
    assert_eq!(before.diff(&after), vec!["set -gx PATH '/only one'"]);
    let after = snapshot(&[("NOT_A_LIST", "/a b:/c")], "/home");
    assert_eq!(before.diff(&after), vec!["set -gx NOT_A_LIST '/a b:/c'"]);
    let after = snapshot(&[("LIBPATH", "/é x:/ü")], "/home");
    assert_eq!(before.diff(&after), vec!["set -gx LIBPATH '/é x' '/ü'"]);
}

#[test]
fn shell_escape_keeps_characters_that_are_not_ascii() {
    assert_eq!(shell_escape("é x"), "'é x'");
    assert_eq!(shell_escape("é x").chars().count(), 5);
    assert_eq!(shell_escape("日本語"), "'日本語'");
    assert_eq!(shell_escape("l'été"), "'l'\\''été'");
    assert_eq!(shell_escape("ü"), "'ü'");
}
