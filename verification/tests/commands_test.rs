use jj_cmd::commands::{
    display_text, exit_code, filtered_output, has_limit_arg, jj_args, passthrough_args,
    raw_output, stderr_note, JjCommand, JjError,
};

fn strings(v: &[&str]) -> Vec<String> {
    v.iter().map(|s| s.to_string()).collect()
}

#[test]
fn args_for_status_diff_show() {
    let user = strings(&["-r", "@-"]);
    assert_eq!(jj_args(JjCommand::Status, &user), strings(&["status", "--no-pager", "-r", "@-"]));
    assert_eq!(
        jj_args(JjCommand::Diff, &user),
        strings(&["diff", "--no-pager", "--git", "-r", "@-"])
    );
    assert_eq!(
        jj_args(JjCommand::Show, &user),
        strings(&["show", "--no-pager", "--git", "-r", "@-"])
    );
}

#[test]
fn log_gets_default_limit() {
    assert_eq!(jj_args(JjCommand::Log, &vec![]), strings(&["log", "--no-pager", "--limit", "10"]));
    assert_eq!(
        jj_args(JjCommand::Log, &strings(&["--limits"])),
        strings(&["log", "--no-pager", "--limit", "10", "--limits"])
    );
}

#[test]
fn log_keeps_user_limit() {
    for a in ["-n", "--limit", "--limit=3"] {
        let user = strings(&["-r", "::", a]);
        let mut want = strings(&["log", "--no-pager"]);
        want.extend(user.iter().cloned());
        assert_eq!(jj_args(JjCommand::Log, &user), want);
        assert!(has_limit_arg(&user));
    }
    assert!(!has_limit_arg(&strings(&["-N", "limit", "--limi"])));
}

#[test]
fn passthrough_needs_subcommand() {
    assert_eq!(passthrough_args(&vec![]), Err(JjError::NoSubcommand));
    assert_eq!(JjError::NoSubcommand.message(), "jj: no subcommand specified");
    assert_eq!(
        passthrough_args(&strings(&["git", "push"])),
        Ok(strings(&["--no-pager", "git", "push"]))
    );
}

#[test]
fn exit_codes() {
    assert_eq!(exit_code(Some(3), false), 3);
    assert_eq!(exit_code(Some(0), true), 0);
    assert_eq!(exit_code(None, true), 0);
    assert_eq!(exit_code(None, false), 1);
}

#[test]
fn raw_and_display_text() {
    assert_eq!(raw_output("out", "err"), "out\nerr");
    assert_eq!(raw_output("", ""), "\n");
    assert_eq!(display_text("shown", Some("hint".to_string())), "shown\nhint");
    assert_eq!(display_text("shown", None), "shown");
}

#[test]
fn stderr_notes() {
    assert_eq!(stderr_note("  \n"), None);
    assert_eq!(stderr_note("\n warning: x \n"), Some("warning: x".to_string()));
}

#[test]
fn verbose_output_is_trimmed_raw() {
    let out = "Working copy changes:\nM a\n";
    assert_eq!(filtered_output(JjCommand::Status, out, 1), "Working copy changes:\nM a");
    assert_eq!(filtered_output(JjCommand::Status, out, 0), "M a");
    assert_eq!(filtered_output(JjCommand::Log, "@  x y@z.io\n", 0), "@  x ");
    assert_eq!(filtered_output(JjCommand::Diff, "\n", 0), "No changes in working copy");
    assert_eq!(filtered_output(JjCommand::Show, " a \n", 0), "a");
}
