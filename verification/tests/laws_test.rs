use jj_cmd::commands::{jj_args, JjCommand};
use jj_cmd::diff::compact_diff;
use jj_cmd::text::{chars_of, truncate_chars};
use jj_cmd::filters::{compose_log, filter_jj_log, filter_jj_status, NO_CHANGES};

fn words(s: &str) -> usize {
    s.split_whitespace().count()
}

#[test]
fn status_is_never_empty() {
    for input in ["", "\n\n", "Working copy changes:", "x", "nothing changed", " M a \n"] {
        assert!(!filter_jj_status(input).is_empty(), "{:?}", input);
    }
}

#[test]
fn status_adds_no_words_unless_no_changes() {
    for input in [
        "Working copy changes:\nM a b c\n\nA d\n",
        "M x\r\n  \r\nWorking copy changes:\r\n",
        "one two\tthree\nfour",
    ] {
        let out = filter_jj_status(input);
        assert!(out == NO_CHANGES || words(&out) <= words(input), "{:?}", input);
    }
    // The exception: a short input answered with the longer `NO_CHANGES`.
    assert!(words(&filter_jj_status("no changes")) > words("no changes"));
}

#[test]
fn log_adds_no_lines() {
    let mut input = String::new();
    for i in 0..30 {
        input.push_str(&format!("○  c{}\n│  m\n", i));
    }
    let out = filter_jj_log(&input);
    assert!(out.split('\n').count() <= input.trim().lines().count());
}

#[test]
fn log_keeps_at_most_fifteen_entries() {
    let mut input = String::new();
    for i in 0..40 {
        input.push_str(&format!("@  c{}\n", i));
    }
    let out = filter_jj_log(&input);
    let entries = out.lines().filter(|l| l.starts_with('@')).count();
    assert_eq!(entries, 15);
}

#[test]
fn short_log_is_kept_whole() {
    let lines: Vec<String> =
        vec!["@  a".into(), "│  b".into(), "○  c".into(), "~".into()];
    assert_eq!(compose_log(&lines, &lines), lines.join("\n"));
}

#[test]
fn log_lines_fit_width() {
    let input = format!("@  {}\n│  {}\n", "y".repeat(300), "z".repeat(121));
    for line in filter_jj_log(&input).lines() {
        assert!(line.chars().count() <= 120);
    }
}

#[test]
fn compact_diff_output_is_bounded() {
    let mut input = String::new();
    for f in 0..50 {
        input.push_str(&format!("diff --git a/f{} b/f{}\n@@ -1 +1 @@\n-a\n+b\n", f, f));
    }
    let out = compact_diff(&input, 10);
    // at most 10 + 4 entries; the file and stop entries start with a newline
    assert!(out.split('\n').count() <= 2 * (10 + 4));
    assert!(out.contains("... (more changes truncated)"));
}

#[test]
fn log_is_always_limited() {
    for user in [vec![], vec!["-r".to_string(), "all()".to_string()]] {
        let args = jj_args(JjCommand::Log, &user);
        assert!(args.iter().any(|a| a == "-n" || a == "--limit" || a.starts_with("--limit=")));
    }
}

#[test]
fn user_args_come_last_unchanged() {
    let user = vec!["a b".to_string(), "--limit=2".to_string(), "".to_string()];
    for cmd in [JjCommand::Status, JjCommand::Diff, JjCommand::Log, JjCommand::Show] {
        let args = jj_args(cmd, &user);
        assert_eq!(&args[args.len() - user.len()..], &user[..]);
    }
}

#[test]
fn truncate_fits_and_keeps_short_text() {
    let s = |v: Vec<char>| v.into_iter().collect::<String>();
    assert_eq!(s(truncate_chars(&chars_of("abcdef"), 5)), "ab...");
    assert_eq!(s(truncate_chars(&chars_of("abcdef"), 6)), "abcdef");
    assert_eq!(s(truncate_chars(&chars_of("abcdef"), 2)), "...");
    assert_eq!(s(truncate_chars(&chars_of("ééééé"), 4)), "é...");
}

#[test]
fn status_filter_is_idempotent_on_clean_output() {
    for input in [
        "Working copy changes:\nM a.rs\n\nA b.rs\nWorking copy : x\n",
        "nothing changed",
        "",
        "\tM  x  \n M y\n",
        "M x\r\nA y\r\n",
    ] {
        let once = filter_jj_status(input);
        if !once.contains('\r') && once.trim() == once {
            assert_eq!(filter_jj_status(&once), once, "{:?}", input);
        }
    }
    assert_eq!(filter_jj_status(NO_CHANGES), NO_CHANGES);
}

#[test]
fn hunk_counts_all_added_and_removed_lines() {
    let mut input = String::from("diff --git a/f b/f\n@@ -1,45 +1,40 @@\n");
    for i in 0..40 {
        input.push_str(&format!("+add {}\n", i));
    }
    for i in 0..5 {
        input.push_str(&format!("-del {}\n", i));
    }
    input.push_str("+++ not counted\n--- not counted\n");
    let out = compact_diff(&input, 100);
    assert!(out.ends_with("\n  +40 -5"));
    let shown = out.lines().filter(|l| l.starts_with("  +add") || l.starts_with("  -del")).count();
    assert_eq!(shown, 30);
}

#[test]
fn rest_of_diff_ignored_after_limit() {
    let mut head = String::from("diff --git a/f b/f\n@@ -1,9 +1,9 @@\n");
    for i in 0..9 {
        head.push_str(&format!("+l{}\n", i));
    }
    let longer = format!("{}diff --git a/g b/g\n@@ -1 +1 @@\n-x\n+y\n", head);
    assert_eq!(compact_diff(&head, 4), compact_diff(&longer, 4));
}
