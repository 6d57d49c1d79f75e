use jj_cmd::diff::compact_diff;
use jj_cmd::filters::{
    compose_log, filter_jj_diff, filter_jj_log, filter_jj_show, filter_jj_status, NO_CHANGES,
};

fn count_tokens(text: &str) -> usize {
    text.split_whitespace().count()
}

#[test]
fn test_filter_jj_status_with_changes() {
    let input = r#"Working copy changes:
M src/main.rs
A src/new_file.rs
D src/old_file.rs
Working copy : ksrmwuqz abc12345 (no description set)
Parent commit: zzzzzzzz 00000000 (empty) (no description set)
"#;

    let output = filter_jj_status(input);
    assert!(output.contains("M src/main.rs"));
    assert!(output.contains("A src/new_file.rs"));
    assert!(output.contains("D src/old_file.rs"));
    assert!(output.contains("Working copy"));
    assert!(output.contains("Parent commit"));
    assert!(!output.contains("Working copy changes:"));
}

#[test]
fn test_filter_jj_status_clean() {
    let input = "The working copy is clean (nothing changed)\n";
    let output = filter_jj_status(input);
    assert_eq!(output, NO_CHANGES);
}

#[test]
fn test_filter_jj_status_empty() {
    let output = filter_jj_status("");
    assert_eq!(output, NO_CHANGES);
}

#[test]
fn test_filter_jj_log() {
    let input = r#"@  ksrmwuqz user@email.com 2025-06-15 10:30:00 abc12345
│  fix: resolve argument parsing issue
○  tpstlust other@email.com 2025-06-15 09:00:00 bookmark def67890
│  feat: add new command support
○  rrrnwwmq user@email.com 2025-06-14 18:00:00 ghi12345
│  refactor: clean up filter logic
~
"#;

    let output = filter_jj_log(input);
    assert!(output.contains("ksrmwuqz"));
    assert!(output.contains("fix: resolve argument parsing issue"));
    assert!(output.contains("tpstlust"));
    // Email addresses should be stripped
    assert!(!output.contains("user@email.com"));
    assert!(!output.contains("other@email.com"));
}

#[test]
fn test_filter_jj_log_truncation() {
    let mut input = String::new();
    for i in 0..20 {
        input.push_str(&format!(
            "○  change{:02} user@email.com 2025-01-01 00:00:00 hash{:02}\n│  commit message {}\n",
            i, i, i
        ));
    }
    input.push_str("~\n");

    let output = filter_jj_log(&input);
    assert!(output.contains("... +"));
}

#[test]
fn test_filter_jj_log_token_savings() {
    let input = r#"@  ksrmwuqz user@email.com 2025-06-15 10:30:00 abc12345
│  fix: resolve argument parsing issue with a somewhat long description that goes on
○  tpstlust another.user@example.org 2025-06-15 09:00:00 bookmark def67890
│  feat: add new command support for the Jujutsu version control system
○  rrrnwwmq developer@company.com 2025-06-14 18:00:00 ghi12345
│  refactor: clean up filter logic and remove unnecessary allocations
○  ppqqrrss admin@organization.net 2025-06-14 17:00:00 jkl12345
│  docs: update README with new installation instructions
○  aabbccdd contributor@project.io 2025-06-14 16:00:00 mno12345
│  test: add snapshot tests for all filter modules
~
"#;

    let output = filter_jj_log(input);
    let input_tokens = count_tokens(input);
    let output_tokens = count_tokens(&output);
    assert!(
        output_tokens < input_tokens,
        "jj log filter should reduce tokens: {} -> {}",
        input_tokens,
        output_tokens
    );
}

#[test]
fn test_filter_jj_diff_reuses_compact_diff() {
    let input = r#"diff --git a/src/main.rs b/src/main.rs
index abc1234..def5678 100644
--- a/src/main.rs
+++ b/src/main.rs
@@ -1,5 +1,6 @@
 use std::io;
+use std::fs;

 fn main() {
-    println!("hello");
+    println!("world");
 }
"#;

    let output = compact_diff(input, 100);
    assert!(output.contains("src/main.rs"));
    assert!(output.contains("+use std::fs;"));
}

#[test]
fn test_filter_jj_show_with_diff() {
    let input = r#"Commit ID: abc1234567890
Change ID: def0987654321
Author: Test User <test@example.com>
Date: 2025-06-15 10:30:00

fix: resolve argument parsing issue

diff --git a/src/main.rs b/src/main.rs
index abc1234..def5678 100644
--- a/src/main.rs
+++ b/src/main.rs
@@ -1,5 +1,6 @@
 use std::io;
+use std::fs;

 fn main() {
-    println!("hello");
+    println!("world");
 }
"#;

    let output = filter_jj_show(input);
    assert!(output.contains("Commit ID: abc1234567890"));
    assert!(output.contains("fix: resolve argument parsing issue"));
    // Diff should be compacted
    assert!(output.contains("src/main.rs"));
}

#[test]
fn test_filter_jj_show_no_diff() {
    let input = r#"Commit ID: abc1234567890
Change ID: def0987654321
Author: Test User <test@example.com>
Date: 2025-06-15 10:30:00

(empty) initial commit
"#;

    let output = filter_jj_show(input);
    assert!(output.contains("Commit ID: abc1234567890"));
    assert!(output.contains("initial commit"));
}

#[test]
fn test_filter_jj_show_token_savings() {
    let input = r#"Commit ID: abc1234567890abcdef1234567890abcdef12345678
Change ID: def0987654321fedcba0987654321fedcba09876543
Author: Test User <test@example.com>
Date: 2025-06-15 10:30:00

fix: resolve argument parsing issue

diff --git a/src/main.rs b/src/main.rs
index abc1234..def5678 100644
--- a/src/main.rs
+++ b/src/main.rs
@@ -1,15 +1,16 @@
 use std::io;
+use std::fs;
 use std::env;
 use std::path::Path;

 fn main() {
-    println!("hello");
+    println!("world");
     let x = 1;
     let y = 2;
     let z = x + y;
 }

-fn old_function() {
-    // removed
-}
+fn new_function() {
+    // added
+}
diff --git a/src/lib.rs b/src/lib.rs
index 1111111..2222222 100644
--- a/src/lib.rs
+++ b/src/lib.rs
@@ -1,10 +1,12 @@
 pub mod utils;
+pub mod helpers;

 pub fn run() {
-    old_impl();
+    new_impl();
 }
"#;

    let output = filter_jj_show(input);
    let input_tokens = count_tokens(input);
    let output_tokens = count_tokens(&output);
    let savings = 100.0 - (output_tokens as f64 / input_tokens as f64 * 100.0);
    assert!(
        savings >= 5.0,
        "jj show filter: expected token savings, got {:.1}%",
        savings
    );
}

#[test]
fn test_filter_jj_status_token_savings() {
    let input = r#"Working copy changes:
M src/main.rs
M src/lib.rs
A src/new_file.rs
A src/another_new.rs
D src/old_file.rs
Working copy : ksrmwuqz abc12345 (no description set)
Parent commit: zzzzzzzz 00000000 (empty) (no description set)
"#;

    let output = filter_jj_status(input);
    let input_tokens = count_tokens(input);
    let output_tokens = count_tokens(&output);
    assert!(
        output_tokens <= input_tokens,
        "jj status filter should not increase tokens: {} -> {}",
        input_tokens,
        output_tokens
    );
}

// ---------------------------------------------------------------------------
// Exact outputs
// ---------------------------------------------------------------------------

#[test]
fn status_exact_output_keeps_lines_as_they_were() {
    let input = "\n  Working copy changes:\n  M a.rs  \n\n\tA b.rs\r\n";
    assert_eq!(filter_jj_status(input), "  M a.rs  \n\tA b.rs");
}

#[test]
fn status_reports_no_changes_phrase() {
    assert_eq!(filter_jj_status("there are no changes here"), NO_CHANGES);
}

#[test]
fn status_only_header_is_no_changes() {
    assert_eq!(filter_jj_status("Working copy changes:\n   \n"), NO_CHANGES);
}

#[test]
fn diff_empty_is_no_changes() {
    assert_eq!(filter_jj_diff(" \n\t\n"), NO_CHANGES);
}

#[test]
fn compact_diff_exact_output() {
    let input = "diff --git a/src/main.rs b/src/main.rs\nindex abc1234..def5678 100644\n--- a/src/main.rs\n+++ b/src/main.rs\n@@ -1,5 +1,6 @@\n use std::io;\n+use std::fs;\n\n fn main() {\n-    println!(\"hello\");\n+    println!(\"world\");\n }\n";
    let expected = "\n\u{1F4C4} src/main.rs\n  @@ -1,5 +1,6 @@\n  +use std::fs;\n  \n   fn main() {\n  -    println!(\"hello\");\n  +    println!(\"world\");\n   }\n  +2 -1";
    assert_eq!(compact_diff(input, 100), expected);
}

#[test]
fn compact_diff_two_files_and_unknown_name() {
    let input = "diff --git a/x\n@@ -1 +1 @@\n-a\n+b\ndiff --git a/y b/y\n@@ -0,0 +1 @@\n+c\n";
    let expected = "\n\u{1F4C4} unknown\n  @@ -1 +1 @@\n  -a\n  +b\n  +1 -1\n\n\u{1F4C4} y\n  @@ -0,0 +1 @@\n  +c\n  +1 -0";
    assert_eq!(compact_diff(input, 100), expected);
}

#[test]
fn compact_diff_cuts_long_hunk() {
    let mut input = String::from("diff --git a/f b/f\n@@ -1,40 +1,40 @@\n");
    for i in 0..40 {
        input.push_str(&format!("+line {}\n", i));
    }
    let out = compact_diff(&input, 100);
    let lines: Vec<&str> = out.split('\n').collect();
    // blank, file, hunk header, 30 shown lines, the cut marker, the counts
    assert_eq!(lines.len(), 35);
    assert_eq!(lines[2], "  @@ -1,40 +1,40 @@");
    assert_eq!(lines[32], "  +line 29");
    assert_eq!(lines[33], "  ... (truncated)");
    assert_eq!(lines[34], "  +40 -0");
}

#[test]
fn compact_diff_stops_at_entry_limit() {
    let mut input = String::from("diff --git a/f b/f\n@@ -1,9 +1,9 @@\n");
    for i in 0..9 {
        input.push_str(&format!("+l{}\n", i));
    }
    let out = compact_diff(&input, 4);
    assert_eq!(
        out,
        "\n\u{1F4C4} f\n  @@ -1,9 +1,9 @@\n  +l0\n  +l1\n\n... (more changes truncated)\n  +2 -0"
    );
}

#[test]
fn show_exact_output() {
    let input = "Commit ID: 1\n\nmsg  \n\ndiff --git a/a b/a\n@@ -1 +1 @@\n-x\n+y\n";
    assert_eq!(
        filter_jj_show(input),
        "Commit ID: 1\n\nmsg\n\n\u{1F4C4} a\n  @@ -1 +1 @@\n  -x\n  +y\n  +1 -1"
    );
}

#[test]
fn show_without_diff_is_trimmed_input() {
    assert_eq!(filter_jj_show("\n  hello\nworld \n"), "hello\nworld");
    assert_eq!(filter_jj_show("   "), "");
}

#[test]
fn log_exact_output_strips_emails() {
    let input = "@  abc a@b.com 2025\n│  msg\n~\n";
    assert_eq!(filter_jj_log(input), "@  abc  2025\n│  msg\n~");
}

#[test]
fn log_more_entries_count() {
    let mut input = String::new();
    for i in 0..20 {
        input.push_str(&format!("○  change{:02}\n│  message {}\n", i, i));
    }
    input.push_str("~\n");
    let out = filter_jj_log(&input);
    let lines: Vec<&str> = out.split('\n').collect();
    // 15 entries with the messages of the first 14, then the count line
    assert_eq!(lines.len(), 30);
    assert_eq!(lines[28], "○  change14");
    assert_eq!(lines[29], "... +5 more entries");
}

#[test]
fn log_exactly_fifteen_entries_has_no_count_line() {
    let mut input = String::new();
    for i in 0..15 {
        input.push_str(&format!("○  c{}\n│  m{}\n", i, i));
    }
    let out = filter_jj_log(&input);
    let lines: Vec<&str> = out.split('\n').collect();
    assert_eq!(lines.len(), 29);
    assert_eq!(lines[28], "○  c14");
}

#[test]
fn log_long_line_is_cut_to_width() {
    let long = "x".repeat(200);
    let out = filter_jj_log(&format!("@  {}", long));
    assert_eq!(out.chars().count(), 120);
    assert!(out.ends_with("..."));
    assert_eq!(out, format!("@  {}...", "x".repeat(114)));
}

#[test]
fn log_empty_is_empty() {
    assert_eq!(filter_jj_log(" \n "), "");
}

#[test]
fn compose_log_takes_stripped_lines() {
    let lines = vec!["@  one".to_string(), "│  two".to_string()];
    let stripped = vec!["@  ONE".to_string(), "│  TWO".to_string()];
    assert_eq!(compose_log(&lines, &stripped), "@  ONE\n│  TWO");
}

#[test]
fn compose_log_counts_entries_from_raw_lines() {
    let mut lines = Vec::new();
    let mut stripped = Vec::new();
    for i in 0..17 {
        lines.push(format!("  ●  e{}", i));
        stripped.push(format!("s{}", i));
    }
    let out = compose_log(&lines, &stripped);
    let expected: Vec<String> = (0..15).map(|i| format!("s{}", i)).collect();
    assert_eq!(out, format!("{}\n... +2 more entries", expected.join("\n")));
}

#[test]
fn log_entry_symbols_after_graph_bars() {
    // Node symbols count after vertical bars and spaces.
    let mut lines = Vec::new();
    for sym in ["@", "○", "◆", "◉", "●", "│ ◆", "││●", "x"] {
        lines.push(format!("{}  entry", sym));
    }
    let mut many = Vec::new();
    for _ in 0..3 {
        many.extend(lines.iter().cloned());
    }
    // 3 copies of 7 entry lines = 21 entries; cut after the 15th entry
    let out = compose_log(&many, &many);
    assert!(out.ends_with("... +6 more entries"));
}

#[test]
fn whitespace_matches_std() {
    for code in 0u32..=0x10FFFF {
        if let Some(c) = char::from_u32(code) {
            assert_eq!(jj_cmd::text::is_whitespace(c), c.is_whitespace(), "{:x}", code);
        }
    }
}

#[test]
fn trim_and_lines_match_std() {
    let samples = [
        "", "\n", "a", "a\n", "a\n\n", "a\r\nb\r\n", "a\rb\n", "a\r", "\n\na\n b \n",
        " \u{3000}x y\u{85}", "\r\n\r\n", "x\n\ry",
    ];
    for s in samples {
        let chars = jj_cmd::text::chars_of(s);
        let t = jj_cmd::text::trim_chars(&chars);
        assert_eq!(t.iter().collect::<String>(), s.trim());
        let ls = jj_cmd::text::lines_of(&chars);
        let got: Vec<String> = ls.iter().map(|l| l.iter().collect()).collect();
        let want: Vec<String> = s.lines().map(|l| l.to_string()).collect();
        assert_eq!(got, want, "{:?}", s);
    }
}
