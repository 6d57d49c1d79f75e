//! The filters that shorten what `jj status`, `jj log` and `jj show`
//! print.
use vstd::prelude::*;
use crate::diff::{compact_diff, compact_diff_spec};
use crate::email::{compile_regex, regex_compiles, regex_replace_all, replace_all};
use crate::text::{
    words, contains, contains_chars, equal_chars, find, find_chars, sub_chars, chars_of, decimal, decimal_chars, join_lines, join_newlines, lines, lines_of, push_all,
    starts_with, starts_with_char, string_of, trim, trim_chars, truncate, truncate_chars, views,
};

verus! {

/// The answer when the working copy has no changes.
pub const NO_CHANGES: &'static str = "No changes in working copy";

/// The most log entries kept.
pub const MAX_LOG_ENTRIES: usize = 15;

/// The most characters kept of a log line.
pub const MAX_LOG_LINE_CHARS: usize = 120;

/// The strings seen as their character sequences.
pub open spec fn string_views(v: Seq<String>) -> Seq<Seq<char>> {
    v.map_values(|s: String| s@)
}

/// `s` without the copies of `c` at its start (`str::trim_start_matches`).
pub open spec fn strip_leading(s: Seq<char>, c: char) -> Seq<char>
    decreases s.len(),
{
    if s.len() > 0 && s[0] == c {
        strip_leading(s.drop_first(), c)
    } else {
        s
    }
}

/// A line of `jj log`'s graph that shows a change: after the graph's
/// vertical bars and the spaces, one of the node symbols `@ ○ ◆ ◉ ●`.
pub open spec fn is_entry_line(line: Seq<char>) -> bool {
    let s = strip_leading(strip_leading(line, '\u{2502}'), ' ');
    ||| starts_with(s, seq!['@'])
    ||| starts_with(s, seq!['\u{25cb}'])
    ||| starts_with(s, seq!['\u{25c6}'])
    ||| starts_with(s, seq!['\u{25c9}'])
    ||| starts_with(s, seq!['\u{25cf}'])
}

/// The number of entry lines among `ls`.
pub open spec fn entry_count(ls: Seq<Seq<char>>) -> nat
    decreases ls.len(),
{
    if ls.len() == 0 {
        0
    } else {
        entry_count(ls.drop_last()) + if is_entry_line(ls.last()) { 1nat } else { 0nat }
    }
}

/// The first prefix length, from `i` on, at which `max` entries have been
/// seen, or the number of lines.
pub open spec fn cut_from(ls: Seq<Seq<char>>, max: nat, i: int) -> int
    decreases ls.len() - i,
{
    if i >= ls.len() || entry_count(ls.take(i)) >= max {
        i
    } else {
        cut_from(ls, max, i + 1)
    }
}

/// How many lines of the log are kept: all lines before the one that
/// follows the `MAX_LOG_ENTRIES`-th entry line.
pub open spec fn log_cut(ls: Seq<Seq<char>>) -> int {
    cut_from(ls, MAX_LOG_ENTRIES as nat, 0)
}

/// The line that says how many entries were left out.
pub open spec fn more_entries_line(n: nat) -> Seq<char> {
    "... +"@ + decimal(n) + " more entries"@
}

/// The output lines of the log filter, for the log's lines `ls` and the
/// same lines with email addresses removed, `stripped`: the kept lines of
/// `stripped`, each truncated, and a count of the left-out entries when
/// lines were left out and there are more than `MAX_LOG_ENTRIES` entries.
pub open spec fn log_lines(ls: Seq<Seq<char>>, stripped: Seq<Seq<char>>) -> Seq<Seq<char>> {
    let cut = log_cut(ls);
    let kept = stripped.take(cut).map_values(
        |l: Seq<char>| truncate(l, MAX_LOG_LINE_CHARS as nat),
    );
    let total = entry_count(ls);
    if cut < ls.len() && total > MAX_LOG_ENTRIES {
        kept.push(more_entries_line((total - MAX_LOG_ENTRIES) as nat))
    } else {
        kept
    }
}

/// The log filter's output for `input`, where `strip` removes the email
/// addresses from a line.
pub open spec fn log_summary(input: Seq<char>, strip: spec_fn(Seq<char>) -> Seq<char>) -> Seq<
    char,
> {
    let t = trim(input);
    if t.len() == 0 {
        Seq::empty()
    } else {
        let ls = lines(t);
        join_lines(log_lines(ls, ls.map_values(strip)))
    }
}

/// The pattern of an email address: non-space, `@`, non-space, `.`,
/// non-space.
pub open spec fn email_pattern() -> Seq<char> {
    "\\S+@\\S+\\.\\S+"@
}

/// A line with its email addresses removed.
pub open spec fn strip_emails(line: Seq<char>) -> Seq<char> {
    regex_replace_all(email_pattern(), line, ""@)
}

/// What the log filter gives for `input`: email addresses removed when the
/// email regex compiles, lines as they were otherwise.
pub open spec fn log_filter_result(input: Seq<char>) -> Seq<char> {
    if regex_compiles(email_pattern()) {
        log_summary(input, |l: Seq<char>| strip_emails(l))
    } else {
        log_summary(input, |l: Seq<char>| l)
    }
}

/// `s` without the copies of `c` at its start.
fn strip_leading_chars(s: &Vec<char>, c: char) -> (res: Vec<char>)
    ensures
        res@ == strip_leading(s@, c),
{
    let n = s.len();
    let mut a: usize = 0;
    assert(s@.skip(0) =~= s@);
    while a < n && s[a] == c
        invariant
            a <= n == s.len(),
            strip_leading(s@, c) == strip_leading(s@.skip(a as int), c),
        decreases n - a,
    {
        assert(s@.skip(a as int).drop_first() =~= s@.skip(a + 1));
        a += 1;
    }
    let res = crate::text::sub_chars(s, a, n);
    assert(res@ =~= s@.skip(a as int));
    res
}

/// Whether `s` starts with the text `lit`.
pub fn starts_with_literal(s: &Vec<char>, lit: &str) -> (res: bool)
    ensures
        res == starts_with(s@, lit@),
{
    crate::text::starts_with_chars(s, &chars_of(lit))
}

/// Whether `line` shows a change in `jj log`'s graph.
pub fn is_log_entry(line: &Vec<char>) -> (res: bool)
    ensures
        res == is_entry_line(line@),
{
    let s = strip_leading_chars(&strip_leading_chars(line, '\u{2502}'), ' ');
    starts_with_char(&s, '@') || starts_with_char(&s, '\u{25cb}') || starts_with_char(
        &s,
        '\u{25c6}',
    ) || starts_with_char(&s, '\u{25c9}') || starts_with_char(&s, '\u{25cf}')
}

/// The output of the log filter from the log's lines and the same lines
/// with the email addresses removed: the lines up to the one after the
/// `MAX_LOG_ENTRIES`-th entry, taken from `stripped` and each cut to
/// `MAX_LOG_LINE_CHARS` characters, then, when lines were left out and the
/// log has more entries than that, a line counting the entries left out.
pub fn compose_log(lines: &Vec<String>, stripped: &Vec<String>) -> (res: String)
    requires
        lines.len() == stripped.len(),
    ensures
        res@ == join_lines(log_lines(string_views(lines@), string_views(stripped@))),
{
    let ghost ls = string_views(lines@);
    let ghost ss = string_views(stripped@);
    let n = lines.len();
    let mut total: usize = 0;
    assert(ls.take(0) =~= Seq::<Seq<char>>::empty());
    for i in 0..n
        invariant
            n == lines.len(),
            ls == string_views(lines@),
            total <= i,
            total == entry_count(ls.take(i as int)),
    {
        assert(ls.take(i + 1).drop_last() =~= ls.take(i as int));
        let line = chars_of(lines[i].as_str());
        if is_log_entry(&line) {
            total += 1;
        }
    }
    assert(ls.take(n as int) =~= ls);
    let mut out: Vec<Vec<char>> = Vec::new();
    let mut count: usize = 0;
    let mut i: usize = 0;
    while i < n && count < MAX_LOG_ENTRIES
        invariant
            n == lines.len() == stripped.len(),
            ls == string_views(lines@),
            ss == string_views(stripped@),
            total == entry_count(ls),
            i <= n,
            count <= i,
            count == entry_count(ls.take(i as int)),
            log_cut(ls) == cut_from(ls, MAX_LOG_ENTRIES as nat, i as int),
            views(out@) == ss.take(i as int).map_values(
                |l: Seq<char>| truncate(l, MAX_LOG_LINE_CHARS as nat),
            ),
        decreases n - i,
    {
        assert(ls.take(i + 1).drop_last() =~= ls.take(i as int));
        let line = chars_of(lines[i].as_str());
        if is_log_entry(&line) {
            count += 1;
        }
        let s = chars_of(stripped[i].as_str());
        let t = truncate_chars(&s, MAX_LOG_LINE_CHARS);
        let ghost old_out = out@;
        let ghost tv = t@;
        out.push(t);
        i += 1;
        assert(views(out@) =~= views(old_out).push(tv));
        assert(ss.take(i as int) =~= ss.take(i - 1).push(ss[i - 1]));
        assert(views(out@) =~= ss.take(i as int).map_values(
            |l: Seq<char>| truncate(l, MAX_LOG_LINE_CHARS as nat),
        ));
    }
    assert(cut_from(ls, MAX_LOG_ENTRIES as nat, i as int) == i);
    if i < n && total > MAX_LOG_ENTRIES {
        let mut msg = chars_of("... +");
        push_all(&mut msg, &decimal_chars(total - MAX_LOG_ENTRIES));
        push_all(&mut msg, &chars_of(" more entries"));
        let ghost old_out = out@;
        let ghost mv = msg@;
        out.push(msg);
        assert(views(out@) =~= views(old_out).push(mv));
    }
    let joined = join_newlines(&out);
    string_of(&joined)
}

/// The `jj log` output shortened: at most `MAX_LOG_ENTRIES` entries, email
/// addresses removed (by the regex `\S+@\S+\.\S+`), each line cut to
/// `MAX_LOG_LINE_CHARS` characters, and a count of the entries left out.
/// Should the regex not compile, lines keep their addresses.
pub fn filter_jj_log(input: &str) -> (res: String)
    ensures
        res@ == log_filter_result(input@),
{
    let t = trim_chars(&chars_of(input));
    if t.len() == 0 {
        return String::new();
    }
    let ls = lines_of(&t);
    let compiled = compile_regex("\\S+@\\S+\\.\\S+");
    let n = ls.len();
    let mut raw: Vec<String> = Vec::new();
    let mut stripped: Vec<String> = Vec::new();
    for i in 0..n
        invariant
            n == ls.len(),
            raw.len() == i,
            stripped.len() == i,
            string_views(raw@) == views(ls@).take(i as int),
            compiled is Ok ==> regex_compiles(email_pattern()),
            compiled matches Ok(c) ==> c.pattern() == email_pattern(),
            compiled is Err ==> !regex_compiles(email_pattern()),
            regex_compiles(email_pattern()) ==> string_views(stripped@) == views(ls@).take(
                i as int,
            ).map_values(|l: Seq<char>| strip_emails(l)),
            !regex_compiles(email_pattern()) ==> string_views(stripped@) == views(ls@).take(
                i as int,
            ),
    {
        let s = string_of(&ls[i]);
        let st = match &compiled {
            Ok(re) => replace_all(re, s.as_str(), ""),
            Err(_) => s.clone(),
        };
        let ghost sv = s@;
        let ghost stv = st@;
        let ghost old_raw = raw@;
        let ghost old_st = stripped@;
        raw.push(s);
        stripped.push(st);
        assert(string_views(raw@) =~= string_views(old_raw).push(sv));
        assert(string_views(stripped@) =~= string_views(old_st).push(stv));
        assert(views(ls@).take(i + 1) =~= views(ls@).take(i as int).push(ls@[i as int]@));
        assert(views(ls@).take(i + 1).map_values(|l: Seq<char>| strip_emails(l)) =~= views(
            ls@,
        ).take(i as int).map_values(|l: Seq<char>| strip_emails(l)).push(strip_emails(sv)));
    }
    assert(views(ls@).take(n as int) =~= views(ls@));
    assert(views(ls@).map_values(|l: Seq<char>| l) =~= views(ls@));
    compose_log(&raw, &stripped)
}


// ---------------------------------------------------------------------------
// jj status
// ---------------------------------------------------------------------------

/// The answer when the working copy has no changes.
pub open spec fn no_changes() -> Seq<char> {
    NO_CHANGES@
}

/// The header line that `jj status` prints above the changed files.
pub open spec fn changes_header() -> Seq<char> {
    "Working copy changes:"@
}

/// A status line worth keeping: not blank, and not the header.
pub open spec fn is_status_line(l: Seq<char>) -> bool {
    trim(l).len() > 0 && trim(l) != changes_header()
}

/// The status filter's output: `no_changes()` when the status is empty,
/// says that nothing changed (`nothing changed` or `no changes`) or holds
/// no line worth keeping; otherwise the lines worth keeping, as they were.
pub open spec fn status_summary(input: Seq<char>) -> Seq<char> {
    let t = trim(input);
    let kept = lines(t).filter(|l: Seq<char>| is_status_line(l));
    if t.len() == 0 || contains(t, "nothing changed"@) || contains(t, "no changes"@) {
        no_changes()
    } else if kept.len() == 0 {
        no_changes()
    } else {
        join_lines(kept)
    }
}

/// The `jj status` output shortened: the blank lines and the
/// `Working copy changes:` header left out, or `No changes in working copy`
/// when nothing changed.
pub fn filter_jj_status(input: &str) -> (res: String)
    ensures
        res@ == status_summary(input@),
{
    let t = trim_chars(&chars_of(input));
    if t.len() == 0 || contains_chars(&t, &chars_of("nothing changed")) || contains_chars(
        &t,
        &chars_of("no changes"),
    ) {
        return NO_CHANGES.to_owned();
    }
    let ls = lines_of(&t);
    let header = chars_of("Working copy changes:");
    let n = ls.len();
    let mut kept: Vec<Vec<char>> = Vec::new();
    let ghost pred = |l: Seq<char>| is_status_line(l);
    assert(views(ls@).take(0) =~= Seq::<Seq<char>>::empty());
    assert(Seq::<Seq<char>>::empty().filter(pred) =~= Seq::<Seq<char>>::empty()) by {
        reveal(Seq::filter);
    }
    for i in 0..n
        invariant
            n == ls.len(),
            header@ == changes_header(),
            pred == (|l: Seq<char>| is_status_line(l)),
            views(kept@) == views(ls@).take(i as int).filter(pred),
    {
        let ghost before = views(ls@).take(i as int);
        assert(views(ls@).take(i + 1) =~= before.push(ls@[i as int]@));
        proof {
            before.lemma_filter_push(ls@[i as int]@, pred);
        }
        let stripped = trim_chars(&ls[i]);
        if stripped.len() > 0 && !equal_chars(&stripped, &header) {
            let line = sub_chars(&ls[i], 0, ls[i].len());
            assert(line@ =~= ls@[i as int]@);
            let ghost old_kept = kept@;
            kept.push(line);
            assert(views(kept@) =~= views(old_kept).push(ls@[i as int]@));
        }
    }
    assert(views(ls@).take(n as int) =~= views(ls@));
    if kept.len() == 0 {
        return NO_CHANGES.to_owned();
    }
    string_of(&join_newlines(&kept))
}

// ---------------------------------------------------------------------------
// jj diff
// ---------------------------------------------------------------------------

/// The most entries of a compacted diff.
pub const MAX_DIFF_ENTRIES: usize = 100;

/// The diff filter's output: `no_changes()` for an empty diff, else the
/// compacted diff.
pub open spec fn diff_summary(input: Seq<char>) -> Seq<char> {
    if trim(input).len() == 0 {
        no_changes()
    } else {
        compact_diff_spec(input, MAX_DIFF_ENTRIES as nat)
    }
}

/// The `jj diff --git` output shortened: `No changes in working copy` when
/// it is empty, else compacted to at most `MAX_DIFF_ENTRIES` entries.
pub fn filter_jj_diff(input: &str) -> (res: String)
    ensures
        res@ == diff_summary(input@),
{
    let t = trim_chars(&chars_of(input));
    if t.len() == 0 {
        NO_CHANGES.to_owned()
    } else {
        compact_diff(input, MAX_DIFF_ENTRIES)
    }
}

// ---------------------------------------------------------------------------
// jj show
// ---------------------------------------------------------------------------

/// Where the diff of a `jj show` output starts: a line that begins with
/// `diff --git`.
pub open spec fn diff_marker() -> Seq<char> {
    "\ndiff --git"@
}

/// The show filter's output: empty for an empty input; else, when a line
/// starts a diff, the description before it (trimmed), a newline and the
/// compacted diff; else the trimmed input.
pub open spec fn show_summary(input: Seq<char>) -> Seq<char> {
    let t = trim(input);
    if t.len() == 0 {
        Seq::empty()
    } else {
        match find(t, diff_marker()) {
            Some(d) => trim(t.take(d)) + "\n"@ + compact_diff_spec(
                t.skip(d + 1),
                MAX_DIFF_ENTRIES as nat,
            ),
            None => t,
        }
    }
}

/// The `jj show --git` output shortened: the commit's description as it
/// was, and its diff compacted.
pub fn filter_jj_show(input: &str) -> (res: String)
    ensures
        res@ == show_summary(input@),
{
    let t = trim_chars(&chars_of(input));
    if t.len() == 0 {
        return String::new();
    }
    match find_chars(&t, &chars_of("\ndiff --git")) {
        Some(d) => {
            proof {
                reveal_strlit("\ndiff --git");
                crate::text::lemma_find_from(t@, diff_marker(), 0);
                assert(crate::text::occurs_at(t@, diff_marker(), d as int));
            }
            let tl = t.len();
            let header = sub_chars(&t, 0, d);
            let diff = sub_chars(&t, d + 1, tl);
            assert(header@ =~= t@.take(d as int));
            assert(diff@ =~= t@.skip(d + 1));
            let compacted = compact_diff(string_of(&diff).as_str(), MAX_DIFF_ENTRIES);
            let mut out = trim_chars(&header);
            out.push('\n');
            push_all(&mut out, &chars_of(compacted.as_str()));
            assert(out@ =~= trim(t@.take(d as int)) + "\n"@ + compact_diff_spec(
                t@.skip(d + 1),
                MAX_DIFF_ENTRIES as nat,
            )) by {
                reveal_strlit("\n");
            }
            string_of(&out)
        },
        None => string_of(&t),
    }
}


// ---------------------------------------------------------------------------
// Laws
// ---------------------------------------------------------------------------

/// The status filter always answers with some text: its output is never
/// empty.
pub proof fn law_status_never_empty(input: Seq<char>)
    ensures
        status_summary(input).len() > 0,
{
    reveal_strlit("No changes in working copy");
    assert(no_changes() == "No changes in working copy"@);
    let t = trim(input);
    let kept = lines(t).filter(|l: Seq<char>| is_status_line(l));
    if status_summary(input) != no_changes() {
        assert(kept.len() > 0);
        lines(t).lemma_filter_pred(|l: Seq<char>| is_status_line(l), kept.len() - 1);
        crate::text::lemma_trim_len(kept.last());
        crate::text::lemma_join_len_last(kept, crate::text::nl());
    }
}

/// The status filter never adds words: unless it answers that nothing
/// changed, its output has at most as many whitespace-separated words as
/// its input.
pub proof fn law_status_no_more_words(input: Seq<char>)
    ensures
        status_summary(input) == no_changes() || words(status_summary(input)) <= words(input),
{
    let t = trim(input);
    let kept = lines(t).filter(|l: Seq<char>| is_status_line(l));
    if status_summary(input) != no_changes() {
        crate::text::lemma_words_join_lines(kept);
        crate::text::lemma_total_words_filter(lines(t), |l: Seq<char>| is_status_line(l));
        crate::text::lemma_words_lines(t);
        crate::text::lemma_words_trim(input);
    }
}

/// Entry counts grow by at most one per line.
proof fn lemma_entry_count_step(ls: Seq<Seq<char>>, j: int)
    requires
        0 < j <= ls.len(),
    ensures
        entry_count(ls.take(j - 1)) <= entry_count(ls.take(j)) <= entry_count(ls.take(j - 1))
            + 1,
{
    assert(ls.take(j).drop_last() =~= ls.take(j - 1));
}

/// A prefix has no more entries than the whole.
proof fn lemma_entry_count_prefix(ls: Seq<Seq<char>>, j: int)
    requires
        0 <= j <= ls.len(),
    ensures
        entry_count(ls.take(j)) <= entry_count(ls),
    decreases ls.len() - j,
{
    if j < ls.len() {
        lemma_entry_count_step(ls, j + 1);
        lemma_entry_count_prefix(ls, j + 1);
    } else {
        assert(ls.take(j) =~= ls);
    }
}

/// Where `cut_from` stops: before it, fewer than `max` entries; at it,
/// `max` entries or the end.
proof fn lemma_cut_from(ls: Seq<Seq<char>>, max: nat, i: int)
    requires
        0 <= i <= ls.len(),
    ensures
        i <= cut_from(ls, max, i) <= ls.len(),
        forall|j: int| i <= j < cut_from(ls, max, i) ==> entry_count(#[trigger] ls.take(j)) < max,
        cut_from(ls, max, i) < ls.len() ==> entry_count(ls.take(cut_from(ls, max, i))) >= max,
    decreases ls.len() - i,
{
    if !(i >= ls.len() || entry_count(ls.take(i)) >= max) {
        lemma_cut_from(ls, max, i + 1);
    }
}

/// The log filter never adds lines: it writes at most as many lines as
/// the log has.
pub proof fn law_log_line_count(ls: Seq<Seq<char>>, stripped: Seq<Seq<char>>)
    requires
        stripped.len() == ls.len(),
    ensures
        log_lines(ls, stripped).len() <= ls.len(),
{
    lemma_cut_from(ls, MAX_LOG_ENTRIES as nat, 0);
}

/// The log filter keeps at most `MAX_LOG_ENTRIES` entries.
pub proof fn law_log_entry_limit(ls: Seq<Seq<char>>)
    ensures
        entry_count(ls.take(log_cut(ls))) <= MAX_LOG_ENTRIES,
{
    lemma_cut_from(ls, MAX_LOG_ENTRIES as nat, 0);
    let cut = log_cut(ls);
    if cut == 0 {
        assert(ls.take(0) =~= Seq::<Seq<char>>::empty());
    } else {
        assert(entry_count(ls.take(cut - 1)) < MAX_LOG_ENTRIES);
        lemma_entry_count_step(ls, cut);
    }
}

/// A log with fewer than `MAX_LOG_ENTRIES` entries is kept whole: every
/// line, email addresses removed and cut to width, and no count line.
pub proof fn law_log_short_kept(ls: Seq<Seq<char>>, stripped: Seq<Seq<char>>)
    requires
        stripped.len() == ls.len(),
        entry_count(ls) < MAX_LOG_ENTRIES,
    ensures
        log_lines(ls, stripped) == stripped.map_values(
            |l: Seq<char>| truncate(l, MAX_LOG_LINE_CHARS as nat),
        ),
{
    lemma_cut_from(ls, MAX_LOG_ENTRIES as nat, 0);
    let cut = log_cut(ls);
    if cut < ls.len() {
        lemma_entry_count_prefix(ls, cut);
    }
    assert(stripped.take(ls.len() as int) =~= stripped);
}

/// Every kept log line fits in `MAX_LOG_LINE_CHARS` characters.
pub proof fn law_log_line_width(ls: Seq<Seq<char>>, stripped: Seq<Seq<char>>)
    requires
        stripped.len() == ls.len(),
    ensures
        forall|i: int|
            0 <= i < log_cut(ls) ==> (#[trigger] log_lines(ls, stripped)[i]).len()
                <= MAX_LOG_LINE_CHARS,
{
    lemma_cut_from(ls, MAX_LOG_ENTRIES as nat, 0);
}


/// The status text that is kept as it is: items joined with newlines, each
/// a line worth keeping with no newline and no phrase that means nothing
/// changed, with no carriage return and no surrounding whitespace.
proof fn lemma_status_fixpoint(ls: Seq<Seq<char>>)
    requires
        ls.len() > 0,
        forall|k: int| 0 <= k < ls.len() ==> crate::text::lacks(#[trigger] ls[k], '\n'),
        forall|k: int| 0 <= k < ls.len() ==> is_status_line(#[trigger] ls[k]),
        forall|k: int| 0 <= k < ls.len() ==> !contains(#[trigger] ls[k], "nothing changed"@),
        forall|k: int| 0 <= k < ls.len() ==> !contains(#[trigger] ls[k], "no changes"@),
        crate::text::lacks(join_lines(ls), '\r'),
        trim(join_lines(ls)) == join_lines(ls),
    ensures
        status_summary(join_lines(ls)) == join_lines(ls),
{
    let o = join_lines(ls);
    reveal_strlit("nothing changed");
    reveal_strlit("no changes");
    let p1 = "nothing changed"@;
    let p2 = "no changes"@;
    assert(crate::text::lacks(p1, '\n'));
    assert(crate::text::lacks(p2, '\n'));
    if contains(o, p1) {
        crate::text::lemma_contains_in_item(ls, p1);
    }
    if contains(o, p2) {
        crate::text::lemma_contains_in_item(ls, p2);
    }
    assert forall|k: int| 0 <= k < ls.len() implies crate::text::lacks(#[trigger] ls[k], '\r') by {
        crate::text::lemma_item_in_join(ls, crate::text::nl(), k);
        let off = choose|i: int| crate::text::occurs_at(o, ls[k], i);
        assert forall|i: int| 0 <= i < ls[k].len() implies #[trigger] ls[k][i] != '\r' by {
            assert(ls[k][i] == o.subrange(off, off + ls[k].len())[i]);
        }
    }
    assert(ls.last().len() > 0) by {
        assert(is_status_line(ls[ls.len() - 1]));
        crate::text::lemma_trim_len(ls.last());
    }
    crate::text::lemma_lines_of_join(ls);
    crate::text::lemma_filter_all(ls, |l: Seq<char>| is_status_line(l));
    crate::text::lemma_trim_len(o);
    crate::text::lemma_join_len_last(ls, crate::text::nl());
}

/// Filtering the status filter's output again changes nothing, when that
/// output holds no carriage return and no surrounding whitespace.
pub proof fn law_status_idempotent(input: Seq<char>)
    requires
        crate::text::lacks(status_summary(input), '\r'),
        trim(status_summary(input)) == status_summary(input),
    ensures
        status_summary(status_summary(input)) == status_summary(input),
{
    let o = status_summary(input);
    let t = trim(input);
    let pred = |l: Seq<char>| is_status_line(l);
    let kept = lines(t).filter(pred);
    if o == no_changes() {
        let nc = no_changes();
        reveal_strlit("No changes in working copy");
        reveal_strlit("Working copy changes:");
        reveal_strlit("nothing changed");
        reveal_strlit("no changes");
        assert(nc == "No changes in working copy"@);
        assert(crate::text::lacks(nc, '\n'));
        assert(nc.len() != changes_header().len());
        assert(is_status_line(nc));
        assert(forall|i: int| 0 <= i < nc.len() - 1 ==> !(#[trigger] nc[i] == 'n' && nc[i + 1] == 'o'));
        assert(!contains(nc, "nothing changed"@)) by {
            if contains(nc, "nothing changed"@) {
                let i = choose|i: int| crate::text::occurs_at(nc, "nothing changed"@, i);
                assert(nc[i] == nc.subrange(i, i + 15)[0]);
                assert(nc[i + 1] == nc.subrange(i, i + 15)[1]);
            }
        }
        assert(!contains(nc, "no changes"@)) by {
            if contains(nc, "no changes"@) {
                let i = choose|i: int| crate::text::occurs_at(nc, "no changes"@, i);
                assert(nc[i] == nc.subrange(i, i + 10)[0]);
                assert(nc[i + 1] == nc.subrange(i, i + 10)[1]);
            }
        }
        let ls = seq![nc];
        assert(join_lines(ls) == nc);
        lemma_status_fixpoint(ls);
    } else {
        assert(kept.len() > 0);
        assert(o == join_lines(kept));
        assert(!contains(t, "nothing changed"@) && !contains(t, "no changes"@));
        crate::text::lemma_lines_lack_newline(t);
        assert forall|k: int| 0 <= k < kept.len() implies {
            &&& crate::text::lacks(#[trigger] kept[k], '\n')
            &&& is_status_line(kept[k])
            &&& !contains(kept[k], "nothing changed"@)
            &&& !contains(kept[k], "no changes"@)
        } by {
            lines(t).lemma_filter_pred(pred, k);
            assert(kept.contains(kept[k]));
            lines(t).lemma_filter_contains_rev(pred, kept[k]);
            let j = choose|j: int| 0 <= j < lines(t).len() && lines(t)[j] == kept[k];
            crate::text::lemma_line_in_text(t, j);
            if contains(kept[k], "nothing changed"@) {
                crate::text::lemma_contains_trans(t, kept[k], "nothing changed"@);
            }
            if contains(kept[k], "no changes"@) {
                crate::text::lemma_contains_trans(t, kept[k], "no changes"@);
            }
        }
        lemma_status_fixpoint(kept);
    }
}


/// The diff filter compacts every non-empty diff whole, with the diff
/// entry limit: its output is what `compact_diff` gives for the input and
/// `MAX_DIFF_ENTRIES`; an empty diff gives `NO_CHANGES`.
pub proof fn law_diff_filter_compacts(input: Seq<char>)
    ensures
        trim(input).len() > 0 ==> diff_summary(input) == compact_diff_spec(
            input,
            MAX_DIFF_ENTRIES as nat,
        ),
        trim(input).len() == 0 ==> diff_summary(input) == NO_CHANGES@,
{
}

/// The show filter is the description before the first line that starts
/// a diff, trimmed, then a newline, then what the diff filter gives for the
/// whole rest of the output, every file of it.
pub proof fn law_show_is_description_and_diff(input: Seq<char>)
    requires
        find(trim(input), diff_marker()) is Some,
    ensures
        ({
            let t = trim(input);
            let d = find(t, diff_marker())->0;
            &&& starts_with(t.skip(d + 1), "diff --git"@)
            &&& show_summary(input) == trim(t.take(d)) + "\n"@ + diff_summary(t.skip(d + 1))
        }),
{
    let t = trim(input);
    let d = find(t, diff_marker())->0;
    reveal_strlit("\ndiff --git");
    reveal_strlit("diff --git");
    crate::text::lemma_find_from(t, diff_marker(), 0);
    assert(crate::text::occurs_at(t, diff_marker(), d));
    let rest = t.skip(d + 1);
    assert(rest.subrange(0, 10) =~= "diff --git"@) by {
        assert forall|j: int| 0 <= j < 10 implies rest.subrange(0, 10)[j] == "diff --git"@[j] by {
            assert(rest[j] == t[d + 1 + j]);
            assert(t[d + 1 + j] == t.subrange(d, d + 11)[j + 1]);
            assert(diff_marker()[j + 1] == "diff --git"@[j]);
        }
    }
    assert(rest[0] == rest.subrange(0, 10)[0]);
    assert("diff --git"@[0] == 'd');
    assert(rest[0] == 'd');
    crate::text::lemma_trim_nonempty(rest);
    assert(t.len() > 0);
}

/// Show output without a line that starts a diff comes back trimmed, and
/// empty output stays empty.
pub proof fn law_show_without_diff(input: Seq<char>)
    requires
        find(trim(input), diff_marker()) is None,
    ensures
        show_summary(input) == trim(input),
{
}

/// The count line reports exactly the entries left out: it comes when
/// lines were left out and more than `MAX_LOG_ENTRIES` entries exist, and
/// its number is the entries of the log minus the entries kept.
pub proof fn law_log_count_line(ls: Seq<Seq<char>>, stripped: Seq<Seq<char>>)
    requires
        stripped.len() == ls.len(),
    ensures
        ({
            let out = log_lines(ls, stripped);
            let cut = log_cut(ls);
            let kept_entries = entry_count(ls.take(cut));
            &&& cut < ls.len() ==> kept_entries == 15
            &&& out.len() == cut + 1 <==> (cut < ls.len() && entry_count(ls) > 15)
            &&& out.len() == cut + 1 ==> out.last() == "... +"@ + decimal(
                (entry_count(ls) - kept_entries) as nat,
            ) + " more entries"@
            &&& out.len() == cut || out.len() == cut + 1
        }),
{
    lemma_cut_from(ls, MAX_LOG_ENTRIES as nat, 0);
    law_log_entry_limit(ls);
}

/// Each kept log line is its email-stripped line, unchanged when it has at
/// most 120 characters, else its first 117 characters and `...`.
pub proof fn law_log_kept_lines(ls: Seq<Seq<char>>, stripped: Seq<Seq<char>>)
    requires
        stripped.len() == ls.len(),
    ensures
        forall|i: int|
            0 <= i < log_cut(ls) ==> {
                &&& stripped[i].len() <= 120 ==> #[trigger] log_lines(ls, stripped)[i]
                    == stripped[i]
                &&& stripped[i].len() > 120 ==> log_lines(ls, stripped)[i] == stripped[i].take(
                    117,
                ) + seq!['.', '.', '.']
            },
{
    lemma_cut_from(ls, MAX_LOG_ENTRIES as nat, 0);
}

/// A status output other than `NO_CHANGES` (and without carriage
/// returns) is made of exactly the input's lines worth keeping: each of its
/// lines is a non-blank input line other than the header, and each such
/// input line is among them. A status that says `nothing changed` or
/// `no changes` gives `NO_CHANGES`.
pub proof fn law_status_lines(input: Seq<char>)
    ensures
        contains(trim(input), "nothing changed"@) ==> status_summary(input) == NO_CHANGES@,
        contains(trim(input), "no changes"@) ==> status_summary(input) == NO_CHANGES@,
        trim(input).len() == 0 ==> status_summary(input) == NO_CHANGES@,
        status_summary(input) != NO_CHANGES@ && crate::text::lacks(status_summary(input), '\r')
            ==> {
            let o = status_summary(input);
            let t = trim(input);
            &&& forall|k: int|
                0 <= k < lines(o).len() ==> {
                    &&& trim(#[trigger] lines(o)[k]).len() > 0
                    &&& trim(lines(o)[k]) != "Working copy changes:"@
                    &&& lines(t).contains(lines(o)[k])
                }
            &&& forall|j: int|
                0 <= j < lines(t).len() && trim(#[trigger] lines(t)[j]).len() > 0 && trim(
                    lines(t)[j],
                ) != "Working copy changes:"@ ==> lines(o).contains(lines(t)[j])
        },
{
    let o = status_summary(input);
    let t = trim(input);
    let pred = |l: Seq<char>| is_status_line(l);
    let kept = lines(t).filter(pred);
    if o != NO_CHANGES@ && crate::text::lacks(o, '\r') {
        assert(kept.len() > 0);
        assert(o == join_lines(kept));
        crate::text::lemma_lines_lack_newline(t);
        assert forall|k: int| 0 <= k < kept.len() implies {
            &&& crate::text::lacks(#[trigger] kept[k], '\n')
            &&& crate::text::lacks(kept[k], '\r')
            &&& is_status_line(kept[k])
            &&& lines(t).contains(kept[k])
        } by {
            lines(t).lemma_filter_pred(pred, k);
            assert(kept.contains(kept[k]));
            lines(t).lemma_filter_contains_rev(pred, kept[k]);
            crate::text::lemma_item_in_join(kept, crate::text::nl(), k);
            let off = choose|i: int| crate::text::occurs_at(o, kept[k], i);
            assert forall|i: int| 0 <= i < kept[k].len() implies #[trigger] kept[k][i] != '\r' by {
                assert(kept[k][i] == o.subrange(off, off + kept[k].len())[i]);
            }
        }
        assert(kept.last().len() > 0) by {
            assert(is_status_line(kept[kept.len() - 1]));
            crate::text::lemma_trim_len(kept.last());
        }
        crate::text::lemma_lines_of_join(kept);
        assert forall|j: int|
            0 <= j < lines(t).len() && trim(#[trigger] lines(t)[j]).len() > 0 && trim(
                lines(t)[j],
            ) != "Working copy changes:"@ implies lines(o).contains(lines(t)[j]) by {
            assert(pred(lines(t)[j]));
            lines(t).lemma_filter_contains(pred, j);
        }
    }
}

/// The log filter removes email addresses with exactly the regex
/// `\S+@\S+\.\S+` (one or more non-space characters, `@`, one or more
/// non-space characters, `.`, one or more non-space characters), each
/// match replaced by nothing.
pub proof fn law_log_email_regex(input: Seq<char>)
    ensures
        ({
            let p = seq!['\\', 'S', '+', '@', '\\', 'S', '+', '\\', '.', '\\', 'S', '+'];
            &&& regex_compiles(p) ==> log_filter_result(input) == log_summary(
                input,
                |l: Seq<char>| regex_replace_all(p, l, Seq::<char>::empty()),
            )
            &&& !regex_compiles(p) ==> log_filter_result(input) == log_summary(
                input,
                |l: Seq<char>| l,
            )
        }),
{
    reveal_strlit("\\S+@\\S+\\.\\S+");
    reveal_strlit("");
    let p = seq!['\\', 'S', '+', '@', '\\', 'S', '+', '\\', '.', '\\', 'S', '+'];
    assert(email_pattern() =~= p);
    assert(""@ =~= Seq::<char>::empty());
    assert((|l: Seq<char>| strip_emails(l)) =~= (|l: Seq<char>| regex_replace_all(
        p,
        l,
        Seq::<char>::empty(),
    )));
}

}
