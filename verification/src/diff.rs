//! Compaction of a unified diff in git's format: one header per file, the
//! hunk headers, the changed lines of each hunk up to a limit, and the
//! number of added and removed lines per file.
use vstd::prelude::*;
use crate::text::{
    chars_of, decimal, decimal_chars, find, find_chars, join_lines, join_newlines, lines, lines_of,
    occurs_at, push_all, starts_with, starts_with_chars, string_of, sub_chars, trim, trim_chars,
    views,
};

verus! {

/// The most content lines shown of one hunk.
pub const MAX_HUNK_LINES: usize = 30;

/// What the compaction has built after some lines of the diff.
pub struct DiffModel {
    /// The entries of the output so far, to be joined with newlines.
    pub entries: Seq<Seq<char>>,
    /// The file that the current section is about (empty before any).
    pub file: Seq<char>,
    /// Lines added in the current file.
    pub added: nat,
    /// Lines removed in the current file.
    pub removed: nat,
    /// Whether a hunk header has been seen in the current file.
    pub in_hunk: bool,
    /// Entries shown of the current hunk (one more once it was cut).
    pub hunk_lines: nat,
    /// Whether the entry limit was reached, which ends the scan.
    pub stopped: bool,
}

/// The state before the first line.
pub open spec fn diff_start() -> DiffModel {
    DiffModel {
        entries: Seq::empty(),
        file: Seq::empty(),
        added: 0,
        removed: 0,
        in_hunk: false,
        hunk_lines: 0,
        stopped: false,
    }
}

/// The part of `s` between the first and the second occurrence of `sep`
/// (or the end), when `sep` occurs: the second item of `str::split`.
pub open spec fn second_field(s: Seq<char>, sep: Seq<char>) -> Option<Seq<char>> {
    match find(s, sep) {
        None => None,
        Some(k) => {
            let rest = s.skip(k + sep.len());
            match find(rest, sep) {
                Some(m) => Some(rest.take(m)),
                None => Some(rest),
            }
        },
    }
}

/// The file named by a `diff --git a/.. b/..` line.
pub open spec fn diff_file_name(line: Seq<char>) -> Seq<char> {
    match second_field(line, " b/"@) {
        Some(f) => f,
        None => "unknown"@,
    }
}

/// The range text of a `@@ .. @@` hunk header.
pub open spec fn hunk_info(line: Seq<char>) -> Seq<char> {
    match second_field(line, "@@"@) {
        Some(f) => trim(f),
        None => Seq::empty(),
    }
}

/// The entry that opens the section of a file.
pub open spec fn file_entry(file: Seq<char>) -> Seq<char> {
    "\n\u{1F4C4} "@ + file
}

/// The entry that gives a file's added and removed line counts.
pub open spec fn counts_entry(added: nat, removed: nat) -> Seq<char> {
    "  +"@ + decimal(added) + " -"@ + decimal(removed)
}

/// The entry for a hunk header.
pub open spec fn hunk_entry(info: Seq<char>) -> Seq<char> {
    "  @@ "@ + info + " @@"@
}

/// The entry that shows a line of a hunk.
pub open spec fn shown_entry(line: Seq<char>) -> Seq<char> {
    "  "@ + line
}

/// The entry that marks a hunk cut at `MAX_HUNK_LINES` entries.
pub open spec fn hunk_cut_entry() -> Seq<char> {
    "  ... (truncated)"@
}

/// The entry that marks the end of the output at the entry limit.
pub open spec fn diff_cut_entry() -> Seq<char> {
    "\n... (more changes truncated)"@
}

/// The entries with the counts of the current file added, when there is a
/// file with changes.
pub open spec fn with_counts(st: DiffModel) -> Seq<Seq<char>> {
    if st.file.len() > 0 && (st.added > 0 || st.removed > 0) {
        st.entries.push(counts_entry(st.added, st.removed))
    } else {
        st.entries
    }
}

/// An added line: starts with `+` but not with `+++`.
pub open spec fn is_added_line(line: Seq<char>) -> bool {
    starts_with(line, "+"@) && !starts_with(line, "+++"@)
}

/// A removed line: starts with `-` but not with `---`.
pub open spec fn is_removed_line(line: Seq<char>) -> bool {
    starts_with(line, "-"@) && !starts_with(line, "---"@)
}

/// One line inside a hunk, before the cut marker is considered.
pub open spec fn hunk_line(st: DiffModel, line: Seq<char>) -> DiffModel {
    let room = st.hunk_lines < MAX_HUNK_LINES;
    if is_added_line(line) {
        DiffModel {
            added: st.added + 1,
            entries: if room { st.entries.push(shown_entry(line)) } else { st.entries },
            hunk_lines: if room { st.hunk_lines + 1 } else { st.hunk_lines },
            ..st
        }
    } else if is_removed_line(line) {
        DiffModel {
            removed: st.removed + 1,
            entries: if room { st.entries.push(shown_entry(line)) } else { st.entries },
            hunk_lines: if room { st.hunk_lines + 1 } else { st.hunk_lines },
            ..st
        }
    } else if room && !starts_with(line, "\\"@) && st.hunk_lines > 0 {
        DiffModel {
            entries: st.entries.push(shown_entry(line)),
            hunk_lines: st.hunk_lines + 1,
            ..st
        }
    } else {
        st
    }
}

/// One line of the diff, before the entry limit is considered.
pub open spec fn line_step(st: DiffModel, line: Seq<char>) -> DiffModel {
    if starts_with(line, "diff --git"@) {
        let file = diff_file_name(line);
        DiffModel {
            entries: with_counts(st).push(file_entry(file)),
            file: file,
            added: 0,
            removed: 0,
            in_hunk: false,
            ..st
        }
    } else if starts_with(line, "@@"@) {
        DiffModel {
            entries: st.entries.push(hunk_entry(hunk_info(line))),
            in_hunk: true,
            hunk_lines: 0,
            ..st
        }
    } else if st.in_hunk {
        let s1 = hunk_line(st, line);
        if s1.hunk_lines == MAX_HUNK_LINES {
            DiffModel {
                entries: s1.entries.push(hunk_cut_entry()),
                hunk_lines: s1.hunk_lines + 1,
                ..s1
            }
        } else {
            s1
        }
    } else {
        st
    }
}

/// One line of the diff: the line's own step, then the stop at
/// `max_entries` entries.
pub open spec fn diff_step(st: DiffModel, line: Seq<char>, max_entries: nat) -> DiffModel {
    if st.stopped {
        st
    } else {
        let s1 = line_step(st, line);
        if s1.entries.len() >= max_entries {
            DiffModel { entries: s1.entries.push(diff_cut_entry()), stopped: true, ..s1 }
        } else {
            s1
        }
    }
}

/// The state after the given lines.
pub open spec fn diff_run(ls: Seq<Seq<char>>, max_entries: nat) -> DiffModel
    decreases ls.len(),
{
    if ls.len() == 0 {
        diff_start()
    } else {
        diff_step(diff_run(ls.drop_last(), max_entries), ls.last(), max_entries)
    }
}

/// The compacted diff: the entries after all lines, the last file's counts,
/// joined with newlines.
pub open spec fn compact_diff_spec(diff: Seq<char>, max_entries: nat) -> Seq<char> {
    join_lines(with_counts(diff_run(lines(diff), max_entries)))
}


/// One line adds at most two entries.
proof fn lemma_line_step_growth(st: DiffModel, line: Seq<char>)
    ensures
        st.entries.len() <= line_step(st, line).entries.len() <= st.entries.len() + 2,
{
}

/// The scan's size: below the limit while it runs (or still empty), and
/// at most three past it once stopped.
proof fn lemma_diff_run_size(ls: Seq<Seq<char>>, max_entries: nat)
    ensures
        ({
            let st = diff_run(ls, max_entries);
            &&& !st.stopped ==> st.entries.len() < max_entries || st.entries.len() == 0
            &&& st.stopped ==> st.entries.len() <= max_entries + 3
        }),
    decreases ls.len(),
{
    if ls.len() > 0 {
        lemma_diff_run_size(ls.drop_last(), max_entries);
        let st = diff_run(ls.drop_last(), max_entries);
        if !st.stopped {
            lemma_line_step_growth(st, ls.last());
        }
    }
}

/// A compacted diff is made of at most `max_entries + 4` entries, whatever
/// the diff's length.
pub proof fn law_compact_diff_bounded(diff: Seq<char>, max_entries: nat)
    ensures
        with_counts(diff_run(lines(diff), max_entries)).len() <= max_entries + 4,
{
    lemma_diff_run_size(lines(diff), max_entries);
}

/// A line that opens a file section or a hunk.
pub open spec fn is_header_line(line: Seq<char>) -> bool {
    starts_with(line, "diff --git"@) || starts_with(line, "@@"@)
}

/// The number of added lines among `hs`.
pub open spec fn count_added(hs: Seq<Seq<char>>) -> nat
    decreases hs.len(),
{
    if hs.len() == 0 {
        0
    } else {
        count_added(hs.drop_last()) + if is_added_line(hs.last()) { 1nat } else { 0nat }
    }
}

/// The number of removed lines among `hs`.
pub open spec fn count_removed(hs: Seq<Seq<char>>) -> nat
    decreases hs.len(),
{
    if hs.len() == 0 {
        0
    } else {
        count_removed(hs.drop_last()) + if is_removed_line(hs.last()) { 1nat } else { 0nat }
    }
}

/// The state after the lines `hs`, each by its own step, from `st`.
pub open spec fn steps(st: DiffModel, hs: Seq<Seq<char>>) -> DiffModel
    decreases hs.len(),
{
    if hs.len() == 0 {
        st
    } else {
        line_step(steps(st, hs.drop_last()), hs.last())
    }
}

/// What holds through the lines of one hunk: the entries written so far
/// stay, each new entry is one the hunk counts, and the counts grow by the
/// added and removed lines.
proof fn lemma_hunk_steps(h: DiffModel, hs: Seq<Seq<char>>)
    requires
        h.in_hunk,
        h.hunk_lines == 0,
        forall|i: int| 0 <= i < hs.len() ==> !is_header_line(#[trigger] hs[i]),
    ensures
        ({
            let r = steps(h, hs);
            &&& r.in_hunk
            &&& r.file == h.file
            &&& r.hunk_lines <= MAX_HUNK_LINES + 1
            &&& r.hunk_lines != MAX_HUNK_LINES
            &&& r.entries.len() == h.entries.len() + r.hunk_lines
            &&& r.entries.subrange(0, h.entries.len() as int) == h.entries
            &&& r.added == h.added + count_added(hs)
            &&& r.removed == h.removed + count_removed(hs)
        }),
    decreases hs.len(),
{
    if hs.len() > 0 {
        let pre = hs.drop_last();
        assert forall|i: int| 0 <= i < pre.len() implies !is_header_line(#[trigger] pre[i]) by {
            assert(pre[i] == hs[i]);
        }
        lemma_hunk_steps(h, pre);
        let r0 = steps(h, pre);
        assert(!is_header_line(hs[hs.len() - 1]));
        let r = steps(h, hs);
        assert(r.entries.subrange(0, h.entries.len() as int) =~= r0.entries.subrange(
            0,
            h.entries.len() as int,
        ));
        assert(hs.drop_last() == pre);
        let last = hs.last();
        assert(!starts_with(last, "diff --git"@));
        assert(!starts_with(last, "@@"@));
        assert(is_added_line(last) ==> !is_removed_line(last)) by {
            reveal_strlit("+");
            reveal_strlit("-");
            if is_added_line(last) && is_removed_line(last) {
                assert(last[0] == "+"@[0]);
                assert(last[0] == "-"@[0]);
            }
        }
    } else {
        assert(h.entries.subrange(0, h.entries.len() as int) =~= h.entries);
    }
}

/// Within a hunk, the added and removed counts grow by exactly the hunk's
/// added (`+`, not `+++`) and removed (`-`, not `---`) lines: the counts
/// line of a file adds these up over its hunks.
pub proof fn law_hunk_counts(st: DiffModel, header: Seq<char>, hs: Seq<Seq<char>>)
    requires
        starts_with(header, "@@"@),
        !starts_with(header, "diff --git"@),
        forall|i: int| 0 <= i < hs.len() ==> !is_header_line(#[trigger] hs[i]),
    ensures
        steps(line_step(st, header), hs).added == st.added + count_added(hs),
        steps(line_step(st, header), hs).removed == st.removed + count_removed(hs),
        steps(line_step(st, header), hs).file == st.file,
{
    lemma_hunk_steps(line_step(st, header), hs);
}

/// A hunk writes its header and then at most `MAX_HUNK_LINES` shown lines
/// and the cut marker, after the entries already written, which stay.
pub proof fn law_hunk_shown_lines(st: DiffModel, header: Seq<char>, hs: Seq<Seq<char>>)
    requires
        starts_with(header, "@@"@),
        !starts_with(header, "diff --git"@),
        forall|i: int| 0 <= i < hs.len() ==> !is_header_line(#[trigger] hs[i]),
    ensures
        steps(line_step(st, header), hs).entries.len() <= st.entries.len() + 1 + MAX_HUNK_LINES
            + 1,
        steps(line_step(st, header), hs).entries.subrange(0, st.entries.len() + 1 as int) == st.entries.push(
            hunk_entry(hunk_info(header)),
        ),
{
    let h = line_step(st, header);
    lemma_hunk_steps(h, hs);
}

/// Once the entry limit is reached, the rest of the diff changes nothing.
pub proof fn law_stop_is_final(ls: Seq<Seq<char>>, more: Seq<Seq<char>>, max_entries: nat)
    requires
        diff_run(ls, max_entries).stopped,
    ensures
        diff_run(ls + more, max_entries) == diff_run(ls, max_entries),
    decreases more.len(),
{
    if more.len() == 0 {
        assert(ls + more =~= ls);
    } else {
        law_stop_is_final(ls, more.drop_last(), max_entries);
        assert((ls + more).drop_last() =~= ls + more.drop_last());
    }
}

/// Before its limit the scan is the lines' own steps: while not stopped,
/// `diff_run` is `steps` from the start.
pub proof fn law_run_is_steps(ls: Seq<Seq<char>>, max_entries: nat)
    requires
        !diff_run(ls, max_entries).stopped,
    ensures
        diff_run(ls, max_entries) == steps(diff_start(), ls),
    decreases ls.len(),
{
    if ls.len() > 0 {
        law_run_is_steps(ls.drop_last(), max_entries);
    }
}

/// After a `diff --git` line the scan is outside any hunk: the lines that
/// follow, up to the next header line (`diff --git` or `@@`), write no
/// entry, and the header line itself writes the file's entry last (after
/// the previous file's counts, if any).
pub proof fn law_file_header_leaves_hunk(st: DiffModel, header: Seq<char>, rest: Seq<Seq<char>>)
    requires
        starts_with(header, "diff --git"@),
        forall|i: int| 0 <= i < rest.len() ==> !is_header_line(#[trigger] rest[i]),
    ensures
        !line_step(st, header).in_hunk,
        line_step(st, header).file == diff_file_name(header),
        line_step(st, header).added == 0,
        line_step(st, header).removed == 0,
        line_step(st, header).entries == (if st.file.len() > 0 && (st.added > 0 || st.removed
            > 0) {
            st.entries.push("  +"@ + decimal(st.added) + " -"@ + decimal(st.removed))
        } else {
            st.entries
        }).push("\n\u{1F4C4} "@ + diff_file_name(header)),
        steps(line_step(st, header), rest) == line_step(st, header),
{
    let h = line_step(st, header);
    lemma_steps_outside_hunk(h, rest);
}

/// The file of a `diff --git` line is what follows its ` b/`: for a line
/// made of `x`, ` b/` and `y`, where neither `x` nor `y` holds ` b/`, it is
/// `y`; a line without ` b/` names the file `unknown`.
pub proof fn law_diff_file_name(x: Seq<char>, y: Seq<char>)
    requires
        !crate::text::contains(x, " b/"@),
        !crate::text::contains(y, " b/"@),
    ensures
        diff_file_name(x + " b/"@ + y) == y,
        diff_file_name(x) == "unknown"@,
{
    reveal_strlit(" b/");
    let p = " b/"@;
    let s = x + p + y;
    let k = x.len() as int;
    assert(s.subrange(k, k + 3) =~= p);
    assert(occurs_at(s, p, k));
    assert forall|j: int| 0 <= j < k implies !occurs_at(s, p, j) by {
        if occurs_at(s, p, j) {
            if j + 3 <= k {
                assert(x.subrange(j, j + 3) =~= s.subrange(j, j + 3));
                assert(occurs_at(x, p, j));
            } else if j == k - 1 {
                assert(s[j + 1] == s.subrange(j, j + 3)[1]);
                assert(s[j + 1] == p[0]);
            } else {
                assert(s[j + 2] == s.subrange(j, j + 3)[2]);
                assert(s[j + 2] == p[0]);
            }
        }
    }
    lemma_find_first(s, p, k);
    assert(s.skip(k + 3) =~= y);
    crate::text::lemma_contains_find(y, p);
    crate::text::lemma_contains_find(x, p);
}

/// `find` gives the first occurrence.
proof fn lemma_find_first(s: Seq<char>, p: Seq<char>, k: int)
    requires
        occurs_at(s, p, k),
        forall|j: int| 0 <= j < k ==> !occurs_at(s, p, j),
    ensures
        find(s, p) == Some(k),
{
    crate::text::lemma_find_from(s, p, 0);
}

/// Outside a hunk, lines that open nothing leave the scan as it is.
proof fn lemma_steps_outside_hunk(h: DiffModel, rest: Seq<Seq<char>>)
    requires
        !h.in_hunk,
        forall|i: int| 0 <= i < rest.len() ==> !is_header_line(#[trigger] rest[i]),
    ensures
        steps(h, rest) == h,
    decreases rest.len(),
{
    if rest.len() > 0 {
        let pre = rest.drop_last();
        assert forall|i: int| 0 <= i < pre.len() implies !is_header_line(#[trigger] pre[i]) by {
            assert(pre[i] == rest[i]);
        }
        lemma_steps_outside_hunk(h, pre);
        assert(!is_header_line(rest[rest.len() - 1]));
    }
}

/// An entry that opens a file section: a newline, then the file symbol.
pub open spec fn is_file_entry(e: Seq<char>) -> bool {
    e.len() >= 2 && e[0] == '\n' && e[1] == '\u{1F4C4}'
}

/// The number of file entries among `es`.
pub open spec fn count_file_entries(es: Seq<Seq<char>>) -> nat
    decreases es.len(),
{
    if es.len() == 0 {
        0
    } else {
        count_file_entries(es.drop_last()) + if is_file_entry(es.last()) { 1nat } else { 0nat }
    }
}

/// The number of `diff --git` lines among `ls`.
pub open spec fn count_file_headers(ls: Seq<Seq<char>>) -> nat
    decreases ls.len(),
{
    if ls.len() == 0 {
        0
    } else {
        count_file_headers(ls.drop_last()) + if starts_with(ls.last(), "diff --git"@) {
            1nat
        } else {
            0nat
        }
    }
}

/// An entry that starts with two spaces is no file entry.
proof fn lemma_indented_not_file(a: Seq<char>, b: Seq<char>)
    requires
        a.len() > 0,
        a[0] == ' ',
    ensures
        !is_file_entry(a + b),
{
    assert((a + b)[0] == a[0]);
}

/// Pushing an entry adds one file entry exactly when it is one.
proof fn lemma_count_push(es: Seq<Seq<char>>, e: Seq<char>)
    ensures
        count_file_entries(es.push(e)) == count_file_entries(es) + if is_file_entry(e) {
            1nat
        } else {
            0nat
        },
{
    assert(es.push(e).drop_last() =~= es);
}

/// One line writes one file entry if it is a `diff --git` line, none
/// otherwise.
proof fn lemma_step_file_entries(st: DiffModel, line: Seq<char>)
    ensures
        count_file_entries(line_step(st, line).entries) == count_file_entries(st.entries) + if starts_with(
            line,
            "diff --git"@,
        ) {
            1nat
        } else {
            0nat
        },
{
    reveal_strlit("  +");
    reveal_strlit("  @@ ");
    reveal_strlit("  ");
    reveal_strlit("  ... (truncated)");
    reveal_strlit("\n\u{1F4C4} ");
    if starts_with(line, "diff --git"@) {
        let wc = with_counts(st);
        if st.file.len() > 0 && (st.added > 0 || st.removed > 0) {
            let c = counts_entry(st.added, st.removed);
            assert(c == "  +"@ + (decimal(st.added) + " -"@ + decimal(st.removed))) by {
                assert(c =~= "  +"@ + (decimal(st.added) + " -"@ + decimal(st.removed)));
            }
            lemma_indented_not_file("  +"@, decimal(st.added) + " -"@ + decimal(st.removed));
            lemma_count_push(st.entries, c);
        }
        let f = file_entry(diff_file_name(line));
        assert(f[0] == '\n' && f[1] == '\u{1F4C4}');
        lemma_count_push(wc, f);
    } else if starts_with(line, "@@"@) {
        let info = hunk_info(line);
        let e = hunk_entry(info);
        assert(e =~= "  @@ "@ + (info + " @@"@));
        lemma_indented_not_file("  @@ "@, info + " @@"@);
        lemma_count_push(st.entries, e);
    } else if st.in_hunk {
        lemma_indented_not_file("  "@, line);
        lemma_count_push(st.entries, shown_entry(line));
        let s1 = hunk_line(st, line);
        if s1.hunk_lines == MAX_HUNK_LINES {
            lemma_indented_not_file("  ... (truncated)"@, Seq::<char>::empty());
            assert("  ... (truncated)"@ + Seq::<char>::empty() =~= hunk_cut_entry());
            lemma_count_push(s1.entries, hunk_cut_entry());
        }
    }
}

/// Lines write one file entry per `diff --git` line among them.
pub proof fn law_file_entries_per_header(st: DiffModel, ls: Seq<Seq<char>>)
    ensures
        count_file_entries(steps(st, ls).entries) == count_file_entries(st.entries)
            + count_file_headers(ls),
    decreases ls.len(),
{
    if ls.len() > 0 {
        law_file_entries_per_header(st, ls.drop_last());
        lemma_step_file_entries(steps(st, ls.drop_last()), ls.last());
    }
}

/// A compacted diff that stays below its entry limit has one file entry
/// for each `diff --git` line of the diff.
pub proof fn law_compact_diff_file_entries(diff: Seq<char>, max_entries: nat)
    requires
        !diff_run(lines(diff), max_entries).stopped,
    ensures
        count_file_entries(with_counts(diff_run(lines(diff), max_entries))) == count_file_headers(
            lines(diff),
        ),
{
    let ls = lines(diff);
    law_run_is_steps(ls, max_entries);
    law_file_entries_per_header(diff_start(), ls);
    assert(diff_start().entries =~= Seq::<Seq<char>>::empty());
    let st = diff_run(ls, max_entries);
    if st.file.len() > 0 && (st.added > 0 || st.removed > 0) {
        reveal_strlit("  +");
        let c = counts_entry(st.added, st.removed);
        assert(c =~= "  +"@ + (decimal(st.added) + " -"@ + decimal(st.removed)));
        lemma_indented_not_file("  +"@, decimal(st.added) + " -"@ + decimal(st.removed));
        lemma_count_push(st.entries, c);
    }
}

// ---------------------------------------------------------------------------
// Executable compaction
// ---------------------------------------------------------------------------

/// The state of a compaction in progress.
struct DiffScan {
    entries: Vec<Vec<char>>,
    file: Vec<char>,
    added: usize,
    removed: usize,
    in_hunk: bool,
    hunk_lines: usize,
    stopped: bool,
}

impl View for DiffScan {
    type V = DiffModel;

    closed spec fn view(&self) -> DiffModel {
        DiffModel {
            entries: views(self.entries@),
            file: self.file@,
            added: self.added as nat,
            removed: self.removed as nat,
            in_hunk: self.in_hunk,
            hunk_lines: self.hunk_lines as nat,
            stopped: self.stopped,
        }
    }
}

/// Appends `item` to `v`; the views follow.
fn push_entry(v: &mut Vec<Vec<char>>, item: Vec<char>)
    ensures
        views(final(v)@) == views(old(v)@).push(item@),
{
    let ghost iv = item@;
    v.push(item);
    assert(views(v@) =~= views(old(v)@).push(iv));
}

/// `a` followed by `b`.
fn concat(a: &Vec<char>, b: &Vec<char>) -> (res: Vec<char>)
    ensures
        res@ == a@ + b@,
{
    let mut res = sub_chars(a, 0, a.len());
    assert(a@.subrange(0, a@.len() as int) =~= a@);
    push_all(&mut res, b);
    res
}

/// The second item of splitting `s` at `sep`, if `sep` occurs.
fn second_field_chars(s: &Vec<char>, sep: &Vec<char>) -> (res: Option<Vec<char>>)
    ensures
        match res {
            Some(f) => second_field(s@, sep@) == Some(f@),
            None => second_field(s@, sep@) is None,
        },
{
    match find_chars(s, sep) {
        None => None,
        Some(k) => {
            proof {
                crate::text::lemma_find_from(s@, sep@, 0);
                assert(find(s@, sep@) == Some(k as int));
                assert(occurs_at(s@, sep@, k as int));
            }
            let sl = s.len();
            let pl = sep.len();
            assert(k + pl <= sl);
            let rest = sub_chars(s, k + pl, sl);
            assert(rest@ =~= s@.skip(k + sep@.len()));
            match find_chars(&rest, sep) {
                Some(m) => {
                    proof {
                        crate::text::lemma_find_from(rest@, sep@, 0);
                        assert(occurs_at(rest@, sep@, m as int));
                    }
                    let f = sub_chars(&rest, 0, m);
                    assert(f@ =~= rest@.take(m as int));
                    Some(f)
                },
                None => Some(rest),
            }
        },
    }
}

/// The file named by a `diff --git` line.
fn diff_file_name_chars(line: &Vec<char>) -> (res: Vec<char>)
    ensures
        res@ == diff_file_name(line@),
{
    let sep = chars_of(" b/");
    match second_field_chars(line, &sep) {
        Some(f) => f,
        None => chars_of("unknown"),
    }
}

/// The range text of a hunk header.
fn hunk_info_chars(line: &Vec<char>) -> (res: Vec<char>)
    ensures
        res@ == hunk_info(line@),
{
    let sep = chars_of("@@");
    match second_field_chars(line, &sep) {
        Some(f) => trim_chars(&f),
        None => Vec::new(),
    }
}

/// The entry with a file's counts.
fn counts_entry_chars(added: usize, removed: usize) -> (res: Vec<char>)
    ensures
        res@ == counts_entry(added as nat, removed as nat),
{
    let mut res = chars_of("  +");
    push_all(&mut res, &decimal_chars(added));
    push_all(&mut res, &chars_of(" -"));
    push_all(&mut res, &decimal_chars(removed));
    res
}

impl DiffScan {
    fn new() -> (res: DiffScan)
        ensures
            res@ == diff_start(),
    {
        let res = DiffScan {
            entries: Vec::new(),
            file: Vec::new(),
            added: 0,
            removed: 0,
            in_hunk: false,
            hunk_lines: 0,
            stopped: false,
        };
        assert(res@.entries =~= Seq::<Seq<char>>::empty());
        res
    }

    /// Adds the current file's counts, when it has changes.
    fn close_file(&mut self)
        ensures
            final(self)@ == (DiffModel { entries: with_counts(old(self)@), ..old(self)@ }),
    {
        if self.file.len() > 0 && (self.added > 0 || self.removed > 0) {
            let e = counts_entry_chars(self.added, self.removed);
            push_entry(&mut self.entries, e);
        }
    }

    /// One line inside a hunk.
    fn hunk_line(&mut self, line: &Vec<char>)
        requires
            old(self).hunk_lines <= MAX_HUNK_LINES + 1,
            old(self).added < usize::MAX,
            old(self).removed < usize::MAX,
        ensures
            final(self)@ == hunk_line(old(self)@, line@),
    {
        let room = self.hunk_lines < MAX_HUNK_LINES;
        let plus = starts_with_chars(line, &chars_of("+"));
        let plus3 = starts_with_chars(line, &chars_of("+++"));
        let minus = starts_with_chars(line, &chars_of("-"));
        let minus3 = starts_with_chars(line, &chars_of("---"));
        if plus && !plus3 {
            self.added += 1;
            if room {
                let e = concat(&chars_of("  "), line);
                push_entry(&mut self.entries, e);
                self.hunk_lines += 1;
            }
        } else if minus && !minus3 {
            self.removed += 1;
            if room {
                let e = concat(&chars_of("  "), line);
                push_entry(&mut self.entries, e);
                self.hunk_lines += 1;
            }
        } else if room && !starts_with_chars(line, &chars_of("\\")) && self.hunk_lines > 0 {
            let e = concat(&chars_of("  "), line);
            push_entry(&mut self.entries, e);
            self.hunk_lines += 1;
        }
    }

    /// One line of the diff, with the stop at `max_entries` entries.
    fn step(&mut self, line: &Vec<char>, max_entries: usize)
        requires
            old(self).hunk_lines <= MAX_HUNK_LINES + 1,
            old(self).added < usize::MAX,
            old(self).removed < usize::MAX,
        ensures
            final(self)@ == diff_step(old(self)@, line@, max_entries as nat),
            final(self).hunk_lines <= MAX_HUNK_LINES + 1,
            final(self).added <= old(self).added + 1,
            final(self).removed <= old(self).removed + 1,
    {
        if self.stopped {
            return;
        }
        if starts_with_chars(line, &chars_of("diff --git")) {
            self.close_file();
            let file = diff_file_name_chars(line);
            let e = concat(&chars_of("\n\u{1F4C4} "), &file);
            push_entry(&mut self.entries, e);
            self.file = file;
            self.added = 0;
            self.removed = 0;
            self.in_hunk = false;
        } else if starts_with_chars(line, &chars_of("@@")) {
            let info = hunk_info_chars(line);
            let mut e = concat(&chars_of("  @@ "), &info);
            push_all(&mut e, &chars_of(" @@"));
            push_entry(&mut self.entries, e);
            self.in_hunk = true;
            self.hunk_lines = 0;
        } else if self.in_hunk {
            self.hunk_line(line);
            if self.hunk_lines == MAX_HUNK_LINES {
                push_entry(&mut self.entries, chars_of("  ... (truncated)"));
                self.hunk_lines += 1;
            }
        }
        if self.entries.len() >= max_entries {
            push_entry(&mut self.entries, chars_of("\n... (more changes truncated)"));
            self.stopped = true;
        }
    }
}

/// The diff compacted: a header per file, the hunk headers, at most
/// `MAX_HUNK_LINES` shown lines per hunk (leading context left out), the
/// added and removed counts per file, and a stop once `max_lines` entries
/// have been written.
pub fn compact_diff(diff: &str, max_lines: usize) -> (res: String)
    ensures
        res@ == compact_diff_spec(diff@, max_lines as nat),
{
    let text = chars_of(diff);
    let ls = lines_of(&text);
    let n = ls.len();
    let mut scan = DiffScan::new();
    assert(views(ls@).take(0) =~= Seq::<Seq<char>>::empty());
    for i in 0..n
        invariant
            n == ls.len(),
            views(ls@) == lines(diff@),
            scan@ == diff_run(views(ls@).take(i as int), max_lines as nat),
            scan.hunk_lines <= MAX_HUNK_LINES + 1,
            scan.added <= i,
            scan.removed <= i,
    {
        assert(views(ls@).take(i + 1).drop_last() =~= views(ls@).take(i as int));
        assert(views(ls@).take(i + 1).last() == ls@[i as int]@);
        scan.step(&ls[i], max_lines);
    }
    assert(views(ls@).take(n as int) =~= views(ls@));
    scan.close_file();
    let out = join_newlines(&scan.entries);
    string_of(&out)
}

}
