//! Character-level text operations: the model of a piece of text is the
//! sequence of its characters (`Seq<char>`), and every operation here is
//! stated over that model.
use vstd::prelude::*;

verus! {

// ---------------------------------------------------------------------------
// Specifications
// ---------------------------------------------------------------------------

/// The Unicode `White_Space` property, which `char::is_whitespace` tests.
pub open spec fn is_ws(c: char) -> bool {
    ||| ('\u{9}' <= c && c <= '\u{d}')
    ||| c == ' '
    ||| c == '\u{85}'
    ||| c == '\u{a0}'
    ||| c == '\u{1680}'
    ||| ('\u{2000}' <= c && c <= '\u{200a}')
    ||| c == '\u{2028}'
    ||| c == '\u{2029}'
    ||| c == '\u{202f}'
    ||| c == '\u{205f}'
    ||| c == '\u{3000}'
}

/// `s` without its leading whitespace.
pub open spec fn trim_start(s: Seq<char>) -> Seq<char>
    decreases s.len(),
{
    if s.len() > 0 && is_ws(s[0]) {
        trim_start(s.drop_first())
    } else {
        s
    }
}

/// `s` without its trailing whitespace.
pub open spec fn trim_end(s: Seq<char>) -> Seq<char>
    decreases s.len(),
{
    if s.len() > 0 && is_ws(s.last()) {
        trim_end(s.drop_last())
    } else {
        s
    }
}

/// `s` without leading and trailing whitespace (`str::trim`).
pub open spec fn trim(s: Seq<char>) -> Seq<char> {
    trim_end(trim_start(s))
}

/// `p` is a prefix of `s` (`str::starts_with`).
pub open spec fn starts_with(s: Seq<char>, p: Seq<char>) -> bool {
    p.len() <= s.len() && s.subrange(0, p.len() as int) == p
}

/// `p` occurs in `s` starting at index `i`.
pub open spec fn occurs_at(s: Seq<char>, p: Seq<char>, i: int) -> bool {
    0 <= i && i + p.len() <= s.len() && s.subrange(i, i + p.len()) == p
}

/// `p` occurs somewhere in `s` (`str::contains`).
pub open spec fn contains(s: Seq<char>, p: Seq<char>) -> bool {
    exists|i: int| occurs_at(s, p, i)
}

/// The first index at or after `i` where `p` occurs in `s`.
pub open spec fn find_from(s: Seq<char>, p: Seq<char>, i: int) -> Option<int>
    decreases s.len() + 1 - i,
{
    if i < 0 || i + p.len() > s.len() {
        None
    } else if occurs_at(s, p, i) {
        Some(i)
    } else {
        find_from(s, p, i + 1)
    }
}

/// The first index where `p` occurs in `s` (`str::find`).
pub open spec fn find(s: Seq<char>, p: Seq<char>) -> Option<int> {
    find_from(s, p, 0)
}

/// The pieces of `s` between the `'\n'` characters: always at least one,
/// and one more than there are newlines.
pub open spec fn pieces(s: Seq<char>) -> Seq<Seq<char>>
    decreases s.len(),
{
    if s.len() == 0 {
        seq![Seq::<char>::empty()]
    } else {
        let p = pieces(s.drop_last());
        if s.last() == '\n' {
            p.push(Seq::<char>::empty())
        } else {
            p.update(p.len() - 1, p.last().push(s.last()))
        }
    }
}

/// A line that a `'\n'` ended, without the `'\r'` that may precede it.
pub open spec fn strip_cr(l: Seq<char>) -> Seq<char> {
    if l.len() > 0 && l.last() == '\r' {
        l.drop_last()
    } else {
        l
    }
}

/// The lines of `s`, as `str::lines` yields them: split at `'\n'`, each
/// ended line without a final `'\r'`, and no empty last line.
pub open spec fn lines(s: Seq<char>) -> Seq<Seq<char>> {
    let p = pieces(s);
    let ended = p.drop_last().map_values(|l: Seq<char>| strip_cr(l));
    if p.last().len() == 0 {
        ended
    } else {
        ended.push(p.last())
    }
}

/// `ls` joined with `sep` between consecutive items (`[T]::join`).
pub open spec fn join(ls: Seq<Seq<char>>, sep: Seq<char>) -> Seq<char>
    decreases ls.len(),
{
    if ls.len() == 0 {
        Seq::<char>::empty()
    } else if ls.len() == 1 {
        ls[0]
    } else {
        join(ls.drop_last(), sep) + sep + ls.last()
    }
}

/// The newline separator.
pub open spec fn nl() -> Seq<char> {
    seq!['\n']
}

/// `ls` joined with newlines.
pub open spec fn join_lines(ls: Seq<Seq<char>>) -> Seq<char> {
    join(ls, nl())
}

/// The exec vectors of characters seen as their character sequences.
pub open spec fn views(v: Seq<Vec<char>>) -> Seq<Seq<char>> {
    v.map_values(|l: Vec<char>| l@)
}

/// The decimal digit `d` (for `d < 10`).
pub open spec fn digit(d: nat) -> char {
    if d == 0 { '0' }
    else if d == 1 { '1' }
    else if d == 2 { '2' }
    else if d == 3 { '3' }
    else if d == 4 { '4' }
    else if d == 5 { '5' }
    else if d == 6 { '6' }
    else if d == 7 { '7' }
    else if d == 8 { '8' }
    else { '9' }
}

/// The decimal notation of `n`, without leading zeros (`"0"` for zero).
pub open spec fn decimal(n: nat) -> Seq<char>
    decreases n,
{
    if n < 10 {
        seq![digit(n)]
    } else {
        decimal(n / 10).push(digit(n % 10))
    }
}

/// The ellipsis that marks a shortened text.
pub open spec fn ellipsis() -> Seq<char> {
    seq!['.', '.', '.']
}

/// `s` cut to at most `max` characters: unchanged when it fits; otherwise
/// its first `max - 3` characters and `"..."`, or just `"..."` when `max`
/// is below 3.
pub open spec fn truncate(s: Seq<char>, max: nat) -> Seq<char> {
    if s.len() <= max {
        s
    } else if max < 3 {
        ellipsis()
    } else {
        s.take(max - 3) + ellipsis()
    }
}

/// The number of whitespace-separated words of `s`
/// (`str::split_whitespace().count()`): the non-whitespace characters that
/// start `s` or follow a whitespace character.
pub open spec fn words(s: Seq<char>) -> nat
    decreases s.len(),
{
    if s.len() == 0 {
        0
    } else {
        let starts = !is_ws(s.last()) && (s.len() == 1 || is_ws(s[s.len() - 2]));
        words(s.drop_last()) + if starts { 1nat } else { 0nat }
    }
}

/// The words of each of `ls`, added up.
pub open spec fn total_words(ls: Seq<Seq<char>>) -> nat
    decreases ls.len(),
{
    if ls.len() == 0 {
        0
    } else {
        total_words(ls.drop_last()) + words(ls.last())
    }
}

// ---------------------------------------------------------------------------
// Lemmas
// ---------------------------------------------------------------------------

proof fn lemma_trim_start_skip(s: Seq<char>, a: int)
    requires
        0 <= a < s.len(),
        is_ws(s[a]),
    ensures
        trim_start(s.skip(a)) == trim_start(s.skip(a + 1)),
{
    assert(s.skip(a).drop_first() =~= s.skip(a + 1));
}

proof fn lemma_trim_end_sub(s: Seq<char>, a: int, b: int)
    requires
        0 <= a < b <= s.len(),
        is_ws(s[b - 1]),
    ensures
        trim_end(s.subrange(a, b)) == trim_end(s.subrange(a, b - 1)),
{
    assert(s.subrange(a, b).drop_last() =~= s.subrange(a, b - 1));
}

/// There is always at least one piece.
pub proof fn lemma_pieces_nonempty(s: Seq<char>)
    ensures
        pieces(s).len() >= 1,
    decreases s.len(),
{
    if s.len() > 0 {
        lemma_pieces_nonempty(s.drop_last());
    }
}

/// What `find_from` answers: the first occurrence at or after `i`.
pub proof fn lemma_find_from(s: Seq<char>, p: Seq<char>, i: int)
    requires
        0 <= i,
    ensures
        find_from(s, p, i) matches Some(k) ==> i <= k && occurs_at(s, p, k) && forall|j: int|
            i <= j < k ==> !occurs_at(s, p, j),
        find_from(s, p, i) is None ==> forall|j: int| i <= j ==> !occurs_at(s, p, j),
    decreases s.len() + 1 - i,
{
    if i + p.len() <= s.len() && !occurs_at(s, p, i) {
        lemma_find_from(s, p, i + 1);
    }
}

/// `contains` holds exactly when `find` finds an occurrence.
pub proof fn lemma_contains_find(s: Seq<char>, p: Seq<char>)
    ensures
        contains(s, p) <==> find(s, p) is Some,
{
    lemma_find_from(s, p, 0);
    if let Some(k) = find(s, p) {
        assert(occurs_at(s, p, k));
    }
}

/// Trimming never lengthens a text.
pub proof fn lemma_trim_len(s: Seq<char>)
    ensures
        trim_start(s).len() <= s.len(),
        trim(s).len() <= s.len(),
{
    lemma_trim_start_len(s);
    lemma_trim_end_len(trim_start(s));
}

proof fn lemma_trim_start_len(s: Seq<char>)
    ensures
        trim_start(s).len() <= s.len(),
    decreases s.len(),
{
    if s.len() > 0 && is_ws(s[0]) {
        lemma_trim_start_len(s.drop_first());
    }
}

proof fn lemma_trim_end_len(s: Seq<char>)
    ensures
        trim_end(s).len() <= s.len(),
    decreases s.len(),
{
    if s.len() > 0 && is_ws(s.last()) {
        lemma_trim_end_len(s.drop_last());
    }
}

/// A joined list is at least as long as its last item.
pub proof fn lemma_join_len_last(ls: Seq<Seq<char>>, sep: Seq<char>)
    requires
        ls.len() > 0,
    ensures
        join(ls, sep).len() >= ls.last().len(),
{
}

/// A cut text fits in `max` characters (for `max` of at least 3), and a
/// text that fits is left as it is.
pub proof fn law_truncate_fits(s: Seq<char>, max: nat)
    ensures
        s.len() <= max ==> truncate(s, max) == s,
        max >= 3 ==> truncate(s, max).len() <= max,
        max >= 3 && s.len() > max ==> truncate(s, max) == s.take(max - 3) + ellipsis(),
{
}

/// Appending whitespace adds no word.
pub proof fn lemma_words_push_ws(a: Seq<char>, c: char)
    requires
        is_ws(c),
    ensures
        words(a.push(c)) == words(a),
{
    assert(a.push(c).drop_last() =~= a);
}

/// After a text that ends in whitespace (or is empty), the words of the
/// two parts add up.
pub proof fn lemma_words_concat(a: Seq<char>, b: Seq<char>)
    requires
        a.len() == 0 || is_ws(a.last()),
    ensures
        words(a + b) == words(a) + words(b),
    decreases b.len(),
{
    if b.len() > 0 {
        lemma_words_concat(a, b.drop_last());
        assert((a + b).drop_last() =~= a + b.drop_last());
        assert((a + b).last() == b.last());
        if b.len() >= 2 {
            assert((a + b)[(a + b).len() - 2] == b[b.len() - 2]);
        } else if a.len() > 0 {
            assert((a + b)[(a + b).len() - 2] == a.last());
        }
    } else {
        assert(a + b =~= a);
    }
}

/// Leading whitespace holds no word.
proof fn lemma_words_trim_start(s: Seq<char>)
    ensures
        words(trim_start(s)) == words(s),
    decreases s.len(),
{
    if s.len() > 0 && is_ws(s[0]) {
        lemma_words_trim_start(s.drop_first());
        assert(s =~= seq![s[0]] + s.drop_first());
        assert(seq![s[0]].drop_last() =~= Seq::<char>::empty());
        assert(seq![s[0]].last() == s[0]);
        assert(words(Seq::<char>::empty()) == 0);
        assert(words(seq![s[0]]) == 0);
        lemma_words_concat(seq![s[0]], s.drop_first());
    }
}

/// Trailing whitespace holds no word.
proof fn lemma_words_trim_end(s: Seq<char>)
    ensures
        words(trim_end(s)) == words(s),
    decreases s.len(),
{
    if s.len() > 0 && is_ws(s.last()) {
        lemma_words_trim_end(s.drop_last());
    }
}

/// Trimming keeps the words.
pub proof fn lemma_words_trim(s: Seq<char>)
    ensures
        words(trim(s)) == words(s),
{
    lemma_words_trim_start(s);
    lemma_words_trim_end(trim_start(s));
}

/// Joining with newlines keeps the words of the items.
pub proof fn lemma_words_join_lines(ls: Seq<Seq<char>>)
    ensures
        words(join_lines(ls)) == total_words(ls),
    decreases ls.len(),
{
    if ls.len() == 0 {
        assert(words(Seq::<char>::empty()) == 0);
    } else if ls.len() == 1 {
        assert(ls.drop_last() =~= Seq::<Seq<char>>::empty());
        assert(total_words(Seq::<Seq<char>>::empty()) == 0);
        assert(join_lines(ls) == ls[0]);
    } else {
        lemma_words_join_lines(ls.drop_last());
        let a = join_lines(ls.drop_last());
        lemma_words_push_ws(a, '\n');
        assert(a + nl() =~= a.push('\n'));
        assert((a + nl()).last() == '\n');
        lemma_words_concat(a + nl(), ls.last());
        assert(join_lines(ls) == a + nl() + ls.last());
    }
}

/// The last piece of `s` ends `s`, right after a newline or at its start.
proof fn lemma_pieces_last(s: Seq<char>)
    ensures
        pieces(s).len() >= 1,
        pieces(s).last().len() <= s.len(),
        pieces(s).last() == s.skip(s.len() - pieces(s).last().len()),
        pieces(s).last().len() < s.len() ==> s[s.len() - pieces(s).last().len() - 1] == '\n',
    decreases s.len(),
{
    lemma_pieces_nonempty(s);
    if s.len() > 0 {
        lemma_pieces_last(s.drop_last());
        let p = pieces(s.drop_last());
        if s.last() == '\n' {
            assert(s.skip(s.len() as int) =~= Seq::<char>::empty());
        } else {
            assert(s.skip(s.len() - p.last().len() - 1) =~= s.drop_last().skip(
                s.len() - 1 - p.last().len(),
            ).push(s.last()));
        }
    }
}

/// The pieces between the newlines hold all the words.
proof fn lemma_words_pieces(s: Seq<char>)
    ensures
        total_words(pieces(s)) == words(s),
    decreases s.len(),
{
    if s.len() == 0 {
        assert(pieces(s).drop_last() =~= Seq::<Seq<char>>::empty());
        assert(pieces(s).last() =~= Seq::<char>::empty());
        assert(total_words(Seq::<Seq<char>>::empty()) == 0);
        assert(words(Seq::<char>::empty()) == 0);
        assert(total_words(pieces(s)) == 0);
    } else {
        let s0 = s.drop_last();
        lemma_words_pieces(s0);
        lemma_pieces_last(s0);
        let p = pieces(s0);
        let c = s.last();
        assert(s =~= s0.push(c));
        assert(s.drop_last() =~= s0);
        if c == '\n' {
            assert(pieces(s) == p.push(Seq::<char>::empty()));
            assert(p.push(Seq::<char>::empty()).drop_last() =~= p);
            assert(total_words(pieces(s)) == total_words(p) + words(Seq::<char>::empty()));
            assert(words(s) == words(s0));
        } else {
            let l = p.last();
            let q = p.update(p.len() - 1, l.push(c));
            assert(pieces(s) == q);
            assert(q.drop_last() =~= p.drop_last());
            assert(q.last() == l.push(c));
            assert(l.push(c).drop_last() =~= l);
            assert(total_words(q) == total_words(p.drop_last()) + words(l.push(c)));
            assert(total_words(p) == total_words(p.drop_last()) + words(l));
            if l.len() > 0 {
                assert(l.last() == l[l.len() - 1]);
                assert(l[l.len() - 1] == s0.skip(s0.len() - l.len())[l.len() - 1]);
                assert(l.last() == s0.last());
                assert(l.push(c)[l.push(c).len() - 2] == l.last());
                assert(s[s.len() - 2] == s0.last());
            } else if s0.len() > 0 {
                assert(s0.last() == '\n');
                assert(s[s.len() - 2] == s0.last());
            }
        }
    }
}

/// Items with the same words add up to the same total.
proof fn lemma_total_words_strip_cr(ls: Seq<Seq<char>>)
    ensures
        total_words(ls.map_values(|l: Seq<char>| strip_cr(l))) == total_words(ls),
    decreases ls.len(),
{
    if ls.len() > 0 {
        lemma_total_words_strip_cr(ls.drop_last());
        assert(ls.map_values(|l: Seq<char>| strip_cr(l)).drop_last() =~= ls.drop_last().map_values(
            |l: Seq<char>| strip_cr(l),
        ));
        let l = ls.last();
        if l.len() > 0 && l.last() == '\r' {
            assert(l =~= l.drop_last().push('\r'));
            lemma_words_push_ws(l.drop_last(), '\r');
        }
    }
}

/// The lines of a text hold all its words.
pub proof fn lemma_words_lines(s: Seq<char>)
    ensures
        total_words(lines(s)) == words(s),
{
    lemma_words_pieces(s);
    lemma_pieces_nonempty(s);
    let p = pieces(s);
    let ended = p.drop_last().map_values(|l: Seq<char>| strip_cr(l));
    lemma_total_words_strip_cr(p.drop_last());
    if p.last().len() > 0 {
        assert(ended.push(p.last()).drop_last() =~= ended);
    }
}

/// Keeping some items keeps at most their words.
pub proof fn lemma_total_words_filter(ls: Seq<Seq<char>>, keep: spec_fn(Seq<char>) -> bool)
    ensures
        total_words(ls.filter(keep)) <= total_words(ls),
    decreases ls.len(),
{
    if ls.len() == 0 {
        assert(ls.filter(keep) =~= ls) by {
            reveal(Seq::filter);
        }
    } else {
        lemma_total_words_filter(ls.drop_last(), keep);
        assert(ls =~= ls.drop_last().push(ls.last()));
        ls.drop_last().lemma_filter_push(ls.last(), keep);
        if keep(ls.last()) {
            assert(ls.drop_last().filter(keep).push(ls.last()).drop_last() =~= ls.drop_last().filter(
                keep,
            ));
        }
    }
}

/// A text that starts with a non-whitespace character keeps something
/// when trimmed.
pub proof fn lemma_trim_nonempty(s: Seq<char>)
    requires
        s.len() > 0,
        !is_ws(s[0]),
    ensures
        trim_start(s) == s,
        trim(s).len() > 0,
{
    lemma_trim_end_keeps_first(s);
}

proof fn lemma_trim_end_keeps_first(s: Seq<char>)
    requires
        s.len() > 0,
        !is_ws(s[0]),
    ensures
        trim_end(s).len() > 0,
    decreases s.len(),
{
    if s.len() > 1 && is_ws(s.last()) {
        assert(s.drop_last()[0] == s[0]);
        lemma_trim_end_keeps_first(s.drop_last());
    }
}

/// The value of a decimal digit character.
pub open spec fn digit_value(c: char) -> nat {
    if c == '0' { 0 }
    else if c == '1' { 1 }
    else if c == '2' { 2 }
    else if c == '3' { 3 }
    else if c == '4' { 4 }
    else if c == '5' { 5 }
    else if c == '6' { 6 }
    else if c == '7' { 7 }
    else if c == '8' { 8 }
    else { 9 }
}

/// The number that a string of decimal digits denotes.
pub open spec fn decimal_value(s: Seq<char>) -> nat
    decreases s.len(),
{
    if s.len() == 0 {
        0
    } else {
        decimal_value(s.drop_last()) * 10 + digit_value(s.last())
    }
}

/// The decimal notation of a number is made of digits, starts with a
/// non-zero digit unless the number is 0, and reads back as the number.
pub proof fn law_decimal_reads_back(n: nat)
    ensures
        decimal(n).len() > 0,
        forall|i: int| 0 <= i < decimal(n).len() ==> '0' <= #[trigger] decimal(n)[i] <= '9',
        n > 0 ==> decimal(n)[0] != '0',
        decimal_value(decimal(n)) == n,
    decreases n,
{
    if n >= 10 {
        law_decimal_reads_back(n / 10);
        let d = decimal(n / 10);
        assert(decimal(n) == d.push(digit(n % 10)));
        assert(d.push(digit(n % 10)).drop_last() =~= d);
        assert(decimal(n)[0] == d[0]);
        assert(digit_value(digit(n % 10)) == n % 10);
        assert(decimal_value(decimal(n)) == decimal_value(d) * 10 + digit_value(digit(n % 10)));
        assert((n / 10) * 10 + n % 10 == n);
        assert forall|i: int| 0 <= i < decimal(n).len() implies '0' <= #[trigger] decimal(n)[i]
            <= '9' by {
            if i < d.len() {
                assert(decimal(n)[i] == d[i]);
            }
        }
    } else {
        assert(seq![digit(n)].drop_last() =~= Seq::<char>::empty());
        assert(decimal_value(Seq::<char>::empty()) == 0);
        assert(digit_value(digit(n)) == n);
    }
}

/// `c` does not occur in `s`.
pub open spec fn lacks(s: Seq<char>, c: char) -> bool {
    forall|i: int| 0 <= i < s.len() ==> #[trigger] s[i] != c
}

/// No piece holds a newline.
proof fn lemma_pieces_lack_newline(s: Seq<char>)
    ensures
        forall|k: int| 0 <= k < pieces(s).len() ==> lacks(#[trigger] pieces(s)[k], '\n'),
    decreases s.len(),
{
    lemma_pieces_nonempty(s);
    if s.len() > 0 {
        lemma_pieces_lack_newline(s.drop_last());
        lemma_pieces_nonempty(s.drop_last());
        let p = pieces(s.drop_last());
        if s.last() != '\n' {
            let q = p.update(p.len() - 1, p.last().push(s.last()));
            assert forall|k: int| 0 <= k < q.len() implies lacks(#[trigger] q[k], '\n') by {
                if k == p.len() - 1 {
                    assert(lacks(p[k], '\n'));
                    assert forall|i: int| 0 <= i < q[k].len() implies #[trigger] q[k][i] != '\n' by {
                        if i < p[k].len() {
                            assert(q[k][i] == p[k][i]);
                        }
                    }
                }
            }
        } else {
            let q = p.push(Seq::<char>::empty());
            assert forall|k: int| 0 <= k < q.len() implies lacks(#[trigger] q[k], '\n') by {
                if k < p.len() {
                    assert(q[k] == p[k]);
                }
            }
        }
    }
}

/// No line holds a newline.
pub proof fn lemma_lines_lack_newline(s: Seq<char>)
    ensures
        forall|k: int| 0 <= k < lines(s).len() ==> lacks(#[trigger] lines(s)[k], '\n'),
{
    lemma_pieces_lack_newline(s);
    lemma_pieces_nonempty(s);
    let p = pieces(s);
    assert forall|k: int| 0 <= k < lines(s).len() implies lacks(#[trigger] lines(s)[k], '\n') by {
        if k < p.len() - 1 {
            assert(lines(s)[k] == strip_cr(p[k]));
            assert(lacks(p[k], '\n'));
        } else {
            assert(lines(s)[k] == p.last());
            assert(lacks(p[p.len() - 1], '\n'));
        }
    }
}

/// Joining the pieces with newlines gives the text back.
proof fn lemma_join_pieces(s: Seq<char>)
    ensures
        join(pieces(s), nl()) == s,
    decreases s.len(),
{
    lemma_pieces_nonempty(s);
    if s.len() > 0 {
        let s0 = s.drop_last();
        lemma_join_pieces(s0);
        lemma_pieces_nonempty(s0);
        let p = pieces(s0);
        assert(s =~= s0.push(s.last()));
        if s.last() == '\n' {
            let q = p.push(Seq::<char>::empty());
            assert(q.drop_last() =~= p);
            assert(join(q, nl()) =~= s);
        } else {
            let q = p.update(p.len() - 1, p.last().push(s.last()));
            if p.len() == 1 {
                assert(join(q, nl()) =~= s);
            } else {
                assert(q.drop_last() =~= p.drop_last());
                assert(join(q, nl()) =~= s);
            }
        }
    } else {
        assert(s =~= Seq::<char>::empty());
        assert(pieces(s) =~= seq![s]);
    }
}

/// `b` occurs in `a` and `p` in `b`: `p` occurs in `a`.
pub proof fn lemma_contains_trans(a: Seq<char>, b: Seq<char>, p: Seq<char>)
    requires
        contains(a, b),
        contains(b, p),
    ensures
        contains(a, p),
{
    let i = choose|i: int| occurs_at(a, b, i);
    let j = choose|j: int| occurs_at(b, p, j);
    assert(a.subrange(i + j, i + j + p.len()) =~= b.subrange(j, j + p.len()));
    assert(occurs_at(a, p, i + j));
}

/// Every item occurs in the joined text.
pub proof fn lemma_item_in_join(ls: Seq<Seq<char>>, sep: Seq<char>, k: int)
    requires
        0 <= k < ls.len(),
    ensures
        contains(join(ls, sep), ls[k]),
    decreases ls.len(),
{
    let j = join(ls, sep);
    if ls.len() == 1 {
        assert(j.subrange(0, ls[k].len() as int) =~= ls[k]);
        assert(occurs_at(j, ls[k], 0));
    } else if k == ls.len() - 1 {
        let off: int = (join(ls.drop_last(), sep).len() + sep.len()) as int;
        assert(j.subrange(off, off + ls[k].len()) =~= ls[k]);
        assert(occurs_at(j, ls[k], off));
    } else {
        lemma_item_in_join(ls.drop_last(), sep, k);
        let a = join(ls.drop_last(), sep);
        let i = choose|i: int| occurs_at(a, ls[k], i);
        assert(j.subrange(i, i + ls[k].len()) =~= a.subrange(i, i + ls[k].len()));
        assert(occurs_at(j, ls[k], i));
    }
}

/// Every line occurs in the text.
pub proof fn lemma_line_in_text(s: Seq<char>, k: int)
    requires
        0 <= k < lines(s).len(),
    ensures
        contains(s, lines(s)[k]),
{
    lemma_pieces_nonempty(s);
    lemma_join_pieces(s);
    let p = pieces(s);
    if k < p.len() - 1 {
        lemma_item_in_join(p, nl(), k);
        let x = p[k];
        let l = strip_cr(x);
        assert(x.subrange(0, l.len() as int) =~= l);
        assert(occurs_at(x, l, 0));
        lemma_contains_trans(s, x, l);
    } else {
        lemma_item_in_join(p, nl(), p.len() - 1);
    }
}

/// In a text joined with newlines, a pattern without a newline occurs
/// within one item.
pub proof fn lemma_contains_in_item(ls: Seq<Seq<char>>, p: Seq<char>)
    requires
        p.len() > 0,
        lacks(p, '\n'),
        contains(join_lines(ls), p),
    ensures
        exists|k: int| 0 <= k < ls.len() && contains(#[trigger] ls[k], p),
    decreases ls.len(),
{
    let j = join_lines(ls);
    let i = choose|i: int| occurs_at(j, p, i);
    if ls.len() == 1 {
        assert(contains(ls[0], p));
    } else if ls.len() > 1 {
        let a = join_lines(ls.drop_last());
        let b = ls.last();
        assert(j == a + nl() + b);
        if i + p.len() <= a.len() {
            assert(a.subrange(i, i + p.len()) =~= j.subrange(i, i + p.len()));
            assert(occurs_at(a, p, i));
            lemma_contains_in_item(ls.drop_last(), p);
            let k = choose|k: int| 0 <= k < ls.drop_last().len() && contains(
                #[trigger] ls.drop_last()[k],
                p,
            );
            assert(ls[k] == ls.drop_last()[k]);
        } else if i > a.len() {
            let off = i - a.len() - 1;
            assert(b.subrange(off, off + p.len()) =~= j.subrange(i, i + p.len()));
            assert(occurs_at(b, p, off));
            assert(contains(ls[ls.len() - 1], p));
        } else {
            assert(j[a.len() as int] == '\n');
            assert(p[a.len() - i] == j.subrange(i, i + p.len())[a.len() - i]);
        }
    }
}

/// Adding text without a newline extends the last piece.
proof fn lemma_pieces_append(x: Seq<char>, b: Seq<char>)
    requires
        lacks(b, '\n'),
    ensures
        pieces(x + b) == pieces(x).update(pieces(x).len() - 1, pieces(x).last() + b),
    decreases b.len(),
{
    lemma_pieces_nonempty(x);
    if b.len() == 0 {
        assert(x + b =~= x);
        assert(pieces(x).last() + b =~= pieces(x).last());
        assert(pieces(x).update(pieces(x).len() - 1, pieces(x).last()) =~= pieces(x));
    } else {
        let b0 = b.drop_last();
        assert(lacks(b0, '\n')) by {
            assert forall|i: int| 0 <= i < b0.len() implies #[trigger] b0[i] != '\n' by {
                assert(b0[i] == b[i]);
            }
        }
        lemma_pieces_append(x, b0);
        assert((x + b).drop_last() =~= x + b0);
        assert((x + b).last() == b.last());
        assert(b.last() == b[b.len() - 1]);
        let p = pieces(x);
        let q = p.update(p.len() - 1, p.last() + b0);
        assert(q.update(q.len() - 1, q.last().push(b.last())) =~= p.update(
            p.len() - 1,
            p.last() + b,
        )) by {
            assert((p.last() + b0).push(b.last()) =~= p.last() + b);
        }
    }
}

/// The lines of items joined with newlines are the items, when none holds
/// a newline or a carriage return and the last is not empty.
pub proof fn lemma_lines_of_join(ls: Seq<Seq<char>>)
    requires
        ls.len() > 0,
        ls.last().len() > 0,
        forall|k: int| 0 <= k < ls.len() ==> lacks(#[trigger] ls[k], '\n'),
        forall|k: int| 0 <= k < ls.len() ==> lacks(#[trigger] ls[k], '\r'),
    ensures
        lines(join_lines(ls)) == ls,
{
    lemma_pieces_of_join(ls);
    let p = pieces(join_lines(ls));
    assert(p.drop_last().map_values(|l: Seq<char>| strip_cr(l)) =~= ls.drop_last()) by {
        assert forall|k: int| 0 <= k < ls.len() - 1 implies strip_cr(#[trigger] ls[k]) == ls[k] by {
            if ls[k].len() > 0 {
                assert(ls[k].last() == ls[k][ls[k].len() - 1]);
            }
        }
    }
    assert(ls.drop_last().push(ls.last()) =~= ls);
}

/// The pieces of items joined with newlines are the items, when none
/// holds a newline.
proof fn lemma_pieces_of_join(ls: Seq<Seq<char>>)
    requires
        ls.len() > 0,
        forall|k: int| 0 <= k < ls.len() ==> lacks(#[trigger] ls[k], '\n'),
    ensures
        pieces(join_lines(ls)) == ls,
    decreases ls.len(),
{
    let e = Seq::<char>::empty();
    if ls.len() == 1 {
        lemma_pieces_append(e, ls[0]);
        assert(e + ls[0] =~= ls[0]);
        assert(pieces(e) =~= seq![e]);
        assert(seq![e].update(0, e + ls[0]) =~= ls);
    } else {
        let pre = ls.drop_last();
        assert forall|k: int| 0 <= k < pre.len() implies lacks(#[trigger] pre[k], '\n') by {
            assert(pre[k] == ls[k]);
        }
        lemma_pieces_of_join(pre);
        let a = join_lines(pre);
        let an = a.push('\n');
        assert(a + nl() =~= an);
        assert(an.drop_last() =~= a);
        assert(pieces(an) == pieces(a).push(e));
        assert(lacks(ls[ls.len() - 1], '\n'));
        lemma_pieces_append(an, ls.last());
        assert(join_lines(ls) == an + ls.last());
        assert(pieces(a).push(e).update(ls.len() - 1, e + ls.last()) =~= ls);
    }
}

/// Keeping the items that all pass keeps them all.
pub proof fn lemma_filter_all(ls: Seq<Seq<char>>, keep: spec_fn(Seq<char>) -> bool)
    requires
        forall|k: int| 0 <= k < ls.len() ==> keep(#[trigger] ls[k]),
    ensures
        ls.filter(keep) == ls,
    decreases ls.len(),
{
    if ls.len() == 0 {
        assert(ls.filter(keep) =~= ls) by {
            reveal(Seq::filter);
        }
    } else {
        let pre = ls.drop_last();
        assert forall|k: int| 0 <= k < pre.len() implies keep(#[trigger] pre[k]) by {
            assert(pre[k] == ls[k]);
        }
        lemma_filter_all(pre, keep);
        assert(ls =~= pre.push(ls.last()));
        pre.lemma_filter_push(ls.last(), keep);
        assert(keep(ls[ls.len() - 1]));
    }
}

// ---------------------------------------------------------------------------
// Executable operations
// ---------------------------------------------------------------------------

/// Appends one character to a string with `String::push`. Trusted: the
/// string afterwards holds its old characters and then `c`, as the
/// standard library documents.
#[verifier::external_body]
fn push_char(s: &mut String, c: char)
    ensures
        final(s)@ == old(s)@.push(c),
{
    s.push(c);
}

/// The characters of `s`, in order.
pub fn chars_of(s: &str) -> (res: Vec<char>)
    ensures
        res@ == s@,
{
    let mut res: Vec<char> = Vec::new();
    for c in it: s.chars()
        invariant
            res@ == it.seq().take(it.index() as int),
    {
        res.push(c);
    }
    res
}

/// A string holding the characters of `v`, in order.
pub fn string_of(v: &Vec<char>) -> (res: String)
    ensures
        res@ == v@,
{
    let mut res = String::new();
    let n = v.len();
    for i in 0..n
        invariant
            n == v.len(),
            res@ == v@.take(i as int),
    {
        push_char(&mut res, v[i]);
        assert(v@.take(i + 1) =~= v@.take(i as int).push(v@[i as int]));
    }
    assert(v@.take(n as int) =~= v@);
    res
}

/// `char::is_whitespace`.
pub fn is_whitespace(c: char) -> (res: bool)
    ensures
        res == is_ws(c),
{
    ('\u{9}' <= c && c <= '\u{d}') || c == ' ' || c == '\u{85}' || c == '\u{a0}' || c
        == '\u{1680}' || ('\u{2000}' <= c && c <= '\u{200a}') || c == '\u{2028}' || c
        == '\u{2029}' || c == '\u{202f}' || c == '\u{205f}' || c == '\u{3000}'
}

/// The characters of `s` from index `a` up to (not including) `b`.
pub fn sub_chars(s: &Vec<char>, a: usize, b: usize) -> (res: Vec<char>)
    requires
        a <= b <= s.len(),
    ensures
        res@ == s@.subrange(a as int, b as int),
{
    let mut res: Vec<char> = Vec::new();
    let mut i = a;
    while i < b
        invariant
            a <= i <= b <= s.len(),
            res@ == s@.subrange(a as int, i as int),
        decreases b - i,
    {
        res.push(s[i]);
        i += 1;
        assert(res@ =~= s@.subrange(a as int, i as int));
    }
    res
}

/// `s` without leading and trailing whitespace.
pub fn trim_chars(s: &Vec<char>) -> (res: Vec<char>)
    ensures
        res@ == trim(s@),
{
    let n = s.len();
    let mut a: usize = 0;
    assert(s@.skip(0) =~= s@);
    while a < n && is_whitespace(s[a])
        invariant
            a <= n == s.len(),
            trim_start(s@) == trim_start(s@.skip(a as int)),
        decreases n - a,
    {
        proof {
            lemma_trim_start_skip(s@, a as int);
        }
        a += 1;
    }
    assert(trim_start(s@) == s@.skip(a as int));
    let mut b: usize = n;
    assert(s@.skip(a as int) =~= s@.subrange(a as int, n as int));
    while b > a && is_whitespace(s[b - 1])
        invariant
            a <= b <= n == s.len(),
            trim(s@) == trim_end(s@.subrange(a as int, b as int)),
        decreases b,
    {
        proof {
            lemma_trim_end_sub(s@, a as int, b as int);
        }
        b -= 1;
    }
    sub_chars(s, a, b)
}


/// The lines of `s` (`str::lines`).
pub fn lines_of(s: &Vec<char>) -> (res: Vec<Vec<char>>)
    ensures
        views(res@) == lines(s@),
{
    let n = s.len();
    let mut done: Vec<Vec<char>> = Vec::new();
    let mut cur: Vec<char> = Vec::new();
    assert(s@.take(0) =~= Seq::<char>::empty());
    for i in 0..n
        invariant
            n == s.len(),
            views(done@) == pieces(s@.take(i as int)).drop_last().map_values(
                |l: Seq<char>| strip_cr(l),
            ),
            cur@ == pieces(s@.take(i as int)).last(),
    {
        let ghost prev = pieces(s@.take(i as int));
        proof {
            lemma_pieces_nonempty(s@.take(i as int));
        }
        assert(s@.take(i + 1).drop_last() =~= s@.take(i as int));
        assert(s@.take(i + 1).last() == s@[i as int]);
        let c = s[i];
        if c == '\n' {
            let k = cur.len();
            if k > 0 && cur[k - 1] == '\r' {
                cur.pop();
            }
            assert(cur@ == strip_cr(prev.last()));
            let ghost old_done = done@;
            let ghost cv = cur@;
            done.push(cur);
            cur = Vec::new();
            assert(views(done@) =~= views(old_done).push(cv));
            assert(pieces(s@.take(i + 1)) == prev.push(Seq::<char>::empty()));
            assert(pieces(s@.take(i + 1)).drop_last() =~= prev);
            assert(prev =~= prev.drop_last().push(prev.last()));
            assert(views(done@) =~= pieces(s@.take(i + 1)).drop_last().map_values(
                |l: Seq<char>| strip_cr(l),
            ));
        } else {
            cur.push(c);
            assert(pieces(s@.take(i + 1)).drop_last() =~= prev.drop_last());
        }
    }
    assert(s@.take(n as int) =~= s@);
    if cur.len() > 0 {
        done.push(cur);
        assert(views(done@) =~= lines(s@));
    } else {
        assert(views(done@) =~= lines(s@));
    }
    done
}


/// Appends the characters of `src` to `dst`.
pub fn push_all(dst: &mut Vec<char>, src: &Vec<char>)
    ensures
        final(dst)@ == old(dst)@ + src@,
{
    let n = src.len();
    for i in 0..n
        invariant
            n == src.len(),
            dst@ == old(dst)@ + src@.take(i as int),
    {
        dst.push(src[i]);
        assert(src@.take(i + 1) =~= src@.take(i as int).push(src@[i as int]));
    }
    assert(src@.take(n as int) =~= src@);
}

/// `ls` joined with `sep` between consecutive items.
pub fn join_with(ls: &Vec<Vec<char>>, sep: &Vec<char>) -> (res: Vec<char>)
    ensures
        res@ == join(views(ls@), sep@),
{
    let n = ls.len();
    let mut res: Vec<char> = Vec::new();
    assert(views(ls@).take(0) =~= Seq::<Seq<char>>::empty());
    for i in 0..n
        invariant
            n == ls.len(),
            res@ == join(views(ls@).take(i as int), sep@),
    {
        let ghost t = views(ls@).take(i + 1);
        assert(t.drop_last() =~= views(ls@).take(i as int));
        assert(t.last() == ls@[i as int]@);
        if i > 0 {
            push_all(&mut res, sep);
        }
        push_all(&mut res, &ls[i]);
        if i == 0 {
            assert(res@ =~= t[0]);
        }
    }
    assert(views(ls@).take(n as int) =~= views(ls@));
    res
}

/// `ls` joined with newlines.
pub fn join_newlines(ls: &Vec<Vec<char>>) -> (res: Vec<char>)
    ensures
        res@ == join_lines(views(ls@)),
{
    let mut sep: Vec<char> = Vec::new();
    sep.push('\n');
    assert(sep@ =~= nl());
    join_with(ls, &sep)
}

/// Whether `p` occurs in `s` at index `i`.
pub fn occurs_at_index(s: &Vec<char>, p: &Vec<char>, i: usize) -> (res: bool)
    ensures
        res == occurs_at(s@, p@, i as int),
{
    let n = s.len();
    let m = p.len();
    if m > n || i > n - m {
        return false;
    }
    let mut j: usize = 0;
    while j < m
        invariant
            n == s.len(),
            m == p.len(),
            i + m <= n,
            j <= m,
            s@.subrange(i as int, i + j) == p@.take(j as int),
        decreases m - j,
    {
        if s[i + j] != p[j] {
            assert(s@.subrange(i as int, i + m)[j as int] != p@[j as int]);
            return false;
        }
        j += 1;
        assert(s@.subrange(i as int, i + j) =~= p@.take(j as int));
    }
    assert(p@.take(m as int) =~= p@);
    true
}

/// The first index where `p` occurs in `s`.
pub fn find_chars(s: &Vec<char>, p: &Vec<char>) -> (res: Option<usize>)
    ensures
        match res {
            Some(i) => find(s@, p@) == Some(i as int),
            None => find(s@, p@) is None,
        },
{
    let n = s.len();
    let m = p.len();
    if m > n {
        return None;
    }
    let mut i: usize = 0;
    while i <= n - m
        invariant
            n == s.len(),
            m == p.len(),
            m <= n,
            find(s@, p@) == find_from(s@, p@, i as int),
        decreases n - m + 1 - i,
    {
        if occurs_at_index(s, p, i) {
            return Some(i);
        }
        if i == n - m {
            assert(find_from(s@, p@, i + 1) is None);
            return None;
        }
        i += 1;
    }
    None
}

/// Whether `p` occurs in `s`.
pub fn contains_chars(s: &Vec<char>, p: &Vec<char>) -> (res: bool)
    ensures
        res == contains(s@, p@),
{
    proof {
        lemma_contains_find(s@, p@);
    }
    find_chars(s, p).is_some()
}

/// Whether `s` starts with `p`.
pub fn starts_with_chars(s: &Vec<char>, p: &Vec<char>) -> (res: bool)
    ensures
        res == starts_with(s@, p@),
{
    occurs_at_index(s, p, 0)
}

/// Whether `s` starts with the character `c`.
pub fn starts_with_char(s: &Vec<char>, c: char) -> (res: bool)
    ensures
        res == starts_with(s@, seq![c]),
{
    let r = s.len() > 0 && s[0] == c;
    assert(r ==> s@.subrange(0, 1) =~= seq![c]);
    assert(s@.len() > 0 && s@.subrange(0, 1) == seq![c] ==> s@[0] == seq![c][0]);
    r
}

/// The decimal digit `d`.
pub fn digit_char(d: usize) -> (c: char)
    requires
        d < 10,
    ensures
        c == digit(d as nat),
{
    if d == 0 { '0' }
    else if d == 1 { '1' }
    else if d == 2 { '2' }
    else if d == 3 { '3' }
    else if d == 4 { '4' }
    else if d == 5 { '5' }
    else if d == 6 { '6' }
    else if d == 7 { '7' }
    else if d == 8 { '8' }
    else { '9' }
}

/// The decimal notation of `n`.
pub fn decimal_chars(n: usize) -> (res: Vec<char>)
    ensures
        res@ == decimal(n as nat),
    decreases n,
{
    if n < 10 {
        let mut v: Vec<char> = Vec::new();
        v.push(digit_char(n));
        assert(v@ =~= seq![digit(n as nat)]);
        v
    } else {
        let mut v = decimal_chars(n / 10);
        v.push(digit_char(n % 10));
        v
    }
}

/// `s` cut to at most `max` characters, marking a cut with `"..."`.
pub fn truncate_chars(s: &Vec<char>, max: usize) -> (res: Vec<char>)
    ensures
        res@ == truncate(s@, max as nat),
{
    let mut dots: Vec<char> = Vec::new();
    dots.push('.');
    dots.push('.');
    dots.push('.');
    assert(dots@ =~= ellipsis());
    if s.len() <= max {
        sub_chars(s, 0, s.len())
    } else if max < 3 {
        dots
    } else {
        let mut res = sub_chars(s, 0, max - 3);
        push_all(&mut res, &dots);
        res
    }
}


/// Whether `a` and `b` hold the same characters.
pub fn equal_chars(a: &Vec<char>, b: &Vec<char>) -> (res: bool)
    ensures
        res == (a@ == b@),
{
    if a.len() != b.len() {
        return false;
    }
    let r = occurs_at_index(a, b, 0);
    assert(a@ =~= a@.subrange(0, b@.len() as int));
    r
}

}
