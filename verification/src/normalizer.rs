//! The text normalizer.
//!
//! Text taken out of a document one glyph at a time tends to hold a blank
//! between every two letters, and a wider gap where the document had a blank
//! of its own. The normalizer works on each line by itself, in two steps:
//! it first removes every whitespace character that stands alone between two
//! other characters, and then turns each run of two or more whitespace
//! characters into one blank. Lines are neither merged nor split.
use vstd::prelude::*;
use crate::text::{
    char_is_space, is_space, join_lines, lemma_split_join, lemma_split_newline_free,
    lemma_split_nonempty, lines_of, newline_free, rows, split_lines, text_lines,
};

verus! {

/// The character at `i` is whitespace and stands alone between two
/// characters that are not.
pub open spec fn is_lone_gap(l: Seq<char>, i: int) -> bool {
    0 < i && i + 1 < l.len() && is_space(l[i]) && !is_space(l[i - 1]) && !is_space(l[i + 1])
}

/// The first `n` characters of `l` without those that are lone gaps in `l`.
pub open spec fn gaps_closed(l: Seq<char>, n: int) -> Seq<char>
    decreases n,
{
    if n <= 0 {
        Seq::<char>::empty()
    } else if is_lone_gap(l, n - 1) {
        gaps_closed(l, n - 1)
    } else {
        gaps_closed(l, n - 1).push(l[n - 1])
    }
}

/// The first step: `l` without its lone gaps.
pub open spec fn close_gaps(l: Seq<char>) -> Seq<char> {
    gaps_closed(l, l.len() as int)
}

/// The character at `i` is whitespace and so is one of its neighbours.
pub open spec fn in_run(l: Seq<char>, i: int) -> bool {
    0 <= i < l.len() && is_space(l[i]) && ((i > 0 && is_space(l[i - 1])) || (i + 1 < l.len()
        && is_space(l[i + 1])))
}

/// The first `n` characters of `l`, where the first character of each run of
/// two or more whitespace characters of `l` has become a blank and the
/// others of the run are gone.
pub open spec fn runs_collapsed(l: Seq<char>, n: int) -> Seq<char>
    decreases n,
{
    if n <= 0 {
        Seq::<char>::empty()
    } else if !in_run(l, n - 1) {
        runs_collapsed(l, n - 1).push(l[n - 1])
    } else if n - 1 > 0 && is_space(l[n - 2]) {
        runs_collapsed(l, n - 1)
    } else {
        runs_collapsed(l, n - 1).push(' ')
    }
}

/// The second step: `l` with each run of two or more whitespace characters
/// replaced by one blank.
pub open spec fn collapse_runs(l: Seq<char>) -> Seq<char> {
    runs_collapsed(l, l.len() as int)
}

/// What the normalizer makes of one line: the first step, then the second.
pub open spec fn normalize_line(l: Seq<char>) -> Seq<char> {
    collapse_runs(close_gaps(l))
}

/// What the normalizer makes of a text: each of its lines normalized, in the
/// same order and with the same line feeds between them.
pub open spec fn normalize_text(t: Seq<char>) -> Seq<char> {
    join_lines(split_lines(t).map_values(|l: Seq<char>| normalize_line(l)))
}

/// Removes the lone gaps of a line.
pub fn close_line_gaps(line: &[char]) -> (out: Vec<char>)
    ensures
        out@ == close_gaps(line@),
{
    let n = line.len();
    let mut out: Vec<char> = Vec::new();
    let mut i: usize = 0;
    while i < n
        invariant
            n == line.len(),
            i <= n,
            out@ == gaps_closed(line@, i as int),
        decreases n - i,
    {
        let lone = i > 0 && i + 1 < n && char_is_space(line[i]) && !char_is_space(line[i - 1])
            && !char_is_space(line[i + 1]);
        if !lone {
            out.push(line[i]);
        }
        i += 1;
    }
    out
}

/// Replaces each run of two or more whitespace characters of a line by one
/// blank.
pub fn collapse_line_runs(line: &[char]) -> (out: Vec<char>)
    ensures
        out@ == collapse_runs(line@),
{
    let n = line.len();
    let mut out: Vec<char> = Vec::new();
    let mut i: usize = 0;
    while i < n
        invariant
            n == line.len(),
            i <= n,
            out@ == runs_collapsed(line@, i as int),
        decreases n - i,
    {
        let after_space = i > 0 && char_is_space(line[i - 1]);
        let before_space = i + 1 < n && char_is_space(line[i + 1]);
        if !(char_is_space(line[i]) && (after_space || before_space)) {
            out.push(line[i]);
        } else if !after_space {
            out.push(' ');
        }
        i += 1;
    }
    out
}

/// Normalizes one line.
pub fn normalize_chars(line: &[char]) -> (out: Vec<char>)
    ensures
        out@ == normalize_line(line@),
{
    let closed = close_line_gaps(line);
    collapse_line_runs(closed.as_slice())
}

/// Normalizes a text: every line of `text` by itself, the line feeds kept
/// where they are, so that the text has as many lines as before.
pub fn normalize(text: &str) -> (out: String)
    ensures
        out@ == normalize_text(text@),
        split_lines(out@).len() == split_lines(text@).len(),
        text_lines(out@).len() == text_lines(text@).len(),
{
    let lines = lines_of(text);
    proof {
        lemma_split_nonempty(text@);
        lemma_normalize_keeps_line_count(text@);
    }
    let ghost wanted = split_lines(text@).map_values(|l: Seq<char>| normalize_line(l));
    let mut out = String::new();
    let mut i: usize = 0;
    while i < lines.len()
        invariant
            i <= lines.len(),
            lines.len() >= 1,
            rows(lines@) == split_lines(text@),
            wanted == split_lines(text@).map_values(|l: Seq<char>| normalize_line(l)),
            out@ == join_lines(wanted.take(i as int)),
        decreases lines.len() - i,
    {
        let line = normalize_chars(lines[i].as_slice());
        proof {
            assert(rows(lines@)[i as int] == lines@[i as int]@);
            assert(line@ == wanted[i as int]);
            assert(wanted.take(i + 1).drop_last() == wanted.take(i as int));
            assert(wanted.take(i + 1).last() == line@);
        }
        if i > 0 {
            out.push('\n');
        }
        let mut k: usize = 0;
        let ghost start = out@;
        while k < line.len()
            invariant
                k <= line.len(),
                out@ == start + line@.take(k as int),
            decreases line.len() - k,
        {
            out.push(line[k]);
            proof {
                assert(line@.take(k + 1) == line@.take(k as int).push(line@[k as int]));
            }
            k += 1;
        }
        proof {
            assert(line@.take(line@.len() as int) == line@);
            if i == 0 {
                assert(start + line@ == line@);
            }
        }
        i += 1;
    }
    proof {
        assert(wanted.take(lines.len() as int) == wanted);
    }
    out
}

/// Every character of `l` before index `i` is whitespace.
pub open spec fn all_space_before(l: Seq<char>, i: int) -> bool {
    forall|j: int| 0 <= j < i && j < l.len() ==> is_space(#[trigger] l[j])
}

/// Every character of `l` after index `i` is whitespace.
pub open spec fn all_space_after(l: Seq<char>, i: int) -> bool {
    forall|j: int| i < j < l.len() ==> is_space(#[trigger] l[j])
}

/// The line holds a run of two or more whitespace characters with a
/// character that is not whitespace somewhere before it and another
/// somewhere after it: a gap inside the line that the second step turns into
/// a single blank.
pub open spec fn has_inner_run(l: Seq<char>) -> bool {
    exists|i: int| #[trigger] in_run(l, i) && !all_space_before(l, i) && !all_space_after(l, i)
}

/// No two neighbours in `l` are both whitespace.
pub open spec fn no_space_pair(l: Seq<char>) -> bool {
    forall|i: int| 0 <= i && i + 1 < l.len() ==> !(is_space(#[trigger] l[i]) && is_space(l[i + 1]))
}

/// Whitespace stands in `l` at most at its two ends.
pub open spec fn space_only_at_ends(l: Seq<char>) -> bool {
    forall|i: int| 0 < i && i + 1 < l.len() ==> !is_space(#[trigger] l[i])
}

/// A whitespace character of `l` that a character other than whitespace
/// follows has nothing but whitespace before it.
spec fn spaces_lead(l: Seq<char>) -> bool {
    forall|k: int|
        0 <= k && k + 1 < l.len() && is_space(#[trigger] l[k]) && !is_space(l[k + 1])
            ==> all_space_before(l, k)
}

/// What the first step keeps of the first `n` characters: at most `n` of
/// them and at least one if there is any, the last one kept being the last
/// character that is no lone gap; no line feed unless the line has one; and
/// nothing but whitespace where it met nothing else.
proof fn lemma_gaps_closed_chars(l: Seq<char>, n: int)
    requires
        0 <= n <= l.len(),
    ensures
        gaps_closed(l, n).len() <= n,
        n > 0 ==> gaps_closed(l, n).len() > 0,
        n > 0 ==> gaps_closed(l, n).last() == (if is_lone_gap(l, n - 1) {
            l[n - 2]
        } else {
            l[n - 1]
        }),
        newline_free(l) ==> newline_free(gaps_closed(l, n)),
        all_space_before(l, n) ==> all_space_before(gaps_closed(l, n), n),
    decreases n,
{
    if n > 0 {
        lemma_gaps_closed_chars(l, n - 1);
        let before = gaps_closed(l, n - 1);
        let now = gaps_closed(l, n);
        if is_lone_gap(l, n - 1) {
            assert(!is_lone_gap(l, n - 2));
        }
        if all_space_before(l, n) {
            assert(all_space_before(l, n - 1));
            assert(is_space(l[n - 1]));
            assert forall|j: int| 0 <= j < n && j < now.len() implies is_space(#[trigger] now[j]) by {
                if j < before.len() {
                    assert(now[j] == before[j]);
                }
            }
        }
    }
}

/// In a line without a run of whitespace inside it, whitespace that the
/// first step keeps and that stands before another character opens the
/// line.
proof fn lemma_gaps_closed_shape(l: Seq<char>, n: int)
    requires
        0 <= n <= l.len(),
        !has_inner_run(l),
    ensures
        spaces_lead(gaps_closed(l, n)),
    decreases n,
{
    if n > 0 {
        lemma_gaps_closed_shape(l, n - 1);
        lemma_gaps_closed_chars(l, n - 1);
        let before = gaps_closed(l, n - 1);
        let now = gaps_closed(l, n);
        if !is_lone_gap(l, n - 1) {
            assert(now == before.push(l[n - 1]));
            assert forall|k: int|
                0 <= k && k + 1 < now.len() && is_space(#[trigger] now[k]) && !is_space(
                    now[k + 1],
                ) implies all_space_before(now, k) by {
                if k + 1 < before.len() {
                    assert(now[k] == before[k]);
                    assert(now[k + 1] == before[k + 1]);
                    assert(all_space_before(before, k));
                    assert forall|j: int| 0 <= j < k && j < now.len() implies is_space(
                        #[trigger] now[j],
                    ) by {
                        assert(now[j] == before[j]);
                    }
                } else {
                    // the pair is the last character of `before` and `l[n - 1]`
                    assert(now[k] == before.last());
                    assert(now[k + 1] == l[n - 1]);
                    assert(n - 1 > 0);
                    if is_lone_gap(l, n - 2) {
                        assert(before.last() == l[n - 3]);
                        assert(false);
                    }
                    assert(before.last() == l[n - 2]);
                    if n - 2 > 0 {
                        assert(is_space(l[n - 3]));
                        assert(in_run(l, n - 2));
                        assert(!all_space_after(l, n - 2)) by {
                            assert(!is_space(l[n - 1]));
                        }
                        assert(all_space_before(l, n - 2));
                        assert(all_space_before(l, n - 1));
                        assert(all_space_before(before, n - 1));
                        assert forall|j: int| 0 <= j < k && j < now.len() implies is_space(
                            #[trigger] now[j],
                        ) by {
                            assert(now[j] == before[j]);
                        }
                    } else {
                        assert(before.len() <= 1);
                    }
                }
            }
        }
    }
}

/// What the second step makes of the first `n` characters: at most `n`
/// characters and at least one if there is any, ending in whitespace exactly
/// where the `n` characters do; no line feed unless the line has one; no two
/// whitespace characters side by side; and a single character where it met
/// nothing but whitespace.
proof fn lemma_runs_collapsed_chars(s: Seq<char>, n: int)
    requires
        0 <= n <= s.len(),
    ensures
        runs_collapsed(s, n).len() <= n,
        n > 0 ==> runs_collapsed(s, n).len() > 0,
        n > 0 ==> (is_space(runs_collapsed(s, n).last()) <==> is_space(s[n - 1])),
        newline_free(s) ==> newline_free(runs_collapsed(s, n)),
        no_space_pair(runs_collapsed(s, n)),
        n > 0 && all_space_before(s, n) ==> runs_collapsed(s, n).len() == 1,
    decreases n,
{
    if n > 0 {
        lemma_runs_collapsed_chars(s, n - 1);
        let before = runs_collapsed(s, n - 1);
        let now = runs_collapsed(s, n);
        if all_space_before(s, n) {
            assert(is_space(s[n - 1]));
            if n - 1 > 0 {
                assert(all_space_before(s, n - 1));
                assert(is_space(s[n - 2]));
            }
        }
        if now.len() > before.len() {
            assert(now == before.push(now.last()));
            assert forall|i: int| 0 <= i && i + 1 < now.len() implies !(is_space(#[trigger] now[i])
                && is_space(now[i + 1])) by {
                if i + 1 < before.len() {
                    assert(now[i] == before[i]);
                    assert(now[i + 1] == before[i + 1]);
                } else {
                    assert(now[i] == before.last());
                }
            }
        }
    }
}

/// Where whitespace before another character opens the line, the second
/// step leaves whitespace after its first character only at its end, and
/// only while the characters it has read end in whitespace.
proof fn lemma_runs_collapsed_shape(s: Seq<char>, n: int)
    requires
        0 <= n <= s.len(),
        spaces_lead(s),
    ensures
        forall|k: int|
            0 < k < runs_collapsed(s, n).len() && is_space(#[trigger] runs_collapsed(s, n)[k])
                ==> k == runs_collapsed(s, n).len() - 1 && is_space(s[n - 1]),
    decreases n,
{
    if n > 0 {
        lemma_runs_collapsed_shape(s, n - 1);
        lemma_runs_collapsed_chars(s, n - 1);
        let before = runs_collapsed(s, n - 1);
        let now = runs_collapsed(s, n);
        if now.len() > before.len() {
            assert(now == before.push(now.last()));
            assert forall|k: int| 0 < k < now.len() && is_space(#[trigger] now[k]) implies k
                == now.len() - 1 && is_space(s[n - 1]) by {
                if k < before.len() {
                    assert(now[k] == before[k]);
                    assert(k == before.len() - 1 && is_space(s[n - 2]));
                    if is_space(s[n - 1]) {
                        // a whitespace character after whitespace adds nothing
                        assert(in_run(s, n - 1));
                        assert(false);
                    } else {
                        assert(all_space_before(s, n - 2));
                        assert(all_space_before(s, n - 1));
                        assert(before.len() == 1);
                        assert(false);
                    }
                }
            }
        }
    }
}

/// The first step changes nothing in a line without lone gaps.
proof fn lemma_gaps_closed_fixed(m: Seq<char>, n: int)
    requires
        0 <= n <= m.len(),
        forall|i: int| !is_lone_gap(m, i),
    ensures
        gaps_closed(m, n) == m.take(n),
    decreases n,
{
    if n > 0 {
        lemma_gaps_closed_fixed(m, n - 1);
        assert(!is_lone_gap(m, n - 1));
        assert(m.take(n) == m.take(n - 1).push(m[n - 1]));
    }
}

/// The second step changes nothing in a line without two whitespace
/// characters side by side.
proof fn lemma_runs_collapsed_fixed(m: Seq<char>, n: int)
    requires
        0 <= n <= m.len(),
        no_space_pair(m),
    ensures
        runs_collapsed(m, n) == m.take(n),
    decreases n,
{
    if n > 0 {
        lemma_runs_collapsed_fixed(m, n - 1);
        if is_space(m[n - 1]) {
            if n - 1 > 0 {
                assert(!(is_space(m[n - 2]) && is_space(m[n - 2 + 1])));
            }
        }
        assert(!in_run(m, n - 1));
        assert(m.take(n) == m.take(n - 1).push(m[n - 1]));
    }
}

/// The first step only adds to what it has as it reads on: at most one
/// character for each character read, and fewer where it reads a lone gap.
proof fn lemma_gaps_closed_grows(l: Seq<char>, n: int, m: int)
    requires
        0 <= n <= m <= l.len(),
    ensures
        gaps_closed(l, n).len() <= gaps_closed(l, m).len(),
        gaps_closed(l, m).take(gaps_closed(l, n).len() as int) == gaps_closed(l, n),
        (exists|j: int| n <= j < m && is_lone_gap(l, j)) ==> gaps_closed(l, m).len() - gaps_closed(
            l,
            n,
        ).len() < m - n,
        gaps_closed(l, m).len() - gaps_closed(l, n).len() <= m - n,
    decreases m - n,
{
    if n < m {
        lemma_gaps_closed_grows(l, n, m - 1);
        let short = gaps_closed(l, n);
        let before = gaps_closed(l, m - 1);
        let now = gaps_closed(l, m);
        assert(now.take(short.len() as int) =~= before.take(short.len() as int));
    } else {
        assert(gaps_closed(l, m).take(gaps_closed(l, n).len() as int) =~= gaps_closed(l, n));
    }
}

/// The second step only adds to what it has as it reads on.
proof fn lemma_runs_collapsed_grows(s: Seq<char>, n: int, m: int)
    requires
        0 <= n <= m <= s.len(),
    ensures
        runs_collapsed(s, n).len() <= runs_collapsed(s, m).len(),
        runs_collapsed(s, m).take(runs_collapsed(s, n).len() as int) == runs_collapsed(s, n),
    decreases m - n,
{
    if n < m {
        lemma_runs_collapsed_grows(s, n, m - 1);
        let short = runs_collapsed(s, n);
        let before = runs_collapsed(s, m - 1);
        let now = runs_collapsed(s, m);
        assert(now.take(short.len() as int) =~= before.take(short.len() as int));
    } else {
        assert(runs_collapsed(s, m).take(runs_collapsed(s, n).len() as int) =~= runs_collapsed(
            s,
            n,
        ));
    }
}

/// The second step leaves whitespace inside a line that has whitespace
/// between two characters that are not.
proof fn lemma_collapse_keeps_inner_space(s: Seq<char>, a: int, i: int, b: int)
    requires
        0 <= a < i < b < s.len(),
        !is_space(s[a]),
        is_space(s[i]),
        !is_space(s[b]),
    ensures
        !space_only_at_ends(collapse_runs(s)),
{
    let o = collapse_runs(s);
    let oa = runs_collapsed(s, a + 1);
    let oi = runs_collapsed(s, i + 1);
    let ob = runs_collapsed(s, b + 1);
    lemma_runs_collapsed_chars(s, a + 1);
    lemma_runs_collapsed_chars(s, i + 1);
    lemma_runs_collapsed_chars(s, b + 1);
    lemma_runs_collapsed_grows(s, a + 1, i + 1);
    lemma_runs_collapsed_grows(s, i + 1, b + 1);
    lemma_runs_collapsed_grows(s, b + 1, s.len() as int);
    let k = oi.len() - 1;
    assert(oi.take(oa.len() as int).last() == oa.last());
    assert(ob.take(oi.len() as int).last() == oi.last());
    assert(0 < k);
    assert(k + 1 < ob.len());
    assert(o.take(ob.len() as int)[k] == ob[k]);
    assert(ob.take(oi.len() as int)[k] == oi[k]);
    assert(is_space(o[k]));
}

/// A line with a run of whitespace inside it still has whitespace inside it
/// after normalizing.
proof fn lemma_inner_run_leaves_space(l: Seq<char>)
    requires
        has_inner_run(l),
    ensures
        !space_only_at_ends(normalize_line(l)),
{
    let i = choose|i: int| #[trigger] in_run(l, i) && !all_space_before(l, i) && !all_space_after(l, i);
    let a = choose|a: int| 0 <= a < i && a < l.len() && !is_space(#[trigger] l[a]);
    let b = choose|b: int| i < b < l.len() && !is_space(#[trigger] l[b]);
    let s = close_gaps(l);
    let ga = gaps_closed(l, a + 1);
    let gi = gaps_closed(l, i + 1);
    let gb = gaps_closed(l, b + 1);
    assert(!is_lone_gap(l, a));
    assert(!is_lone_gap(l, i));
    assert(!is_lone_gap(l, b));
    lemma_gaps_closed_chars(l, a + 1);
    lemma_gaps_closed_chars(l, i + 1);
    lemma_gaps_closed_chars(l, b + 1);
    lemma_gaps_closed_grows(l, a + 1, i + 1);
    lemma_gaps_closed_grows(l, i + 1, b + 1);
    lemma_gaps_closed_grows(l, b + 1, l.len() as int);
    let pa = ga.len() - 1;
    let pi = gi.len() - 1;
    let pb = gb.len() - 1;
    assert(gi.take(ga.len() as int).last() == ga.last());
    assert(gb.take(gi.len() as int).last() == gi.last());
    assert(pa < pi < pb);
    assert(s.take(gb.len() as int)[pb] == gb[pb]);
    assert(s.take(gb.len() as int)[pi] == gb[pi]);
    assert(s.take(gb.len() as int)[pa] == gb[pa]);
    assert(gb.take(gi.len() as int)[pi] == gi[pi]);
    assert(gb.take(gi.len() as int)[pa] == gi[pa]);
    assert(gi.take(ga.len() as int)[pa] == ga[pa]);
    lemma_collapse_keeps_inner_space(s, pa, pi, pb);
}

/// The normalizer shortens a line that has no two whitespace characters side
/// by side but has whitespace inside it.
proof fn lemma_inner_space_is_removed(m: Seq<char>)
    requires
        no_space_pair(m),
        !space_only_at_ends(m),
    ensures
        normalize_line(m).len() < m.len(),
{
    let k = choose|k: int| 0 < k && k + 1 < m.len() && is_space(#[trigger] m[k]);
    assert(!(is_space(m[k - 1]) && is_space(m[k - 1 + 1])));
    assert(!(is_space(m[k]) && is_space(m[k + 1])));
    assert(is_lone_gap(m, k));
    lemma_gaps_closed_grows(m, 0, m.len() as int);
    let s = close_gaps(m);
    lemma_runs_collapsed_chars(s, s.len() as int);
}

/// The normalizer changes nothing in a line that has no two whitespace
/// characters side by side and whitespace at most at its two ends.
pub proof fn lemma_clean_line_is_fixed(m: Seq<char>)
    requires
        no_space_pair(m),
        space_only_at_ends(m),
    ensures
        normalize_line(m) == m,
{
    assert forall|i: int| !is_lone_gap(m, i) by {
        if 0 < i && i + 1 < m.len() {
            assert(!is_space(m[i]));
        }
    }
    lemma_gaps_closed_fixed(m, m.len() as int);
    assert(m.take(m.len() as int) == m);
    lemma_runs_collapsed_fixed(m, m.len() as int);
}

/// What the normalizer says of every line: the result holds a line feed only
/// if the line did, it is empty only if the line was, and no two whitespace
/// characters stand side by side in it.
pub proof fn lemma_normalized_line(l: Seq<char>)
    ensures
        newline_free(l) ==> newline_free(normalize_line(l)),
        normalize_line(l).len() == 0 <==> l.len() == 0,
        normalize_line(l).len() <= l.len(),
        no_space_pair(normalize_line(l)),
{
    lemma_gaps_closed_chars(l, l.len() as int);
    let s = close_gaps(l);
    lemma_runs_collapsed_chars(s, s.len() as int);
}

/// Normalizing a line twice gives what normalizing it once gives, for every
/// line without a run of whitespace inside it ([`has_inner_run`]).
pub proof fn lemma_normalize_line_idempotent(l: Seq<char>)
    requires
        !has_inner_run(l),
    ensures
        normalize_line(normalize_line(l)) == normalize_line(l),
{
    let s = close_gaps(l);
    let o = normalize_line(l);
    lemma_runs_collapsed_chars(s, s.len() as int);
    lemma_gaps_closed_shape(l, l.len() as int);
    lemma_runs_collapsed_shape(s, s.len() as int);
    assert forall|i: int| 0 < i && i + 1 < o.len() implies !is_space(#[trigger] o[i]) by {
        if is_space(o[i]) {
            assert(i == o.len() - 1);
        }
    }
    lemma_clean_line_is_fixed(o);
}

/// A line with a run of whitespace inside it is shorter after the second
/// pass than after the first: the first pass leaves one blank of the run
/// between two other characters, and the second pass removes that blank.
pub proof fn lemma_normalize_line_loses_inner_run(l: Seq<char>)
    requires
        has_inner_run(l),
    ensures
        normalize_line(normalize_line(l)).len() < normalize_line(l).len(),
{
    let s = close_gaps(l);
    lemma_runs_collapsed_chars(s, s.len() as int);
    lemma_inner_run_leaves_space(l);
    lemma_inner_space_is_removed(normalize_line(l));
}

/// A normalized line has no run of whitespace inside it.
pub proof fn lemma_normalized_line_has_no_inner_run(l: Seq<char>)
    ensures
        !has_inner_run(normalize_line(l)),
{
    lemma_normalized_line(l);
    let o = normalize_line(l);
    assert forall|i: int| !in_run(o, i) by {
        if 0 <= i < o.len() && is_space(o[i]) {
            if i > 0 {
                assert(!(is_space(o[i - 1]) && is_space(o[i - 1 + 1])));
            }
            if i + 1 < o.len() {
                assert(!(is_space(o[i]) && is_space(o[i + 1])));
            }
        }
    }
}

/// The lines of a normalized text are the normalized lines of the text.
pub proof fn lemma_lines_of_normalized(t: Seq<char>)
    ensures
        split_lines(normalize_text(t)) == split_lines(t).map_values(
            |l: Seq<char>| normalize_line(l),
        ),
{
    let lines = split_lines(t);
    let done = lines.map_values(|l: Seq<char>| normalize_line(l));
    lemma_split_nonempty(t);
    lemma_split_newline_free(t);
    assert forall|i: int| 0 <= i < done.len() implies newline_free(#[trigger] done[i]) by {
        assert(newline_free(lines[i]));
        lemma_normalized_line(lines[i]);
    }
    lemma_split_join(done);
}

/// Line count preservation: a text has as many lines after normalizing as
/// before, whether one counts the pieces between line feeds or the lines as
/// `str::lines` gives them.
pub proof fn lemma_normalize_keeps_line_count(t: Seq<char>)
    ensures
        split_lines(normalize_text(t)).len() == split_lines(t).len(),
        text_lines(normalize_text(t)).len() == text_lines(t).len(),
{
    lemma_lines_of_normalized(t);
    lemma_split_nonempty(t);
    lemma_normalized_line(split_lines(t).last());
}

/// No line of `t` has a run of whitespace inside it.
pub open spec fn free_of_inner_runs(t: Seq<char>) -> bool {
    forall|i: int| 0 <= i < split_lines(t).len() ==> !has_inner_run(#[trigger] split_lines(t)[i])
}

/// Idempotence: normalizing a normalized text changes nothing, for every
/// text none of whose lines has a run of whitespace inside it.
pub proof fn lemma_normalize_idempotent(t: Seq<char>)
    requires
        free_of_inner_runs(t),
    ensures
        normalize_text(normalize_text(t)) == normalize_text(t),
{
    let lines = split_lines(t);
    let once = lines.map_values(|l: Seq<char>| normalize_line(l));
    let twice = once.map_values(|l: Seq<char>| normalize_line(l));
    lemma_lines_of_normalized(t);
    assert(twice =~= once) by {
        assert forall|i: int| 0 <= i < once.len() implies twice[i] == once[i] by {
            lemma_normalize_line_idempotent(lines[i]);
        }
    }
}

/// The texts that idempotence leaves out are the texts on which it fails: a
/// text with a run of whitespace inside one of its lines is changed by the
/// second pass.
pub proof fn lemma_normalize_loses_inner_runs(t: Seq<char>)
    requires
        !free_of_inner_runs(t),
    ensures
        normalize_text(normalize_text(t)) != normalize_text(t),
{
    let lines = split_lines(t);
    let once = lines.map_values(|l: Seq<char>| normalize_line(l));
    let twice = once.map_values(|l: Seq<char>| normalize_line(l));
    lemma_lines_of_normalized(t);
    lemma_lines_of_normalized(normalize_text(t));
    let i = choose|i: int| 0 <= i < lines.len() && has_inner_run(#[trigger] lines[i]);
    lemma_normalize_line_loses_inner_run(lines[i]);
    assert(twice[i] != once[i]);
}

/// The second pass is the last one that changes anything: a text that has
/// been normalized twice stays as it is, whatever the text was.
pub proof fn lemma_normalize_twice_is_final(t: Seq<char>)
    ensures
        normalize_text(normalize_text(normalize_text(t))) == normalize_text(normalize_text(t)),
{
    let once = normalize_text(t);
    lemma_lines_of_normalized(t);
    assert forall|i: int| 0 <= i < split_lines(once).len() implies !has_inner_run(
        #[trigger] split_lines(once)[i],
    ) by {
        lemma_normalized_line_has_no_inner_run(split_lines(t)[i]);
    }
    lemma_normalize_idempotent(once);
}

} // verus!
