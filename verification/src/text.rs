//! Characters, lines and substrings.
//!
//! Every contract of this crate speaks of a text as the sequence of its
//! characters (`Seq<char>`, the view of `str` and `String`). This module holds
//! the vocabulary the other modules share: which characters count as
//! whitespace, how a text falls into lines, and what it means for one
//! sequence to occur inside another.
use vstd::prelude::*;

verus! {

/// `String::push` appends one character to the end of the string.
pub assume_specification[ String::push ](s: &mut String, c: char)
    ensures
        final(s)@ == old(s)@.push(c),
;

/// The whitespace characters: the code points with the Unicode property
/// `White_Space`.
pub open spec fn is_space(c: char) -> bool {
    let u = c as u32;
    (0x09 <= u && u <= 0x0D) || u == 0x20 || u == 0x85 || u == 0xA0 || u == 0x1680 || (0x2000 <= u
        && u <= 0x200A) || u == 0x2028 || u == 0x2029 || u == 0x202F || u == 0x205F || u == 0x3000
}

/// Tests whether `c` is a whitespace character.
pub fn char_is_space(c: char) -> (r: bool)
    ensures
        r == is_space(c),
{
    let u: u32 = c as u32;
    (0x09 <= u && u <= 0x0D) || u == 0x20 || u == 0x85 || u == 0xA0 || u == 0x1680 || (0x2000 <= u
        && u <= 0x200A) || u == 0x2028 || u == 0x2029 || u == 0x202F || u == 0x205F || u == 0x3000
}

/// The views of the rows of a table of characters.
pub open spec fn rows(v: Seq<Vec<char>>) -> Seq<Seq<char>> {
    v.map_values(|l: Vec<char>| l@)
}

/// The views of a list of strings.
pub open spec fn str_views(v: Seq<&str>) -> Seq<Seq<char>> {
    v.map_values(|s: &str| s@)
}

/// The characters of `s`, in order.
pub fn to_chars(s: &str) -> (v: Vec<char>)
    ensures
        v@ == s@,
{
    let mut v: Vec<char> = Vec::new();
    for c in it: s.chars()
        invariant
            v@ == s@.take(it.index() as int),
            it.seq() == s@,
    {
        v.push(c);
    }
    v
}

/// The string made of the characters of `v`, in order.
pub fn to_string(v: &[char]) -> (s: String)
    ensures
        s@ == v@,
{
    let mut s = String::new();
    let mut i: usize = 0;
    while i < v.len()
        invariant
            i <= v.len(),
            s@ == v@.take(i as int),
        decreases v.len() - i,
    {
        s.push(v[i]);
        i += 1;
    }
    s
}

/// No character of `l` is a line feed.
pub open spec fn newline_free(l: Seq<char>) -> bool {
    forall|i: int| 0 <= i < l.len() ==> l[i] != '\n'
}

/// The pieces into which the line feeds cut `t`: one more piece than `t` has
/// line feeds, each piece free of line feeds, some of them possibly empty.
///
/// The definition reads `t` from the left, one character at a time: a line
/// feed opens a new, empty piece, and any other character joins the piece
/// that is open. [`lemma_join_split`] and [`lemma_split_newline_free`] say the
/// same without recursion: the pieces hold no line feed, and putting a line
/// feed between each two of them gives `t` back.
pub open spec fn split_lines(t: Seq<char>) -> Seq<Seq<char>>
    decreases t.len(),
{
    if t.len() == 0 {
        seq![Seq::<char>::empty()]
    } else {
        let before = split_lines(t.drop_last());
        if t.last() == '\n' {
            before.push(Seq::<char>::empty())
        } else {
            before.drop_last().push(before.last().push(t.last()))
        }
    }
}

/// The pieces `ls` with one line feed between each two neighbours.
pub open spec fn join_lines(ls: Seq<Seq<char>>) -> Seq<char>
    decreases ls.len(),
{
    if ls.len() == 0 {
        Seq::<char>::empty()
    } else if ls.len() == 1 {
        ls[0]
    } else {
        join_lines(ls.drop_last()) + seq!['\n'] + ls.last()
    }
}

/// `l` without a carriage return at its end, if it has one there.
pub open spec fn strip_cr(l: Seq<char>) -> Seq<char> {
    if l.len() > 0 && l.last() == '\r' {
        l.drop_last()
    } else {
        l
    }
}

/// The lines of `t` as `str::lines` gives them: every piece that a line feed
/// ends, without the carriage return that may stand before that line feed,
/// and then what follows the last line feed, unless nothing follows it.
pub open spec fn text_lines(t: Seq<char>) -> Seq<Seq<char>> {
    let pieces = split_lines(t);
    let ended = pieces.drop_last().map_values(|l: Seq<char>| strip_cr(l));
    if pieces.last().len() == 0 {
        ended
    } else {
        ended.push(pieces.last())
    }
}

/// A text always has at least one piece.
pub proof fn lemma_split_nonempty(t: Seq<char>)
    ensures
        split_lines(t).len() >= 1,
    decreases t.len(),
{
    if t.len() > 0 {
        lemma_split_nonempty(t.drop_last());
    }
}

/// No piece of a text holds a line feed.
pub proof fn lemma_split_newline_free(t: Seq<char>)
    ensures
        forall|i: int| 0 <= i < split_lines(t).len() ==> newline_free(#[trigger] split_lines(t)[i]),
    decreases t.len(),
{
    if t.len() > 0 {
        lemma_split_nonempty(t.drop_last());
        lemma_split_newline_free(t.drop_last());
    }
}

/// Joining the pieces of a text gives the text back.
pub proof fn lemma_join_split(t: Seq<char>)
    ensures
        join_lines(split_lines(t)) == t,
    decreases t.len(),
{
    if t.len() > 0 {
        let head = t.drop_last();
        let before = split_lines(head);
        lemma_split_nonempty(head);
        lemma_join_split(head);
        if t.last() == '\n' {
            let now = before.push(Seq::<char>::empty());
            assert(now.drop_last() == before);
            assert(join_lines(now) == head + seq!['\n'] + Seq::<char>::empty());
            assert(head + seq!['\n'] + Seq::<char>::empty() == t);
        } else {
            let now = before.drop_last().push(before.last().push(t.last()));
            assert(now.drop_last() == before.drop_last());
            if before.len() == 1 {
                assert(join_lines(before) == before[0]);
                assert(now[0] == head.push(t.last()));
                assert(head.push(t.last()) == t);
            } else {
                assert(join_lines(before) == join_lines(before.drop_last()) + seq!['\n']
                    + before.last());
                assert(join_lines(now) == join_lines(before.drop_last()) + seq!['\n']
                    + before.last().push(t.last()));
                assert(join_lines(before.drop_last()) + seq!['\n'] + before.last().push(t.last())
                    == (join_lines(before.drop_last()) + seq!['\n'] + before.last()).push(
                    t.last(),
                ));
                assert(head.push(t.last()) == t);
            }
        }
    }
}

/// Appending characters other than line feeds to a text lengthens its last
/// piece and leaves the others alone.
pub proof fn lemma_split_append(t: Seq<char>, tail: Seq<char>)
    requires
        newline_free(tail),
    ensures
        split_lines(t).len() >= 1,
        split_lines(t + tail) == split_lines(t).drop_last().push(split_lines(t).last() + tail),
    decreases tail.len(),
{
    lemma_split_nonempty(t);
    let pieces = split_lines(t);
    if tail.len() == 0 {
        assert(t + tail == t);
        assert(pieces.last() + tail == pieces.last());
        assert(pieces.drop_last().push(pieces.last()) == pieces);
    } else {
        let shorter = tail.drop_last();
        lemma_split_append(t, shorter);
        let whole = t + tail;
        assert(whole.drop_last() == t + shorter);
        assert(whole.last() == tail.last());
        let before = split_lines(t + shorter);
        assert(before.drop_last() == pieces.drop_last());
        assert(before.last().push(tail.last()) == pieces.last() + tail);
    }
}

/// Cutting a joined text gives the pieces back, as long as there is at least
/// one piece and none of them holds a line feed.
pub proof fn lemma_split_join(ls: Seq<Seq<char>>)
    requires
        ls.len() >= 1,
        forall|i: int| 0 <= i < ls.len() ==> newline_free(#[trigger] ls[i]),
    ensures
        split_lines(join_lines(ls)) == ls,
    decreases ls.len(),
{
    if ls.len() == 1 {
        lemma_split_append(Seq::<char>::empty(), ls[0]);
        assert(Seq::<char>::empty() + ls[0] == ls[0]);
        assert(split_lines(Seq::<char>::empty()) == seq![Seq::<char>::empty()]);
        assert(split_lines(ls[0]) == ls);
    } else {
        let front = ls.drop_last();
        lemma_split_join(front);
        let head = join_lines(front) + seq!['\n'];
        assert(head.drop_last() == join_lines(front));
        assert(split_lines(head) == front.push(Seq::<char>::empty()));
        lemma_split_append(head, ls.last());
        assert(split_lines(head).drop_last() == front);
        assert(Seq::<char>::empty() + ls.last() == ls.last());
        assert(front.push(ls.last()) == ls);
    }
}

/// Cuts `text` at its line feeds.
pub fn lines_of(text: &str) -> (lines: Vec<Vec<char>>)
    ensures
        rows(lines@) == split_lines(text@),
{
    let mut done: Vec<Vec<char>> = Vec::new();
    let mut open: Vec<char> = Vec::new();
    for c in it: text.chars()
        invariant
            it.seq() == text@,
            rows(done@).push(open@) == split_lines(text@.take(it.index() as int)),
    {
        let ghost seen = text@.take(it.index() as int);
        let ghost next = text@.take(it.index() + 1);
        let ghost done_before = rows(done@);
        proof {
            assert(next.drop_last() == seen);
            assert(next.last() == c);
        }
        if c == '\n' {
            done.push(open);
            open = Vec::new();
            proof {
                assert(rows(done@) =~= split_lines(seen));
            }
        } else {
            open.push(c);
            proof {
                assert(rows(done@) == done_before);
            }
        }
        proof {
            assert(rows(done@).push(open@) =~= split_lines(next));
        }
    }
    proof {
        assert(text@.take(text@.len() as int) == text@);
    }
    done.push(open);
    proof {
        assert(rows(done@) =~= rows(done@.drop_last()).push(done@.last()@));
    }
    done
}

/// The lines of `text`, as [`text_lines`] defines them.
pub fn text_lines_of(text: &str) -> (lines: Vec<Vec<char>>)
    ensures
        rows(lines@) == text_lines(text@),
{
    let mut done: Vec<Vec<char>> = Vec::new();
    let mut open: Vec<char> = Vec::new();
    proof {
        assert(rows(done@) =~= split_lines(text@.take(0)).drop_last().map_values(
            |l: Seq<char>| strip_cr(l),
        ));
    }
    for c in it: text.chars()
        invariant
            it.seq() == text@,
            split_lines(text@.take(it.index() as int)).len() >= 1,
            rows(done@) == split_lines(text@.take(it.index() as int)).drop_last().map_values(
                |l: Seq<char>| strip_cr(l),
            ),
            open@ == split_lines(text@.take(it.index() as int)).last(),
    {
        let ghost seen = text@.take(it.index() as int);
        let ghost next = text@.take(it.index() + 1);
        proof {
            assert(next.drop_last() == seen);
            assert(next.last() == c);
            lemma_split_nonempty(next);
        }
        if c == '\n' {
            let ghost ended = open@;
            let ghost rows_before = rows(done@);
            let n = open.len();
            if n > 0 && open[n - 1] == '\r' {
                open.pop();
            }
            assert(open@ == strip_cr(ended));
            done.push(open);
            open = Vec::new();
            proof {
                assert(split_lines(next).drop_last() == split_lines(seen));
                assert(split_lines(seen) == split_lines(seen).drop_last().push(ended));
                assert(rows(done@) =~= rows_before.push(strip_cr(ended)));
                assert(rows(done@) =~= split_lines(next).drop_last().map_values(
                    |l: Seq<char>| strip_cr(l),
                ));
            }
        } else {
            open.push(c);
            proof {
                assert(split_lines(next).drop_last() == split_lines(seen).drop_last());
            }
        }
    }
    proof {
        assert(text@.take(text@.len() as int) == text@);
    }
    if open.len() > 0 {
        done.push(open);
        proof {
            assert(rows(done@) =~= text_lines(text@));
        }
    }
    done
}

/// `needle` stands in `hay` from index `i` on.
pub open spec fn occurs_at(hay: Seq<char>, needle: Seq<char>, i: int) -> bool {
    0 <= i && i + needle.len() <= hay.len() && hay.subrange(i, i + needle.len()) == needle
}

/// `needle` stands somewhere in `hay`, character for character. The empty
/// sequence stands in every sequence.
pub open spec fn contains(hay: Seq<char>, needle: Seq<char>) -> bool {
    exists|i: int| occurs_at(hay, needle, i)
}

/// Tests whether `needle` stands in `hay` from index `i` on.
pub fn occurs_at_index(hay: &[char], needle: &[char], i: usize) -> (r: bool)
    ensures
        r == occurs_at(hay@, needle@, i as int),
{
    if needle.len() > hay.len() || i > hay.len() - needle.len() {
        return false;
    }
    let mut k: usize = 0;
    while k < needle.len()
        invariant
            k <= needle.len(),
            i + needle.len() <= hay.len(),
            forall|j: int| 0 <= j < k ==> hay@[i + j] == needle@[j],
        decreases needle.len() - k,
    {
        if hay[i + k] != needle[k] {
            proof {
                assert(hay@.subrange(i as int, i + needle@.len())[k as int] == hay@[i + k]);
            }
            return false;
        }
        k += 1;
    }
    proof {
        assert(hay@.subrange(i as int, i + needle@.len()) =~= needle@);
    }
    true
}

/// Tests whether `needle` stands somewhere in `hay`.
pub fn contains_chars(hay: &[char], needle: &[char]) -> (r: bool)
    ensures
        r == contains(hay@, needle@),
{
    if needle.len() > hay.len() {
        return false;
    }
    let last: usize = hay.len() - needle.len();
    let mut i: usize = 0;
    loop
        invariant
            last == hay.len() - needle.len(),
            i <= last,
            forall|j: int| 0 <= j < i ==> !occurs_at(hay@, needle@, j),
        decreases last - i,
    {
        if occurs_at_index(hay, needle, i) {
            return true;
        }
        if i == last {
            return false;
        }
        i += 1;
    }
}

} // verus!
