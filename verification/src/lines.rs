//! The lines of a text.

use vstd::prelude::*;
use vstd::slice::slice_subrange;

verus! {

/// `s` holds no line feed.
pub open spec fn one_line(s: Seq<char>) -> bool {
    forall|i: int| 0 <= i < s.len() ==> #[trigger] s[i] != '\n'
}

/// Index of the first line feed at or after `i`, or the length of `text`
/// when none follows.
pub open spec fn line_end(text: Seq<char>, i: int) -> int
    decreases text.len() - i,
{
    if 0 <= i < text.len() && text[i] != '\n' {
        line_end(text, i + 1)
    } else {
        i
    }
}

/// `line` without a carriage return at its end.
pub open spec fn strip_cr(line: Seq<char>) -> Seq<char> {
    if line.len() > 0 && line.last() == '\r' {
        line.drop_last()
    } else {
        line
    }
}

/// The first line of a text: what stands before the first line feed,
/// without a carriage return just before it, or the whole text where it
/// holds no line feed.
pub open spec fn first_line(text: Seq<char>) -> Seq<char> {
    let n = line_end(text, 0);
    if n < text.len() {
        strip_cr(text.subrange(0, n))
    } else {
        text
    }
}

/// What follows the first line feed of `text`.
pub open spec fn after_first_line(text: Seq<char>) -> Seq<char> {
    let n = line_end(text, 0);
    if n < text.len() {
        text.subrange(n + 1, text.len() as int)
    } else {
        Seq::empty()
    }
}

/// The lines of `text`. A line ends at a line feed, or at a carriage return
/// and a line feed; neither belongs to the line. The last line needs no line
/// feed, and a text that ends in one has no empty line after it.
pub open spec fn lines(text: Seq<char>) -> Seq<Seq<char>>
    decreases text.len(),
    via lines_terminates
{
    if text.len() == 0 {
        Seq::empty()
    } else {
        seq![first_line(text)] + lines(after_first_line(text))
    }
}

#[via_fn]
proof fn lines_terminates(text: Seq<char>) {
    lemma_line_end(text, 0);
}

/// A line ends at the first line feed or at the end of the text.
pub proof fn lemma_line_end(text: Seq<char>, i: int)
    requires
        0 <= i <= text.len(),
    ensures
        i <= line_end(text, i) <= text.len(),
        forall|k: int| i <= k < line_end(text, i) ==> #[trigger] text[k] != '\n',
        line_end(text, i) < text.len() ==> text[line_end(text, i)] == '\n',
    decreases text.len() - i,
{
    if i < text.len() && text[i] != '\n' {
        lemma_line_end(text, i + 1);
    }
}

/// The index of a line feed before which there is none is where the line
/// ends.
pub proof fn lemma_line_end_is(text: Seq<char>, i: int, n: int)
    requires
        0 <= i <= n <= text.len(),
        forall|k: int| i <= k < n ==> #[trigger] text[k] != '\n',
        n < text.len() ==> text[n] == '\n',
    ensures
        line_end(text, i) == n,
    decreases n - i,
{
    if i < n {
        lemma_line_end_is(text, i + 1, n);
    }
}

/// No line holds a line feed.
pub proof fn lemma_lines_hold_no_line_feed(text: Seq<char>, k: int)
    requires
        0 <= k < lines(text).len(),
    ensures
        one_line(lines(text)[k]),
    decreases text.len(),
{
    lemma_line_end(text, 0);
    if k == 0 {
        let l = first_line(text);
        assert forall|j: int| 0 <= j < l.len() implies #[trigger] l[j] != '\n' by {
            assert(l[j] == text[j]);
        }
    } else {
        lemma_lines_hold_no_line_feed(after_first_line(text), k - 1);
    }
}

/// A part of a text on one line is on one line.
pub proof fn lemma_one_line_subrange(s: Seq<char>, a: int, b: int)
    requires
        one_line(s),
        0 <= a <= b <= s.len(),
    ensures
        one_line(s.subrange(a, b)),
{
    assert forall|i: int| 0 <= i < b - a implies #[trigger] s.subrange(a, b)[i] != '\n' by {
        assert(s.subrange(a, b)[i] == s[a + i]);
    }
}

/// Two texts on one line, one after the other, are on one line.
pub proof fn lemma_one_line_concat(front: Seq<char>, back: Seq<char>)
    requires
        one_line(front),
        one_line(back),
    ensures
        one_line(front + back),
{
    assert forall|i: int| 0 <= i < (front + back).len() implies #[trigger] (front + back)[i]
        != '\n' by {
        if i < front.len() {
            assert((front + back)[i] == front[i]);
        } else {
            assert((front + back)[i] == back[i - front.len()]);
        }
    }
}

/// The lines of two texts, the first of which ends in a line feed, are the
/// lines of the first followed by the lines of the second.
pub proof fn lemma_lines_concat(front: Seq<char>, back: Seq<char>)
    requires
        front.len() == 0 || front.last() == '\n',
    ensures
        lines(front + back) == lines(front) + lines(back),
    decreases front.len(),
{
    if front.len() == 0 {
        assert(front + back =~= back);
        assert(lines(front) + lines(back) =~= lines(back));
    } else {
        let whole = front + back;
        lemma_line_end(front, 0);
        let n = line_end(front, 0);
        assert(n < front.len()) by {
            if n == front.len() {
                assert(front[front.len() - 1] != '\n');
            }
        }
        assert(line_end(whole, 0) == n) by {
            lemma_line_end_is(whole, 0, n);
        }
        assert(whole.subrange(0, n) =~= front.subrange(0, n));
        assert(first_line(whole) == first_line(front));
        let rest = after_first_line(front);
        assert(after_first_line(whole) =~= rest + back);
        assert(rest.len() == 0 || rest.last() == '\n') by {
            if rest.len() > 0 {
                assert(rest.last() == front.last());
            }
        }
        lemma_lines_concat(rest, back);
        assert(lines(whole) =~= lines(front) + lines(back));
    }
}

/// A line that holds no line feed, followed by a line feed and more text, is
/// the first line of the whole, but for a carriage return at its end.
pub proof fn lemma_lines_cons(line: Seq<char>, rest: Seq<char>)
    requires
        one_line(line),
    ensures
        lines(line + seq!['\n'] + rest) == seq![strip_cr(line)] + lines(rest),
{
    let whole = line + seq!['\n'] + rest;
    assert forall|k: int| 0 <= k < line.len() implies #[trigger] whole[k] != '\n' by {
        assert(whole[k] == line[k]);
    }
    assert(whole[line.len() as int] == '\n');
    lemma_line_end_is(whole, 0, line.len() as int);
    assert(whole.subrange(0, line.len() as int) =~= line);
    assert(whole.subrange(line.len() as int + 1, whole.len() as int) =~= rest);
}

/// Splits a text into its first line and what follows it.
pub fn split_line(text: &[char]) -> (r: (&[char], &[char]))
    ensures
        r.0@ == first_line(text@),
        r.1@ == after_first_line(text@),
{
    let mut n: usize = 0;
    while n < text.len() && text[n] != '\n'
        invariant
            n <= text.len(),
            line_end(text@, 0) == line_end(text@, n as int),
        decreases text.len() - n,
    {
        n += 1;
    }
    if n < text.len() {
        let rest = slice_subrange(text, n + 1, text.len());
        if n > 0 && text[n - 1] == '\r' {
            let line = slice_subrange(text, 0, n - 1);
            assert(line@ =~= strip_cr(text@.subrange(0, n as int)));
            (line, rest)
        } else {
            (slice_subrange(text, 0, n), rest)
        }
    } else {
        (text, slice_subrange(text, n, n))
    }
}

} // verus!
