//! Character sequences: white space, trimming and searching.
//!
//! Every executable function here works on a slice of characters and is
//! specified by a spec function of the same purpose over `Seq<char>`.

use vstd::prelude::*;
use vstd::slice::*;
use vstd::string::*;

verus! {

/// `String::push` of the standard library appends one character to the end of
/// the string and leaves what was there untouched.
pub assume_specification[ String::push ](s: &mut String, c: char)
    ensures
        final(s)@ == old(s)@.push(c),
;

/// The characters that carry the Unicode property `White_Space`.
pub open spec fn white_space(c: char) -> bool {
    ||| ('\u{9}' <= c && c <= '\u{d}')
    ||| c == ' '
    ||| c == '\u{85}'
    ||| c == '\u{a0}'
    ||| c == '\u{1680}'
    ||| ('\u{2000}' <= c && c <= '\u{200a}')
    ||| c == '\u{2028}'
    ||| c == '\u{2029}'
    ||| c == '\u{202f}'
    ||| c == '\u{205f}'
    ||| c == '\u{3000}'
}

/// Index of the first character at or after `i` that is not white space, or
/// the length of `s` when only white space follows.
pub open spec fn skip_space(s: Seq<char>, i: int) -> int
    decreases s.len() - i,
{
    if 0 <= i < s.len() && white_space(s[i]) {
        skip_space(s, i + 1)
    } else {
        i
    }
}

/// Index just behind the last character before `j` that is not white space,
/// or 0 when only white space precedes.
pub open spec fn skip_space_back(s: Seq<char>, j: int) -> int
    decreases j,
{
    if 0 < j <= s.len() && white_space(s[j - 1]) {
        skip_space_back(s, j - 1)
    } else {
        j
    }
}

/// `s` without its leading white space.
pub open spec fn trim_start(s: Seq<char>) -> Seq<char> {
    s.subrange(skip_space(s, 0), s.len() as int)
}

/// `s` without its trailing white space.
pub open spec fn trim_end(s: Seq<char>) -> Seq<char> {
    s.subrange(0, skip_space_back(s, s.len() as int))
}

/// `s` without leading and trailing white space.
pub open spec fn trim(s: Seq<char>) -> Seq<char> {
    trim_end(trim_start(s))
}

/// Every character of `s` is white space.
pub open spec fn all_space(s: Seq<char>) -> bool {
    forall|i: int| 0 <= i < s.len() ==> white_space(#[trigger] s[i])
}

/// `s` neither begins nor ends with white space.
pub open spec fn is_trimmed(s: Seq<char>) -> bool {
    s.len() > 0 ==> !white_space(s.first()) && !white_space(s.last())
}

/// `pat` stands in `s` at index `i`.
pub open spec fn occurs_at(s: Seq<char>, pat: Seq<char>, i: int) -> bool {
    0 <= i && i + pat.len() <= s.len() && s.subrange(i, i + pat.len()) == pat
}

/// `pat` stands somewhere in `s`.
pub open spec fn contains(s: Seq<char>, pat: Seq<char>) -> bool {
    exists|i: int| occurs_at(s, pat, i)
}

/// The first index at or after `i` where `pat` stands in `s`.
pub open spec fn find_from(s: Seq<char>, pat: Seq<char>, i: int) -> Option<int>
    decreases s.len() + 1 - i,
{
    if i < 0 || i + pat.len() > s.len() {
        None
    } else if occurs_at(s, pat, i) {
        Some(i)
    } else {
        find_from(s, pat, i + 1)
    }
}

/// The first index where `pat` stands in `s`.
pub open spec fn find(s: Seq<char>, pat: Seq<char>) -> Option<int> {
    find_from(s, pat, 0)
}

/// `s` begins with `pat`.
pub open spec fn starts_with(s: Seq<char>, pat: Seq<char>) -> bool {
    pat.is_prefix_of(s)
}

/// Skipping white space forwards stops at the first character that is none,
/// and passes over white space only.
pub proof fn lemma_skip_space(s: Seq<char>, i: int)
    requires
        0 <= i <= s.len(),
    ensures
        i <= skip_space(s, i) <= s.len(),
        forall|k: int| i <= k < skip_space(s, i) ==> white_space(#[trigger] s[k]),
        skip_space(s, i) < s.len() ==> !white_space(s[skip_space(s, i)]),
    decreases s.len() - i,
{
    if i < s.len() && white_space(s[i]) {
        lemma_skip_space(s, i + 1);
    }
}

/// Skipping white space backwards stops behind the last character that is
/// none, and passes over white space only.
pub proof fn lemma_skip_space_back(s: Seq<char>, j: int)
    requires
        0 <= j <= s.len(),
    ensures
        0 <= skip_space_back(s, j) <= j,
        forall|k: int| skip_space_back(s, j) <= k < j ==> white_space(#[trigger] s[k]),
        skip_space_back(s, j) > 0 ==> !white_space(s[skip_space_back(s, j) - 1]),
    decreases j,
{
    if 0 < j && white_space(s[j - 1]) {
        lemma_skip_space_back(s, j - 1);
    }
}

/// The first non-space index is the one that only white space precedes.
pub proof fn lemma_skip_space_is(s: Seq<char>, i: int, a: int)
    requires
        0 <= i <= a <= s.len(),
        forall|k: int| i <= k < a ==> white_space(#[trigger] s[k]),
        a < s.len() ==> !white_space(s[a]),
    ensures
        skip_space(s, i) == a,
    decreases a - i,
{
    if i < a {
        lemma_skip_space_is(s, i + 1, a);
    }
}

/// The last non-space index is the one that only white space follows.
pub proof fn lemma_skip_space_back_is(s: Seq<char>, j: int, b: int)
    requires
        0 <= b <= j <= s.len(),
        forall|k: int| b <= k < j ==> white_space(#[trigger] s[k]),
        b > 0 ==> !white_space(s[b - 1]),
    ensures
        skip_space_back(s, j) == b,
    decreases j - b,
{
    if b < j {
        lemma_skip_space_back_is(s, j - 1, b);
    }
}

/// Trimming returns the part between the white space at both ends: where
/// `s` is white space up to `a` and from `b` on, and the part between is
/// empty or has a character that is no white space at each end, that part is
/// `trim(s)`.
pub proof fn lemma_trim_is(s: Seq<char>, a: int, b: int)
    requires
        0 <= a <= b <= s.len(),
        forall|k: int| 0 <= k < a ==> white_space(#[trigger] s[k]),
        forall|k: int| b <= k < s.len() ==> white_space(#[trigger] s[k]),
        is_trimmed(s.subrange(a, b)),
    ensures
        trim(s) == s.subrange(a, b),
{
    let n = s.len() as int;
    if a == b {
        lemma_skip_space_is(s, 0, n);
        assert(trim(s) =~= s.subrange(a, b));
    } else {
        assert(s.subrange(a, b).first() == s[a]);
        assert(s.subrange(a, b).last() == s[b - 1]);
        lemma_skip_space_is(s, 0, a);
        let t = trim_start(s);
        assert(t == s.subrange(a, n));
        assert forall|k: int| b - a <= k < t.len() implies white_space(#[trigger] t[k]) by {
            assert(t[k] == s[k + a]);
        }
        assert(t[b - a - 1] == s[b - 1]);
        lemma_skip_space_back_is(t, t.len() as int, b - a);
        assert(trim(s) =~= s.subrange(a, b));
    }
}

/// What trimming leaves is trimmed, and trimming it again changes nothing.
pub proof fn lemma_trim_trimmed(s: Seq<char>)
    ensures
        is_trimmed(trim(s)),
        trim(trim(s)) == trim(s),
        trim(s).len() <= s.len(),
{
    lemma_skip_space(s, 0);
    let a = skip_space(s, 0);
    let t = trim_start(s);
    lemma_skip_space_back(t, t.len() as int);
    let b = skip_space_back(t, t.len() as int);
    let r = trim(s);
    assert(r == t.subrange(0, b));
    if r.len() > 0 {
        assert(r.first() == t[0]);
        assert(t[0] == s[a]);
        assert(r.last() == t[b - 1]);
    }
    assert(r.subrange(0, r.len() as int) =~= r);
    lemma_trim_is(r, 0, r.len() as int);
}

/// `find_from` returns the first index from `i` on where the pattern stands,
/// and `None` only when it stands nowhere from there on.
pub proof fn lemma_find_from(s: Seq<char>, pat: Seq<char>, i: int)
    requires
        0 <= i,
    ensures
        match find_from(s, pat, i) {
            Some(k) => i <= k && occurs_at(s, pat, k) && forall|j: int|
                i <= j < k ==> !occurs_at(s, pat, j),
            None => forall|j: int| i <= j ==> !occurs_at(s, pat, j),
        },
    decreases s.len() + 1 - i,
{
    if i + pat.len() > s.len() {
    } else if occurs_at(s, pat, i) {
    } else {
        lemma_find_from(s, pat, i + 1);
    }
}

/// `find` returns the first index where the pattern stands, and `None` only
/// when it stands nowhere.
pub proof fn lemma_find(s: Seq<char>, pat: Seq<char>)
    ensures
        match find(s, pat) {
            Some(k) => occurs_at(s, pat, k) && forall|j: int|
                0 <= j < k ==> !occurs_at(s, pat, j),
            None => !contains(s, pat),
        },
{
    lemma_find_from(s, pat, 0);
}

/// An index where the pattern stands and before which it stands nowhere is
/// what `find` returns.
pub proof fn lemma_find_is(s: Seq<char>, pat: Seq<char>, k: int)
    requires
        occurs_at(s, pat, k),
        forall|j: int| 0 <= j < k ==> !occurs_at(s, pat, j),
    ensures
        find(s, pat) == Some(k),
{
    lemma_find_from(s, pat, 0);
}

/// The parts of `s` before and behind the first place where `pat` stands.
pub open spec fn split_once(s: Seq<char>, pat: Seq<char>) -> Option<(Seq<char>, Seq<char>)> {
    match find(s, pat) {
        Some(i) => Some((s.subrange(0, i), s.subrange(i + pat.len(), s.len() as int))),
        None => None,
    }
}

/// What follows `pat` at the beginning of `s`.
pub open spec fn strip_prefix(s: Seq<char>, pat: Seq<char>) -> Option<Seq<char>> {
    if starts_with(s, pat) {
        Some(s.skip(pat.len() as int))
    } else {
        None
    }
}

/// The part of `s` that trimming leaves, by its bounds: white space stands
/// before `a` and from `b` on, and nowhere at the ends of what is between.
pub proof fn lemma_trim_bounds(s: Seq<char>) -> (bounds: (int, int))
    ensures
        0 <= bounds.0 <= bounds.1 <= s.len(),
        trim(s) == s.subrange(bounds.0, bounds.1),
        is_trimmed(trim(s)),
        forall|k: int| 0 <= k < bounds.0 ==> white_space(#[trigger] s[k]),
        forall|k: int| bounds.1 <= k < s.len() ==> white_space(#[trigger] s[k]),
{
    lemma_skip_space(s, 0);
    let a = skip_space(s, 0);
    let t = trim_start(s);
    lemma_skip_space_back(t, t.len() as int);
    let b = skip_space_back(t, t.len() as int);
    assert(trim(s) =~= s.subrange(a, a + b));
    assert forall|k: int| a + b <= k < s.len() implies white_space(#[trigger] s[k]) by {
        assert(t[k - a] == s[k]);
    }
    lemma_trim_trimmed(s);
    (a, a + b)
}

/// White space in front does not change what trimming leaves.
pub proof fn lemma_trim_skips_leading(space: Seq<char>, s: Seq<char>)
    requires
        all_space(space),
    ensures
        trim(space + s) == trim(s),
{
    let (a, b) = lemma_trim_bounds(s);
    let whole = space + s;
    let n = space.len() as int;
    assert forall|k: int| 0 <= k < n + a implies white_space(#[trigger] whole[k]) by {
        if k < n {
            assert(whole[k] == space[k]);
        } else {
            assert(whole[k] == s[k - n]);
        }
    }
    assert forall|k: int| n + b <= k < whole.len() implies white_space(#[trigger] whole[k]) by {
        assert(whole[k] == s[k - n]);
    }
    assert(whole.subrange(n + a, n + b) =~= s.subrange(a, b));
    lemma_trim_is(whole, n + a, n + b);
}

/// White space behind does not change what trimming leaves.
pub proof fn lemma_trim_skips_trailing(s: Seq<char>, space: Seq<char>)
    requires
        all_space(space),
    ensures
        trim(s + space) == trim(s),
{
    let (a, b) = lemma_trim_bounds(s);
    let whole = s + space;
    assert forall|k: int| 0 <= k < a implies white_space(#[trigger] whole[k]) by {
        assert(whole[k] == s[k]);
    }
    assert forall|k: int| b <= k < whole.len() implies white_space(#[trigger] whole[k]) by {
        if k < s.len() {
            assert(whole[k] == s[k]);
        } else {
            assert(whole[k] == space[k - s.len()]);
        }
    }
    assert(whole.subrange(a, b) =~= s.subrange(a, b));
    lemma_trim_is(whole, a, b);
}

/// A pattern that stands in a part of `s` stands in `s`.
pub proof fn lemma_occurs_in_subrange(s: Seq<char>, pat: Seq<char>, a: int, b: int, i: int)
    requires
        0 <= a <= b <= s.len(),
        occurs_at(s.subrange(a, b), pat, i),
    ensures
        occurs_at(s, pat, a + i),
{
    assert(s.subrange(a + i, a + i + pat.len()) =~= s.subrange(a, b).subrange(i, i + pat.len()));
}

/// Trimming first does not change where a text is split, but for the white
/// space at the outer ends of the two parts: for a pattern that neither
/// begins nor ends with white space, the parts of `trim(s)` trim to what the
/// parts of `s` trim to.
pub proof fn lemma_split_once_trimmed(s: Seq<char>, pat: Seq<char>)
    requires
        pat.len() > 0,
        !white_space(pat.first()),
        !white_space(pat.last()),
    ensures
        match split_once(s, pat) {
            Some((before, after)) => split_once(trim(s), pat) matches Some((b2, a2)) && trim(b2)
                == trim(before) && trim(a2) == trim(after),
            None => split_once(trim(s), pat).is_none(),
        },
{
    let (a, b) = lemma_trim_bounds(s);
    let t = trim(s);
    let n = pat.len() as int;
    lemma_find(s, pat);
    lemma_find(t, pat);
    match find(s, pat) {
        Some(i) => {
            assert(s.subrange(i, i + n)[0] == s[i]);
            assert(s.subrange(i, i + n)[n - 1] == s[i + n - 1]);
            assert(a <= i);
            assert(i + n <= b);
            assert(t.subrange(i - a, i - a + n) =~= s.subrange(i, i + n));
            assert forall|j: int| 0 <= j < i - a implies !occurs_at(t, pat, j) by {
                if occurs_at(t, pat, j) {
                    lemma_occurs_in_subrange(s, pat, a, b, j);
                }
            }
            lemma_find_is(t, pat, i - a);
            let before = s.subrange(0, i);
            let after = s.subrange(i + n, s.len() as int);
            let b2 = t.subrange(0, i - a);
            let a2 = t.subrange(i - a + n, t.len() as int);
            assert(before =~= s.subrange(0, a) + b2);
            assert(after =~= a2 + s.subrange(b, s.len() as int));
            lemma_trim_skips_leading(s.subrange(0, a), b2);
            lemma_trim_skips_trailing(a2, s.subrange(b, s.len() as int));
        },
        None => {
            if find(t, pat).is_some() {
                lemma_occurs_in_subrange(s, pat, a, b, find(t, pat).unwrap());
            }
        },
    }
}

/// White space around the two parts and the pattern between them does not
/// matter: a text made of a trimmed part that does not hold the pattern,
/// white space, the pattern, and another trimmed part, with white space
/// allowed before and behind each part, is split at that pattern, and the
/// two sides trim to the two parts.
pub proof fn lemma_split_once_padded(
    pre: Seq<char>,
    left: Seq<char>,
    mid: Seq<char>,
    pat: Seq<char>,
    post: Seq<char>,
    right: Seq<char>,
    end: Seq<char>,
)
    requires
        all_space(pre),
        all_space(mid),
        all_space(post),
        all_space(end),
        mid.len() > 0,
        pat.len() > 0,
        forall|k: int| 0 <= k < pat.len() ==> !white_space(#[trigger] pat[k]),
        is_trimmed(left),
        is_trimmed(right),
        !contains(left, pat),
    ensures
        split_once(pre + left + mid + pat + post + right + end, pat) == Some(
            (pre + left + mid, post + right + end),
        ),
        trim(pre + left + mid) == left,
        trim(post + right + end) == right,
{
    let s = pre + left + mid + pat + post + right + end;
    let before = pre + left + mid;
    let after = post + right + end;
    let a = pre.len() as int;
    let b = a + left.len();
    let i = b + mid.len();
    let n = pat.len() as int;
    assert(s =~= before + pat + after);
    assert(s.subrange(i, i + n) =~= pat);
    assert forall|k: int| 0 <= k < i implies #[trigger] s[k] == before[k] by {}
    assert forall|k: int| 0 <= k < a implies white_space(#[trigger] before[k]) by {
        assert(before[k] == pre[k]);
    }
    assert forall|k: int| b <= k < i implies white_space(#[trigger] before[k]) by {
        assert(before[k] == mid[k - b]);
    }
    assert(before.subrange(a, b) =~= left);
    assert forall|j: int| 0 <= j < i implies !occurs_at(s, pat, j) by {
        if occurs_at(s, pat, j) {
            assert forall|k: int| j <= k < j + n implies !white_space(#[trigger] s[k]) by {
                assert(s.subrange(j, j + n)[k - j] == s[k]);
                assert(!white_space(pat[k - j]));
            }
            if j < a {
                assert(white_space(before[j]));
                assert(s[j] == before[j]);
            } else if j + n <= b {
                let inner = left.subrange(j - a, j - a + n);
                assert forall|k: int| 0 <= k < n implies #[trigger] inner[k] == s.subrange(
                    j,
                    j + n,
                )[k] by {
                    assert(s[j + k] == before[j + k]);
                    assert(before.subrange(a, b)[j - a + k] == before[j + k]);
                }
                assert(inner =~= s.subrange(j, j + n));
                assert(occurs_at(left, pat, j - a));
            } else {
                let k = if j < b {
                    b
                } else {
                    j
                };
                assert(white_space(before[k]));
                assert(s[k] == before[k]);
            }
        }
    }
    lemma_find_is(s, pat, i);
    assert(s.subrange(0, i) =~= before);
    assert(s.subrange(i + n, s.len() as int) =~= after);
    lemma_trim_is(before, a, b);
    let c = post.len() as int;
    let d = c + right.len();
    assert forall|k: int| 0 <= k < c implies white_space(#[trigger] after[k]) by {
        assert(after[k] == post[k]);
    }
    assert forall|k: int| d <= k < after.len() implies white_space(#[trigger] after[k]) by {
        assert(after[k] == end[k - d]);
    }
    assert(after.subrange(c, d) =~= right);
    lemma_trim_is(after, c, d);
}

/// Whether `c` is white space.
pub fn is_whitespace(c: char) -> (r: bool)
    ensures
        r == white_space(c),
{
    ('\u{9}' <= c && c <= '\u{d}') || c == ' ' || c == '\u{85}' || c == '\u{a0}' || c == '\u{1680}'
        || ('\u{2000}' <= c && c <= '\u{200a}') || c == '\u{2028}' || c == '\u{2029}' || c
        == '\u{202f}' || c == '\u{205f}' || c == '\u{3000}'
}

/// The characters of `s`, in order.
pub fn chars_of(s: &str) -> (r: Vec<char>)
    ensures
        r@ == s@,
{
    let mut out: Vec<char> = Vec::new();
    for c in it: s.chars()
        invariant
            out@ == it.seq().take(it.index()),
    {
        out.push(c);
    }
    out
}

/// Appends the characters of `chars` to `out`.
pub fn push_chars(out: &mut String, chars: &[char])
    ensures
        final(out)@ == old(out)@ + chars@,
{
    let mut i: usize = 0;
    while i < chars.len()
        invariant
            i <= chars.len(),
            out@ == old(out)@ + chars@.subrange(0, i as int),
        decreases chars.len() - i,
    {
        out.push(chars[i]);
        i += 1;
        assert(chars@.subrange(0, i as int) == chars@.subrange(0, i - 1).push(chars@[i - 1]));
    }
    assert(chars@.subrange(0, i as int) == chars@);
}

/// The string that holds the characters of `chars`.
pub fn string_of(chars: &[char]) -> (r: String)
    ensures
        r@ == chars@,
{
    let mut out = String::new();
    push_chars(&mut out, chars);
    out
}

/// `s` without its leading white space.
pub fn trim_start_chars(s: &[char]) -> (r: &[char])
    ensures
        r@ == trim_start(s@),
{
    let mut i: usize = 0;
    while i < s.len() && is_whitespace(s[i])
        invariant
            i <= s.len(),
            skip_space(s@, 0) == skip_space(s@, i as int),
        decreases s.len() - i,
    {
        i += 1;
    }
    slice_subrange(s, i, s.len())
}

/// `s` without its trailing white space.
pub fn trim_end_chars(s: &[char]) -> (r: &[char])
    ensures
        r@ == trim_end(s@),
{
    let mut j: usize = s.len();
    while j > 0 && is_whitespace(s[j - 1])
        invariant
            j <= s.len(),
            skip_space_back(s@, s@.len() as int) == skip_space_back(s@, j as int),
        decreases j,
    {
        j -= 1;
    }
    slice_subrange(s, 0, j)
}

/// `s` without leading and trailing white space.
pub fn trim_chars(s: &[char]) -> (r: &[char])
    ensures
        r@ == trim(s@),
{
    trim_end_chars(trim_start_chars(s))
}

/// Whether `pat` stands in `s` at index `i`.
pub fn matches_at(s: &[char], pat: &[char], i: usize) -> (r: bool)
    ensures
        r == occurs_at(s@, pat@, i as int),
{
    if pat.len() > s.len() || i > s.len() - pat.len() {
        return false;
    }
    let mut k: usize = 0;
    while k < pat.len()
        invariant
            k <= pat.len(),
            i + pat.len() <= s.len(),
            forall|j: int| 0 <= j < k ==> s@[i + j] == pat@[j],
        decreases pat.len() - k,
    {
        if s[i + k] != pat[k] {
            assert(s@.subrange(i as int, i + pat@.len())[k as int] != pat@[k as int]);
            return false;
        }
        k += 1;
    }
    assert(s@.subrange(i as int, i + pat@.len()) =~= pat@);
    true
}

/// Whether `s` begins with the characters of `pat`.
pub fn has_prefix(s: &[char], pat: &str) -> (r: bool)
    ensures
        r == starts_with(s@, pat@),
{
    let p = chars_of(pat);
    let r = matches_at(s, p.as_slice(), 0);
    proof {
        if r {
            assert(s@.subrange(0, p@.len() as int) == p@);
        }
        if starts_with(s@, pat@) {
            assert(s@.subrange(0, p@.len() as int) =~= p@);
        }
    }
    r
}

/// The first index where the characters of `pat` stand in `s`.
pub fn find_chars(s: &[char], pat: &str) -> (r: Option<usize>)
    ensures
        match r {
            Some(i) => find(s@, pat@) == Some(i as int),
            None => find(s@, pat@).is_none(),
        },
{
    let p = chars_of(pat);
    let mut i: usize = 0;
    loop
        invariant
            i <= s.len(),
            p@ == pat@,
            find(s@, p@) == find_from(s@, p@, i as int),
        decreases s.len() - i,
    {
        if matches_at(s, p.as_slice(), i) {
            return Some(i);
        }
        if i == s.len() {
            assert(find_from(s@, p@, i + 1).is_none());
            return None;
        }
        i += 1;
    }
}

/// What follows the characters of `pat` at the beginning of `s`.
pub fn strip_prefix_chars<'a>(s: &'a [char], pat: &str) -> (r: Option<&'a [char]>)
    ensures
        match r {
            Some(rest) => strip_prefix(s@, pat@) == Some(rest@),
            None => strip_prefix(s@, pat@).is_none(),
        },
{
    if has_prefix(s, pat) {
        let n = pat.unicode_len();
        Some(slice_subrange(s, n, s.len()))
    } else {
        None
    }
}

/// The parts of `s` before and behind the first place where the characters
/// of `pat` stand.
pub fn split_once_chars<'a>(s: &'a [char], pat: &str) -> (r: Option<(&'a [char], &'a [char])>)
    ensures
        match r {
            Some((before, after)) => split_once(s@, pat@) == Some((before@, after@)),
            None => split_once(s@, pat@).is_none(),
        },
{
    match find_chars(s, pat) {
        Some(i) => {
            let n = pat.unicode_len();
            proof {
                lemma_find(s@, pat@);
            }
            assert(occurs_at(s@, pat@, i as int));
            assert(i + n <= s.len());
            Some((slice_subrange(s, 0, i), slice_subrange(s, i + n, s.len())))
        },
        None => None,
    }
}

} // verus!
