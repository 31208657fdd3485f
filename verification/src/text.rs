//! Text helpers shared by the rest of the crate.
//!
//! File names and configuration values are `String`s whose view is the
//! sequence of their characters; everything here is stated over that view.

use vstd::prelude::*;
use vstd::string::*;

verus! {

/// The lowercase form of a text as `str::to_lowercase` computes it.
///
/// The mapping follows the Unicode case tables and is not spelled out here;
/// contracts refer to it by this name.
pub uninterp spec fn lowercase_of(text: Seq<char>) -> Seq<char>;

/// `needle` occurs in `hay` starting at character position `at`.
pub open spec fn occurs_at(needle: Seq<char>, hay: Seq<char>, at: int) -> bool {
    &&& 0 <= at
    &&& at + needle.len() <= hay.len()
    &&& hay.subrange(at, at + needle.len()) == needle
}

/// `needle` occurs somewhere in `hay` as a contiguous run of characters.
pub open spec fn is_substring(needle: Seq<char>, hay: Seq<char>) -> bool {
    exists|at: int| occurs_at(needle, hay, at)
}

/// Calls `str::to_lowercase`. Trusted: the result is the lowercase form named
/// by [`lowercase_of`]; nothing else is claimed of it.
#[verifier::external_body]
pub(crate) fn to_lowercase(text: &str) -> (lower: String)
    ensures
        lower@ == lowercase_of(text@),
{
    text.to_lowercase()
}

/// Calls `str::contains` with a string pattern. Trusted: the answer is `true`
/// exactly when the pattern matches a contiguous part of the text.
#[verifier::external_body]
pub(crate) fn contains_text(hay: &str, needle: &str) -> (found: bool)
    ensures
        found == is_substring(needle@, hay@),
{
    hay.contains(needle)
}

/// The characters of a text, in order.
pub fn chars_of(text: &str) -> (chars: Vec<char>)
    ensures
        chars@ == text@,
{
    let mut chars: Vec<char> = Vec::new();
    for c in it: text.chars()
        invariant
            it.seq() == text@,
            chars@ == it.seq().subrange(0, it.index() as int),
    {
        chars.push(c);
    }
    assert(chars@ == text@);
    chars
}

/// Whether two texts hold the same characters.
pub fn same_text(a: &str, b: &str) -> (same: bool)
    ensures
        same == (a@ == b@),
{
    let left: String = a.to_owned();
    let right: String = b.to_owned();
    left == right
}

/// Code-point order on characters.
pub open spec fn char_lt(a: char, b: char) -> bool {
    a < b
}

/// Of two different characters one has the smaller code point.
pub proof fn lemma_char_order_total(a: char, b: char)
    ensures
        a == b || char_lt(a, b) || char_lt(b, a),
{
}

/// Lexicographic order on texts by code point: `a` comes strictly before `b`.
pub open spec fn text_lt(a: Seq<char>, b: Seq<char>) -> bool {
    exists|k: int| differs_first_at(a, b, k)
}

/// `a` and `b` agree on their first `k` characters and `a` is smaller at
/// position `k`, either by ending there or by holding a smaller character.
pub open spec fn differs_first_at(a: Seq<char>, b: Seq<char>, k: int) -> bool {
    &&& 0 <= k <= a.len()
    &&& k < b.len()
    &&& a.subrange(0, k) == b.subrange(0, k)
    &&& (k == a.len() || char_lt(a[k], b[k]))
}

/// Two texts that agree up to `k` and differ at `k` differ first at `k`.
proof fn lemma_first_difference_unique(a: Seq<char>, b: Seq<char>, j: int, k: int)
    requires
        0 <= j <= a.len(),
        0 <= j <= b.len(),
        a.subrange(0, j) == b.subrange(0, j),
        0 <= k <= a.len(),
        0 <= k <= b.len(),
        a.subrange(0, k) == b.subrange(0, k),
        j < k,
    ensures
        j < a.len() && j < b.len() && a[j] == b[j],
{
    assert(a.subrange(0, k)[j] == a[j]);
    assert(b.subrange(0, k)[j] == b[j]);
}

/// The order is asymmetric: two texts cannot each come before the other.
pub proof fn lemma_text_lt_asymmetric(a: Seq<char>, b: Seq<char>)
    requires
        text_lt(a, b),
    ensures
        !text_lt(b, a),
{
    if text_lt(b, a) {
        let j = choose|j: int| differs_first_at(a, b, j);
        let k = choose|k: int| differs_first_at(b, a, k);
        if j < k {
            lemma_first_difference_unique(a, b, j, k);
        } else if k < j {
            lemma_first_difference_unique(a, b, k, j);
        }
    }
}

/// The order is transitive.
pub proof fn lemma_text_lt_transitive(a: Seq<char>, b: Seq<char>, c: Seq<char>)
    requires
        text_lt(a, b),
        text_lt(b, c),
    ensures
        text_lt(a, c),
{
    let j = choose|j: int| differs_first_at(a, b, j);
    let k = choose|k: int| differs_first_at(b, c, k);
    let m = if j <= k { j } else { k };
    assert(a.subrange(0, m) =~= c.subrange(0, m)) by {
        assert forall|i: int| 0 <= i < m implies a[i] == c[i] by {
            assert(a.subrange(0, j)[i] == a[i]);
            assert(b.subrange(0, j)[i] == b[i]);
            assert(b.subrange(0, k)[i] == b[i]);
            assert(c.subrange(0, k)[i] == c[i]);
        }
    }
    if j < k {
        assert(b.subrange(0, k)[j] == b[j]);
        assert(c.subrange(0, k)[j] == c[j]);
    } else if k < j {
        assert(a.subrange(0, j)[k] == a[k]);
        assert(b.subrange(0, j)[k] == b[k]);
    }
    assert(differs_first_at(a, c, m));
}

/// The order is total: of two different texts one comes before the other.
pub proof fn lemma_text_lt_total(a: Seq<char>, b: Seq<char>)
    ensures
        a == b || text_lt(a, b) || text_lt(b, a),
{
    assert(a.subrange(0, 0) =~= b.subrange(0, 0));
    lemma_common_prefix(a, b, 0);
}

/// Walks the common prefix of two texts from position `k` to the first
/// difference, which decides the order.
proof fn lemma_common_prefix(a: Seq<char>, b: Seq<char>, k: int)
    requires
        0 <= k <= a.len(),
        k <= b.len(),
        a.subrange(0, k) == b.subrange(0, k),
    ensures
        a == b || text_lt(a, b) || text_lt(b, a),
    decreases a.len() - k,
{
    if k == a.len() {
        if k == b.len() {
            assert(a.subrange(0, k) =~= a);
            assert(b.subrange(0, k) =~= b);
        } else {
            assert(differs_first_at(a, b, k));
        }
    } else if k == b.len() {
        assert(differs_first_at(b, a, k));
    } else if a[k] == b[k] {
        assert(a.subrange(0, k + 1) =~= a.subrange(0, k).push(a[k]));
        assert(b.subrange(0, k + 1) =~= b.subrange(0, k).push(b[k]));
        lemma_common_prefix(a, b, k + 1);
    } else if char_lt(a[k], b[k]) {
        assert(differs_first_at(a, b, k));
    } else {
        lemma_char_order_total(a[k], b[k]);
        assert(differs_first_at(b, a, k));
    }
}

/// Decides the lexicographic order of two texts given as characters.
pub fn chars_lt(a: &Vec<char>, b: &Vec<char>) -> (before: bool)
    ensures
        before == text_lt(a@, b@),
{
    let mut k: usize = 0;
    let mut diverged: bool = false;
    while !diverged && k < a.len() && k < b.len()
        invariant
            k <= a.len(),
            k <= b.len(),
            a@.subrange(0, k as int) == b@.subrange(0, k as int),
            diverged ==> k < a.len() && k < b.len() && a@[k as int] != b@[k as int],
        decreases a.len() - k + (if diverged { 0int } else { 1int }),
    {
        let left: char = a[k];
        let right: char = b[k];
        if left == right {
            proof {
                assert(a@.subrange(0, k + 1) =~= a@.subrange(0, k as int).push(a@[k as int]));
                assert(b@.subrange(0, k + 1) =~= b@.subrange(0, k as int).push(b@[k as int]));
            }
            k += 1;
        } else {
            diverged = true;
        }
    }
    let before: bool = if k == b.len() {
        false
    } else if k == a.len() {
        true
    } else {
        let left: char = a[k];
        let right: char = b[k];
        left < right
    };
    proof {
        if before {
            assert(differs_first_at(a@, b@, k as int));
        } else if text_lt(a@, b@) {
            let j = choose|j: int| differs_first_at(a@, b@, j);
            if j < k {
                lemma_first_difference_unique(a@, b@, j, k as int);
            } else if k < j {
                lemma_first_difference_unique(a@, b@, k as int, j);
            }
        }
    }
    before
}

/// Whether a character is white space in the sense of Unicode's `White_Space`
/// property, which is what trimming removes.
pub open spec fn is_space(c: char) -> bool {
    ||| ('\u{9}' <= c && c <= '\u{d}')
    ||| c == ' '
    ||| c == '\u{85}'
    ||| c == '\u{a0}'
    ||| c == '\u{1680}'
    ||| ('\u{2000}' <= c && c <= '\u{200a}')
    ||| c == '\u{2028}'
    ||| c == '\u{2029}'
    ||| c == '\u{202f}'
    ||| c == '\u{205f}'
    ||| c == '\u{3000}'
}

/// Decides [`is_space`].
pub fn is_space_char(c: char) -> (space: bool)
    ensures
        space == is_space(c),
{
    ('\u{9}' <= c && c <= '\u{d}') || c == ' ' || c == '\u{85}' || c == '\u{a0}' || c == '\u{1680}'
        || ('\u{2000}' <= c && c <= '\u{200a}') || c == '\u{2028}' || c == '\u{2029}' || c
        == '\u{202f}' || c == '\u{205f}' || c == '\u{3000}'
}

/// The first position in `[from, to)` that holds no white space, or `to` when
/// the whole range is white space.
pub open spec fn skip_spaces(text: Seq<char>, from: int, to: int) -> int
    decreases to - from,
{
    if from >= to || from < 0 || to > text.len() {
        to
    } else if !is_space(text[from]) {
        from
    } else {
        skip_spaces(text, from + 1, to)
    }
}

/// The end of the last run of non-space characters in `[from, to)`: the
/// smallest `end >= from` such that `[end, to)` is white space.
pub open spec fn drop_spaces(text: Seq<char>, from: int, to: int) -> int
    decreases to - from,
{
    if from >= to || from < 0 || to > text.len() {
        from
    } else if !is_space(text[to - 1]) {
        to
    } else {
        drop_spaces(text, from, to - 1)
    }
}

/// The characters of `[from, to)` without leading and trailing white space.
pub open spec fn trimmed_range(text: Seq<char>, from: int, to: int) -> Seq<char> {
    let start = skip_spaces(text, from, to);
    let end = drop_spaces(text, from, to);
    if start < end {
        text.subrange(start, end)
    } else {
        Seq::empty()
    }
}

/// The position of the first line feed at or after `from`, or the length of
/// the text when there is none.
pub open spec fn line_end(text: Seq<char>, from: int) -> int
    decreases text.len() - from,
{
    if from >= text.len() || from < 0 {
        text.len() as int
    } else if text[from] == '\n' {
        from
    } else {
        line_end(text, from + 1)
    }
}

/// Finds the start of the trimmed part of `[from, to)`.
pub fn find_trim_start(text: &Vec<char>, from: usize, to: usize) -> (start: usize)
    requires
        from <= to <= text.len(),
    ensures
        start == skip_spaces(text@, from as int, to as int),
        from <= start <= to,
{
    let mut at: usize = from;
    while at < to && is_space_char(text[at])
        invariant
            from <= at <= to,
            to <= text.len(),
            skip_spaces(text@, from as int, to as int) == skip_spaces(text@, at as int, to as int),
        decreases to - at,
    {
        at += 1;
    }
    at
}

/// Finds the end of the trimmed part of `[from, to)`.
pub fn find_trim_end(text: &Vec<char>, from: usize, to: usize) -> (end: usize)
    requires
        from <= to <= text.len(),
    ensures
        end == drop_spaces(text@, from as int, to as int),
        from <= end <= to,
{
    let mut at: usize = to;
    while at > from && is_space_char(text[at - 1])
        invariant
            from <= at <= to,
            to <= text.len(),
            drop_spaces(text@, from as int, to as int) == drop_spaces(text@, from as int, at as int),
        decreases at - from,
    {
        at -= 1;
    }
    at
}

/// Finds the end of the line that starts at `from`.
pub fn find_line_end(text: &Vec<char>, from: usize) -> (end: usize)
    requires
        from <= text.len(),
    ensures
        end == line_end(text@, from as int),
        from <= end <= text.len(),
{
    let mut at: usize = from;
    while at < text.len() && text[at] != '\n'
        invariant
            from <= at <= text.len(),
            line_end(text@, from as int) == line_end(text@, at as int),
        decreases text.len() - at,
    {
        at += 1;
    }
    at
}

} // verus!
