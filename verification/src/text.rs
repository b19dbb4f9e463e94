//! Text as sequences of characters: white space, lines and prefixes.

use vstd::prelude::*;
use vstd::utf8::{decode_utf8, valid_utf8};

verus! {

/// The characters with the Unicode property `White_Space`.
pub open spec fn white_space(c: char) -> bool {
    let u = c as u32;
    ||| 0x09 <= u <= 0x0d
    ||| u == 0x20
    ||| u == 0x85
    ||| u == 0xa0
    ||| u == 0x1680
    ||| 0x2000 <= u <= 0x200a
    ||| 0x2028 <= u <= 0x2029
    ||| u == 0x202f
    ||| u == 0x205f
    ||| u == 0x3000
}

/// `s` without the white space at its front.
pub open spec fn trim_start_of(s: Seq<char>) -> Seq<char>
    decreases s.len(),
{
    if s.len() > 0 && white_space(s.first()) {
        trim_start_of(s.drop_first())
    } else {
        s
    }
}

/// `s` without the white space at its end.
pub open spec fn trim_end_of(s: Seq<char>) -> Seq<char>
    decreases s.len(),
{
    if s.len() > 0 && white_space(s.last()) {
        trim_end_of(s.drop_last())
    } else {
        s
    }
}

/// `s` without the white space at either end.
pub open spec fn trim_of(s: Seq<char>) -> Seq<char> {
    trim_end_of(trim_start_of(s))
}

/// The characters of `s` before the first line feed; all of `s` if it has none.
pub open spec fn before_line_feed(s: Seq<char>) -> Seq<char>
    decreases s.len(),
{
    if s.len() == 0 || s.first() == '\n' {
        Seq::empty()
    } else {
        seq![s.first()] + before_line_feed(s.drop_first())
    }
}

/// The first line of `s` without its line ending, which is a line feed or a
/// carriage return and a line feed. Empty text has no line.
pub open spec fn first_line_of(s: Seq<char>) -> Option<Seq<char>> {
    let line = before_line_feed(s);
    if s.len() == 0 {
        None
    } else if line.len() < s.len() && line.len() > 0 && line.last() == '\r' {
        Some(line.drop_last())
    } else {
        Some(line)
    }
}

/// Whether `c` is white space.
pub fn is_white_space(c: char) -> (r: bool)
    ensures
        r == white_space(c),
{
    let u: u32 = c as u32;
    (0x09 <= u && u <= 0x0d) || u == 0x20 || u == 0x85 || u == 0xa0 || u == 0x1680 || (0x2000 <= u
        && u <= 0x200a) || (0x2028 <= u && u <= 0x2029) || u == 0x202f || u == 0x205f || u == 0x3000
}

/// The characters of `s`, for access by index.
pub fn chars_of(s: &str) -> (v: Vec<char>)
    ensures
        v@ == s@,
{
    let mut v: Vec<char> = Vec::new();
    for c in iter: s.chars()
        invariant
            v@ == iter.seq().take(iter.index()),
            iter.seq() == s@,
    {
        v.push(c);
    }
    v
}

/// `s` without the white space at either end.
pub fn trim(s: &str) -> (r: &str)
    ensures
        r@ == trim_of(s@),
{
    let chars = chars_of(s);
    let n: usize = chars.len();
    let mut lo: usize = 0;
    assert(chars@.skip(0) == chars@);
    while lo < n && is_white_space(chars[lo])
        invariant
            n == chars@.len(),
            lo <= n,
            trim_start_of(chars@) == trim_start_of(chars@.skip(lo as int)),
        decreases n - lo,
    {
        assert(chars@.skip(lo as int).drop_first() == chars@.skip(lo + 1));
        lo += 1;
    }
    assert(trim_start_of(chars@) == chars@.skip(lo as int));
    let mut hi: usize = n;
    assert(chars@.subrange(lo as int, n as int) == chars@.skip(lo as int));
    while lo < hi && is_white_space(chars[hi - 1])
        invariant
            n == chars@.len(),
            lo <= hi <= n,
            trim_end_of(chars@.skip(lo as int)) == trim_end_of(
                chars@.subrange(lo as int, hi as int),
            ),
        decreases hi,
    {
        assert(chars@.subrange(lo as int, hi as int).drop_last() == chars@.subrange(
            lo as int,
            hi - 1,
        ));
        hi -= 1;
    }
    s.substring_char(lo, hi)
}

/// The first line of `s` without its line ending, if `s` has a line.
pub fn first_line(s: &str) -> (r: Option<&str>)
    ensures
        match first_line_of(s@) {
            Some(line) => r matches Some(t) && t@ == line,
            None => r is None,
        },
{
    let chars = chars_of(s);
    let n: usize = chars.len();
    if n == 0 {
        return None;
    }
    let mut end: usize = 0;
    assert(chars@.skip(0) == chars@);
    while end < n && chars[end] != '\n'
        invariant
            n == chars@.len(),
            end <= n,
            before_line_feed(chars@) == chars@.take(end as int) + before_line_feed(
                chars@.skip(end as int),
            ),
        decreases n - end,
    {
        assert(chars@.skip(end as int).drop_first() == chars@.skip(end + 1));
        assert(chars@.take(end + 1) == chars@.take(end as int) + seq![chars@[end as int]]);
        end += 1;
    }
    assert(before_line_feed(chars@) == chars@.take(end as int));
    if end < n && end > 0 && chars[end - 1] == '\r' {
        assert(chars@.take(end as int).drop_last() == chars@.subrange(0, end - 1));
        Some(s.substring_char(0, end - 1))
    } else {
        assert(chars@.take(end as int) == chars@.subrange(0, end as int));
        Some(s.substring_char(0, end))
    }
}

/// Whether `a` and `b` are the same text.
pub fn same_text(a: &str, b: &str) -> (r: bool)
    ensures
        r == (a@ == b@),
{
    assert(a@ == a@.subrange(0, a@.len() as int));
    starts_with(a, b) && a.unicode_len() == b.unicode_len()
}

/// Whether `s` begins with `prefix`.
pub fn starts_with(s: &str, prefix: &str) -> (r: bool)
    ensures
        r == prefix@.is_prefix_of(s@),
{
    let chars = chars_of(s);
    let want = chars_of(prefix);
    if chars.len() < want.len() {
        return false;
    }
    let n: usize = want.len();
    for i in 0..n
        invariant
            n == want@.len() <= chars@.len(),
            chars@ == s@,
            want@ == prefix@,
            forall|j: int| 0 <= j < i ==> chars@[j] == want@[j],
    {
        if chars[i] != want[i] {
            assert(s@.subrange(0, n as int)[i as int] != prefix@[i as int]);
            return false;
        }
    }
    true
}

/// The text that `bytes` encode, if they are valid UTF-8.
///
/// Calls `std::str::from_utf8`, and claims of it that it succeeds exactly on
/// valid UTF-8 and then gives the characters that the bytes encode.
#[verifier::external_body]
pub(crate) fn utf8_text(bytes: &[u8]) -> (r: Option<&str>)
    ensures
        r is Some <==> valid_utf8(bytes@),
        r matches Some(s) ==> s@ == decode_utf8(bytes@),
{
    std::str::from_utf8(bytes).ok()
}

/// White space after a text that has none at its ends goes away.
pub proof fn law_trim_after(s: Seq<char>, space: Seq<char>)
    requires
        s.len() > 0,
        !white_space(s.first()),
        !white_space(s.last()),
        forall|i: int| 0 <= i < space.len() ==> white_space(space[i]),
    ensures
        trim_of(s + space) == s,
    decreases space.len(),
{
    assert((s + space).first() == s.first());
    if space.len() > 0 {
        assert((s + space).last() == space.last());
        assert((s + space).drop_last() == s + space.drop_last());
        law_trim_after(s, space.drop_last());
        assert(trim_start_of(s + space.drop_last()) == s + space.drop_last());
    } else {
        assert(s + space == s);
    }
}

/// The first line ends at the first line feed.
pub proof fn law_first_line(line: Seq<char>, rest: Seq<char>)
    requires
        forall|i: int| 0 <= i < line.len() ==> line[i] != '\n' && line[i] != '\r',
    ensures
        first_line_of(line + seq!['\n'] + rest) == Some(line),
{
    lemma_before_line_feed(line, rest);
    let s = line + seq!['\n'] + rest;
    if line.len() > 0 {
        assert(line.last() == line[line.len() - 1]);
    }
}

proof fn lemma_before_line_feed(line: Seq<char>, rest: Seq<char>)
    requires
        forall|i: int| 0 <= i < line.len() ==> line[i] != '\n',
    ensures
        before_line_feed(line + seq!['\n'] + rest) == line,
    decreases line.len(),
{
    let s = line + seq!['\n'] + rest;
    if line.len() == 0 {
        assert(s.first() == '\n');
        assert(line == Seq::<char>::empty());
    } else {
        assert(s.first() == line[0]);
        assert(s.drop_first() == line.drop_first() + seq!['\n'] + rest);
        lemma_before_line_feed(line.drop_first(), rest);
        assert(seq![line[0]] + line.drop_first() == line);
    }
}

/// Whether `s` from `lo` to `hi` is what is left of `s` when all white space is
/// taken away at its ends, and nothing else.
pub open spec fn is_core(s: Seq<char>, lo: int, hi: int) -> bool {
    &&& 0 <= lo <= hi <= s.len()
    &&& forall|i: int| 0 <= i < lo ==> white_space(#[trigger] s[i])
    &&& forall|i: int| hi <= i < s.len() ==> white_space(#[trigger] s[i])
    &&& lo < hi ==> !white_space(s[lo]) && !white_space(s[hi - 1])
}

/// Trimming takes away white space only, all that there is at either end, and
/// nothing between the first and the last character that is none.
pub proof fn law_trim_exact(s: Seq<char>)
    ensures
        exists|lo: int, hi: int| #[trigger]
            is_core(s, lo, hi) && trim_of(s) == s.subrange(lo, hi),
{
    let lo = lemma_trim_start(s);
    let rest = s.skip(lo);
    let n = lemma_trim_end(rest);
    let hi = lo + n;
    assert(rest.take(n) == s.subrange(lo, hi));
    assert forall|i: int| hi <= i < s.len() implies white_space(#[trigger] s[i]) by {
        assert(s[i] == rest[i - lo]);
    }
    if lo < hi {
        assert(s[lo] == rest[0]);
        assert(s[hi - 1] == rest[n - 1]);
    }
    assert(is_core(s, lo, hi));
}

proof fn lemma_trim_start(s: Seq<char>) -> (lo: int)
    ensures
        0 <= lo <= s.len(),
        trim_start_of(s) == s.skip(lo),
        forall|i: int| 0 <= i < lo ==> white_space(#[trigger] s[i]),
        lo < s.len() ==> !white_space(s[lo]),
    decreases s.len(),
{
    if s.len() > 0 && white_space(s.first()) {
        let rest = s.drop_first();
        let n = lemma_trim_start(rest);
        assert(rest.skip(n) == s.skip(n + 1));
        assert forall|i: int| 0 <= i < n + 1 implies white_space(#[trigger] s[i]) by {
            if i > 0 {
                assert(s[i] == rest[i - 1]);
            }
        }
        if n < rest.len() {
            assert(s[n + 1] == rest[n]);
        }
        n + 1
    } else {
        assert(s.skip(0) == s);
        0
    }
}

proof fn lemma_trim_end(s: Seq<char>) -> (n: int)
    ensures
        0 <= n <= s.len(),
        trim_end_of(s) == s.take(n),
        forall|i: int| n <= i < s.len() ==> white_space(#[trigger] s[i]),
        n > 0 ==> !white_space(s[n - 1]),
    decreases s.len(),
{
    if s.len() > 0 && white_space(s.last()) {
        let rest = s.drop_last();
        let n = lemma_trim_end(rest);
        assert(rest.take(n) == s.take(n));
        assert forall|i: int| n <= i < s.len() implies white_space(#[trigger] s[i]) by {
            if i < rest.len() {
                assert(s[i] == rest[i]);
            }
        }
        n
    } else {
        assert(s.take(s.len() as int) == s);
        s.len() as int
    }
}

/// White space around a text that has none at its ends goes away, however much
/// there is of it.
pub proof fn law_trim_between(before: Seq<char>, s: Seq<char>, after: Seq<char>)
    requires
        s.len() > 0,
        !white_space(s.first()),
        !white_space(s.last()),
        forall|i: int| 0 <= i < before.len() ==> white_space(#[trigger] before[i]),
        forall|i: int| 0 <= i < after.len() ==> white_space(#[trigger] after[i]),
    ensures
        trim_of(before + s + after) == s,
    decreases before.len(),
{
    let all = before + s + after;
    if before.len() > 0 {
        assert(all.first() == before[0]);
        assert(all.drop_first() == before.drop_first() + s + after);
        law_trim_between(before.drop_first(), s, after);
    } else {
        assert(all == s + after);
        law_trim_after(s, after);
    }
}

/// Whether the first line of `s` is followed by a line feed at `end`, or by
/// nothing.
pub open spec fn is_line_end(s: Seq<char>, end: int) -> bool {
    &&& 0 <= end <= s.len()
    &&& end < s.len() ==> s[end] == '\n'
    &&& forall|i: int| 0 <= i < end ==> #[trigger] s[i] != '\n'
}

/// The first line of a text goes up to its first line feed, or to its end if it has
/// none. A carriage return directly before the line feed is no part of it. Empty
/// text has no line.
pub proof fn law_first_line_exact(s: Seq<char>, end: int)
    requires
        is_line_end(s, end),
    ensures
        first_line_of(s) == if s.len() == 0 {
            None::<Seq<char>>
        } else if 0 < end < s.len() && s[end - 1] == '\r' {
            Some(s.take(end - 1))
        } else {
            Some(s.take(end))
        },
{
    lemma_before_end(s, end);
    if end > 0 {
        assert(s.take(end).last() == s[end - 1]);
        assert(s.take(end).drop_last() == s.take(end - 1));
    }
}

proof fn lemma_before_end(s: Seq<char>, end: int)
    requires
        is_line_end(s, end),
    ensures
        before_line_feed(s) == s.take(end),
    decreases s.len(),
{
    if end > 0 {
        let rest = s.drop_first();
        assert forall|i: int| 0 <= i < end - 1 implies #[trigger] rest[i] != '\n' by {
            assert(rest[i] == s[i + 1]);
        }
        lemma_before_end(rest, end - 1);
        assert(seq![s.first()] + rest.take(end - 1) == s.take(end));
    } else {
        assert(s.take(0) == Seq::<char>::empty());
    }
}

} // verus!
