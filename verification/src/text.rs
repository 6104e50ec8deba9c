//! Text as sequences of characters: decoding, case folding, trimming and
//! substring search.

use vstd::prelude::*;
use vstd::std_specs::iter::IteratorSpec;
use vstd::utf8::{decode_utf8, valid_utf8};

verus! {

/// `needle` stands in `hay` at position `at`.
pub open spec fn occurs_at(needle: Seq<char>, hay: Seq<char>, at: int) -> bool {
    &&& 0 <= at
    &&& at + needle.len() <= hay.len()
    &&& hay.subrange(at, at + needle.len()) == needle
}

/// `needle` stands somewhere in `hay`.
pub open spec fn is_substring(needle: Seq<char>, hay: Seq<char>) -> bool {
    exists|at: int| occurs_at(needle, hay, at)
}

/// The empty sequence stands at the start of every sequence.
pub proof fn lemma_empty_is_substring(hay: Seq<char>)
    ensures
        is_substring(Seq::<char>::empty(), hay),
{
    assert(hay.subrange(0, 0) =~= Seq::<char>::empty());
    assert(occurs_at(Seq::<char>::empty(), hay, 0));
}

/// The characters of `s`, in order.
pub fn chars_of(s: &str) -> (out: Vec<char>)
    ensures
        out@ == s@,
{
    let mut out: Vec<char> = Vec::new();
    for c in it: s.chars()
        invariant
            out@ == it.seq().take(it.index()),
            it.seq() == s@,
    {
        out.push(c);
    }
    out
}

/// Whether `needle` stands in `hay` at `at`.
fn matches_at(hay: &Vec<char>, needle: &Vec<char>, at: usize) -> (found: bool)
    requires
        at + needle.len() <= hay.len(),
    ensures
        found == occurs_at(needle@, hay@, at as int),
{
    let mut k: usize = 0;
    while k < needle.len()
        invariant
            k <= needle.len(),
            at + needle.len() <= hay.len(),
            forall|j: int| 0 <= j < k ==> hay@[at + j] == needle@[j],
        decreases needle.len() - k,
    {
        if hay[at + k] != needle[k] {
            assert(hay@.subrange(at as int, at + needle@.len())[k as int] == hay@[at + k]);
            return false;
        }
        k += 1;
    }
    assert(hay@.subrange(at as int, at + needle@.len()) =~= needle@);
    true
}

/// The first position at which `needle` stands in `hay`, if there is one.
pub fn find(hay: &Vec<char>, needle: &Vec<char>) -> (first: Option<usize>)
    ensures
        match first {
            Some(at) => {
                &&& occurs_at(needle@, hay@, at as int)
                &&& forall|earlier: int| 0 <= earlier < at ==> !occurs_at(needle@, hay@, earlier)
            },
            None => !is_substring(needle@, hay@),
        },
{
    if needle.len() > hay.len() {
        return None;
    }
    let last: usize = hay.len() - needle.len();
    let mut at: usize = 0;
    loop
        invariant
            needle.len() <= hay.len(),
            last == hay.len() - needle.len(),
            at <= last,
            forall|earlier: int| 0 <= earlier < at ==> !occurs_at(needle@, hay@, earlier),
        decreases last - at,
    {
        if matches_at(hay, needle, at) {
            return Some(at);
        }
        if at == last {
            return None;
        }
        at += 1;
    }
}

/// Whether `needle` stands somewhere in `hay`, character by character.
pub fn contains(hay: &str, needle: &str) -> (found: bool)
    ensures
        found == is_substring(needle@, hay@),
{
    let hay_chars = chars_of(hay);
    let needle_chars = chars_of(needle);
    find(&hay_chars, &needle_chars).is_some()
}

/// What decoding `bytes` as UTF-8 gives: the text, or nothing where the bytes
/// are no well-formed UTF-8.
pub open spec fn text_of(bytes: Seq<u8>) -> Option<Seq<char>> {
    if valid_utf8(bytes) {
        Some(decode_utf8(bytes))
    } else {
        None
    }
}

/// `std::str::from_utf8`: the bytes read as UTF-8 text. Trusted: the call
/// succeeds exactly on well-formed UTF-8, and the string it gives holds the
/// characters that these bytes encode.
#[verifier::external_body]
pub(crate) fn utf8_text(bytes: &[u8]) -> (out: Option<&str>)
    ensures
        match out {
            Some(text) => text_of(bytes@) == Some(text@),
            None => text_of(bytes@) is None,
        },
{
    std::str::from_utf8(bytes).ok()
}

/// The lowercase form of a text, as `str::to_lowercase` computes it from the
/// Unicode character tables.
pub uninterp spec fn lowercase_of(text: Seq<char>) -> Seq<char>;

/// `str::to_lowercase`. Trusted: the result depends on the characters of
/// `text` alone.
#[verifier::external_body]
pub(crate) fn lowercase(text: &str) -> (out: String)
    ensures
        out@ == lowercase_of(text@),
{
    text.to_lowercase()
}

/// Whether a character has the Unicode property `White_Space`, as
/// `char::is_whitespace` tells it.
pub uninterp spec fn is_whitespace_char(c: char) -> bool;

/// `char::is_whitespace`. Trusted: the answer depends on the character alone.
#[verifier::external_body]
pub(crate) fn is_whitespace(c: char) -> (white: bool)
    ensures
        white == is_whitespace_char(c),
{
    c.is_whitespace()
}

/// How many whitespace characters `s` begins with.
pub open spec fn leading_whitespace(s: Seq<char>) -> nat
    decreases s.len(),
{
    if s.len() > 0 && is_whitespace_char(s[0]) {
        1 + leading_whitespace(s.skip(1))
    } else {
        0
    }
}

/// How many whitespace characters `s` ends with.
pub open spec fn trailing_whitespace(s: Seq<char>) -> nat
    decreases s.len(),
{
    if s.len() > 0 && is_whitespace_char(s.last()) {
        1 + trailing_whitespace(s.drop_last())
    } else {
        0
    }
}

/// `s` without the whitespace at its start.
pub open spec fn trimmed_start(s: Seq<char>) -> Seq<char> {
    s.skip(leading_whitespace(s) as int)
}

/// `s` without the whitespace at its end.
pub open spec fn trimmed_end(s: Seq<char>) -> Seq<char> {
    s.take(s.len() - trailing_whitespace(s))
}

/// `s` without the whitespace at its start and at its end.
pub open spec fn trimmed(s: Seq<char>) -> Seq<char> {
    trimmed_end(trimmed_start(s))
}

/// The leading whitespace of `s` is no longer than `s`.
pub proof fn lemma_leading_whitespace_bound(s: Seq<char>)
    ensures
        leading_whitespace(s) <= s.len(),
    decreases s.len(),
{
    if s.len() > 0 && is_whitespace_char(s[0]) {
        lemma_leading_whitespace_bound(s.skip(1));
    }
}

/// The trailing whitespace of `s` is no longer than `s`.
pub proof fn lemma_trailing_whitespace_bound(s: Seq<char>)
    ensures
        trailing_whitespace(s) <= s.len(),
    decreases s.len(),
{
    if s.len() > 0 && is_whitespace_char(s.last()) {
        lemma_trailing_whitespace_bound(s.drop_last());
    }
}

/// Where `s` begins with `n` whitespace characters, its leading whitespace is
/// those and the leading whitespace of what follows them.
proof fn lemma_leading_whitespace_from(s: Seq<char>, n: int)
    requires
        0 <= n <= s.len(),
        forall|i: int| 0 <= i < n ==> is_whitespace_char(s[i]),
    ensures
        leading_whitespace(s) == n + leading_whitespace(s.skip(n)),
    decreases n,
{
    if n == 0 {
        assert(s.skip(0) =~= s);
    } else {
        assert forall|i: int| 0 <= i < n - 1 implies is_whitespace_char(s.skip(1)[i]) by {
            assert(s.skip(1)[i] == s[i + 1]);
        }
        lemma_leading_whitespace_from(s.skip(1), n - 1);
        assert(s.skip(1).skip(n - 1) =~= s.skip(n));
    }
}

/// Where `s` ends with `n` whitespace characters, its trailing whitespace is
/// those and the trailing whitespace of what stands before them.
proof fn lemma_trailing_whitespace_from(s: Seq<char>, n: int)
    requires
        0 <= n <= s.len(),
        forall|i: int| s.len() - n <= i < s.len() ==> is_whitespace_char(s[i]),
    ensures
        trailing_whitespace(s) == n + trailing_whitespace(s.take(s.len() - n)),
    decreases n,
{
    if n == 0 {
        assert(s.take(s.len() as int) =~= s);
    } else {
        let shorter = s.drop_last();
        let from = shorter.len() - (n - 1);
        assert forall|i: int| from <= i < shorter.len() implies is_whitespace_char(shorter[i]) by {
            assert(shorter[i] == s[i]);
        }
        lemma_trailing_whitespace_from(shorter, n - 1);
        assert(shorter.take(shorter.len() - (n - 1)) =~= s.take(s.len() - n));
    }
}

/// A trimmed text neither begins nor ends with whitespace.
pub proof fn lemma_trimmed_has_no_outer_whitespace(s: Seq<char>)
    ensures
        trimmed(s).len() > 0 ==> !is_whitespace_char(trimmed(s).first()),
        trimmed(s).len() > 0 ==> !is_whitespace_char(trimmed(s).last()),
{
    let t = trimmed(s);
    if t.len() > 0 {
        let start = leading_whitespace(s) as int;
        let rest = trimmed_start(s);
        let cut = trailing_whitespace(rest) as int;
        lemma_leading_whitespace_bound(s);
        lemma_trailing_whitespace_bound(rest);
        lemma_trimmed_end_stops(rest);
        lemma_trimmed_start_stops(s);
        assert(t.last() == rest[rest.len() - cut - 1]);
        assert(t.first() == rest[0]);
    }
}

/// What follows the leading whitespace does not begin with whitespace.
proof fn lemma_trimmed_start_stops(s: Seq<char>)
    ensures
        trimmed_start(s).len() > 0 ==> !is_whitespace_char(trimmed_start(s)[0]),
    decreases s.len(),
{
    if s.len() > 0 && is_whitespace_char(s[0]) {
        lemma_trimmed_start_stops(s.skip(1));
        lemma_leading_whitespace_bound(s.skip(1));
        assert(s.skip(1).skip(leading_whitespace(s.skip(1)) as int) =~= trimmed_start(s));
    } else {
        assert(s.skip(0) =~= s);
    }
}

/// What stands before the trailing whitespace does not end with whitespace.
proof fn lemma_trimmed_end_stops(s: Seq<char>)
    ensures
        trimmed_end(s).len() > 0 ==> !is_whitespace_char(trimmed_end(s).last()),
    decreases s.len(),
{
    if s.len() > 0 && is_whitespace_char(s.last()) {
        let shorter = s.drop_last();
        lemma_trimmed_end_stops(shorter);
        lemma_trailing_whitespace_bound(shorter);
        assert(shorter.take(shorter.len() - trailing_whitespace(shorter)) =~= trimmed_end(s));
    } else {
        assert(s.take(s.len() as int) =~= s);
    }
}

/// `line` without the whitespace around it.
pub fn trim(line: &str) -> (out: String)
    ensures
        out@ == trimmed(line@),
{
    let chars = chars_of(line);
    let n: usize = chars.len();
    let mut start: usize = 0;
    while start < n && is_whitespace(chars[start])
        invariant
            n == chars@.len(),
            start <= n,
            forall|i: int| 0 <= i < start ==> is_whitespace_char(chars@[i]),
        decreases n - start,
    {
        start += 1;
    }
    let mut end: usize = n;
    while end > start && is_whitespace(chars[end - 1])
        invariant
            n == chars@.len(),
            start <= end <= n,
            forall|i: int| end <= i < n ==> is_whitespace_char(chars@[i]),
        decreases end - start,
    {
        end -= 1;
    }
    proof {
        let s = chars@;
        let rest = s.skip(start as int);
        lemma_leading_whitespace_from(s, start as int);
        if start < n {
            assert(rest[0] == s[start as int]);
        }
        assert(leading_whitespace(rest) == 0);
        assert(trimmed_start(s) == rest);
        let from = rest.len() - (n - end);
        assert forall|i: int| from <= i < rest.len() implies is_whitespace_char(rest[i]) by {
            assert(rest[i] == s[i + start]);
        }
        lemma_trailing_whitespace_from(rest, n - end);
        let kept = rest.take(rest.len() - (n - end));
        if end > start {
            assert(kept.last() == s[end - 1]);
        }
        assert(trailing_whitespace(kept) == 0);
        assert(kept =~= s.subrange(start as int, end as int));
        assert(trimmed(s) == kept);
    }
    let kept = line.substring_char(start, end);
    kept.to_owned()
}

} // verus!
