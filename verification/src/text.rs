//! Line normalization and small verified text utilities.
//!
//! A raw source line is normalized by discarding everything from the first
//! comment marker (`//`) onward and trimming surrounding whitespace; a blank
//! result is skipped by the caller with no further effect.

use vstd::prelude::*;
use vstd::string::StrSliceExecFns;

verus! {

/// Whitespace characters trimmed from the ends of a line.
pub open spec fn is_space(c: char) -> bool {
    c == ' ' || c == '\t' || c == '\r' || c == '\n' || c == '\u{b}' || c == '\u{c}'
}

/// Index of the first comment marker at or after `i`, or the length of `s`
/// when no marker follows.
pub open spec fn comment_cut_from(s: Seq<char>, i: int) -> int
    decreases s.len() - i,
    when 0 <= i <= s.len()
{
    if i + 1 >= s.len() {
        s.len() as int
    } else if s[i] == '/' && s[i + 1] == '/' {
        i
    } else {
        comment_cut_from(s, i + 1)
    }
}

/// The line up to (not including) its first comment marker.
pub open spec fn strip_comment(s: Seq<char>) -> Seq<char> {
    s.take(comment_cut_from(s, 0))
}

/// Index of the first non-whitespace character at or after `i`.
pub open spec fn skip_spaces_from(s: Seq<char>, i: int) -> int
    decreases s.len() - i,
    when 0 <= i <= s.len()
{
    if i < s.len() && is_space(s[i]) {
        skip_spaces_from(s, i + 1)
    } else {
        i
    }
}

/// Index just past the last non-whitespace character at or before `i`.
pub open spec fn rtrim_to(s: Seq<char>, i: int) -> int
    decreases i,
    when 0 <= i <= s.len()
{
    if i > 0 && is_space(s[i - 1]) {
        rtrim_to(s, i - 1)
    } else {
        i
    }
}

/// `s` without leading and trailing whitespace.
pub open spec fn trim_spec(s: Seq<char>) -> Seq<char> {
    let lo = skip_spaces_from(s, 0);
    let hi = rtrim_to(s, s.len() as int);
    if lo <= hi {
        s.subrange(lo, hi)
    } else {
        Seq::empty()
    }
}

/// A raw line after comment stripping and trimming.
pub open spec fn normalize_spec(s: Seq<char>) -> Seq<char> {
    trim_spec(strip_comment(s))
}

/// Strips the first comment and the surrounding whitespace off a raw line.
pub fn normalize_line(s: &str) -> (r: &str)
    ensures
        r@ == normalize_spec(s@),
{
    let len = s.unicode_len();
    let mut cut: usize = 0;
    while cut < len && cut + 1 < len && !(s.get_char(cut) == '/' && s.get_char(cut + 1) == '/')
        invariant
            len == s@.len(),
            0 <= cut <= len,
            comment_cut_from(s@, 0) == comment_cut_from(s@, cut as int),
        decreases len - cut,
    {
        cut = cut + 1;
    }
    if cut >= len || cut + 1 >= len {
        cut = len;
    }
    assert(cut == comment_cut_from(s@, 0));
    let stripped = s.substring_char(0, cut);
    assert(stripped@ =~= strip_comment(s@));

    let slen = stripped.unicode_len();
    let mut lo: usize = 0;
    while lo < slen && space_char(stripped.get_char(lo))
        invariant
            slen == stripped@.len(),
            0 <= lo <= slen,
            skip_spaces_from(stripped@, 0) == skip_spaces_from(stripped@, lo as int),
        decreases slen - lo,
    {
        lo = lo + 1;
    }
    assert(lo == skip_spaces_from(stripped@, 0));
    let mut hi: usize = slen;
    while hi > 0 && space_char(stripped.get_char(hi - 1))
        invariant
            slen == stripped@.len(),
            0 <= hi <= slen,
            rtrim_to(stripped@, slen as int) == rtrim_to(stripped@, hi as int),
        decreases hi,
    {
        hi = hi - 1;
    }
    assert(hi == rtrim_to(stripped@, slen as int));
    if lo <= hi {
        let r = stripped.substring_char(lo, hi);
        assert(r@ =~= trim_spec(stripped@));
        r
    } else {
        let r = "";
        proof {
            reveal_strlit("");
            assert(r@ =~= trim_spec(stripped@));
        }
        r
    }
}

/// Whether `c` counts as whitespace.
pub fn space_char(c: char) -> (b: bool)
    ensures
        b == is_space(c),
{
    c == ' ' || c == '\t' || c == '\r' || c == '\n' || c == '\u{b}' || c == '\u{c}'
}

/// Index of the first occurrence of `c` in `s`, or the length of `s`.
pub open spec fn find_char_from(s: Seq<char>, c: char, i: int) -> int
    decreases s.len() - i,
    when 0 <= i <= s.len()
{
    if i >= s.len() {
        s.len() as int
    } else if s[i] == c {
        i
    } else {
        find_char_from(s, c, i + 1)
    }
}

/// Finds the first occurrence of `c` in `s`; the length of `s` means "absent".
pub fn find_char(s: &str, c: char) -> (r: usize)
    ensures
        r as int == find_char_from(s@, c, 0),
{
    let len = s.unicode_len();
    let mut i: usize = 0;
    while i < len && s.get_char(i) != c
        invariant
            len == s@.len(),
            0 <= i <= len,
            find_char_from(s@, c, 0) == find_char_from(s@, c, i as int),
        decreases len - i,
    {
        i = i + 1;
    }
    i
}

/// Whether `s` holds the character `c` anywhere.
pub fn contains_char(s: &str, c: char) -> (b: bool)
    ensures
        b == s@.contains(c),
{
    let r = find_char(s, c);
    let len = s.unicode_len();
    proof {
        lemma_find_char_contains(s@, c, 0);
        if r < len {
            assert(s@[r as int] == c);
            assert(s@.contains(c));
        } else {
            if s@.contains(c) {
                let j = choose|j: int| 0 <= j < s@.len() && s@[j] == c;
                assert(find_char_from(s@, c, 0) < s@.len());
            }
        }
    }
    r != len
}

/// `find_char_from` stays within the string and lands on `c` when it finds
/// anything.
pub proof fn lemma_find_char_bounds(s: Seq<char>, c: char, i: int)
    requires
        0 <= i <= s.len(),
    ensures
        i <= find_char_from(s, c, i) <= s.len(),
        find_char_from(s, c, i) < s.len() ==> s[find_char_from(s, c, i)] == c,
    decreases s.len() - i,
{
    if i < s.len() && s[i] != c {
        lemma_find_char_bounds(s, c, i + 1);
    }
}

/// `find_char_from` lands on `c` exactly when `c` occurs at or after `i`.
proof fn lemma_find_char_contains(s: Seq<char>, c: char, i: int)
    requires
        0 <= i <= s.len(),
    ensures
        i <= find_char_from(s, c, i) <= s.len(),
        find_char_from(s, c, i) < s.len() <==> exists|j: int| i <= j < s.len() && s[j] == c,
        find_char_from(s, c, i) < s.len() ==> s[find_char_from(s, c, i)] == c,
    decreases s.len() - i,
{
    if i < s.len() && s[i] != c {
        lemma_find_char_contains(s, c, i + 1);
    }
}

/// Character-for-character string equality.
pub fn str_eq(a: &str, b: &str) -> (r: bool)
    ensures
        r == (a@ == b@),
{
    let la = a.unicode_len();
    let lb = b.unicode_len();
    if la != lb {
        return false;
    }
    let mut i: usize = 0;
    while i < la
        invariant
            la == a@.len(),
            la == b@.len(),
            0 <= i <= la,
            forall|j: int| 0 <= j < i ==> a@[j] == b@[j],
        decreases la - i,
    {
        if a.get_char(i) != b.get_char(i) {
            return false;
        }
        i = i + 1;
    }
    proof {
        assert(a@ =~= b@);
    }
    true
}

} // verus!
