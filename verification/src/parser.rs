//! The textual grammar: classification of a normalized line into one of the
//! three instruction forms.
//!
//! A normalized, non-empty line is, in this priority:
//! 1. an address instruction: `@` followed by a decimal literal or a symbol;
//! 2. a label declaration: a symbol enclosed in parentheses;
//! 3. a compute instruction: an optional destination token followed by `=`,
//!    a required computation token, and an optional `;` followed by a jump
//!    token.
//! A non-empty line matching none of the forms is a grammar error.

use vstd::prelude::*;
use vstd::string::StrSliceExecFns;
use crate::text::find_char_from;
use crate::text::find_char;
use crate::words::is_digit_char;
use crate::words::is_digits;

verus! {

/// Letters, as code points.
pub open spec fn is_letter(c: char) -> bool {
    (97 <= c as u32 <= 122) || (65 <= c as u32 <= 90)
}

/// A character that may open a symbol: a letter, `_`, `.`, `$` or `:`.
pub open spec fn is_symbol_start(c: char) -> bool {
    is_letter(c) || c == '_' || c == '.' || c == '$' || c == ':'
}

/// A character that may continue a symbol: a symbol opener or a digit.
pub open spec fn is_symbol_char(c: char) -> bool {
    is_symbol_start(c) || is_digit_char(c)
}

/// A symbol token: a symbol opener followed by zero or more symbol
/// characters.
pub open spec fn is_symbol(s: Seq<char>) -> bool {
    s.len() > 0 && is_symbol_start(s[0]) && forall|i: int|
        1 <= i < s.len() ==> is_symbol_char(#[trigger] s[i])
}

/// A destination character: one of `A`, `D`, `M`.
pub open spec fn is_dest_char(c: char) -> bool {
    c == 'A' || c == 'D' || c == 'M'
}

/// A destination token: one to three destination characters.
pub open spec fn is_dest_token(s: Seq<char>) -> bool {
    1 <= s.len() <= 3 && forall|i: int| 0 <= i < s.len() ==> is_dest_char(#[trigger] s[i])
}

/// A computation character: one of `A`, `M`, `D`, `0`, `1`, `!`, `+`, `-`,
/// `&`, `|`.
pub open spec fn is_comp_char(c: char) -> bool {
    c == 'A' || c == 'M' || c == 'D' || c == '0' || c == '1' || c == '!' || c == '+' || c == '-'
        || c == '&' || c == '|'
}

/// A computation token: one or more computation characters.
pub open spec fn is_comp_token(s: Seq<char>) -> bool {
    s.len() > 0 && forall|i: int| 0 <= i < s.len() ==> is_comp_char(#[trigger] s[i])
}

/// An uppercase letter.
pub open spec fn is_upper(c: char) -> bool {
    65 <= c as u32 <= 90
}

/// A jump token: exactly three uppercase letters.
pub open spec fn is_jump_token(s: Seq<char>) -> bool {
    s.len() == 3 && forall|i: int| 0 <= i < s.len() ==> is_upper(#[trigger] s[i])
}

/// Spec-level classification of a normalized line.
pub enum LineView {
    /// An empty line (after normalization); skipped with no effect.
    Blank,
    /// An address instruction; carries the literal or symbolic operand.
    Address(Seq<char>),
    /// A label declaration; carries the label name.
    Label(Seq<char>),
    /// A compute instruction; carries destination, computation and jump
    /// mnemonics (destination and jump possibly empty).
    Compute(Seq<char>, Seq<char>, Seq<char>),
    /// A non-empty line matching none of the three forms.
    Invalid,
}

/// Splits `s` at its first `=` and first following `;` and checks the three
/// compute-instruction tokens.
pub open spec fn classify_compute(s: Seq<char>) -> LineView {
    let eq = find_char_from(s, '=', 0);
    let dest = if eq < s.len() {
        s.take(eq)
    } else {
        Seq::empty()
    };
    let rest = if eq < s.len() {
        s.skip(eq + 1)
    } else {
        s
    };
    let semi = find_char_from(rest, ';', 0);
    let comp = if semi < rest.len() {
        rest.take(semi)
    } else {
        rest
    };
    let jump = if semi < rest.len() {
        rest.skip(semi + 1)
    } else {
        Seq::empty()
    };
    if (eq < s.len() ==> is_dest_token(dest)) && is_comp_token(comp) && (semi < rest.len()
        ==> is_jump_token(jump)) {
        LineView::Compute(dest, comp, jump)
    } else {
        LineView::Invalid
    }
}

/// Classification of a normalized line into one of the three grammatical
/// forms, with the address form tried first, then the label form, then the
/// compute form.
pub open spec fn classify(s: Seq<char>) -> LineView {
    if s.len() == 0 {
        LineView::Blank
    } else if s[0] == '@' && (is_digits(s.skip(1)) || is_symbol(s.skip(1))) {
        LineView::Address(s.skip(1))
    } else if s[0] == '(' && s.len() >= 2 && s.last() == ')' && is_symbol(
        s.subrange(1, s.len() - 1),
    ) {
        LineView::Label(s.subrange(1, s.len() - 1))
    } else {
        classify_compute(s)
    }
}

/// The executable classification of a normalized line.
pub enum ParsedLine {
    /// An empty line (after normalization); skipped with no effect.
    Blank,
    /// An address instruction; carries the literal or symbolic operand.
    Address(String),
    /// A label declaration; carries the label name.
    Label(String),
    /// A compute instruction; carries destination, computation and jump
    /// mnemonics (destination and jump possibly empty).
    Compute(String, String, String),
    /// A non-empty line matching none of the three forms.
    Invalid,
}

impl View for ParsedLine {
    type V = LineView;

    open spec fn view(&self) -> LineView {
        match self {
            ParsedLine::Blank => LineView::Blank,
            ParsedLine::Address(s) => LineView::Address(s@),
            ParsedLine::Label(s) => LineView::Label(s@),
            ParsedLine::Compute(d, c, j) => LineView::Compute(d@, c@, j@),
            ParsedLine::Invalid => LineView::Invalid,
        }
    }
}

/// Whether every character of `s` is a decimal digit, `s` non-empty.
pub fn digits_str(s: &str) -> (b: bool)
    ensures
        b == is_digits(s@),
{
    let len = s.unicode_len();
    if len == 0 {
        return false;
    }
    let mut i: usize = 0;
    while i < len
        invariant
            len == s@.len(),
            0 <= i <= len,
            forall|j: int| 0 <= j < i ==> is_digit_char(#[trigger] s@[j]),
        decreases len - i,
    {
        let c = s.get_char(i);
        if !(c == '0' || c == '1' || c == '2' || c == '3' || c == '4' || c == '5' || c == '6'
            || c == '7' || c == '8' || c == '9') {
            return false;
        }
        i = i + 1;
    }
    true
}

/// Whether `c` may open a symbol.
fn symbol_start_char(c: char) -> (b: bool)
    ensures
        b == is_symbol_start(c),
{
    let n = c as u32;
    (97 <= n && n <= 122) || (65 <= n && n <= 90) || c == '_' || c == '.' || c == '$' || c == ':'
}

/// Whether `c` may continue a symbol.
fn symbol_char(c: char) -> (b: bool)
    ensures
        b == is_symbol_char(c),
{
    if symbol_start_char(c) {
        return true;
    }
    c == '0' || c == '1' || c == '2' || c == '3' || c == '4' || c == '5' || c == '6' || c == '7'
        || c == '8' || c == '9'
}

/// Whether `s` is a symbol token.
pub fn symbol_str(s: &str) -> (b: bool)
    ensures
        b == is_symbol(s@),
{
    let len = s.unicode_len();
    if len == 0 {
        return false;
    }
    if !symbol_start_char(s.get_char(0)) {
        return false;
    }
    let mut i: usize = 1;
    while i < len
        invariant
            len == s@.len(),
            1 <= i <= len,
            is_symbol_start(s@[0]),
            forall|j: int| 1 <= j < i ==> is_symbol_char(#[trigger] s@[j]),
        decreases len - i,
    {
        if !symbol_char(s.get_char(i)) {
            return false;
        }
        i = i + 1;
    }
    true
}

/// Whether `s` is a destination token.
fn dest_token_str(s: &str) -> (b: bool)
    ensures
        b == is_dest_token(s@),
{
    let len = s.unicode_len();
    if len < 1 || len > 3 {
        return false;
    }
    let mut i: usize = 0;
    while i < len
        invariant
            len == s@.len(),
            0 <= i <= len,
            forall|j: int| 0 <= j < i ==> is_dest_char(#[trigger] s@[j]),
        decreases len - i,
    {
        let c = s.get_char(i);
        if !(c == 'A' || c == 'D' || c == 'M') {
            return false;
        }
        i = i + 1;
    }
    true
}

/// Whether `s` is a computation token.
fn comp_token_str(s: &str) -> (b: bool)
    ensures
        b == is_comp_token(s@),
{
    let len = s.unicode_len();
    if len == 0 {
        return false;
    }
    let mut i: usize = 0;
    while i < len
        invariant
            len == s@.len(),
            0 <= i <= len,
            forall|j: int| 0 <= j < i ==> is_comp_char(#[trigger] s@[j]),
        decreases len - i,
    {
        let c = s.get_char(i);
        if !(c == 'A' || c == 'M' || c == 'D' || c == '0' || c == '1' || c == '!' || c == '+'
            || c == '-' || c == '&' || c == '|') {
            return false;
        }
        i = i + 1;
    }
    true
}

/// Whether `s` is a jump token.
fn jump_token_str(s: &str) -> (b: bool)
    ensures
        b == is_jump_token(s@),
{
    let len = s.unicode_len();
    if len != 3 {
        return false;
    }
    let mut i: usize = 0;
    while i < len
        invariant
            len == s@.len(),
            0 <= i <= len,
            forall|j: int| 0 <= j < i ==> is_upper(#[trigger] s@[j]),
        decreases len - i,
    {
        let n = s.get_char(i) as u32;
        if !(65 <= n && n <= 90) {
            return false;
        }
        i = i + 1;
    }
    true
}

/// Classifies a normalized line, matching [`classify`] exactly.
pub fn parse_line(line: &str) -> (r: ParsedLine)
    ensures
        r@ == classify(line@),
{
    let len = line.unicode_len();
    if len == 0 {
        return ParsedLine::Blank;
    }
    let c0 = line.get_char(0);
    if c0 == '@' {
        let rest = line.substring_char(1, len);
        assert(rest@ =~= line@.skip(1));
        if digits_str(rest) || symbol_str(rest) {
            return ParsedLine::Address(rest.to_owned());
        }
        // `@` is not a computation character, so the compute form cannot
        // apply either.
        assert(classify_compute(line@) == LineView::Invalid) by {
            lemma_classify_compute_first_char(line@);
        }
        return ParsedLine::Invalid;
    }
    if c0 == '(' {
        if len >= 2 && line.get_char(len - 1) == ')' {
            let inner = line.substring_char(1, len - 1);
            assert(inner@ =~= line@.subrange(1, line@.len() - 1));
            if symbol_str(inner) {
                return ParsedLine::Label(inner.to_owned());
            }
        }
        assert(classify_compute(line@) == LineView::Invalid) by {
            lemma_classify_compute_first_char(line@);
        }
        return ParsedLine::Invalid;
    }
    parse_compute(line)
}

/// A line whose first character can open no computation token is no compute
/// instruction.
proof fn lemma_classify_compute_first_char(s: Seq<char>)
    requires
        s.len() > 0,
        !is_comp_char(s[0]),
        s[0] != '=',
    ensures
        classify_compute(s) == LineView::Invalid,
{
    let eq = find_char_from(s, '=', 0);
    let rest = if eq < s.len() {
        s.skip(eq + 1)
    } else {
        s
    };
    let semi = find_char_from(rest, ';', 0);
    if eq < s.len() {
        // The destination would start with the offending character.
        crate::text::lemma_find_char_bounds(s, '=', 0);
        if eq > 0 {
            assert(s.take(eq)[0] == s[0]);
            assert(!is_dest_token(s.take(eq)));
        } else {
            assert(!is_dest_token(s.take(eq)));
        }
    } else {
        // The computation token would start with the offending character.
        crate::text::lemma_find_char_bounds(rest, ';', 0);
        if semi < rest.len() {
            if semi > 0 {
                assert(rest.take(semi)[0] == s[0]);
                assert(!is_comp_token(rest.take(semi)));
            } else {
                assert(!is_comp_token(rest.take(semi)));
            }
        } else {
            assert(rest[0] == s[0]);
            assert(!is_comp_token(rest));
        }
    }
}

/// Classifies a line against the compute form alone.
fn parse_compute(line: &str) -> (r: ParsedLine)
    requires
        line@.len() > 0,
        line@[0] != '@',
        line@[0] != '(',
    ensures
        r@ == classify_compute(line@),
        line@.len() > 0 ==> r@ == classify(line@),
{
    let len = line.unicode_len();
    let eq = find_char(line, '=');
    let (dest, rest) = if eq < len {
        let d = line.substring_char(0, eq);
        let r = line.substring_char(eq + 1, len);
        assert(d@ =~= line@.take(eq as int));
        assert(r@ =~= line@.skip(eq + 1));
        (d, r)
    } else {
        let d = "";
        proof {
            reveal_strlit("");
        }
        assert(d@ =~= Seq::<char>::empty());
        (d, line)
    };
    let rlen = rest.unicode_len();
    let semi = find_char(rest, ';');
    let (comp, jump, has_jump) = if semi < rlen {
        let c = rest.substring_char(0, semi);
        let j = rest.substring_char(semi + 1, rlen);
        assert(c@ =~= rest@.take(semi as int));
        assert(j@ =~= rest@.skip(semi + 1));
        (c, j, true)
    } else {
        let j = "";
        proof {
            reveal_strlit("");
        }
        assert(j@ =~= Seq::<char>::empty());
        (rest, j, false)
    };
    let dest_ok = if eq < len {
        dest_token_str(dest)
    } else {
        true
    };
    let jump_ok = if has_jump {
        jump_token_str(jump)
    } else {
        true
    };
    if dest_ok && comp_token_str(comp) && jump_ok {
        ParsedLine::Compute(dest.to_owned(), comp.to_owned(), jump.to_owned())
    } else {
        ParsedLine::Invalid
    }
}

} // verus!
