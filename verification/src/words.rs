//! Binary machine words and decimal numerals.
//!
//! An encoded instruction is an exactly-16-character string over `{0,1}`,
//! most significant bit first. This module gives the mathematical meaning
//! of such strings ([`word_bits`], [`bits_val`]) and of decimal numerals
//! ([`dec_digits`], [`dec_val`]), together with the executable rendering
//! and parsing routines the codec is built on.

use vstd::prelude::*;
use vstd::arithmetic::power2::pow2;
use vstd::arithmetic::power2::lemma_pow2_unfold;
use vstd::arithmetic::power2::lemma_pow2_pos;
use vstd::arithmetic::power2::lemma2_to64;
use vstd::arithmetic::div_mod::lemma_fundamental_div_mod;
use vstd::arithmetic::div_mod::lemma_div_denominator;
use vstd::string::StrSliceExecFns;
use vstd::string::StringExecFns;

verus! {

/// The character for one binary digit.
pub open spec fn bin_char(b: nat) -> char {
    if b == 1 {
        '1'
    } else {
        '0'
    }
}

/// Numeric value of one binary character.
pub open spec fn bin_val(c: char) -> nat {
    if c == '1' {
        1
    } else {
        0
    }
}

pub open spec fn is_bin_char(c: char) -> bool {
    c == '0' || c == '1'
}

/// Every character of `s` is a binary digit.
pub open spec fn is_binary(s: Seq<char>) -> bool {
    forall|i: int| 0 <= i < s.len() ==> is_bin_char(#[trigger] s[i])
}

/// Bit `k` (counted from the least significant end) of a 16-bit word.
pub open spec fn bit_of(w: u16, k: nat) -> nat {
    (w as nat / pow2(k)) % 2
}

/// The 16-character binary rendering of a word, most significant bit first.
pub open spec fn word_bits(w: u16) -> Seq<char> {
    Seq::new(16, |i: int| bin_char(bit_of(w, (15 - i) as nat)))
}

/// The numeric value of a binary string, most significant bit first.
pub open spec fn bits_val(s: Seq<char>) -> nat
    decreases s.len(),
{
    if s.len() == 0 {
        0
    } else {
        2 * bits_val(s.drop_last()) + bin_val(s.last())
    }
}

/// A binary string of length `n` denotes a value below `2^n`.
pub proof fn lemma_bits_val_bound(s: Seq<char>)
    ensures
        bits_val(s) < pow2(s.len()),
    decreases s.len(),
{
    if s.len() == 0 {
        assert(pow2(0) == 1) by {
            lemma2_to64();
        }
    } else {
        lemma_bits_val_bound(s.drop_last());
        lemma_pow2_unfold(s.len());
    }
}

/// `bits_val` of a prefix of `word_bits(w)` is the corresponding high part
/// of `w`: the first `k` characters denote `w / 2^(16-k)`.
proof fn lemma_word_bits_prefix(w: u16, k: int)
    requires
        0 <= k <= 16,
    ensures
        bits_val(word_bits(w).take(k)) == w as nat / pow2((16 - k) as nat),
    decreases k,
{
    lemma_pow2_pos((16 - k) as nat);
    if k == 0 {
        assert(word_bits(w).take(0).len() == 0);
        assert(pow2(16) == 65536) by {
            lemma2_to64();
        }
        assert(w as nat / pow2(16) == 0) by {
            vstd::arithmetic::div_mod::lemma_basic_div(w as int, pow2(16) as int);
        }
    } else {
        lemma_word_bits_prefix(w, k - 1);
        let s = word_bits(w).take(k);
        assert(s.drop_last() =~= word_bits(w).take(k - 1));
        assert(s.last() == bin_char(bit_of(w, (16 - k) as nat)));
        let e = (16 - k) as nat;
        lemma_pow2_pos(e);
        lemma_pow2_pos(e + 1);
        // w / 2^e splits into twice (w / 2^(e+1)) plus its low bit.
        let q = w as nat / pow2(e);
        assert(w as nat / pow2(e + 1) == q / 2) by {
            lemma_pow2_unfold(e + 1);
            lemma_div_denominator(w as int, pow2(e) as int, 2);
        }
        assert(q == 2 * (q / 2) + q % 2) by {
            lemma_fundamental_div_mod(q as int, 2);
        }
        assert(bin_val(bin_char(bit_of(w, e))) == bit_of(w, e));
        assert(bits_val(s) == 2 * (w as nat / pow2(e + 1)) + bit_of(w, e));
    }
}

/// Parsing the rendering of a word gives the word back.
pub proof fn lemma_word_bits_val(w: u16)
    ensures
        bits_val(word_bits(w)) == w,
{
    lemma_word_bits_prefix(w, 16);
    assert(word_bits(w).take(16) =~= word_bits(w));
    assert(pow2(0) == 1) by {
        lemma2_to64();
    }
    assert(w as nat / 1 == w as nat) by {
        vstd::arithmetic::div_mod::lemma_div_basics(w as int);
    }
}

/// The rendering of a word is 16 characters of binary.
pub proof fn lemma_word_bits_binary(w: u16)
    ensures
        word_bits(w).len() == 16,
        is_binary(word_bits(w)),
{
    assert forall|i: int| 0 <= i < 16 implies is_bin_char(#[trigger] word_bits(w)[i]) by {
        assert(word_bits(w)[i] == bin_char(bit_of(w, (15 - i) as nat)));
    }
}

/// `2^e` as a machine word, for exponents inside a 16-bit word.
pub fn pow2_u16(e: u16) -> (r: u16)
    requires
        e < 16,
    ensures
        r as nat == pow2(e as nat),
{
    proof {
        lemma2_to64();
    }
    match e {
        0 => 1,
        1 => 2,
        2 => 4,
        3 => 8,
        4 => 16,
        5 => 32,
        6 => 64,
        7 => 128,
        8 => 256,
        9 => 512,
        10 => 1024,
        11 => 2048,
        12 => 4096,
        13 => 8192,
        14 => 16384,
        _ => 32768,
    }
}

/// Renders a word as its 16-character binary string.
pub fn render_word(w: u16) -> (s: String)
    ensures
        s@ == word_bits(w),
{
    let mut s = String::new();
    let mut k: u16 = 0;
    while k < 16
        invariant
            k <= 16,
            s@ =~= word_bits(w).take(k as int),
        decreases 16 - k,
    {
        let p = pow2_u16(15 - k);
        proof {
            lemma_pow2_pos((15 - k) as nat);
        }
        let b = (w / p) % 2;
        assert(b as nat == bit_of(w, (15 - k) as nat));
        if b == 1 {
            s.append("1");
            proof {
                reveal_strlit("1");
            }
        } else {
            s.append("0");
            proof {
                reveal_strlit("0");
            }
        }
        assert(s@ =~= word_bits(w).take(k + 1 as int));
        k = k + 1;
    }
    assert(word_bits(w).take(16) =~= word_bits(w));
    s
}

/// Parses a 16-character binary string into the word it denotes.
pub fn parse_word(s: &str) -> (r: u16)
    requires
        s@.len() == 16,
        is_binary(s@),
    ensures
        r as nat == bits_val(s@),
{
    let mut v: u32 = 0;
    let mut i: usize = 0;
    proof {
        lemma2_to64();
    }
    while i < 16
        invariant
            i <= 16,
            s@.len() == 16,
            is_binary(s@),
            v as nat == bits_val(s@.take(i as int)),
            (v as nat) < pow2(i as nat),
        decreases 16 - i,
    {
        let c = s.get_char(i);
        let b: u32 = if c == '1' {
            1
        } else {
            0
        };
        proof {
            lemma_pow2_unfold((i + 1) as nat);
            lemma_bits_val_bound(s@.take(i as int));
            assert(pow2(16) == 65536) by {
                lemma2_to64();
            }
            vstd::arithmetic::power2::lemma_pow2_strictly_increases(
                (i + 1) as nat,
                17,
            );
            assert(pow2(17) == 131072) by {
                lemma2_to64();
            }
            assert(s@.take(i + 1 as int).drop_last() =~= s@.take(i as int));
        }
        v = v * 2 + b;
        i = i + 1;
    }
    proof {
        assert(s@.take(16) =~= s@);
        lemma_bits_val_bound(s@);
        assert(pow2(16) == 65536) by {
            lemma2_to64();
        }
    }
    v as u16
}

/// The character for one decimal digit.
pub open spec fn digit_char(d: nat) -> char {
    if d == 0 {
        '0'
    } else if d == 1 {
        '1'
    } else if d == 2 {
        '2'
    } else if d == 3 {
        '3'
    } else if d == 4 {
        '4'
    } else if d == 5 {
        '5'
    } else if d == 6 {
        '6'
    } else if d == 7 {
        '7'
    } else if d == 8 {
        '8'
    } else {
        '9'
    }
}

pub open spec fn is_digit_char(c: char) -> bool {
    c == '0' || c == '1' || c == '2' || c == '3' || c == '4' || c == '5' || c == '6' || c == '7'
        || c == '8' || c == '9'
}

/// Numeric value of one decimal character.
pub open spec fn digit_val(c: char) -> nat {
    if c == '1' {
        1
    } else if c == '2' {
        2
    } else if c == '3' {
        3
    } else if c == '4' {
        4
    } else if c == '5' {
        5
    } else if c == '6' {
        6
    } else if c == '7' {
        7
    } else if c == '8' {
        8
    } else if c == '9' {
        9
    } else {
        0
    }
}

/// A non-empty string of decimal digits.
pub open spec fn is_digits(s: Seq<char>) -> bool {
    s.len() > 0 && forall|i: int| 0 <= i < s.len() ==> is_digit_char(#[trigger] s[i])
}

/// The canonical decimal numeral of a number (no leading zeros, except for
/// the single digit of zero itself).
pub open spec fn dec_digits(n: nat) -> Seq<char>
    decreases n,
{
    if n < 10 {
        seq![digit_char(n)]
    } else {
        dec_digits(n / 10).push(digit_char(n % 10))
    }
}

/// The numeric value of a decimal numeral, most significant digit first.
pub open spec fn dec_val(s: Seq<char>) -> nat
    decreases s.len(),
{
    if s.len() == 0 {
        0
    } else {
        10 * dec_val(s.drop_last()) + digit_val(s.last())
    }
}

/// The canonical numeral of a number is made of decimal digits.
pub proof fn lemma_dec_digits_is_digits(n: nat)
    ensures
        is_digits(dec_digits(n)),
    decreases n,
{
    if n >= 10 {
        lemma_dec_digits_is_digits(n / 10);
        let pre = dec_digits(n / 10);
        let s = pre.push(digit_char(n % 10));
        assert forall|i: int| 0 <= i < s.len() implies is_digit_char(#[trigger] s[i]) by {
            if i < pre.len() {
                assert(s[i] == pre[i]);
            }
        }
    }
}

/// The canonical numeral of a number denotes the number: rendering and
/// parsing are inverse.
pub proof fn lemma_dec_digits_val(n: nat)
    ensures
        dec_val(dec_digits(n)) == n,
    decreases n,
{
    if n < 10 {
        assert(digit_val(digit_char(n)) == n);
        let s = dec_digits(n);
        assert(s == seq![digit_char(n)]);
        assert(s.last() == digit_char(n));
        assert(s.drop_last() =~= Seq::<char>::empty());
        assert(dec_val(s) == 10 * dec_val(s.drop_last()) + digit_val(s.last()));
    } else {
        lemma_dec_digits_val(n / 10);
        let pre = dec_digits(n / 10);
        let s = pre.push(digit_char(n % 10));
        assert(s.drop_last() =~= pre);
        assert(digit_val(digit_char(n % 10)) == n % 10);
        assert(dec_val(s) == 10 * dec_val(pre) + digit_val(digit_char(n % 10)));
        assert(10 * (n / 10) + n % 10 == n) by {
            lemma_fundamental_div_mod(n as int, 10);
        }
    }
}

/// A numeral's value is at least the value of any of its prefixes.
pub proof fn lemma_dec_val_prefix_le(s: Seq<char>, k: int)
    requires
        0 <= k <= s.len(),
    ensures
        dec_val(s.take(k)) <= dec_val(s),
    decreases s.len() - k,
{
    if k == s.len() {
        assert(s.take(k) =~= s);
    } else {
        assert(s.take(k + 1).drop_last() =~= s.take(k));
        assert(dec_val(s.take(k + 1)) == 10 * dec_val(s.take(k)) + digit_val(s.take(k + 1).last()));
        lemma_dec_val_prefix_le(s, k + 1);
    }
}

/// The digits collected least-significant-first, read back to front.
pub open spec fn rev_digit_chars(ds: Seq<u16>) -> Seq<char> {
    Seq::new(ds.len(), |i: int| digit_char(ds[ds.len() - 1 - i] as nat))
}

/// Appends the character of one decimal digit.
fn append_digit(s: &mut String, d: u16)
    requires
        d < 10,
    ensures
        final(s)@ == old(s)@ + seq![digit_char(d as nat)],
{
    match d {
        0 => {
            s.append("0");
            proof {
                reveal_strlit("0");
                assert(final(s)@ =~= old(s)@ + seq![digit_char(0)]);
            }
        },
        1 => {
            s.append("1");
            proof {
                reveal_strlit("1");
                assert(final(s)@ =~= old(s)@ + seq![digit_char(1)]);
            }
        },
        2 => {
            s.append("2");
            proof {
                reveal_strlit("2");
                assert(final(s)@ =~= old(s)@ + seq![digit_char(2)]);
            }
        },
        3 => {
            s.append("3");
            proof {
                reveal_strlit("3");
                assert(final(s)@ =~= old(s)@ + seq![digit_char(3)]);
            }
        },
        4 => {
            s.append("4");
            proof {
                reveal_strlit("4");
                assert(final(s)@ =~= old(s)@ + seq![digit_char(4)]);
            }
        },
        5 => {
            s.append("5");
            proof {
                reveal_strlit("5");
                assert(final(s)@ =~= old(s)@ + seq![digit_char(5)]);
            }
        },
        6 => {
            s.append("6");
            proof {
                reveal_strlit("6");
                assert(final(s)@ =~= old(s)@ + seq![digit_char(6)]);
            }
        },
        7 => {
            s.append("7");
            proof {
                reveal_strlit("7");
                assert(final(s)@ =~= old(s)@ + seq![digit_char(7)]);
            }
        },
        8 => {
            s.append("8");
            proof {
                reveal_strlit("8");
                assert(final(s)@ =~= old(s)@ + seq![digit_char(8)]);
            }
        },
        _ => {
            s.append("9");
            proof {
                reveal_strlit("9");
                assert(final(s)@ =~= old(s)@ + seq![digit_char(9)]);
            }
        },
    }
}

/// Renders a number as its canonical decimal numeral.
pub fn render_decimal(n: u16) -> (s: String)
    ensures
        s@ == dec_digits(n as nat),
{
    let mut s = String::new();
    if n == 0 {
        s.append("0");
        proof {
            reveal_strlit("0");
            assert(s@ =~= dec_digits(0));
        }
        return s;
    }
    let mut digits: Vec<u16> = Vec::new();
    let mut cur: u16 = n;
    loop
        invariant_except_break
            cur > 0,
            dec_digits(n as nat) == dec_digits(cur as nat) + rev_digit_chars(digits@),
        invariant
            forall|j: int| 0 <= j < digits@.len() ==> digits@[j] < 10,
        ensures
            dec_digits(n as nat) == rev_digit_chars(digits@),
        decreases cur,
    {
        let d = cur % 10;
        let ghost pre = digits@;
        digits.push(d);
        proof {
            assert(rev_digit_chars(pre.push(d)) =~= seq![digit_char(d as nat)]
                + rev_digit_chars(pre));
        }
        let next = cur / 10;
        if next == 0 {
            proof {
                if cur >= 10 {
                    vstd::arithmetic::div_mod::lemma_div_non_zero(cur as int, 10);
                }
                assert(cur as nat % 10 == cur as nat);
                assert(dec_digits(cur as nat) =~= seq![digit_char(d as nat)]);
                assert(dec_digits(n as nat) =~= rev_digit_chars(digits@));
            }
            break;
        }
        proof {
            assert(dec_digits(cur as nat) == dec_digits(cur as nat / 10).push(
                digit_char(cur as nat % 10),
            ));
            assert(dec_digits(cur as nat) =~= dec_digits(next as nat) + seq![
                digit_char(d as nat),
            ]);
            assert(dec_digits(n as nat) =~= dec_digits(next as nat) + rev_digit_chars(digits@));
        }
        cur = next;
    }
    let count = digits.len();
    let mut i: usize = 0;
    while i < count
        invariant
            i <= count,
            count == digits@.len(),
            forall|j: int| 0 <= j < digits@.len() ==> digits@[j] < 10,
            dec_digits(n as nat) == rev_digit_chars(digits@),
            s@ =~= rev_digit_chars(digits@).take(i as int),
        decreases count - i,
    {
        append_digit(&mut s, digits[count - 1 - i]);
        proof {
            assert(s@ =~= rev_digit_chars(digits@).take(i + 1 as int));
        }
        i = i + 1;
    }
    proof {
        assert(rev_digit_chars(digits@).take(count as int) =~= rev_digit_chars(digits@));
    }
    s
}

/// Numeric value of one decimal digit character.
fn digit_of(c: char) -> (d: u32)
    ensures
        d as nat == digit_val(c),
{
    if c == '1' {
        1
    } else if c == '2' {
        2
    } else if c == '3' {
        3
    } else if c == '4' {
        4
    } else if c == '5' {
        5
    } else if c == '6' {
        6
    } else if c == '7' {
        7
    } else if c == '8' {
        8
    } else if c == '9' {
        9
    } else {
        0
    }
}

/// Parses a decimal numeral, refusing any value above the 15-bit maximum
/// of 32767.
pub fn parse_decimal(s: &str) -> (r: Option<u16>)
    requires
        is_digits(s@),
    ensures
        match r {
            Some(v) => v as nat == dec_val(s@) && v <= 32767,
            None => dec_val(s@) > 32767,
        },
{
    let len = s.unicode_len();
    let mut v: u32 = 0;
    let mut i: usize = 0;
    while i < len
        invariant
            i <= len,
            len == s@.len(),
            is_digits(s@),
            v as nat == dec_val(s@.take(i as int)),
            v <= 32767,
        decreases len - i,
    {
        let c = s.get_char(i);
        let d = digit_of(c);
        proof {
            assert(s@.take(i + 1 as int).drop_last() =~= s@.take(i as int));
        }
        v = v * 10 + d;
        if v > 32767 {
            proof {
                lemma_dec_val_prefix_le(s@, i + 1 as int);
            }
            return None;
        }
        i = i + 1;
    }
    proof {
        assert(s@.take(len as int) =~= s@);
    }
    Some(v as u16)
}

} // verus!
