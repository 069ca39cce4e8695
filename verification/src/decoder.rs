//! The decoder: the pure inverse of the encoder's tables and of the
//! address-bit layout, working directly on binary strings. Label and
//! variable names are never recoverable; a decoded address instruction
//! always uses the numeral.

use vstd::prelude::*;
use vstd::arithmetic::div_mod::lemma_fundamental_div_mod_converse_div;
use vstd::arithmetic::div_mod::lemma_fundamental_div_mod_converse_mod;
use vstd::string::StrSliceExecFns;
use vstd::string::StringExecFns;
use crate::codes::comp_code;
use crate::codes::comp_text;
use crate::codes::dest_code;
use crate::codes::dest_text;
use crate::codes::jump_code;
use crate::codes::jump_text;
use crate::codes::decode_comp;
use crate::codes::decode_dest;
use crate::codes::decode_jump;
use crate::codes::lemma_comp_code_bound;
use crate::codes::lemma_comp_roundtrip;
use crate::codes::lemma_dest_code_bound;
use crate::codes::lemma_jump_code_bound;
use crate::codes::lemma_jump_roundtrip;
use crate::encoder::EncodeOutcome;
use crate::encoder::c_word_val;
use crate::encoder::encode_one;
use crate::errors::ErrorView;
use crate::errors::RhasmError;
use crate::instruction::InstructionView;
use crate::words::bits_val;
use crate::words::dec_digits;
use crate::words::dec_val;
use crate::words::is_bin_char;
use crate::words::is_binary;
use crate::words::is_digits;
use crate::words::lemma_bits_val_bound;
use crate::words::lemma_word_bits_binary;
use crate::words::lemma_word_bits_val;
use crate::words::parse_word;
use crate::words::render_decimal;
use crate::words::word_bits;

verus! {

/// The `dest=` part of a decoded compute instruction: empty for the
/// no-destination code.
pub open spec fn dest_prefix(dc: int) -> Seq<char> {
    match dest_text(dc) {
        Some(t) => t + seq!['='],
        None => Seq::empty(),
    }
}

/// The `;jump` part of a decoded compute instruction: empty for the
/// "never jump" code.
pub open spec fn jump_suffix(jc: int) -> Seq<char> {
    match jump_text(jc) {
        Some(t) => seq![';'] + t,
        None => Seq::empty(),
    }
}

/// What decoding a binary string yields: the mnemonic text, or the length,
/// digit or unknown-pattern error.
pub open spec fn decode_spec(s: Seq<char>) -> Result<Seq<char>, ErrorView> {
    if s.len() != 16 {
        Err(ErrorView::DecodeLength { found: s.len() as int })
    } else if !is_binary(s) {
        Err(ErrorView::DecodeDigit)
    } else {
        let v = bits_val(s);
        if v < 0x8000 {
            Ok(seq!['@'] + dec_digits(v))
        } else {
            let cc = v / 64 % 128;
            match comp_text(cc as int) {
                None => Err(ErrorView::DecodeMnemonic { bits: s.subrange(3, 10) }),
                Some(ct) => Ok(
                    dest_prefix((v / 8 % 8) as int) + ct + jump_suffix((v % 8) as int),
                ),
            }
        }
    }
}

/// Whether every character of `s` is a binary digit.
fn binary_str(s: &str) -> (b: bool)
    ensures
        b == is_binary(s@),
{
    let len = s.unicode_len();
    let mut i: usize = 0;
    while i < len
        invariant
            len == s@.len(),
            0 <= i <= len,
            forall|j: int| 0 <= j < i ==> is_bin_char(#[trigger] s@[j]),
        decreases len - i,
    {
        let c = s.get_char(i);
        if !(c == '0' || c == '1') {
            return false;
        }
        i = i + 1;
    }
    true
}

/// Decodes an encoded instruction into mnemonic text, exactly as
/// [`decode_spec`] describes: a length error unless the input is 16
/// characters, a digit error unless it is binary, an unknown-pattern error
/// for a computation code with no inverse, and the mnemonic text otherwise.
///
/// Labels and variables are lost in the encoding process, so the decoded
/// text of a symbolic address instruction uses the numeral; it assembles
/// back into the same machine word.
pub fn decode_instruction(encoded_instruction: &str) -> (r: Result<String, RhasmError>)
    ensures
        match decode_spec(encoded_instruction@) {
            Ok(t) => r matches Ok(s) && s@ == t,
            Err(e) => r matches Err(err) && err@ == e,
        },
{
    let len = encoded_instruction.unicode_len();
    if len != 16 {
        return Err(RhasmError::DecodeLengthError { found: len });
    }
    if !binary_str(encoded_instruction) {
        return Err(RhasmError::DecodeDigitError);
    }
    let v = parse_word(encoded_instruction);
    proof {
        lemma_bits_val_bound(encoded_instruction@);
    }
    if v < 0x8000 {
        let mut out = String::new();
        out.append("@");
        let numeral = render_decimal(v);
        out.append(numeral.as_str());
        proof {
            reveal_strlit("@");
            assert(out@ =~= seq!['@'] + dec_digits(v as nat));
        }
        Ok(out)
    } else {
        let cc = (v / 64 % 128) as u8;
        match decode_comp(cc) {
            None => {
                let bits = encoded_instruction.substring_char(3, 10);
                assert(bits@ =~= encoded_instruction@.subrange(3, 10));
                Err(RhasmError::DecodeMnemonicError { bits: bits.to_owned() })
            },
            Some(ct) => {
                let dc = (v / 8 % 8) as u8;
                let jc = (v % 8) as u8;
                let mut out = String::new();
                match decode_dest(dc) {
                    Some(dt) => {
                        out.append(dt);
                        out.append("=");
                        proof {
                            reveal_strlit("=");
                            assert(out@ =~= dest_prefix(dc as int));
                        }
                    },
                    None => {
                        assert(out@ =~= dest_prefix(dc as int));
                    },
                }
                out.append(ct);
                let ghost mid = out@;
                proof {
                    assert(mid =~= dest_prefix(dc as int) + comp_text(cc as int)->0);
                }
                match decode_jump(jc) {
                    Some(jt) => {
                        out.append(";");
                        out.append(jt);
                        proof {
                            reveal_strlit(";");
                            assert(out@ =~= mid + jump_suffix(jc as int));
                        }
                    },
                    None => {
                        assert(out@ =~= mid + jump_suffix(jc as int));
                    },
                }
                proof {
                    assert(out@ =~= dest_prefix((bits_val(encoded_instruction@) / 8 % 8) as int)
                        + comp_text((bits_val(encoded_instruction@) / 64 % 128) as int)->0
                        + jump_suffix((bits_val(encoded_instruction@) % 8) as int));
                }
                Ok(out)
            },
        }
    }
}

/// A compute word splits back into the codes it was built from, and its
/// leading bit marks it as a compute instruction.
pub proof fn lemma_c_word_fields(cc: int, dc: int, jc: int)
    requires
        0 <= cc < 128,
        0 <= dc < 8,
        0 <= jc < 8,
    ensures
        0x8000 <= c_word_val(cc, dc, jc) < 0x10000,
        c_word_val(cc, dc, jc) / 64 % 128 == cc,
        c_word_val(cc, dc, jc) / 8 % 8 == dc,
        c_word_val(cc, dc, jc) % 8 == jc,
{
    let v = c_word_val(cc, dc, jc);
    lemma_fundamental_div_mod_converse_div(v, 64, 896 + cc, dc * 8 + jc);
    lemma_fundamental_div_mod_converse_mod(896 + cc, 128, 7, cc);
    lemma_fundamental_div_mod_converse_div(v, 8, 7168 + cc * 8 + dc, jc);
    lemma_fundamental_div_mod_converse_mod(7168 + cc * 8 + dc, 8, 896 + cc, dc);
    lemma_fundamental_div_mod_converse_mod(v, 8, 7168 + cc * 8 + dc, jc);
}

/// Law: decoding the encoding of a literal address instruction describes
/// the same instruction — the address marker followed by the canonical
/// numeral of the same value.
pub proof fn lemma_roundtrip_address(s: Seq<char>, table: Map<Seq<char>, u16>, cursor: u16)
    requires
        is_digits(s),
        dec_val(s) <= 32767,
    ensures
        encode_one(InstructionView::Address(s), table, cursor) == (EncodeOutcome::Emitted {
            word: word_bits(dec_val(s) as u16),
            table,
            cursor,
        }),
        decode_spec(word_bits(dec_val(s) as u16)) == Ok::<_, ErrorView>(
            seq!['@'] + dec_digits(dec_val(s)),
        ),
{
    let n = dec_val(s) as u16;
    lemma_word_bits_binary(n);
    lemma_word_bits_val(n);
}

/// Law: a symbolic address instruction decodes to the numeral of its
/// resolved address — the name itself is not recovered — and that numeral
/// re-encodes to the identical binary word (the documented lossy round
/// trip).
pub proof fn lemma_roundtrip_address_symbolic(
    s: Seq<char>,
    table: Map<Seq<char>, u16>,
    cursor: u16,
)
    requires
        !is_digits(s),
        crate::symbols::bounded_table(table),
        cursor < 0x8000,
    ensures
        ({
            let v: u16 = if table.dom().contains(s) {
                table[s]
            } else {
                cursor
            };
            match encode_one(InstructionView::Address(s), table, cursor) {
                EncodeOutcome::Emitted { word, table: t2, cursor: c2 } => {
                    &&& word == word_bits(v)
                    &&& decode_spec(word) == Ok::<_, ErrorView>(
                        seq!['@'] + dec_digits(v as nat),
                    )
                    &&& encode_one(InstructionView::Address(dec_digits(v as nat)), t2, c2)
                        == (EncodeOutcome::Emitted { word, table: t2, cursor: c2 })
                },
                EncodeOutcome::Failed { .. } => false,
            }
        }),
{
    let v: u16 = if table.dom().contains(s) {
        table[s]
    } else {
        cursor
    };
    lemma_word_bits_binary(v);
    lemma_word_bits_val(v);
    crate::words::lemma_dec_digits_is_digits(v as nat);
    crate::words::lemma_dec_digits_val(v as nat);
}

/// Law: decoding the encoding of a compute instruction describes the same
/// instruction — the same computation and jump mnemonics, and a destination
/// naming the same destination set (in canonical letter order).
pub proof fn lemma_roundtrip_compute(
    d: Seq<char>,
    c: Seq<char>,
    j: Seq<char>,
    table: Map<Seq<char>, u16>,
    cursor: u16,
)
    requires
        comp_code(c) is Some,
        jump_code(j) is Some,
    ensures
        ({
            let w = word_bits(c_word_val(comp_code(c)->0, dest_code(d), jump_code(j)->0) as u16);
            &&& encode_one(InstructionView::Compute(d, c, j), table, cursor)
                == (EncodeOutcome::Emitted { word: w, table, cursor })
            &&& decode_spec(w) == Ok::<_, ErrorView>(
                dest_prefix(dest_code(d)) + c + (if j.len() == 0 {
                    Seq::<char>::empty()
                } else {
                    seq![';'] + j
                }),
            )
        }),
{
    let cc = comp_code(c)->0;
    let dc = dest_code(d);
    let jc = jump_code(j)->0;
    lemma_comp_code_bound(c);
    lemma_dest_code_bound(d);
    lemma_jump_code_bound(j);
    lemma_c_word_fields(cc, dc, jc);
    let wv = c_word_val(cc, dc, jc) as u16;
    lemma_word_bits_binary(wv);
    lemma_word_bits_val(wv);
    lemma_comp_roundtrip(c);
    lemma_jump_roundtrip(j);
    if j.len() == 0 {
        assert(jump_suffix(jc) =~= Seq::<char>::empty());
    } else {
        assert(jump_suffix(jc) =~= seq![';'] + j);
    }
}

} // verus!
