//! The fixed codec lookup tables: computation, destination and jump
//! mnemonics and their binary codes, together with the inverse tables used
//! by the decoder.

use vstd::prelude::*;
use crate::text::str_eq;
use crate::text::contains_char;

verus! {

/// The 7-bit code of a computation mnemonic, from the fixed 28-entry
/// vocabulary; `None` for any other text.
pub open spec fn comp_code(m: Seq<char>) -> Option<int> {
    if m == "0"@ {
        Some(0b0101010)
    } else if m == "1"@ {
        Some(0b0111111)
    } else if m == "-1"@ {
        Some(0b0111010)
    } else if m == "D"@ {
        Some(0b0001100)
    } else if m == "A"@ {
        Some(0b0110000)
    } else if m == "!D"@ {
        Some(0b0001101)
    } else if m == "!A"@ {
        Some(0b0110001)
    } else if m == "-D"@ {
        Some(0b0001111)
    } else if m == "-A"@ {
        Some(0b0110011)
    } else if m == "D+1"@ {
        Some(0b0011111)
    } else if m == "A+1"@ {
        Some(0b0110111)
    } else if m == "D-1"@ {
        Some(0b0001110)
    } else if m == "A-1"@ {
        Some(0b0110010)
    } else if m == "D+A"@ {
        Some(0b0000010)
    } else if m == "D-A"@ {
        Some(0b0010011)
    } else if m == "A-D"@ {
        Some(0b0000111)
    } else if m == "D&A"@ {
        Some(0b0000000)
    } else if m == "D|A"@ {
        Some(0b0010101)
    } else if m == "M"@ {
        Some(0b1110000)
    } else if m == "!M"@ {
        Some(0b1110001)
    } else if m == "-M"@ {
        Some(0b1110011)
    } else if m == "M+1"@ {
        Some(0b1110111)
    } else if m == "M-1"@ {
        Some(0b1110010)
    } else if m == "D+M"@ {
        Some(0b1000010)
    } else if m == "D-M"@ {
        Some(0b1010011)
    } else if m == "M-D"@ {
        Some(0b1000111)
    } else if m == "D&M"@ {
        Some(0b1000000)
    } else if m == "D|M"@ {
        Some(0b1010101)
    } else {
        None
    }
}

/// The computation mnemonic of a 7-bit code; `None` where the code has no
/// inverse.
pub open spec fn comp_text(c: int) -> Option<Seq<char>> {
    if c == 0b0101010 {
        Some("0"@)
    } else if c == 0b0111111 {
        Some("1"@)
    } else if c == 0b0111010 {
        Some("-1"@)
    } else if c == 0b0001100 {
        Some("D"@)
    } else if c == 0b0110000 {
        Some("A"@)
    } else if c == 0b0001101 {
        Some("!D"@)
    } else if c == 0b0110001 {
        Some("!A"@)
    } else if c == 0b0001111 {
        Some("-D"@)
    } else if c == 0b0110011 {
        Some("-A"@)
    } else if c == 0b0011111 {
        Some("D+1"@)
    } else if c == 0b0110111 {
        Some("A+1"@)
    } else if c == 0b0001110 {
        Some("D-1"@)
    } else if c == 0b0110010 {
        Some("A-1"@)
    } else if c == 0b0000010 {
        Some("D+A"@)
    } else if c == 0b0010011 {
        Some("D-A"@)
    } else if c == 0b0000111 {
        Some("A-D"@)
    } else if c == 0b0000000 {
        Some("D&A"@)
    } else if c == 0b0010101 {
        Some("D|A"@)
    } else if c == 0b1110000 {
        Some("M"@)
    } else if c == 0b1110001 {
        Some("!M"@)
    } else if c == 0b1110011 {
        Some("-M"@)
    } else if c == 0b1110111 {
        Some("M+1"@)
    } else if c == 0b1110010 {
        Some("M-1"@)
    } else if c == 0b1000010 {
        Some("D+M"@)
    } else if c == 0b1010011 {
        Some("D-M"@)
    } else if c == 0b1000111 {
        Some("M-D"@)
    } else if c == 0b1000000 {
        Some("D&M"@)
    } else if c == 0b1010101 {
        Some("D|M"@)
    } else {
        None
    }
}

/// The 3-bit destination code: each bit independently flags the presence of
/// `A`, `D`, `M` in the mnemonic text.
pub open spec fn dest_code(m: Seq<char>) -> int {
    (if m.contains('A') {
        4int
    } else {
        0int
    }) + (if m.contains('D') {
        2int
    } else {
        0int
    }) + (if m.contains('M') {
        1int
    } else {
        0int
    })
}

/// The canonical destination mnemonic of a 3-bit code; `None` for the
/// no-destination code.
pub open spec fn dest_text(d: int) -> Option<Seq<char>> {
    if d == 1 {
        Some("M"@)
    } else if d == 2 {
        Some("D"@)
    } else if d == 3 {
        Some("MD"@)
    } else if d == 4 {
        Some("A"@)
    } else if d == 5 {
        Some("AM"@)
    } else if d == 6 {
        Some("AD"@)
    } else if d == 7 {
        Some("AMD"@)
    } else {
        None
    }
}

/// The 3-bit code of a jump mnemonic: the seven named conditions, with the
/// empty text meaning "never jump"; `None` for any other text.
pub open spec fn jump_code(m: Seq<char>) -> Option<int> {
    if m.len() == 0 {
        Some(0)
    } else if m == "JGT"@ {
        Some(1)
    } else if m == "JEQ"@ {
        Some(2)
    } else if m == "JGE"@ {
        Some(3)
    } else if m == "JLT"@ {
        Some(4)
    } else if m == "JNE"@ {
        Some(5)
    } else if m == "JLE"@ {
        Some(6)
    } else if m == "JMP"@ {
        Some(7)
    } else {
        None
    }
}

/// The jump mnemonic of a 3-bit code; `None` for the "never jump" code.
pub open spec fn jump_text(j: int) -> Option<Seq<char>> {
    if j == 1 {
        Some("JGT"@)
    } else if j == 2 {
        Some("JEQ"@)
    } else if j == 3 {
        Some("JGE"@)
    } else if j == 4 {
        Some("JLT"@)
    } else if j == 5 {
        Some("JNE"@)
    } else if j == 6 {
        Some("JLE"@)
    } else if j == 7 {
        Some("JMP"@)
    } else {
        None
    }
}

/// Looks a computation mnemonic up in the fixed table.
pub fn get_comp_code(mnemonic: &str) -> (r: Option<u8>)
    ensures
        comp_code(mnemonic@) == (match r {
            Some(c) => Some(c as int),
            None => None::<int>,
        }),
        r is Some ==> r->0 < 128,
{
    if str_eq(mnemonic, "0") {
        Some(0b0101010)
    } else if str_eq(mnemonic, "1") {
        Some(0b0111111)
    } else if str_eq(mnemonic, "-1") {
        Some(0b0111010)
    } else if str_eq(mnemonic, "D") {
        Some(0b0001100)
    } else if str_eq(mnemonic, "A") {
        Some(0b0110000)
    } else if str_eq(mnemonic, "!D") {
        Some(0b0001101)
    } else if str_eq(mnemonic, "!A") {
        Some(0b0110001)
    } else if str_eq(mnemonic, "-D") {
        Some(0b0001111)
    } else if str_eq(mnemonic, "-A") {
        Some(0b0110011)
    } else if str_eq(mnemonic, "D+1") {
        Some(0b0011111)
    } else if str_eq(mnemonic, "A+1") {
        Some(0b0110111)
    } else if str_eq(mnemonic, "D-1") {
        Some(0b0001110)
    } else if str_eq(mnemonic, "A-1") {
        Some(0b0110010)
    } else if str_eq(mnemonic, "D+A") {
        Some(0b0000010)
    } else if str_eq(mnemonic, "D-A") {
        Some(0b0010011)
    } else if str_eq(mnemonic, "A-D") {
        Some(0b0000111)
    } else if str_eq(mnemonic, "D&A") {
        Some(0b0000000)
    } else if str_eq(mnemonic, "D|A") {
        Some(0b0010101)
    } else if str_eq(mnemonic, "M") {
        Some(0b1110000)
    } else if str_eq(mnemonic, "!M") {
        Some(0b1110001)
    } else if str_eq(mnemonic, "-M") {
        Some(0b1110011)
    } else if str_eq(mnemonic, "M+1") {
        Some(0b1110111)
    } else if str_eq(mnemonic, "M-1") {
        Some(0b1110010)
    } else if str_eq(mnemonic, "D+M") {
        Some(0b1000010)
    } else if str_eq(mnemonic, "D-M") {
        Some(0b1010011)
    } else if str_eq(mnemonic, "M-D") {
        Some(0b1000111)
    } else if str_eq(mnemonic, "D&M") {
        Some(0b1000000)
    } else if str_eq(mnemonic, "D|M") {
        Some(0b1010101)
    } else {
        None
    }
}

/// Computes the 3-bit destination code from the presence of `A`, `D`, `M`
/// in the mnemonic text. Duplicate letters set the same bit again and are
/// harmless.
pub fn get_dest_code(mnemonic: &str) -> (r: u8)
    ensures
        r as int == dest_code(mnemonic@),
        r < 8,
{
    let mut r: u8 = 0;
    if contains_char(mnemonic, 'A') {
        r = r + 4;
    }
    if contains_char(mnemonic, 'D') {
        r = r + 2;
    }
    if contains_char(mnemonic, 'M') {
        r = r + 1;
    }
    r
}

/// Looks a jump mnemonic up in the fixed table; the empty text is the
/// "never jump" code.
pub fn get_jump_code(mnemonic: &str) -> (r: Option<u8>)
    ensures
        jump_code(mnemonic@) == (match r {
            Some(c) => Some(c as int),
            None => None::<int>,
        }),
        r is Some ==> r->0 < 8,
{
    if mnemonic.is_empty() {
        Some(0)
    } else if str_eq(mnemonic, "JGT") {
        Some(1)
    } else if str_eq(mnemonic, "JEQ") {
        Some(2)
    } else if str_eq(mnemonic, "JGE") {
        Some(3)
    } else if str_eq(mnemonic, "JLT") {
        Some(4)
    } else if str_eq(mnemonic, "JNE") {
        Some(5)
    } else if str_eq(mnemonic, "JLE") {
        Some(6)
    } else if str_eq(mnemonic, "JMP") {
        Some(7)
    } else {
        None
    }
}

/// The inverse destination table.
pub fn decode_dest(code: u8) -> (r: Option<&'static str>)
    ensures
        dest_text(code as int) == (match r {
            Some(t) => Some(t@),
            None => None::<Seq<char>>,
        }),
{
    match code {
        1 => Some("M"),
        2 => Some("D"),
        3 => Some("MD"),
        4 => Some("A"),
        5 => Some("AM"),
        6 => Some("AD"),
        7 => Some("AMD"),
        _ => None,
    }
}

/// The inverse computation table.
pub fn decode_comp(code: u8) -> (r: Option<&'static str>)
    ensures
        comp_text(code as int) == (match r {
            Some(t) => Some(t@),
            None => None::<Seq<char>>,
        }),
{
    match code {
        0b0101010 => Some("0"),
        0b0111111 => Some("1"),
        0b0111010 => Some("-1"),
        0b0001100 => Some("D"),
        0b0110000 => Some("A"),
        0b0001101 => Some("!D"),
        0b0110001 => Some("!A"),
        0b0001111 => Some("-D"),
        0b0110011 => Some("-A"),
        0b0011111 => Some("D+1"),
        0b0110111 => Some("A+1"),
        0b0001110 => Some("D-1"),
        0b0110010 => Some("A-1"),
        0b0000010 => Some("D+A"),
        0b0010011 => Some("D-A"),
        0b0000111 => Some("A-D"),
        0b0000000 => Some("D&A"),
        0b0010101 => Some("D|A"),
        0b1110000 => Some("M"),
        0b1110001 => Some("!M"),
        0b1110011 => Some("-M"),
        0b1110111 => Some("M+1"),
        0b1110010 => Some("M-1"),
        0b1000010 => Some("D+M"),
        0b1010011 => Some("D-M"),
        0b1000111 => Some("M-D"),
        0b1000000 => Some("D&M"),
        0b1010101 => Some("D|M"),
        _ => None,
    }
}

/// The inverse jump table.
pub fn decode_jump(code: u8) -> (r: Option<&'static str>)
    ensures
        jump_text(code as int) == (match r {
            Some(t) => Some(t@),
            None => None::<Seq<char>>,
        }),
{
    match code {
        1 => Some("JGT"),
        2 => Some("JEQ"),
        3 => Some("JGE"),
        4 => Some("JLT"),
        5 => Some("JNE"),
        6 => Some("JLE"),
        7 => Some("JMP"),
        _ => None,
    }
}

/// A computation code from the table is a 7-bit value.
pub proof fn lemma_comp_code_bound(m: Seq<char>)
    ensures
        comp_code(m) is Some ==> 0 <= comp_code(m)->0 < 128,
{
}

/// A jump code from the table is a 3-bit value.
pub proof fn lemma_jump_code_bound(m: Seq<char>)
    ensures
        jump_code(m) is Some ==> 0 <= jump_code(m)->0 < 8,
{
}

/// A destination code is a 3-bit value.
pub proof fn lemma_dest_code_bound(m: Seq<char>)
    ensures
        0 <= dest_code(m) < 8,
{
}

/// Decoding the code of a computation mnemonic gives the mnemonic back.
pub proof fn lemma_comp_roundtrip(m: Seq<char>)
    requires
        comp_code(m) is Some,
    ensures
        comp_text(comp_code(m)->0) == Some(m),
{
}

/// Decoding the code of a jump mnemonic gives the mnemonic back; the
/// "never jump" code decodes to the absent suffix.
pub proof fn lemma_jump_roundtrip(m: Seq<char>)
    requires
        jump_code(m) is Some,
    ensures
        m.len() == 0 ==> jump_code(m) == Some(0int),
        m.len() > 0 ==> jump_text(jump_code(m)->0) == Some(m),
{
    if m.len() > 0 {
        reveal_strlit("JGT");
        reveal_strlit("JEQ");
        reveal_strlit("JGE");
        reveal_strlit("JLT");
        reveal_strlit("JNE");
        reveal_strlit("JLE");
        reveal_strlit("JMP");
    }
}

/// The decoded text of a destination code names the same destination set
/// as any text that encodes to it: encoding the canonical text gives the
/// code back, and the no-destination code arises exactly from texts without
/// `A`, `D` or `M`.
pub proof fn lemma_dest_roundtrip(m: Seq<char>)
    ensures
        dest_text(dest_code(m)) is None ==> dest_code(m) == 0,
        dest_text(dest_code(m)) is Some ==> dest_code(dest_text(dest_code(m))->0) == dest_code(m),
{
    reveal_strlit("M");
    reveal_strlit("D");
    reveal_strlit("MD");
    reveal_strlit("A");
    reveal_strlit("AM");
    reveal_strlit("AD");
    reveal_strlit("AMD");
    let d = dest_code(m);
    if d == 1 {
        assert("M"@[0] == 'M');
        assert("M"@.contains('M'));
        assert(!"M"@.contains('A'));
        assert(!"M"@.contains('D'));
    } else if d == 2 {
        assert("D"@[0] == 'D');
        assert("D"@.contains('D'));
        assert(!"D"@.contains('A'));
        assert(!"D"@.contains('M'));
    } else if d == 3 {
        assert("MD"@[0] == 'M' && "MD"@[1] == 'D');
        assert("MD"@.contains('M') && "MD"@.contains('D'));
        assert(!"MD"@.contains('A'));
    } else if d == 4 {
        assert("A"@[0] == 'A');
        assert("A"@.contains('A'));
        assert(!"A"@.contains('D'));
        assert(!"A"@.contains('M'));
    } else if d == 5 {
        assert("AM"@[0] == 'A' && "AM"@[1] == 'M');
        assert("AM"@.contains('A') && "AM"@.contains('M'));
        assert(!"AM"@.contains('D'));
    } else if d == 6 {
        assert("AD"@[0] == 'A' && "AD"@[1] == 'D');
        assert("AD"@.contains('A') && "AD"@.contains('D'));
        assert(!"AD"@.contains('M'));
    } else if d == 7 {
        assert("AMD"@[0] == 'A' && "AMD"@[1] == 'M' && "AMD"@[2] == 'D');
        assert("AMD"@.contains('A') && "AMD"@.contains('M') && "AMD"@.contains('D'));
    }
}

} // verus!
