//! The decoder: the inverse tables, the error taxonomy, and the
//! encode/decode round trip.

use rhasm::Instruction;
use rhasm::RhasmError;
use rhasm::SymbolTable;
use rhasm::decode_instruction;
use rhasm::encode_instruction;

#[test]
fn decode_address_example() {
    assert_eq!(decode_instruction("0000000000000010").unwrap(), "@2");
}

#[test]
fn decode_compute_example() {
    assert_eq!(decode_instruction("1110001100001000").unwrap(), "M=D");
    // The same word example 1 assembles from `D=D+A` decodes back to it.
    assert_eq!(decode_instruction("1110000010010000").unwrap(), "D=D+A");
}

#[test]
fn decode_extreme_addresses() {
    assert_eq!(decode_instruction("0000000000000000").unwrap(), "@0");
    assert_eq!(decode_instruction("0111111111111111").unwrap(), "@32767");
}

#[test]
fn decode_length_error() {
    assert_eq!(
        decode_instruction("010101010101010").unwrap_err(),
        RhasmError::DecodeLengthError { found: 15 }
    );
    assert_eq!(
        decode_instruction("").unwrap_err(),
        RhasmError::DecodeLengthError { found: 0 }
    );
    assert_eq!(
        decode_instruction("01010101010101010").unwrap_err(),
        RhasmError::DecodeLengthError { found: 17 }
    );
}

#[test]
fn decode_digit_error() {
    assert_eq!(
        decode_instruction("0000000000000102").unwrap_err(),
        RhasmError::DecodeDigitError
    );
    assert_eq!(
        decode_instruction("000000000000001x").unwrap_err(),
        RhasmError::DecodeDigitError
    );
}

#[test]
fn decode_mnemonic_error_names_bit_pattern() {
    // Computation bits 1111111 have no inverse mapping.
    assert_eq!(
        decode_instruction("1111111111000000").unwrap_err(),
        RhasmError::DecodeMnemonicError { bits: "1111111".to_string() }
    );
}

#[test]
fn decode_all_destinations() {
    // Computation D (0001100), no jump, all eight destination codes.
    assert_eq!(decode_instruction("1110001100000000").unwrap(), "D");
    assert_eq!(decode_instruction("1110001100001000").unwrap(), "M=D");
    assert_eq!(decode_instruction("1110001100010000").unwrap(), "D=D");
    assert_eq!(decode_instruction("1110001100011000").unwrap(), "MD=D");
    assert_eq!(decode_instruction("1110001100100000").unwrap(), "A=D");
    assert_eq!(decode_instruction("1110001100101000").unwrap(), "AM=D");
    assert_eq!(decode_instruction("1110001100110000").unwrap(), "AD=D");
    assert_eq!(decode_instruction("1110001100111000").unwrap(), "AMD=D");
}

#[test]
fn decode_all_jumps() {
    // Computation 0 (0101010), no destination, all eight jump codes.
    assert_eq!(decode_instruction("1110101010000000").unwrap(), "0");
    assert_eq!(decode_instruction("1110101010000001").unwrap(), "0;JGT");
    assert_eq!(decode_instruction("1110101010000010").unwrap(), "0;JEQ");
    assert_eq!(decode_instruction("1110101010000011").unwrap(), "0;JGE");
    assert_eq!(decode_instruction("1110101010000100").unwrap(), "0;JLT");
    assert_eq!(decode_instruction("1110101010000101").unwrap(), "0;JNE");
    assert_eq!(decode_instruction("1110101010000110").unwrap(), "0;JLE");
    assert_eq!(decode_instruction("1110101010000111").unwrap(), "0;JMP");
}

fn encode_one_compute(dest: &str, comp: &str, jump: &str) -> String {
    let mut table = SymbolTable::new();
    let mut cur_ram: u16 = 16;
    encode_instruction(
        &Instruction::CInstruction(dest.to_string(), comp.to_string(), jump.to_string()),
        &mut table,
        &mut cur_ram,
    )
    .unwrap()
}

#[test]
fn roundtrip_every_computation() {
    let comps = [
        "0", "1", "-1", "D", "A", "!D", "!A", "-D", "-A", "D+1", "A+1", "D-1", "A-1", "D+A",
        "D-A", "A-D", "D&A", "D|A", "M", "!M", "-M", "M+1", "M-1", "D+M", "D-M", "M-D", "D&M",
        "D|M",
    ];
    for comp in comps {
        let word = encode_one_compute("", comp, "");
        assert_eq!(decode_instruction(&word).unwrap(), comp);
    }
}

#[test]
fn roundtrip_compute_with_dest_and_jump() {
    let word = encode_one_compute("AMD", "D+1", "JNE");
    assert_eq!(decode_instruction(&word).unwrap(), "AMD=D+1;JNE");
    let word = encode_one_compute("D", "M-1", "JMP");
    assert_eq!(decode_instruction(&word).unwrap(), "D=M-1;JMP");
}

#[test]
fn roundtrip_dest_set_is_canonicalized() {
    // "DM" and "MD" name the same destination set; the decoded text uses
    // the canonical letter order, and both re-encode to the same word.
    let w1 = encode_one_compute("DM", "0", "");
    let w2 = encode_one_compute("MD", "0", "");
    assert_eq!(w1, w2);
    assert_eq!(decode_instruction(&w1).unwrap(), "MD=0");
}

#[test]
fn roundtrip_address_literals() {
    let mut table = SymbolTable::new();
    let mut cur_ram: u16 = 16;
    for value in [0u16, 1, 2, 15, 16, 255, 16384, 21845, 32767] {
        let text = format!("{}", value);
        let word = encode_instruction(
            &Instruction::AInstruction(text.clone()),
            &mut table,
            &mut cur_ram,
        )
        .unwrap();
        assert_eq!(word.len(), 16);
        assert_eq!(decode_instruction(&word).unwrap(), format!("@{}", value));
    }
}

#[test]
fn leading_zeros_decode_to_canonical_numeral() {
    let mut table = SymbolTable::new();
    let mut cur_ram: u16 = 16;
    let word = encode_instruction(
        &Instruction::AInstruction("0021".to_string()),
        &mut table,
        &mut cur_ram,
    )
    .unwrap();
    assert_eq!(decode_instruction(&word).unwrap(), "@21");
}

#[test]
fn symbolic_address_roundtrip_is_lossy_but_reencodes() {
    // A symbolic operand decodes to the allocated numeral, not the name;
    // the numeral re-encodes to the identical word.
    let mut table = SymbolTable::with_defaults();
    let mut cur_ram: u16 = 16;
    let word = encode_instruction(
        &Instruction::AInstruction("counter".to_string()),
        &mut table,
        &mut cur_ram,
    )
    .unwrap();
    let decoded = decode_instruction(&word).unwrap();
    assert_eq!(decoded, "@16");
    let again = encode_instruction(
        &Instruction::AInstruction("16".to_string()),
        &mut table,
        &mut cur_ram,
    )
    .unwrap();
    assert_eq!(again, word);
}
