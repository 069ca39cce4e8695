//! End-to-end assembly: the two-pass resolver, symbol handling and the
//! fatal error policy.

use rhasm::Assembler;
use rhasm::Instruction;
use rhasm::RhasmError;
use rhasm::SymbolTable;
use rhasm::encode_instruction;

fn lines(src: &[&str]) -> Vec<String> {
    src.iter().map(|s| s.to_string()).collect()
}

#[test]
fn example_program_assembles() {
    let src = lines(&["@2", "D=A", "@3", "D=D+A", "@0", "M=D"]);
    let mut assembler = Assembler::build(src).unwrap();
    assembler.advance_to_end().unwrap();
    let out = assembler.output_lines();
    assert_eq!(out.len(), 1);
    assert_eq!(
        out[0],
        "0000000000000010\n\
         1110110000010000\n\
         0000000000000011\n\
         1110000010010000\n\
         0000000000000000\n\
         1110001100001000"
    );
}

#[test]
fn example_program_stepwise() {
    let src = lines(&["@2", "D=A", "@3", "D=D+A", "@0", "M=D"]);
    let mut assembler = Assembler::build(src).unwrap();
    let expected = [
        "0000000000000010",
        "1110110000010000",
        "0000000000000011",
        "1110000010010000",
        "0000000000000000",
        "1110001100001000",
    ];
    for want in expected {
        assert_eq!(assembler.get_next_encoded_instruction().unwrap().unwrap(), want);
    }
    assert!(assembler.get_next_encoded_instruction().unwrap().is_none());
    assert!(assembler.get_next_encoded_instruction().unwrap().is_none());
}

#[test]
fn advance_once_writes_one_chunk_per_instruction() {
    let src = lines(&["@1", "@2"]);
    let mut assembler = Assembler::build(src).unwrap();
    assembler.advance_once().unwrap();
    assembler.advance_once().unwrap();
    assembler.advance_once().unwrap(); // past the end: no write, no error
    let out = assembler.output_lines();
    assert_eq!(out.as_slice(), &["0000000000000001".to_string(), "0000000000000010".to_string()]);
}

#[test]
fn forward_label_reference() {
    // The label is declared after two IR entries, so it binds to the IR
    // index of the @0 entry that follows it.
    let src = lines(&["@LOOP", "0;JMP", "(LOOP)", "@0"]);
    let mut assembler = Assembler::build(src).unwrap();
    assert_eq!(assembler.symbol_table.get("LOOP"), Some(2));
    assembler.advance_to_end().unwrap();
    let out = assembler.output_lines();
    assert_eq!(
        out[0],
        "0000000000000010\n\
         1110101010000111\n\
         0000000000000000"
    );
}

#[test]
fn label_consumes_no_ir_slot() {
    let src = lines(&["(START)", "@1", "(MID)", "D=A", "(END)"]);
    let assembler = Assembler::build(src).unwrap();
    assert_eq!(assembler.instructions.len(), 2);
    assert_eq!(assembler.symbol_table.get("START"), Some(0));
    assert_eq!(assembler.symbol_table.get("MID"), Some(1));
    assert_eq!(assembler.symbol_table.get("END"), Some(2));
}

#[test]
fn duplicate_label_last_write_wins() {
    let src = lines(&["(HERE)", "@1", "(HERE)", "@2"]);
    let assembler = Assembler::build(src).unwrap();
    assert_eq!(assembler.symbol_table.get("HERE"), Some(1));
}

#[test]
fn repeated_symbol_resolves_to_same_address() {
    let src = lines(&["@i", "D=A", "@i"]);
    let mut assembler = Assembler::build(src).unwrap();
    assembler.advance_to_end().unwrap();
    let out = assembler.output_lines();
    let words: Vec<&str> = out[0].split('\n').collect();
    assert_eq!(words[0], "0000000000010000"); // 16
    assert_eq!(words[2], words[0]);
}

#[test]
fn variables_allocated_in_first_use_order() {
    let src = lines(&["@R3", "(SKIP)", "@first", "@SCREEN", "@second", "@first"]);
    let mut assembler = Assembler::build(src).unwrap();
    assembler.advance_to_end().unwrap();
    assert_eq!(assembler.symbol_table.get("first"), Some(16));
    assert_eq!(assembler.symbol_table.get("second"), Some(17));
    let out = assembler.output_lines();
    let words: Vec<&str> = out[0].split('\n').collect();
    assert_eq!(words[1], "0000000000010000"); // first -> 16
    assert_eq!(words[3], "0000000000010001"); // second -> 17
    assert_eq!(words[4], "0000000000010000"); // first again -> 16
}

#[test]
fn predefined_symbols_resolve_to_fixed_values() {
    let src = lines(&["@SP", "@LCL", "@ARG", "@THIS", "@THAT", "@R0", "@R15", "@SCREEN", "@KBD"]);
    let mut assembler = Assembler::build(src).unwrap();
    assembler.advance_to_end().unwrap();
    let out = assembler.output_lines();
    let words: Vec<&str> = out[0].split('\n').collect();
    assert_eq!(words[0], "0000000000000000"); // SP = 0
    assert_eq!(words[1], "0000000000000001"); // LCL = 1
    assert_eq!(words[2], "0000000000000010"); // ARG = 2
    assert_eq!(words[3], "0000000000000011"); // THIS = 3
    assert_eq!(words[4], "0000000000000100"); // THAT = 4
    assert_eq!(words[5], "0000000000000000"); // R0 = 0
    assert_eq!(words[6], "0000000000001111"); // R15 = 15
    assert_eq!(words[7], "0100000000000000"); // SCREEN = 16384
    assert_eq!(words[8], "0110000000000000"); // KBD = 24576
    // The predefined entries are untouched by the walk.
    assert_eq!(assembler.symbol_table.get("SP"), Some(0));
    assert_eq!(assembler.symbol_table.get("KBD"), Some(24576));
}

#[test]
fn assembly_is_deterministic() {
    let src = &["@x", "D=A // set it", "(L)", "@L", "@y", "0;JMP"];
    let mut a1 = Assembler::build(lines(src)).unwrap();
    let mut a2 = Assembler::build(lines(src)).unwrap();
    a1.advance_to_end().unwrap();
    a2.advance_to_end().unwrap();
    assert_eq!(a1.output_lines(), a2.output_lines());
    for name in ["x", "y", "L", "SP", "KBD"] {
        assert_eq!(a1.symbol_table.get(name), a2.symbol_table.get(name));
    }
}

#[test]
fn comments_and_blank_lines_are_skipped() {
    let src = lines(&[
        "// a full-line comment",
        "",
        "   ",
        "  @2  // trailing comment",
        "\tD=A\t",
    ]);
    let mut assembler = Assembler::build(src).unwrap();
    assembler.advance_to_end().unwrap();
    assert_eq!(assembler.output_lines()[0], "0000000000000010\n1110110000010000");
}

#[test]
fn grammar_error_names_line_and_text() {
    let src = lines(&["@1", "", "what is this"]);
    let err = Assembler::build(src).unwrap_err();
    assert_eq!(
        err,
        RhasmError::GrammarError { line: 2, text: "what is this".to_string() }
    );
}

#[test]
fn grammar_error_on_malformed_address() {
    let src = lines(&["@"]);
    let err = Assembler::build(src).unwrap_err();
    assert_eq!(err, RhasmError::GrammarError { line: 0, text: "@".to_string() });
}

#[test]
fn literal_range_error() {
    let src = lines(&["@32768"]);
    let mut assembler = Assembler::build(src).unwrap();
    let err = assembler.advance_to_end().unwrap_err();
    assert_eq!(err, RhasmError::LiteralRangeError { literal: "32768".to_string() });
    // No partial output was committed.
    assert!(assembler.output_lines().is_empty());
}

#[test]
fn largest_literal_encodes() {
    let src = lines(&["@32767"]);
    let mut assembler = Assembler::build(src).unwrap();
    assembler.advance_to_end().unwrap();
    assert_eq!(assembler.output_lines()[0], "0111111111111111");
}

#[test]
fn unknown_comp_mnemonic_is_fatal() {
    // "D+D" is a well-formed computation token but not in the vocabulary.
    let src = lines(&["@1", "D=D+D"]);
    let mut assembler = Assembler::build(src).unwrap();
    let err = assembler.advance_to_end().unwrap_err();
    assert_eq!(err, RhasmError::UnknownMnemonicError { mnemonic: "D+D".to_string() });
    assert!(assembler.output_lines().is_empty());
}

#[test]
fn unknown_jump_mnemonic_is_fatal() {
    let src = lines(&["D;XYZ"]);
    let mut assembler = Assembler::build(src).unwrap();
    let err = assembler.advance_to_end().unwrap_err();
    assert_eq!(err, RhasmError::UnknownMnemonicError { mnemonic: "XYZ".to_string() });
}

#[test]
fn encode_instruction_directly() {
    let mut table = SymbolTable::with_defaults();
    let mut cur_ram: u16 = 16;
    let word = encode_instruction(
        &Instruction::AInstruction("5".to_string()),
        &mut table,
        &mut cur_ram,
    )
    .unwrap();
    assert_eq!(word, "0000000000000101");
    assert_eq!(cur_ram, 16);

    let word = encode_instruction(
        &Instruction::AInstruction("temp".to_string()),
        &mut table,
        &mut cur_ram,
    )
    .unwrap();
    assert_eq!(word, "0000000000010000");
    assert_eq!(cur_ram, 17);
    assert_eq!(table.get("temp"), Some(16));

    // A second use of the same symbol finds the binding and changes nothing.
    let word = encode_instruction(
        &Instruction::AInstruction("temp".to_string()),
        &mut table,
        &mut cur_ram,
    )
    .unwrap();
    assert_eq!(word, "0000000000010000");
    assert_eq!(cur_ram, 17);

    let word = encode_instruction(
        &Instruction::CInstruction("MD".to_string(), "A-1".to_string(), "JLE".to_string()),
        &mut table,
        &mut cur_ram,
    )
    .unwrap();
    assert_eq!(word, "1110110010011110");
}

#[test]
fn duplicate_dest_letters_are_harmless() {
    let mut table = SymbolTable::new();
    let mut cur_ram: u16 = 16;
    let doubled = encode_instruction(
        &Instruction::CInstruction("DD".to_string(), "0".to_string(), "".to_string()),
        &mut table,
        &mut cur_ram,
    )
    .unwrap();
    let single = encode_instruction(
        &Instruction::CInstruction("D".to_string(), "0".to_string(), "".to_string()),
        &mut table,
        &mut cur_ram,
    )
    .unwrap();
    assert_eq!(doubled, single);
}

#[test]
fn first_pass_consumes_all_lines() {
    let src = lines(&["@1", "@2"]);
    let assembler = Assembler::build(src).unwrap();
    assert!(!assembler.can_read_more_instructions());
}
