//! The fixed codec tables and the symbol table.

use rhasm::SymbolTable;
use rhasm::codes::get_comp_code;
use rhasm::codes::get_dest_code;
use rhasm::codes::get_jump_code;
use rhasm::codes::decode_comp;
use rhasm::codes::decode_dest;
use rhasm::codes::decode_jump;

#[test]
fn comp_codes_match_the_table() {
    assert_eq!(get_comp_code("0"), Some(0b0101010));
    assert_eq!(get_comp_code("1"), Some(0b0111111));
    assert_eq!(get_comp_code("-1"), Some(0b0111010));
    assert_eq!(get_comp_code("D+A"), Some(0b0000010));
    assert_eq!(get_comp_code("D|M"), Some(0b1010101));
    assert_eq!(get_comp_code("M"), Some(0b1110000));
    assert_eq!(get_comp_code(""), None);
    assert_eq!(get_comp_code("D+D"), None);
    assert_eq!(get_comp_code("A+M"), None);
}

#[test]
fn dest_codes_flag_each_letter() {
    assert_eq!(get_dest_code(""), 0b000);
    assert_eq!(get_dest_code("M"), 0b001);
    assert_eq!(get_dest_code("D"), 0b010);
    assert_eq!(get_dest_code("MD"), 0b011);
    assert_eq!(get_dest_code("DM"), 0b011);
    assert_eq!(get_dest_code("A"), 0b100);
    assert_eq!(get_dest_code("AM"), 0b101);
    assert_eq!(get_dest_code("AD"), 0b110);
    assert_eq!(get_dest_code("AMD"), 0b111);
    assert_eq!(get_dest_code("AAA"), 0b100);
}

#[test]
fn jump_codes_match_the_table() {
    assert_eq!(get_jump_code(""), Some(0b000));
    assert_eq!(get_jump_code("JGT"), Some(0b001));
    assert_eq!(get_jump_code("JEQ"), Some(0b010));
    assert_eq!(get_jump_code("JGE"), Some(0b011));
    assert_eq!(get_jump_code("JLT"), Some(0b100));
    assert_eq!(get_jump_code("JNE"), Some(0b101));
    assert_eq!(get_jump_code("JLE"), Some(0b110));
    assert_eq!(get_jump_code("JMP"), Some(0b111));
    assert_eq!(get_jump_code("JXX"), None);
}

#[test]
fn inverse_tables_invert_the_codes() {
    for comp in ["0", "D+1", "M-D", "D|M"] {
        let code = get_comp_code(comp).unwrap();
        assert_eq!(decode_comp(code), Some(comp));
    }
    assert_eq!(decode_comp(0b1111111), None);
    assert_eq!(decode_dest(0b000), None);
    assert_eq!(decode_dest(0b011), Some("MD"));
    assert_eq!(decode_dest(0b111), Some("AMD"));
    assert_eq!(decode_jump(0b000), None);
    assert_eq!(decode_jump(0b111), Some("JMP"));
    for jump in ["JGT", "JEQ", "JGE", "JLT", "JNE", "JLE", "JMP"] {
        let code = get_jump_code(jump).unwrap();
        assert_eq!(decode_jump(code), Some(jump));
    }
}

#[test]
fn symbol_table_holds_the_predefined_entries() {
    let table = SymbolTable::with_defaults();
    assert_eq!(table.get("SP"), Some(0));
    assert_eq!(table.get("LCL"), Some(1));
    assert_eq!(table.get("ARG"), Some(2));
    assert_eq!(table.get("THIS"), Some(3));
    assert_eq!(table.get("THAT"), Some(4));
    for r in 0..=15u16 {
        assert_eq!(table.get(&format!("R{}", r)), Some(r));
    }
    assert_eq!(table.get("SCREEN"), Some(16384));
    assert_eq!(table.get("KBD"), Some(24576));
    assert_eq!(table.get("loop"), None);
}

#[test]
fn symbol_table_is_case_sensitive() {
    let table = SymbolTable::with_defaults();
    assert_eq!(table.get("sp"), None);
    assert_eq!(table.get("Sp"), None);
}

#[test]
fn symbol_table_insert_and_overwrite() {
    let mut table = SymbolTable::new();
    assert!(!table.contains_key("x"));
    table.insert("x".to_string(), 7);
    assert!(table.contains_key("x"));
    assert_eq!(table.get("x"), Some(7));
    table.insert("x".to_string(), 9);
    assert_eq!(table.get("x"), Some(9));
}
