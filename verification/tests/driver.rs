//! The streaming disassembly driver: blank-line filtering, per-line error
//! skipping, and the writing operations.

use rhasm::DisasmError;
use rhasm::Disassembler;
use rhasm::DisassemblerConfig;

fn lines(src: &[&str]) -> Vec<String> {
    src.iter().map(|s| s.to_string()).collect()
}

fn reader_only(src: &[&str]) -> Disassembler {
    Disassembler::new(DisassemblerConfig { reader: lines(src), writer: None })
}

fn with_writer(src: &[&str]) -> Disassembler {
    Disassembler::new(DisassemblerConfig { reader: lines(src), writer: Some(Vec::new()) })
}

const SAMPLE: [&str; 4] = [
    "0000000100000000",
    "1110110000010000",
    "0000000000000000",
    "1110101010000111",
];

#[test]
fn get_to_end_joins_decoded_lines() {
    let mut d = reader_only(&SAMPLE);
    assert_eq!(d.get_to_end().unwrap(), "@256\nD=A\n@0\n0;JMP");
    assert!(d.get_to_end().is_none());
}

#[test]
fn get_next_steps_through() {
    let mut d = reader_only(&SAMPLE);
    assert!(d.has_next());
    assert_eq!(d.get_next().unwrap(), "@256");
    assert_eq!(d.get_next().unwrap(), "D=A");
    assert_eq!(d.get_next().unwrap(), "@0");
    assert_eq!(d.get_next().unwrap(), "0;JMP");
    assert!(!d.has_next());
    assert!(d.get_next().is_none());
}

#[test]
fn blank_lines_are_filtered() {
    let mut d = reader_only(&["", "0000000000000010", "", "1110001100001000", ""]);
    assert_eq!(d.get_to_end().unwrap(), "@2\nM=D");
}

#[test]
fn surrounding_whitespace_is_trimmed() {
    let mut d = reader_only(&["  0000000000000010  ", "\t1110001100001000\t"]);
    assert_eq!(d.get_to_end().unwrap(), "@2\nM=D");
}

#[test]
fn bad_line_is_skipped_and_reported() {
    let mut d = reader_only(&["0000000000000010", "not binary at all", "1110001100001000"]);
    assert_eq!(d.get_to_end().unwrap(), "@2\nM=D");
    assert_eq!(d.diagnostics, vec!["not binary at all".to_string()]);
}

#[test]
fn get_next_on_bad_line_returns_none_then_continues() {
    let mut d = reader_only(&["0000000000000010", "0101", "1110001100001000"]);
    assert_eq!(d.get_next().unwrap(), "@2");
    assert!(d.get_next().is_none()); // the bad line, skipped and recorded
    assert_eq!(d.get_next().unwrap(), "M=D");
    assert!(d.get_next().is_none()); // end of input
    assert_eq!(d.diagnostics, vec!["0101".to_string()]);
}

#[test]
fn nothing_decodable_yields_none() {
    let mut d = reader_only(&["zzz", "111"]);
    assert!(d.get_to_end().is_none());
    assert_eq!(d.diagnostics.len(), 2);
}

#[test]
fn write_to_end_fills_the_sink() {
    let mut d = with_writer(&SAMPLE);
    d.write_to_end().unwrap();
    assert_eq!(d.writer.as_ref().unwrap().as_slice(), &["@256\nD=A\n@0\n0;JMP".to_string()]);
}

#[test]
fn write_to_end_without_writer_errs() {
    let mut d = reader_only(&SAMPLE);
    assert_eq!(d.write_to_end().unwrap_err(), DisasmError::NoWriter);
}

#[test]
fn write_to_end_on_exhausted_input_errs() {
    let mut d = with_writer(&[]);
    assert_eq!(d.write_to_end().unwrap_err(), DisasmError::NoMoreLines);
}

#[test]
fn write_next_writes_one_line() {
    let mut d = with_writer(&SAMPLE);
    d.write_next().unwrap();
    d.write_next().unwrap();
    assert_eq!(
        d.writer.as_ref().unwrap().as_slice(),
        &["@256".to_string(), "D=A".to_string()]
    );
}

#[test]
fn write_next_at_end_errs() {
    let mut d = with_writer(&["0000000000000010"]);
    d.write_next().unwrap();
    assert_eq!(d.write_next().unwrap_err(), DisasmError::NoMoreLines);
}

#[test]
fn get_and_write_next_returns_and_writes() {
    let mut d = with_writer(&SAMPLE);
    assert_eq!(d.get_and_write_next().unwrap().unwrap(), "@256");
    assert_eq!(d.writer.as_ref().unwrap().as_slice(), &["@256".to_string()]);
    // At the end of the input the result is Ok(None), not an error.
    let mut d = with_writer(&[]);
    assert!(d.get_and_write_next().unwrap().is_none());
}

#[test]
fn get_and_write_next_without_writer_errs() {
    let mut d = reader_only(&SAMPLE);
    assert_eq!(d.get_and_write_next().unwrap_err(), DisasmError::NoWriter);
}

#[test]
fn get_and_write_to_end_returns_and_writes() {
    let mut d = with_writer(&SAMPLE);
    let text = d.get_and_write_to_end().unwrap().unwrap();
    assert_eq!(text, "@256\nD=A\n@0\n0;JMP");
    assert_eq!(d.writer.as_ref().unwrap().as_slice(), &[text]);
    assert!(d.get_and_write_to_end().unwrap().is_none());
}
