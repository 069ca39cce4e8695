//! The encoder: one instruction plus the current table state becomes one
//! 16-character binary word.
//!
//! An address instruction with a literal operand must fit the 15-bit
//! address field. A symbolic operand is looked up; an absent name is
//! allocated the current variable cursor value and the cursor advances by
//! one. A compute instruction is translated through the fixed tables, with
//! an unknown computation or jump mnemonic a fatal error.

use vstd::prelude::*;
use crate::codes::comp_code;
use crate::codes::dest_code;
use crate::codes::jump_code;
use crate::codes::get_comp_code;
use crate::codes::get_dest_code;
use crate::codes::get_jump_code;
use crate::errors::ErrorView;
use crate::errors::RhasmError;
use crate::instruction::Instruction;
use crate::instruction::InstructionView;
use crate::parser::digits_str;
use crate::symbols::SymbolTable;
use crate::words::dec_val;
use crate::words::is_digits;
use crate::words::parse_decimal;
use crate::words::render_word;
use crate::words::word_bits;

verus! {

/// What one encoding step yields: either a word together with the table
/// state after the step, or a fatal error (which leaves the state as it
/// was).
#[verifier::ext_equal]
pub enum EncodeOutcome {
    /// The instruction's binary word and the table state after the step.
    Emitted { word: Seq<char>, table: Map<Seq<char>, u16>, cursor: u16 },
    /// A fatal encoding error.
    Failed { err: ErrorView },
}

/// The 16-bit value of a compute instruction: the fixed `111` header, the
/// 7-bit computation code, the 3-bit destination code and the 3-bit jump
/// code.
pub open spec fn c_word_val(cc: int, dc: int, jc: int) -> int {
    0b1110000000000000 + cc * 64 + dc * 8 + jc
}

/// One step of the resolve-and-encode walk, as a function of the
/// instruction and the table state.
pub open spec fn encode_one(inst: InstructionView, table: Map<Seq<char>, u16>, cursor: u16) -> EncodeOutcome {
    match inst {
        InstructionView::Address(s) => {
            if is_digits(s) {
                if dec_val(s) > 32767 {
                    EncodeOutcome::Failed { err: ErrorView::LiteralRange { literal: s } }
                } else {
                    EncodeOutcome::Emitted { word: word_bits(dec_val(s) as u16), table, cursor }
                }
            } else if table.dom().contains(s) {
                EncodeOutcome::Emitted { word: word_bits(table[s]), table, cursor }
            } else {
                EncodeOutcome::Emitted {
                    word: word_bits(cursor),
                    table: table.insert(s, cursor),
                    cursor: (cursor + 1) as u16,
                }
            }
        },
        InstructionView::Compute(d, c, j) => {
            match comp_code(c) {
                None => EncodeOutcome::Failed { err: ErrorView::UnknownMnemonic { mnemonic: c } },
                Some(cc) => match jump_code(j) {
                    None => EncodeOutcome::Failed {
                        err: ErrorView::UnknownMnemonic { mnemonic: j },
                    },
                    Some(jc) => EncodeOutcome::Emitted {
                        word: word_bits(c_word_val(cc, dest_code(d), jc) as u16),
                        table,
                        cursor,
                    },
                },
            }
        },
    }
}

/// Encodes one instruction against the symbol table and variable cursor,
/// exactly as [`encode_one`] describes: a literal address out of the 15-bit
/// range, an unknown computation mnemonic and an unknown jump mnemonic are
/// the only errors, and only the allocation of a fresh variable changes the
/// table or the cursor.
pub fn encode_instruction(instruction: &Instruction, symbol_table: &mut SymbolTable, cur_ram: &mut u16) -> (r: Result<
    String,
    RhasmError,
>)
    requires
        old(symbol_table).wf(),
        *old(cur_ram) < 0x8000,
    ensures
        final(symbol_table).wf(),
        match encode_one(instruction@, old(symbol_table)@, *old(cur_ram)) {
            EncodeOutcome::Emitted { word, table, cursor } => {
                &&& r matches Ok(s) && s@ == word
                &&& final(symbol_table)@ == table
                &&& *final(cur_ram) == cursor
            },
            EncodeOutcome::Failed { err } => {
                &&& r matches Err(e) && e@ == err
                &&& final(symbol_table)@ == old(symbol_table)@
                &&& *final(cur_ram) == *old(cur_ram)
            },
        },
{
    match instruction {
        Instruction::AInstruction(addr) => {
            if digits_str(addr.as_str()) {
                match parse_decimal(addr.as_str()) {
                    Some(v) => Ok(render_word(v)),
                    None => Err(RhasmError::LiteralRangeError { literal: addr.clone() }),
                }
            } else {
                match symbol_table.get(addr.as_str()) {
                    Some(v) => Ok(render_word(v)),
                    None => {
                        let v = *cur_ram;
                        symbol_table.insert(addr.clone(), v);
                        *cur_ram = v + 1;
                        Ok(render_word(v))
                    },
                }
            }
        },
        Instruction::CInstruction(dest, comp, jump) => {
            match get_comp_code(comp.as_str()) {
                None => Err(RhasmError::UnknownMnemonicError { mnemonic: comp.clone() }),
                Some(cc) => match get_jump_code(jump.as_str()) {
                    None => Err(RhasmError::UnknownMnemonicError { mnemonic: jump.clone() }),
                    Some(jc) => {
                        let dc = get_dest_code(dest.as_str());
                        let w: u16 = 0b1110000000000000u16 + (cc as u16) * 64 + (dc as u16) * 8 + (
                        jc as u16);
                        Ok(render_word(w))
                    },
                },
            }
        },
    }
}

} // verus!
