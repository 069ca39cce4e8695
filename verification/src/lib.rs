//! An assembler and disassembler for the Hack 16-bit instruction set.
//!
//! Source programs are classified line by line into an instruction-level
//! intermediate representation, symbols are resolved across two passes
//! (label collection, then variable allocation fused with encoding), and
//! each instruction becomes one 16-character binary word. The decoder is
//! the inverse of the encoder's tables; the disassembler is a streaming
//! wrapper around it.

pub mod assembler;
pub mod codes;
pub mod decoder;
pub mod disassembler;
pub mod encoder;
pub mod errors;
pub mod instruction;
pub mod parser;
pub mod symbols;
pub mod text;
pub mod words;

pub use assembler::Assembler;
pub use decoder::decode_instruction;
pub use disassembler::Disassembler;
pub use disassembler::DisassemblerConfig;
pub use encoder::encode_instruction;
pub use errors::DisasmError;
pub use errors::RhasmError;
pub use instruction::Instruction;
pub use symbols::SymbolTable;
