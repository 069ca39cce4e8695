//! Error taxonomy of the assembler, decoder and disassembly driver.

use vstd::prelude::*;

verus! {

/// Spec-level model of a [`RhasmError`]: the same variants over
/// mathematical values.
pub enum ErrorView {
    /// A normalized, non-empty source line matches none of the three
    /// instruction forms; carries the line number and the offending text.
    Grammar { line: int, text: Seq<char> },
    /// A numeric address operand does not fit the 15-bit address field.
    LiteralRange { literal: Seq<char> },
    /// A `comp` or `jump` mnemonic is absent from its lookup table.
    UnknownMnemonic { mnemonic: Seq<char> },
    /// Input to the decoder is not exactly 16 characters long.
    DecodeLength { found: int },
    /// Input to the decoder holds a character other than `0` or `1`.
    DecodeDigit,
    /// A 7-bit computation pattern has no inverse mapping.
    DecodeMnemonic { bits: Seq<char> },
}

/// A fatal error of the assembly or decode pipeline.
#[derive(Debug, Clone, PartialEq, Eq)]
pub enum RhasmError {
    /// A normalized, non-empty source line matches none of the three
    /// instruction forms; carries the line number and the offending text.
    GrammarError { line: usize, text: String },
    /// A numeric address operand does not fit the 15-bit address field.
    LiteralRangeError { literal: String },
    /// A `comp` or `jump` mnemonic is absent from its lookup table.
    UnknownMnemonicError { mnemonic: String },
    /// Input to the decoder is not exactly 16 characters long.
    DecodeLengthError { found: usize },
    /// Input to the decoder holds a character other than `0` or `1`.
    DecodeDigitError,
    /// A 7-bit computation pattern has no inverse mapping.
    DecodeMnemonicError { bits: String },
}

impl View for RhasmError {
    type V = ErrorView;

    open spec fn view(&self) -> ErrorView {
        match self {
            RhasmError::GrammarError { line, text } => ErrorView::Grammar {
                line: *line as int,
                text: text@,
            },
            RhasmError::LiteralRangeError { literal } => ErrorView::LiteralRange {
                literal: literal@,
            },
            RhasmError::UnknownMnemonicError { mnemonic } => ErrorView::UnknownMnemonic {
                mnemonic: mnemonic@,
            },
            RhasmError::DecodeLengthError { found } => ErrorView::DecodeLength {
                found: *found as int,
            },
            RhasmError::DecodeDigitError => ErrorView::DecodeDigit,
            RhasmError::DecodeMnemonicError { bits } => ErrorView::DecodeMnemonic { bits: bits@ },
        }
    }
}

/// An error of the streaming disassembly driver. Decode failures are not
/// fatal there: they are recorded and the run continues, so only the
/// conditions below surface as errors.
#[derive(Debug, Clone, Copy, PartialEq, Eq, Structural)]
pub enum DisasmError {
    /// Every input line has already been consumed.
    NoMoreLines,
    /// The driver was built without an output sink.
    NoWriter,
}

} // verus!
