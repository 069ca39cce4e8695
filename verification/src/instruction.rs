//! The instruction-level intermediate representation.
//!
//! Exactly one entry per non-label source line: address instructions carry
//! their literal or symbolic operand as text, compute instructions carry the
//! three mnemonic fields. Label declarations produce no entry.

use vstd::prelude::*;

verus! {

/// Spec-level model of an [`Instruction`].
pub enum InstructionView {
    /// An address instruction; the operand is a decimal literal or a
    /// symbolic name.
    Address(Seq<char>),
    /// A compute instruction: destination, computation and jump mnemonics
    /// (destination and jump possibly empty).
    Compute(Seq<char>, Seq<char>, Seq<char>),
}

/// One entry of the intermediate representation.
#[derive(Clone, Debug, PartialEq)]
pub enum Instruction {
    /// An address instruction; holds the address or symbol text.
    AInstruction(String),
    /// A compute instruction; holds the destination, computation and jump
    /// mnemonics, respectively.
    CInstruction(String, String, String),
}

impl View for Instruction {
    type V = InstructionView;

    open spec fn view(&self) -> InstructionView {
        match self {
            Instruction::AInstruction(s) => InstructionView::Address(s@),
            Instruction::CInstruction(d, c, j) => InstructionView::Compute(d@, c@, j@),
        }
    }
}

/// The models of a sequence of instructions.
pub open spec fn ir_view(v: Seq<Instruction>) -> Seq<InstructionView> {
    v.map_values(|inst: Instruction| inst@)
}

} // verus!
