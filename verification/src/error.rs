//! Why a module could not be read.

use vstd::prelude::*;

verus! {

/// The reasons the parser gives up on a module.
#[derive(Debug)]
pub enum ParseError {
    /// `wasmparser` could not decode the binary; its message.
    Decode(String),
    /// A reference type other than `funcref` and `externref`, with its
    /// `Debug` text as `wasmparser` prints it.
    UnsupportedRefType(String),
    /// A `v128` value type (SIMD is not supported).
    SimdType,
    /// A block type given as a type index (multi-value blocks).
    MultiValueBlockType,
    /// A type section entry that is not a function type, with the `Debug`
    /// text of what `wasmparser` decodes.
    UnsupportedTypeEntry(String),
    /// An `else` that does not belong to an open `if`.
    ElseOutsideIf,
    /// The `block`/`loop`/`if` structure of an instruction stream is not closed.
    Unbalanced,
    /// An instruction the data model has no place for, with the `Debug`
    /// text of the operator as `wasmparser` decodes it.
    UnsupportedInstruction { opcode: u32, sub_opcode: Option<u32>, text: String },
    /// A `block`, `loop`, `if` or `else` handed to the decoder of single
    /// instructions (only the frame stack handles these), with the `Debug`
    /// text of the operator.
    StructuralOperator { opcode: u32, text: String },
    /// The code section has more entries than the function section.
    CodeWithoutFunction,
    /// A function refers to a type index that the type section lacks.
    UnknownTypeIndex(u32),
    /// The local declarations of a function add up to more than `u32::MAX`.
    TooManyLocals,
    /// A section holds bytes after its last item.
    SectionSizeMismatch,
    /// The initial page count of the first memory does not fit in 32 bits.
    InitialPagesTooLarge,
}

/// A `ParseError` as a plain value: the message of a decoder error as its
/// characters.
pub enum ErrorV {
    Decode(Seq<char>),
    UnsupportedRefType(Seq<char>),
    SimdType,
    MultiValueBlockType,
    UnsupportedTypeEntry(Seq<char>),
    ElseOutsideIf,
    Unbalanced,
    UnsupportedInstruction { opcode: u32, sub_opcode: Option<u32>, text: Seq<char> },
    StructuralOperator { opcode: u32, text: Seq<char> },
    CodeWithoutFunction,
    UnknownTypeIndex(u32),
    TooManyLocals,
    SectionSizeMismatch,
    InitialPagesTooLarge,
}

impl View for ParseError {
    type V = ErrorV;

    open spec fn view(&self) -> ErrorV {
        match self {
            ParseError::Decode(m) => ErrorV::Decode(m@),
            ParseError::UnsupportedRefType(t) => ErrorV::UnsupportedRefType(t@),
            ParseError::SimdType => ErrorV::SimdType,
            ParseError::MultiValueBlockType => ErrorV::MultiValueBlockType,
            ParseError::UnsupportedTypeEntry(t) => ErrorV::UnsupportedTypeEntry(t@),
            ParseError::ElseOutsideIf => ErrorV::ElseOutsideIf,
            ParseError::Unbalanced => ErrorV::Unbalanced,
            ParseError::UnsupportedInstruction { opcode, sub_opcode, text } => ErrorV::UnsupportedInstruction {
                opcode: *opcode,
                sub_opcode: *sub_opcode,
                text: text@,
            },
            ParseError::StructuralOperator { opcode, text } => ErrorV::StructuralOperator { opcode: *opcode, text: text@ },
            ParseError::CodeWithoutFunction => ErrorV::CodeWithoutFunction,
            ParseError::UnknownTypeIndex(i) => ErrorV::UnknownTypeIndex(*i),
            ParseError::TooManyLocals => ErrorV::TooManyLocals,
            ParseError::SectionSizeMismatch => ErrorV::SectionSizeMismatch,
            ParseError::InitialPagesTooLarge => ErrorV::InitialPagesTooLarge,
        }
    }
}

} // verus!
