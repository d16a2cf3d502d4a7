//! A WebAssembly module reader that turns a `.wasm` binary into a plain data
//! model: sections, function types, imports, functions with a nested
//! instruction tree, globals, memories, exports, element segments and the
//! names of the `name` custom section.
//!
//! Decoding of the binary format is done by `wasmparser`; the library checks
//! and assembles what it decodes.

pub mod error;
pub mod instr;
pub mod laws;
pub mod model;
pub mod module;
pub mod nesting;
pub mod text;
pub mod valtype;
pub mod wasm;

use vstd::prelude::*;
use crate::error::{ErrorV, ParseError};
use crate::laws::{addresses_inside, module_instrs_well_formed, sections_inside};
use crate::module::{parse, parse_spec, view_result};

pub use crate::model::{RustFunc, RustGlobal, RustInstr, RustModule};

verus! {

/// Reads a WebAssembly binary into the data model (see `module::parse`).
/// For a binary of at most `u32::MAX` bytes every recorded section lies
/// inside it, every function import, table import, global and element
/// segment covers a non-empty byte range inside it, and every instruction
/// covers a non-empty byte range inside it that starts at its opcode byte.
pub fn parse_wasm_module_native(bytes: &[u8]) -> (r: Result<RustModule, ParseError>)
    ensures
        view_result(r, parse_spec(bytes@)),
        bytes@.len() <= u32::MAX ==> (r matches Ok(m) ==> sections_inside(m@.sections, bytes@.len() as int)),
        bytes@.len() <= u32::MAX ==> (r matches Ok(m) ==> module_instrs_well_formed(bytes@, m@)),
        bytes@.len() <= u32::MAX ==> (r matches Ok(m) ==> addresses_inside(m@, bytes@.len() as int)),
{
    parse(bytes)
}

/// The number of 64 KiB pages the module's linear memory is initially
/// declared with: the `initial` field of the memory type of its first
/// memory, imported or defined; 0 when the module declares no memory. A
/// count that does not fit in 32 bits is refused.
pub fn get_initial_memory_pages(bytes: &[u8]) -> (r: Result<u32, ParseError>)
    ensures
        match parse_spec(bytes@) {
            Ok(m) => if m.initial_memory_pages <= u32::MAX {
                r == Ok::<u32, ParseError>(m.initial_memory_pages as u32)
            } else {
                r == Err::<u32, ParseError>(ParseError::InitialPagesTooLarge)
            },
            Err(f) => r matches Err(e) && crate::instr::err_is(e, f),
        },
{
    let m = parse(bytes)?;
    if m.initial_memory_pages > u32::MAX as u64 {
        return Err(ParseError::InitialPagesTooLarge);
    }
    Ok(m.initial_memory_pages as u32)
}

} // verus!
