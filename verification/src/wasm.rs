//! The calls into `wasmparser`, the decoder of the WebAssembly binary
//! format, and the plain values they hand back.
//!
//! Every reading function here starts a `wasmparser::BinaryReader` on the
//! bytes `bytes[pos..end]` (reporting offsets as absolute positions), lets
//! `wasmparser` decode one item there, and converts what it decoded into
//! plain values of this library together with the absolute position right
//! after the item. What `wasmparser` decodes is a function of those bytes
//! alone; each function's result is therefore stated as a named function of
//! `(bytes, pos, end)`.

use vstd::prelude::*;
use crate::valtype::ValTy;
use wasmparser::{
    BinaryReader, CustomSectionReader, Element, ElementItems, ElementKind,
    Encoding, Export, ExternalKind, FromReader, FunctionBody, Global, Imports, MemoryType, Name,
    NameMap, NameSectionReader, OperatorsReader, Parser, Payload, RecGroup, ValType,
};
use wasmparser::ValType::{F32, F64, I32, I64, Ref, V128};
use crate::valtype::ValTy::{F32 as VF32, F64 as VF64, I32 as VI32, I64 as VI64, Ref as VRef, V128 as VV128};
use wasmparser::TypeRef::{Func, FuncExact, Memory, Table};
use wasmparser::CompositeInnerType::Func as CompFunc;
use wasmparser::Payload::{CodeSectionEntry, CodeSectionStart, ComponentSection, ModuleSection, Version};

verus! {

/// One step of `wasmparser`'s walk over a binary, reduced to what this
/// library uses.
#[derive(Debug, Clone, Copy)]
pub enum PayloadInfo {
    /// A module or component header.
    Version { component: bool },
    /// A section with its id and the byte range of its contents.
    Section { id: u8, start: u64, end: u64 },
    /// The start of the code section, with the byte range its header
    /// declares (not checked against the binary until the bodies are read).
    CodeStart { start: u64, end: u64 },
    /// One function body of the code section, with its byte range.
    CodeEntry { start: u64, end: u64 },
    /// The end of a module or component.
    End,
    /// Anything else.
    Other,
}

/// The memory type of a linear memory.
#[derive(Debug, Clone, Copy)]
pub struct MemTy {
    pub memory64: bool,
    pub shared: bool,
    pub initial: u64,
    pub maximum: Option<u64>,
}

impl MemTy {
    /// The memory type with these flags and limits.
    pub fn new(memory64: bool, shared: bool, initial: u64, maximum: Option<u64>) -> (r: MemTy)
        ensures
            r == (MemTy { memory64, shared, initial, maximum }),
    {
        MemTy { memory64, shared, initial, maximum }
    }
}

/// What an import brings in.
#[derive(Debug, Clone, Copy)]
pub enum ImportTy {
    /// A function (also one of exact type) with its type index.
    Func(u32),
    Table,
    Memory(MemTy),
    /// A global or a tag.
    Other,
}

/// One import: the byte offset at which `wasmparser` reports it, its module
/// name, its field name and what it imports.
pub type ImportEntry = (u64, String, String, ImportTy);

/// What an export exposes.
#[derive(Debug, Clone, Copy, PartialEq, Eq, Structural)]
pub enum ExportKind {
    Func,
    FuncExact,
    Table,
    Memory,
    Global,
    Tag,
}

/// One entry of a recursion group of the type section.
#[derive(Debug)]
pub enum TypeEntry {
    /// A function type: its parameter and result types.
    Func(Vec<ValTy>, Vec<ValTy>),
    /// Any other composite type, as the `Debug` text of what `wasmparser`
    /// decodes.
    Other(String),
}

/// An element segment: the table of an active segment (`None` for passive
/// and declared ones), whether its items are expressions, the byte range of
/// its item list, and its own byte range.
#[derive(Debug, Clone, Copy)]
pub struct ElementInfo {
    pub active_table: Option<Option<u32>>,
    pub exprs: bool,
    pub items_start: u64,
    pub items_end: u64,
    pub start: u64,
    pub end: u64,
}

/// An entry of a name map as `wasmparser` yields it: an index and its
/// name, or the message of the error that stopped the map.
pub type NamingItem = Result<(u32, String), String>;

/// A subsection of the `name` custom section: the function names, the
/// local names (per function), or another kind.
pub enum NameSub {
    Function(Vec<NamingItem>),
    Local(Vec<Result<(u32, Vec<NamingItem>), String>>),
    Other,
}

/// A name-map entry as a plain value (an error as its message).
pub type NamingV = Result<(u32, Seq<char>), Seq<char>>;

/// A subsection of the `name` section as a plain value.
pub enum NameSubV {
    Function(Seq<NamingV>),
    Local(Seq<Result<(u32, Seq<NamingV>), Seq<char>>>),
    Other,
}

pub open spec fn naming_v(x: NamingItem) -> NamingV {
    match x {
        Ok((i, s)) => Ok((i, s@)),
        Err(m) => Err(m@),
    }
}

pub open spec fn namings_v(v: Seq<NamingItem>) -> Seq<NamingV> {
    v.map_values(|x: NamingItem| naming_v(x))
}

pub open spec fn indirect_v(x: Result<(u32, Vec<NamingItem>), String>) -> Result<(u32, Seq<NamingV>), Seq<char>> {
    match x {
        Ok((i, v)) => Ok((i, namings_v(v@))),
        Err(m) => Err(m@),
    }
}

pub open spec fn name_sub_v(n: NameSub) -> NameSubV {
    match n {
        NameSub::Function(v) => NameSubV::Function(namings_v(v@)),
        NameSub::Local(v) => NameSubV::Local(v@.map_values(|x: Result<(u32, Vec<NamingItem>), String>| indirect_v(x))),
        NameSub::Other => NameSubV::Other,
    }
}

pub open spec fn name_subs_v(v: Seq<Result<NameSub, String>>) -> Seq<Result<NameSubV, Seq<char>>> {
    v.map_values(|x: Result<NameSub, String>| match x {
        Ok(n) => Ok(name_sub_v(n)),
        Err(m) => Err(m@),
    })
}

/// The payloads `wasmparser::Parser::parse_all` yields for a binary (the
/// error that ends the walk as its message).
pub uninterp spec fn wasm_payloads(bytes: Seq<u8>) -> Seq<Result<PayloadInfo, Seq<char>>>;

/// The local declarations of a function body as `FunctionBody`'s locals
/// reader yields them (the error that ends them as its message), and where
/// its operators start.
pub uninterp spec fn wasm_locals(bytes: Seq<u8>, pos: int, end: int) -> (Seq<Result<(u32, ValTy), Seq<char>>>, Result<int, Seq<char>>);

/// A LEB128 `u32` as `BinaryReader::read_var_u32` decodes it, with the
/// position after it.
pub uninterp spec fn wasm_var_u32(bytes: Seq<u8>, pos: int, end: int) -> Result<(u32, int), Seq<char>>;

/// A LEB128 `u64` as `BinaryReader::read_var_u64` decodes it.
pub uninterp spec fn wasm_var_u64(bytes: Seq<u8>, pos: int, end: int) -> Result<(u64, int), Seq<char>>;

/// A signed LEB128 `i32` as `BinaryReader::read_var_i32` decodes it.
pub uninterp spec fn wasm_var_i32(bytes: Seq<u8>, pos: int, end: int) -> Result<(i32, int), Seq<char>>;

/// A signed LEB128 `i64` as `BinaryReader::read_var_i64` decodes it.
pub uninterp spec fn wasm_var_i64(bytes: Seq<u8>, pos: int, end: int) -> Result<(i64, int), Seq<char>>;

/// A byte as `BinaryReader::read_u8` reads it.
pub uninterp spec fn wasm_u8(bytes: Seq<u8>, pos: int, end: int) -> Result<(u8, int), Seq<char>>;

/// The bits of a 32-bit float as `BinaryReader::read_f32` reads it.
pub uninterp spec fn wasm_f32(bytes: Seq<u8>, pos: int, end: int) -> Result<(u32, int), Seq<char>>;

/// The bits of a 64-bit float as `BinaryReader::read_f64` reads it.
pub uninterp spec fn wasm_f64(bytes: Seq<u8>, pos: int, end: int) -> Result<(u64, int), Seq<char>>;

/// A value type as `ValType::from_reader` decodes it.
pub uninterp spec fn wasm_val_type(bytes: Seq<u8>, pos: int, end: int) -> Result<(ValTy, int), Seq<char>>;

/// A recursion group as `RecGroup::from_reader` decodes it.
pub uninterp spec fn wasm_rec_group(bytes: Seq<u8>, pos: int, end: int) -> Result<(Seq<TypeEntry>, int), Seq<char>>;

/// An import-section item as `Imports::from_reader` decodes it, flattened
/// into its imports.
pub uninterp spec fn wasm_imports(bytes: Seq<u8>, pos: int, end: int) -> Result<(Seq<ImportEntry>, int), Seq<char>>;

/// A memory type as `MemoryType::from_reader` decodes it.
pub uninterp spec fn wasm_memory_type(bytes: Seq<u8>, pos: int, end: int) -> Result<(MemTy, int), Seq<char>>;

/// A global as `Global::from_reader` decodes it: content type, mutability
/// and the byte range of the initializer expression.
pub uninterp spec fn wasm_global(bytes: Seq<u8>, pos: int, end: int) -> Result<(ValTy, bool, u64, u64, int), Seq<char>>;

/// A constant expression as `ConstExpr::from_reader` decodes it: its byte range.
pub uninterp spec fn wasm_const_expr(bytes: Seq<u8>, pos: int, end: int) -> Result<(u64, u64, int), Seq<char>>;

/// An export as `Export::from_reader` decodes it.
pub uninterp spec fn wasm_export(bytes: Seq<u8>, pos: int, end: int) -> Result<(Seq<char>, ExportKind, u32, int), Seq<char>>;

/// An element segment as `Element::from_reader` decodes it.
pub uninterp spec fn wasm_element(bytes: Seq<u8>, pos: int, end: int) -> Result<(ElementInfo, int), Seq<char>>;

/// The name of a custom section and where its data starts, as
/// `CustomSectionReader::new` decodes them.
pub uninterp spec fn wasm_custom_header(bytes: Seq<u8>, pos: int, end: int) -> Result<(Seq<char>, u64), Seq<char>>;

/// The subsections of a `name` section's data `bytes[pos..end]` as
/// `NameSectionReader` yields them.
pub uninterp spec fn wasm_name_section(bytes: Seq<u8>, pos: int, end: int) -> Seq<Result<NameSubV, Seq<char>>>;

/// The `Debug` text of the operator at `pos`, as `OperatorsReader::read`
/// decodes it, or its error message.
pub uninterp spec fn wasm_operator_text(bytes: Seq<u8>, pos: int, end: int) -> Result<Seq<char>, Seq<char>>;

/// The offsets of the operators `OperatorsReader` reads from an instruction
/// stream.
pub uninterp spec fn wasm_operator_offsets(bytes: Seq<u8>, pos: int, end: int) -> Result<Seq<u64>, Seq<char>>;

/// Every name below gives a read that fails as the message of
/// `wasmparser`'s error (its `Display` text, `"<message> (at offset
/// 0x<offset>)"`), which the reading functions hand back as a `String`.

/// A payload whose byte range lies inside a binary of `len` bytes.
pub open spec fn payload_in(p: PayloadInfo, len: int) -> bool {
    match p {
        PayloadInfo::Section { start, end, .. } => start <= end <= len,
        PayloadInfo::CodeStart { start, end } => start <= end <= len,
        PayloadInfo::CodeEntry { start, end } => start <= end <= len,
        _ => true,
    }
}

/// Walks a whole binary with `wasmparser::Parser::parse_all` (which also
/// descends into the modules and components nested in a component) and
/// reduces each payload to a `PayloadInfo`: the code section start and its
/// bodies by their ranges, the sections of a component that nest a module
/// or component as `Other`, the other sections by `Payload::as_section`;
/// an error as its message. Claims: the result is `wasm_payloads(bytes)`;
/// the range of every section and function body lies inside the binary,
/// since `wasmparser` reads them whole before reporting them; the range the
/// code section's header declares does too when no payload is an error,
/// since the walk fails when the bodies run past the end of the binary.
#[verifier::external_body]
pub(crate) fn module_payloads(bytes: &[u8]) -> (r: Vec<Result<PayloadInfo, String>>)
    ensures
        r@.len() == wasm_payloads(bytes@).len(),
        forall|k: int| 0 <= k < r@.len() ==> match #[trigger] r@[k] {
            Ok(p) => wasm_payloads(bytes@)[k] == Ok::<PayloadInfo, Seq<char>>(p) && (!(p is CodeStart) ==> payload_in(p, bytes@.len() as int)),
            Err(m) => wasm_payloads(bytes@)[k] == Err::<PayloadInfo, Seq<char>>(m@),
        },
        (forall|k: int| 0 <= k < r@.len() ==> #[trigger] r@[k] is Ok) ==>
            forall|k: int| 0 <= k < r@.len() ==> (#[trigger] r@[k] matches Ok(p) ==> payload_in(p, bytes@.len() as int)),
{
    Parser::new(0).parse_all(bytes).map(|p| p.map_err(|e| e.to_string()).map(|p| match p {
        Version { encoding, .. } => PayloadInfo::Version { component: encoding == Encoding::Component },
        Payload::End(_) => PayloadInfo::End,
        CodeSectionStart { unchecked_range: r, .. } => PayloadInfo::CodeStart { start: r.start, end: r.end },
        CodeSectionEntry(b) => PayloadInfo::CodeEntry { start: b.range().start, end: b.range().end },
        ModuleSection { .. } | ComponentSection { .. } => PayloadInfo::Other,
        p => match p.as_section() {
            Some((id, r)) => PayloadInfo::Section { id, start: r.start, end: r.end },
            None => PayloadInfo::Other,
        },
    })).collect()
}

/// The local declarations of the function body `bytes[pos..end]`
/// (`FunctionBody::get_locals_reader` and its iterator, which stops after
/// an error) and the position of its first operator
/// (`FunctionBody::get_binary_reader_for_operators`); errors as their
/// messages. Claims: the result is `wasm_locals`, and the operators start
/// after `pos` and by `end`.
#[verifier::external_body]
pub(crate) fn read_locals(bytes: &[u8], pos: usize, end: usize) -> (r: (Vec<Result<(u32, ValTy), String>>, Result<usize, String>))
    requires
        pos <= end <= bytes.len(),
    ensures
        r.0@.len() == wasm_locals(bytes@, pos as int, end as int).0.len(),
        forall|k: int| 0 <= k < r.0@.len() ==> match #[trigger] r.0@[k] {
            Ok(x) => wasm_locals(bytes@, pos as int, end as int).0[k] == Ok::<(u32, ValTy), Seq<char>>(x),
            Err(m) => wasm_locals(bytes@, pos as int, end as int).0[k] == Err::<(u32, ValTy), Seq<char>>(m@),
        },
        match r.1 {
            Ok(p) => wasm_locals(bytes@, pos as int, end as int).1 == Ok::<int, Seq<char>>(p as int) && pos < p <= end,
            Err(m) => wasm_locals(bytes@, pos as int, end as int).1 == Err::<int, Seq<char>>(m@),
        },
{
    let body = FunctionBody::new(BinaryReader::new(&bytes[pos..end], pos as u64));
    let items = body.get_locals_reader().map_or_else(|e| vec![Err(e)], |l| l.into_iter().collect());
    let ops = body.get_binary_reader_for_operators().map(|b| b.original_position() as usize);
    (items.into_iter().map(|i| i.map_err(|e| e.to_string()).map(|(c, t)| (c, match t {
        I32 => VI32, I64 => VI64, F32 => VF32, F64 => VF64, V128 => VV128,
        Ref(r) => VRef(r.is_func_ref(), r.is_extern_ref(), format!("{r:?}")),
    }))).collect(), ops.map_err(|e| e.to_string()))
}

/// `128^k`.
pub open spec fn pow128(k: nat) -> int
    decreases k,
{
    if k == 0 { 1 } else { 128 * pow128((k - 1) as nat) }
}

/// The low seven bits of the `n` bytes from `pos`, least significant group
/// first.
pub open spec fn leb_bits(bytes: Seq<u8>, pos: int, n: nat) -> int
    decreases n,
{
    if n == 0 {
        0
    } else {
        leb_bits(bytes, pos, (n - 1) as nat) + (bytes[pos + n - 1] % 128) as int * pow128((n - 1) as nat)
    }
}

/// How many bytes a LEB128 number at `pos` takes when read from byte `i`
/// on, at most `max` bytes and none at or after `end`: it ends with the
/// first byte below 0x80; byte `max - 1`, if reached, must be at most `lo`
/// or in `hi..0x80`. `None` where the bytes run out or that byte is refused.
pub open spec fn leb_len(bytes: Seq<u8>, pos: int, end: int, i: nat, max: nat, lo: int, hi: int) -> Option<nat>
    decreases max - i,
{
    if i >= max || pos + i >= end {
        None
    } else if i + 1 == max {
        let b = bytes[pos + i];
        if b <= lo || (hi <= b && b < 128) { Some(max) } else { None }
    } else if bytes[pos + i] < 128 {
        Some(i + 1)
    } else {
        leb_len(bytes, pos, end, i + 1, max, lo, hi)
    }
}

/// The unsigned LEB128 number at `pos` of at most `max` bytes, the last
/// of which may be at most `lo`, and the position after it.
pub open spec fn leb_unsigned(bytes: Seq<u8>, pos: int, end: int, max: nat, lo: int) -> Option<(int, int)> {
    match leb_len(bytes, pos, end, 0, max, lo, 128) {
        Some(n) => Some((leb_bits(bytes, pos, n), pos + n)),
        None => None,
    }
}

/// The signed LEB128 number at `pos` of at most `max` bytes, the last of
/// which may be at most `lo` or in `hi..0x80` (its sign taken from bit 6 of
/// its last byte), and the position after it.
pub open spec fn leb_signed(bytes: Seq<u8>, pos: int, end: int, max: nat, lo: int, hi: int) -> Option<(int, int)> {
    match leb_len(bytes, pos, end, 0, max, lo, hi) {
        Some(n) => Some((
            leb_bits(bytes, pos, n) - if bytes[pos + n - 1] >= 64 { pow128(n) } else { 0 },
            pos + n,
        )),
        None => None,
    }
}

/// What `read_var_u32` gives at `pos`: the value of the LEB128 number
/// there and the position after it, or the decoder's message.
pub open spec fn var_u32_at(bytes: Seq<u8>, pos: int, end: int) -> Result<(u32, int), Seq<char>> {
    match leb_unsigned(bytes, pos, end, 5, 15) {
        Some((v, q)) => Ok((v as u32, q)),
        None => Err(wasm_var_u32(bytes, pos, end)->Err_0),
    }
}

/// What `read_var_u64` gives at `pos`.
pub open spec fn var_u64_at(bytes: Seq<u8>, pos: int, end: int) -> Result<(u64, int), Seq<char>> {
    match leb_unsigned(bytes, pos, end, 10, 1) {
        Some((v, q)) => Ok((v as u64, q)),
        None => Err(wasm_var_u64(bytes, pos, end)->Err_0),
    }
}

/// What `read_var_i32` gives at `pos`.
pub open spec fn var_i32_at(bytes: Seq<u8>, pos: int, end: int) -> Result<(i32, int), Seq<char>> {
    match leb_signed(bytes, pos, end, 5, 7, 0x78) {
        Some((v, q)) => Ok((v as i32, q)),
        None => Err(wasm_var_i32(bytes, pos, end)->Err_0),
    }
}

/// What `read_var_i64` gives at `pos`.
pub open spec fn var_i64_at(bytes: Seq<u8>, pos: int, end: int) -> Result<(i64, int), Seq<char>> {
    match leb_signed(bytes, pos, end, 10, 0, 0x7f) {
        Some((v, q)) => Ok((v as i64, q)),
        None => Err(wasm_var_i64(bytes, pos, end)->Err_0),
    }
}

/// The little-endian number of the `n` bytes from `pos`.
pub open spec fn le_value(bytes: Seq<u8>, pos: int, n: nat) -> int
    decreases n,
{
    if n == 0 { 0 } else { bytes[pos] as int + 256 * le_value(bytes, pos + 1, (n - 1) as nat) }
}

/// What `read_u8` gives at `pos`: the byte there and the position after
/// it, or the decoder's message when `pos` is at `end`.
pub open spec fn u8_at(bytes: Seq<u8>, pos: int, end: int) -> Result<(u8, int), Seq<char>> {
    if pos < end { Ok((bytes[pos], pos + 1)) } else { Err(wasm_u8(bytes, pos, end)->Err_0) }
}

/// What `read_f32` gives at `pos`: the bits of the float, the four bytes
/// there read little-endian, and the position after them.
pub open spec fn f32_at(bytes: Seq<u8>, pos: int, end: int) -> Result<(u32, int), Seq<char>> {
    if pos + 4 <= end { Ok((le_value(bytes, pos, 4) as u32, pos + 4)) } else { Err(wasm_f32(bytes, pos, end)->Err_0) }
}

/// What `read_f64` gives at `pos`: the bits of the float, the eight bytes
/// there read little-endian, and the position after them.
pub open spec fn f64_at(bytes: Seq<u8>, pos: int, end: int) -> Result<(u64, int), Seq<char>> {
    if pos + 8 <= end { Ok((le_value(bytes, pos, 8) as u64, pos + 8)) } else { Err(wasm_f64(bytes, pos, end)->Err_0) }
}

/// `BinaryReader::read_var_u32` at `pos`, an error as its message. Claims:
/// the result is `wasm_var_u32`; it succeeds exactly on an unsigned LEB128
/// number of at most five bytes before `end` whose fifth byte, if any, is
/// below 16, and gives its value and the position after it.
#[verifier::external_body]
pub(crate) fn read_var_u32(bytes: &[u8], pos: usize, end: usize) -> (r: Result<(u32, usize), String>)
    requires
        pos <= end <= bytes.len(),
    ensures
        match r {
            Ok((v, next)) => wasm_var_u32(bytes@, pos as int, end as int) == Ok::<(u32, int), Seq<char>>((v, next as int))
                && pos < next <= end && leb_unsigned(bytes@, pos as int, end as int, 5, 15) == Some((v as int, next as int)),
            Err(m) => wasm_var_u32(bytes@, pos as int, end as int) == Err::<(u32, int), Seq<char>>(m@)
                && leb_unsigned(bytes@, pos as int, end as int, 5, 15) is None,
        },
{
    let mut reader = BinaryReader::new(&bytes[pos..end], pos as u64);
    let v = reader.read_var_u32().map_err(|e| e.to_string())?;
    Ok((v, reader.original_position() as usize))
}

/// `BinaryReader::read_var_u64` at `pos`; as `read_var_u32`, with at most
/// ten bytes, the tenth at most 1.
#[verifier::external_body]
pub(crate) fn read_var_u64(bytes: &[u8], pos: usize, end: usize) -> (r: Result<(u64, usize), String>)
    requires
        pos <= end <= bytes.len(),
    ensures
        match r {
            Ok((v, next)) => wasm_var_u64(bytes@, pos as int, end as int) == Ok::<(u64, int), Seq<char>>((v, next as int))
                && pos < next <= end && leb_unsigned(bytes@, pos as int, end as int, 10, 1) == Some((v as int, next as int)),
            Err(m) => wasm_var_u64(bytes@, pos as int, end as int) == Err::<(u64, int), Seq<char>>(m@)
                && leb_unsigned(bytes@, pos as int, end as int, 10, 1) is None,
        },
{
    let mut reader = BinaryReader::new(&bytes[pos..end], pos as u64);
    let v = reader.read_var_u64().map_err(|e| e.to_string())?;
    Ok((v, reader.original_position() as usize))
}

/// `BinaryReader::read_var_i32` at `pos`; as `read_var_u32`, for a signed
/// LEB128 number of at most five bytes, the fifth at most 7 or in
/// `0x78..0x80`.
#[verifier::external_body]
pub(crate) fn read_var_i32(bytes: &[u8], pos: usize, end: usize) -> (r: Result<(i32, usize), String>)
    requires
        pos <= end <= bytes.len(),
    ensures
        match r {
            Ok((v, next)) => wasm_var_i32(bytes@, pos as int, end as int) == Ok::<(i32, int), Seq<char>>((v, next as int))
                && pos < next <= end && leb_signed(bytes@, pos as int, end as int, 5, 7, 0x78) == Some((v as int, next as int)),
            Err(m) => wasm_var_i32(bytes@, pos as int, end as int) == Err::<(i32, int), Seq<char>>(m@)
                && leb_signed(bytes@, pos as int, end as int, 5, 7, 0x78) is None,
        },
{
    let mut reader = BinaryReader::new(&bytes[pos..end], pos as u64);
    let v = reader.read_var_i32().map_err(|e| e.to_string())?;
    Ok((v, reader.original_position() as usize))
}

/// `BinaryReader::read_var_i64` at `pos`; as `read_var_u32`, for a signed
/// LEB128 number of at most ten bytes, the tenth 0 or 0x7f.
#[verifier::external_body]
pub(crate) fn read_var_i64(bytes: &[u8], pos: usize, end: usize) -> (r: Result<(i64, usize), String>)
    requires
        pos <= end <= bytes.len(),
    ensures
        match r {
            Ok((v, next)) => wasm_var_i64(bytes@, pos as int, end as int) == Ok::<(i64, int), Seq<char>>((v, next as int))
                && pos < next <= end && leb_signed(bytes@, pos as int, end as int, 10, 0, 0x7f) == Some((v as int, next as int)),
            Err(m) => wasm_var_i64(bytes@, pos as int, end as int) == Err::<(i64, int), Seq<char>>(m@)
                && leb_signed(bytes@, pos as int, end as int, 10, 0, 0x7f) is None,
        },
{
    let mut reader = BinaryReader::new(&bytes[pos..end], pos as u64);
    let v = reader.read_var_i64().map_err(|e| e.to_string())?;
    Ok((v, reader.original_position() as usize))
}

/// `BinaryReader::read_u8` at `pos`, an error as its message. Claims: the
/// result is `wasm_u8`; it succeeds exactly when `pos` is before `end`, with
/// the byte at `pos`.
#[verifier::external_body]
pub(crate) fn read_u8(bytes: &[u8], pos: usize, end: usize) -> (r: Result<(u8, usize), String>)
    requires
        pos <= end <= bytes.len(),
    ensures
        match r {
            Ok((v, next)) => wasm_u8(bytes@, pos as int, end as int) == Ok::<(u8, int), Seq<char>>((v, next as int))
                && pos < end && v == bytes@[pos as int] && next == pos + 1,
            Err(m) => wasm_u8(bytes@, pos as int, end as int) == Err::<(u8, int), Seq<char>>(m@) && pos == end,
        },
{
    let mut reader = BinaryReader::new(&bytes[pos..end], pos as u64);
    let v = reader.read_u8().map_err(|e| e.to_string())?;
    Ok((v, reader.original_position() as usize))
}

/// `BinaryReader::read_f32` at `pos`, the float by its bits, an error as
/// its message. Claims: the result is `wasm_f32`; it succeeds exactly when
/// four bytes remain before `end`, with those bytes read little-endian.
#[verifier::external_body]
pub(crate) fn read_f32(bytes: &[u8], pos: usize, end: usize) -> (r: Result<(u32, usize), String>)
    requires
        pos <= end <= bytes.len(),
    ensures
        match r {
            Ok((v, next)) => wasm_f32(bytes@, pos as int, end as int) == Ok::<(u32, int), Seq<char>>((v, next as int))
                && pos + 4 <= end && v == le_value(bytes@, pos as int, 4) && next == pos + 4,
            Err(m) => wasm_f32(bytes@, pos as int, end as int) == Err::<(u32, int), Seq<char>>(m@) && end < pos + 4,
        },
{
    let mut reader = BinaryReader::new(&bytes[pos..end], pos as u64);
    let v = reader.read_f32().map(|f| f.bits()).map_err(|e| e.to_string())?;
    Ok((v, reader.original_position() as usize))
}

/// `BinaryReader::read_f64` at `pos`, the float by its bits, an error as
/// its message. Claims: the result is `wasm_f64`; it succeeds exactly when
/// eight bytes remain before `end`, with those bytes read little-endian.
#[verifier::external_body]
pub(crate) fn read_f64(bytes: &[u8], pos: usize, end: usize) -> (r: Result<(u64, usize), String>)
    requires
        pos <= end <= bytes.len(),
    ensures
        match r {
            Ok((v, next)) => wasm_f64(bytes@, pos as int, end as int) == Ok::<(u64, int), Seq<char>>((v, next as int))
                && pos + 8 <= end && v == le_value(bytes@, pos as int, 8) && next == pos + 8,
            Err(m) => wasm_f64(bytes@, pos as int, end as int) == Err::<(u64, int), Seq<char>>(m@) && end < pos + 8,
        },
{
    let mut reader = BinaryReader::new(&bytes[pos..end], pos as u64);
    let v = reader.read_f64().map(|f| f.bits()).map_err(|e| e.to_string())?;
    Ok((v, reader.original_position() as usize))
}

/// `ValType::from_reader` at `pos`, the decoded type told apart by variant
/// and, for a reference type, by `RefType::is_func_ref` and
/// `RefType::is_extern_ref`; an error as its message. Claims: the result is
/// `wasm_val_type`, and it ends after `pos` and by `end`.
#[verifier::external_body]
pub(crate) fn read_val_type(bytes: &[u8], pos: usize, end: usize) -> (r: Result<(ValTy, usize), String>)
    requires
        pos <= end <= bytes.len(),
    ensures
        match r {
            Ok((v, next)) => wasm_val_type(bytes@, pos as int, end as int) == Ok::<(ValTy, int), Seq<char>>((v, next as int))
                && pos < next <= end,
            Err(m) => wasm_val_type(bytes@, pos as int, end as int) == Err::<(ValTy, int), Seq<char>>(m@),
        },
{
    let mut reader = BinaryReader::new(&bytes[pos..end], pos as u64);
    let v = match ValType::from_reader(&mut reader).map_err(|e| e.to_string())? {
        I32 => VI32, I64 => VI64, F32 => VF32, F64 => VF64, V128 => VV128,
        Ref(r) => VRef(r.is_func_ref(), r.is_extern_ref(), format!("{r:?}")),
    };
    Ok((v, reader.original_position() as usize))
}

/// `RecGroup::from_reader` at `pos`; each sub type becomes a `TypeEntry`
/// (the parameter and result types of a function type, `Other` with the
/// `Debug` text of any other composite type); an error as its message. Claims: the result is
/// `wasm_rec_group`, ending after `pos` and by `end`.
#[verifier::external_body]
pub(crate) fn read_rec_group(bytes: &[u8], pos: usize, end: usize) -> (r: Result<(Vec<TypeEntry>, usize), String>)
    requires
        pos <= end <= bytes.len(),
    ensures
        match r {
            Ok((v, next)) => wasm_rec_group(bytes@, pos as int, end as int) == Ok::<(Seq<TypeEntry>, int), Seq<char>>((v@, next as int))
                && pos < next <= end,
            Err(m) => wasm_rec_group(bytes@, pos as int, end as int) == Err::<(Seq<TypeEntry>, int), Seq<char>>(m@),
        },
{
    let mut reader = BinaryReader::new(&bytes[pos..end], pos as u64);
    let cv = |t: &ValType| match t {
        I32 => VI32, I64 => VI64, F32 => VF32, F64 => VF64, V128 => VV128,
        Ref(r) => VRef(r.is_func_ref(), r.is_extern_ref(), format!("{r:?}")),
    };
    Ok((RecGroup::from_reader(&mut reader).map_err(|e| e.to_string())?.into_types().map(|t| match t.composite_type.inner {
        CompFunc(f) => TypeEntry::Func(f.params().iter().map(cv).collect(), f.results().iter().map(cv).collect()),
        other => TypeEntry::Other(format!("{other:?}")),
    }).collect(), reader.original_position() as usize))
}

/// `Imports::from_reader` at `pos`, flattened into its imports with their
/// offsets as `Imports::into_iter` yields them (one for a single import,
/// one per item of a compact group); an error as its message. Claims: the
/// result is `wasm_imports`, ending after `pos` and by `end`; the offsets
/// lie in `pos..next` and increase, since every import starts where the
/// one before it ended.
#[verifier::external_body]
pub(crate) fn read_imports(bytes: &[u8], pos: usize, end: usize) -> (r: Result<(Vec<ImportEntry>, usize), String>)
    requires
        pos <= end <= bytes.len(),
    ensures
        match r {
            Ok((v, next)) => wasm_imports(bytes@, pos as int, end as int) == Ok::<(Seq<ImportEntry>, int), Seq<char>>((v@, next as int))
                && pos < next <= end
                && (forall|k: int| 0 <= k < v@.len() ==> pos <= (#[trigger] v@[k]).0 < next)
                && (forall|j: int, k: int| 0 <= j < k < v@.len() ==> v@[j].0 < v@[k].0),
            Err(m) => wasm_imports(bytes@, pos as int, end as int) == Err::<(Seq<ImportEntry>, int), Seq<char>>(m@),
        },
{
    let mut reader = BinaryReader::new(&bytes[pos..end], pos as u64);
    let v = Imports::from_reader(&mut reader).and_then(|g| g.into_iter().map(|i| i.map(|(o, i)| (o, i.module.to_string(), i.name.to_string(), match i.ty {
        Func(t) | FuncExact(t) => ImportTy::Func(t), Table(_) => ImportTy::Table,
        Memory(m) => ImportTy::Memory(MemTy::new(m.memory64, m.shared, m.initial, m.maximum)),
        _ => ImportTy::Other,
    }))).collect::<Result<Vec<ImportEntry>, _>>());
    Ok((v.map_err(|e| e.to_string())?, reader.original_position() as usize))
}

/// `MemoryType::from_reader` at `pos`, an error as its message. Claims:
/// the result is `wasm_memory_type`, ending after `pos` and by `end`.
#[verifier::external_body]
pub(crate) fn read_memory_type(bytes: &[u8], pos: usize, end: usize) -> (r: Result<(MemTy, usize), String>)
    requires
        pos <= end <= bytes.len(),
    ensures
        match r {
            Ok((v, next)) => wasm_memory_type(bytes@, pos as int, end as int) == Ok::<(MemTy, int), Seq<char>>((v, next as int))
                && pos < next <= end,
            Err(m) => wasm_memory_type(bytes@, pos as int, end as int) == Err::<(MemTy, int), Seq<char>>(m@),
        },
{
    let mut reader = BinaryReader::new(&bytes[pos..end], pos as u64);
    let m = MemoryType::from_reader(&mut reader).map_err(|e| e.to_string())?;
    Ok((MemTy::new(m.memory64, m.shared, m.initial, m.maximum), reader.original_position() as usize))
}

/// `Global::from_reader` at `pos`: content type, mutability, and the byte
/// range of the initializer (`ConstExpr::get_binary_reader().range()`); an
/// error as its message. Claims: the result is `wasm_global`, ending after
/// `pos` and by `end`, with the initializer inside the global.
#[verifier::external_body]
pub(crate) fn read_global(bytes: &[u8], pos: usize, end: usize) -> (r: Result<(ValTy, bool, u64, u64, usize), String>)
    requires
        pos <= end <= bytes.len(),
    ensures
        match r {
            Ok((t, mu, s, e, next)) => wasm_global(bytes@, pos as int, end as int)
                == Ok::<(ValTy, bool, u64, u64, int), Seq<char>>((t, mu, s, e, next as int))
                && pos < next <= end && pos <= s <= e <= next,
            Err(m) => wasm_global(bytes@, pos as int, end as int) == Err::<(ValTy, bool, u64, u64, int), Seq<char>>(m@),
        },
{
    let mut reader = BinaryReader::new(&bytes[pos..end], pos as u64);
    let g = Global::from_reader(&mut reader).map_err(|e| e.to_string())?;
    let t = match g.ty.content_type {
        I32 => VI32, I64 => VI64, F32 => VF32, F64 => VF64, V128 => VV128,
        Ref(r) => VRef(r.is_func_ref(), r.is_extern_ref(), format!("{r:?}")),
    };
    let range = g.init_expr.get_binary_reader().range();
    Ok((t, g.ty.mutable, range.start, range.end, reader.original_position() as usize))
}

/// `ConstExpr::from_reader` at `pos`: the byte range of the expression; an
/// error as its message. Claims: the result is `wasm_const_expr`, ending
/// after `pos` and by `end`, with the expression inside.
#[verifier::external_body]
pub(crate) fn read_const_expr(bytes: &[u8], pos: usize, end: usize) -> (r: Result<(u64, u64, usize), String>)
    requires
        pos <= end <= bytes.len(),
    ensures
        match r {
            Ok((s, e, next)) => wasm_const_expr(bytes@, pos as int, end as int) == Ok::<(u64, u64, int), Seq<char>>((s, e, next as int))
                && pos < next <= end && pos <= s <= e <= next,
            Err(m) => wasm_const_expr(bytes@, pos as int, end as int) == Err::<(u64, u64, int), Seq<char>>(m@),
        },
{
    let mut reader = BinaryReader::new(&bytes[pos..end], pos as u64);
    let c = wasmparser::ConstExpr::from_reader(&mut reader).map_err(|e| e.to_string())?;
    let range = c.get_binary_reader().range();
    Ok((range.start, range.end, reader.original_position() as usize))
}

/// `Export::from_reader` at `pos`, an error as its message. Claims: the
/// result is `wasm_export`, ending after `pos` and by `end`.
#[verifier::external_body]
pub(crate) fn read_export(bytes: &[u8], pos: usize, end: usize) -> (r: Result<(String, ExportKind, u32, usize), String>)
    requires
        pos <= end <= bytes.len(),
    ensures
        match r {
            Ok((n, k, i, next)) => wasm_export(bytes@, pos as int, end as int)
                == Ok::<(Seq<char>, ExportKind, u32, int), Seq<char>>((n@, k, i, next as int))
                && pos < next <= end,
            Err(m) => wasm_export(bytes@, pos as int, end as int) == Err::<(Seq<char>, ExportKind, u32, int), Seq<char>>(m@),
        },
{
    let mut reader = BinaryReader::new(&bytes[pos..end], pos as u64);
    let e = Export::from_reader(&mut reader).map_err(|e| e.to_string())?;
    let k = match e.kind {
        ExternalKind::Func => ExportKind::Func, ExternalKind::FuncExact => ExportKind::FuncExact,
        ExternalKind::Table => ExportKind::Table, ExternalKind::Memory => ExportKind::Memory,
        ExternalKind::Global => ExportKind::Global, ExternalKind::Tag => ExportKind::Tag,
    };
    Ok((e.name.to_string(), k, e.index, reader.original_position() as usize))
}

/// `Element::from_reader` at `pos`: the table of an active segment
/// (`ElementKind::Active::table_index`), whether the items are expressions,
/// the range of the item list (`SectionLimited::range`, which starts with
/// the item count) and `Element::range`; an error as its message. Claims:
/// the result is `wasm_element`, ending after `pos` and by `end`; the
/// segment's range is exactly `pos..next` (`from_reader` records where it
/// started and stopped reading), with the item list inside it.
#[verifier::external_body]
pub(crate) fn read_element(bytes: &[u8], pos: usize, end: usize) -> (r: Result<(ElementInfo, usize), String>)
    requires
        pos <= end <= bytes.len(),
    ensures
        match r {
            Ok((e, next)) => wasm_element(bytes@, pos as int, end as int) == Ok::<(ElementInfo, int), Seq<char>>((e, next as int))
                && pos < next <= end && pos <= e.items_start <= e.items_end <= next && e.start == pos && e.end == next,
            Err(m) => wasm_element(bytes@, pos as int, end as int) == Err::<(ElementInfo, int), Seq<char>>(m@),
        },
{
    let mut reader = BinaryReader::new(&bytes[pos..end], pos as u64);
    let e = Element::from_reader(&mut reader).map_err(|e| e.to_string())?;
    let active_table = match e.kind {
        ElementKind::Active { table_index, .. } => Some(table_index),
        ElementKind::Passive | ElementKind::Declared => None,
    };
    let (exprs, items) = match e.items {
        ElementItems::Functions(s) => (false, s.range()),
        ElementItems::Expressions(_, s) => (true, s.range()),
    };
    let info = ElementInfo { active_table, exprs, items_start: items.start, items_end: items.end, start: e.range.start, end: e.range.end };
    Ok((info, reader.original_position() as usize))
}

/// `CustomSectionReader::new` on `bytes[pos..end]`: the section's name and
/// `data_offset`; an error as its message. Claims: the result is
/// `wasm_custom_header`, with the data inside the section.
#[verifier::external_body]
pub(crate) fn read_custom_header(bytes: &[u8], pos: usize, end: usize) -> (r: Result<(String, u64), String>)
    requires
        pos <= end <= bytes.len(),
    ensures
        match r {
            Ok((n, d)) => wasm_custom_header(bytes@, pos as int, end as int) == Ok::<(Seq<char>, u64), Seq<char>>((n@, d))
                && pos <= d <= end,
            Err(m) => wasm_custom_header(bytes@, pos as int, end as int) == Err::<(Seq<char>, u64), Seq<char>>(m@),
        },
{
    let c = CustomSectionReader::new(BinaryReader::new(&bytes[pos..end], pos as u64)).map_err(|e| e.to_string())?;
    Ok((c.name().to_string(), c.data_offset()))
}

/// The subsections of the `name` section data `bytes[pos..end]` as
/// `NameSectionReader` yields them (it skips nothing: a subsection out of
/// order, or one that cannot be read, is an error item), each function-name
/// and local-name map given by the items its iterator yields; errors as
/// their messages. Claims: the result is `wasm_name_section`.
#[verifier::external_body]
pub(crate) fn read_name_section(bytes: &[u8], pos: usize, end: usize) -> (r: Vec<Result<NameSub, String>>)
    requires
        pos <= end <= bytes.len(),
    ensures
        name_subs_v(r@) == wasm_name_section(bytes@, pos as int, end as int),
{
    let nm = |m: NameMap| m.map(|n| n.map(|n| (n.index, n.name.to_string())).map_err(|e| e.to_string())).collect();
    NameSectionReader::new(BinaryReader::new(&bytes[pos..end], pos as u64)).map(|s| s.map_err(|e| e.to_string()).map(|s| match s {
        Name::Function(m) => NameSub::Function(nm(m)),
        Name::Local(m) => NameSub::Local(m.map(|i| i.map(|i| (i.index, nm(i.names))).map_err(|e| e.to_string())).collect()),
        _ => NameSub::Other,
    })).collect()
}

/// The offsets of all operators of the instruction stream `bytes[pos..end]`
/// as `OperatorsReader::into_iter_with_offsets` yields them (the operators
/// themselves are dropped); the first error as its message. Claims: the
/// result is `wasm_operator_offsets`; the offsets lie in `pos..end` and
/// strictly increase, since every operator takes at least one byte.
#[verifier::external_body]
pub(crate) fn operator_offsets(bytes: &[u8], pos: usize, end: usize) -> (r: Result<Vec<u64>, String>)
    requires
        pos <= end <= bytes.len(),
    ensures
        match r {
            Ok(v) => wasm_operator_offsets(bytes@, pos as int, end as int) == Ok::<Seq<u64>, Seq<char>>(v@)
                && (forall|k: int| 0 <= k < v@.len() ==> pos <= #[trigger] v@[k] < end)
                && (forall|j: int, k: int| 0 <= j < k < v@.len() ==> v@[j] < v@[k]),
            Err(m) => wasm_operator_offsets(bytes@, pos as int, end as int) == Err::<Seq<u64>, Seq<char>>(m@),
        },
{
    let reader = OperatorsReader::new(BinaryReader::new(&bytes[pos..end], pos as u64));
    let v: Result<Vec<u64>, _> = reader.into_iter_with_offsets().map(|r| r.map(|(_, offset)| offset)).collect();
    v.map_err(|e| e.to_string())
}

/// `OperatorsReader::read` at `pos`: the `Debug` text of the operator it
/// decodes; an error as its message. Claims: the result is
/// `wasm_operator_text`.
#[verifier::external_body]
pub(crate) fn operator_text(bytes: &[u8], pos: usize, end: usize) -> (r: Result<String, String>)
    requires
        pos <= end <= bytes.len(),
    ensures
        match r {
            Ok(t) => wasm_operator_text(bytes@, pos as int, end as int) == Ok::<Seq<char>, Seq<char>>(t@),
            Err(m) => wasm_operator_text(bytes@, pos as int, end as int) == Err::<Seq<char>, Seq<char>>(m@),
        },
{
    let mut reader = OperatorsReader::new(BinaryReader::new(&bytes[pos..end], pos as u64));
    reader.read().map(|op| format!("{op:?}")).map_err(|e| e.to_string())
}

} // verus!
