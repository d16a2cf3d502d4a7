//! The data model the parser produces.
//!
//! Every address (`start`/`end`/`*_address`) is an absolute byte offset into
//! the `.wasm` binary. Instruction opcodes are the raw binary opcode byte and,
//! for the `0xFC`-prefixed instructions, the secondary opcode.

use vstd::prelude::*;

verus! {

/// What kind of instruction a [`RustInstr`] is; it decides which of the
/// optional fields are present.
#[derive(PartialEq, Eq, Structural, Clone, Copy, Debug)]
pub enum InstrKind {
    Plain,
    Branch,
    BranchTable,
    Call,
    CallIndirect,
    Indexed,
    MemOp,
    ConstI32,
    ConstI64,
    ConstF32,
    ConstF64,
    Block,
    Loop,
    If,
}

/// One instruction of a function body or constant expression.
///
/// `block`, `loop` and `if` carry the instructions they enclose; every
/// enclosed list ends with the `end` instruction that closes it. Floating
/// point constants are kept as their IEEE 754 bit patterns.
#[derive(Debug)]
pub struct RustInstr {
    pub kind: InstrKind,
    pub opcode: u32,
    pub sub_opcode: Option<u32>,
    pub start: u32,
    pub end: u32,
    pub index: Option<u32>,
    pub func_index: Option<u32>,
    pub func_name: Option<String>,
    pub type_index: Option<u32>,
    pub offset: Option<u32>,
    pub target: Option<u32>,
    pub targets: Option<Vec<u32>>,
    pub i32_value: Option<i32>,
    pub i64_low: Option<i32>,
    pub i64_high: Option<i32>,
    pub f32_bits: Option<u32>,
    pub f64_bits: Option<u64>,
    pub result_type: Option<String>,
    pub label: Option<String>,
    pub body: Option<Vec<RustInstr>>,
    pub consequence: Option<Vec<RustInstr>>,
    pub alternative: Option<Vec<RustInstr>>,
}

/// The mathematical value of a [`RustInstr`]: strings as character
/// sequences, vectors as sequences.
pub struct InstrV {
    pub kind: InstrKind,
    pub opcode: u32,
    pub sub_opcode: Option<u32>,
    pub start: u32,
    pub end: u32,
    pub index: Option<u32>,
    pub func_index: Option<u32>,
    pub func_name: Option<Seq<char>>,
    pub type_index: Option<u32>,
    pub offset: Option<u32>,
    pub target: Option<u32>,
    pub targets: Option<Seq<u32>>,
    pub i32_value: Option<i32>,
    pub i64_low: Option<i32>,
    pub i64_high: Option<i32>,
    pub f32_bits: Option<u32>,
    pub f64_bits: Option<u64>,
    pub result_type: Option<Seq<char>>,
    pub label: Option<Seq<char>>,
    pub body: Option<Seq<InstrV>>,
    pub consequence: Option<Seq<InstrV>>,
    pub alternative: Option<Seq<InstrV>>,
}

pub open spec fn opt_str_view(s: Option<String>) -> Option<Seq<char>> {
    match s {
        Some(s) => Some(s@),
        None => None,
    }
}

pub open spec fn opt_vec_view(v: Option<Vec<u32>>) -> Option<Seq<u32>> {
    match v {
        Some(v) => Some(v@),
        None => None,
    }
}

/// The value of one instruction.
pub open spec fn instr_view(i: RustInstr) -> InstrV
    decreases i,
{
    InstrV {
        kind: i.kind,
        opcode: i.opcode,
        sub_opcode: i.sub_opcode,
        start: i.start,
        end: i.end,
        index: i.index,
        func_index: i.func_index,
        func_name: opt_str_view(i.func_name),
        type_index: i.type_index,
        offset: i.offset,
        target: i.target,
        targets: opt_vec_view(i.targets),
        i32_value: i.i32_value,
        i64_low: i.i64_low,
        i64_high: i.i64_high,
        f32_bits: i.f32_bits,
        f64_bits: i.f64_bits,
        result_type: opt_str_view(i.result_type),
        label: opt_str_view(i.label),
        body: opt_instrs_view(i.body),
        consequence: opt_instrs_view(i.consequence),
        alternative: opt_instrs_view(i.alternative),
    }
}

pub open spec fn opt_instrs_view(o: Option<Vec<RustInstr>>) -> Option<Seq<InstrV>>
    decreases o,
{
    match o {
        Some(v) => Some(instrs_view(v)),
        None => None,
    }
}

/// The values of a list of instructions.
pub open spec fn instrs_view(v: Vec<RustInstr>) -> Seq<InstrV>
    decreases v,
{
    Seq::new(v@.len(), |k: int| if 0 <= k < v@.len() { instr_view(v@[k]) } else { arbitrary() })
}

impl View for RustInstr {
    type V = InstrV;

    open spec fn view(&self) -> InstrV {
        instr_view(*self)
    }
}

/// The values of a vector of viewable items.
pub open spec fn views<T: View>(v: Vec<T>) -> Seq<T::V> {
    v@.map_values(|x: T| x@)
}

/// A section: its kind name and the byte range of its contents.
#[derive(Debug)]
pub struct RustSection {
    pub section: String,
    pub start_address: u32,
    pub end_address: u32,
}

pub struct SectionV {
    pub section: Seq<char>,
    pub start_address: u32,
    pub end_address: u32,
}

impl View for RustSection {
    type V = SectionV;

    open spec fn view(&self) -> SectionV {
        SectionV { section: self.section@, start_address: self.start_address, end_address: self.end_address }
    }
}

/// A function type of the type section, numbered in order.
#[derive(Debug)]
pub struct RustFuncType {
    pub id: u32,
    pub params: Vec<String>,
    pub results: Vec<String>,
}

pub struct FuncTypeV {
    pub id: u32,
    pub params: Seq<Seq<char>>,
    pub results: Seq<Seq<char>>,
}

impl View for RustFuncType {
    type V = FuncTypeV;

    open spec fn view(&self) -> FuncTypeV {
        FuncTypeV { id: self.id, params: views(self.params), results: views(self.results) }
    }
}

/// An imported function with its type index and the byte range of its
/// import entry.
#[derive(Debug)]
pub struct RustFuncImport {
    pub module: String,
    pub name: String,
    pub type_index: u32,
    pub start_address: u32,
    pub end_address: u32,
}

pub struct FuncImportV {
    pub module: Seq<char>,
    pub name: Seq<char>,
    pub type_index: u32,
    pub start_address: u32,
    pub end_address: u32,
}

impl View for RustFuncImport {
    type V = FuncImportV;

    open spec fn view(&self) -> FuncImportV {
        FuncImportV {
            module: self.module@, name: self.name@, type_index: self.type_index,
            start_address: self.start_address, end_address: self.end_address,
        }
    }
}

/// An imported table, numbered among the imported tables, with the byte
/// range of its import entry.
#[derive(Debug)]
pub struct RustTableImport {
    pub module: String,
    pub name: String,
    pub id: u32,
    pub start_address: u32,
    pub end_address: u32,
}

pub struct TableImportV {
    pub module: Seq<char>,
    pub name: Seq<char>,
    pub id: u32,
    pub start_address: u32,
    pub end_address: u32,
}

impl View for RustTableImport {
    type V = TableImportV;

    open spec fn view(&self) -> TableImportV {
        TableImportV {
            module: self.module@, name: self.name@, id: self.id,
            start_address: self.start_address, end_address: self.end_address,
        }
    }
}

/// A linear memory defined by the module: initial and maximum page counts,
/// whether it is shared and whether it is 64-bit.
#[derive(Debug, Clone, Copy)]
pub struct RustMemory {
    pub initial_pages: u64,
    pub maximum_pages: Option<u64>,
    pub shared: bool,
    pub memory64: bool,
}

/// An imported linear memory.
#[derive(Debug)]
pub struct RustMemoryImport {
    pub module: String,
    pub name: String,
    pub initial_pages: u64,
    pub maximum_pages: Option<u64>,
    pub shared: bool,
    pub memory64: bool,
}

pub struct MemoryImportV {
    pub module: Seq<char>,
    pub name: Seq<char>,
    pub initial_pages: u64,
    pub maximum_pages: Option<u64>,
    pub shared: bool,
    pub memory64: bool,
}

impl View for RustMemoryImport {
    type V = MemoryImportV;

    open spec fn view(&self) -> MemoryImportV {
        MemoryImportV {
            module: self.module@, name: self.name@, initial_pages: self.initial_pages,
            maximum_pages: self.maximum_pages, shared: self.shared, memory64: self.memory64,
        }
    }
}

/// An exported function.
#[derive(Debug)]
pub struct RustFuncExport {
    pub name: String,
    pub func_index: u32,
}

pub struct FuncExportV {
    pub name: Seq<char>,
    pub func_index: u32,
}

impl View for RustFuncExport {
    type V = FuncExportV;

    open spec fn view(&self) -> FuncExportV {
        FuncExportV { name: self.name@, func_index: self.func_index }
    }
}

/// An exported table.
#[derive(Debug)]
pub struct RustTableExport {
    pub name: String,
    pub id: u32,
}

pub struct TableExportV {
    pub name: Seq<char>,
    pub id: u32,
}

impl View for RustTableExport {
    type V = TableExportV;

    open spec fn view(&self) -> TableExportV {
        TableExportV { name: self.name@, id: self.id }
    }
}

/// An active element segment: its table, the functions it lists, and its
/// byte range.
#[derive(Debug)]
pub struct RustElement {
    pub table_id: u32,
    pub funcs: Vec<u32>,
    pub start_address: u32,
    pub end_address: u32,
}

pub struct ElementV {
    pub table_id: u32,
    pub funcs: Seq<u32>,
    pub start_address: u32,
    pub end_address: u32,
}

impl View for RustElement {
    type V = ElementV;

    open spec fn view(&self) -> ElementV {
        ElementV { table_id: self.table_id, funcs: self.funcs@, start_address: self.start_address, end_address: self.end_address }
    }
}

/// A parameter or local of a function: its index and type name.
#[derive(Debug)]
pub struct RustLocal {
    pub index: u32,
    pub ty: String,
}

pub struct LocalV {
    pub index: u32,
    pub ty: Seq<char>,
}

impl View for RustLocal {
    type V = LocalV;

    open spec fn view(&self) -> LocalV {
        LocalV { index: self.index, ty: self.ty@ }
    }
}

/// A function defined by the module: its index in the function index space
/// (after the imported functions), its name, its type, its parameters and
/// locals, and its instruction tree.
#[derive(Debug)]
pub struct RustFunc {
    pub id: u32,
    pub name: String,
    pub type_index: u32,
    pub locals: Vec<RustLocal>,
    pub body: Vec<RustInstr>,
}

pub struct FuncV {
    pub id: u32,
    pub name: Seq<char>,
    pub type_index: u32,
    pub locals: Seq<LocalV>,
    pub body: Seq<InstrV>,
}

impl View for RustFunc {
    type V = FuncV;

    open spec fn view(&self) -> FuncV {
        FuncV { id: self.id, name: self.name@, type_index: self.type_index, locals: views(self.locals), body: instrs_view(self.body) }
    }
}

/// A global: its type name, mutability, name, initializer and byte range.
#[derive(Debug)]
pub struct RustGlobal {
    pub value_type: String,
    pub mutable: bool,
    pub name: Option<String>,
    pub init: Vec<RustInstr>,
    pub start_address: u32,
    pub end_address: u32,
}

pub struct GlobalV {
    pub value_type: Seq<char>,
    pub mutable: bool,
    pub name: Option<Seq<char>>,
    pub init: Seq<InstrV>,
    pub start_address: u32,
    pub end_address: u32,
}

impl View for RustGlobal {
    type V = GlobalV;

    open spec fn view(&self) -> GlobalV {
        GlobalV {
            value_type: self.value_type@, mutable: self.mutable, name: opt_str_view(self.name),
            init: instrs_view(self.init), start_address: self.start_address, end_address: self.end_address,
        }
    }
}

/// A name from the `name` section.
#[derive(Debug)]
pub struct RustNameEntry {
    pub index: u32,
    pub value: String,
}

pub struct NameEntryV {
    pub index: u32,
    pub value: Seq<char>,
}

impl View for RustNameEntry {
    type V = NameEntryV;

    open spec fn view(&self) -> NameEntryV {
        NameEntryV { index: self.index, value: self.value@ }
    }
}

/// A local's name from the `name` section.
#[derive(Debug)]
pub struct RustLocalNameEntry {
    pub function_index: u32,
    pub local_index: u32,
    pub value: String,
}

pub struct LocalNameEntryV {
    pub function_index: u32,
    pub local_index: u32,
    pub value: Seq<char>,
}

impl View for RustLocalNameEntry {
    type V = LocalNameEntryV;

    open spec fn view(&self) -> LocalNameEntryV {
        LocalNameEntryV { function_index: self.function_index, local_index: self.local_index, value: self.value@ }
    }
}

/// A whole module.
#[derive(Debug)]
pub struct RustModule {
    pub sections: Vec<RustSection>,
    pub types: Vec<RustFuncType>,
    pub func_imports: Vec<RustFuncImport>,
    pub table_imports: Vec<RustTableImport>,
    pub memory_imports: Vec<RustMemoryImport>,
    pub funcs: Vec<RustFunc>,
    pub globals: Vec<RustGlobal>,
    pub memories: Vec<RustMemory>,
    pub exported_funcs: Vec<RustFuncExport>,
    pub table_exports: Vec<RustTableExport>,
    pub elements: Vec<RustElement>,
    pub func_names: Vec<RustNameEntry>,
    pub local_names: Vec<RustLocalNameEntry>,
    pub initial_memory_pages: u64,
}

pub struct ModuleV {
    pub sections: Seq<SectionV>,
    pub types: Seq<FuncTypeV>,
    pub func_imports: Seq<FuncImportV>,
    pub table_imports: Seq<TableImportV>,
    pub memory_imports: Seq<MemoryImportV>,
    pub funcs: Seq<FuncV>,
    pub globals: Seq<GlobalV>,
    pub memories: Seq<RustMemory>,
    pub exported_funcs: Seq<FuncExportV>,
    pub table_exports: Seq<TableExportV>,
    pub elements: Seq<ElementV>,
    pub func_names: Seq<NameEntryV>,
    pub local_names: Seq<LocalNameEntryV>,
    pub initial_memory_pages: u64,
}

impl View for RustModule {
    type V = ModuleV;

    open spec fn view(&self) -> ModuleV {
        ModuleV {
            sections: views(self.sections),
            types: views(self.types),
            func_imports: views(self.func_imports),
            table_imports: views(self.table_imports),
            memory_imports: views(self.memory_imports),
            funcs: views(self.funcs),
            globals: views(self.globals),
            memories: self.memories@,
            exported_funcs: views(self.exported_funcs),
            table_exports: views(self.table_exports),
            elements: views(self.elements),
            func_names: views(self.func_names),
            local_names: views(self.local_names),
            initial_memory_pages: self.initial_memory_pages,
        }
    }
}

/// Appending to a vector appends the view of the item to the views.
pub proof fn lemma_views_push<T: View>(a: Vec<T>, b: Vec<T>, x: T)
    requires
        b@ == a@.push(x),
    ensures
        views(b) == views(a).push(x@),
{
    assert(views(b) =~= views(a).push(x@));
}

/// The views of two vectors one after the other.
pub proof fn lemma_views_concat<T: View>(a: Vec<T>, b: Vec<T>, c: Vec<T>)
    requires
        c@ == a@ + b@,
    ensures
        views(c) == views(a) + views(b),
{
    assert(views(c) =~= views(a) + views(b));
}

/// Moves the items of `other` to the end of `v`, tracking the views.
pub fn append_view<T: View>(v: &mut Vec<T>, other: &mut Vec<T>)
    ensures
        views(*final(v)) == views(*old(v)) + views(*old(other)),
{
    let ghost a = *v;
    let ghost b = *other;
    v.append(other);
    proof { lemma_views_concat(a, b, *v); }
}

/// An empty vector has no views.
pub proof fn lemma_views_empty<T: View>(a: Vec<T>)
    requires
        a@.len() == 0,
    ensures
        views(a) == Seq::<T::V>::empty(),
{
    assert(views(a) =~= Seq::<T::V>::empty());
}

/// Appends `x` to a vector, tracking the views.
pub fn push_view<T: View>(v: &mut Vec<T>, x: T)
    ensures
        views(*final(v)) == views(*old(v)).push(x@),
        final(v)@ == old(v)@.push(x),
{
    let ghost a = *v;
    let ghost xv = x;
    v.push(x);
    proof { lemma_views_push(a, *v, xv); }
}

} // verus!
