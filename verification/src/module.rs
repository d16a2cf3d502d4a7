//! Assembling the module: each payload `wasmparser` reports is read item by
//! item and turned into the entries of the data model.

use vstd::prelude::*;
use crate::error::{ErrorV, ParseError};
use crate::instr::{
    decode_err, decode_error, err_is, next_u32, parse_instr_stream, read_var_u32s, stream_spec,
    var_u32s,
};
use crate::laws::{
    instrs_well_formed, lemma_custom, lemma_payload_step, lemma_section_step,
    lemma_sections_inside, module_instrs_well_formed, sections_inside, state_inv, addresses_inside,
};
use crate::model::{
    ElementV, FuncExportV, FuncImportV, FuncTypeV, FuncV, GlobalV, LocalNameEntryV, LocalV,
    MemoryImportV, ModuleV, NameEntryV, RustElement, RustFunc, RustFuncExport, RustFuncImport,
    RustFuncType, RustGlobal, RustLocal, RustLocalNameEntry, RustMemory, RustMemoryImport,
    RustModule, RustNameEntry, RustSection, RustTableExport, RustTableImport, SectionV,
    TableExportV, TableImportV, append_view, lemma_views_empty, opt_str_view, push_view, views,
};
use crate::text::{func_label, func_name_of};
use crate::valtype::{ValTy, val_type_name, val_type_to_string};
use crate::wasm::{
    ElementInfo, ExportKind, ImportEntry, ImportTy, MemTy, NameSub, NameSubV, NamingItem, NamingV,
    PayloadInfo, TypeEntry, indirect_v, module_payloads, name_subs_v, namings_v, payload_in,
    read_const_expr, read_custom_header, read_element, read_export, read_global, read_imports,
    read_locals, read_memory_type, read_name_section, read_rec_group, read_var_u32,
    wasm_const_expr, wasm_custom_header, wasm_element, wasm_export, wasm_global, wasm_imports,
    wasm_locals, wasm_memory_type, wasm_name_section, wasm_payloads, wasm_rec_group, var_u32_at,
};

verus! {

/// `r` is the value, or the error, that `s` describes, values compared by
/// their views.
pub open spec fn view_result<T: View>(r: Result<T, ParseError>, s: Result<T::V, ErrorV>) -> bool {
    match s {
        Ok(v) => r matches Ok(x) && x@ == v,
        Err(f) => r matches Err(e) && err_is(e, f),
    }
}

/// `r` is the list, or the error, that `s` describes.
pub open spec fn views_result<T: View>(r: Result<Vec<T>, ParseError>, s: Result<Seq<T::V>, ErrorV>) -> bool {
    match s {
        Ok(v) => r matches Ok(x) && views(x) == v,
        Err(f) => r matches Err(e) && err_is(e, f),
    }
}

/// A section entry of the data model: the kind name and the byte range,
/// offsets cut to 32 bits.
pub fn to_section(name: &str, start: u64, end: u64) -> (r: RustSection)
    ensures
        r@ == (SectionV { section: name@, start_address: start as u32, end_address: end as u32 }),
{
    RustSection {
        section: String::from_str(name),
        start_address: #[verifier::truncate] (start as u32),
        end_address: #[verifier::truncate] (end as u32),
    }
}

/// The byte range of each item of a section whose items start at
/// `starts`: an item runs to the start of the next one, the last to the
/// end of the section; offsets cut to 32 bits.
pub open spec fn item_ranges(starts: Seq<u64>, section_end: u64) -> Seq<(u32, u32)> {
    Seq::new(starts.len(), |k: int| (
        starts[k] as u32,
        if k + 1 < starts.len() { starts[k + 1] as u32 } else { section_end as u32 },
    ))
}

/// Offsets that increase strictly and all lie below `end`.
pub open spec fn increasing_below(s: Seq<u64>, end: int) -> bool {
    &&& forall|k: int| 0 <= k < s.len() ==> #[trigger] s[k] < end
    &&& forall|j: int, k: int| #![trigger s[j], s[k]] 0 <= j < k < s.len() ==> s[j] < s[k]
}

/// Items that start at increasing offsets below the end of their section
/// each cover a non-empty byte range inside a binary of `len` bytes.
proof fn lemma_item_ranges_inside(starts: Seq<u64>, end: u64, len: int)
    requires
        increasing_below(starts, end as int),
        end <= len <= u32::MAX,
    ensures
        forall|k: int| 0 <= k < starts.len() ==> (#[trigger] item_ranges(starts, end)[k]).0 < item_ranges(starts, end)[k].1 <= len,
{
    assert forall|k: int| 0 <= k < starts.len() implies (#[trigger] item_ranges(starts, end)[k]).0 < item_ranges(starts, end)[k].1 <= len by {
        assert(starts[k] < end);
        if k + 1 < starts.len() {
            assert(starts[k] < starts[k + 1]);
            assert(starts[k + 1] < end);
        }
    }
}

/// The byte range of each item of a section, from the items' start offsets.
pub fn with_ranges(starts: &Vec<u64>, section_end: u64) -> (r: Vec<(u32, u32)>)
    ensures
        r@ == item_ranges(starts@, section_end),
{
    let n = starts.len();
    let mut out: Vec<(u32, u32)> = Vec::new();
    let mut i: usize = 0;
    while i < n
        invariant
            0 <= i <= n == starts@.len(),
            out@ == item_ranges(starts@, section_end).take(i as int),
        decreases n - i,
    {
        let start = #[verifier::truncate] (starts[i] as u32);
        let end = if i + 1 < n {
            #[verifier::truncate] (starts[i + 1] as u32)
        } else {
            #[verifier::truncate] (section_end as u32)
        };
        out.push((start, end));
        i = i + 1;
        proof { assert(out@ =~= item_ranges(starts@, section_end).take(i as int)); }
    }
    proof { assert(item_ranges(starts@, section_end).take(n as int) =~= item_ranges(starts@, section_end)); }
    out
}

/// The names of a list of value types, or the error of the first one that
/// has none.
pub open spec fn val_names(vs: Seq<ValTy>) -> Result<Seq<Seq<char>>, ErrorV>
    decreases vs.len(),
{
    if vs.len() == 0 {
        Ok(seq![])
    } else {
        match val_names(vs.drop_last()) {
            Ok(ns) => match val_type_name(vs.last()) {
                Ok(n) => Ok(ns.push(n)),
                Err(e) => Err(e),
            },
            Err(e) => Err(e),
        }
    }
}

proof fn lemma_val_names_err_stays(vs: Seq<ValTy>, i: int, j: int)
    requires
        0 <= i <= j <= vs.len(),
        val_names(vs.take(i)) is Err,
    ensures
        val_names(vs.take(j)) == val_names(vs.take(i)),
    decreases j - i,
{
    if i < j {
        assert(vs.take(i + 1).drop_last() =~= vs.take(i));
        lemma_val_names_err_stays(vs, i + 1, j);
    }
}

/// The names of the value types `vs`.
pub fn val_type_names(vs: &Vec<ValTy>) -> (r: Result<Vec<String>, ParseError>)
    ensures
        views_result(r, val_names(vs@)),
{
    let n = vs.len();
    let mut out: Vec<String> = Vec::new();
    proof {
        lemma_views_empty(out);
        assert(vs@.take(0) =~= Seq::<ValTy>::empty());
    }
    let mut i: usize = 0;
    while i < n
        invariant
            0 <= i <= n == vs@.len(),
            val_names(vs@.take(i as int)) == Ok::<Seq<Seq<char>>, ErrorV>(views(out)),
        decreases n - i,
    {
        proof { assert(vs@.take(i + 1).drop_last() =~= vs@.take(i as int)); }
        let s = match val_type_to_string(vs[i].duplicate()) {
            Ok(s) => s,
            Err(e) => {
                proof {
                    lemma_val_names_err_stays(vs@, i + 1, n as int);
                    assert(vs@.take(n as int) =~= vs@);
                }
                return Err(e);
            },
        };
        push_view(&mut out, s);
        i = i + 1;
    }
    proof { assert(vs@.take(n as int) =~= vs@); }
    Ok(out)
}

/// The function type an entry of the type section becomes, numbered `id`.
pub open spec fn type_entry_spec(e: TypeEntry, id: u32) -> Result<FuncTypeV, ErrorV> {
    match e {
        TypeEntry::Func(params, results) => match val_names(params@) {
            Ok(ps) => match val_names(results@) {
                Ok(rs) => Ok(FuncTypeV { id, params: ps, results: rs }),
                Err(e) => Err(e),
            },
            Err(e) => Err(e),
        },
        TypeEntry::Other(t) => Err(ErrorV::UnsupportedTypeEntry(t@)),
    }
}

/// The function types after the entries `es` of one recursion group,
/// appended to `ts`; each is numbered by its place in the section.
pub open spec fn group_spec(es: Seq<TypeEntry>, ts: Seq<FuncTypeV>) -> Result<Seq<FuncTypeV>, ErrorV>
    decreases es.len(),
{
    if es.len() == 0 {
        Ok(ts)
    } else {
        match group_spec(es.drop_last(), ts) {
            Ok(ts2) => match type_entry_spec(es.last(), ts2.len() as u32) {
                Ok(t) => Ok(ts2.push(t)),
                Err(e) => Err(e),
            },
            Err(e) => Err(e),
        }
    }
}

/// The function types of the first `n` recursion groups from `p0`, and the
/// position after them.
pub open spec fn types_run(bytes: Seq<u8>, p0: int, end: int, n: nat) -> Result<(Seq<FuncTypeV>, int), ErrorV>
    decreases n,
{
    if n == 0 {
        Ok((seq![], p0))
    } else {
        match types_run(bytes, p0, end, (n - 1) as nat) {
            Ok((ts, p)) => match wasm_rec_group(bytes, p, end) {
                Ok((es, q)) => match group_spec(es, ts) {
                    Ok(ts2) => Ok((ts2, q)),
                    Err(e) => Err(e),
                },
                Err(m) => Err(decode_error(m)),
            },
            Err(e) => Err(e),
        }
    }
}

/// The function types of the type section `bytes[start..end]`: a count,
/// that many recursion groups, and nothing after them.
pub open spec fn type_section_spec(bytes: Seq<u8>, start: int, end: int) -> Result<Seq<FuncTypeV>, ErrorV> {
    match var_u32_at(bytes, start, end) {
        Ok((n, p)) => match types_run(bytes, p, end, n as nat) {
            Ok((ts, q)) => if q == end { Ok(ts) } else { Err(ErrorV::SectionSizeMismatch) },
            Err(e) => Err(e),
        },
        Err(m) => Err(decode_error(m)),
    }
}

proof fn lemma_group_err_stays(es: Seq<TypeEntry>, ts: Seq<FuncTypeV>, i: int, j: int)
    requires
        0 <= i <= j <= es.len(),
        group_spec(es.take(i), ts) is Err,
    ensures
        group_spec(es.take(j), ts) == group_spec(es.take(i), ts),
    decreases j - i,
{
    if i < j {
        assert(es.take(i + 1).drop_last() =~= es.take(i));
        lemma_group_err_stays(es, ts, i + 1, j);
    }
}

proof fn lemma_types_run_err_stays(bytes: Seq<u8>, p0: int, end: int, i: nat, j: nat)
    requires
        i <= j,
        types_run(bytes, p0, end, i) is Err,
    ensures
        types_run(bytes, p0, end, j) == types_run(bytes, p0, end, i),
    decreases j - i,
{
    if i < j {
        lemma_types_run_err_stays(bytes, p0, end, i + 1, j);
    }
}

/// Adds the function types of one recursion group to `types`.
fn add_group(types: &mut Vec<RustFuncType>, es: Vec<TypeEntry>) -> (r: Result<(), ParseError>)
    ensures
        match group_spec(es@, views(*old(types))) {
            Ok(ts) => r is Ok && views(*final(types)) == ts,
            Err(f) => r matches Err(e) && err_is(e, f),
        },
{
    let n = es.len();
    let ghost ts0 = views(*types);
    proof { assert(es@.take(0) =~= Seq::<TypeEntry>::empty()); }
    let mut i: usize = 0;
    while i < n
        invariant
            0 <= i <= n == es@.len(),
            ts0 == views(*old(types)),
            group_spec(es@.take(i as int), ts0) == Ok::<Seq<FuncTypeV>, ErrorV>(views(*types)),
        decreases n - i,
    {
        proof { assert(es@.take(i + 1).drop_last() =~= es@.take(i as int)); }
        let id = #[verifier::truncate] (types.len() as u32);
        proof { assert(views(*types).len() == types@.len()); }
        proof { assert(es@.take(i + 1).last() == es@[i as int]); }
        match &es[i] {
            TypeEntry::Func(params, results) => {
                let ps = match val_type_names(params) {
                    Ok(x) => x,
                    Err(e) => {
                        proof {
                            let f = val_names(params@)->Err_0;
                            assert(type_entry_spec(es@[i as int], id) == Err::<FuncTypeV, ErrorV>(f));
                            assert(group_spec(es@.take(i + 1), ts0) == Err::<Seq<FuncTypeV>, ErrorV>(f));
                            lemma_group_err_stays(es@, ts0, i + 1, n as int);
                            assert(es@.take(n as int) =~= es@);
                        }
                        return Err(e);
                    },
                };
                let rs = match val_type_names(results) {
                    Ok(x) => x,
                    Err(e) => {
                        proof {
                            lemma_group_err_stays(es@, ts0, i + 1, n as int);
                            assert(es@.take(n as int) =~= es@);
                        }
                        return Err(e);
                    },
                };
                push_view(types, RustFuncType { id, params: ps, results: rs });
            },
            TypeEntry::Other(t) => {
                proof {
                    lemma_group_err_stays(es@, ts0, i + 1, n as int);
                    assert(es@.take(n as int) =~= es@);
                }
                return Err(ParseError::UnsupportedTypeEntry(t.clone()));
            },
        }
        i = i + 1;
    }
    proof { assert(es@.take(n as int) =~= es@); }
    Ok(())
}

/// Reads the type section `bytes[start..end]`: every entry must be a
/// function type, numbered in order from 0.
pub fn parse_type_section(bytes: &[u8], start: usize, end: usize) -> (r: Result<Vec<RustFuncType>, ParseError>)
    requires
        start <= end <= bytes.len(),
    ensures
        views_result(r, type_section_spec(bytes@, start as int, end as int)),
{
    let (n, p0) = match read_var_u32(bytes, start, end) {
        Ok(x) => x,
        Err(e) => return Err(decode_err(e)),
    };
    let mut types: Vec<RustFuncType> = Vec::new();
    proof { lemma_views_empty(types); }
    let mut pos = p0;
    let mut i: u32 = 0;
    while i < n
        invariant
            i <= n,
            p0 <= pos <= end <= bytes.len(),
            var_u32_at(bytes@, start as int, end as int) == Ok::<(u32, int), Seq<char>>((n, p0 as int)),
            types_run(bytes@, p0 as int, end as int, i as nat) == Ok::<(Seq<FuncTypeV>, int), ErrorV>((views(types), pos as int)),
        decreases n - i,
    {
        let (es, next) = match read_rec_group(bytes, pos, end) {
            Ok(x) => x,
            Err(e) => {
                proof {
                    assert(types_run(bytes@, p0 as int, end as int, (i + 1) as nat) is Err);
                    lemma_types_run_err_stays(bytes@, p0 as int, end as int, (i + 1) as nat, n as nat);
                }
                return Err(decode_err(e));
            },
        };
        let ghost esv = es@;
        match add_group(&mut types, es) {
            Ok(()) => {},
            Err(e) => {
                proof {
                    assert(wasm_rec_group(bytes@, pos as int, end as int) == Ok::<(Seq<TypeEntry>, int), Seq<char>>((esv, next as int)));
                    assert(types_run(bytes@, p0 as int, end as int, (i + 1) as nat) is Err);
                }
                proof { lemma_types_run_err_stays(bytes@, p0 as int, end as int, (i + 1) as nat, n as nat); }
                return Err(e);
            },
        }
        pos = next;
        i = i + 1;
    }
    if pos != end {
        return Err(ParseError::SectionSizeMismatch);
    }
    Ok(types)
}

// ---------------------------------------------------------------------
// The state of a module being read

/// The module read so far, with what later payloads need: the type index
/// of each function of the function section, the number of imported
/// functions and tables, and the number of function bodies read.
pub struct ParseState {
    pub module: RustModule,
    pub function_type_indices: Vec<u32>,
    pub num_func_imports: u32,
    pub num_table_imports: u32,
    pub code_index: u32,
}

pub struct StateV {
    pub module: ModuleV,
    pub fti: Seq<u32>,
    pub nfi: u32,
    pub nti: u32,
    pub ci: u32,
}

impl View for ParseState {
    type V = StateV;

    open spec fn view(&self) -> StateV {
        StateV {
            module: self.module@,
            fti: self.function_type_indices@,
            nfi: self.num_func_imports,
            nti: self.num_table_imports,
            ci: self.code_index,
        }
    }
}

/// `r` and the state after it are what `s` describes.
pub open spec fn state_result(r: Result<(), ParseError>, after: StateV, s: Result<StateV, ErrorV>) -> bool {
    match s {
        Ok(v) => r is Ok && after == v,
        Err(f) => r matches Err(e) && err_is(e, f),
    }
}

// ---------------------------------------------------------------------
// Imports

/// The imports of the first `n` import-section items from `p0`, flattened,
/// and the position after them.
pub open spec fn imports_run(bytes: Seq<u8>, p0: int, end: int, n: nat) -> Result<(Seq<ImportEntry>, int), Seq<char>>
    decreases n,
{
    if n == 0 {
        Ok((seq![], p0))
    } else {
        match imports_run(bytes, p0, end, (n - 1) as nat) {
            Ok((acc, p)) => match wasm_imports(bytes, p, end) {
                Ok((es, q)) => Ok((acc + es, q)),
                Err(m) => Err(m),
            },
            Err(m) => Err(m),
        }
    }
}

/// The imports of the import section `bytes[start..end]`.
pub open spec fn import_entries(bytes: Seq<u8>, start: int, end: int) -> Result<Seq<ImportEntry>, ErrorV> {
    match var_u32_at(bytes, start, end) {
        Ok((n, p)) => match imports_run(bytes, p, end, n as nat) {
            Ok((es, q)) => if q == end { Ok(es) } else { Err(ErrorV::SectionSizeMismatch) },
            Err(m) => Err(decode_error(m)),
        },
        Err(m) => Err(decode_error(m)),
    }
}

pub open spec fn import_offsets(es: Seq<ImportEntry>) -> Seq<u64> {
    es.map_values(|e: ImportEntry| e.0)
}

/// The state after the imports `es` with byte ranges `ranges`: a function
/// import is recorded with its type index, a table import with its number
/// among the imported tables, a memory import with its memory type; other
/// imports are skipped.
pub open spec fn apply_imports(st: StateV, es: Seq<ImportEntry>, ranges: Seq<(u32, u32)>) -> StateV
    decreases es.len(),
{
    if es.len() == 0 {
        st
    } else {
        let s = apply_imports(st, es.drop_last(), ranges);
        let e = es.last();
        let (a, b) = ranges[es.len() - 1];
        match e.3 {
            ImportTy::Func(t) => StateV {
                module: ModuleV {
                    func_imports: s.module.func_imports.push(FuncImportV {
                        module: e.1@, name: e.2@, type_index: t, start_address: a, end_address: b,
                    }),
                    ..s.module
                },
                nfi: next_u32(s.nfi),
                ..s
            },
            ImportTy::Table => StateV {
                module: ModuleV {
                    table_imports: s.module.table_imports.push(TableImportV {
                        module: e.1@, name: e.2@, id: s.nti, start_address: a, end_address: b,
                    }),
                    ..s.module
                },
                nti: next_u32(s.nti),
                ..s
            },
            ImportTy::Memory(m) => StateV {
                module: ModuleV {
                    memory_imports: s.module.memory_imports.push(MemoryImportV {
                        module: e.1@, name: e.2@, initial_pages: m.initial, maximum_pages: m.maximum,
                        shared: m.shared, memory64: m.memory64,
                    }),
                    ..s.module
                },
                ..s
            },
            ImportTy::Other => s,
        }
    }
}

/// The state after the import section `bytes[start..end]`.
pub open spec fn import_section_step(bytes: Seq<u8>, start: int, end: int, st: StateV) -> Result<StateV, ErrorV> {
    match import_entries(bytes, start, end) {
        Ok(es) => Ok(apply_imports(st, es, item_ranges(import_offsets(es), end as u64))),
        Err(e) => Err(e),
    }
}

proof fn lemma_imports_run_err_stays(bytes: Seq<u8>, p0: int, end: int, i: nat, j: nat)
    requires
        i <= j,
        imports_run(bytes, p0, end, i) is Err,
    ensures
        imports_run(bytes, p0, end, j) == imports_run(bytes, p0, end, i),
    decreases j - i,
{
    if i < j {
        lemma_imports_run_err_stays(bytes, p0, end, i + 1, j);
    }
}

/// Reads the imports of the import section `bytes[start..end]`.
fn read_import_entries(bytes: &[u8], start: usize, end: usize) -> (r: Result<Vec<ImportEntry>, ParseError>)
    requires
        start <= end <= bytes.len(),
    ensures
        match import_entries(bytes@, start as int, end as int) {
            Ok(es) => r matches Ok(v) && v@ == es,
            Err(f) => r matches Err(e) && err_is(e, f),
        },
        r matches Ok(v) ==> increasing_below(import_offsets(v@), end as int),
{
    let (n, p0) = match read_var_u32(bytes, start, end) {
        Ok(x) => x,
        Err(e) => return Err(decode_err(e)),
    };
    let mut all: Vec<ImportEntry> = Vec::new();
    let mut pos = p0;
    let mut i: u32 = 0;
    while i < n
        invariant
            i <= n,
            p0 <= pos <= end <= bytes.len(),
            var_u32_at(bytes@, start as int, end as int) == Ok::<(u32, int), Seq<char>>((n, p0 as int)),
            imports_run(bytes@, p0 as int, end as int, i as nat) == Ok::<(Seq<ImportEntry>, int), Seq<char>>((all@, pos as int)),
            increasing_below(import_offsets(all@), pos as int),
        decreases n - i,
    {
        let (mut es, next) = match read_imports(bytes, pos, end) {
            Ok(x) => x,
            Err(e) => {
                proof { lemma_imports_run_err_stays(bytes@, p0 as int, end as int, (i + 1) as nat, n as nat); }
                return Err(decode_err(e));
            },
        };
        let ghost a0 = all@;
        let ghost esv = es@;
        all.append(&mut es);
        proof {
            let o = import_offsets(all@);
            assert forall|k: int| 0 <= k < o.len() implies #[trigger] o[k] < next as int by {
                assert(o[k] == all@[k].0);
                if k >= a0.len() {
                    assert(all@[k] == esv[k - a0.len()]);
                } else {
                    assert(all@[k] == a0[k]);
                    assert(import_offsets(a0)[k] < pos);
                }
            }
            assert forall|j: int, k: int| 0 <= j < k < o.len() implies #[trigger] o[j] < #[trigger] o[k] by {
                assert(o[k] == all@[k].0 && o[j] == all@[j].0);
                if k >= a0.len() {
                    assert(all@[k] == esv[k - a0.len()]);
                    if j >= a0.len() {
                        assert(all@[j] == esv[j - a0.len()]);
                    } else {
                        assert(all@[j] == a0[j]);
                        assert(import_offsets(a0)[j] < pos);
                    }
                } else {
                    assert(all@[k] == a0[k]);
                    assert(all@[j] == a0[j]);
                    assert(import_offsets(a0)[j] < import_offsets(a0)[k]);
                }
            }
        }
        pos = next;
        i = i + 1;
    }
    if pos != end {
        return Err(ParseError::SectionSizeMismatch);
    }
    Ok(all)
}

/// Reads the import section `bytes[start..end]` into the state: function,
/// table and memory imports with the byte range of each import.
pub fn read_import_section(bytes: &[u8], start: usize, end: usize, st: &mut ParseState) -> (r: Result<(), ParseError>)
    requires
        start <= end <= bytes.len(),
    ensures
        state_result(r, final(st)@, import_section_step(bytes@, start as int, end as int, old(st)@)),
        r is Ok && bytes@.len() <= u32::MAX && addresses_inside(old(st)@.module, bytes@.len() as int)
            ==> addresses_inside(final(st)@.module, bytes@.len() as int),
{
    let es = read_import_entries(bytes, start, end)?;
    let n = es.len();
    let mut offsets: Vec<u64> = Vec::new();
    let mut k: usize = 0;
    while k < n
        invariant
            0 <= k <= n == es@.len(),
            offsets@ == import_offsets(es@).take(k as int),
        decreases n - k,
    {
        offsets.push(es[k].0);
        k = k + 1;
        proof { assert(offsets@ =~= import_offsets(es@).take(k as int)); }
    }
    proof { assert(offsets@ =~= import_offsets(es@)); }
    let ranges = with_ranges(&offsets, end as u64);
    let ghost st0 = st@;
    let ghost len = bytes@.len() as int;
    proof {
        if len <= u32::MAX {
            lemma_item_ranges_inside(import_offsets(es@), end as u64, len);
        }
    }
    let mut i: usize = 0;
    proof { assert(es@.take(0) =~= Seq::<ImportEntry>::empty()); }
    while i < n
        invariant
            0 <= i <= n == es@.len() == ranges@.len(),
            len == bytes@.len(),
            ranges@ == item_ranges(import_offsets(es@), end as u64),
            st@ == apply_imports(st0, es@.take(i as int), ranges@),
            len <= u32::MAX ==> forall|k: int| 0 <= k < n ==> (#[trigger] ranges@[k]).0 < ranges@[k].1 <= len,
            len <= u32::MAX && addresses_inside(st0.module, len) ==> addresses_inside(st@.module, len),
        decreases n - i,
    {
        proof { assert(es@.take(i + 1).drop_last() =~= es@.take(i as int)); }
        let ghost m0 = st@.module;
        let (a, b) = ranges[i];
        let e = &es[i];
        match e.3 {
            ImportTy::Func(t) => {
                let x = RustFuncImport {
                    module: e.1.clone(), name: e.2.clone(), type_index: t, start_address: a, end_address: b,
                };
                push_view(&mut st.module.func_imports, x);
                st.num_func_imports = if st.num_func_imports == u32::MAX { 0 } else { st.num_func_imports + 1 };
            },
            ImportTy::Table => {
                let x = RustTableImport {
                    module: e.1.clone(), name: e.2.clone(), id: st.num_table_imports, start_address: a, end_address: b,
                };
                push_view(&mut st.module.table_imports, x);
                st.num_table_imports = if st.num_table_imports == u32::MAX { 0 } else { st.num_table_imports + 1 };
            },
            ImportTy::Memory(m) => {
                let x = RustMemoryImport {
                    module: e.1.clone(), name: e.2.clone(), initial_pages: m.initial, maximum_pages: m.maximum,
                    shared: m.shared, memory64: m.memory64,
                };
                push_view(&mut st.module.memory_imports, x);
            },
            ImportTy::Other => {},
        }
        proof {
            if len <= u32::MAX && addresses_inside(st0.module, len) {
                assert(ranges@[i as int].0 < ranges@[i as int].1 <= len);
                let m1 = st@.module;
                assert forall|k: int| 0 <= k < m1.func_imports.len() implies
                    (#[trigger] m1.func_imports[k]).start_address < m1.func_imports[k].end_address <= len by {
                    if k < m0.func_imports.len() {
                        assert(m1.func_imports[k] == m0.func_imports[k]);
                    }
                }
                assert forall|k: int| 0 <= k < m1.table_imports.len() implies
                    (#[trigger] m1.table_imports[k]).start_address < m1.table_imports[k].end_address <= len by {
                    if k < m0.table_imports.len() {
                        assert(m1.table_imports[k] == m0.table_imports[k]);
                    }
                }
            }
        }
        i = i + 1;
    }
    proof { assert(es@.take(n as int) =~= es@); }
    Ok(())
}

// ---------------------------------------------------------------------
// Function and memory sections

/// The state after the function section `bytes[start..end]`: the type
/// index of each function, in order.
pub open spec fn function_section_step(bytes: Seq<u8>, start: int, end: int, st: StateV) -> Result<StateV, ErrorV> {
    match var_u32_at(bytes, start, end) {
        Ok((n, p)) => match var_u32s(bytes, p, end, n as nat) {
            Ok((v, q)) => if q == end {
                Ok(StateV { fti: st.fti + v, ..st })
            } else {
                Err(ErrorV::SectionSizeMismatch)
            },
            Err(m) => Err(decode_error(m)),
        },
        Err(m) => Err(decode_error(m)),
    }
}

/// Reads the function section `bytes[start..end]` into the state.
pub fn read_function_section(bytes: &[u8], start: usize, end: usize, st: &mut ParseState) -> (r: Result<(), ParseError>)
    requires
        start <= end <= bytes.len(),
    ensures
        state_result(r, final(st)@, function_section_step(bytes@, start as int, end as int, old(st)@)),
{
    let (n, p) = match read_var_u32(bytes, start, end) {
        Ok(x) => x,
        Err(e) => return Err(decode_err(e)),
    };
    let (mut v, q) = read_var_u32s(bytes, p, end, n)?;
    if q != end {
        return Err(ParseError::SectionSizeMismatch);
    }
    st.function_type_indices.append(&mut v);
    Ok(())
}

/// The memory types of `n` entries from `p0`, and the position after them.
pub open spec fn memories_run(bytes: Seq<u8>, p0: int, end: int, n: nat) -> Result<(Seq<MemTy>, int), Seq<char>>
    decreases n,
{
    if n == 0 {
        Ok((seq![], p0))
    } else {
        match memories_run(bytes, p0, end, (n - 1) as nat) {
            Ok((acc, p)) => match wasm_memory_type(bytes, p, end) {
                Ok((m, q)) => Ok((acc.push(m), q)),
                Err(m) => Err(m),
            },
            Err(m) => Err(m),
        }
    }
}

/// The memory of the data model for a memory type.
pub open spec fn memory_of(m: MemTy) -> RustMemory {
    RustMemory { initial_pages: m.initial, maximum_pages: m.maximum, shared: m.shared, memory64: m.memory64 }
}

/// The memories of the data model for a list of memory types.
pub open spec fn memories_of(ms: Seq<MemTy>) -> Seq<RustMemory> {
    ms.map_values(|m: MemTy| memory_of(m))
}

/// The state after the memory section `bytes[start..end]`: each memory
/// with its page counts and flags.
pub open spec fn memory_section_step(bytes: Seq<u8>, start: int, end: int, st: StateV) -> Result<StateV, ErrorV> {
    match var_u32_at(bytes, start, end) {
        Ok((n, p)) => match memories_run(bytes, p, end, n as nat) {
            Ok((ms, q)) => if q == end {
                Ok(StateV {
                    module: ModuleV { memories: st.module.memories + memories_of(ms), ..st.module },
                    ..st
                })
            } else {
                Err(ErrorV::SectionSizeMismatch)
            },
            Err(m) => Err(decode_error(m)),
        },
        Err(m) => Err(decode_error(m)),
    }
}

proof fn lemma_memories_run_err_stays(bytes: Seq<u8>, p0: int, end: int, i: nat, j: nat)
    requires
        i <= j,
        memories_run(bytes, p0, end, i) is Err,
    ensures
        memories_run(bytes, p0, end, j) == memories_run(bytes, p0, end, i),
    decreases j - i,
{
    if i < j {
        lemma_memories_run_err_stays(bytes, p0, end, i + 1, j);
    }
}

/// Reads the memory section `bytes[start..end]` into the state.
pub fn read_memory_section(bytes: &[u8], start: usize, end: usize, st: &mut ParseState) -> (r: Result<(), ParseError>)
    requires
        start <= end <= bytes.len(),
    ensures
        state_result(r, final(st)@, memory_section_step(bytes@, start as int, end as int, old(st)@)),
{
    let (n, p0) = match read_var_u32(bytes, start, end) {
        Ok(x) => x,
        Err(e) => return Err(decode_err(e)),
    };
    let ghost st0 = st@;
    let ghost mut ms: Seq<MemTy> = seq![];
    let mut pos = p0;
    let mut i: u32 = 0;
    while i < n
        invariant
            i <= n,
            p0 <= pos <= end <= bytes.len(),
            var_u32_at(bytes@, start as int, end as int) == Ok::<(u32, int), Seq<char>>((n, p0 as int)),
            memories_run(bytes@, p0 as int, end as int, i as nat) == Ok::<(Seq<MemTy>, int), Seq<char>>((ms, pos as int)),
            st@ == (StateV {
                module: ModuleV { memories: st0.module.memories + memories_of(ms), ..st0.module },
                ..st0
            }),
        decreases n - i,
    {
        let (m, next) = match read_memory_type(bytes, pos, end) {
            Ok(x) => x,
            Err(e) => {
                proof { lemma_memories_run_err_stays(bytes@, p0 as int, end as int, (i + 1) as nat, n as nat); }
                return Err(decode_err(e));
            },
        };
        st.module.memories.push(RustMemory {
            initial_pages: m.initial, maximum_pages: m.maximum, shared: m.shared, memory64: m.memory64,
        });
        proof {
            assert(st0.module.memories + memories_of(ms.push(m))
                =~= st0.module.memories + memories_of(ms).push(memory_of(m)));
            ms = ms.push(m);
        }
        pos = next;
        i = i + 1;
    }
    if pos != end {
        return Err(ParseError::SectionSizeMismatch);
    }
    Ok(())
}

// ---------------------------------------------------------------------
// Exports

/// The state after `n` exports from `p0`, and the position after them:
/// function exports and table exports are recorded with their index, other
/// exports skipped.
pub open spec fn exports_run(bytes: Seq<u8>, p0: int, end: int, n: nat, st: StateV) -> Result<(StateV, int), Seq<char>>
    decreases n,
{
    if n == 0 {
        Ok((st, p0))
    } else {
        match exports_run(bytes, p0, end, (n - 1) as nat, st) {
            Ok((s, p)) => match wasm_export(bytes, p, end) {
                Ok((name, kind, index, q)) => Ok((
                    if kind == ExportKind::Func {
                        StateV {
                            module: ModuleV {
                                exported_funcs: s.module.exported_funcs.push(FuncExportV { name, func_index: index }),
                                ..s.module
                            },
                            ..s
                        }
                    } else if kind == ExportKind::Table {
                        StateV {
                            module: ModuleV {
                                table_exports: s.module.table_exports.push(TableExportV { name, id: index }),
                                ..s.module
                            },
                            ..s
                        }
                    } else {
                        s
                    },
                    q,
                )),
                Err(m) => Err(m),
            },
            Err(m) => Err(m),
        }
    }
}

/// The state after the export section `bytes[start..end]`.
pub open spec fn export_section_step(bytes: Seq<u8>, start: int, end: int, st: StateV) -> Result<StateV, ErrorV> {
    match var_u32_at(bytes, start, end) {
        Ok((n, p)) => match exports_run(bytes, p, end, n as nat, st) {
            Ok((s, q)) => if q == end { Ok(s) } else { Err(ErrorV::SectionSizeMismatch) },
            Err(m) => Err(decode_error(m)),
        },
        Err(m) => Err(decode_error(m)),
    }
}

proof fn lemma_exports_run_err_stays(bytes: Seq<u8>, p0: int, end: int, st: StateV, i: nat, j: nat)
    requires
        i <= j,
        exports_run(bytes, p0, end, i, st) is Err,
    ensures
        exports_run(bytes, p0, end, j, st) == exports_run(bytes, p0, end, i, st),
    decreases j - i,
{
    if i < j {
        lemma_exports_run_err_stays(bytes, p0, end, st, i + 1, j);
    }
}

/// Reads the export section `bytes[start..end]` into the state.
pub fn read_export_section(bytes: &[u8], start: usize, end: usize, st: &mut ParseState) -> (r: Result<(), ParseError>)
    requires
        start <= end <= bytes.len(),
    ensures
        state_result(r, final(st)@, export_section_step(bytes@, start as int, end as int, old(st)@)),
{
    let (n, p0) = match read_var_u32(bytes, start, end) {
        Ok(x) => x,
        Err(e) => return Err(decode_err(e)),
    };
    let ghost st0 = st@;
    let mut pos = p0;
    let mut i: u32 = 0;
    while i < n
        invariant
            i <= n,
            p0 <= pos <= end <= bytes.len(),
            var_u32_at(bytes@, start as int, end as int) == Ok::<(u32, int), Seq<char>>((n, p0 as int)),
            st0 == old(st)@,
            exports_run(bytes@, p0 as int, end as int, i as nat, st0) == Ok::<(StateV, int), Seq<char>>((st@, pos as int)),
        decreases n - i,
    {
        let (name, kind, index, next) = match read_export(bytes, pos, end) {
            Ok(x) => x,
            Err(e) => {
                proof { lemma_exports_run_err_stays(bytes@, p0 as int, end as int, st0, (i + 1) as nat, n as nat); }
                return Err(decode_err(e));
            },
        };
        match kind {
            ExportKind::Func => push_view(&mut st.module.exported_funcs, RustFuncExport { name, func_index: index }),
            ExportKind::Table => push_view(&mut st.module.table_exports, RustTableExport { name, id: index }),
            _ => {},
        }
        pos = next;
        i = i + 1;
    }
    if pos != end {
        return Err(ParseError::SectionSizeMismatch);
    }
    Ok(())
}

// ---------------------------------------------------------------------
// Globals

/// A global as read: content type, mutability, initializer range, and the
/// global's start offset.
pub type GlobalEntry = (ValTy, bool, u64, u64, u64);

/// The globals of `n` entries from `p0`, and the position after them.
pub open spec fn globals_run(bytes: Seq<u8>, p0: int, end: int, n: nat) -> Result<(Seq<GlobalEntry>, int), Seq<char>>
    decreases n,
{
    if n == 0 {
        Ok((seq![], p0))
    } else {
        match globals_run(bytes, p0, end, (n - 1) as nat) {
            Ok((acc, p)) => match wasm_global(bytes, p, end) {
                Ok((t, m, s, e, q)) => Ok((acc.push((t, m, s, e, p as u64)), q)),
                Err(m) => Err(m),
            },
            Err(m) => Err(m),
        }
    }
}

/// The start offsets of globals as read.
pub open spec fn global_offsets(gs: Seq<GlobalEntry>) -> Seq<u64> {
    gs.map_values(|g: GlobalEntry| g.4)
}

/// The globals of the global section `bytes[start..end]`.
pub open spec fn global_entries(bytes: Seq<u8>, start: int, end: int) -> Result<Seq<GlobalEntry>, ErrorV> {
    match var_u32_at(bytes, start, end) {
        Ok((n, p)) => match globals_run(bytes, p, end, n as nat) {
            Ok((gs, q)) => if q == end { Ok(gs) } else { Err(ErrorV::SectionSizeMismatch) },
            Err(m) => Err(decode_error(m)),
        },
        Err(m) => Err(decode_error(m)),
    }
}

/// The state after the globals `gs` with byte ranges `ranges`, or the first
/// error: each global's type name and initializer instruction tree.
pub open spec fn apply_globals(bytes: Seq<u8>, st: StateV, gs: Seq<GlobalEntry>, ranges: Seq<(u32, u32)>) -> Result<StateV, ErrorV>
    decreases gs.len(),
{
    if gs.len() == 0 {
        Ok(st)
    } else {
        match apply_globals(bytes, st, gs.drop_last(), ranges) {
            Ok(s) => {
                let g = gs.last();
                let (a, b) = ranges[gs.len() - 1];
                match val_type_name(g.0) {
                    Ok(vt) => match stream_spec(bytes, g.2 as int, g.3 as int) {
                        Ok(init) => Ok(StateV {
                            module: ModuleV {
                                globals: s.module.globals.push(GlobalV {
                                    value_type: vt, mutable: g.1, name: None, init,
                                    start_address: a, end_address: b,
                                }),
                                ..s.module
                            },
                            ..s
                        }),
                        Err(e) => Err(e),
                    },
                    Err(e) => Err(e),
                }
            },
            Err(e) => Err(e),
        }
    }
}

/// The state after the global section `bytes[start..end]`.
pub open spec fn global_section_step(bytes: Seq<u8>, start: int, end: int, st: StateV) -> Result<StateV, ErrorV> {
    match global_entries(bytes, start, end) {
        Ok(gs) => apply_globals(bytes, st, gs, item_ranges(global_offsets(gs), end as u64)),
        Err(e) => Err(e),
    }
}

proof fn lemma_globals_run_err_stays(bytes: Seq<u8>, p0: int, end: int, i: nat, j: nat)
    requires
        i <= j,
        globals_run(bytes, p0, end, i) is Err,
    ensures
        globals_run(bytes, p0, end, j) == globals_run(bytes, p0, end, i),
    decreases j - i,
{
    if i < j {
        lemma_globals_run_err_stays(bytes, p0, end, i + 1, j);
    }
}

proof fn lemma_apply_globals_err_stays(bytes: Seq<u8>, st: StateV, gs: Seq<GlobalEntry>, ranges: Seq<(u32, u32)>, i: int, j: int)
    requires
        0 <= i <= j <= gs.len(),
        apply_globals(bytes, st, gs.take(i), ranges) is Err,
    ensures
        apply_globals(bytes, st, gs.take(j), ranges) == apply_globals(bytes, st, gs.take(i), ranges),
    decreases j - i,
{
    if i < j {
        assert(gs.take(i + 1).drop_last() =~= gs.take(i));
        lemma_apply_globals_err_stays(bytes, st, gs, ranges, i + 1, j);
    }
}

/// Reads the globals of the global section `bytes[start..end]`.
fn read_global_entries(bytes: &[u8], start: usize, end: usize) -> (r: Result<Vec<GlobalEntry>, ParseError>)
    requires
        start <= end <= bytes.len(),
    ensures
        match global_entries(bytes@, start as int, end as int) {
            Ok(gs) => r matches Ok(v) && v@ == gs,
            Err(f) => r matches Err(e) && err_is(e, f),
        },
        r matches Ok(v) ==> forall|k: int| 0 <= k < v@.len() ==> (#[trigger] v@[k]).2 <= v@[k].3 <= end,
        r matches Ok(v) ==> increasing_below(global_offsets(v@), end as int),
{
    let (n, p0) = match read_var_u32(bytes, start, end) {
        Ok(x) => x,
        Err(e) => return Err(decode_err(e)),
    };
    let mut all: Vec<GlobalEntry> = Vec::new();
    let mut pos = p0;
    let mut i: u32 = 0;
    while i < n
        invariant
            i <= n,
            p0 <= pos <= end <= bytes.len(),
            var_u32_at(bytes@, start as int, end as int) == Ok::<(u32, int), Seq<char>>((n, p0 as int)),
            globals_run(bytes@, p0 as int, end as int, i as nat) == Ok::<(Seq<GlobalEntry>, int), Seq<char>>((all@, pos as int)),
            forall|k: int| 0 <= k < all@.len() ==> (#[trigger] all@[k]).2 <= all@[k].3 <= end,
            increasing_below(global_offsets(all@), pos as int),
        decreases n - i,
    {
        let (t, m, s, e, next) = match read_global(bytes, pos, end) {
            Ok(x) => x,
            Err(e) => {
                proof { lemma_globals_run_err_stays(bytes@, p0 as int, end as int, (i + 1) as nat, n as nat); }
                return Err(decode_err(e));
            },
        };
        let ghost a0 = all@;
        all.push((t, m, s, e, pos as u64));
        proof {
            let o = global_offsets(all@);
            assert forall|k: int| 0 <= k < o.len() implies #[trigger] o[k] < next as int by {
                assert(o[k] == all@[k].4);
                if k < a0.len() {
                    assert(all@[k] == a0[k]);
                    assert(global_offsets(a0)[k] < pos);
                }
            }
            assert forall|j: int, k: int| 0 <= j < k < o.len() implies #[trigger] o[j] < #[trigger] o[k] by {
                assert(o[k] == all@[k].4 && o[j] == all@[j].4);
                assert(all@[j] == a0[j]);
                assert(global_offsets(a0)[j] < pos);
                if k < a0.len() {
                    assert(all@[k] == a0[k]);
                    assert(global_offsets(a0)[j] < global_offsets(a0)[k]);
                }
            }
        }
        pos = next;
        i = i + 1;
    }
    if pos != end {
        return Err(ParseError::SectionSizeMismatch);
    }
    Ok(all)
}

/// Reads the global section `bytes[start..end]` into the state: each
/// global's type, mutability, initializer and byte range.
pub fn read_global_section(bytes: &[u8], start: usize, end: usize, st: &mut ParseState) -> (r: Result<(), ParseError>)
    requires
        start <= end <= bytes.len(),
    ensures
        state_result(r, final(st)@, global_section_step(bytes@, start as int, end as int, old(st)@)),
        r is Ok && end <= u32::MAX && module_instrs_well_formed(bytes@, old(st)@.module) ==> module_instrs_well_formed(bytes@, final(st)@.module),
        r is Ok && bytes@.len() <= u32::MAX && addresses_inside(old(st)@.module, bytes@.len() as int)
            ==> addresses_inside(final(st)@.module, bytes@.len() as int),
{
    let gs = read_global_entries(bytes, start, end)?;
    let n = gs.len();
    let mut offsets: Vec<u64> = Vec::new();
    let mut k: usize = 0;
    while k < n
        invariant
            0 <= k <= n == gs@.len(),
            offsets@ == global_offsets(gs@).take(k as int),
        decreases n - k,
    {
        offsets.push(gs[k].4);
        k = k + 1;
        proof { assert(offsets@ =~= global_offsets(gs@).take(k as int)); }
    }
    proof { assert(offsets@ =~= global_offsets(gs@)); }
    let ranges = with_ranges(&offsets, end as u64);
    let ghost st0 = st@;
    let ghost len = bytes@.len() as int;
    proof {
        if len <= u32::MAX {
            lemma_item_ranges_inside(global_offsets(gs@), end as u64, len);
        }
    }
    proof { assert(gs@.take(0) =~= Seq::<GlobalEntry>::empty()); }
    let mut i: usize = 0;
    while i < n
        invariant
            0 <= i <= n == gs@.len() == ranges@.len(),
            end <= bytes.len(),
            forall|k: int| 0 <= k < gs@.len() ==> (#[trigger] gs@[k]).2 <= gs@[k].3 <= end,
            ranges@ == item_ranges(global_offsets(gs@), end as u64),
            global_entries(bytes@, start as int, end as int) == Ok::<Seq<GlobalEntry>, ErrorV>(gs@),
            st0 == old(st)@,
            apply_globals(bytes@, st0, gs@.take(i as int), ranges@) == Ok::<StateV, ErrorV>(st@),
            end <= u32::MAX && module_instrs_well_formed(bytes@, st0.module) ==> module_instrs_well_formed(bytes@, st@.module),
            len == bytes@.len(),
            len <= u32::MAX ==> forall|k: int| 0 <= k < n ==> (#[trigger] ranges@[k]).0 < ranges@[k].1 <= len,
            len <= u32::MAX && addresses_inside(st0.module, len) ==> addresses_inside(st@.module, len),
        decreases n - i,
    {
        proof { assert(gs@.take(i + 1).drop_last() =~= gs@.take(i as int)); }
        let (a, b) = ranges[i];
        let g = &gs[i];
        proof { assert(gs@.take(i + 1).last() == gs@[i as int]); }
        let value_type = match val_type_to_string(g.0.duplicate()) {
            Ok(x) => x,
            Err(e) => {
                proof {
                    assert(apply_globals(bytes@, st0, gs@.take(i + 1), ranges@) == Err::<StateV, ErrorV>(val_type_name(g.0)->Err_0));
                    lemma_apply_globals_err_stays(bytes@, st0, gs@, ranges@, i + 1, n as int);
                    assert(gs@.take(n as int) =~= gs@);
                }
                return Err(e);
            },
        };
        let init = match parse_instr_stream(bytes, g.2 as usize, g.3 as usize) {
            Ok(x) => x,
            Err(e) => {
                proof {
                    assert(apply_globals(bytes@, st0, gs@.take(i + 1), ranges@) == Err::<StateV, ErrorV>(stream_spec(bytes@, g.2 as int, g.3 as int)->Err_0));
                    lemma_apply_globals_err_stays(bytes@, st0, gs@, ranges@, i + 1, n as int);
                    assert(gs@.take(n as int) =~= gs@);
                }
                return Err(e);
            },
        };
        let ghost gs0 = st@.module.globals;
        push_view(&mut st.module.globals, RustGlobal {
            value_type, mutable: g.1, name: None, init, start_address: a, end_address: b,
        });
        proof {
            let gl = st@.module.globals;
            assert forall|k: int| 0 <= k < gl.len() && end <= u32::MAX && module_instrs_well_formed(bytes@, st0.module)
                implies instrs_well_formed(bytes@, (#[trigger] gl[k]).init) by {
                if k < gs0.len() {
                    assert(gl[k] == gs0[k]);
                }
            }
            if len <= u32::MAX && addresses_inside(st0.module, len) {
                assert(ranges@[i as int].0 < ranges@[i as int].1 <= len);
                assert forall|k: int| 0 <= k < gl.len() implies
                    (#[trigger] gl[k]).start_address < gl[k].end_address <= len by {
                    if k < gs0.len() {
                        assert(gl[k] == gs0[k]);
                    }
                }
            }
        }
        i = i + 1;
    }
    proof { assert(gs@.take(n as int) =~= gs@); }
    Ok(())
}

// ---------------------------------------------------------------------
// Elements

/// The function an element expression `bytes[s..e]` refers to: the index of
/// its first operator when that is a `ref.func`; none when the first
/// operator is another one or cannot be decoded.
pub open spec fn ref_func_of(bytes: Seq<u8>, s: int, e: int) -> Seq<u32> {
    if s < e && bytes[s] == 0xd2 {
        match var_u32_at(bytes, s + 1, e) {
            Ok((f, _)) => seq![f],
            Err(_) => seq![],
        }
    } else {
        seq![]
    }
}

/// The functions of `n` element expressions from `p0`, and the position
/// after them.
pub open spec fn expr_funcs_run(bytes: Seq<u8>, p0: int, lim: int, n: nat) -> Result<(Seq<u32>, int), Seq<char>>
    decreases n,
{
    if n == 0 {
        Ok((seq![], p0))
    } else {
        match expr_funcs_run(bytes, p0, lim, (n - 1) as nat) {
            Ok((acc, p)) => match wasm_const_expr(bytes, p, lim) {
                Ok((s, e, q)) => Ok((acc + ref_func_of(bytes, s as int, e as int), q)),
                Err(m) => Err(m),
            },
            Err(m) => Err(m),
        }
    }
}

/// The function indices of an element segment: its item count, then that
/// many function indices (or expressions), and nothing after them.
pub open spec fn element_funcs(bytes: Seq<u8>, info: ElementInfo) -> Result<Seq<u32>, ErrorV> {
    let lim = info.items_end as int;
    match var_u32_at(bytes, info.items_start as int, lim) {
        Ok((n, p)) => match (if info.exprs { expr_funcs_run(bytes, p, lim, n as nat) } else { var_u32s(bytes, p, lim, n as nat) }) {
            Ok((fs, q)) => if q == lim { Ok(fs) } else { Err(ErrorV::SectionSizeMismatch) },
            Err(m) => Err(decode_error(m)),
        },
        Err(m) => Err(decode_error(m)),
    }
}

/// The state after `n` element segments from `p0`, and the position after
/// them: each active segment is recorded with its table (0 when the segment
/// names none), its functions and its byte range; passive and declared
/// segments are skipped.
pub open spec fn elements_run(bytes: Seq<u8>, p0: int, end: int, n: nat, st: StateV) -> Result<(StateV, int), ErrorV>
    decreases n,
{
    if n == 0 {
        Ok((st, p0))
    } else {
        match elements_run(bytes, p0, end, (n - 1) as nat, st) {
            Ok((s, p)) => match wasm_element(bytes, p, end) {
                Ok((info, q)) => match info.active_table {
                    None => Ok((s, q)),
                    Some(t) => match element_funcs(bytes, info) {
                        Ok(fs) => Ok((StateV {
                            module: ModuleV {
                                elements: s.module.elements.push(ElementV {
                                    table_id: match t { Some(x) => x, None => 0 },
                                    funcs: fs,
                                    start_address: info.start as u32,
                                    end_address: info.end as u32,
                                }),
                                ..s.module
                            },
                            ..s
                        }, q)),
                        Err(e) => Err(e),
                    },
                },
                Err(m) => Err(decode_error(m)),
            },
            Err(e) => Err(e),
        }
    }
}

/// The state after the element section `bytes[start..end]`.
pub open spec fn element_section_step(bytes: Seq<u8>, start: int, end: int, st: StateV) -> Result<StateV, ErrorV> {
    match var_u32_at(bytes, start, end) {
        Ok((n, p)) => match elements_run(bytes, p, end, n as nat, st) {
            Ok((s, q)) => if q == end { Ok(s) } else { Err(ErrorV::SectionSizeMismatch) },
            Err(e) => Err(e),
        },
        Err(m) => Err(decode_error(m)),
    }
}

proof fn lemma_expr_funcs_err_stays(bytes: Seq<u8>, p0: int, lim: int, i: nat, j: nat)
    requires
        i <= j,
        expr_funcs_run(bytes, p0, lim, i) is Err,
    ensures
        expr_funcs_run(bytes, p0, lim, j) == expr_funcs_run(bytes, p0, lim, i),
    decreases j - i,
{
    if i < j {
        lemma_expr_funcs_err_stays(bytes, p0, lim, i + 1, j);
    }
}

proof fn lemma_elements_err_stays(bytes: Seq<u8>, p0: int, end: int, st: StateV, i: nat, j: nat)
    requires
        i <= j,
        elements_run(bytes, p0, end, i, st) is Err,
    ensures
        elements_run(bytes, p0, end, j, st) == elements_run(bytes, p0, end, i, st),
    decreases j - i,
{
    if i < j {
        lemma_elements_err_stays(bytes, p0, end, st, i + 1, j);
    }
}

/// The function an element expression `bytes[s..e]` refers to, if it starts
/// with `ref.func`.
fn read_ref_func(bytes: &[u8], s: usize, e: usize, out: &mut Vec<u32>)
    requires
        s <= e <= bytes.len(),
    ensures
        final(out)@ == old(out)@ + ref_func_of(bytes@, s as int, e as int),
{
    if s < e && bytes[s] == 0xd2 {
        match read_var_u32(bytes, s + 1, e) {
            Ok((f, _)) => {
                out.push(f);
                proof { assert(old(out)@ + seq![f] =~= out@); }
            },
            Err(_) => {
                proof { assert(old(out)@ + Seq::<u32>::empty() =~= old(out)@); }
            },
        }
    } else {
        proof { assert(old(out)@ + Seq::<u32>::empty() =~= old(out)@); }
    }
}

/// Reads `n` element expressions from `p0` and collects their functions.
fn read_expr_funcs(bytes: &[u8], p0: usize, lim: usize, n: u32) -> (r: Result<(Vec<u32>, usize), ParseError>)
    requires
        p0 <= lim <= bytes.len(),
    ensures
        match expr_funcs_run(bytes@, p0 as int, lim as int, n as nat) {
            Ok((fs, q)) => r matches Ok((v, q2)) && v@ == fs && q2 == q && q2 <= lim,
            Err(m) => r matches Err(e) && err_is(e, decode_error(m)),
        },
{
    let mut out: Vec<u32> = Vec::new();
    let mut pos = p0;
    let mut i: u32 = 0;
    while i < n
        invariant
            i <= n,
            p0 <= pos <= lim <= bytes.len(),
            expr_funcs_run(bytes@, p0 as int, lim as int, i as nat) == Ok::<(Seq<u32>, int), Seq<char>>((out@, pos as int)),
        decreases n - i,
    {
        let (s, e, next) = match read_const_expr(bytes, pos, lim) {
            Ok(x) => x,
            Err(err) => {
                proof { lemma_expr_funcs_err_stays(bytes@, p0 as int, lim as int, (i + 1) as nat, n as nat); }
                return Err(decode_err(err));
            },
        };
        read_ref_func(bytes, s as usize, e as usize, &mut out);
        pos = next;
        i = i + 1;
    }
    Ok((out, pos))
}

/// Reads the function indices of an element segment.
fn read_element_funcs(bytes: &[u8], info: ElementInfo) -> (r: Result<Vec<u32>, ParseError>)
    requires
        info.items_start <= info.items_end <= bytes.len(),
    ensures
        match element_funcs(bytes@, info) {
            Ok(fs) => r matches Ok(v) && v@ == fs,
            Err(f) => r matches Err(e) && err_is(e, f),
        },
{
    let lim = info.items_end as usize;
    let (n, p) = match read_var_u32(bytes, info.items_start as usize, lim) {
        Ok(x) => x,
        Err(e) => return Err(decode_err(e)),
    };
    let (fs, q) = if info.exprs {
        read_expr_funcs(bytes, p, lim, n)?
    } else {
        read_var_u32s(bytes, p, lim, n)?
    };
    if q != lim {
        return Err(ParseError::SectionSizeMismatch);
    }
    Ok(fs)
}

/// Reads the element section `bytes[start..end]` into the state: the table,
/// functions and byte range of each active segment.
pub fn read_element_section(bytes: &[u8], start: usize, end: usize, st: &mut ParseState) -> (r: Result<(), ParseError>)
    requires
        start <= end <= bytes.len(),
    ensures
        state_result(r, final(st)@, element_section_step(bytes@, start as int, end as int, old(st)@)),
        r is Ok && bytes@.len() <= u32::MAX && addresses_inside(old(st)@.module, bytes@.len() as int)
            ==> addresses_inside(final(st)@.module, bytes@.len() as int),
{
    let (n, p0) = match read_var_u32(bytes, start, end) {
        Ok(x) => x,
        Err(e) => return Err(decode_err(e)),
    };
    let ghost st0 = st@;
    let mut pos = p0;
    let mut i: u32 = 0;
    while i < n
        invariant
            i <= n,
            p0 <= pos <= end <= bytes.len(),
            var_u32_at(bytes@, start as int, end as int) == Ok::<(u32, int), Seq<char>>((n, p0 as int)),
            st0 == old(st)@,
            elements_run(bytes@, p0 as int, end as int, i as nat, st0) == Ok::<(StateV, int), ErrorV>((st@, pos as int)),
            bytes@.len() <= u32::MAX && addresses_inside(st0.module, bytes@.len() as int)
                ==> addresses_inside(st@.module, bytes@.len() as int),
        decreases n - i,
    {
        let (info, next) = match read_element(bytes, pos, end) {
            Ok(x) => x,
            Err(e) => {
                proof { lemma_elements_err_stays(bytes@, p0 as int, end as int, st0, (i + 1) as nat, n as nat); }
                return Err(decode_err(e));
            },
        };
        match info.active_table {
            None => {},
            Some(t) => {
                let funcs = match read_element_funcs(bytes, info) {
                    Ok(v) => v,
                    Err(e) => {
                        proof { lemma_elements_err_stays(bytes@, p0 as int, end as int, st0, (i + 1) as nat, n as nat); }
                        return Err(e);
                    },
                };
                let table_id = match t { Some(x) => x, None => 0 };
                let ghost es0 = st@.module.elements;
                push_view(&mut st.module.elements, RustElement {
                    table_id,
                    funcs,
                    start_address: #[verifier::truncate] (info.start as u32),
                    end_address: #[verifier::truncate] (info.end as u32),
                });
                proof {
                    let len = bytes@.len() as int;
                    let el = st@.module.elements;
                    if len <= u32::MAX && addresses_inside(st0.module, len) {
                        assert forall|k: int| 0 <= k < el.len() implies
                            (#[trigger] el[k]).start_address < el[k].end_address <= len by {
                            if k < es0.len() {
                                assert(el[k] == es0[k]);
                            }
                        }
                    }
                }
            },
        }
        pos = next;
        i = i + 1;
    }
    if pos != end {
        return Err(ParseError::SectionSizeMismatch);
    }
    Ok(())
}

// ---------------------------------------------------------------------
// Function bodies

/// The parameters of a function as its first locals, numbered from 0.
pub open spec fn param_locals(params: Seq<Seq<char>>) -> Seq<LocalV> {
    Seq::new(params.len(), |i: int| LocalV { index: i as u32, ty: params[i] })
}

/// `count` locals of type `ty` numbered from `first`.
pub open spec fn local_group(ty: Seq<char>, first: u32, count: nat) -> Seq<LocalV> {
    Seq::new(count, |j: int| LocalV { index: (first + j) as u32, ty })
}

/// The local declaration groups as plain values.
pub open spec fn groups_v(g: Seq<Result<(u32, ValTy), String>>) -> Seq<Result<(u32, ValTy), Seq<char>>> {
    g.map_values(|x: Result<(u32, ValTy), String>| match x {
        Ok(p) => Ok(p),
        Err(m) => Err(m@),
    })
}

/// The locals after the declaration groups `groups`, starting from `init`
/// with next index `next0`, and the next index after them; a group whose
/// last local would not have an index below `u32::MAX` is refused.
pub open spec fn locals_run(groups: Seq<Result<(u32, ValTy), Seq<char>>>, init: Seq<LocalV>, next0: u32) -> Result<(Seq<LocalV>, u32), ErrorV>
    decreases groups.len(),
{
    if groups.len() == 0 {
        Ok((init, next0))
    } else {
        match locals_run(groups.drop_last(), init, next0) {
            Ok((ls, nx)) => match groups.last() {
                Ok((c, t)) => match val_type_name(t) {
                    Ok(n) => if nx + c > u32::MAX {
                        Err(ErrorV::TooManyLocals)
                    } else {
                        Ok((ls + local_group(n, nx, c as nat), (nx + c) as u32))
                    },
                    Err(e) => Err(e),
                },
                Err(m) => Err(decode_error(m)),
            },
            Err(e) => Err(e),
        }
    }
}

/// `a + b` wrapping around after `u32::MAX`.
pub open spec fn add_wrap(a: u32, b: u32) -> u32 {
    if a + b > u32::MAX { (a + b - 0x1_0000_0000) as u32 } else { (a + b) as u32 }
}

/// The state after the function body `bytes[start..end]`: the next entry of
/// the function section gives its type, whose parameters are its first
/// locals; its index comes after the imported functions, and it is named
/// `func_<index>` until the name section says otherwise.
pub open spec fn code_entry_step(bytes: Seq<u8>, start: int, end: int, st: StateV) -> Result<StateV, ErrorV> {
    if st.ci >= st.fti.len() {
        Err(ErrorV::CodeWithoutFunction)
    } else {
        let ti = st.fti[st.ci as int];
        if ti >= st.module.types.len() {
            Err(ErrorV::UnknownTypeIndex(ti))
        } else {
            let params = st.module.types[ti as int].params;
            let id = add_wrap(st.nfi, st.ci);
            let (groups, ops) = wasm_locals(bytes, start, end);
            match locals_run(groups, param_locals(params), params.len() as u32) {
                Ok((locals, _)) => match ops {
                    Ok(p) => match stream_spec(bytes, p, end) {
                        Ok(body) => Ok(StateV {
                            module: ModuleV {
                                funcs: st.module.funcs.push(FuncV { id, name: func_label(id), type_index: ti, locals, body }),
                                ..st.module
                            },
                            ci: next_u32(st.ci),
                            ..st
                        }),
                        Err(e) => Err(e),
                    },
                    Err(m) => Err(decode_error(m)),
                },
                Err(e) => Err(e),
            }
        }
    }
}

proof fn lemma_locals_err_stays(groups: Seq<Result<(u32, ValTy), Seq<char>>>, init: Seq<LocalV>, next0: u32, i: int, j: int)
    requires
        0 <= i <= j <= groups.len(),
        locals_run(groups.take(i), init, next0) is Err,
    ensures
        locals_run(groups.take(j), init, next0) == locals_run(groups.take(i), init, next0),
    decreases j - i,
{
    if i < j {
        assert(groups.take(i + 1).drop_last() =~= groups.take(i));
        lemma_locals_err_stays(groups, init, next0, i + 1, j);
    }
}

/// The locals of a function: its parameters, then the declared groups.
fn build_locals(params: &Vec<String>, groups: &Vec<Result<(u32, ValTy), String>>) -> (r: Result<Vec<RustLocal>, ParseError>)
    ensures
        match locals_run(groups_v(groups@), param_locals(views(*params)), params@.len() as u32) {
            Ok((ls, _)) => r matches Ok(v) && views(v) == ls,
            Err(f) => r matches Err(e) && err_is(e, f),
        },
{
    let ghost pv = views(*params);
    let mut out: Vec<RustLocal> = Vec::new();
    proof { lemma_views_empty(out); }
    let np = params.len();
    let mut i: usize = 0;
    while i < np
        invariant
            0 <= i <= np == params@.len() == pv.len(),
            pv == views(*params),
            views(out) == param_locals(pv).take(i as int),
        decreases np - i,
    {
        push_view(&mut out, RustLocal { index: #[verifier::truncate] (i as u32), ty: params[i].clone() });
        i = i + 1;
        proof { assert(views(out) =~= param_locals(pv).take(i as int)); }
    }
    proof { assert(param_locals(pv).take(np as int) =~= param_locals(pv)); }
    let ghost gv = groups_v(groups@);
    let ghost init = param_locals(pv);
    let mut next: u32 = #[verifier::truncate] (np as u32);
    let ghost next0 = next;
    let ng = groups.len();
    let mut k: usize = 0;
    proof { assert(gv.take(0) =~= Seq::<Result<(u32, ValTy), Seq<char>>>::empty()); }
    while k < ng
        invariant
            0 <= k <= ng == groups@.len() == gv.len(),
            gv == groups_v(groups@),
            init == param_locals(views(*params)),
            next0 == params@.len() as u32,
            locals_run(gv.take(k as int), init, next0) == Ok::<(Seq<LocalV>, u32), ErrorV>((views(out), next)),
        decreases ng - k,
    {
        proof {
            assert(gv.take(k + 1).drop_last() =~= gv.take(k as int));
            assert(gv.take(k + 1).last() == gv[k as int]);
        }
        match &groups[k] {
            Err(e) => {
                proof { lemma_locals_err_stays(gv, init, next0, k + 1, ng as int); assert(gv.take(ng as int) =~= gv); }
                return Err(decode_err(e.clone()));
            },
            Ok((c, t)) => {
                let c = *c;
                let ty = match val_type_to_string(t.duplicate()) {
                    Ok(x) => x,
                    Err(e) => {
                        proof { lemma_locals_err_stays(gv, init, next0, k + 1, ng as int); assert(gv.take(ng as int) =~= gv); }
                        return Err(e);
                    },
                };
                if next as u64 + c as u64 > u32::MAX as u64 {
                    proof { lemma_locals_err_stays(gv, init, next0, k + 1, ng as int); assert(gv.take(ng as int) =~= gv); }
                    return Err(ParseError::TooManyLocals);
                }
                let ghost before = views(out);
                let mut j: u32 = 0;
                while j < c
                    invariant
                        j <= c,
                        next + c <= u32::MAX,
                        views(out) == before + local_group(ty@, next, j as nat),
                    decreases c - j,
                {
                    push_view(&mut out, RustLocal { index: next + j, ty: ty.clone() });
                    j = j + 1;
                    proof { assert(views(out) =~= before + local_group(ty@, next, j as nat)); }
                }
                next = next + c;
            },
        }
        k = k + 1;
    }
    proof { assert(gv.take(ng as int) =~= gv); }
    Ok(out)
}

/// Reads the function body `bytes[start..end]` into the state: its type,
/// parameters and locals, and its instruction tree.
pub fn read_code_entry(bytes: &[u8], start: usize, end: usize, st: &mut ParseState) -> (r: Result<(), ParseError>)
    requires
        start <= end <= bytes.len(),
    ensures
        state_result(r, final(st)@, code_entry_step(bytes@, start as int, end as int, old(st)@)),
        r is Ok && end <= u32::MAX && module_instrs_well_formed(bytes@, old(st)@.module) ==> module_instrs_well_formed(bytes@, final(st)@.module),
{
    let ci = st.code_index;
    if ci as usize >= st.function_type_indices.len() {
        return Err(ParseError::CodeWithoutFunction);
    }
    let ti = st.function_type_indices[ci as usize];
    if ti as usize >= st.module.types.len() {
        return Err(ParseError::UnknownTypeIndex(ti));
    }
    proof { assert(views(st.module.types)[ti as int] == st.module.types@[ti as int]@); }
    let id = st.num_func_imports.wrapping_add(ci);
    let (groups, ops) = read_locals(bytes, start, end);
    proof {
        assert(groups_v(groups@) =~= wasm_locals(bytes@, start as int, end as int).0);
    }
    let locals = build_locals(&st.module.types[ti as usize].params, &groups)?;
    let p = match ops {
        Ok(p) => p,
        Err(e) => return Err(decode_err(e)),
    };
    let body = parse_instr_stream(bytes, p, end)?;
    let ghost fs0 = st@.module.funcs;
    push_view(&mut st.module.funcs, RustFunc { id, name: func_name_of(id), type_index: ti, locals, body });
    proof {
        let fs = st@.module.funcs;
        assert forall|k: int| 0 <= k < fs.len() && end <= u32::MAX && module_instrs_well_formed(bytes@, old(st)@.module)
            implies instrs_well_formed(bytes@, (#[trigger] fs[k]).body) by {
            if k < fs0.len() {
                assert(fs[k] == fs0[k]);
            }
        }
    }
    st.code_index = if ci == u32::MAX { 0 } else { ci + 1 };
    Ok(())
}

// ---------------------------------------------------------------------
// The `name` custom section

/// The names of a name map, or the error of the first entry that could not
/// be read.
pub open spec fn name_entries(ns: Seq<NamingV>) -> Result<Seq<NameEntryV>, Seq<char>>
    decreases ns.len(),
{
    if ns.len() == 0 {
        Ok(seq![])
    } else {
        match name_entries(ns.drop_last()) {
            Ok(es) => match ns.last() {
                Ok((i, v)) => Ok(es.push(NameEntryV { index: i, value: v })),
                Err(m) => Err(m),
            },
            Err(m) => Err(m),
        }
    }
}

/// The local names of function `fi` in a name map, or the error of the
/// first entry that could not be read.
pub open spec fn local_name_entries(fi: u32, ns: Seq<NamingV>) -> Result<Seq<LocalNameEntryV>, Seq<char>>
    decreases ns.len(),
{
    if ns.len() == 0 {
        Ok(seq![])
    } else {
        match local_name_entries(fi, ns.drop_last()) {
            Ok(es) => match ns.last() {
                Ok((i, v)) => Ok(es.push(LocalNameEntryV { function_index: fi, local_index: i, value: v })),
                Err(m) => Err(m),
            },
            Err(m) => Err(m),
        }
    }
}

/// The local names of an indirect name map, function by function, or the
/// error of the first entry that could not be read.
pub open spec fn indirect_entries(ls: Seq<Result<(u32, Seq<NamingV>), Seq<char>>>) -> Result<Seq<LocalNameEntryV>, Seq<char>>
    decreases ls.len(),
{
    if ls.len() == 0 {
        Ok(seq![])
    } else {
        match indirect_entries(ls.drop_last()) {
            Ok(es) => match ls.last() {
                Ok((fi, ns)) => match local_name_entries(fi, ns) {
                    Ok(more) => Ok(es + more),
                    Err(m) => Err(m),
                },
                Err(m) => Err(m),
            },
            Err(m) => Err(m),
        }
    }
}

/// The state after the subsections `subs` of a `name` section: the
/// function names and local names are appended in order; a subsection that
/// could not be read, or of another kind, is skipped; the error of the
/// first entry of a map that could not be read.
pub open spec fn names_apply(subs: Seq<Result<NameSubV, Seq<char>>>, st: StateV) -> Result<StateV, Seq<char>>
    decreases subs.len(),
{
    if subs.len() == 0 {
        Ok(st)
    } else {
        match names_apply(subs.drop_last(), st) {
            Ok(s) => match subs.last() {
                Ok(NameSubV::Function(ns)) => match name_entries(ns) {
                    Ok(es) => Ok(StateV { module: ModuleV { func_names: s.module.func_names + es, ..s.module }, ..s }),
                    Err(m) => Err(m),
                },
                Ok(NameSubV::Local(ls)) => match indirect_entries(ls) {
                    Ok(es) => Ok(StateV { module: ModuleV { local_names: s.module.local_names + es, ..s.module }, ..s }),
                    Err(m) => Err(m),
                },
                _ => Ok(s),
            },
            Err(m) => Err(m),
        }
    }
}

proof fn lemma_name_entries_err_stays(ns: Seq<NamingV>, i: int, j: int)
    requires
        0 <= i <= j <= ns.len(),
        name_entries(ns.take(i)) is Err,
    ensures
        name_entries(ns.take(j)) == name_entries(ns.take(i)),
    decreases j - i,
{
    if i < j {
        assert(ns.take(i + 1).drop_last() =~= ns.take(i));
        lemma_name_entries_err_stays(ns, i + 1, j);
    }
}

proof fn lemma_local_name_entries_err_stays(fi: u32, ns: Seq<NamingV>, i: int, j: int)
    requires
        0 <= i <= j <= ns.len(),
        local_name_entries(fi, ns.take(i)) is Err,
    ensures
        local_name_entries(fi, ns.take(j)) == local_name_entries(fi, ns.take(i)),
    decreases j - i,
{
    if i < j {
        assert(ns.take(i + 1).drop_last() =~= ns.take(i));
        lemma_local_name_entries_err_stays(fi, ns, i + 1, j);
    }
}

proof fn lemma_indirect_entries_err_stays(ls: Seq<Result<(u32, Seq<NamingV>), Seq<char>>>, i: int, j: int)
    requires
        0 <= i <= j <= ls.len(),
        indirect_entries(ls.take(i)) is Err,
    ensures
        indirect_entries(ls.take(j)) == indirect_entries(ls.take(i)),
    decreases j - i,
{
    if i < j {
        assert(ls.take(i + 1).drop_last() =~= ls.take(i));
        lemma_indirect_entries_err_stays(ls, i + 1, j);
    }
}

proof fn lemma_names_apply_err_stays(subs: Seq<Result<NameSubV, Seq<char>>>, st: StateV, i: int, j: int)
    requires
        0 <= i <= j <= subs.len(),
        names_apply(subs.take(i), st) is Err,
    ensures
        names_apply(subs.take(j), st) == names_apply(subs.take(i), st),
    decreases j - i,
{
    if i < j {
        assert(subs.take(i + 1).drop_last() =~= subs.take(i));
        lemma_names_apply_err_stays(subs, st, i + 1, j);
    }
}

/// Appends the entries of a function-name map to `out`.
fn push_names(ns: &Vec<NamingItem>, out: &mut Vec<RustNameEntry>) -> (r: Result<(), ParseError>)
    ensures
        match name_entries(namings_v(ns@)) {
            Ok(es) => r is Ok && views(*final(out)) == views(*old(out)) + es,
            Err(m) => r matches Err(e) && err_is(e, decode_error(m)),
        },
{
    let ghost nv = namings_v(ns@);
    let ghost v0 = views(*out);
    let ghost mut acc: Seq<NameEntryV> = seq![];
    let n = ns.len();
    let mut k: usize = 0;
    proof { assert(nv.take(0) =~= Seq::<NamingV>::empty()); assert(v0 + acc =~= v0); }
    while k < n
        invariant
            0 <= k <= n == ns@.len() == nv.len(),
            nv == namings_v(ns@),
            v0 == views(*old(out)),
            name_entries(nv.take(k as int)) == Ok::<Seq<NameEntryV>, Seq<char>>(acc),
            views(*out) == v0 + acc,
        decreases n - k,
    {
        proof {
            assert(nv.take(k + 1).drop_last() =~= nv.take(k as int));
            assert(nv.take(k + 1).last() == nv[k as int]);
        }
        match &ns[k] {
            Ok((i, v)) => {
                push_view(out, RustNameEntry { index: *i, value: v.clone() });
                proof {
                    acc = acc.push(NameEntryV { index: *i, value: v@ });
                    assert(views(*out) =~= v0 + acc);
                }
            },
            Err(e) => {
                proof { lemma_name_entries_err_stays(nv, k + 1, n as int); assert(nv.take(n as int) =~= nv); }
                return Err(decode_err(e.clone()));
            },
        }
        k = k + 1;
    }
    proof { assert(nv.take(n as int) =~= nv); }
    Ok(())
}

/// Appends the entries of the local-name map of function `fi` to `out`.
fn push_local_names(fi: u32, ns: &Vec<NamingItem>, out: &mut Vec<RustLocalNameEntry>) -> (r: Result<(), ParseError>)
    ensures
        match local_name_entries(fi, namings_v(ns@)) {
            Ok(es) => r is Ok && views(*final(out)) == views(*old(out)) + es,
            Err(m) => r matches Err(e) && err_is(e, decode_error(m)),
        },
{
    let ghost nv = namings_v(ns@);
    let ghost v0 = views(*out);
    let ghost mut acc: Seq<LocalNameEntryV> = seq![];
    let n = ns.len();
    let mut k: usize = 0;
    proof { assert(nv.take(0) =~= Seq::<NamingV>::empty()); assert(v0 + acc =~= v0); }
    while k < n
        invariant
            0 <= k <= n == ns@.len() == nv.len(),
            nv == namings_v(ns@),
            v0 == views(*old(out)),
            local_name_entries(fi, nv.take(k as int)) == Ok::<Seq<LocalNameEntryV>, Seq<char>>(acc),
            views(*out) == v0 + acc,
        decreases n - k,
    {
        proof {
            assert(nv.take(k + 1).drop_last() =~= nv.take(k as int));
            assert(nv.take(k + 1).last() == nv[k as int]);
        }
        match &ns[k] {
            Ok((i, v)) => {
                push_view(out, RustLocalNameEntry { function_index: fi, local_index: *i, value: v.clone() });
                proof {
                    acc = acc.push(LocalNameEntryV { function_index: fi, local_index: *i, value: v@ });
                    assert(views(*out) =~= v0 + acc);
                }
            },
            Err(e) => {
                proof { lemma_local_name_entries_err_stays(fi, nv, k + 1, n as int); assert(nv.take(n as int) =~= nv); }
                return Err(decode_err(e.clone()));
            },
        }
        k = k + 1;
    }
    proof { assert(nv.take(n as int) =~= nv); }
    Ok(())
}

/// Appends the local names of an indirect name map to `out`.
fn push_indirect_names(ls: &Vec<Result<(u32, Vec<NamingItem>), String>>, out: &mut Vec<RustLocalNameEntry>) -> (r: Result<(), ParseError>)
    ensures
        match indirect_entries(ls@.map_values(|x: Result<(u32, Vec<NamingItem>), String>| indirect_v(x))) {
            Ok(es) => r is Ok && views(*final(out)) == views(*old(out)) + es,
            Err(m) => r matches Err(e) && err_is(e, decode_error(m)),
        },
{
    let ghost lv = ls@.map_values(|x: Result<(u32, Vec<NamingItem>), String>| indirect_v(x));
    let ghost v0 = views(*out);
    let ghost mut acc: Seq<LocalNameEntryV> = seq![];
    let n = ls.len();
    let mut k: usize = 0;
    proof { assert(lv.take(0) =~= Seq::<Result<(u32, Seq<NamingV>), Seq<char>>>::empty()); assert(v0 + acc =~= v0); }
    while k < n
        invariant
            0 <= k <= n == ls@.len() == lv.len(),
            lv == ls@.map_values(|x: Result<(u32, Vec<NamingItem>), String>| indirect_v(x)),
            v0 == views(*old(out)),
            indirect_entries(lv.take(k as int)) == Ok::<Seq<LocalNameEntryV>, Seq<char>>(acc),
            views(*out) == v0 + acc,
        decreases n - k,
    {
        proof {
            assert(lv.take(k + 1).drop_last() =~= lv.take(k as int));
            assert(lv.take(k + 1).last() == lv[k as int]);
        }
        match &ls[k] {
            Ok((fi, ns)) => {
                let ghost before = views(*out);
                match push_local_names(*fi, ns, out) {
                    Ok(()) => {
                        proof {
                            let more = local_name_entries(*fi, namings_v(ns@))->Ok_0;
                            acc = acc + more;
                            assert(views(*out) =~= v0 + acc);
                        }
                    },
                    Err(e) => {
                        proof { lemma_indirect_entries_err_stays(lv, k + 1, n as int); assert(lv.take(n as int) =~= lv); }
                        return Err(e);
                    },
                }
            },
            Err(e) => {
                proof { lemma_indirect_entries_err_stays(lv, k + 1, n as int); assert(lv.take(n as int) =~= lv); }
                return Err(decode_err(e.clone()));
            },
        }
        k = k + 1;
    }
    proof { assert(lv.take(n as int) =~= lv); }
    Ok(())
}

/// Reads the `name` section data `bytes[pos..end]` into the state: the
/// function names and the local names.
fn read_names(bytes: &[u8], pos: usize, end: usize, st: &mut ParseState) -> (r: Result<(), ParseError>)
    requires
        pos <= end <= bytes.len(),
    ensures
        match names_apply(wasm_name_section(bytes@, pos as int, end as int), old(st)@) {
            Ok(s) => r is Ok && final(st)@ == s,
            Err(m) => r matches Err(e) && err_is(e, decode_error(m)),
        },
{
    let subs = read_name_section(bytes, pos, end);
    let ghost sv = name_subs_v(subs@);
    let ghost st0 = st@;
    let n = subs.len();
    let mut k: usize = 0;
    proof { assert(sv.take(0) =~= Seq::<Result<NameSubV, Seq<char>>>::empty()); }
    while k < n
        invariant
            0 <= k <= n == subs@.len() == sv.len(),
            sv == name_subs_v(subs@),
            sv == wasm_name_section(bytes@, pos as int, end as int),
            st0 == old(st)@,
            names_apply(sv.take(k as int), st0) == Ok::<StateV, Seq<char>>(st@),
        decreases n - k,
    {
        proof {
            assert(sv.take(k + 1).drop_last() =~= sv.take(k as int));
            assert(sv.take(k + 1).last() == sv[k as int]);
        }
        match &subs[k] {
            Ok(NameSub::Function(ns)) => {
                if let Err(e) = push_names(ns, &mut st.module.func_names) {
                    proof { lemma_names_apply_err_stays(sv, st0, k + 1, n as int); assert(sv.take(n as int) =~= sv); }
                    return Err(e);
                }
            },
            Ok(NameSub::Local(ls)) => {
                if let Err(e) = push_indirect_names(ls, &mut st.module.local_names) {
                    proof { lemma_names_apply_err_stays(sv, st0, k + 1, n as int); assert(sv.take(n as int) =~= sv); }
                    return Err(e);
                }
            },
            _ => {},
        }
        k = k + 1;
    }
    proof { assert(sv.take(n as int) =~= sv); }
    Ok(())
}

/// The state after the custom section `bytes[start..end]` (its section
/// entry already recorded): for the section named `name`, its function and
/// local names.
pub open spec fn custom_section_step(bytes: Seq<u8>, start: int, end: int, st: StateV) -> Result<StateV, ErrorV> {
    match wasm_custom_header(bytes, start, end) {
        Ok((name, d)) => if name == "name"@ {
            match names_apply(wasm_name_section(bytes, d as int, end), st) {
                Ok(s) => Ok(s),
                Err(m) => Err(decode_error(m)),
            }
        } else {
            Ok(st)
        },
        Err(m) => Err(decode_error(m)),
    }
}

/// Reads the custom section `bytes[start..end]`: the names of a `name`
/// section; other custom sections carry nothing the data model keeps.
pub fn read_custom_section(bytes: &[u8], start: usize, end: usize, st: &mut ParseState) -> (r: Result<(), ParseError>)
    requires
        start <= end <= bytes.len(),
    ensures
        state_result(r, final(st)@, custom_section_step(bytes@, start as int, end as int, old(st)@)),
{
    let (name, d) = match read_custom_header(bytes, start, end) {
        Ok(x) => x,
        Err(e) => return Err(decode_err(e)),
    };
    let is_name = name == String::from_str("name");
    if is_name {
        read_names(bytes, d as usize, end, st)
    } else {
        Ok(())
    }
}

// ---------------------------------------------------------------------
// Payloads and the whole module

/// The state with the section `name` over `start..end` recorded.
pub open spec fn with_section(st: StateV, name: Seq<char>, start: u64, end: u64) -> StateV {
    StateV {
        module: ModuleV {
            sections: st.module.sections.push(SectionV { section: name, start_address: start as u32, end_address: end as u32 }),
            ..st.module
        },
        ..st
    }
}

/// The state after the section with id `id` and contents
/// `bytes[start..end]` of a module: its entry in the section list (the data
/// count section has none, the tag section is listed as custom), then what
/// the data model keeps of its contents.
pub open spec fn section_step(bytes: Seq<u8>, id: u8, start: u64, end: u64, st: StateV) -> Result<StateV, ErrorV> {
    let s = start as int;
    let e = end as int;
    if id == 0 {
        custom_section_step(bytes, s, e, with_section(st, "custom"@, start, end))
    } else if id == 1 {
        let st1 = with_section(st, "type"@, start, end);
        match type_section_spec(bytes, s, e) {
            Ok(ts) => Ok(StateV { module: ModuleV { types: st1.module.types + ts, ..st1.module }, ..st1 }),
            Err(err) => Err(err),
        }
    } else if id == 2 {
        import_section_step(bytes, s, e, with_section(st, "import"@, start, end))
    } else if id == 3 {
        function_section_step(bytes, s, e, with_section(st, "func"@, start, end))
    } else if id == 4 {
        Ok(with_section(st, "table"@, start, end))
    } else if id == 5 {
        memory_section_step(bytes, s, e, with_section(st, "memory"@, start, end))
    } else if id == 6 {
        global_section_step(bytes, s, e, with_section(st, "global"@, start, end))
    } else if id == 7 {
        export_section_step(bytes, s, e, with_section(st, "export"@, start, end))
    } else if id == 8 {
        Ok(with_section(st, "start"@, start, end))
    } else if id == 9 {
        element_section_step(bytes, s, e, with_section(st, "element"@, start, end))
    } else if id == 11 {
        Ok(with_section(st, "data"@, start, end))
    } else if id == 13 {
        Ok(with_section(st, "custom"@, start, end))
    } else {
        Ok(st)
    }
}

/// The state after a payload other than a header or an end; `comp` says
/// whether it belongs to a component, of whose sections only the custom
/// ones are recorded.
pub open spec fn payload_step(bytes: Seq<u8>, p: PayloadInfo, comp: bool, st: StateV) -> Result<StateV, ErrorV> {
    match p {
        PayloadInfo::Section { id, start, end } => if comp {
            if id == 0 {
                custom_section_step(bytes, start as int, end as int, with_section(st, "custom"@, start, end))
            } else {
                Ok(st)
            }
        } else {
            section_step(bytes, id, start, end, st)
        },
        PayloadInfo::CodeStart { start, end } => if comp {
            Ok(st)
        } else {
            Ok(with_section(st, "code"@, start, end))
        },
        PayloadInfo::CodeEntry { start, end } => code_entry_step(bytes, start as int, end as int, st),
        _ => Ok(st),
    }
}

/// The state and the stack of open encodings (`true` for a component)
/// after the payloads `ps`; a header opens an encoding and an end closes
/// it; a payload that could not be read is an error.
pub open spec fn walk(bytes: Seq<u8>, ps: Seq<Result<PayloadInfo, Seq<char>>>, st: StateV, enc: Seq<bool>) -> Result<(StateV, Seq<bool>), ErrorV>
    decreases ps.len(),
{
    if ps.len() == 0 {
        Ok((st, enc))
    } else {
        match walk(bytes, ps.drop_last(), st, enc) {
            Ok((s, en)) => match ps.last() {
                Err(m) => Err(decode_error(m)),
                Ok(PayloadInfo::Version { component }) => Ok((s, en.push(component))),
                Ok(PayloadInfo::End) => Ok((s, if en.len() > 0 { en.drop_last() } else { en })),
                Ok(p) => match payload_step(bytes, p, en.len() > 0 && en.last(), s) {
                    Ok(s2) => Ok((s2, en)),
                    Err(e) => Err(e),
                },
            },
            Err(e) => Err(e),
        }
    }
}

/// The empty module.
pub open spec fn empty_module() -> ModuleV {
    ModuleV {
        sections: seq![], types: seq![], func_imports: seq![], table_imports: seq![],
        memory_imports: seq![], funcs: seq![], globals: seq![], memories: seq![],
        exported_funcs: seq![], table_exports: seq![], elements: seq![], func_names: seq![],
        local_names: seq![], initial_memory_pages: 0,
    }
}

/// The state before the first payload.
pub open spec fn initial_state() -> StateV {
    StateV { module: empty_module(), fti: seq![], nfi: 0, nti: 0, ci: 0 }
}

/// The name the first entry for function `id` gives it, if any.
pub open spec fn first_name(names: Seq<NameEntryV>, id: u32) -> Option<Seq<char>>
    decreases names.len(),
{
    if names.len() == 0 {
        None
    } else if names[0].index == id {
        Some(names[0].value)
    } else {
        first_name(names.subrange(1, names.len() as int), id)
    }
}

/// A function renamed after the first entry of `names` for it.
pub open spec fn named(f: FuncV, names: Seq<NameEntryV>) -> FuncV {
    match first_name(names, f.id) {
        Some(n) => FuncV { name: n, ..f },
        None => f,
    }
}

/// The initial page count of the module's first memory: the first imported
/// one, since imports come first in the memory index space, else the first
/// defined one; 0 without memory.
pub open spec fn initial_pages(m: ModuleV) -> u64 {
    if m.memory_imports.len() > 0 {
        m.memory_imports[0].initial_pages
    } else if m.memories.len() > 0 {
        m.memories[0].initial_pages
    } else {
        0
    }
}

/// The module once every payload is read: each function takes the name
/// the name section gives it, and the first memory's page count is noted.
pub open spec fn finish(m: ModuleV) -> ModuleV {
    ModuleV {
        funcs: m.funcs.map_values(|f: FuncV| named(f, m.func_names)),
        initial_memory_pages: initial_pages(m),
        ..m
    }
}

/// The module a binary describes, or why it cannot be read.
pub open spec fn parse_spec(bytes: Seq<u8>) -> Result<ModuleV, ErrorV> {
    match walk(bytes, wasm_payloads(bytes), initial_state(), seq![]) {
        Ok((s, _)) => Ok(finish(s.module)),
        Err(e) => Err(e),
    }
}

/// Reads the section with id `id` and contents `bytes[start..end]` of a
/// module into the state.
fn read_section(bytes: &[u8], id: u8, start: u64, end: u64, st: &mut ParseState) -> (r: Result<(), ParseError>)
    requires
        start <= end <= bytes.len(),
    ensures
        state_result(r, final(st)@, section_step(bytes@, id, start, end, old(st)@)),
        r is Ok && end <= u32::MAX && module_instrs_well_formed(bytes@, old(st)@.module) ==> module_instrs_well_formed(bytes@, final(st)@.module),
        r is Ok && bytes@.len() <= u32::MAX && addresses_inside(old(st)@.module, bytes@.len() as int)
            ==> addresses_inside(final(st)@.module, bytes@.len() as int),
{
    proof { lemma_section_step(bytes@, id, start, end, old(st)@); }
    let s = start as usize;
    let e = end as usize;
    if id == 0 {
        push_view(&mut st.module.sections, to_section("custom", start, end));
        read_custom_section(bytes, s, e, st)
    } else if id == 1 {
        push_view(&mut st.module.sections, to_section("type", start, end));
        let mut ts = parse_type_section(bytes, s, e)?;
        append_view(&mut st.module.types, &mut ts);
        Ok(())
    } else if id == 2 {
        push_view(&mut st.module.sections, to_section("import", start, end));
        read_import_section(bytes, s, e, st)
    } else if id == 3 {
        push_view(&mut st.module.sections, to_section("func", start, end));
        read_function_section(bytes, s, e, st)
    } else if id == 4 {
        push_view(&mut st.module.sections, to_section("table", start, end));
        Ok(())
    } else if id == 5 {
        push_view(&mut st.module.sections, to_section("memory", start, end));
        read_memory_section(bytes, s, e, st)
    } else if id == 6 {
        push_view(&mut st.module.sections, to_section("global", start, end));
        read_global_section(bytes, s, e, st)
    } else if id == 7 {
        push_view(&mut st.module.sections, to_section("export", start, end));
        read_export_section(bytes, s, e, st)
    } else if id == 8 {
        push_view(&mut st.module.sections, to_section("start", start, end));
        Ok(())
    } else if id == 9 {
        push_view(&mut st.module.sections, to_section("element", start, end));
        read_element_section(bytes, s, e, st)
    } else if id == 11 {
        push_view(&mut st.module.sections, to_section("data", start, end));
        Ok(())
    } else if id == 13 {
        push_view(&mut st.module.sections, to_section("custom", start, end));
        Ok(())
    } else {
        Ok(())
    }
}

/// Reads a payload other than a header or an end into the state.
fn read_payload(bytes: &[u8], p: PayloadInfo, comp: bool, st: &mut ParseState) -> (r: Result<(), ParseError>)
    requires
        !(p is CodeStart) ==> payload_in(p, bytes@.len() as int),
    ensures
        state_result(r, final(st)@, payload_step(bytes@, p, comp, old(st)@)),
        r is Ok && bytes@.len() <= u32::MAX && module_instrs_well_formed(bytes@, old(st)@.module) ==> module_instrs_well_formed(bytes@, final(st)@.module),
        r is Ok && bytes@.len() <= u32::MAX && addresses_inside(old(st)@.module, bytes@.len() as int)
            ==> addresses_inside(final(st)@.module, bytes@.len() as int),
{
    proof { lemma_payload_step(bytes@, p, comp, old(st)@); }
    match p {
        PayloadInfo::Section { id, start, end } => {
            assert(start <= end <= bytes.len());
            if comp {
                if id == 0 {
                    let s = start as usize;
                    let e = end as usize;
                    assert(s == start && e == end);
                    push_view(&mut st.module.sections, to_section("custom", start, end));
                    let ghost mid = st@;
                    let r = read_custom_section(bytes, s, e, st);
                    proof { lemma_custom(bytes@, s as int, e as int, mid); }
                    r
                } else {
                    Ok(())
                }
            } else {
                read_section(bytes, id, start, end, st)
            }
        },
        PayloadInfo::CodeStart { start, end } => {
            if !comp {
                push_view(&mut st.module.sections, to_section("code", start, end));
            }
            Ok(())
        },
        PayloadInfo::CodeEntry { start, end } => {
            assert(start <= end <= bytes.len());
            let s = start as usize;
            let e = end as usize;
            read_code_entry(bytes, s, e, st)
        },
        _ => Ok(()),
    }
}

proof fn lemma_walk_err_stays(bytes: Seq<u8>, ps: Seq<Result<PayloadInfo, Seq<char>>>, st: StateV, enc: Seq<bool>, i: int, j: int)
    requires
        0 <= i <= j <= ps.len(),
        walk(bytes, ps.take(i), st, enc) is Err,
    ensures
        walk(bytes, ps.take(j), st, enc) == walk(bytes, ps.take(i), st, enc),
    decreases j - i,
{
    if i < j {
        assert(ps.take(i + 1).drop_last() =~= ps.take(i));
        lemma_walk_err_stays(bytes, ps, st, enc, i + 1, j);
    }
}

/// The name the first entry of `names` for function `id` gives it.
fn find_name(names: &Vec<RustNameEntry>, id: u32) -> (r: Option<String>)
    ensures
        opt_str_view(r) == first_name(views(*names), id),
{
    let ghost nv = views(*names);
    let n = names.len();
    let mut k: usize = 0;
    proof { assert(nv.subrange(0, n as int) =~= nv); }
    while k < n
        invariant
            0 <= k <= n == names@.len() == nv.len(),
            nv == views(*names),
            first_name(nv, id) == first_name(nv.subrange(k as int, n as int), id),
        decreases n - k,
    {
        proof { assert(nv[k as int] == names@[k as int]@); }
        if names[k].index == id {
            return Some(names[k].value.clone());
        }
        proof { assert(nv.subrange(k as int, n as int).subrange(1, n - k) =~= nv.subrange(k + 1, n as int)); }
        k = k + 1;
    }
    None
}

/// Gives each function the name the name section gives it, and notes the
/// first memory's initial page count.
fn finish_module(m: &mut RustModule)
    ensures
        final(m)@ == finish(old(m)@),
{
    let ghost f0 = views(m.funcs);
    let ghost names = views(m.func_names);
    let n = m.funcs.len();
    let mut i: usize = 0;
    while i < n
        invariant
            0 <= i <= n == m.funcs@.len() == f0.len(),
            names == views(m.func_names),
            m.func_names == old(m).func_names,
            m.types == old(m).types,
            m.sections == old(m).sections,
            m.func_imports == old(m).func_imports,
            m.table_imports == old(m).table_imports,
            m.memory_imports == old(m).memory_imports,
            m.globals == old(m).globals,
            m.memories == old(m).memories,
            m.exported_funcs == old(m).exported_funcs,
            m.table_exports == old(m).table_exports,
            m.elements == old(m).elements,
            m.local_names == old(m).local_names,
            m.initial_memory_pages == old(m).initial_memory_pages,
            f0 == views(old(m).funcs),
            forall|j: int| 0 <= j < i ==> views(m.funcs)[j] == named(f0[j], names),
            forall|j: int| i <= j < n ==> views(m.funcs)[j] == f0[j],
        decreases n - i,
    {
        let id = m.funcs[i].id;
        proof { assert(views(m.funcs)[i as int].id == id); }
        let ghost before = views(m.funcs);
        match find_name(&m.func_names, id) {
            Some(name) => {
                m.funcs[i].name = name;
                proof { assert(views(m.funcs) =~= before.update(i as int, named(f0[i as int], names))); }
            },
            None => {
                proof { assert(named(f0[i as int], names) == f0[i as int]); }
            },
        }
        i = i + 1;
    }
    proof { assert(views(m.funcs) =~= f0.map_values(|f: FuncV| named(f, names))); }
    m.initial_memory_pages = if m.memory_imports.len() > 0 {
        m.memory_imports[0].initial_pages
    } else if m.memories.len() > 0 {
        m.memories[0].initial_pages
    } else {
        0
    };
    proof {
        if m.memory_imports@.len() > 0 {
            assert(views(m.memory_imports)[0] == m.memory_imports@[0]@);
        }
    }
}

/// Reads a WebAssembly binary (a module, or a component with the modules it
/// nests) into the data model: its sections, function types, imports,
/// functions with their instruction trees, globals, memories, exports,
/// active element segments and names.
pub fn parse(bytes: &[u8]) -> (r: Result<RustModule, ParseError>)
    ensures
        view_result(r, parse_spec(bytes@)),
        bytes@.len() <= u32::MAX ==> (r matches Ok(m) ==> sections_inside(m@.sections, bytes@.len() as int)),
        bytes@.len() <= u32::MAX ==> (r matches Ok(m) ==> module_instrs_well_formed(bytes@, m@)),
        bytes@.len() <= u32::MAX ==> (r matches Ok(m) ==> addresses_inside(m@, bytes@.len() as int)),
{
    let payloads = module_payloads(bytes);
    let ghost pv = payloads@.map_values(|x: Result<PayloadInfo, String>| match x {
        Ok(p) => Ok(p),
        Err(m) => Err(m@),
    });
    proof { assert(pv =~= wasm_payloads(bytes@)); }
    let mut st = ParseState {
        module: RustModule {
            sections: Vec::new(), types: Vec::new(), func_imports: Vec::new(), table_imports: Vec::new(),
            memory_imports: Vec::new(), funcs: Vec::new(), globals: Vec::new(), memories: Vec::new(),
            exported_funcs: Vec::new(), table_exports: Vec::new(), elements: Vec::new(),
            func_names: Vec::new(), local_names: Vec::new(), initial_memory_pages: 0,
        },
        function_type_indices: Vec::new(),
        num_func_imports: 0,
        num_table_imports: 0,
        code_index: 0,
    };
    proof {
        lemma_views_empty(st.module.sections);
        lemma_views_empty(st.module.types);
        lemma_views_empty(st.module.func_imports);
        lemma_views_empty(st.module.table_imports);
        lemma_views_empty(st.module.memory_imports);
        lemma_views_empty(st.module.funcs);
        lemma_views_empty(st.module.globals);
        lemma_views_empty(st.module.exported_funcs);
        lemma_views_empty(st.module.table_exports);
        lemma_views_empty(st.module.elements);
        lemma_views_empty(st.module.func_names);
        lemma_views_empty(st.module.local_names);
        assert(st@.module =~= empty_module());
        assert(st@ == initial_state());
        assert(state_inv(st@));
        assert(pv.take(0) =~= Seq::<Result<PayloadInfo, Seq<char>>>::empty());
    }
    let ghost all_ok = forall|j: int| 0 <= j < payloads@.len() ==> #[trigger] payloads@[j] is Ok;
    let mut enc: Vec<bool> = Vec::new();
    let n = payloads.len();
    let mut k: usize = 0;
    while k < n
        invariant
            0 <= k <= n == payloads@.len() == pv.len(),
            pv == wasm_payloads(bytes@),
            pv == payloads@.map_values(|x: Result<PayloadInfo, String>| match x {
                Ok(p) => Ok(p),
                Err(m) => Err(m@),
            }),
            forall|j: int| 0 <= j < payloads@.len() ==> match #[trigger] payloads@[j] {
                Ok(p) => !(p is CodeStart) ==> payload_in(p, bytes@.len() as int),
                Err(_) => true,
            },
            all_ok == (forall|j: int| 0 <= j < payloads@.len() ==> #[trigger] payloads@[j] is Ok),
            all_ok ==> forall|j: int| 0 <= j < payloads@.len() ==> (#[trigger] payloads@[j] matches Ok(p) ==> payload_in(p, bytes@.len() as int)),
            forall|j: int| 0 <= j < k ==> #[trigger] payloads@[j] is Ok,
            walk(bytes@, pv.take(k as int), initial_state(), seq![]) == Ok::<(StateV, Seq<bool>), ErrorV>((st@, enc@)),
            state_inv(st@),
            all_ok && bytes@.len() <= u32::MAX ==> sections_inside(st@.module.sections, bytes@.len() as int),
            bytes@.len() <= u32::MAX ==> module_instrs_well_formed(bytes@, st@.module),
            bytes@.len() <= u32::MAX ==> addresses_inside(st@.module, bytes@.len() as int),
        decreases n - k,
    {
        proof {
            assert(pv.take(k + 1).drop_last() =~= pv.take(k as int));
            assert(pv.take(k + 1).last() == pv[k as int]);
        }
        match &payloads[k] {
            Err(e) => {
                proof { lemma_walk_err_stays(bytes@, pv, initial_state(), seq![], k + 1, n as int); assert(pv.take(n as int) =~= pv); }
                return Err(decode_err(e.clone()));
            },
            Ok(p) => {
                let p = *p;
                match p {
                    PayloadInfo::Version { component } => {
                        enc.push(component);
                    },
                    PayloadInfo::End => {
                        if enc.len() > 0 {
                            enc.pop();
                        }
                    },
                    _ => {
                        let comp = enc.len() > 0 && enc[enc.len() - 1];
                        let ghost before = st@;
                        if let Err(e) = read_payload(bytes, p, comp, &mut st) {
                            proof { lemma_walk_err_stays(bytes@, pv, initial_state(), seq![], k + 1, n as int); assert(pv.take(n as int) =~= pv); }
                            return Err(e);
                        }
                        proof {
                            lemma_payload_step(bytes@, p, comp, before);
                            if all_ok && bytes@.len() <= u32::MAX {
                                lemma_sections_inside(p, before.module.sections, st@.module.sections, bytes@.len() as int);
                            }
                        }
                    },
                }
            },
        }
        k = k + 1;
    }
    proof { assert(pv.take(n as int) =~= pv); }
    let ghost m0 = st@.module;
    finish_module(&mut st.module);
    proof {
        let fs = st@.module.funcs;
        assert forall|k: int| 0 <= k < fs.len() && bytes@.len() <= u32::MAX implies instrs_well_formed(bytes@, (#[trigger] fs[k]).body) by {
            assert(fs[k].body == m0.funcs[k].body);
        }
    }
    Ok(st.module)
}

} // verus!
