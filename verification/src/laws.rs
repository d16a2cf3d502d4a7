//! What holds of every module the parser reads: there is one function per
//! function body, in order, with that body's instruction tree; the
//! functions carry the names of the name section, take their types by
//! position in the function section and (sections in order) are numbered
//! after the imported functions; the locals of a function start with the
//! parameters of its type and are numbered in order; the imported tables
//! and the function types of a type section are numbered in order; a global
//! section appends its globals in order with adjoining byte ranges, and the
//! globals of a module are those of its global sections; and the
//! first memory's page count is noted. (That every section, import, global
//! and element segment lies inside the binary and every instruction is well
//! formed is stated by `module::parse` itself.)
//!
//! Each law is proved from the specification of the walk over the payloads
//! (`module::parse_spec`), by an invariant that every payload keeps.

use vstd::prelude::*;
use crate::error::{ErrorV, ParseError};
use crate::nesting::{ends_within, opcodes_at_start, ranges_ok_list};
use crate::model::{FuncExportV, InstrV, FuncTypeV, FuncV, GlobalV, LocalV, ModuleV, NameEntryV, SectionV, TableImportV};
use crate::module::{
    GlobalEntry, StateV, add_wrap, apply_globals, global_entries, global_offsets, global_section_step, item_ranges, apply_imports, code_entry_step, custom_section_step, elements_run,
    exports_run, finish, first_name, group_spec, initial_pages, initial_state, locals_run,
    names_apply, param_locals, parse_spec, payload_step, section_step, type_section_spec,
    types_run, walk, with_section,
};
use crate::text::func_label;
use crate::valtype::{ValTy, val_type_name};
use crate::instr::stream_spec;
use crate::wasm::{PayloadInfo, wasm_custom_header, wasm_name_section, var_u32_at};

verus! {

// ---------------------------------------------------------------------
// The properties

/// The name a function ends up with: the first entry of the name section
/// for its index, else `func_<index>`.
pub open spec fn resolved_name(names: Seq<NameEntryV>, id: u32) -> Seq<char> {
    match first_name(names, id) {
        Some(n) => n,
        None => func_label(id),
    }
}

/// A function's type exists, its parameters are its first locals, and,
/// when the type has fewer than 2^32 parameters, its locals are numbered
/// 0, 1, 2, ... in order.
pub open spec fn locals_follow_params(f: FuncV, types: Seq<FuncTypeV>) -> bool {
    let params = types[f.type_index as int].params;
    &&& f.type_index < types.len()
    &&& params.len() <= f.locals.len()
    &&& forall|j: int| 0 <= j < params.len() ==> (#[trigger] f.locals[j]).ty == params[j]
    &&& params.len() <= u32::MAX ==> forall|j: int| 0 <= j < f.locals.len() ==> (#[trigger] f.locals[j]).index == j
}

/// Every function satisfies `locals_follow_params`.
pub open spec fn funcs_typed(fs: Seq<FuncV>, types: Seq<FuncTypeV>) -> bool {
    forall|k: int| 0 <= k < fs.len() ==> locals_follow_params(#[trigger] fs[k], types)
}

/// The imported tables are numbered 0, 1, 2, ... in import order.
pub open spec fn tables_numbered(ts: Seq<TableImportV>) -> bool {
    forall|k: int| 0 <= k < ts.len() && k <= u32::MAX ==> (#[trigger] ts[k]).id == k
}

/// Every function still has its default name.
pub open spec fn default_named(fs: Seq<FuncV>) -> bool {
    forall|k: int| 0 <= k < fs.len() ==> (#[trigger] fs[k]).name == func_label(fs[k].id)
}

/// Function `k` has the type that entry `k` of the function section gives
/// it, for every `k` below 2^32.
pub open spec fn funcs_follow_entries(fs: Seq<FuncV>, fti: Seq<u32>) -> bool {
    &&& fs.len() <= fti.len() || u32::MAX < fti.len()
    &&& forall|k: int| 0 <= k < fs.len() && k <= u32::MAX ==> (#[trigger] fs[k]).type_index == fti[k]
}

/// What every payload keeps of the state.
pub open spec fn state_inv(st: StateV) -> bool {
    &&& default_named(st.module.funcs)
    &&& funcs_typed(st.module.funcs, st.module.types)
    &&& tables_numbered(st.module.table_imports)
    &&& st.module.table_imports.len() <= u32::MAX ==> st.nti == st.module.table_imports.len()
    &&& st.module.func_imports.len() <= u32::MAX ==> st.nfi == st.module.func_imports.len()
    &&& st.module.funcs.len() <= u32::MAX ==> st.ci == st.module.funcs.len()
    &&& funcs_follow_entries(st.module.funcs, st.fti)
}

/// Every recorded section lies inside a binary of `len` bytes.
pub open spec fn sections_inside(ss: Seq<SectionV>, len: int) -> bool {
    forall|k: int| 0 <= k < ss.len() ==> (#[trigger] ss[k]).start_address <= ss[k].end_address <= len
}

/// Every function import, table import, global and element segment of `m`
/// covers a non-empty byte range inside a binary of `len` bytes.
pub open spec fn addresses_inside(m: ModuleV, len: int) -> bool {
    &&& forall|k: int| 0 <= k < m.func_imports.len()
        ==> (#[trigger] m.func_imports[k]).start_address < m.func_imports[k].end_address <= len
    &&& forall|k: int| 0 <= k < m.table_imports.len()
        ==> (#[trigger] m.table_imports[k]).start_address < m.table_imports[k].end_address <= len
    &&& forall|k: int| 0 <= k < m.globals.len()
        ==> (#[trigger] m.globals[k]).start_address < m.globals[k].end_address <= len
    &&& forall|k: int| 0 <= k < m.elements.len()
        ==> (#[trigger] m.elements[k]).start_address < m.elements[k].end_address <= len
}

/// `b` has the function imports, table imports and element segments of `a`.
pub open spec fn same_imports_elements(a: ModuleV, b: ModuleV) -> bool {
    b.func_imports == a.func_imports && b.table_imports == a.table_imports && b.elements == a.elements
}

/// An instruction list whose instructions cover non-empty byte ranges
/// inside `bytes` and start at their opcode bytes.
pub open spec fn instrs_well_formed(bytes: Seq<u8>, s: Seq<InstrV>) -> bool {
    ranges_ok_list(s) && opcodes_at_start(bytes, s) && ends_within(s, bytes.len() as int)
}

/// Every instruction of every function body and global initializer covers
/// a non-empty byte range inside `bytes` and starts at its opcode byte.
pub open spec fn module_instrs_well_formed(bytes: Seq<u8>, m: ModuleV) -> bool {
    &&& forall|k: int| 0 <= k < m.funcs.len() ==> instrs_well_formed(bytes, (#[trigger] m.funcs[k]).body)
    &&& forall|k: int| 0 <= k < m.globals.len() ==> instrs_well_formed(bytes, (#[trigger] m.globals[k]).init)
}

/// The byte range a section payload reports.
pub open spec fn section_range(p: PayloadInfo) -> Option<(u64, u64)> {
    match p {
        PayloadInfo::Section { start, end, .. } => Some((start, end)),
        PayloadInfo::CodeStart { start, end } => Some((start, end)),
        _ => None,
    }
}

/// `b` is `a`, or `a` with the range of the section payload `p` added.
pub open spec fn section_added(p: PayloadInfo, a: Seq<SectionV>, b: Seq<SectionV>) -> bool {
    ||| b == a
    ||| section_range(p) matches Some((start, end)) && b.len() == a.len() + 1 && b.drop_last() == a
        && b.last().start_address == start as u32 && b.last().end_address == end as u32
}

// ---------------------------------------------------------------------
// Each step keeps the invariant

proof fn lemma_types_grow(fs: Seq<FuncV>, a: Seq<FuncTypeV>, more: Seq<FuncTypeV>)
    requires
        funcs_typed(fs, a),
    ensures
        funcs_typed(fs, a + more),
{
    assert forall|k: int| 0 <= k < fs.len() implies locals_follow_params(#[trigger] fs[k], a + more) by {
        assert(locals_follow_params(fs[k], a));
        assert((a + more)[fs[k].type_index as int] == a[fs[k].type_index as int]);
    }
}

proof fn lemma_apply_imports(st: StateV, es: Seq<crate::wasm::ImportEntry>, ranges: Seq<(u32, u32)>)
    ensures
        state_inv(st) ==> state_inv(apply_imports(st, es, ranges)),
        apply_imports(st, es, ranges).module.sections == st.module.sections,
        apply_imports(st, es, ranges).module.funcs == st.module.funcs,
        apply_imports(st, es, ranges).module.globals == st.module.globals,
        apply_imports(st, es, ranges).module.elements == st.module.elements,
    decreases es.len(),
{
    if es.len() > 0 {
        lemma_apply_imports(st, es.drop_last(), ranges);
        let s = apply_imports(st, es.drop_last(), ranges);
        let r = apply_imports(st, es, ranges);
        let ts = r.module.table_imports;
        if ts.len() == s.module.table_imports.len() + 1 && state_inv(st) {
            assert forall|k: int| 0 <= k < ts.len() && k <= u32::MAX implies (#[trigger] ts[k]).id == k by {
                if k < s.module.table_imports.len() {
                    assert(ts[k] == s.module.table_imports[k]);
                }
            }
        }
    }
}

proof fn lemma_exports_run(bytes: Seq<u8>, p0: int, end: int, n: nat, st: StateV)
    ensures
        exports_run(bytes, p0, end, n, st) matches Ok((s, _)) ==> (state_inv(st) ==> state_inv(s)) && s.module.sections == st.module.sections
            && s.module.funcs == st.module.funcs && s.module.globals == st.module.globals && same_imports_elements(st.module, s.module)
            && s.nfi == st.nfi,
    decreases n,
{
    if n > 0 {
        lemma_exports_run(bytes, p0, end, (n - 1) as nat, st);
    }
}

proof fn lemma_apply_globals(bytes: Seq<u8>, st: StateV, gs: Seq<crate::module::GlobalEntry>, ranges: Seq<(u32, u32)>)
    ensures
        apply_globals(bytes, st, gs, ranges) matches Ok(s) ==> (state_inv(st) ==> state_inv(s)) && s.module.sections == st.module.sections
            && s.module.funcs == st.module.funcs && same_imports_elements(st.module, s.module) && s.nfi == st.nfi,
    decreases gs.len(),
{
    if gs.len() > 0 {
        lemma_apply_globals(bytes, st, gs.drop_last(), ranges);
    }
}

proof fn lemma_elements_run(bytes: Seq<u8>, p0: int, end: int, n: nat, st: StateV)
    ensures
        elements_run(bytes, p0, end, n, st) matches Ok((s, _)) ==> (state_inv(st) ==> state_inv(s)) && s.module.sections == st.module.sections
            && s.module.funcs == st.module.funcs && s.module.globals == st.module.globals
            && s.module.func_imports == st.module.func_imports && s.module.table_imports == st.module.table_imports
            && s.nfi == st.nfi,
    decreases n,
{
    if n > 0 {
        lemma_elements_run(bytes, p0, end, (n - 1) as nat, st);
    }
}

proof fn lemma_names_apply(subs: Seq<Result<crate::wasm::NameSubV, Seq<char>>>, st: StateV)
    ensures
        names_apply(subs, st) matches Ok(s) ==> (state_inv(st) ==> state_inv(s)) && s.module.sections == st.module.sections
            && s.module.funcs == st.module.funcs && s.module.globals == st.module.globals && same_imports_elements(st.module, s.module)
            && s.nfi == st.nfi,
    decreases subs.len(),
{
    if subs.len() > 0 {
        lemma_names_apply(subs.drop_last(), st);
    }
}

/// A custom section keeps the invariant and touches neither the sections,
/// the functions nor the globals.
pub proof fn lemma_custom(bytes: Seq<u8>, start: int, end: int, st: StateV)
    ensures
        custom_section_step(bytes, start, end, st) matches Ok(s) ==> (state_inv(st) ==> state_inv(s)) && s.module.sections == st.module.sections
            && s.module.funcs == st.module.funcs && s.module.globals == st.module.globals && same_imports_elements(st.module, s.module)
            && s.nfi == st.nfi,
{
    if let Ok((name, d)) = wasm_custom_header(bytes, start, end) {
        lemma_names_apply(wasm_name_section(bytes, d as int, end), st);
    }
}

/// The locals that the declaration groups add keep the locals before them,
/// and keep the numbering in order.
proof fn lemma_locals_run(groups: Seq<Result<(u32, ValTy), Seq<char>>>, init: Seq<LocalV>, next0: u32)
    ensures
        locals_run(groups, init, next0) matches Ok((ls, nx)) ==> {
            &&& init.len() <= ls.len()
            &&& forall|j: int| 0 <= j < init.len() ==> #[trigger] ls[j] == init[j]
            &&& (next0 == init.len() && forall|j: int| 0 <= j < init.len() ==> (#[trigger] init[j]).index == j)
                ==> (nx == ls.len() && forall|j: int| 0 <= j < ls.len() ==> (#[trigger] ls[j]).index == j)
        },
    decreases groups.len(),
{
    if groups.len() > 0 {
        lemma_locals_run(groups.drop_last(), init, next0);
        if let Ok((ls0, nx0)) = locals_run(groups.drop_last(), init, next0) {
            if let Ok((ls, nx)) = locals_run(groups, init, next0) {
                assert forall|j: int| 0 <= j < init.len() implies #[trigger] ls[j] == init[j] by {
                    assert(ls[j] == ls0[j]);
                }
                if next0 == init.len() && forall|j: int| 0 <= j < init.len() ==> (#[trigger] init[j]).index == j {
                    assert forall|j: int| 0 <= j < ls.len() implies (#[trigger] ls[j]).index == j by {
                        if j < ls0.len() {
                            assert(ls[j] == ls0[j]);
                        }
                    }
                }
            }
        }
    }
}

proof fn lemma_code_entry(bytes: Seq<u8>, start: int, end: int, st: StateV)
    ensures
        code_entry_step(bytes, start, end, st) matches Ok(s) ==> (state_inv(st) ==> state_inv(s)) && s.module.sections == st.module.sections
            && s.module.globals == st.module.globals && same_imports_elements(st.module, s.module) && s.nfi == st.nfi,
{
    if st.ci < st.fti.len() && state_inv(st) {
        let ti = st.fti[st.ci as int];
        if ti < st.module.types.len() {
            let params = st.module.types[ti as int].params;
            let (groups, ops) = crate::wasm::wasm_locals(bytes, start, end);
            let init = param_locals(params);
            lemma_locals_run(groups, init, params.len() as u32);
            if let Ok(s) = code_entry_step(bytes, start, end, st) {
                let fs = s.module.funcs;
                let n = st.module.funcs.len();
                let f = fs[n as int];
                assert(s.fti == st.fti);
                assert(f.type_index == ti);
                assert forall|j: int| 0 <= j < params.len() implies (#[trigger] f.locals[j]).ty == params[j] by {
                    assert(f.locals[j] == init[j]);
                }
                if params.len() <= u32::MAX {
                    assert forall|j: int| 0 <= j < init.len() implies (#[trigger] init[j]).index == j by {}
                }
                assert(locals_follow_params(f, s.module.types));
                assert forall|k: int| 0 <= k < fs.len() implies locals_follow_params(#[trigger] fs[k], s.module.types) by {
                    if k < n {
                        assert(fs[k] == st.module.funcs[k]);
                    }
                }
                assert forall|k: int| 0 <= k < fs.len() implies (#[trigger] fs[k]).name == func_label(fs[k].id) by {
                    if k < n {
                        assert(fs[k] == st.module.funcs[k]);
                    }
                }
                assert forall|k: int| 0 <= k < fs.len() && k <= u32::MAX implies
                    (#[trigger] fs[k]).type_index == s.fti[k] by {
                    if k < n {
                        assert(fs[k] == st.module.funcs[k]);
                        assert(st.module.funcs[k].type_index == st.fti[k]);
                    } else {
                        assert(st.ci == n);
                    }
                }
                assert(s.ci == crate::instr::next_u32(st.ci));
                if fs.len() <= u32::MAX {
                    assert(st.ci == n);
                    assert(s.ci == fs.len());
                }
                assert(funcs_follow_entries(fs, s.fti));
                assert(state_inv(s));
            }
        }
    }
}

/// A module section keeps the invariant, records at most its own range as a
/// section, and leaves the functions (and, but for the global section, the
/// globals) as they were.
pub proof fn lemma_section_step(bytes: Seq<u8>, id: u8, start: u64, end: u64, st: StateV)
    ensures
        section_step(bytes, id, start, end, st) matches Ok(s) ==> (state_inv(st) ==> state_inv(s))
            && section_added(PayloadInfo::Section { id, start, end }, st.module.sections, s.module.sections)
            && s.module.funcs == st.module.funcs && (id != 6 ==> s.module.globals == st.module.globals)
            && (id != 2 ==> s.module.func_imports == st.module.func_imports && s.module.table_imports == st.module.table_imports)
            && (id != 9 ==> s.module.elements == st.module.elements) && (id != 2 ==> s.nfi == st.nfi),
{
    let s = start as int;
    let e = end as int;
    if id == 0 {
        let st1 = with_section(st, "custom"@, start, end);
        lemma_custom(bytes, s, e, st1);
    } else if id == 1 {
        let st1 = with_section(st, "type"@, start, end);
        if type_section_spec(bytes, s, e) is Ok && state_inv(st) {
            let ts = type_section_spec(bytes, s, e)->Ok_0;
            lemma_types_grow(st1.module.funcs, st1.module.types, ts);
        }
    } else if id == 3 {
        let st1 = with_section(st, "func"@, start, end);
        if let Ok((n, p)) = var_u32_at(bytes, s, e) {
            if let Ok((v, q)) = crate::instr::var_u32s(bytes, p, e, n as nat) {
                if q == e && state_inv(st) {
                    let fs = st.module.funcs;
                    assert forall|k: int| 0 <= k < fs.len() && k <= u32::MAX implies
                        (#[trigger] fs[k]).type_index == (st.fti + v)[k] by {
                        assert(fs[k].type_index == st.fti[k]);
                        assert((st.fti + v)[k] == st.fti[k]);
                    }
                    let s2 = crate::module::function_section_step(bytes, s, e, st1)->Ok_0;
                    assert(s2.fti == st1.fti + v);
                    assert(st1.fti == st.fti);
                    assert(s2.module.funcs == fs);
                    assert(funcs_follow_entries(s2.module.funcs, s2.fti));
                }
            }
        }
    } else if id == 2 {
        let st1 = with_section(st, "import"@, start, end);
        if let Ok(es) = crate::module::import_entries(bytes, s, e) {
            lemma_apply_imports(st1, es, crate::module::item_ranges(crate::module::import_offsets(es), end));
        }
    } else if id == 6 {
        let st1 = with_section(st, "global"@, start, end);
        if let Ok(gs) = crate::module::global_entries(bytes, s, e) {
            lemma_apply_globals(bytes, st1, gs, crate::module::item_ranges(crate::module::global_offsets(gs), end));
        }
    } else if id == 7 {
        let st1 = with_section(st, "export"@, start, end);
        if let Ok((n, q)) = var_u32_at(bytes, s, e) {
            lemma_exports_run(bytes, q, e, n as nat, st1);
        }
    } else if id == 9 {
        let st1 = with_section(st, "element"@, start, end);
        if let Ok((n, q)) = var_u32_at(bytes, s, e) {
            lemma_elements_run(bytes, q, e, n as nat, st1);
        }
    }
    if let Ok(r) = section_step(bytes, id, start, end, st) {
        if r.module.sections != st.module.sections {
            assert(r.module.sections.drop_last() =~= st.module.sections);
        }
    }
}

/// A module's import, global or element section, whose items carry byte
/// ranges.
pub open spec fn ranged_section(p: PayloadInfo, comp: bool) -> bool {
    &&& !comp
    &&& p matches PayloadInfo::Section { id, .. } && (id == 2 || id == 6 || id == 9)
}

/// Each payload keeps the invariant, and records at most its own range as
/// a section.
pub proof fn lemma_payload_step(bytes: Seq<u8>, p: PayloadInfo, comp: bool, st: StateV)
    ensures
        payload_step(bytes, p, comp, st) matches Ok(s) ==> (state_inv(st) ==> state_inv(s)) && section_added(p, st.module.sections, s.module.sections)
            && (!ranged_section(p, comp) ==> s.module.globals == st.module.globals && same_imports_elements(st.module, s.module)),
{
    match p {
        PayloadInfo::Section { id, start, end } => {
            if comp {
                if id == 0 {
                    let st1 = with_section(st, "custom"@, start, end);
                    lemma_custom(bytes, start as int, end as int, st1);
                    if let Ok(r) = payload_step(bytes, p, comp, st) {
                        assert(r.module.sections.drop_last() =~= st.module.sections);
                    }
                }
            } else {
                lemma_section_step(bytes, id, start, end, st);
            }
        },
        PayloadInfo::CodeStart { .. } => {
            if let Ok(r) = payload_step(bytes, p, comp, st) {
                if r.module.sections != st.module.sections {
                    assert(r.module.sections.drop_last() =~= st.module.sections);
                }
            }
        },
        PayloadInfo::CodeEntry { start, end } => {
            lemma_code_entry(bytes, start as int, end as int, st);
        },
        _ => {},
    }
}

/// Adding a payload's range keeps the sections inside the binary.
pub proof fn lemma_sections_inside(p: PayloadInfo, a: Seq<SectionV>, b: Seq<SectionV>, len: int)
    requires
        sections_inside(a, len),
        section_added(p, a, b),
        crate::wasm::payload_in(p, len),
        len <= u32::MAX,
    ensures
        sections_inside(b, len),
{
    if b != a {
        assert forall|k: int| 0 <= k < b.len() implies (#[trigger] b[k]).start_address <= b[k].end_address <= len by {
            if k < a.len() {
                assert(b[k] == b.drop_last()[k]);
            }
        }
    }
}

proof fn lemma_walk(bytes: Seq<u8>, ps: Seq<Result<PayloadInfo, Seq<char>>>, st: StateV, enc: Seq<bool>)
    requires
        state_inv(st),
    ensures
        walk(bytes, ps, st, enc) matches Ok((s, _)) ==> state_inv(s),
    decreases ps.len(),
{
    if ps.len() > 0 {
        lemma_walk(bytes, ps.drop_last(), st, enc);
        if let Ok((s, en)) = walk(bytes, ps.drop_last(), st, enc) {
            if let Ok(p) = ps.last() {
                lemma_payload_step(bytes, p, en.len() > 0 && en.last(), s);
            }
        }
    }
}

/// The module a successful parse returns, and the state its walk ends in.
proof fn lemma_parsed(bytes: Seq<u8>) -> (s: StateV)
    requires
        parse_spec(bytes) is Ok,
    ensures
        state_inv(s),
        parse_spec(bytes) == Ok::<ModuleV, ErrorV>(finish(s.module)),
        s == walk(bytes, crate::wasm::wasm_payloads(bytes), initial_state(), seq![])->Ok_0.0,
{
    assert(state_inv(initial_state()));
    lemma_walk(bytes, crate::wasm::wasm_payloads(bytes), initial_state(), seq![]);
    walk(bytes, crate::wasm::wasm_payloads(bytes), initial_state(), seq![])->Ok_0.0
}

// ---------------------------------------------------------------------
// The laws

/// Every function of a parsed module carries the name that the first entry
/// of the `name` section for its index gives it, and `func_<index>` when
/// the name section names it nowhere (or there is none).
pub proof fn law_function_names(bytes: Seq<u8>)
    requires
        parse_spec(bytes) is Ok,
    ensures
        forall|k: int| 0 <= k < parse_spec(bytes)->Ok_0.funcs.len() ==> (#[trigger] parse_spec(bytes)->Ok_0.funcs[k]).name
            == resolved_name(parse_spec(bytes)->Ok_0.func_names, parse_spec(bytes)->Ok_0.funcs[k].id),
{
    let s = lemma_parsed(bytes);
    let m = s.module;
    let fm = finish(m);
    assert forall|k: int| 0 <= k < fm.funcs.len() implies (#[trigger] fm.funcs[k]).name == resolved_name(fm.func_names, fm.funcs[k].id) by {
        assert(m.funcs[k].name == func_label(m.funcs[k].id));
    }
}

/// In a parsed module each function's type exists, the parameters of that
/// type are the function's first locals, and (for a type with fewer than
/// 2^32 parameters) the locals are numbered 0, 1, 2, ... in order.
pub proof fn law_locals_follow_params(bytes: Seq<u8>)
    requires
        parse_spec(bytes) is Ok,
    ensures
        funcs_typed(parse_spec(bytes)->Ok_0.funcs, parse_spec(bytes)->Ok_0.types),
{
    let s = lemma_parsed(bytes);
    let m = s.module;
    let fm = finish(m);
    assert forall|k: int| 0 <= k < fm.funcs.len() implies locals_follow_params(#[trigger] fm.funcs[k], fm.types) by {
        assert(locals_follow_params(m.funcs[k], m.types));
    }
}

/// The imported tables of a parsed module are numbered 0, 1, 2, ... in the
/// order of their imports.
pub proof fn law_table_imports_numbered(bytes: Seq<u8>)
    requires
        parse_spec(bytes) is Ok,
    ensures
        tables_numbered(parse_spec(bytes)->Ok_0.table_imports),
{
    let s = lemma_parsed(bytes);
}

/// The type indices that the function sections of a binary list, in order,
/// as the parser reads them.
pub open spec fn function_entries(bytes: Seq<u8>) -> Seq<u32> {
    walk(bytes, crate::wasm::wasm_payloads(bytes), initial_state(), seq![])->Ok_0.0.fti
}

/// In a parsed module the functions take their types by position: function
/// `k` has the type index of entry `k` of the function section (for `k`
/// below 2^32), and there are no more functions than entries.
pub proof fn law_function_types_by_position(bytes: Seq<u8>)
    requires
        parse_spec(bytes) is Ok,
    ensures
        funcs_follow_entries(parse_spec(bytes)->Ok_0.funcs, function_entries(bytes)),
{
    let s = lemma_parsed(bytes);
    let m = s.module;
    let fm = finish(m);
    assert forall|k: int| 0 <= k < fm.funcs.len() && k <= u32::MAX implies
        (#[trigger] fm.funcs[k]).type_index == s.fti[k] by {
        assert(m.funcs[k].type_index == s.fti[k]);
    }
}

/// Function `k` (for `k` below 2^32) is numbered after the `nfi` imported
/// functions: its id is `nfi + k`, wrapping after `u32::MAX`.
pub open spec fn ids_after_imports(fs: Seq<FuncV>, nfi: u32) -> bool {
    forall|k: int| 0 <= k < fs.len() && k <= u32::MAX ==> (#[trigger] fs[k]).id == add_wrap(nfi, k as u32)
}

/// No import section comes after a function body among the payloads.
pub open spec fn imports_before_code(ps: Seq<Result<PayloadInfo, Seq<char>>>) -> bool {
    forall|i: int, j: int| #![trigger ps[i], ps[j]]
        0 <= i < j < ps.len() && (ps[i] matches Ok(PayloadInfo::CodeEntry { .. }))
        ==> !(ps[j] matches Ok(PayloadInfo::Section { id, .. }) && id == 2)
}

/// The import sections of the binary all come before its function bodies,
/// as the WebAssembly section order requires.
pub open spec fn binary_imports_before_code(bytes: Seq<u8>) -> bool {
    imports_before_code(crate::wasm::wasm_payloads(bytes))
}

/// No payload of `ps` is a function body.
pub open spec fn no_code(ps: Seq<Result<PayloadInfo, Seq<char>>>) -> bool {
    forall|i: int| 0 <= i < ps.len() ==> !(#[trigger] ps[i] matches Ok(PayloadInfo::CodeEntry { .. }))
}

proof fn lemma_walk_ids(bytes: Seq<u8>, ps: Seq<Result<PayloadInfo, Seq<char>>>, st: StateV, enc: Seq<bool>)
    requires
        state_inv(st),
        st.module.funcs.len() == 0,
    ensures
        walk(bytes, ps, st, enc) matches Ok((s, _)) ==> {
            &&& no_code(ps) ==> s.module.funcs.len() == 0
            &&& imports_before_code(ps) ==> ids_after_imports(s.module.funcs, s.nfi)
        },
    decreases ps.len(),
{
    if ps.len() > 0 {
        let p0 = ps.drop_last();
        lemma_walk_ids(bytes, p0, st, enc);
        lemma_walk(bytes, p0, st, enc);
        if let Ok((s0, en)) = walk(bytes, p0, st, enc) {
            let last = p0.len() as int;
            assert forall|i: int| 0 <= i < p0.len() implies #[trigger] p0[i] == ps[i] by {}
            if no_code(ps) {
                assert forall|i: int| 0 <= i < p0.len() implies !(#[trigger] p0[i] matches Ok(PayloadInfo::CodeEntry { .. })) by {
                    assert(p0[i] == ps[i]);
                }
            }
            if imports_before_code(ps) {
                assert forall|i: int, j: int| #![trigger p0[i], p0[j]]
                    0 <= i < j < p0.len() && (p0[i] matches Ok(PayloadInfo::CodeEntry { .. }))
                    implies !(p0[j] matches Ok(PayloadInfo::Section { id, .. }) && id == 2) by {
                    assert(p0[i] == ps[i] && p0[j] == ps[j]);
                }
            }
            if let Ok(p) = ps.last() {
                let comp = en.len() > 0 && en.last();
                assert(ps[last] == ps.last());
                match p {
                    PayloadInfo::Section { id, start, end } => {
                        if comp {
                            if id == 0 {
                                lemma_custom(bytes, start as int, end as int, with_section(s0, "custom"@, start, end));
                            }
                        } else {
                            lemma_section_step(bytes, id, start, end, s0);
                            if id == 2 && imports_before_code(ps) {
                                assert forall|i: int| 0 <= i < p0.len() implies !(#[trigger] p0[i] matches Ok(PayloadInfo::CodeEntry { .. })) by {
                                    assert(p0[i] == ps[i]);
                                    assert((ps[i] matches Ok(PayloadInfo::CodeEntry { .. })) ==> !(ps[last] matches Ok(PayloadInfo::Section { id, .. }) && id == 2));
                                }
                                assert(no_code(p0));
                            }
                        }
                    },
                    PayloadInfo::CodeEntry { start, end } => {
                        lemma_code_entry(bytes, start as int, end as int, s0);
                        if let Ok(s) = code_entry_step(bytes, start as int, end as int, s0) {
                            let n = s0.module.funcs.len();
                            let fs = s.module.funcs;
                            assert(ps[last] matches Ok(PayloadInfo::CodeEntry { .. }));
                            if imports_before_code(ps) {
                                assert forall|k: int| 0 <= k < fs.len() && k <= u32::MAX implies
                                    (#[trigger] fs[k]).id == add_wrap(s.nfi, k as u32) by {
                                    if k < n {
                                        assert(fs[k] == s0.module.funcs[k]);
                                    } else {
                                        assert(s0.ci == n);
                                    }
                                }
                            }
                        }
                    },
                    _ => {},
                }
            }
        }
    }
}

/// In a parsed module whose import sections come before its function
/// bodies (as the WebAssembly section order requires), the functions are
/// numbered after the imported ones: function `k` has the id `n + k`, where
/// `n` is the number of function imports, for `k` below 2^32 and fewer than
/// 2^32 function imports (ids wrap after `u32::MAX`).
pub proof fn law_function_ids_follow_imports(bytes: Seq<u8>)
    requires
        parse_spec(bytes) is Ok,
        binary_imports_before_code(bytes),
    ensures
        parse_spec(bytes)->Ok_0.func_imports.len() <= u32::MAX ==> ids_after_imports(
            parse_spec(bytes)->Ok_0.funcs,
            parse_spec(bytes)->Ok_0.func_imports.len() as u32,
        ),
{
    let s = lemma_parsed(bytes);
    assert(state_inv(initial_state()));
    lemma_walk_ids(bytes, crate::wasm::wasm_payloads(bytes), initial_state(), seq![]);
    let m = s.module;
    let fm = finish(m);
    if fm.func_imports.len() <= u32::MAX {
        assert forall|k: int| 0 <= k < fm.funcs.len() && k <= u32::MAX implies
            (#[trigger] fm.funcs[k]).id == add_wrap(fm.func_imports.len() as u32, k as u32) by {
            assert(m.funcs[k].id == add_wrap(s.nfi, k as u32));
        }
    }
}

/// The byte ranges of the function bodies among the payloads, in order.
pub open spec fn code_ranges(ps: Seq<Result<PayloadInfo, Seq<char>>>) -> Seq<(u64, u64)>
    decreases ps.len(),
{
    if ps.len() == 0 {
        seq![]
    } else {
        match ps.last() {
            Ok(PayloadInfo::CodeEntry { start, end }) => code_ranges(ps.drop_last()).push((start, end)),
            _ => code_ranges(ps.drop_last()),
        }
    }
}

/// The instruction tree of the function body `bytes[start..end]`: that of
/// the operators after its local declarations.
pub open spec fn body_tree(bytes: Seq<u8>, start: int, end: int) -> Seq<InstrV> {
    stream_spec(bytes, crate::wasm::wasm_locals(bytes, start, end).1->Ok_0, end)->Ok_0
}

/// The functions of `fs` are those of the function bodies at `ranges`, one
/// each, in order, with their instruction trees.
pub open spec fn funcs_match_bodies(bytes: Seq<u8>, fs: Seq<FuncV>, ranges: Seq<(u64, u64)>) -> bool {
    &&& fs.len() == ranges.len()
    &&& forall|k: int| 0 <= k < fs.len() ==> (#[trigger] fs[k]).body == body_tree(bytes, ranges[k].0 as int, ranges[k].1 as int)
}

proof fn lemma_walk_bodies(bytes: Seq<u8>, ps: Seq<Result<PayloadInfo, Seq<char>>>, st: StateV, enc: Seq<bool>)
    requires
        state_inv(st),
        st.module.funcs.len() == 0,
    ensures
        walk(bytes, ps, st, enc) matches Ok((s, _)) ==> funcs_match_bodies(bytes, s.module.funcs, code_ranges(ps)),
    decreases ps.len(),
{
    if ps.len() > 0 {
        let p0 = ps.drop_last();
        lemma_walk_bodies(bytes, p0, st, enc);
        if let Ok((s0, en)) = walk(bytes, p0, st, enc) {
            if let Ok(p) = ps.last() {
                let comp = en.len() > 0 && en.last();
                match p {
                    PayloadInfo::Section { id, start, end } => {
                        if comp {
                            if id == 0 {
                                lemma_custom(bytes, start as int, end as int, with_section(s0, "custom"@, start, end));
                            }
                        } else {
                            lemma_section_step(bytes, id, start, end, s0);
                        }
                    },
                    PayloadInfo::CodeEntry { start, end } => {
                        if let Ok(s) = code_entry_step(bytes, start as int, end as int, s0) {
                            let n = s0.module.funcs.len();
                            let fs = s.module.funcs;
                            let rs = code_ranges(ps);
                            assert(rs == code_ranges(p0).push((start, end)));
                            assert forall|k: int| 0 <= k < fs.len() implies
                                (#[trigger] fs[k]).body == body_tree(bytes, rs[k].0 as int, rs[k].1 as int) by {
                                if k < n {
                                    assert(fs[k] == s0.module.funcs[k]);
                                    assert(rs[k] == code_ranges(p0)[k]);
                                }
                            }
                        }
                    },
                    _ => {},
                }
            }
        }
    }
}

/// In a parsed module there is one function per function body, in order:
/// function `k` has the instruction tree of the operators of body `k`, and
/// (for `k` below 2^32) the type index of entry `k` of the function
/// section.
pub proof fn law_functions_match_code_bodies(bytes: Seq<u8>)
    requires
        parse_spec(bytes) is Ok,
    ensures
        funcs_match_bodies(bytes, parse_spec(bytes)->Ok_0.funcs, code_ranges(crate::wasm::wasm_payloads(bytes))),
        funcs_follow_entries(parse_spec(bytes)->Ok_0.funcs, function_entries(bytes)),
{
    let s = lemma_parsed(bytes);
    assert(state_inv(initial_state()));
    lemma_walk_bodies(bytes, crate::wasm::wasm_payloads(bytes), initial_state(), seq![]);
    law_function_types_by_position(bytes);
    let m = s.module;
    let fm = finish(m);
    let rs = code_ranges(crate::wasm::wasm_payloads(bytes));
    assert forall|k: int| 0 <= k < fm.funcs.len() implies
        (#[trigger] fm.funcs[k]).body == body_tree(bytes, rs[k].0 as int, rs[k].1 as int) by {
        assert(m.funcs[k].body == body_tree(bytes, rs[k].0 as int, rs[k].1 as int));
    }
}

/// The initial page count of a parsed module is that of its first memory:
/// the first imported memory if there is one (imports come first in the
/// memory index space), else the first defined memory, else 0.
pub proof fn law_initial_memory_pages(bytes: Seq<u8>)
    requires
        parse_spec(bytes) is Ok,
    ensures
        parse_spec(bytes)->Ok_0.initial_memory_pages == initial_pages(parse_spec(bytes)->Ok_0),
{
    let s = lemma_parsed(bytes);
}

/// The function types are numbered 0, 1, 2, ... in order (numbers cut to
/// 32 bits).
pub open spec fn types_numbered(ts: Seq<FuncTypeV>) -> bool {
    forall|k: int| 0 <= k < ts.len() ==> (#[trigger] ts[k]).id == k as u32
}

proof fn lemma_group_spec(es: Seq<crate::wasm::TypeEntry>, ts: Seq<FuncTypeV>)
    requires
        types_numbered(ts),
    ensures
        group_spec(es, ts) matches Ok(t2) ==> types_numbered(t2),
    decreases es.len(),
{
    if es.len() > 0 {
        lemma_group_spec(es.drop_last(), ts);
        if let Ok(t1) = group_spec(es.drop_last(), ts) {
            if let Ok(t2) = group_spec(es, ts) {
                assert forall|k: int| 0 <= k < t2.len() implies (#[trigger] t2[k]).id == k as u32 by {
                    if k < t1.len() {
                        assert(t2[k] == t1[k]);
                    }
                }
            }
        }
    }
}

proof fn lemma_types_run(bytes: Seq<u8>, p0: int, end: int, n: nat)
    ensures
        types_run(bytes, p0, end, n) matches Ok((ts, _)) ==> types_numbered(ts),
    decreases n,
{
    if n > 0 {
        lemma_types_run(bytes, p0, end, (n - 1) as nat);
        if let Ok((ts, p)) = types_run(bytes, p0, end, (n - 1) as nat) {
            if let Ok((es, q)) = crate::wasm::wasm_rec_group(bytes, p, end) {
                lemma_group_spec(es, ts);
            }
        }
    }
}

/// The function types of a type section are numbered 0, 1, 2, ... in the
/// order in which the section lists them.
pub proof fn law_type_ids(bytes: Seq<u8>, start: int, end: int)
    requires
        type_section_spec(bytes, start, end) is Ok,
    ensures
        types_numbered(type_section_spec(bytes, start, end)->Ok_0),
{
    let (n, p) = var_u32_at(bytes, start, end)->Ok_0;
    lemma_types_run(bytes, p, end, n as nat);
}


/// The global an entry of the global section becomes, with byte range
/// `range`: its value type's name, its mutability, no name, and the
/// instruction tree of its initializer.
pub open spec fn global_of(bytes: Seq<u8>, g: GlobalEntry, range: (u32, u32)) -> GlobalV {
    GlobalV {
        value_type: val_type_name(g.0)->Ok_0,
        mutable: g.1,
        name: None,
        init: stream_spec(bytes, g.2 as int, g.3 as int)->Ok_0,
        start_address: range.0,
        end_address: range.1,
    }
}

proof fn lemma_apply_globals_shape(bytes: Seq<u8>, st: StateV, gs: Seq<GlobalEntry>, ranges: Seq<(u32, u32)>)
    ensures
        apply_globals(bytes, st, gs, ranges) matches Ok(s) ==> {
            &&& s.module.globals.len() == st.module.globals.len() + gs.len()
            &&& forall|k: int| 0 <= k < st.module.globals.len() ==> #[trigger] s.module.globals[k] == st.module.globals[k]
            &&& forall|i: int| 0 <= i < gs.len() ==> #[trigger] s.module.globals[st.module.globals.len() + i]
                == global_of(bytes, gs[i], ranges[i])
        },
    decreases gs.len(),
{
    if gs.len() > 0 {
        let gs0 = gs.drop_last();
        lemma_apply_globals_shape(bytes, st, gs0, ranges);
        if let Ok(s) = apply_globals(bytes, st, gs, ranges) {
            let s0 = apply_globals(bytes, st, gs0, ranges)->Ok_0;
            let n = st.module.globals.len();
            assert forall|k: int| 0 <= k < n implies #[trigger] s.module.globals[k] == st.module.globals[k] by {
                assert(s.module.globals[k] == s0.module.globals[k]);
            }
            assert forall|i: int| 0 <= i < gs.len() implies #[trigger] s.module.globals[n + i]
                == global_of(bytes, gs[i], ranges[i]) by {
                if i < gs0.len() {
                    assert(s.module.globals[n + i] == s0.module.globals[n + i]);
                    assert(gs0[i] == gs[i]);
                }
            }
        }
    }
}

/// The global section appends one global per entry, in order, after the
/// globals before it: each with its value type's name, its mutability, no
/// name, the instruction tree of its initializer, and a byte range from the
/// entry's start to the next global's start (the last one to the end of the
/// section), offsets cut to 32 bits.
pub proof fn law_globals_of_section(bytes: Seq<u8>, start: int, end: int, st: StateV)
    requires
        global_section_step(bytes, start, end, st) is Ok,
    ensures ({
        let gs = global_entries(bytes, start, end)->Ok_0;
        let before = st.module.globals;
        let after = global_section_step(bytes, start, end, st)->Ok_0.module.globals;
        &&& after.len() == before.len() + gs.len()
        &&& forall|k: int| 0 <= k < before.len() ==> #[trigger] after[k] == before[k]
        &&& forall|i: int| 0 <= i < gs.len() ==> {
            let g = #[trigger] after[before.len() + i];
            &&& g.value_type == val_type_name(gs[i].0)->Ok_0
            &&& g.mutable == gs[i].1
            &&& g.name is None
            &&& g.init == stream_spec(bytes, gs[i].2 as int, gs[i].3 as int)->Ok_0
            &&& g.start_address == gs[i].4 as u32
            &&& g.end_address == if i + 1 < gs.len() { after[before.len() + i + 1].start_address } else { (end as u64) as u32 }
        }
    }),
{
    let gs = global_entries(bytes, start, end)->Ok_0;
    let ranges = item_ranges(global_offsets(gs), end as u64);
    lemma_apply_globals_shape(bytes, st, gs, ranges);
    let n = st.module.globals.len();
    let after = global_section_step(bytes, start, end, st)->Ok_0.module.globals;
    assert forall|i: int| 0 <= i < gs.len() implies {
        let g = #[trigger] after[n + i];
        &&& g.start_address == gs[i].4 as u32
        &&& g.end_address == if i + 1 < gs.len() { after[n + i + 1].start_address } else { (end as u64) as u32 }
    } by {
        assert(after[n + i] == global_of(bytes, gs[i], ranges[i]));
        assert(global_offsets(gs)[i] == gs[i].4);
        if i + 1 < gs.len() {
            assert(after[n + (i + 1)] == global_of(bytes, gs[i + 1], ranges[i + 1]));
            assert(global_offsets(gs)[i + 1] == gs[i + 1].4);
            assert(ranges[i].1 == gs[i + 1].4 as u32);
        } else {
            assert(ranges[i].1 == (end as u64) as u32);
        }
    }
}


/// The globals that the global section `bytes[start..end]` appends: one
/// per entry, in order (see `global_of`), each with a byte range from its
/// start to the next entry's start, the last one to the end of the section.
pub open spec fn section_globals(bytes: Seq<u8>, start: int, end: int) -> Seq<GlobalV> {
    let gs = global_entries(bytes, start, end)->Ok_0;
    let ranges = item_ranges(global_offsets(gs), end as u64);
    Seq::new(gs.len(), |i: int| global_of(bytes, gs[i], ranges[i]))
}

/// The globals of the global sections among the payloads, section by
/// section in order.
pub open spec fn payload_globals(bytes: Seq<u8>, ps: Seq<Result<PayloadInfo, Seq<char>>>) -> Seq<GlobalV>
    decreases ps.len(),
{
    if ps.len() == 0 {
        seq![]
    } else {
        let g = payload_globals(bytes, ps.drop_last());
        match ps.last() {
            Ok(PayloadInfo::Section { id, start, end }) => if id == 6 {
                g + section_globals(bytes, start as int, end as int)
            } else {
                g
            },
            _ => g,
        }
    }
}

/// Payload `i` is a global section.
pub open spec fn is_global_section(ps: Seq<Result<PayloadInfo, Seq<char>>>, i: int) -> bool {
    ps[i] matches Ok(PayloadInfo::Section { id, .. }) && id == 6
}

/// No payload opens a component.
pub open spec fn no_components(ps: Seq<Result<PayloadInfo, Seq<char>>>) -> bool {
    forall|i: int| 0 <= i < ps.len() ==> !(#[trigger] ps[i] matches Ok(PayloadInfo::Version { component }) && component)
}

/// The binary is a module, not a component.
pub open spec fn binary_is_module(bytes: Seq<u8>) -> bool {
    no_components(crate::wasm::wasm_payloads(bytes))
}

proof fn lemma_walk_globals(bytes: Seq<u8>, ps: Seq<Result<PayloadInfo, Seq<char>>>, st: StateV, enc: Seq<bool>)
    requires
        no_components(ps),
        forall|k: int| 0 <= k < enc.len() ==> !#[trigger] enc[k],
    ensures
        walk(bytes, ps, st, enc) matches Ok((s, en)) ==> {
            &&& s.module.globals == st.module.globals + payload_globals(bytes, ps)
            &&& forall|k: int| 0 <= k < en.len() ==> !#[trigger] en[k]
        },
    decreases ps.len(),
{
    if ps.len() == 0 {
        assert(st.module.globals + Seq::<GlobalV>::empty() =~= st.module.globals);
    } else {
        let p0 = ps.drop_last();
        assert forall|i: int| 0 <= i < p0.len() implies !(#[trigger] p0[i] matches Ok(PayloadInfo::Version { component }) && component) by {
            assert(p0[i] == ps[i]);
        }
        lemma_walk_globals(bytes, p0, st, enc);
        if let Ok((s0, en)) = walk(bytes, p0, st, enc) {
            let g0 = payload_globals(bytes, p0);
            let last = p0.len() as int;
            assert(ps.last() == ps[last]);
            if let Ok(p) = ps.last() {
                let comp = en.len() > 0 && en.last();
                if en.len() > 0 {
                    assert(!en[en.len() - 1]);
                }
                assert(!comp);
                match p {
                    PayloadInfo::Section { id, start, end } => {
                        lemma_section_step(bytes, id, start, end, s0);
                        if id == 6 {
                            let st1 = with_section(s0, "global"@, start, end);
                            if let Ok(gs) = global_entries(bytes, start as int, end as int) {
                                let ranges = item_ranges(global_offsets(gs), end);
                                lemma_apply_globals_shape(bytes, st1, gs, ranges);
                                if let Ok(s2) = apply_globals(bytes, st1, gs, ranges) {
                                    let sg = section_globals(bytes, start as int, end as int);
                                    assert(s2.module.globals =~= s0.module.globals + sg) by {
                                        let n = s0.module.globals.len();
                                        assert forall|k: int| 0 <= k < s2.module.globals.len() implies
                                            s2.module.globals[k] == (s0.module.globals + sg)[k] by {
                                            if k >= n {
                                                assert(s2.module.globals[n + (k - n)] == global_of(bytes, gs[k - n], ranges[k - n]));
                                            }
                                        }
                                    }
                                    assert(st.module.globals + g0 + sg =~= st.module.globals + (g0 + sg));
                                }
                            }
                        }
                    },
                    PayloadInfo::CodeEntry { start, end } => {
                        lemma_code_entry(bytes, start as int, end as int, s0);
                    },
                    PayloadInfo::Version { component } => {
                        assert(!component);
                        if let Ok((s, en2)) = walk(bytes, ps, st, enc) {
                            assert forall|k: int| 0 <= k < en2.len() implies !#[trigger] en2[k] by {
                                if k < en.len() {
                                    assert(en2[k] == en[k]);
                                }
                            }
                        }
                    },
                    PayloadInfo::End => {
                        if let Ok((s, en2)) = walk(bytes, ps, st, enc) {
                            assert forall|k: int| 0 <= k < en2.len() implies !#[trigger] en2[k] by {
                                assert(en2[k] == en[k]);
                            }
                        }
                    },
                    _ => {},
                }
            }
        }
    }
}

/// The globals of a parsed module (not a component) are those of its
/// global sections, section by section in order: for each entry its value
/// type's name, its mutability, no name, the instruction tree of its
/// initializer, and a byte range from its start to the next entry's start,
/// the last one to the end of its section.
pub proof fn law_module_globals(bytes: Seq<u8>)
    requires
        parse_spec(bytes) is Ok,
        binary_is_module(bytes),
    ensures
        parse_spec(bytes)->Ok_0.globals == payload_globals(bytes, crate::wasm::wasm_payloads(bytes)),
{
    let s = lemma_parsed(bytes);
    lemma_walk_globals(bytes, crate::wasm::wasm_payloads(bytes), initial_state(), seq![]);
    assert(initial_state().module.globals + payload_globals(bytes, crate::wasm::wasm_payloads(bytes))
        =~= payload_globals(bytes, crate::wasm::wasm_payloads(bytes)));
}

/// The byte range of payload `i`, if it is a section.
pub open spec fn section_range_of(ps: Seq<Result<PayloadInfo, Seq<char>>>, i: int) -> (u64, u64) {
    match ps[i] {
        Ok(PayloadInfo::Section { start, end, .. }) => (start, end),
        _ => (0, 0),
    }
}

proof fn lemma_payload_globals_single(bytes: Seq<u8>, ps: Seq<Result<PayloadInfo, Seq<char>>>, j: int)
    requires
        forall|i: int| 0 <= i < ps.len() && i != j ==> !is_global_section(ps, i),
    ensures
        payload_globals(bytes, ps) == if 0 <= j < ps.len() && is_global_section(ps, j) {
            section_globals(bytes, section_range_of(ps, j).0 as int, section_range_of(ps, j).1 as int)
        } else {
            Seq::<GlobalV>::empty()
        },
    decreases ps.len(),
{
    if ps.len() > 0 {
        let p0 = ps.drop_last();
        let last = p0.len() as int;
        assert forall|i: int| 0 <= i < p0.len() && i != j implies !is_global_section(p0, i) by {
            assert(p0[i] == ps[i]);
            assert(!is_global_section(ps, i));
        }
        lemma_payload_globals_single(bytes, p0, j);
        assert(ps.last() == ps[last]);
        if last != j {
            assert(!is_global_section(ps, last));
        }
        if 0 <= j < last {
            assert(p0[j] == ps[j]);
        }
        if j == last && is_global_section(ps, j) {
            assert(Seq::<GlobalV>::empty() + section_globals(bytes, section_range_of(ps, j).0 as int, section_range_of(ps, j).1 as int)
                =~= section_globals(bytes, section_range_of(ps, j).0 as int, section_range_of(ps, j).1 as int));
        }
    }
}

/// In a parsed module (not a component) whose one global section is
/// payload `j`: the module has one global per entry of that section, in
/// order, each with the entry's value type name, its mutability, no name,
/// the instruction tree of its initializer, its start address the entry's
/// start, and its end address the next global's start (the last one's the
/// end of the section), offsets cut to 32 bits.
pub proof fn law_single_global_section(bytes: Seq<u8>, j: int)
    requires
        parse_spec(bytes) is Ok,
        binary_is_module(bytes),
        0 <= j < crate::wasm::wasm_payloads(bytes).len(),
        is_global_section(crate::wasm::wasm_payloads(bytes), j),
        forall|i: int| 0 <= i < crate::wasm::wasm_payloads(bytes).len() && i != j
            ==> !is_global_section(crate::wasm::wasm_payloads(bytes), i),
    ensures ({
        let (start, end) = section_range_of(crate::wasm::wasm_payloads(bytes), j);
        let gs = global_entries(bytes, start as int, end as int)->Ok_0;
        let globals = parse_spec(bytes)->Ok_0.globals;
        &&& globals.len() == gs.len()
        &&& forall|i: int| 0 <= i < gs.len() ==> {
            let g = #[trigger] globals[i];
            &&& g.value_type == val_type_name(gs[i].0)->Ok_0
            &&& g.mutable == gs[i].1
            &&& g.name is None
            &&& g.init == stream_spec(bytes, gs[i].2 as int, gs[i].3 as int)->Ok_0
            &&& g.start_address == gs[i].4 as u32
            &&& g.end_address == if i + 1 < gs.len() { globals[i + 1].start_address } else { end as u32 }
        }
    }),
{
    let ps = crate::wasm::wasm_payloads(bytes);
    law_module_globals(bytes);
    lemma_payload_globals_single(bytes, ps, j);
    let (start, end) = section_range_of(ps, j);
    let gs = global_entries(bytes, start as int, end as int)->Ok_0;
    let ranges = item_ranges(global_offsets(gs), end);
    let globals = parse_spec(bytes)->Ok_0.globals;
    assert forall|i: int| 0 <= i < gs.len() implies {
        let g = #[trigger] globals[i];
        &&& g.start_address == gs[i].4 as u32
        &&& g.end_address == if i + 1 < gs.len() { globals[i + 1].start_address } else { end as u32 }
    } by {
        assert(global_offsets(gs)[i] == gs[i].4);
        if i + 1 < gs.len() {
            assert(globals[i + 1] == global_of(bytes, gs[i + 1], ranges[i + 1]));
            assert(global_offsets(gs)[i + 1] == gs[i + 1].4);
        }
    }
}

// ---------------------------------------------------------------------
// Imports, exports and local names keep what their entries say

/// What a function import records of its import entry: the module, the
/// name and the type index that the entry states; nothing for an import of
/// another kind.
pub open spec fn func_import_key(e: crate::wasm::ImportEntry) -> Option<(Seq<char>, Seq<char>, u32)> {
    match e.3 {
        crate::wasm::ImportTy::Func(t) => Some((e.1@, e.2@, t)),
        _ => None,
    }
}

/// The function imports among the import entries `es`, in order.
pub open spec fn func_import_keys(es: Seq<crate::wasm::ImportEntry>) -> Seq<(Seq<char>, Seq<char>, u32)> {
    es.filter_map(|e: crate::wasm::ImportEntry| func_import_key(e))
}

/// The module, name and type index of each recorded function import.
pub open spec fn recorded_func_imports(fs: Seq<crate::model::FuncImportV>) -> Seq<(Seq<char>, Seq<char>, u32)> {
    fs.map_values(|f: crate::model::FuncImportV| (f.module, f.name, f.type_index))
}

proof fn lemma_apply_imports_keys(st: StateV, es: Seq<crate::wasm::ImportEntry>, ranges: Seq<(u32, u32)>)
    ensures
        recorded_func_imports(apply_imports(st, es, ranges).module.func_imports)
            == recorded_func_imports(st.module.func_imports) + func_import_keys(es),
    decreases es.len(),
{
    if es.len() == 0 {
        assert(recorded_func_imports(st.module.func_imports) + func_import_keys(es)
            =~= recorded_func_imports(st.module.func_imports));
    } else {
        let e0 = es.drop_last();
        lemma_apply_imports_keys(st, e0, ranges);
        let a = apply_imports(st, e0, ranges).module.func_imports;
        let b = apply_imports(st, es, ranges).module.func_imports;
        assert(func_import_keys(es) == match func_import_key(es.last()) {
            Some(k) => func_import_keys(e0) + seq![k],
            None => func_import_keys(e0),
        });
        match es.last().3 {
            crate::wasm::ImportTy::Func(t) => {
                assert(recorded_func_imports(b) =~= recorded_func_imports(a).push((es.last().1@, es.last().2@, t)));
                assert(recorded_func_imports(st.module.func_imports) + func_import_keys(es)
                    =~= recorded_func_imports(st.module.func_imports) + func_import_keys(e0) + seq![(es.last().1@, es.last().2@, t)]);
            },
            _ => {
                assert(b == a);
            },
        }
    }
}

/// The import section records, after the function imports before it, one
/// function import per import entry of kind function, in order, with the
/// module, the name and the type index that the entry states (whatever the
/// number of function imports before it).
pub proof fn law_function_imports_keep_their_types(bytes: Seq<u8>, start: int, end: int, st: StateV)
    requires
        crate::module::import_section_step(bytes, start, end, st) is Ok,
    ensures
        recorded_func_imports(crate::module::import_section_step(bytes, start, end, st)->Ok_0.module.func_imports)
            == recorded_func_imports(st.module.func_imports)
                + func_import_keys(crate::module::import_entries(bytes, start, end)->Ok_0),
{
    let es = crate::module::import_entries(bytes, start, end)->Ok_0;
    lemma_apply_imports_keys(st, es, item_ranges(crate::module::import_offsets(es), end as u64));
}

/// The exports that `n` items from `p0` state, as `wasm_export` decodes
/// each: name, kind and index, in order, and the position after them.
pub open spec fn export_items(bytes: Seq<u8>, p0: int, end: int, n: nat)
    -> Result<(Seq<(Seq<char>, crate::wasm::ExportKind, u32)>, int), Seq<char>>
    decreases n,
{
    if n == 0 {
        Ok((seq![], p0))
    } else {
        match export_items(bytes, p0, end, (n - 1) as nat) {
            Ok((acc, p)) => match crate::wasm::wasm_export(bytes, p, end) {
                Ok((name, kind, index, q)) => Ok((acc.push((name, kind, index)), q)),
                Err(m) => Err(m),
            },
            Err(m) => Err(m),
        }
    }
}

/// The items of the export section `bytes[start..end]`.
pub open spec fn section_export_items(bytes: Seq<u8>, start: int, end: int) -> Seq<(Seq<char>, crate::wasm::ExportKind, u32)> {
    match crate::wasm::var_u32_at(bytes, start, end) {
        Ok((n, p)) => match export_items(bytes, p, end, n as nat) {
            Ok((items, _)) => items,
            Err(_) => seq![],
        },
        Err(_) => seq![],
    }
}

/// An export of kind function as the data model lists it; nothing for an
/// export of another kind.
pub open spec fn func_export_key(x: (Seq<char>, crate::wasm::ExportKind, u32)) -> Option<crate::model::FuncExportV> {
    if x.1 is Func { Some(crate::model::FuncExportV { name: x.0, func_index: x.2 }) } else { None }
}

/// An export of kind table as the data model lists it; nothing for an
/// export of another kind.
pub open spec fn table_export_key(x: (Seq<char>, crate::wasm::ExportKind, u32)) -> Option<crate::model::TableExportV> {
    if x.1 is Table { Some(crate::model::TableExportV { name: x.0, id: x.2 }) } else { None }
}

/// The function exports among the items, in order.
pub open spec fn func_exports_of(items: Seq<(Seq<char>, crate::wasm::ExportKind, u32)>) -> Seq<crate::model::FuncExportV> {
    items.filter_map(|x: (Seq<char>, crate::wasm::ExportKind, u32)| func_export_key(x))
}

/// The table exports among the items, in order.
pub open spec fn table_exports_of(items: Seq<(Seq<char>, crate::wasm::ExportKind, u32)>) -> Seq<crate::model::TableExportV> {
    items.filter_map(|x: (Seq<char>, crate::wasm::ExportKind, u32)| table_export_key(x))
}

proof fn lemma_exports_run_items(bytes: Seq<u8>, p0: int, end: int, n: nat, st: StateV)
    ensures
        exports_run(bytes, p0, end, n, st) matches Ok((s, q)) ==> {
            &&& export_items(bytes, p0, end, n) matches Ok((items, q2))
            &&& q2 == q
            &&& s.module.exported_funcs == st.module.exported_funcs + func_exports_of(items)
            &&& s.module.table_exports == st.module.table_exports + table_exports_of(items)
        },
    decreases n,
{
    if n == 0 {
        assert(st.module.exported_funcs + func_exports_of(seq![]) =~= st.module.exported_funcs);
        assert(st.module.table_exports + table_exports_of(seq![]) =~= st.module.table_exports);
    } else {
        lemma_exports_run_items(bytes, p0, end, (n - 1) as nat, st);
        if let Ok((s0, p)) = exports_run(bytes, p0, end, (n - 1) as nat, st) {
            let acc = export_items(bytes, p0, end, (n - 1) as nat)->Ok_0.0;
            if let Ok((name, kind, index, q)) = crate::wasm::wasm_export(bytes, p, end) {
                let items = acc.push((name, kind, index));
                assert(items.drop_last() =~= acc);
                let x = (name, kind, index);
                assert(func_exports_of(items) == match func_export_key(x) {
                    Some(k) => func_exports_of(acc) + seq![k],
                    None => func_exports_of(acc),
                });
                assert(table_exports_of(items) == match table_export_key(x) {
                    Some(k) => table_exports_of(acc) + seq![k],
                    None => table_exports_of(acc),
                });
                assert(st.module.exported_funcs + func_exports_of(acc) + seq![FuncExportV { name, func_index: index }]
                    =~= st.module.exported_funcs + (func_exports_of(acc) + seq![FuncExportV { name, func_index: index }]));
                assert(st.module.table_exports + table_exports_of(acc) + seq![crate::model::TableExportV { name, id: index }]
                    =~= st.module.table_exports + (table_exports_of(acc) + seq![crate::model::TableExportV { name, id: index }]));
            }
        }
    }
}

/// The export section lists, after the exports before it, exactly the
/// exports of kind function (name and index kept, in order) as exported
/// functions, and exactly those of kind table as table exports; exports of
/// other kinds (globals, memories, tags) are in neither list.
pub proof fn law_exports_by_kind(bytes: Seq<u8>, start: int, end: int, st: StateV)
    requires
        crate::module::export_section_step(bytes, start, end, st) is Ok,
    ensures ({
        let s = crate::module::export_section_step(bytes, start, end, st)->Ok_0;
        let items = section_export_items(bytes, start, end);
        &&& s.module.exported_funcs == st.module.exported_funcs + func_exports_of(items)
        &&& s.module.table_exports == st.module.table_exports + table_exports_of(items)
    }),
{
    let (n, p) = crate::wasm::var_u32_at(bytes, start, end)->Ok_0;
    lemma_exports_run_items(bytes, p, end, n as nat, st);
}

/// How many names the first `j` maps of an indirect name map hold.
pub open spec fn names_before(ls: Seq<Result<(u32, Seq<crate::wasm::NamingV>), Seq<char>>>, j: int) -> int
    decreases j,
{
    if j <= 0 { 0 } else { names_before(ls, j - 1) + ls[j - 1]->Ok_0.1.len() }
}

proof fn lemma_names_before_prefix(ls: Seq<Result<(u32, Seq<crate::wasm::NamingV>), Seq<char>>>, j: int)
    requires
        0 <= j < ls.len(),
    ensures
        names_before(ls.drop_last(), j) == names_before(ls, j),
    decreases j,
{
    if j > 0 {
        lemma_names_before_prefix(ls, j - 1);
        assert(ls.drop_last()[j - 1] == ls[j - 1]);
    }
}

proof fn lemma_names_before_grows(ls: Seq<Result<(u32, Seq<crate::wasm::NamingV>), Seq<char>>>, j: int, k: int)
    requires
        0 <= j <= k,
    ensures
        names_before(ls, j) <= names_before(ls, k),
    decreases k - j,
{
    if j < k {
        lemma_names_before_grows(ls, j, k - 1);
    }
}

proof fn lemma_local_name_entries_shape(fi: u32, ns: Seq<crate::wasm::NamingV>)
    ensures
        crate::module::local_name_entries(fi, ns) matches Ok(more) ==> {
            &&& more.len() == ns.len()
            &&& forall|m: int| 0 <= m < ns.len() ==> #[trigger] more[m] == (crate::model::LocalNameEntryV {
                function_index: fi, local_index: ns[m]->Ok_0.0, value: ns[m]->Ok_0.1,
            })
        },
    decreases ns.len(),
{
    if ns.len() > 0 {
        let n0 = ns.drop_last();
        lemma_local_name_entries_shape(fi, n0);
        if let Ok(more) = crate::module::local_name_entries(fi, ns) {
            let m0 = crate::module::local_name_entries(fi, n0)->Ok_0;
            assert forall|m: int| 0 <= m < ns.len() implies #[trigger] more[m] == (crate::model::LocalNameEntryV {
                function_index: fi, local_index: ns[m]->Ok_0.0, value: ns[m]->Ok_0.1,
            }) by {
                if m < n0.len() {
                    assert(more[m] == m0[m]);
                    assert(n0[m] == ns[m]);
                }
            }
        }
    }
}

/// The local names of an indirect name map are, map by map and in order,
/// one entry per naming: the function index that the map states (not the
/// map's place among the maps), the naming's local index and its name.
pub proof fn law_local_names_by_map(ls: Seq<Result<(u32, Seq<crate::wasm::NamingV>), Seq<char>>>)
    requires
        crate::module::indirect_entries(ls) is Ok,
    ensures ({
        let es = crate::module::indirect_entries(ls)->Ok_0;
        &&& es.len() == names_before(ls, ls.len() as int)
        &&& forall|j: int, m: int| #![trigger ls[j]->Ok_0.1[m]]
            0 <= j < ls.len() && 0 <= m < ls[j]->Ok_0.1.len() ==> es[names_before(ls, j) + m] == (crate::model::LocalNameEntryV {
                function_index: ls[j]->Ok_0.0,
                local_index: ls[j]->Ok_0.1[m]->Ok_0.0,
                value: ls[j]->Ok_0.1[m]->Ok_0.1,
            })
    }),
    decreases ls.len(),
{
    if ls.len() > 0 {
        let l0 = ls.drop_last();
        let last = l0.len() as int;
        law_local_names_by_map(l0);
        let es0 = crate::module::indirect_entries(l0)->Ok_0;
        let es = crate::module::indirect_entries(ls)->Ok_0;
        assert(ls.last() == ls[last]);
        let (fi, ns) = ls[last]->Ok_0;
        lemma_local_name_entries_shape(fi, ns);
        let more = crate::module::local_name_entries(fi, ns)->Ok_0;
        assert(es == es0 + more);
        if last > 0 {
            lemma_names_before_prefix(ls, last);
        }
        assert(names_before(ls, last) == names_before(l0, last));
        assert forall|j: int, m: int| #![trigger ls[j]->Ok_0.1[m]]
            0 <= j < ls.len() && 0 <= m < ls[j]->Ok_0.1.len() implies es[names_before(ls, j) + m] == (crate::model::LocalNameEntryV {
                function_index: ls[j]->Ok_0.0,
                local_index: ls[j]->Ok_0.1[m]->Ok_0.0,
                value: ls[j]->Ok_0.1[m]->Ok_0.1,
            }) by {
            if j < last {
                lemma_names_before_prefix(ls, j);
                assert(l0[j] == ls[j]);
                assert(l0[j]->Ok_0.1[m] == ls[j]->Ok_0.1[m]);
                lemma_names_before_grows(l0, j + 1, last);
                assert(names_before(l0, j + 1) == names_before(l0, j) + l0[j]->Ok_0.1.len());
                assert(es0.len() == names_before(l0, last));
                lemma_names_before_grows(l0, 0, j);
                let x = names_before(l0, j) + m;
                assert(0 <= x < es0.len());
                assert(names_before(ls, j) + m == x);
                assert((es0 + more)[x] == es0[x]);
                assert(es[names_before(ls, j) + m] == es0[names_before(l0, j) + m]);
            } else {
                lemma_names_before_grows(ls, 0, j);
                assert(more[m] == es[names_before(ls, j) + m]);
            }
        }
    }
}

/// The function names of a name map are its namings, one entry each and in
/// order, with the function index and the name that each naming states.
pub proof fn law_function_names_by_entry(ns: Seq<crate::wasm::NamingV>)
    requires
        crate::module::name_entries(ns) is Ok,
    ensures
        crate::module::name_entries(ns)->Ok_0.len() == ns.len(),
        forall|m: int| 0 <= m < ns.len() ==> #[trigger] crate::module::name_entries(ns)->Ok_0[m]
            == (NameEntryV { index: ns[m]->Ok_0.0, value: ns[m]->Ok_0.1 }),
    decreases ns.len(),
{
    if ns.len() > 0 {
        let n0 = ns.drop_last();
        law_function_names_by_entry(n0);
        let es = crate::module::name_entries(ns)->Ok_0;
        let e0 = crate::module::name_entries(n0)->Ok_0;
        assert forall|m: int| 0 <= m < ns.len() implies #[trigger] es[m]
            == (NameEntryV { index: ns[m]->Ok_0.0, value: ns[m]->Ok_0.1 }) by {
            if m < n0.len() {
                assert(es[m] == e0[m]);
                assert(n0[m] == ns[m]);
            }
        }
    }
}

} // verus!
