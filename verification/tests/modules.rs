use wasm_parser::error::ParseError;
use wasm_parser::model::InstrKind;
use wasm_parser::model::RustFuncType;
use wasm_parser::module::{parse_type_section, read_code_entry, to_section, with_ranges, ParseState};
use wasm_parser::{get_initial_memory_pages, parse_wasm_module_native, RustInstr, RustModule};

const HEADER: [u8; 8] = [0x00, 0x61, 0x73, 0x6d, 0x01, 0x00, 0x00, 0x00];

fn leb(mut n: u64) -> Vec<u8> {
    let mut out = Vec::new();
    loop {
        let b = (n & 0x7f) as u8;
        n >>= 7;
        if n == 0 {
            out.push(b);
            return out;
        }
        out.push(b | 0x80);
    }
}

fn name(s: &str) -> Vec<u8> {
    let mut v = leb(s.len() as u64);
    v.extend_from_slice(s.as_bytes());
    v
}

fn section(id: u8, contents: &[u8]) -> Vec<u8> {
    let mut v = vec![id];
    v.extend(leb(contents.len() as u64));
    v.extend_from_slice(contents);
    v
}

fn module(sections: &[Vec<u8>]) -> Vec<u8> {
    let mut v = HEADER.to_vec();
    for s in sections {
        v.extend_from_slice(s);
    }
    v
}

fn vec_of(items: &[Vec<u8>]) -> Vec<u8> {
    let mut v = leb(items.len() as u64);
    for i in items {
        v.extend_from_slice(i);
    }
    v
}

/// A code section of the given bodies.
fn code(bodies: &[Vec<u8>]) -> Vec<u8> {
    let items: Vec<Vec<u8>> = bodies
        .iter()
        .map(|b| {
            let mut v = leb(b.len() as u64);
            v.extend_from_slice(b);
            v
        })
        .collect();
    section(10, &vec_of(&items))
}

fn check_ranges(instrs: &[RustInstr]) {
    for i in instrs {
        assert!(i.start < i.end, "instr {:?} has start >= end", i.kind);
        if let Some(b) = &i.body {
            check_ranges(b);
        }
        if let Some(c) = &i.consequence {
            check_ranges(c);
        }
        if let Some(a) = &i.alternative {
            check_ranges(a);
        }
    }
}

fn check_opcodes(bytes: &[u8], instrs: &[RustInstr]) {
    for i in instrs {
        assert_eq!(bytes[i.start as usize] as u32, i.opcode);
        for inner in [&i.body, &i.consequence, &i.alternative].into_iter().flatten() {
            check_opcodes(bytes, inner);
        }
    }
}

#[test]
fn empty_module_has_nothing() {
    let m = parse_wasm_module_native(&HEADER).unwrap();
    assert!(m.sections.is_empty());
    assert!(m.types.is_empty());
    assert!(m.funcs.is_empty());
    assert!(m.func_imports.is_empty());
    assert_eq!(m.initial_memory_pages, 0);
    assert_eq!(get_initial_memory_pages(&HEADER).unwrap(), 0);
}

#[test]
fn truncated_binary_is_a_decoder_error() {
    assert!(matches!(parse_wasm_module_native(&HEADER[..4]), Err(ParseError::Decode(_))));
    assert!(matches!(get_initial_memory_pages(&HEADER[..4]), Err(ParseError::Decode(_))));
}

#[test]
fn type_section_lists_function_types() {
    let bytes = module(&[section(1, &[0x01, 0x60, 0x02, 0x7f, 0x7f, 0x01, 0x7f])]);
    let m = parse_wasm_module_native(&bytes).unwrap();
    assert_eq!(m.sections.len(), 1);
    assert_eq!(m.sections[0].section, "type");
    assert_eq!((m.sections[0].start_address, m.sections[0].end_address), (10, 17));
    assert_eq!(m.types.len(), 1);
    assert_eq!(m.types[0].id, 0);
    assert_eq!(m.types[0].params, vec!["i32".to_string(), "i32".to_string()]);
    assert_eq!(m.types[0].results, vec!["i32".to_string()]);
}

#[test]
fn type_ids_follow_the_section_order() {
    let contents = [0x03, 0x60, 0x00, 0x00, 0x60, 0x01, 0x7e, 0x00, 0x60, 0x00, 0x01, 0x7c];
    let bytes = module(&[section(1, &contents)]);
    let ts = parse_type_section(&bytes, 10, 10 + contents.len()).unwrap();
    assert_eq!(ts.len(), 3);
    for (k, t) in ts.iter().enumerate() {
        assert_eq!(t.id, k as u32);
    }
    assert_eq!(ts[1].params, vec!["i64".to_string()]);
    assert_eq!(ts[2].results, vec!["f64".to_string()]);
}

#[test]
fn trailing_bytes_in_a_section_are_refused() {
    let bytes = module(&[section(1, &[0x00, 0x00])]);
    assert!(matches!(parse_wasm_module_native(&bytes), Err(ParseError::SectionSizeMismatch)));
}

#[test]
fn simd_and_other_reference_types_are_refused() {
    let bytes = module(&[section(1, &[0x01, 0x60, 0x01, 0x7b, 0x00])]);
    assert!(matches!(parse_wasm_module_native(&bytes), Err(ParseError::SimdType)));
    let bytes = module(&[section(1, &[0x01, 0x60, 0x01, 0x6e, 0x00])]);
    match parse_wasm_module_native(&bytes) {
        Err(ParseError::UnsupportedRefType(t)) => assert_eq!(t, "anyref"),
        other => panic!("expected an unsupported reference type, got {:?}", other.map(|_| ())),
    }
    let bytes = module(&[section(1, &[0x01, 0x60, 0x01, 0x70, 0x01, 0x6f])]);
    let m = parse_wasm_module_native(&bytes).unwrap();
    assert_eq!(m.types[0].params, vec!["anyfunc".to_string()]);
    assert_eq!(m.types[0].results, vec!["externref".to_string()]);
}

#[test]
fn struct_types_are_refused() {
    let bytes = module(&[section(1, &[0x01, 0x5f, 0x00])]);
    assert!(matches!(parse_wasm_module_native(&bytes), Err(ParseError::UnsupportedTypeEntry(_))));
    match parse_wasm_module_native(&bytes) {
        Err(ParseError::UnsupportedTypeEntry(t)) => assert!(t.starts_with("Struct"), "{}", t),
        other => panic!("expected an unsupported type entry, got {:?}", other.map(|_| ())),
    }
}

fn imports() -> Vec<u8> {
    let mut f = name("env");
    f.extend(name("f"));
    f.extend([0x00, 0x00]);
    let mut t = name("env");
    t.extend(name("t"));
    t.extend([0x01, 0x70, 0x00, 0x01]);
    let mut mem = name("env");
    mem.extend(name("m"));
    mem.extend([0x02, 0x00, 0x02]);
    let mut t2 = name("env");
    t2.extend(name("u"));
    t2.extend([0x01, 0x6f, 0x00, 0x00]);
    section(2, &vec_of(&[f, t, mem, t2]))
}

#[test]
fn imports_record_functions_tables_and_memories() {
    let bytes = module(&[imports()]);
    let m = parse_wasm_module_native(&bytes).unwrap();
    assert_eq!(m.sections[0].section, "import");
    assert_eq!(m.func_imports.len(), 1);
    let f = &m.func_imports[0];
    assert_eq!((f.module.as_str(), f.name.as_str(), f.type_index), ("env", "f", 0));
    assert_eq!((f.start_address, f.end_address), (11, 19));
    assert_eq!(m.table_imports.len(), 2);
    let t = &m.table_imports[0];
    assert_eq!((t.module.as_str(), t.name.as_str(), t.id), ("env", "t", 0));
    assert_eq!((t.start_address, t.end_address), (19, 29));
    assert_eq!(m.table_imports[1].id, 1);
    assert_eq!(m.table_imports[1].name, "u");
    assert_eq!(m.table_imports[1].end_address as usize, bytes.len());
    assert_eq!(m.memory_imports.len(), 1);
    let mi = &m.memory_imports[0];
    assert_eq!((mi.name.as_str(), mi.initial_pages, mi.maximum_pages), ("m", 2, None));
    assert_eq!(m.initial_memory_pages, 2);
}

#[test]
fn initial_pages_come_from_the_first_memory() {
    let defined = section(5, &[0x01, 0x01, 0x03, 0x07]);
    let bytes = module(&[defined.clone()]);
    let m = parse_wasm_module_native(&bytes).unwrap();
    assert_eq!(m.sections[0].section, "memory");
    assert_eq!(m.memories.len(), 1);
    assert_eq!((m.memories[0].initial_pages, m.memories[0].maximum_pages), (3, Some(7)));
    assert_eq!(get_initial_memory_pages(&bytes).unwrap(), 3);
    let bytes = module(&[imports(), defined]);
    assert_eq!(get_initial_memory_pages(&bytes).unwrap(), 2);
}

#[test]
fn initial_pages_beyond_32_bits_are_refused() {
    let mut contents = vec![0x01, 0x04];
    contents.extend(leb(1 << 32));
    let bytes = module(&[section(5, &contents)]);
    let m = parse_wasm_module_native(&bytes).unwrap();
    assert!(m.memories[0].memory64);
    assert_eq!(m.initial_memory_pages, 1 << 32);
    assert!(matches!(get_initial_memory_pages(&bytes), Err(ParseError::InitialPagesTooLarge)));
}

#[test]
fn function_bodies_record_locals_and_instructions() {
    let types = section(1, &[0x01, 0x60, 0x01, 0x7f, 0x01, 0x7f]);
    let funcs = section(3, &[0x01, 0x00]);
    let bytes = module(&[types, funcs, code(&[vec![0x01, 0x02, 0x7e, 0x20, 0x00, 0x0b]])]);
    let m = parse_wasm_module_native(&bytes).unwrap();
    let names: Vec<&str> = m.sections.iter().map(|s| s.section.as_str()).collect();
    assert_eq!(names, vec!["type", "func", "code"]);
    assert_eq!((m.sections[2].start_address, m.sections[2].end_address), (22, 30));
    assert_eq!(m.funcs.len(), 1);
    let f = &m.funcs[0];
    assert_eq!((f.id, f.name.as_str(), f.type_index), (0, "func_0", 0));
    let locals: Vec<(u32, &str)> = f.locals.iter().map(|l| (l.index, l.ty.as_str())).collect();
    assert_eq!(locals, vec![(0, "i32"), (1, "i64"), (2, "i64")]);
    assert_eq!(f.body.len(), 2);
    assert_eq!(f.body[0].kind, InstrKind::Indexed);
    assert_eq!((f.body[0].opcode, f.body[0].index), (0x20, Some(0)));
    assert_eq!((f.body[0].start, f.body[0].end), (27, 29));
    assert_eq!((f.body[1].opcode, f.body[1].start, f.body[1].end), (0x0b, 29, 30));
}

#[test]
fn functions_are_numbered_after_the_imported_ones() {
    let types = section(1, &[0x01, 0x60, 0x00, 0x00]);
    let funcs = section(3, &[0x02, 0x00, 0x00]);
    let bytes = module(&[types, imports(), funcs, code(&[vec![0x00, 0x0b], vec![0x00, 0x01, 0x0b]])]);
    let m = parse_wasm_module_native(&bytes).unwrap();
    assert_eq!(m.funcs.len(), 2);
    assert_eq!((m.funcs[0].id, m.funcs[0].name.as_str()), (1, "func_1"));
    assert_eq!((m.funcs[1].id, m.funcs[1].name.as_str()), (2, "func_2"));
    assert_eq!(m.funcs[1].body.len(), 2);
}

fn empty_state() -> ParseState {
    ParseState {
        module: RustModule {
            sections: vec![], types: vec![], func_imports: vec![], table_imports: vec![],
            memory_imports: vec![], funcs: vec![], globals: vec![], memories: vec![],
            exported_funcs: vec![], table_exports: vec![], elements: vec![], func_names: vec![],
            local_names: vec![], initial_memory_pages: 0,
        },
        function_type_indices: vec![],
        num_func_imports: 0,
        num_table_imports: 0,
        code_index: 0,
    }
}

#[test]
fn code_without_a_function_entry_is_refused() {
    let body = [0x00, 0x0b];
    let mut st = empty_state();
    assert!(matches!(read_code_entry(&body, 0, 2, &mut st), Err(ParseError::CodeWithoutFunction)));
    // the decoder itself already refuses a code section that the function
    // section does not announce
    let types = section(1, &[0x01, 0x60, 0x00, 0x00]);
    let bytes = module(&[types, code(&[vec![0x00, 0x0b]])]);
    assert!(matches!(parse_wasm_module_native(&bytes), Err(ParseError::Decode(_))));
}

#[test]
fn code_entry_reads_into_the_state() {
    let body = [0x01, 0x01, 0x7d, 0x0b];
    let mut st = empty_state();
    st.module.types.push(RustFuncType { id: 0, params: vec!["i32".to_string()], results: vec![] });
    st.function_type_indices.push(0);
    st.num_func_imports = 4;
    read_code_entry(&body, 0, 4, &mut st).unwrap();
    assert_eq!(st.code_index, 1);
    let f = &st.module.funcs[0];
    assert_eq!((f.id, f.name.as_str(), f.type_index), (4, "func_4", 0));
    let locals: Vec<(u32, &str)> = f.locals.iter().map(|l| (l.index, l.ty.as_str())).collect();
    assert_eq!(locals, vec![(0, "i32"), (1, "f32")]);
    assert_eq!((f.body[0].opcode, f.body[0].start, f.body[0].end), (0x0b, 3, 4));
}

#[test]
fn unknown_type_index_is_refused() {
    let types = section(1, &[0x01, 0x60, 0x00, 0x00]);
    let funcs = section(3, &[0x01, 0x05]);
    let bytes = module(&[types, funcs, code(&[vec![0x00, 0x0b]])]);
    assert!(matches!(parse_wasm_module_native(&bytes), Err(ParseError::UnknownTypeIndex(5))));
}

#[test]
fn too_many_locals_are_refused() {
    let types = section(1, &[0x01, 0x60, 0x01, 0x7f, 0x00]);
    let funcs = section(3, &[0x01, 0x00]);
    let bytes = module(&[types, funcs, code(&[vec![0x01, 0xff, 0xff, 0xff, 0xff, 0x0f, 0x7f, 0x0b]])]);
    assert!(matches!(parse_wasm_module_native(&bytes), Err(ParseError::TooManyLocals)));
}

#[test]
fn exports_record_functions_and_tables() {
    let mut main = name("main");
    main.extend([0x00, 0x00]);
    let mut tbl = name("tbl");
    tbl.extend([0x01, 0x00]);
    let mut mem = name("mem");
    mem.extend([0x02, 0x00]);
    let mut f1 = name("other");
    f1.extend([0x00, 0x03]);
    let bytes = module(&[section(7, &vec_of(&[main, tbl, mem, f1]))]);
    let m = parse_wasm_module_native(&bytes).unwrap();
    assert_eq!(m.sections[0].section, "export");
    assert_eq!(m.exported_funcs.len(), 2);
    assert_eq!((m.exported_funcs[0].name.as_str(), m.exported_funcs[0].func_index), ("main", 0));
    assert_eq!((m.exported_funcs[1].name.as_str(), m.exported_funcs[1].func_index), ("other", 3));
    assert_eq!(m.table_exports.len(), 1);
    assert_eq!((m.table_exports[0].name.as_str(), m.table_exports[0].id), ("tbl", 0));
}

#[test]
fn globals_record_type_mutability_and_initializer() {
    let bytes = module(&[section(6, &[0x01, 0x7f, 0x01, 0x41, 0x2a, 0x0b])]);
    let m = parse_wasm_module_native(&bytes).unwrap();
    assert_eq!(m.sections[0].section, "global");
    assert_eq!(m.globals.len(), 1);
    let g = &m.globals[0];
    assert_eq!((g.value_type.as_str(), g.mutable, g.name.clone()), ("i32", true, None));
    assert_eq!((g.start_address, g.end_address), (11, 16));
    assert_eq!(g.init.len(), 2);
    assert_eq!(g.init[0].kind, InstrKind::ConstI32);
    assert_eq!((g.init[0].i32_value, g.init[0].start, g.init[0].end), (Some(42), 13, 15));
    assert_eq!((g.init[1].opcode, g.init[1].start, g.init[1].end), (0x0b, 15, 16));
}

#[test]
fn active_element_segments_list_their_functions() {
    let seg0 = vec![0x00, 0x41, 0x00, 0x0b, 0x02, 0x00, 0x01];
    let seg1 = vec![0x02, 0x01, 0x41, 0x00, 0x0b, 0x00, 0x01, 0x05];
    let seg2 = vec![0x04, 0x41, 0x00, 0x0b, 0x02, 0xd2, 0x03, 0x0b, 0xd0, 0x70, 0x0b];
    let passive = vec![0x01, 0x00, 0x01, 0x00];
    let bytes = module(&[section(9, &vec_of(&[seg0, seg1, passive, seg2]))]);
    let m = parse_wasm_module_native(&bytes).unwrap();
    assert_eq!(m.sections[0].section, "element");
    assert_eq!(m.elements.len(), 3);
    assert_eq!((m.elements[0].table_id, m.elements[0].funcs.clone()), (0, vec![0, 1]));
    assert_eq!((m.elements[0].start_address, m.elements[0].end_address), (11, 18));
    assert_eq!((m.elements[1].table_id, m.elements[1].funcs.clone()), (1, vec![5]));
    assert_eq!((m.elements[2].table_id, m.elements[2].funcs.clone()), (0, vec![3]));
}

fn name_section(subsections: &[(u8, Vec<u8>)]) -> Vec<u8> {
    let mut c = name("name");
    for (id, body) in subsections {
        c.push(*id);
        c.extend(leb(body.len() as u64));
        c.extend_from_slice(body);
    }
    section(0, &c)
}

fn naming(index: u32, s: &str) -> Vec<u8> {
    let mut v = leb(index as u64);
    v.extend(name(s));
    v
}

fn two_functions() -> Vec<Vec<u8>> {
    vec![
        section(1, &[0x01, 0x60, 0x00, 0x00]),
        section(3, &[0x02, 0x00, 0x00]),
        code(&[vec![0x00, 0x0b], vec![0x00, 0x0b]]),
    ]
}

#[test]
fn name_section_renames_functions() {
    let fnames = vec_of(&[naming(1, "second")]);
    let mut locals = vec![0x01];
    locals.extend(leb(0));
    locals.extend(vec_of(&[naming(0, "x"), naming(2, "y")]));
    let mut secs = two_functions();
    secs.push(name_section(&[(1, fnames), (2, locals)]));
    let bytes = module(&secs);
    let m = parse_wasm_module_native(&bytes).unwrap();
    assert_eq!(m.sections.last().unwrap().section, "custom");
    assert_eq!(m.funcs[0].name, "func_0");
    assert_eq!(m.funcs[1].name, "second");
    assert_eq!(m.func_names.len(), 1);
    assert_eq!((m.func_names[0].index, m.func_names[0].value.as_str()), (1, "second"));
    assert_eq!(m.local_names.len(), 2);
    let l = &m.local_names[1];
    assert_eq!((l.function_index, l.local_index, l.value.as_str()), (0, 2, "y"));
}

#[test]
fn name_section_before_the_code_still_names_functions() {
    let fnames = vec_of(&[naming(0, "first"), naming(1, "second")]);
    let mut secs = two_functions();
    secs.insert(0, name_section(&[(1, fnames)]));
    let m = parse_wasm_module_native(&module(&secs)).unwrap();
    assert_eq!(m.funcs[0].name, "first");
    assert_eq!(m.funcs[1].name, "second");
}

#[test]
fn names_out_of_order_are_a_decoder_error() {
    let fnames = vec_of(&[naming(1, "b"), naming(0, "a")]);
    let mut secs = two_functions();
    secs.push(name_section(&[(1, fnames)]));
    assert!(matches!(parse_wasm_module_native(&module(&secs)), Err(ParseError::Decode(_))));
}

#[test]
fn unreadable_name_subsections_are_skipped() {
    // a function-names subsection after a local-names one is out of order
    // and skipped; the module is still read
    let mut locals = vec![0x01];
    locals.extend(leb(0));
    locals.extend(vec_of(&[naming(0, "x")]));
    let fnames = vec_of(&[naming(0, "late")]);
    let mut secs = two_functions();
    secs.push(name_section(&[(2, locals), (1, fnames)]));
    let m = parse_wasm_module_native(&module(&secs)).unwrap();
    assert_eq!(m.local_names.len(), 1);
    assert!(m.func_names.is_empty());
    assert_eq!(m.funcs[0].name, "func_0");
}

#[test]
fn other_custom_sections_and_plain_sections_are_listed() {
    let mut c = name("producers!");
    c.extend([1, 2, 3]);
    let table = section(4, &[0x01, 0x70, 0x00, 0x01]);
    let start = section(8, &[0x00]);
    let data = section(11, &[0x00]);
    let datacount = section(12, &[0x00]);
    let bytes = module(&[table, section(0, &c), start, datacount, data]);
    let m = parse_wasm_module_native(&bytes).unwrap();
    let names: Vec<&str> = m.sections.iter().map(|s| s.section.as_str()).collect();
    assert_eq!(names, vec!["table", "custom", "start", "data"]);
    for s in &m.sections {
        assert!(s.start_address <= s.end_address);
        assert!(s.end_address as usize <= bytes.len());
    }
}

#[test]
fn every_section_and_instruction_has_a_well_formed_range() {
    let mut secs = two_functions();
    secs.insert(2, section(6, &[0x01, 0x7e, 0x00, 0x42, 0x05, 0x0b]));
    secs.push(name_section(&[(1, vec_of(&[naming(0, "a")]))]));
    let bytes = module(&secs);
    let m = parse_wasm_module_native(&bytes).unwrap();
    for s in &m.sections {
        assert!(s.start_address <= s.end_address && s.end_address as usize <= bytes.len());
    }
    for f in &m.funcs {
        check_ranges(&f.body);
        check_opcodes(&bytes, &f.body);
    }
    for g in &m.globals {
        check_ranges(&g.init);
        check_opcodes(&bytes, &g.init);
    }
}

#[test]
fn locals_start_with_the_parameters_of_the_type() {
    let types = section(1, &[0x02, 0x60, 0x00, 0x00, 0x60, 0x02, 0x7d, 0x7c, 0x00]);
    let funcs = section(3, &[0x01, 0x01]);
    let body = vec![0x02, 0x01, 0x7f, 0x02, 0x7e, 0x0b];
    let m = parse_wasm_module_native(&module(&[types, funcs, code(&[body])])).unwrap();
    let f = &m.funcs[0];
    assert_eq!(f.type_index, 1);
    let locals: Vec<(u32, &str)> = f.locals.iter().map(|l| (l.index, l.ty.as_str())).collect();
    assert_eq!(locals, vec![(0, "f32"), (1, "f64"), (2, "i32"), (3, "i64"), (4, "i64")]);
}

#[test]
fn section_entries_and_item_ranges() {
    let s = to_section("data", 5, 9);
    assert_eq!((s.section.as_str(), s.start_address, s.end_address), ("data", 5, 9));
    let s = to_section("code", (1 << 32) + 3, (1 << 32) + 4);
    assert_eq!((s.start_address, s.end_address), (3, 4));
    assert_eq!(with_ranges(&vec![3, 7, 12], 20), vec![(3, 7), (7, 12), (12, 20)]);
    assert!(with_ranges(&vec![], 20).is_empty());
}

#[test]
fn modules_nested_in_a_component_are_read() {
    let inner = module(&two_functions());
    let mut bytes = vec![0x00, 0x61, 0x73, 0x6d, 0x0d, 0x00, 0x01, 0x00];
    bytes.extend(section(1, &inner));
    let mut c = name("note");
    c.push(0x2a);
    bytes.extend(section(0, &c));
    let m = parse_wasm_module_native(&bytes).unwrap();
    let names: Vec<&str> = m.sections.iter().map(|s| s.section.as_str()).collect();
    assert_eq!(names, vec!["type", "func", "code", "custom"]);
    assert_eq!(m.funcs.len(), 2);
    // the nested module starts after the component header (8 bytes) and the
    // module section's id and size (2 bytes)
    assert_eq!(m.sections[0].start_address, 10 + 10);
    assert_eq!(m.sections[3].end_address as usize, bytes.len());
}

#[test]
fn truncated_code_section_is_a_decoder_error() {
    let types = section(1, &[0x01, 0x60, 0x00, 0x00]);
    let funcs = section(3, &[0x01, 0x00]);
    // the code section header announces 16 bytes but only 3 follow
    let mut bytes = module(&[types, funcs]);
    bytes.extend([0x0a, 0x10, 0x01, 0x02, 0x00]);
    assert!(matches!(parse_wasm_module_native(&bytes), Err(ParseError::Decode(_))));
}

#[test]
fn a_truncated_module_reports_the_decoder_message() {
    match parse_wasm_module_native(&HEADER[..4]) {
        Err(ParseError::Decode(m)) => {
            assert!(!m.is_empty());
            assert!(m.contains("(at offset 0x"), "{}", m);
        },
        other => panic!("expected a decoder error, got {:?}", other.map(|_| ())),
    }
}

#[test]
fn imports_globals_and_elements_lie_inside_the_binary() {
    let seg = vec![0x00, 0x41, 0x00, 0x0b, 0x01, 0x00];
    let bytes = module(&[
        imports(),
        section(6, &[0x02, 0x7f, 0x00, 0x41, 0x01, 0x0b, 0x7e, 0x01, 0x42, 0x02, 0x0b]),
        section(9, &vec_of(&[seg])),
    ]);
    let m = parse_wasm_module_native(&bytes).unwrap();
    let len = bytes.len() as u32;
    assert_eq!((m.func_imports.len(), m.table_imports.len(), m.globals.len(), m.elements.len()), (1, 2, 2, 1));
    for (s, e) in m.func_imports.iter().map(|f| (f.start_address, f.end_address))
        .chain(m.table_imports.iter().map(|t| (t.start_address, t.end_address)))
        .chain(m.globals.iter().map(|g| (g.start_address, g.end_address)))
        .chain(m.elements.iter().map(|x| (x.start_address, x.end_address)))
    {
        assert!(s < e && e <= len, "{s}..{e} outside 0..{len}");
    }
    assert_eq!(m.globals[0].end_address, m.globals[1].start_address);
}

#[test]
fn functions_take_their_types_by_position() {
    let types = section(1, &[0x02, 0x60, 0x00, 0x00, 0x60, 0x01, 0x7f, 0x00]);
    let funcs = section(3, &[0x03, 0x01, 0x00, 0x01]);
    let bodies = vec![vec![0x00, 0x0b], vec![0x00, 0x0b], vec![0x00, 0x0b]];
    let bytes = module(&[types, funcs, code(&bodies)]);
    let m = parse_wasm_module_native(&bytes).unwrap();
    let tys: Vec<u32> = m.funcs.iter().map(|f| f.type_index).collect();
    assert_eq!(tys, vec![1, 0, 1]);
    assert_eq!(m.funcs[0].locals.len(), 1);
    assert_eq!(m.funcs[1].locals.len(), 0);
}
