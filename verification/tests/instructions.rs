use wasm_parser::error::ParseError;
use wasm_parser::instr::{build_tree, leaf_instr, parse_instr_stream, Token};
use wasm_parser::model::InstrKind;
use wasm_parser::text::func_name_of;
use wasm_parser::valtype::{block_type_to_string, val_type_to_string, BlockTy, ValTy};
use wasm_parser::RustInstr;

fn stream(bytes: &[u8]) -> Result<Vec<RustInstr>, ParseError> {
    parse_instr_stream(bytes, 0, bytes.len())
}

fn check_ranges(instrs: &[RustInstr]) {
    for i in instrs {
        assert!(i.start < i.end, "instr {:?} has start >= end", i.kind);
        if let Some(b) = &i.body {
            check_ranges(b);
        }
        if let Some(c) = &i.consequence {
            check_ranges(c);
        }
        if let Some(a) = &i.alternative {
            check_ranges(a);
        }
    }
}

fn check_opcodes(bytes: &[u8], instrs: &[RustInstr]) {
    for i in instrs {
        assert_eq!(bytes[i.start as usize] as u32, i.opcode);
        for inner in [&i.body, &i.consequence, &i.alternative].into_iter().flatten() {
            check_opcodes(bytes, inner);
        }
    }
}

#[test]
fn i32_const_and_end() {
    let v = stream(&[0x41, 0x7f, 0x0b]).unwrap();
    assert_eq!(v.len(), 2);
    assert_eq!(v[0].kind, InstrKind::ConstI32);
    assert_eq!(v[0].opcode, 0x41);
    assert_eq!(v[0].i32_value, Some(-1));
    assert_eq!((v[0].start, v[0].end), (0, 2));
    assert_eq!(v[1].kind, InstrKind::Plain);
    assert_eq!(v[1].opcode, 0x0b);
    assert_eq!((v[1].start, v[1].end), (2, 3));
}

#[test]
fn i64_const_is_split_into_halves() {
    let v = stream(&[0x42, 0x7f, 0x0b]).unwrap();
    assert_eq!(v[0].kind, InstrKind::ConstI64);
    assert_eq!(v[0].i64_low, Some(-1));
    assert_eq!(v[0].i64_high, Some(-1));
    let v = stream(&[0x42, 0x80, 0x80, 0x80, 0x80, 0x10, 0x0b]).unwrap();
    assert_eq!(v[0].i64_low, Some(0));
    assert_eq!(v[0].i64_high, Some(1));
    assert_eq!((v[0].start, v[0].end), (0, 6));
}

#[test]
fn float_constants_keep_their_bits() {
    let v = stream(&[0x43, 0x00, 0x00, 0x80, 0x3f, 0x0b]).unwrap();
    assert_eq!(v[0].kind, InstrKind::ConstF32);
    assert_eq!(v[0].f32_bits, Some(0x3f80_0000));
    assert_eq!(f32::from_bits(v[0].f32_bits.unwrap()), 1.0f32);
    let v = stream(&[0x44, 0, 0, 0, 0, 0, 0, 0xf0, 0x3f, 0x0b]).unwrap();
    assert_eq!(v[0].kind, InstrKind::ConstF64);
    assert_eq!(v[0].f64_bits, Some(0x3ff0_0000_0000_0000));
    assert_eq!((v[1].start, v[1].end), (9, 10));
}

#[test]
fn branches_and_branch_tables() {
    let v = stream(&[0x0c, 0x03, 0x0d, 0x01, 0x0e, 0x02, 0x01, 0x00, 0x02, 0x0b]).unwrap();
    assert_eq!(v[0].kind, InstrKind::Branch);
    assert_eq!(v[0].opcode, 0x0c);
    assert_eq!(v[0].target, Some(3));
    assert_eq!(v[1].opcode, 0x0d);
    assert_eq!(v[1].target, Some(1));
    assert_eq!(v[2].kind, InstrKind::BranchTable);
    assert_eq!(v[2].targets, Some(vec![1, 0, 2]));
    assert_eq!((v[2].start, v[2].end), (4, 9));
}

#[test]
fn calls_name_their_callee_by_index() {
    let v = stream(&[0x10, 0x05, 0x11, 0x02, 0x00, 0x0b]).unwrap();
    assert_eq!(v[0].kind, InstrKind::Call);
    assert_eq!(v[0].func_index, Some(5));
    assert_eq!(v[0].func_name.as_deref(), Some("func_5"));
    assert_eq!(v[1].kind, InstrKind::CallIndirect);
    assert_eq!(v[1].type_index, Some(2));
}

#[test]
fn variable_instructions_carry_their_index() {
    let v = stream(&[0x20, 0x00, 0x21, 0x01, 0x22, 0x02, 0x23, 0x03, 0x24, 0x04, 0x0b]).unwrap();
    for (k, op) in [0x20u32, 0x21, 0x22, 0x23, 0x24].iter().enumerate() {
        assert_eq!(v[k].kind, InstrKind::Indexed);
        assert_eq!(v[k].opcode, *op);
        assert_eq!(v[k].index, Some(k as u32));
    }
}

#[test]
fn memory_instructions_carry_their_offset() {
    // i32.load align=2 offset=16; i64.store with a memory index (flag bit 6), offset 8
    let v = stream(&[0x28, 0x02, 0x10, 0x37, 0x43, 0x00, 0x08, 0x0b]).unwrap();
    assert_eq!(v[0].kind, InstrKind::MemOp);
    assert_eq!(v[0].opcode, 0x28);
    assert_eq!(v[0].offset, Some(16));
    assert_eq!(v[1].opcode, 0x37);
    assert_eq!(v[1].offset, Some(8));
    assert_eq!((v[1].start, v[1].end), (3, 7));
}

#[test]
fn prefixed_instructions() {
    let v = stream(&[0xfc, 0x0b, 0x00, 0xfc, 0x10, 0x01, 0x0b]).unwrap();
    assert_eq!(v[0].kind, InstrKind::Plain);
    assert_eq!(v[0].opcode, 0xfc);
    assert_eq!(v[0].sub_opcode, Some(0x0b));
    assert_eq!(v[1].kind, InstrKind::Indexed);
    assert_eq!(v[1].sub_opcode, Some(0x10));
    assert_eq!(v[1].index, Some(1));
}

#[test]
fn unsupported_instructions_are_refused() {
    let r = stream(&[0xfc, 0x00, 0x0b]);
    assert!(matches!(r, Err(ParseError::UnsupportedInstruction { opcode: 0xfc, sub_opcode: Some(0), .. })));
    let r = stream(&[0x12, 0x00, 0x0b]);
    assert!(matches!(r, Err(ParseError::UnsupportedInstruction { opcode: 0x12, sub_opcode: None, .. })));
}

#[test]
fn unsupported_instructions_carry_the_decoded_operator() {
    match stream(&[0xfc, 0x00, 0x0b]) {
        Err(ParseError::UnsupportedInstruction { text, .. }) => assert_eq!(text, "I32TruncSatF32S"),
        other => panic!("expected an unsupported instruction, got {:?}", other.map(|v| v.len())),
    }
    match stream(&[0x12, 0x00, 0x0b]) {
        Err(ParseError::UnsupportedInstruction { text, .. }) => assert_eq!(text, "ReturnCall { function_index: 0 }"),
        other => panic!("expected an unsupported instruction, got {:?}", other.map(|v| v.len())),
    }
}

#[test]
fn nested_block_loop_if_else() {
    // block; loop (result i32); if; nop; else; nop; end; end; end; end
    let bytes = [0x02, 0x40, 0x03, 0x7f, 0x04, 0x40, 0x01, 0x05, 0x01, 0x0b, 0x0b, 0x0b, 0x0b];
    let v = stream(&bytes).unwrap();
    assert_eq!(v.len(), 2);
    let block = &v[0];
    assert_eq!(block.kind, InstrKind::Block);
    assert_eq!(block.opcode, 0x02);
    assert_eq!((block.start, block.end), (0, 12));
    assert_eq!(block.result_type, None);
    let body = block.body.as_ref().unwrap();
    assert_eq!(body.len(), 2);
    let lp = &body[0];
    assert_eq!(lp.kind, InstrKind::Loop);
    assert_eq!(lp.result_type.as_deref(), Some("i32"));
    assert_eq!((lp.start, lp.end), (2, 11));
    let lbody = lp.body.as_ref().unwrap();
    assert_eq!(lbody.len(), 2);
    let iff = &lbody[0];
    assert_eq!(iff.kind, InstrKind::If);
    assert_eq!(iff.opcode, 0x04);
    assert_eq!((iff.start, iff.end), (4, 10));
    let cons = iff.consequence.as_ref().unwrap();
    let alt = iff.alternative.as_ref().unwrap();
    assert_eq!(cons.len(), 1);
    assert_eq!((cons[0].opcode, cons[0].start, cons[0].end), (0x01, 6, 7));
    assert_eq!(alt.len(), 2);
    assert_eq!((alt[0].opcode, alt[0].start), (0x01, 8));
    assert_eq!((alt[1].opcode, alt[1].start, alt[1].end), (0x0b, 9, 10));
    assert_eq!((lbody[1].opcode, lbody[1].start), (0x0b, 10));
    assert_eq!((body[1].opcode, body[1].start), (0x0b, 11));
    assert_eq!((v[1].opcode, v[1].start, v[1].end), (0x0b, 12, 13));
    check_ranges(&v);
    check_opcodes(&bytes, &v);
}

#[test]
fn if_without_else_keeps_an_empty_alternative() {
    let v = stream(&[0x04, 0x40, 0x01, 0x0b, 0x0b]).unwrap();
    let iff = &v[0];
    assert_eq!(iff.consequence.as_ref().unwrap().len(), 2);
    assert_eq!(iff.alternative.as_ref().unwrap().len(), 0);
}

#[test]
fn block_with_a_type_index_is_kept_but_loop_with_one_is_refused() {
    let v = stream(&[0x02, 0x00, 0x0b, 0x0b]).unwrap();
    assert_eq!(v[0].kind, InstrKind::Block);
    let r = stream(&[0x03, 0x00, 0x0b, 0x0b]);
    assert!(matches!(r, Err(ParseError::MultiValueBlockType)));
}

#[test]
fn unclosed_block_is_unbalanced() {
    let r = stream(&[0x02, 0x40, 0x01]);
    assert!(matches!(r, Err(ParseError::Unbalanced)));
}

#[test]
fn stray_else_is_a_decoder_error() {
    let r = stream(&[0x05, 0x0b]);
    assert!(matches!(r, Err(ParseError::Decode(_))));
}

#[test]
fn instruction_ranges_are_well_formed_and_cover_the_stream() {
    let bytes = [0x02, 0x40, 0x41, 0x01, 0x04, 0x40, 0x10, 0x00, 0x05, 0x01, 0x0b, 0x1a, 0x0b, 0x0b];
    let v = stream(&bytes).unwrap();
    check_ranges(&v);
    check_opcodes(&bytes, &v);
    assert_eq!(v[0].start, 0);
    assert_eq!(v.last().unwrap().end as usize, bytes.len());
}

#[test]
fn value_type_names() {
    assert_eq!(val_type_to_string(ValTy::I32).unwrap(), "i32");
    assert_eq!(val_type_to_string(ValTy::I64).unwrap(), "i64");
    assert_eq!(val_type_to_string(ValTy::F32).unwrap(), "f32");
    assert_eq!(val_type_to_string(ValTy::F64).unwrap(), "f64");
    assert_eq!(val_type_to_string(ValTy::Ref(true, false, "funcref".to_string())).unwrap(), "anyfunc");
    assert_eq!(val_type_to_string(ValTy::Ref(false, true, "externref".to_string())).unwrap(), "externref");
    assert!(matches!(val_type_to_string(ValTy::V128), Err(ParseError::SimdType)));
    match val_type_to_string(ValTy::Ref(false, false, "anyref".to_string())) {
        Err(ParseError::UnsupportedRefType(t)) => assert_eq!(t, "anyref"),
        other => panic!("expected an unsupported reference type, got {:?}", other),
    }
}

#[test]
fn block_type_names() {
    assert_eq!(block_type_to_string(BlockTy::Empty).unwrap(), None);
    assert_eq!(block_type_to_string(BlockTy::Value(ValTy::F64)).unwrap().as_deref(), Some("f64"));
    assert!(matches!(block_type_to_string(BlockTy::FuncType), Err(ParseError::MultiValueBlockType)));
    assert!(matches!(block_type_to_string(BlockTy::Value(ValTy::V128)), Err(ParseError::SimdType)));
}

#[test]
fn default_function_names() {
    assert_eq!(func_name_of(0), "func_0");
    assert_eq!(func_name_of(7), "func_7");
    assert_eq!(func_name_of(10), "func_10");
    assert_eq!(func_name_of(4294967295), "func_4294967295");
}

#[test]
fn frame_stack_refuses_else_outside_if() {
    let bytes = [0x01, 0x05, 0x0b];
    let toks = vec![
        Token { pos: 0, start: 0, end: 1 },
        Token { pos: 1, start: 1, end: 2 },
        Token { pos: 2, start: 2, end: 3 },
    ];
    assert!(matches!(build_tree(&bytes, &toks, 3), Err(ParseError::ElseOutsideIf)));
    let toks = vec![Token { pos: 0, start: 0, end: 1 }, Token { pos: 2, start: 2, end: 3 }];
    let v = build_tree(&bytes, &toks, 3).unwrap();
    assert_eq!(v.len(), 2);
    assert_eq!((v[0].opcode, v[1].opcode), (0x01, 0x0b));
}

#[test]
fn structural_operators_are_left_to_the_frame_stack() {
    for op in [0x02u8, 0x03, 0x04, 0x05] {
        let bytes = [op, 0x40, 0x0b];
        let r = leaf_instr(&bytes, 0, 3, 0, 2);
        assert!(matches!(r, Err(ParseError::StructuralOperator { opcode, .. }) if opcode == op as u32));
    }
    let texts = [
        (0x02u8, "Block { blockty: Empty }"),
        (0x03, "Loop { blockty: Empty }"),
        (0x04, "If { blockty: Empty }"),
        (0x05, "Else"),
    ];
    for (op, expected) in texts {
        match leaf_instr(&[op, 0x40, 0x0b], 0, 3, 0, 2) {
            Err(ParseError::StructuralOperator { text, .. }) => assert_eq!(text, expected),
            other => panic!("expected a structural operator, got {:?}", other),
        }
    }
}

#[test]
fn decoder_errors_carry_the_decoder_message() {
    match leaf_instr(&[0x41], 0, 1, 0, 1) {
        Err(ParseError::Decode(m)) => assert_eq!(m, "unexpected end-of-file (at offset 0x1)"),
        other => panic!("expected a decoder error, got {:?}", other),
    }
    match stream(&[0x05, 0x0b]) {
        Err(ParseError::Decode(m)) => {
            assert!(m.contains("found outside"), "{}", m);
            assert!(m.contains("(at offset 0x"), "{}", m);
        },
        other => panic!("expected a decoder error, got {:?}", other),
    }
}

#[test]
fn frame_stack_keeps_a_stray_end_in_the_outer_list() {
    let bytes = [0x01, 0x0b, 0x0b];
    let toks = vec![
        Token { pos: 0, start: 0, end: 1 },
        Token { pos: 1, start: 1, end: 2 },
        Token { pos: 2, start: 2, end: 3 },
    ];
    let v = build_tree(&bytes, &toks, 3).unwrap();
    let ops: Vec<(u32, u32)> = v.iter().map(|i| (i.opcode, i.start)).collect();
    assert_eq!(ops, vec![(0x01, 0), (0x0b, 1), (0x0b, 2)]);
}

#[test]
fn frame_stack_keeps_every_operator_but_else_in_order() {
    // if; else; nop; else; nop; end
    let bytes = [0x04, 0x40, 0x05, 0x01, 0x05, 0x01, 0x0b];
    let toks = vec![
        Token { pos: 0, start: 0, end: 2 },
        Token { pos: 2, start: 2, end: 3 },
        Token { pos: 3, start: 3, end: 4 },
        Token { pos: 4, start: 4, end: 5 },
        Token { pos: 5, start: 5, end: 6 },
        Token { pos: 6, start: 6, end: 7 },
    ];
    let v = build_tree(&bytes, &toks, 7).unwrap();
    assert_eq!(v.len(), 1);
    assert_eq!((v[0].kind, v[0].start, v[0].end), (InstrKind::If, 0, 7));
    assert_eq!(v[0].consequence.as_ref().unwrap().len(), 0);
    let alt: Vec<(u32, u32)> = v[0].alternative.as_ref().unwrap().iter().map(|i| (i.opcode, i.start)).collect();
    assert_eq!(alt, vec![(0x01, 3), (0x01, 5), (0x0b, 6)]);
}
