//! Instruction streams: decoding each operator of a function body or
//! constant expression into a `RustInstr`, and rebuilding the nesting of
//! `block`/`loop`/`if` from the flat operator stream with a frame stack.

use vstd::prelude::*;
use crate::error::{ErrorV, ParseError};
use crate::nesting::{
    ends_within, law_tree_ends_within, law_tree_opcodes_at_start, law_tree_ranges_nonempty,
    opcodes_at_start, ranges_ok_list, tokens_at_position, tokens_end_within, tokens_ordered,
};
use crate::model::{InstrKind, InstrV, RustInstr, instr_view, instrs_view, opt_str_view};
use crate::text::{func_label, func_name_of};
use crate::valtype::{BlockTy, block_type_name, block_type_to_string};
use crate::wasm::{
    operator_offsets, operator_text, read_f32, read_f64, read_u8, read_val_type, read_var_i32, read_var_i64,
    read_var_u32, read_var_u64, f32_at, f64_at, wasm_operator_offsets, wasm_operator_text, u8_at, wasm_val_type,
    var_i32_at, var_i64_at, var_u32_at, var_u64_at,
};

verus! {

// ---------------------------------------------------------------------
// Errors

/// The error of the decoder with message `m`.
pub open spec fn decode_error(m: Seq<char>) -> ErrorV {
    ErrorV::Decode(m)
}

/// `e` is the error `f` describes.
pub open spec fn err_is(e: ParseError, f: ErrorV) -> bool {
    e@ == f
}

/// The error for a message of `wasmparser`.
pub fn decode_err(m: String) -> (r: ParseError)
    ensures
        r == ParseError::Decode(m),
        r@ == decode_error(m@),
{
    ParseError::Decode(m)
}

/// `r` is the instruction, or the error, that `s` describes.
pub open spec fn instr_result(r: Result<RustInstr, ParseError>, s: Result<InstrV, ErrorV>) -> bool {
    match s {
        Ok(v) => r matches Ok(i) && i@ == v,
        Err(f) => r matches Err(e) && err_is(e, f),
    }
}

/// `r` is the instruction list, or the error, that `s` describes.
pub open spec fn instrs_result(r: Result<Vec<RustInstr>, ParseError>, s: Result<Seq<InstrV>, ErrorV>) -> bool {
    match s {
        Ok(v) => r matches Ok(l) && instrs_view(l) == v,
        Err(f) => r matches Err(e) && err_is(e, f),
    }
}

// ---------------------------------------------------------------------
// Single instructions

/// An instruction of the given kind, opcode and byte range with no other
/// field set.
pub open spec fn base_v(kind: InstrKind, opcode: u32, start: u32, end: u32) -> InstrV {
    InstrV {
        kind, opcode, sub_opcode: None, start, end, index: None, func_index: None,
        func_name: None, type_index: None, offset: None, target: None, targets: None,
        i32_value: None, i64_low: None, i64_high: None, f32_bits: None, f64_bits: None,
        result_type: None, label: None, body: None, consequence: None, alternative: None,
    }
}

/// `n` LEB128 `u32`s one after the other from `q`, and the position after them.
pub open spec fn var_u32s(bytes: Seq<u8>, q: int, lim: int, n: nat) -> Result<(Seq<u32>, int), Seq<char>>
    decreases n,
{
    if n == 0 {
        Ok((seq![], q))
    } else {
        match var_u32s(bytes, q, lim, (n - 1) as nat) {
            Ok((s, r)) => match var_u32_at(bytes, r, lim) {
                Ok((t, r2)) => Ok((s.push(t), r2)),
                Err(m) => Err(m),
            },
            Err(m) => Err(m),
        }
    }
}

/// The targets of a `br_table` whose immediates start at `q`: the listed
/// targets followed by the default target.
pub open spec fn br_table_targets(bytes: Seq<u8>, q: int, lim: int) -> Result<Seq<u32>, Seq<char>> {
    match var_u32_at(bytes, q, lim) {
        Ok((n, r)) => match var_u32s(bytes, r, lim, n as nat) {
            Ok((s, r2)) => match var_u32_at(bytes, r2, lim) {
                Ok((d, _)) => Ok(s.push(d)),
                Err(m) => Err(m),
            },
            Err(m) => Err(m),
        },
        Err(m) => Err(m),
    }
}

/// The offset of a memory immediate starting at `q`: alignment and flags,
/// a memory or type index when flag bit 6 or 5 says one follows, then the
/// offset.
pub open spec fn memarg_offset(bytes: Seq<u8>, q: int, lim: int) -> Result<u64, Seq<char>> {
    match var_u32_at(bytes, q, lim) {
        Ok((flags, r)) => {
            let r2 = if flags & 0x60 != 0 {
                match var_u32_at(bytes, r, lim) {
                    Ok((_, r3)) => Ok(r3),
                    Err(m) => Err(m),
                }
            } else {
                Ok(r)
            };
            match r2 {
                Ok(r3) => match var_u64_at(bytes, r3, lim) {
                    Ok((off, _)) => Ok(off),
                    Err(m) => Err(m),
                },
                Err(m) => Err(m),
            }
        },
        Err(m) => Err(m),
    }
}

/// The opcodes of the instructions without immediates that the data model
/// records ("plain"): `unreachable`, `nop`, `end`, `return`, `drop`,
/// `select`, `memory.size`, `memory.grow`, the numeric instructions
/// `0x45..=0xc4`, and `ref.null`, `ref.is_null`, `ref.func`.
pub open spec fn is_plain_opcode(op: u8) -> bool {
    op == 0x00 || op == 0x01 || op == 0x0b || op == 0x0f || op == 0x1a || op == 0x1b
        || op == 0x3f || op == 0x40 || (0x45 <= op <= 0xc4) || op == 0xd0 || op == 0xd1 || op == 0xd2
}

/// The instruction that the operator at `p` (opcode `bytes[p]`, immediates
/// up to `lim`) becomes, with byte range `start..end`; or why it cannot be
/// represented.
pub open spec fn leaf_spec(bytes: Seq<u8>, p: int, lim: int, start: u32, end: u32) -> Result<InstrV, ErrorV> {
    let op = bytes[p];
    if is_plain_opcode(op) {
        Ok(base_v(InstrKind::Plain, op as u32, start, end))
    } else if op == 0x0c || op == 0x0d {
        match var_u32_at(bytes, p + 1, lim) {
            Ok((t, _)) => Ok(InstrV { target: Some(t), ..base_v(InstrKind::Branch, op as u32, start, end) }),
            Err(m) => Err(decode_error(m)),
        }
    } else if op == 0x0e {
        match br_table_targets(bytes, p + 1, lim) {
            Ok(ts) => Ok(InstrV { targets: Some(ts), ..base_v(InstrKind::BranchTable, 0x0e, start, end) }),
            Err(m) => Err(decode_error(m)),
        }
    } else if op == 0x10 {
        match var_u32_at(bytes, p + 1, lim) {
            Ok((f, _)) => Ok(InstrV {
                func_index: Some(f),
                func_name: Some(func_label(f)),
                ..base_v(InstrKind::Call, 0x10, start, end)
            }),
            Err(m) => Err(decode_error(m)),
        }
    } else if op == 0x11 {
        match var_u32_at(bytes, p + 1, lim) {
            Ok((t, _)) => Ok(InstrV { type_index: Some(t), ..base_v(InstrKind::CallIndirect, 0x11, start, end) }),
            Err(m) => Err(decode_error(m)),
        }
    } else if 0x20 <= op <= 0x26 {
        match var_u32_at(bytes, p + 1, lim) {
            Ok((i, _)) => Ok(InstrV { index: Some(i), ..base_v(InstrKind::Indexed, op as u32, start, end) }),
            Err(m) => Err(decode_error(m)),
        }
    } else if 0x28 <= op <= 0x3e {
        match memarg_offset(bytes, p + 1, lim) {
            Ok(o) => Ok(InstrV { offset: Some(o as u32), ..base_v(InstrKind::MemOp, op as u32, start, end) }),
            Err(m) => Err(decode_error(m)),
        }
    } else if op == 0x41 {
        match var_i32_at(bytes, p + 1, lim) {
            Ok((v, _)) => Ok(InstrV { i32_value: Some(v), ..base_v(InstrKind::ConstI32, 0x41, start, end) }),
            Err(m) => Err(decode_error(m)),
        }
    } else if op == 0x42 {
        match var_i64_at(bytes, p + 1, lim) {
            Ok((v, _)) => Ok(InstrV {
                i64_low: Some(((v as u64) & 0xFFFF_FFFF) as u32 as i32),
                i64_high: Some(((v as u64) >> 32u64) as u32 as i32),
                ..base_v(InstrKind::ConstI64, 0x42, start, end)
            }),
            Err(m) => Err(decode_error(m)),
        }
    } else if op == 0x43 {
        match f32_at(bytes, p + 1, lim) {
            Ok((v, _)) => Ok(InstrV { f32_bits: Some(v), ..base_v(InstrKind::ConstF32, 0x43, start, end) }),
            Err(m) => Err(decode_error(m)),
        }
    } else if op == 0x44 {
        match f64_at(bytes, p + 1, lim) {
            Ok((v, _)) => Ok(InstrV { f64_bits: Some(v), ..base_v(InstrKind::ConstF64, 0x44, start, end) }),
            Err(m) => Err(decode_error(m)),
        }
    } else if op == 0xfc {
        match var_u32_at(bytes, p + 1, lim) {
            Ok((sub, q)) => if sub == 0x0a || sub == 0x0b || sub == 0x0c || sub == 0x0e {
                Ok(InstrV { sub_opcode: Some(sub), ..base_v(InstrKind::Plain, 0xfc, start, end) })
            } else if sub == 0x0f || sub == 0x10 || sub == 0x11 {
                match var_u32_at(bytes, q, lim) {
                    Ok((t, _)) => Ok(InstrV {
                        sub_opcode: Some(sub),
                        index: Some(t),
                        ..base_v(InstrKind::Indexed, 0xfc, start, end)
                    }),
                    Err(m) => Err(decode_error(m)),
                }
            } else {
                match wasm_operator_text(bytes, p, lim) {
                    Ok(text) => Err(ErrorV::UnsupportedInstruction { opcode: 0xfc, sub_opcode: Some(sub), text }),
                    Err(m) => Err(decode_error(m)),
                }
            },
            Err(m) => Err(decode_error(m)),
        }
    } else if 0x02 <= op <= 0x04 {
        match wasm_operator_text(bytes, p, lim) {
            Ok(text) => Err(ErrorV::StructuralOperator { opcode: op as u32, text }),
            Err(m) => Err(decode_error(m)),
        }
    } else if op == 0x05 {
        Err(ErrorV::StructuralOperator { opcode: 0x05, text: "Else"@ })
    } else {
        match wasm_operator_text(bytes, p, lim) {
            Ok(text) => Err(ErrorV::UnsupportedInstruction { opcode: op as u32, sub_opcode: None, text }),
            Err(m) => Err(decode_error(m)),
        }
    }
}

/// An instruction of the given kind, opcode and byte range with no other
/// field set.
pub fn base(kind: InstrKind, opcode: u32, start: u32, end: u32) -> (r: RustInstr)
    ensures
        r@ == base_v(kind, opcode, start, end),
{
    RustInstr {
        kind, opcode, sub_opcode: None, start, end, index: None, func_index: None,
        func_name: None, type_index: None, offset: None, target: None, targets: None,
        i32_value: None, i64_low: None, i64_high: None, f32_bits: None, f64_bits: None,
        result_type: None, label: None, body: None, consequence: None, alternative: None,
    }
}

/// `base` with an index.
pub fn indexed(kind: InstrKind, opcode: u32, index: u32, start: u32, end: u32) -> (r: RustInstr)
    ensures
        r@ == (InstrV { index: Some(index), ..base_v(kind, opcode, start, end) }),
{
    RustInstr { index: Some(index), ..base(kind, opcode, start, end) }
}

/// Reads `n` LEB128 `u32`s from `q`.
pub fn read_var_u32s(bytes: &[u8], q: usize, lim: usize, n: u32) -> (r: Result<(Vec<u32>, usize), ParseError>)
    requires
        q <= lim <= bytes.len(),
    ensures
        match var_u32s(bytes@, q as int, lim as int, n as nat) {
            Ok((s, e)) => r matches Ok((v, e2)) && v@ == s && e2 == e && e2 <= lim,
            Err(m) => r matches Err(err) && err_is(err, decode_error(m)),
        },
{
    let mut v: Vec<u32> = Vec::new();
    let mut pos = q;
    let mut i: u32 = 0;
    while i < n
        invariant
            i <= n,
            q <= pos <= lim <= bytes.len(),
            var_u32s(bytes@, q as int, lim as int, i as nat) == Ok::<(Seq<u32>, int), Seq<char>>((v@, pos as int)),
        decreases n - i,
    {
        let (t, next) = match read_var_u32(bytes, pos, lim) {
            Ok(x) => x,
            Err(e) => {
                proof { lemma_var_u32s_err_stays(bytes@, q as int, lim as int, (i + 1) as nat, n as nat); }
                return Err(decode_err(e));
            },
        };
        v.push(t);
        pos = next;
        i = i + 1;
    }
    Ok((v, pos))
}

/// Once reading `k` values fails, reading more fails the same way.
proof fn lemma_var_u32s_err_stays(bytes: Seq<u8>, q: int, lim: int, k: nat, n: nat)
    requires
        k <= n,
        var_u32s(bytes, q, lim, k) is Err,
    ensures
        var_u32s(bytes, q, lim, n) == var_u32s(bytes, q, lim, k),
    decreases n - k,
{
    if k < n {
        lemma_var_u32s_err_stays(bytes, q, lim, k + 1, n);
    }
}

/// The offset of the memory immediate at `q`.
fn read_memarg_offset(bytes: &[u8], q: usize, lim: usize) -> (r: Result<u64, ParseError>)
    requires
        q <= lim <= bytes.len(),
    ensures
        match memarg_offset(bytes@, q as int, lim as int) {
            Ok(o) => r == Ok::<u64, ParseError>(o),
            Err(m) => r matches Err(e) && err_is(e, decode_error(m)),
        },
{
    let (flags, r) = match read_var_u32(bytes, q, lim) {
        Ok(x) => x,
        Err(e) => return Err(decode_err(e)),
    };
    let r2 = if flags & 0x60 != 0 {
        match read_var_u32(bytes, r, lim) {
            Ok((_, r3)) => r3,
            Err(e) => return Err(decode_err(e)),
        }
    } else {
        r
    };
    match read_var_u64(bytes, r2, lim) {
        Ok((off, _)) => Ok(off),
        Err(e) => Err(decode_err(e)),
    }
}

/// Builds the instruction for any non-structural operator: the one at
/// `pos`, whose immediates end by `lim`, with byte range `start..end`.
/// The opcode and secondary opcode recorded are the raw binary ones.
pub fn leaf_instr(bytes: &[u8], pos: usize, lim: usize, start: u32, end: u32) -> (r: Result<RustInstr, ParseError>)
    requires
        pos < lim <= bytes.len(),
    ensures
        instr_result(r, leaf_spec(bytes@, pos as int, lim as int, start, end)),
{
    let op = bytes[pos];
    if op == 0x00 || op == 0x01 || op == 0x0b || op == 0x0f || op == 0x1a || op == 0x1b
        || op == 0x3f || op == 0x40 || (0x45 <= op && op <= 0xc4) || op == 0xd0 || op == 0xd1 || op == 0xd2 {
        Ok(base(InstrKind::Plain, op as u32, start, end))
    } else if op == 0x0c || op == 0x0d {
        match read_var_u32(bytes, pos + 1, lim) {
            Ok((t, _)) => Ok(RustInstr { target: Some(t), ..base(InstrKind::Branch, op as u32, start, end) }),
            Err(e) => Err(decode_err(e)),
        }
    } else if op == 0x0e {
        let (n, q) = match read_var_u32(bytes, pos + 1, lim) {
            Ok(x) => x,
            Err(e) => return Err(decode_err(e)),
        };
        let (mut all, q2) = read_var_u32s(bytes, q, lim, n)?;
        match read_var_u32(bytes, q2, lim) {
            Ok((d, _)) => {
                all.push(d);
                Ok(RustInstr { targets: Some(all), ..base(InstrKind::BranchTable, 0x0e, start, end) })
            },
            Err(e) => Err(decode_err(e)),
        }
    } else if op == 0x10 {
        match read_var_u32(bytes, pos + 1, lim) {
            Ok((f, _)) => Ok(RustInstr {
                func_index: Some(f),
                func_name: Some(func_name_of(f)),
                ..base(InstrKind::Call, 0x10, start, end)
            }),
            Err(e) => Err(decode_err(e)),
        }
    } else if op == 0x11 {
        match read_var_u32(bytes, pos + 1, lim) {
            Ok((t, _)) => Ok(RustInstr { type_index: Some(t), ..base(InstrKind::CallIndirect, 0x11, start, end) }),
            Err(e) => Err(decode_err(e)),
        }
    } else if 0x20 <= op && op <= 0x26 {
        match read_var_u32(bytes, pos + 1, lim) {
            Ok((i, _)) => Ok(indexed(InstrKind::Indexed, op as u32, i, start, end)),
            Err(e) => Err(decode_err(e)),
        }
    } else if 0x28 <= op && op <= 0x3e {
        let o = read_memarg_offset(bytes, pos + 1, lim)?;
        Ok(RustInstr { offset: Some(#[verifier::truncate] (o as u32)), ..base(InstrKind::MemOp, op as u32, start, end) })
    } else if op == 0x41 {
        match read_var_i32(bytes, pos + 1, lim) {
            Ok((v, _)) => Ok(RustInstr { i32_value: Some(v), ..base(InstrKind::ConstI32, 0x41, start, end) }),
            Err(e) => Err(decode_err(e)),
        }
    } else if op == 0x42 {
        match read_var_i64(bytes, pos + 1, lim) {
            Ok((v, _)) => {
                let bits = #[verifier::truncate] (v as u64);
                Ok(RustInstr {
                    i64_low: Some((bits & 0xFFFF_FFFF) as u32 as i32),
                    i64_high: Some((bits >> 32u64) as u32 as i32),
                    ..base(InstrKind::ConstI64, 0x42, start, end)
                })
            },
            Err(e) => Err(decode_err(e)),
        }
    } else if op == 0x43 {
        match read_f32(bytes, pos + 1, lim) {
            Ok((v, _)) => Ok(RustInstr { f32_bits: Some(v), ..base(InstrKind::ConstF32, 0x43, start, end) }),
            Err(e) => Err(decode_err(e)),
        }
    } else if op == 0x44 {
        match read_f64(bytes, pos + 1, lim) {
            Ok((v, _)) => Ok(RustInstr { f64_bits: Some(v), ..base(InstrKind::ConstF64, 0x44, start, end) }),
            Err(e) => Err(decode_err(e)),
        }
    } else if op == 0xfc {
        match read_var_u32(bytes, pos + 1, lim) {
            Ok((sub, q)) => if sub == 0x0a || sub == 0x0b || sub == 0x0c || sub == 0x0e {
                Ok(RustInstr { sub_opcode: Some(sub), ..base(InstrKind::Plain, 0xfc, start, end) })
            } else if sub == 0x0f || sub == 0x10 || sub == 0x11 {
                match read_var_u32(bytes, q, lim) {
                    Ok((t, _)) => Ok(RustInstr { sub_opcode: Some(sub), ..indexed(InstrKind::Indexed, 0xfc, t, start, end) }),
                    Err(e) => Err(decode_err(e)),
                }
            } else {
                match operator_text(bytes, pos, lim) {
                    Ok(text) => Err(ParseError::UnsupportedInstruction { opcode: 0xfc, sub_opcode: Some(sub), text }),
                    Err(e) => Err(decode_err(e)),
                }
            },
            Err(e) => Err(decode_err(e)),
        }
    } else if 0x02 <= op && op <= 0x04 {
        match operator_text(bytes, pos, lim) {
            Ok(text) => Err(ParseError::StructuralOperator { opcode: op as u32, text }),
            Err(e) => Err(decode_err(e)),
        }
    } else if op == 0x05 {
        proof { reveal_strlit("Else"); }
        Err(ParseError::StructuralOperator { opcode: 0x05, text: String::from_str("Else") })
    } else {
        match operator_text(bytes, pos, lim) {
            Ok(text) => Err(ParseError::UnsupportedInstruction { opcode: op as u32, sub_opcode: None, text }),
            Err(e) => Err(decode_err(e)),
        }
    }
}

// ---------------------------------------------------------------------
// Tokens

/// One operator of a stream: its position in the binary and the byte range
/// the data model records for it (the start of the operator to the start
/// of the next one).
#[derive(Clone, Copy, Debug)]
pub struct Token {
    pub pos: usize,
    pub start: u32,
    pub end: u32,
}

/// The block type whose encoding starts at `q`: `0x40` for none, a value
/// type when the first byte (as `wasmparser` reads it) is a one-byte
/// negative LEB128 number, and a type index otherwise.
pub open spec fn block_type_at(bytes: Seq<u8>, q: int, lim: int) -> Result<BlockTy, Seq<char>> {
    match u8_at(bytes, q, lim) {
        Ok((b, _)) => if b & 0x80 == 0 && b & 0x40 != 0 {
            if b == 0x40 {
                Ok(BlockTy::Empty)
            } else {
                match wasm_val_type(bytes, q, lim) {
                    Ok((vt, _)) => Ok(BlockTy::Value(vt)),
                    Err(m) => Err(m),
                }
            }
        } else {
            Ok(BlockTy::FuncType)
        },
        Err(m) => Err(m),
    }
}

/// Reads the block type at `q`.
fn read_block_type(bytes: &[u8], q: usize, lim: usize) -> (r: Result<BlockTy, ParseError>)
    requires
        q <= lim <= bytes.len(),
    ensures
        match block_type_at(bytes@, q as int, lim as int) {
            Ok(bt) => r == Ok::<BlockTy, ParseError>(bt),
            Err(m) => r matches Err(e) && err_is(e, decode_error(m)),
        },
{
    let b = match read_u8(bytes, q, lim) {
        Ok((b, _)) => b,
        Err(e) => return Err(decode_err(e)),
    };
    if b & 0x80 == 0 && b & 0x40 != 0 {
        if b == 0x40 {
            Ok(BlockTy::Empty)
        } else {
            match read_val_type(bytes, q, lim) {
                Ok((vt, _)) => Ok(BlockTy::Value(vt)),
                Err(e) => Err(decode_err(e)),
            }
        }
    } else {
        Ok(BlockTy::FuncType)
    }
}

/// A decoded operator, as the frame stack consumes it.
pub enum TokV {
    Block { start: u32 },
    Loop { start: u32, result_type: Option<Seq<char>> },
    If { start: u32, result_type: Option<Seq<char>> },
    Else,
    End { start: u32, end: u32 },
    Leaf(InstrV),
}

/// A decoded operator.
pub enum Tok {
    Block { start: u32 },
    Loop { start: u32, result_type: Option<String> },
    If { start: u32, result_type: Option<String> },
    Else,
    End { start: u32, end: u32 },
    Leaf(RustInstr),
}

pub open spec fn tok_view(t: Tok) -> TokV {
    match t {
        Tok::Block { start } => TokV::Block { start },
        Tok::Loop { start, result_type } => TokV::Loop { start, result_type: opt_str_view(result_type) },
        Tok::If { start, result_type } => TokV::If { start, result_type: opt_str_view(result_type) },
        Tok::Else => TokV::Else,
        Tok::End { start, end } => TokV::End { start, end },
        Tok::Leaf(i) => TokV::Leaf(i@),
    }
}

/// What the operator of token `t` is: `block`, `loop` and `if` with the
/// result type of their block type (`block` does not look at it), `else`,
/// `end`, or an instruction.
pub open spec fn token_spec(bytes: Seq<u8>, t: Token, lim: int) -> Result<TokV, ErrorV> {
    let p = t.pos as int;
    let op = bytes[p];
    if op == 0x02 {
        Ok(TokV::Block { start: t.start })
    } else if op == 0x03 || op == 0x04 {
        match block_type_at(bytes, p + 1, lim) {
            Ok(bt) => match block_type_name(bt) {
                Ok(rt) => if op == 0x03 {
                    Ok(TokV::Loop { start: t.start, result_type: rt })
                } else {
                    Ok(TokV::If { start: t.start, result_type: rt })
                },
                Err(e) => Err(e),
            },
            Err(m) => Err(decode_error(m)),
        }
    } else if op == 0x05 {
        Ok(TokV::Else)
    } else if op == 0x0b {
        Ok(TokV::End { start: t.start, end: t.end })
    } else {
        match leaf_spec(bytes, p, lim, t.start, t.end) {
            Ok(i) => Ok(TokV::Leaf(i)),
            Err(e) => Err(e),
        }
    }
}

/// `r` is the token, or the error, that `s` describes.
pub open spec fn tok_result(r: Result<Tok, ParseError>, s: Result<TokV, ErrorV>) -> bool {
    match s {
        Ok(v) => r matches Ok(t) && tok_view(t) == v,
        Err(f) => r matches Err(e) && err_is(e, f),
    }
}

/// Decodes the operator of token `t`.
pub fn decode_token(bytes: &[u8], t: Token, lim: usize) -> (r: Result<Tok, ParseError>)
    requires
        t.pos < lim <= bytes.len(),
    ensures
        tok_result(r, token_spec(bytes@, t, lim as int)),
{
    let op = bytes[t.pos];
    if op == 0x02 {
        Ok(Tok::Block { start: t.start })
    } else if op == 0x03 || op == 0x04 {
        let bt = read_block_type(bytes, t.pos + 1, lim)?;
        let rt = block_type_to_string(bt)?;
        if op == 0x03 {
            Ok(Tok::Loop { start: t.start, result_type: rt })
        } else {
            Ok(Tok::If { start: t.start, result_type: rt })
        }
    } else if op == 0x05 {
        Ok(Tok::Else)
    } else if op == 0x0b {
        Ok(Tok::End { start: t.start, end: t.end })
    } else {
        let i = leaf_instr(bytes, t.pos, lim, t.start, t.end)?;
        Ok(Tok::Leaf(i))
    }
}

// ---------------------------------------------------------------------
// The frame stack

/// An open `block`/`loop`/`if` (or the outermost list) with the
/// instructions read into it so far.
pub enum FrameV {
    Top(Seq<InstrV>),
    Block { start: u32, body: Seq<InstrV> },
    Loop { start: u32, result_type: Option<Seq<char>>, body: Seq<InstrV> },
    If { start: u32, result_type: Option<Seq<char>>, consequence: Seq<InstrV>, alternative: Seq<InstrV>, in_alt: bool },
}

/// An open `block`/`loop`/`if`, or the outermost instruction list.
pub enum Frame {
    Top(Vec<RustInstr>),
    Block { start: u32, body: Vec<RustInstr> },
    Loop { start: u32, result_type: Option<String>, body: Vec<RustInstr> },
    If { start: u32, result_type: Option<String>, consequence: Vec<RustInstr>, alternative: Vec<RustInstr>, in_alt: bool },
}

pub open spec fn frame_view(f: Frame) -> FrameV {
    match f {
        Frame::Top(v) => FrameV::Top(instrs_view(v)),
        Frame::Block { start, body } => FrameV::Block { start, body: instrs_view(body) },
        Frame::Loop { start, result_type, body } => FrameV::Loop {
            start, result_type: opt_str_view(result_type), body: instrs_view(body),
        },
        Frame::If { start, result_type, consequence, alternative, in_alt } => FrameV::If {
            start, result_type: opt_str_view(result_type), consequence: instrs_view(consequence),
            alternative: instrs_view(alternative), in_alt,
        },
    }
}

pub open spec fn frames_view(s: Seq<Frame>) -> Seq<FrameV> {
    Seq::new(s.len(), |k: int| frame_view(s[k]))
}

/// The outermost list at the bottom, open blocks above it.
pub open spec fn wf_frames(st: Seq<FrameV>) -> bool {
    &&& st.len() >= 1
    &&& st[0] is Top
    &&& forall|k: int| 1 <= k < st.len() ==> !(#[trigger] st[k] is Top)
}

/// Adds `x` to the list the frame is filling: the body, or the branch of an
/// `if` after or before its `else`.
pub open spec fn push_active_v(f: FrameV, x: InstrV) -> FrameV {
    match f {
        FrameV::Top(v) => FrameV::Top(v.push(x)),
        FrameV::Block { start, body } => FrameV::Block { start, body: body.push(x) },
        FrameV::Loop { start, result_type, body } => FrameV::Loop { start, result_type, body: body.push(x) },
        FrameV::If { start, result_type, consequence, alternative, in_alt } => if in_alt {
            FrameV::If { start, result_type, consequence, alternative: alternative.push(x), in_alt }
        } else {
            FrameV::If { start, result_type, consequence: consequence.push(x), alternative, in_alt }
        },
    }
}

/// The instruction an open block becomes when its `end` (`end_leaf`, ending
/// at `end`) arrives.
pub open spec fn close_v(f: FrameV, end_leaf: InstrV, end: u32) -> InstrV {
    match f {
        FrameV::Block { start, body } => InstrV {
            body: Some(body.push(end_leaf)),
            ..base_v(InstrKind::Block, 0x02, start, end)
        },
        FrameV::Loop { start, result_type, body } => InstrV {
            result_type,
            body: Some(body.push(end_leaf)),
            ..base_v(InstrKind::Loop, 0x03, start, end)
        },
        FrameV::If { start, result_type, consequence, alternative, in_alt } => InstrV {
            result_type,
            consequence: Some(if in_alt { consequence } else { consequence.push(end_leaf) }),
            alternative: Some(if in_alt { alternative.push(end_leaf) } else { alternative }),
            ..base_v(InstrKind::If, 0x04, start, end)
        },
        FrameV::Top(_) => end_leaf,
    }
}

/// The `end` instruction itself.
pub open spec fn end_leaf_v(start: u32, end: u32) -> InstrV {
    base_v(InstrKind::Plain, 0x0b, start, end)
}

/// One step of the frame stack on a decoded operator.
pub open spec fn step_v(st: Seq<FrameV>, t: TokV) -> Result<Seq<FrameV>, ErrorV> {
    let last = st.len() - 1;
    match t {
        TokV::Block { start } => Ok(st.push(FrameV::Block { start, body: seq![] })),
        TokV::Loop { start, result_type } => Ok(st.push(FrameV::Loop { start, result_type, body: seq![] })),
        TokV::If { start, result_type } => Ok(st.push(FrameV::If {
            start, result_type, consequence: seq![], alternative: seq![], in_alt: false,
        })),
        TokV::Else => match st[last] {
            FrameV::If { start, result_type, consequence, alternative, in_alt } => Ok(st.update(last, FrameV::If {
                start, result_type, consequence, alternative, in_alt: true,
            })),
            _ => Err(ErrorV::ElseOutsideIf),
        },
        TokV::End { start, end } => {
            let leaf = end_leaf_v(start, end);
            if st.len() == 1 {
                Ok(st.update(0, push_active_v(st[0], leaf)))
            } else {
                let rest = st.drop_last();
                let i = close_v(st[last], leaf, end);
                Ok(rest.update(last - 1, push_active_v(rest[last - 1], i)))
            }
        },
        TokV::Leaf(i) => Ok(st.update(last, push_active_v(st[last], i))),
    }
}

/// The frame stack after the tokens `toks`, or the first error.
pub open spec fn run_v(bytes: Seq<u8>, toks: Seq<Token>, lim: int) -> Result<Seq<FrameV>, ErrorV>
    decreases toks.len(),
{
    if toks.len() == 0 {
        Ok(seq![FrameV::Top(seq![])])
    } else {
        match run_v(bytes, toks.drop_last(), lim) {
            Ok(st) => match token_spec(bytes, toks.last(), lim) {
                Ok(t) => step_v(st, t),
                Err(e) => Err(e),
            },
            Err(e) => Err(e),
        }
    }
}

/// The instruction tree of the tokens `toks`: the outermost list once every
/// `block`/`loop`/`if` is closed, or why there is none.
pub open spec fn tree_spec(bytes: Seq<u8>, toks: Seq<Token>, lim: int) -> Result<Seq<InstrV>, ErrorV> {
    match run_v(bytes, toks, lim) {
        Ok(st) => if st.len() == 1 && st[0] is Top {
            Ok(st[0]->Top_0)
        } else {
            Err(ErrorV::Unbalanced)
        },
        Err(e) => Err(e),
    }
}

proof fn lemma_instrs_view_push(v1: Seq<RustInstr>, v2: Seq<RustInstr>, a: Vec<RustInstr>, b: Vec<RustInstr>, x: RustInstr)
    requires
        a@ == v1,
        b@ == v2,
        v2 == v1.push(x),
    ensures
        instrs_view(b) == instrs_view(a).push(instr_view(x)),
{
    assert(instrs_view(b) =~= instrs_view(a).push(instr_view(x)));
}

proof fn lemma_instrs_view_empty(a: Vec<RustInstr>)
    requires
        a@.len() == 0,
    ensures
        instrs_view(a) == Seq::<InstrV>::empty(),
{
    assert(instrs_view(a) =~= Seq::<InstrV>::empty());
}

/// Appends `x` to a vector, tracking the view.
fn push_instr(v: &mut Vec<RustInstr>, x: RustInstr)
    ensures
        instrs_view(*final(v)) == instrs_view(*old(v)).push(x@),
{
    let ghost a = *v;
    let ghost xv = x;
    v.push(x);
    proof { lemma_instrs_view_push(a@, v@, a, *v, xv); }
}

/// A new, empty instruction list.
fn new_list() -> (r: Vec<RustInstr>)
    ensures
        instrs_view(r) == Seq::<InstrV>::empty(),
{
    let v: Vec<RustInstr> = Vec::new();
    proof { lemma_instrs_view_empty(v); }
    v
}

impl Frame {
    /// Adds `x` to the list the frame is filling.
    pub fn push_active(self, x: RustInstr) -> (r: Frame)
        ensures
            frame_view(r) == push_active_v(frame_view(self), x@),
    {
        match self {
            Frame::Top(mut v) => {
                push_instr(&mut v, x);
                Frame::Top(v)
            },
            Frame::Block { start, mut body } => {
                push_instr(&mut body, x);
                Frame::Block { start, body }
            },
            Frame::Loop { start, result_type, mut body } => {
                push_instr(&mut body, x);
                Frame::Loop { start, result_type, body }
            },
            Frame::If { start, result_type, mut consequence, mut alternative, in_alt } => {
                if in_alt {
                    push_instr(&mut alternative, x);
                } else {
                    push_instr(&mut consequence, x);
                }
                Frame::If { start, result_type, consequence, alternative, in_alt }
            },
        }
    }
}

/// The instruction an open block becomes when its `end` arrives.
fn close_frame(f: Frame, end_leaf: RustInstr, end: u32) -> (r: RustInstr)
    requires
        !(f is Top),
    ensures
        r@ == close_v(frame_view(f), end_leaf@, end),
{
    match f {
        Frame::Block { start, mut body } => {
            push_instr(&mut body, end_leaf);
            RustInstr { body: Some(body), ..base(InstrKind::Block, 0x02, start, end) }
        },
        Frame::Loop { start, result_type, mut body } => {
            push_instr(&mut body, end_leaf);
            RustInstr { result_type, body: Some(body), ..base(InstrKind::Loop, 0x03, start, end) }
        },
        Frame::If { start, result_type, mut consequence, mut alternative, in_alt } => {
            if in_alt {
                push_instr(&mut alternative, end_leaf);
            } else {
                push_instr(&mut consequence, end_leaf);
            }
            RustInstr {
                result_type,
                consequence: Some(consequence),
                alternative: Some(alternative),
                ..base(InstrKind::If, 0x04, start, end)
            }
        },
        Frame::Top(_) => end_leaf,
    }
}

proof fn lemma_frames_view_push(s: Seq<Frame>, f: Frame)
    ensures
        frames_view(s.push(f)) == frames_view(s).push(frame_view(f)),
{
    assert(frames_view(s.push(f)) =~= frames_view(s).push(frame_view(f)));
}

proof fn lemma_frames_view_drop_last(s: Seq<Frame>)
    requires
        s.len() >= 1,
    ensures
        frames_view(s.drop_last()) == frames_view(s).drop_last(),
{
    assert(frames_view(s.drop_last()) =~= frames_view(s).drop_last());
}

/// Adds `x` to the list the top frame is filling.
fn push_into_last(stack: &mut Vec<Frame>, x: RustInstr)
    requires
        old(stack)@.len() >= 1,
    ensures
        frames_view(final(stack)@) == frames_view(old(stack)@).update(
            old(stack)@.len() - 1,
            push_active_v(frames_view(old(stack)@)[old(stack)@.len() - 1], x@),
        ),
{
    let ghost s0 = stack@;
    let f = stack.pop().unwrap();
    let g = f.push_active(x);
    proof {
        lemma_frames_view_drop_last(s0);
    }
    let ghost s1 = stack@;
    stack.push(g);
    proof {
        lemma_frames_view_push(s1, g);
        assert(frames_view(stack@) =~= frames_view(s0).update(s0.len() - 1, push_active_v(frames_view(s0)[s0.len() - 1], x@)));
    }
}

/// A failed prefix fails the whole run with the same error.
proof fn lemma_run_err_stays(bytes: Seq<u8>, toks: Seq<Token>, lim: int, i: int, j: int)
    requires
        0 <= i <= j <= toks.len(),
        run_v(bytes, toks.take(i), lim) is Err,
    ensures
        run_v(bytes, toks.take(j), lim) == run_v(bytes, toks.take(i), lim),
    decreases j - i,
{
    if i < j {
        assert(toks.take(i + 1).drop_last() =~= toks.take(i));
        lemma_run_err_stays(bytes, toks, lim, i + 1, j);
    }
}

/// Rebuilds the nesting of `block`/`loop`/`if` from a flat operator stream
/// with an explicit frame stack: each structural operator opens a frame,
/// `else` switches an `if` frame to its alternative, `end` closes the top
/// frame into an instruction of the frame below (or, at the outermost
/// level, is itself an instruction of the outermost list).
pub fn build_tree(bytes: &[u8], toks: &Vec<Token>, lim: usize) -> (r: Result<Vec<RustInstr>, ParseError>)
    requires
        lim <= bytes.len(),
        forall|k: int| 0 <= k < toks@.len() ==> (#[trigger] toks@[k]).pos < lim,
    ensures
        instrs_result(r, tree_spec(bytes@, toks@, lim as int)),
{
    let mut stack: Vec<Frame> = Vec::new();
    let top = Frame::Top(new_list());
    stack.push(top);
    proof {
        assert(frames_view(stack@) =~= seq![FrameV::Top(seq![])]);
        assert(toks@.take(0) =~= Seq::<Token>::empty());
    }
    let n = toks.len();
    let mut i: usize = 0;
    while i < n
        invariant
            0 <= i <= n == toks@.len(),
            lim <= bytes.len(),
            forall|k: int| 0 <= k < toks@.len() ==> (#[trigger] toks@[k]).pos < lim,
            run_v(bytes@, toks@.take(i as int), lim as int) == Ok::<Seq<FrameV>, ErrorV>(frames_view(stack@)),
            wf_frames(frames_view(stack@)),
        decreases n - i,
    {
        let t = toks[i];
        proof {
            assert(toks@.take(i + 1).drop_last() =~= toks@.take(i as int));
            assert(toks@.take(i + 1).last() == t);
        }
        let ghost st = frames_view(stack@);
        let tok = match decode_token(bytes, t, lim) {
            Ok(x) => x,
            Err(e) => {
                proof {
                    lemma_run_err_stays(bytes@, toks@, lim as int, i + 1, n as int);
                    assert(toks@.take(n as int) =~= toks@);
                }
                return Err(e);
            },
        };
        let ghost tv = tok_view(tok);
        let ghost s0 = stack@;
        match tok {
            Tok::Block { start } => {
                let body = new_list();
                let f = Frame::Block { start, body };
                stack.push(f);
                proof { lemma_frames_view_push(s0, f); }
            },
            Tok::Loop { start, result_type } => {
                let body = new_list();
                let f = Frame::Loop { start, result_type, body };
                stack.push(f);
                proof { lemma_frames_view_push(s0, f); }
            },
            Tok::If { start, result_type } => {
                let consequence = new_list();
                let alternative = new_list();
                let f = Frame::If { start, result_type, consequence, alternative, in_alt: false };
                stack.push(f);
                proof { lemma_frames_view_push(s0, f); }
            },
            Tok::Else => {
                let f = stack.pop().unwrap();
                proof { lemma_frames_view_drop_last(s0); }
                let ghost s1 = stack@;
                match f {
                    Frame::If { start, result_type, consequence, alternative, in_alt: _ } => {
                        let g = Frame::If { start, result_type, consequence, alternative, in_alt: true };
                        stack.push(g);
                        proof {
                            lemma_frames_view_push(s1, g);
                            assert(frames_view(stack@) =~= st.update(st.len() - 1, frame_view(g)));
                        }
                    },
                    _ => {
                        proof {
                            lemma_run_err_stays(bytes@, toks@, lim as int, i + 1, n as int);
                            assert(toks@.take(n as int) =~= toks@);
                        }
                        return Err(ParseError::ElseOutsideIf);
                    },
                }
            },
            Tok::End { start, end } => {
                let leaf = base(InstrKind::Plain, 0x0b, start, end);
                if stack.len() == 1 {
                    push_into_last(&mut stack, leaf);
                } else {
                    let f = stack.pop().unwrap();
                    proof { lemma_frames_view_drop_last(s0); }
                    let instr = close_frame(f, leaf, end);
                    push_into_last(&mut stack, instr);
                }
            },
            Tok::Leaf(x) => {
                push_into_last(&mut stack, x);
            },
        }
        proof {
            assert(step_v(st, tv) == Ok::<Seq<FrameV>, ErrorV>(frames_view(stack@)));
        }
        i = i + 1;
    }
    proof { assert(toks@.take(n as int) =~= toks@); }
    if stack.len() == 1 {
        let ghost s0 = stack@;
        match stack.pop().unwrap() {
            Frame::Top(v) => Ok(v),
            _ => Err(ParseError::Unbalanced),
        }
    } else {
        Err(ParseError::Unbalanced)
    }
}

// ---------------------------------------------------------------------
// Whole streams

/// `x + 1`, wrapping to zero after `u32::MAX`.
pub open spec fn next_u32(x: u32) -> u32 {
    if x == u32::MAX { 0 } else { (x + 1) as u32 }
}

/// The tokens of the operators at offsets `offs`: each operator's byte
/// range runs to the start of the next one; the last operator of a stream
/// is its one-byte `end`.
pub open spec fn tokens_of(offs: Seq<u64>) -> Seq<Token> {
    Seq::new(offs.len(), |k: int| Token {
        pos: offs[k] as usize,
        start: offs[k] as u32,
        end: if k + 1 < offs.len() { offs[k + 1] as u32 } else { next_u32(offs[k] as u32) },
    })
}

/// Reads the operators of the stream `bytes[start..end]` and pairs each
/// with its byte range.
pub fn collect_tokens(bytes: &[u8], start: usize, end: usize) -> (r: Result<Vec<Token>, ParseError>)
    requires
        start <= end <= bytes.len(),
    ensures
        match wasm_operator_offsets(bytes@, start as int, end as int) {
            Ok(offs) => r matches Ok(v) && v@ == tokens_of(offs),
            Err(m) => r matches Err(e) && err_is(e, decode_error(m)),
        },
        r matches Ok(v) ==> forall|k: int| 0 <= k < v@.len() ==> start <= (#[trigger] v@[k]).pos < end,
        end <= u32::MAX ==> (r matches Ok(v) ==> tokens_ordered(v@) && tokens_at_position(bytes@, v@)
            && tokens_end_within(v@, end as int)),
{
    let offs = match operator_offsets(bytes, start, end) {
        Ok(o) => o,
        Err(e) => return Err(decode_err(e)),
    };
    let n = offs.len();
    let mut tokens: Vec<Token> = Vec::new();
    let mut i: usize = 0;
    while i < n
        invariant
            0 <= i <= n == offs@.len(),
            start <= end <= bytes.len(),
            forall|k: int| 0 <= k < offs@.len() ==> start <= #[trigger] offs@[k] < end,
            tokens@ == tokens_of(offs@).take(i as int),
        decreases n - i,
    {
        let s = offs[i] as u32;
        let e = if i + 1 < n {
            offs[i + 1] as u32
        } else if s == u32::MAX {
            0
        } else {
            s + 1
        };
        tokens.push(Token { pos: offs[i] as usize, start: s, end: e });
        i = i + 1;
        proof { assert(tokens@ =~= tokens_of(offs@).take(i as int)); }
    }
    proof {
        assert(tokens_of(offs@).take(n as int) =~= tokens_of(offs@));
        if end <= u32::MAX {
            let t = tokens_of(offs@);
            assert forall|j: int, k: int| 0 <= j < k < t.len() implies t[j].start < t[k].start by {
                assert(offs@[j] < offs@[k]);
            }
            assert forall|k: int| 0 <= k < t.len() implies (#[trigger] t[k]).start < t[k].end by {
                if k + 1 < t.len() {
                    assert(offs@[k] < offs@[k + 1]);
                }
            }
            assert forall|k: int| 0 <= k < t.len() implies (#[trigger] t[k]).pos == t[k].start && t[k].pos < bytes@.len() by {
                assert(offs@[k] < end);
            }
            assert forall|k: int| 0 <= k < t.len() implies (#[trigger] t[k]).end <= end by {
                assert(offs@[k] < end);
                if k + 1 < t.len() {
                    assert(offs@[k + 1] < end);
                }
            }
        }
    }
    Ok(tokens)
}

/// The instruction tree of the stream `bytes[start..end]`, or why there is
/// none.
pub open spec fn stream_spec(bytes: Seq<u8>, start: int, end: int) -> Result<Seq<InstrV>, ErrorV> {
    match wasm_operator_offsets(bytes, start, end) {
        Ok(offs) => tree_spec(bytes, tokens_of(offs), end),
        Err(m) => Err(decode_error(m)),
    }
}

/// Parses a flat operator stream (a function body, a global initializer or
/// an element-segment offset expression, `bytes[start..end]`) into the
/// nested instruction tree.
pub fn parse_instr_stream(bytes: &[u8], start: usize, end: usize) -> (r: Result<Vec<RustInstr>, ParseError>)
    requires
        start <= end <= bytes.len(),
    ensures
        instrs_result(r, stream_spec(bytes@, start as int, end as int)),
        end <= u32::MAX ==> (r matches Ok(v) ==> ranges_ok_list(instrs_view(v)) && opcodes_at_start(bytes@, instrs_view(v))
            && ends_within(instrs_view(v), bytes@.len() as int)),
{
    let tokens = collect_tokens(bytes, start, end)?;
    let r = build_tree(bytes, &tokens, end);
    proof {
        if r is Ok && end <= u32::MAX {
            law_tree_ranges_nonempty(bytes@, tokens@, end as int);
            law_tree_opcodes_at_start(bytes@, tokens@, end as int);
            assert(tokens_end_within(tokens@, bytes@.len() as int));
            law_tree_ends_within(bytes@, tokens@, end as int, bytes@.len() as int);
        }
    }
    r
}

} // verus!
