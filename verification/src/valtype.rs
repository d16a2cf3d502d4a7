//! Value types and block types, and their names in the data model.

use vstd::prelude::*;
use crate::error::{ErrorV, ParseError};

verus! {

/// A WebAssembly value type as the data model distinguishes it. A reference
/// type is described by whether it is the abstract function reference type,
/// whether it is the abstract external reference type, and its text.
#[derive(Debug)]
pub enum ValTy {
    I32,
    I64,
    F32,
    F64,
    V128,
    /// A reference type: whether it is `funcref`, whether it is
    /// `externref`, and its `Debug` text as `wasmparser` prints it.
    Ref(bool, bool, String),
}

impl ValTy {
    /// A copy of the value type.
    pub fn duplicate(&self) -> (r: ValTy)
        ensures
            r == *self,
    {
        match self {
            ValTy::I32 => ValTy::I32,
            ValTy::I64 => ValTy::I64,
            ValTy::F32 => ValTy::F32,
            ValTy::F64 => ValTy::F64,
            ValTy::V128 => ValTy::V128,
            ValTy::Ref(func, extern_ref, text) => ValTy::Ref(*func, *extern_ref, text.clone()),
        }
    }
}

/// The type annotation of a `block`, `loop` or `if`.
#[derive(Debug)]
pub enum BlockTy {
    /// No result.
    Empty,
    /// A single result of this type.
    Value(ValTy),
    /// A function type given by index (multi-value).
    FuncType,
}

/// The name the data model uses for a value type, or why it has none.
pub open spec fn val_type_name(vt: ValTy) -> Result<Seq<char>, ErrorV> {
    match vt {
        ValTy::I32 => Ok("i32"@),
        ValTy::I64 => Ok("i64"@),
        ValTy::F32 => Ok("f32"@),
        ValTy::F64 => Ok("f64"@),
        ValTy::V128 => Err(ErrorV::SimdType),
        ValTy::Ref(func, extern_ref, text) => if func {
            Ok("anyfunc"@)
        } else if extern_ref {
            Ok("externref"@)
        } else {
            Err(ErrorV::UnsupportedRefType(text@))
        },
    }
}

/// The result type the data model records for a block type, or why it has
/// none.
pub open spec fn block_type_name(bt: BlockTy) -> Result<Option<Seq<char>>, ErrorV> {
    match bt {
        BlockTy::Empty => Ok(None),
        BlockTy::Value(vt) => match val_type_name(vt) {
            Ok(s) => Ok(Some(s)),
            Err(e) => Err(e),
        },
        BlockTy::FuncType => Err(ErrorV::MultiValueBlockType),
    }
}

/// `r` is the string result `s` describes.
pub open spec fn string_result(r: Result<String, ParseError>, s: Result<Seq<char>, ErrorV>) -> bool {
    match s {
        Ok(t) => r matches Ok(x) && x@ == t,
        Err(e) => r matches Err(f) && f@ == e,
    }
}

/// Maps a value type to the string key the data model uses (`i32`, `i64`,
/// `f32`, `f64`, `anyfunc`, `externref`).
pub fn val_type_to_string(vt: ValTy) -> (r: Result<String, ParseError>)
    ensures
        string_result(r, val_type_name(vt)),
{
    match vt {
        ValTy::I32 => {
            proof { reveal_strlit("i32"); }
            Ok(String::from_str("i32"))
        },
        ValTy::I64 => {
            proof { reveal_strlit("i64"); }
            Ok(String::from_str("i64"))
        },
        ValTy::F32 => {
            proof { reveal_strlit("f32"); }
            Ok(String::from_str("f32"))
        },
        ValTy::F64 => {
            proof { reveal_strlit("f64"); }
            Ok(String::from_str("f64"))
        },
        ValTy::V128 => Err(ParseError::SimdType),
        ValTy::Ref(func, extern_ref, text) => {
            if func {
                proof { reveal_strlit("anyfunc"); }
                Ok(String::from_str("anyfunc"))
            } else if extern_ref {
                proof { reveal_strlit("externref"); }
                Ok(String::from_str("externref"))
            } else {
                Err(ParseError::UnsupportedRefType(text))
            }
        },
    }
}

/// Maps a block type to an optional result type name. Only the empty and
/// the single-value forms are supported.
pub fn block_type_to_string(bt: BlockTy) -> (r: Result<Option<String>, ParseError>)
    ensures
        match block_type_name(bt) {
            Ok(None) => r matches Ok(None),
            Ok(Some(s)) => r matches Ok(Some(x)) && x@ == s,
            Err(e) => r matches Err(f) && f@ == e,
        },
{
    match bt {
        BlockTy::Empty => Ok(None),
        BlockTy::Value(vt) => {
            let s = val_type_to_string(vt)?;
            Ok(Some(s))
        },
        BlockTy::FuncType => Err(ParseError::MultiValueBlockType),
    }
}

} // verus!
