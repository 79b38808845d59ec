//! Variant values crossing the packed-function call boundary.
//!
//! A kernel receives its arguments as pairs of a 64-bit payload and a type
//! code, and hands results back the same way. The verified core models the
//! payload as its 64-bit bit pattern; the raw union, pointer payloads and
//! floating-point widening live with the C-ABI wiring outside the core.

use vstd::prelude::*;
use vstd::string::StringExecFns;

use crate::errors::Error;

verus! {

/// Type code of integer argument payloads.
pub const ARG_CODE_INT: i64 = 0;

/// Type code a returned `i8` travels under.
pub const RET_CODE_I8: i64 = 3;

/// Type code a returned string travels under.
pub const RET_CODE_STRING: i64 = 11;

/// One argument of a packed-function call: a 64-bit payload and the type
/// code that says how to read it.
#[derive(Clone, Copy, Debug, PartialEq, Eq, Structural)]
pub struct TVMArgValue {
    pub value: i64,
    pub type_code: i64,
}

impl TVMArgValue {
    /// An integer argument.
    pub fn from_int(v: i64) -> (r: TVMArgValue)
        ensures
            r.value == v,
            r.type_code == ARG_CODE_INT,
    {
        TVMArgValue { value: v, type_code: ARG_CODE_INT }
    }

    /// An unsigned integer argument; the payload keeps the bit pattern.
    pub fn from_uint(v: u64) -> (r: TVMArgValue)
        ensures
            r.value == v as i64,
            r.type_code == ARG_CODE_INT,
    {
        TVMArgValue { value: v as i64, type_code: ARG_CODE_INT }
    }

    /// A boolean argument, widened to 1 or 0.
    pub fn from_bool(v: bool) -> (r: TVMArgValue)
        ensures
            r.value == (if v {
                1int
            } else {
                0int
            }),
            r.type_code == ARG_CODE_INT,
    {
        TVMArgValue { value: if v { 1 } else { 0 }, type_code: ARG_CODE_INT }
    }
}

/// What a packed function hands back: an inline 64-bit value or a boxed
/// string, with the type code that says which.
pub struct TVMRetValue {
    pub prim_value: u64,
    pub box_str: Option<String>,
    pub type_code: i64,
}

impl Default for TVMRetValue {
    /// The empty return value: zero payload, nothing boxed, type code 0.
    fn default() -> (r: TVMRetValue)
        ensures
            r.prim_value == 0,
            r.box_str is None,
            r.type_code == 0,
    {
        TVMRetValue { prim_value: 0, box_str: None, type_code: 0 }
    }
}

impl TVMRetValue {
    /// A returned `i8`, stored inline.
    pub fn from_i8(v: i8) -> (r: TVMRetValue)
        ensures
            r.prim_value == v as u64,
            r.box_str is None,
            r.type_code == RET_CODE_I8,
    {
        TVMRetValue { prim_value: v as u64, box_str: None, type_code: RET_CODE_I8 }
    }

    /// A returned string, boxed.
    pub fn from_string(s: String) -> (r: TVMRetValue)
        ensures
            r.prim_value == 0,
            r.box_str matches Some(b) && b@ == s@,
            r.type_code == RET_CODE_STRING,
    {
        TVMRetValue { prim_value: 0, box_str: Some(s), type_code: RET_CODE_STRING }
    }

    /// Reads the value back as an `i8`. Fails, naming the expected type
    /// and the actual code, exactly when the value travelled under
    /// another type code.
    pub fn try_into_i8(self) -> (r: Result<i8, Error>)
        ensures
            match r {
                Ok(v) => self.type_code == RET_CODE_I8 && v == self.prim_value as i8,
                Err(e) => self.type_code != RET_CODE_I8 && (e matches Error::TryFromTVMRetValue(
                    t,
                    c,
                ) && t@ == "i8"@ && c == self.type_code),
            },
    {
        if self.type_code == RET_CODE_I8 {
            Ok(self.prim_value as i8)
        } else {
            Err(Error::TryFromTVMRetValue(String::from_str("i8"), self.type_code))
        }
    }

    /// Reads the value back as a string. Fails, naming the expected type
    /// and the actual code, exactly when no string is boxed.
    pub fn try_into_string(self) -> (r: Result<String, Error>)
        ensures
            match r {
                Ok(v) => self.box_str matches Some(b) && v@ == b@,
                Err(e) => self.box_str is None && (e matches Error::TryFromTVMRetValue(t, c) && t@
                    == "String"@ && c == self.type_code),
            },
    {
        match self.box_str {
            Some(s) => Ok(s),
            None => Err(Error::TryFromTVMRetValue(String::from_str("String"), self.type_code)),
        }
    }
}

} // verus!
