//! Primitive values tagged with their type, and how each one is displayed.
use vstd::prelude::*;
use crate::pad::Align;
use crate::radix::{Radix, render_chars, render_spec};
use crate::text::chars_of;

verus! {

/// A primitive value together with the tag of its type.
#[derive(Clone, Debug)]
pub enum Value {
    I8(i8),
    I16(i16),
    I32(i32),
    I64(i64),
    I128(i128),
    Isize(isize),
    U8(u8),
    U16(u16),
    U32(u32),
    U64(u64),
    Usize(usize),
    Bool(bool),
    Char(char),
    Str(String),
}

/// The integer a value holds, if it is of an integer type.
pub open spec fn int_of(v: Value) -> Option<int> {
    match v {
        Value::I8(x) => Some(x as int),
        Value::I16(x) => Some(x as int),
        Value::I32(x) => Some(x as int),
        Value::I64(x) => Some(x as int),
        Value::I128(x) => Some(x as int),
        Value::Isize(x) => Some(x as int),
        Value::U8(x) => Some(x as int),
        Value::U16(x) => Some(x as int),
        Value::U32(x) => Some(x as int),
        Value::U64(x) => Some(x as int),
        Value::Usize(x) => Some(x as int),
        _ => None,
    }
}

/// The name of a value's type, as a program would write it.
pub open spec fn type_label(v: Value) -> Seq<char> {
    match v {
        Value::I8(_) => "i8"@,
        Value::I16(_) => "i16"@,
        Value::I32(_) => "i32"@,
        Value::I64(_) => "i64"@,
        Value::I128(_) => "i128"@,
        Value::Isize(_) => "isize"@,
        Value::U8(_) => "u8"@,
        Value::U16(_) => "u16"@,
        Value::U32(_) => "u32"@,
        Value::U64(_) => "u64"@,
        Value::Usize(_) => "usize"@,
        Value::Bool(_) => "bool"@,
        Value::Char(_) => "char"@,
        Value::Str(_) => "&str"@,
    }
}

/// How a value is shown in radix `r`: integers by their digits, the other
/// values as text, which only the decimal (plain) radix accepts.
pub open spec fn display_spec(v: Value, r: Radix) -> Option<Seq<char>> {
    match int_of(v) {
        Some(n) => Some(render_spec(n, r)),
        None => if r != Radix::Decimal {
            None
        } else {
            match v {
                Value::Bool(b) => Some(if b { "true"@ } else { "false"@ }),
                Value::Char(c) => Some(seq![c]),
                Value::Str(s) => Some(s@),
                _ => None,
            }
        },
    }
}

/// Numbers sit on the right of a padded field, everything else on the left.
pub open spec fn default_align(v: Value) -> Align {
    if int_of(v) is Some { Align::Right } else { Align::Left }
}

/// The name of the type of `v`.
pub fn type_of(v: &Value) -> (r: &'static str)
    ensures
        r@ == type_label(*v),
{
    match v {
        Value::I8(_) => "i8",
        Value::I16(_) => "i16",
        Value::I32(_) => "i32",
        Value::I64(_) => "i64",
        Value::I128(_) => "i128",
        Value::Isize(_) => "isize",
        Value::U8(_) => "u8",
        Value::U16(_) => "u16",
        Value::U32(_) => "u32",
        Value::U64(_) => "u64",
        Value::Usize(_) => "usize",
        Value::Bool(_) => "bool",
        Value::Char(_) => "char",
        Value::Str(_) => "&str",
    }
}

/// The integer `v` holds, if it is of an integer type.
pub fn integer_of(v: &Value) -> (r: Option<i128>)
    ensures
        r matches Some(x) ==> int_of(*v) == Some(x as int),
        r is None ==> int_of(*v) is None,
{
    match v {
        Value::I8(x) => Some(*x as i128),
        Value::I16(x) => Some(*x as i128),
        Value::I32(x) => Some(*x as i128),
        Value::I64(x) => Some(*x as i128),
        Value::I128(x) => Some(*x),
        Value::Isize(x) => Some(*x as i128),
        Value::U8(x) => Some(*x as i128),
        Value::U16(x) => Some(*x as i128),
        Value::U32(x) => Some(*x as i128),
        Value::U64(x) => Some(*x as i128),
        Value::Usize(x) => Some(*x as i128),
        _ => None,
    }
}

/// The characters that show `v` in radix `r`; `None` for a value that is not
/// an integer when `r` is not decimal.
pub fn display_chars(v: &Value, r: Radix) -> (s: Option<Vec<char>>)
    ensures
        s matches Some(t) ==> display_spec(*v, r) == Some(t@),
        s is None ==> display_spec(*v, r) is None,
{
    match integer_of(v) {
        Some(n) => Some(render_chars(n, r)),
        None => {
            if r != Radix::Decimal {
                return None;
            }
            match v {
                Value::Bool(b) => Some(if *b { chars_of("true") } else { chars_of("false") }),
                Value::Char(c) => {
                    let mut s: Vec<char> = Vec::new();
                    s.push(*c);
                    Some(s)
                },
                Value::Str(s) => Some(chars_of(s.as_str())),
                _ => None,
            }
        },
    }
}

} // verus!
