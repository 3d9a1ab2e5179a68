//! Conversions from `Value` into plain Rust values: a casting conversion
//! through the lattice, and an exact extraction that only accepts the
//! matching kinds.

use vstd::prelude::*;
use crate::cast::cast_model;
use crate::value::{DateTime, Duration, Typ, Value, ValueModel};

verus! {

/// The requested conversion is not possible for this value.
#[derive(Debug, Clone, Copy, PartialEq, Eq, Structural)]
pub struct CantCast;

/// A type a `Value` converts into: `from_value` casts by any reasonable
/// means, `get` extracts only from the equivalent kinds.
pub trait FromValue: Sized {
    /// What `from_value` returns, where it succeeds.
    spec fn of_model(m: ValueModel) -> Option<Self>;

    /// What `get` returns, where it succeeds.
    spec fn get_model(m: ValueModel) -> Option<Self>;

    /// Attempt to cast `v` to this type using any reasonable means.
    fn from_value(v: Value) -> (r: Result<Self, CantCast>)
        requires
            v.wf(),
        ensures
            r matches Ok(x) ==> Self::of_model(v@) == Some(x),
            r is Err ==> Self::of_model(v@) is None,
    ;

    /// Extract this type from `v` where `v` is of an equivalent kind.
    fn get(v: Value) -> (r: Option<Self>)
        requires
            v.wf(),
        ensures
            r == Self::get_model(v@),
    ;
}

impl Value {
    /// Cast this value to any type that can be made from a value.
    pub fn cast_to<T: FromValue>(self) -> (r: Result<T, CantCast>)
        requires
            self.wf(),
        ensures
            r matches Ok(x) ==> T::of_model(self@) == Some(x),
            r is Err ==> T::of_model(self@) is None,
    {
        T::from_value(self)
    }

    /// Extract a plain value of an equivalent kind.
    pub fn get_as<T: FromValue>(self) -> (r: Option<T>)
        requires
            self.wf(),
        ensures
            r == T::get_model(self@),
    {
        T::get(self)
    }
}

/// The numeric payload of an integer kind, truncated into 64 bits with
/// its sign flag; what the exact extractors truncate from.
pub open spec fn int_payload(m: ValueModel) -> Option<u64> {
    match m {
        ValueModel::U32(v) => Some(v as u64),
        ValueModel::V32(v) => Some(v as u64),
        ValueModel::I32(v) => Some(v as u64),
        ValueModel::Z32(v) => Some(v as u64),
        ValueModel::U64(v) => Some(v),
        ValueModel::V64(v) => Some(v),
        ValueModel::I64(v) => Some(v as u64),
        ValueModel::Z64(v) => Some(v as u64),
        _ => None,
    }
}

fn int_payload_exec(v: &Value) -> (r: Option<u64>)
    ensures
        r == int_payload(v@),
{
    match v {
        Value::U32(x) => Some(*x as u64),
        Value::V32(x) => Some(*x as u64),
        Value::I32(x) => Some(*x as u64),
        Value::Z32(x) => Some(*x as u64),
        Value::U64(x) => Some(*x),
        Value::V64(x) => Some(*x),
        Value::I64(x) => Some(*x as u64),
        Value::Z64(x) => Some(*x as u64),
        _ => None,
    }
}

impl FromValue for u32 {
    open spec fn of_model(m: ValueModel) -> Option<u32> {
        match cast_model(m, Typ::U32) {
            Some(ValueModel::U32(v)) => Some(v),
            _ => None,
        }
    }

    open spec fn get_model(m: ValueModel) -> Option<u32> {
        match int_payload(m) {
            Some(v) => Some(v as u32),
            None => None,
        }
    }

    fn from_value(v: Value) -> (r: Result<u32, CantCast>) {
        match v.cast(Typ::U32) {
            Some(Value::U32(x)) => Ok(x),
            _ => Err(CantCast),
        }
    }

    fn get(v: Value) -> (r: Option<u32>) {
        match int_payload_exec(&v) {
            Some(x) => Some(x as u32),
            None => None,
        }
    }
}

impl FromValue for i32 {
    open spec fn of_model(m: ValueModel) -> Option<i32> {
        match cast_model(m, Typ::I32) {
            Some(ValueModel::I32(v)) => Some(v),
            _ => None,
        }
    }

    open spec fn get_model(m: ValueModel) -> Option<i32> {
        match int_payload(m) {
            Some(v) => Some(v as i32),
            None => None,
        }
    }

    fn from_value(v: Value) -> (r: Result<i32, CantCast>) {
        match v.cast(Typ::I32) {
            Some(Value::I32(x)) => Ok(x),
            _ => Err(CantCast),
        }
    }

    fn get(v: Value) -> (r: Option<i32>) {
        match int_payload_exec(&v) {
            Some(x) => Some(x as i32),
            None => None,
        }
    }
}

impl FromValue for u64 {
    open spec fn of_model(m: ValueModel) -> Option<u64> {
        match cast_model(m, Typ::U64) {
            Some(ValueModel::U64(v)) => Some(v),
            _ => None,
        }
    }

    open spec fn get_model(m: ValueModel) -> Option<u64> {
        int_payload(m)
    }

    fn from_value(v: Value) -> (r: Result<u64, CantCast>) {
        match v.cast(Typ::U64) {
            Some(Value::U64(x)) => Ok(x),
            _ => Err(CantCast),
        }
    }

    fn get(v: Value) -> (r: Option<u64>) {
        int_payload_exec(&v)
    }
}

impl FromValue for i64 {
    open spec fn of_model(m: ValueModel) -> Option<i64> {
        match cast_model(m, Typ::I64) {
            Some(ValueModel::I64(v)) => Some(v),
            _ => None,
        }
    }

    open spec fn get_model(m: ValueModel) -> Option<i64> {
        match int_payload(m) {
            Some(v) => Some(v as i64),
            None => None,
        }
    }

    fn from_value(v: Value) -> (r: Result<i64, CantCast>) {
        match v.cast(Typ::I64) {
            Some(Value::I64(x)) => Ok(x),
            _ => Err(CantCast),
        }
    }

    fn get(v: Value) -> (r: Option<i64>) {
        match int_payload_exec(&v) {
            Some(x) => Some(x as i64),
            None => None,
        }
    }
}

impl FromValue for usize {
    open spec fn of_model(m: ValueModel) -> Option<usize> {
        match cast_model(m, Typ::U64) {
            Some(ValueModel::U64(v)) => Some(v as usize),
            _ => None,
        }
    }

    open spec fn get_model(m: ValueModel) -> Option<usize> {
        match int_payload(m) {
            Some(v) => Some(v as usize),
            None => None,
        }
    }

    fn from_value(v: Value) -> (r: Result<usize, CantCast>) {
        match v.cast(Typ::U64) {
            Some(Value::U64(x)) => Ok(x as usize),
            _ => Err(CantCast),
        }
    }

    fn get(v: Value) -> (r: Option<usize>) {
        match int_payload_exec(&v) {
            Some(x) => Some(x as usize),
            None => None,
        }
    }
}

impl FromValue for u8 {
    open spec fn of_model(m: ValueModel) -> Option<u8> {
        match <u32 as FromValue>::of_model(m) {
            Some(v) => if v <= u8::MAX {
                Some(v as u8)
            } else {
                None
            },
            None => None,
        }
    }

    open spec fn get_model(m: ValueModel) -> Option<u8> {
        match int_payload(m) {
            Some(v) => Some(v as u8),
            None => None,
        }
    }

    fn from_value(v: Value) -> (r: Result<u8, CantCast>) {
        match v.cast(Typ::U32) {
            Some(Value::U32(x)) => if x <= u8::MAX as u32 {
                Ok(x as u8)
            } else {
                Err(CantCast)
            },
            _ => Err(CantCast),
        }
    }

    fn get(v: Value) -> (r: Option<u8>) {
        match int_payload_exec(&v) {
            Some(x) => Some(x as u8),
            None => None,
        }
    }
}

impl FromValue for i8 {
    open spec fn of_model(m: ValueModel) -> Option<i8> {
        match <i32 as FromValue>::of_model(m) {
            Some(v) => if i8::MIN <= v <= i8::MAX {
                Some(v as i8)
            } else {
                None
            },
            None => None,
        }
    }

    open spec fn get_model(m: ValueModel) -> Option<i8> {
        match int_payload(m) {
            Some(v) => Some(v as i8),
            None => None,
        }
    }

    fn from_value(v: Value) -> (r: Result<i8, CantCast>) {
        match v.cast(Typ::I32) {
            Some(Value::I32(x)) => if i8::MIN as i32 <= x && x <= i8::MAX as i32 {
                Ok(x as i8)
            } else {
                Err(CantCast)
            },
            _ => Err(CantCast),
        }
    }

    fn get(v: Value) -> (r: Option<i8>) {
        match int_payload_exec(&v) {
            Some(x) => Some(x as i8),
            None => None,
        }
    }
}

impl FromValue for u16 {
    open spec fn of_model(m: ValueModel) -> Option<u16> {
        match <u32 as FromValue>::of_model(m) {
            Some(v) => if v <= u16::MAX {
                Some(v as u16)
            } else {
                None
            },
            None => None,
        }
    }

    open spec fn get_model(m: ValueModel) -> Option<u16> {
        match int_payload(m) {
            Some(v) => Some(v as u16),
            None => None,
        }
    }

    fn from_value(v: Value) -> (r: Result<u16, CantCast>) {
        match v.cast(Typ::U32) {
            Some(Value::U32(x)) => if x <= u16::MAX as u32 {
                Ok(x as u16)
            } else {
                Err(CantCast)
            },
            _ => Err(CantCast),
        }
    }

    fn get(v: Value) -> (r: Option<u16>) {
        match int_payload_exec(&v) {
            Some(x) => Some(x as u16),
            None => None,
        }
    }
}

impl FromValue for i16 {
    open spec fn of_model(m: ValueModel) -> Option<i16> {
        match <i32 as FromValue>::of_model(m) {
            Some(v) => if i16::MIN <= v <= i16::MAX {
                Some(v as i16)
            } else {
                None
            },
            None => None,
        }
    }

    open spec fn get_model(m: ValueModel) -> Option<i16> {
        match int_payload(m) {
            Some(v) => Some(v as i16),
            None => None,
        }
    }

    fn from_value(v: Value) -> (r: Result<i16, CantCast>) {
        match v.cast(Typ::I32) {
            Some(Value::I32(x)) => if i16::MIN as i32 <= x && x <= i16::MAX as i32 {
                Ok(x as i16)
            } else {
                Err(CantCast)
            },
            _ => Err(CantCast),
        }
    }

    fn get(v: Value) -> (r: Option<i16>) {
        match int_payload_exec(&v) {
            Some(x) => Some(x as i16),
            None => None,
        }
    }
}

impl FromValue for bool {
    open spec fn of_model(m: ValueModel) -> Option<bool> {
        match cast_model(m, Typ::Bool) {
            Some(ValueModel::True) => Some(true),
            Some(ValueModel::False) => Some(false),
            _ => None,
        }
    }

    open spec fn get_model(m: ValueModel) -> Option<bool> {
        match m {
            ValueModel::True => Some(true),
            ValueModel::False => Some(false),
            _ => None,
        }
    }

    fn from_value(v: Value) -> (r: Result<bool, CantCast>) {
        match v.cast(Typ::Bool) {
            Some(Value::True) => Ok(true),
            Some(Value::False) => Ok(false),
            _ => Err(CantCast),
        }
    }

    fn get(v: Value) -> (r: Option<bool>) {
        match v {
            Value::True => Some(true),
            Value::False => Some(false),
            _ => None,
        }
    }
}

impl FromValue for DateTime {
    open spec fn of_model(m: ValueModel) -> Option<DateTime> {
        match cast_model(m, Typ::DateTime) {
            Some(ValueModel::DateTime(d)) => Some(d),
            _ => None,
        }
    }

    open spec fn get_model(m: ValueModel) -> Option<DateTime> {
        match m {
            ValueModel::DateTime(d) => Some(d),
            _ => None,
        }
    }

    fn from_value(v: Value) -> (r: Result<DateTime, CantCast>) {
        match v.cast(Typ::DateTime) {
            Some(Value::DateTime(d)) => Ok(d),
            _ => Err(CantCast),
        }
    }

    fn get(v: Value) -> (r: Option<DateTime>) {
        match v {
            Value::DateTime(d) => Some(d),
            _ => None,
        }
    }
}

impl FromValue for Duration {
    open spec fn of_model(m: ValueModel) -> Option<Duration> {
        match cast_model(m, Typ::Duration) {
            Some(ValueModel::Duration(d)) => Some(d),
            _ => None,
        }
    }

    open spec fn get_model(m: ValueModel) -> Option<Duration> {
        match m {
            ValueModel::Duration(d) => Some(d),
            _ => None,
        }
    }

    fn from_value(v: Value) -> (r: Result<Duration, CantCast>) {
        match v.cast(Typ::Duration) {
            Some(Value::Duration(d)) => Ok(d),
            _ => Err(CantCast),
        }
    }

    fn get(v: Value) -> (r: Option<Duration>) {
        match v {
            Value::Duration(d) => Some(d),
            _ => None,
        }
    }
}

} // verus!
