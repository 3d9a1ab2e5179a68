//! The typed value model: the `Value` sum, its type tags (`Typ`), and the
//! point-in-time (`DateTime`) and span (`Duration`) payloads.
//!
//! Floating point payloads (`F32`, `F64`) are carried as their IEEE-754 bit
//! patterns, which keeps the codec exact; no float arithmetic happens here.

use vstd::prelude::*;

verus! {

/// A UTC instant: seconds since the UNIX epoch plus a sub-second
/// nanosecond part.
#[derive(Debug, Clone, Copy, PartialEq, Eq, Structural)]
pub struct DateTime {
    pub secs: i64,
    pub nanos: u32,
}

/// A non-negative time span with nanosecond resolution.
#[derive(Debug, Clone, Copy, PartialEq, Eq, Structural)]
pub struct Duration {
    pub secs: u64,
    pub nanos: u32,
}

pub const NANOS_PER_SEC: u32 = 1_000_000_000;

impl DateTime {
    /// The sub-second part never reaches a full second.
    pub open spec fn wf(self) -> bool {
        self.nanos < NANOS_PER_SEC
    }
}

impl Duration {
    /// The sub-second part never reaches a full second.
    pub open spec fn wf(self) -> bool {
        self.nanos < NANOS_PER_SEC
    }
}

/// The type tag of a `Value`, used for casting and parsing. `Null` has no
/// corresponding tag.
#[derive(Debug, Clone, Copy, PartialEq, Eq, Structural)]
pub enum Typ {
    U32,
    V32,
    I32,
    Z32,
    U64,
    V64,
    I64,
    Z64,
    F32,
    F64,
    DateTime,
    Duration,
    Bool,
    String,
    Bytes,
    Result,
}

/// A tagged value. The wire tag of each variant is a single byte whose top
/// two bits stay clear, so at most 64 base variants may ever exist.
#[derive(Debug, Clone, PartialEq)]
pub enum Value {
    /// full 4 byte u32
    U32(u32),
    /// LEB128 varint, 1 - 5 bytes depending on value
    V32(u32),
    /// full 4 byte i32
    I32(i32),
    /// LEB128 varint zigzag encoded, 1 - 5 bytes depending on abs(value)
    Z32(i32),
    /// full 8 byte u64
    U64(u64),
    /// LEB128 varint, 1 - 10 bytes depending on value
    V64(u64),
    /// full 8 byte i64
    I64(i64),
    /// LEB128 varint zigzag encoded, 1 - 10 bytes depending on abs(value)
    Z64(i64),
    /// 4 byte ieee754 single precision float, held as its bit pattern
    F32(u32),
    /// 8 byte ieee754 double precision float, held as its bit pattern
    F64(u64),
    /// UTC timestamp
    DateTime(DateTime),
    /// non-negative time span
    Duration(Duration),
    /// unicode string
    String(String),
    /// byte array
    Bytes(Vec<u8>),
    /// boolean true
    True,
    /// boolean false
    False,
    /// empty value
    Null,
    /// an explicit ok
    Okay,
    /// an explicit error
    Error(String),
}

/// The mathematical shape of a `Value`: strings and byte buffers become
/// sequences, everything else keeps its payload.
pub enum ValueModel {
    U32(u32),
    V32(u32),
    I32(i32),
    Z32(i32),
    U64(u64),
    V64(u64),
    I64(i64),
    Z64(i64),
    F32(u32),
    F64(u64),
    DateTime(DateTime),
    Duration(Duration),
    String(Seq<char>),
    Bytes(Seq<u8>),
    True,
    False,
    Null,
    Okay,
    Error(Seq<char>),
}

impl View for Value {
    type V = ValueModel;

    open spec fn view(&self) -> ValueModel {
        match self {
            Value::U32(v) => ValueModel::U32(*v),
            Value::V32(v) => ValueModel::V32(*v),
            Value::I32(v) => ValueModel::I32(*v),
            Value::Z32(v) => ValueModel::Z32(*v),
            Value::U64(v) => ValueModel::U64(*v),
            Value::V64(v) => ValueModel::V64(*v),
            Value::I64(v) => ValueModel::I64(*v),
            Value::Z64(v) => ValueModel::Z64(*v),
            Value::F32(v) => ValueModel::F32(*v),
            Value::F64(v) => ValueModel::F64(*v),
            Value::DateTime(d) => ValueModel::DateTime(*d),
            Value::Duration(d) => ValueModel::Duration(*d),
            Value::String(s) => ValueModel::String(s@),
            Value::Bytes(b) => ValueModel::Bytes(b@),
            Value::True => ValueModel::True,
            Value::False => ValueModel::False,
            Value::Null => ValueModel::Null,
            Value::Okay => ValueModel::Okay,
            Value::Error(s) => ValueModel::Error(s@),
        }
    }
}

impl ValueModel {
    /// Both payloads of a value are well formed where they carry time.
    pub open spec fn wf(self) -> bool {
        match self {
            ValueModel::DateTime(d) => d.wf(),
            ValueModel::Duration(d) => d.wf(),
            _ => true,
        }
    }
}

impl Value {
    /// Both payloads of a value are well formed where they carry time.
    pub open spec fn wf(self) -> bool {
        self@.wf()
    }

    /// Check well-formedness at run time: a value straight off the wire
    /// may carry an oversized nanosecond part, which casting and
    /// arithmetic refuse.
    pub fn is_wf(&self) -> (r: bool)
        ensures
            r == self.wf(),
    {
        match self {
            Value::DateTime(d) => d.nanos < NANOS_PER_SEC,
            Value::Duration(d) => d.nanos < NANOS_PER_SEC,
            _ => true,
        }
    }

    /// Return true if the value is some kind of number, otherwise false.
    pub fn is_number(&self) -> (r: bool)
        ensures
            r == self@.is_number_model(),
    {
        match self {
            Value::U32(_)
            | Value::V32(_)
            | Value::I32(_)
            | Value::Z32(_)
            | Value::U64(_)
            | Value::V64(_)
            | Value::I64(_)
            | Value::Z64(_)
            | Value::F32(_)
            | Value::F64(_) => true,
            _ => false,
        }
    }
}

impl ValueModel {
    pub open spec fn is_number_model(self) -> bool {
        match self {
            ValueModel::U32(_)
            | ValueModel::V32(_)
            | ValueModel::I32(_)
            | ValueModel::Z32(_)
            | ValueModel::U64(_)
            | ValueModel::V64(_)
            | ValueModel::I64(_)
            | ValueModel::Z64(_)
            | ValueModel::F32(_)
            | ValueModel::F64(_) => true,
            _ => false,
        }
    }
}

impl Typ {
    /// The tag of a value: every variant has one except `Null`, and `True`,
    /// `False` share `Bool` while `Ok`, `Error` share `Result`.
    pub open spec fn of_model(v: ValueModel) -> Option<Typ> {
        match v {
            ValueModel::U32(_) => Some(Typ::U32),
            ValueModel::V32(_) => Some(Typ::V32),
            ValueModel::I32(_) => Some(Typ::I32),
            ValueModel::Z32(_) => Some(Typ::Z32),
            ValueModel::U64(_) => Some(Typ::U64),
            ValueModel::V64(_) => Some(Typ::V64),
            ValueModel::I64(_) => Some(Typ::I64),
            ValueModel::Z64(_) => Some(Typ::Z64),
            ValueModel::F32(_) => Some(Typ::F32),
            ValueModel::F64(_) => Some(Typ::F64),
            ValueModel::DateTime(_) => Some(Typ::DateTime),
            ValueModel::Duration(_) => Some(Typ::Duration),
            ValueModel::String(_) => Some(Typ::String),
            ValueModel::Bytes(_) => Some(Typ::Bytes),
            ValueModel::True | ValueModel::False => Some(Typ::Bool),
            ValueModel::Null => None,
            ValueModel::Okay | ValueModel::Error(_) => Some(Typ::Result),
        }
    }

    pub fn get(v: &Value) -> (r: Option<Typ>)
        ensures
            r == Typ::of_model(v@),
    {
        match v {
            Value::U32(_) => Some(Typ::U32),
            Value::V32(_) => Some(Typ::V32),
            Value::I32(_) => Some(Typ::I32),
            Value::Z32(_) => Some(Typ::Z32),
            Value::U64(_) => Some(Typ::U64),
            Value::V64(_) => Some(Typ::V64),
            Value::I64(_) => Some(Typ::I64),
            Value::Z64(_) => Some(Typ::Z64),
            Value::F32(_) => Some(Typ::F32),
            Value::F64(_) => Some(Typ::F64),
            Value::DateTime(_) => Some(Typ::DateTime),
            Value::Duration(_) => Some(Typ::Duration),
            Value::String(_) => Some(Typ::String),
            Value::Bytes(_) => Some(Typ::Bytes),
            Value::True | Value::False => Some(Typ::Bool),
            Value::Null => None,
            Value::Okay | Value::Error(_) => Some(Typ::Result),
        }
    }

    /// The canonical lower-case name of a tag.
    pub fn name(&self) -> (r: &'static str)
        ensures
            r@ == Typ::name_model(*self),
    {
        match self {
            Typ::U32 => "u32",
            Typ::V32 => "v32",
            Typ::I32 => "i32",
            Typ::Z32 => "z32",
            Typ::U64 => "u64",
            Typ::V64 => "v64",
            Typ::I64 => "i64",
            Typ::Z64 => "z64",
            Typ::F32 => "f32",
            Typ::F64 => "f64",
            Typ::DateTime => "datetime",
            Typ::Duration => "duration",
            Typ::Bool => "bool",
            Typ::String => "string",
            Typ::Bytes => "bytes",
            Typ::Result => "result",
        }
    }

    pub open spec fn name_model(t: Typ) -> Seq<char> {
        match t {
            Typ::U32 => "u32"@,
            Typ::V32 => "v32"@,
            Typ::I32 => "i32"@,
            Typ::Z32 => "z32"@,
            Typ::U64 => "u64"@,
            Typ::V64 => "v64"@,
            Typ::I64 => "i64"@,
            Typ::Z64 => "z64"@,
            Typ::F32 => "f32"@,
            Typ::F64 => "f64"@,
            Typ::DateTime => "datetime"@,
            Typ::Duration => "duration"@,
            Typ::Bool => "bool"@,
            Typ::String => "string"@,
            Typ::Bytes => "bytes"@,
            Typ::Result => "result"@,
        }
    }

    /// Every tag, in wire order.
    pub fn all() -> (r: Vec<Typ>)
        ensures
            r@ == seq![
                Typ::U32, Typ::V32, Typ::I32, Typ::Z32,
                Typ::U64, Typ::V64, Typ::I64, Typ::Z64,
                Typ::F32, Typ::F64, Typ::DateTime, Typ::Duration,
                Typ::Bool, Typ::String, Typ::Bytes, Typ::Result,
            ],
    {
        let mut r: Vec<Typ> = Vec::new();
        r.push(Typ::U32);
        r.push(Typ::V32);
        r.push(Typ::I32);
        r.push(Typ::Z32);
        r.push(Typ::U64);
        r.push(Typ::V64);
        r.push(Typ::I64);
        r.push(Typ::Z64);
        r.push(Typ::F32);
        r.push(Typ::F64);
        r.push(Typ::DateTime);
        r.push(Typ::Duration);
        r.push(Typ::Bool);
        r.push(Typ::String);
        r.push(Typ::Bytes);
        r.push(Typ::Result);
        proof {
            assert(r@ =~= seq![
                Typ::U32, Typ::V32, Typ::I32, Typ::Z32,
                Typ::U64, Typ::V64, Typ::I64, Typ::Z64,
                Typ::F32, Typ::F64, Typ::DateTime, Typ::Duration,
                Typ::Bool, Typ::String, Typ::Bytes, Typ::Result,
            ]);
        }
        r
    }
}

} // verus!
