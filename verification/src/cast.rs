//! Parsing values from text, printing values as text, and the total cast
//! lattice between value kinds.
//!
//! The float kinds carry IEEE-754 bit patterns and no float computation
//! happens here: a cast into or out of a float kind is offered only where
//! it needs none (identity, the boolean reading of the bits, the constant
//! bits of `true` and `false`, and the always-`Ok` result reading);
//! everything else returns `None`.

use vstd::prelude::*;
use vstd::string::*;
use crate::numstr::{
    dec_digits, dec_int_str, fmt_i64, fmt_u64, parse_i32_model, parse_i32_str,
    parse_i64_model, parse_i64_str, parse_u32_model, parse_u32_str, parse_u64_model,
    parse_u64_str,
};
use crate::text::{
    duration_text, fmt_duration, parse_duration, parse_duration_model, str_eq_str,
    str_starts_with, trim_of, trim_str,
};
use crate::value::{DateTime, Duration, Typ, Value, ValueModel, NANOS_PER_SEC};

verus! {

/// What chrono reads out of an RFC 3339 timestamp: the instant's UNIX
/// seconds and sub-second nanoseconds, a function of the text alone.
pub uninterp spec fn rfc3339_model(s: Seq<char>) -> Option<(i64, u32)>;

/// What chrono reads out of an RFC 2822 timestamp.
pub uninterp spec fn rfc2822_model(s: Seq<char>) -> Option<(i64, u32)>;

/// How chrono prints a UTC instant, where the instant is within chrono's
/// range; a function of the fields alone.
pub uninterp spec fn datetime_text_model(secs: i64, nanos: u32) -> Option<Seq<char>>;

/// What base64 decoding makes of the text, a function of it alone.
pub uninterp spec fn base64_model(s: Seq<char>) -> Option<Seq<u8>>;

/// Relies on chrono's DateTime::parse_from_rfc3339; the result depends on
/// the characters alone.
#[verifier::external_body]
fn parse_rfc3339(s: &str) -> (r: Option<(i64, u32)>)
    ensures
        r == rfc3339_model(s@),
{
    chrono::DateTime::parse_from_rfc3339(s).ok().map(|d| (
        d.timestamp(),
        d.timestamp_subsec_nanos(),
    ))
}

/// Relies on chrono's DateTime::parse_from_rfc2822; the result depends on
/// the characters alone.
#[verifier::external_body]
fn parse_rfc2822(s: &str) -> (r: Option<(i64, u32)>)
    ensures
        r == rfc2822_model(s@),
{
    chrono::DateTime::parse_from_rfc2822(s).ok().map(|d| (
        d.timestamp(),
        d.timestamp_subsec_nanos(),
    ))
}

/// Relies on chrono's DateTime::from_timestamp and the Display of a UTC
/// instant: printing succeeds exactly on chrono's range, and the text
/// depends on the fields alone.
#[verifier::external_body]
fn fmt_datetime(secs: i64, nanos: u32) -> (r: Option<String>)
    ensures
        r matches Some(x) ==> datetime_text_model(secs, nanos) == Some(x@),
        r is None ==> datetime_text_model(secs, nanos) is None,
{
    chrono::DateTime::<chrono::Utc>::from_timestamp(secs, nanos).map(|d| d.to_string())
}

/// Relies on base64::decode; the result depends on the characters alone.
#[verifier::external_body]
fn base64_decode(s: &str) -> (r: Option<Vec<u8>>)
    ensures
        r matches Some(v) ==> base64_model(s@) == Some(v@),
        r is None ==> base64_model(s@) is None,
{
    base64::decode(s).ok()
}

/// Fold whole seconds hidden in an oversized nanosecond part into the
/// seconds, saturating at the top of the range.
pub open spec fn norm_ts(secs: i64, nanos: u32) -> DateTime {
    let add = nanos / NANOS_PER_SEC;
    let rem = nanos % NANOS_PER_SEC;
    if secs + add <= i64::MAX {
        DateTime { secs: (secs + add) as i64, nanos: rem }
    } else {
        DateTime { secs: i64::MAX, nanos: rem }
    }
}

fn norm_ts_exec(secs: i64, nanos: u32) -> (r: DateTime)
    ensures
        r == norm_ts(secs, nanos),
        r.wf(),
{
    let add = nanos / NANOS_PER_SEC;
    let rem = nanos % NANOS_PER_SEC;
    match secs.checked_add(add as i64) {
        Some(s2) => DateTime { secs: s2, nanos: rem },
        None => DateTime { secs: i64::MAX, nanos: rem },
    }
}

/// What parsing `s` at tag `t` returns. The texts `null` and `Null`
/// always parse to `Null`, whatever the tag.
pub open spec fn parse_model(t: Typ, s: Seq<char>) -> Option<ValueModel> {
    if s == "null"@ || s == "Null"@ {
        Some(ValueModel::Null)
    } else {
        match t {
            Typ::U32 => match parse_u32_model(s) {
                Some(v) => Some(ValueModel::U32(v)),
                None => None,
            },
            Typ::V32 => match parse_u32_model(s) {
                Some(v) => Some(ValueModel::V32(v)),
                None => None,
            },
            Typ::I32 => match parse_i32_model(s) {
                Some(v) => Some(ValueModel::I32(v)),
                None => None,
            },
            Typ::Z32 => match parse_i32_model(s) {
                Some(v) => Some(ValueModel::Z32(v)),
                None => None,
            },
            Typ::U64 => match parse_u64_model(s) {
                Some(v) => Some(ValueModel::U64(v)),
                None => None,
            },
            Typ::V64 => match parse_u64_model(s) {
                Some(v) => Some(ValueModel::V64(v)),
                None => None,
            },
            Typ::I64 => match parse_i64_model(s) {
                Some(v) => Some(ValueModel::I64(v)),
                None => None,
            },
            Typ::Z64 => match parse_i64_model(s) {
                Some(v) => Some(ValueModel::Z64(v)),
                None => None,
            },
            Typ::F32 => None,
            Typ::F64 => None,
            Typ::DateTime => match rfc3339_model(s) {
                Some(p) => Some(ValueModel::DateTime(norm_ts(p.0, p.1))),
                None => match rfc2822_model(s) {
                    Some(p) => Some(ValueModel::DateTime(norm_ts(p.0, p.1))),
                    None => None,
                },
            },
            Typ::Duration => match parse_duration_model(s) {
                Some(d) => Some(ValueModel::Duration(d)),
                None => None,
            },
            Typ::Bool => {
                let w = trim_of(s);
                if w == "true"@ || w == "True"@ {
                    Some(ValueModel::True)
                } else if w == "false"@ || w == "False"@ {
                    Some(ValueModel::False)
                } else {
                    None
                }
            },
            Typ::String => Some(ValueModel::String(s)),
            Typ::Bytes => match base64_model(s) {
                Some(b) => Some(ValueModel::Bytes(b)),
                None => None,
            },
            Typ::Result => {
                let w = trim_of(s);
                if w == "ok"@ || w == "Ok"@ {
                    Some(ValueModel::Okay)
                } else if w == "error"@ || w == "Error"@ {
                    Some(ValueModel::Error(Seq::empty()))
                } else if w.len() >= 6 && (w.take(6) == "error:"@ || w.take(6)
                    == "Error:"@) {
                    Some(ValueModel::Error(trim_of(w.skip(6))))
                } else {
                    None
                }
            },
        }
    }
}

impl Typ {
    /// Parse `s` as a value of this tag.
    #[verifier::loop_isolation(false)]
    pub fn parse(&self, s: &str) -> (r: Option<Value>)
        ensures
            r matches Some(v) ==> parse_model(*self, s@) == Some(v@) && v.wf(),
            r is None ==> parse_model(*self, s@) is None,
    {
        proof {
            reveal_strlit("");
            reveal_strlit("null");
            reveal_strlit("Null");
            reveal_strlit("true");
            reveal_strlit("True");
            reveal_strlit("false");
            reveal_strlit("False");
            reveal_strlit("ok");
            reveal_strlit("Ok");
            reveal_strlit("error");
            reveal_strlit("Error");
            reveal_strlit("error:");
            reveal_strlit("Error:");
        }
        if str_eq_str(s, "null") || str_eq_str(s, "Null") {
            return Some(Value::Null);
        }
        match self {
            Typ::U32 => match parse_u32_str(s) {
                Some(v) => Some(Value::U32(v)),
                None => None,
            },
            Typ::V32 => match parse_u32_str(s) {
                Some(v) => Some(Value::V32(v)),
                None => None,
            },
            Typ::I32 => match parse_i32_str(s) {
                Some(v) => Some(Value::I32(v)),
                None => None,
            },
            Typ::Z32 => match parse_i32_str(s) {
                Some(v) => Some(Value::Z32(v)),
                None => None,
            },
            Typ::U64 => match parse_u64_str(s) {
                Some(v) => Some(Value::U64(v)),
                None => None,
            },
            Typ::V64 => match parse_u64_str(s) {
                Some(v) => Some(Value::V64(v)),
                None => None,
            },
            Typ::I64 => match parse_i64_str(s) {
                Some(v) => Some(Value::I64(v)),
                None => None,
            },
            Typ::Z64 => match parse_i64_str(s) {
                Some(v) => Some(Value::Z64(v)),
                None => None,
            },
            Typ::F32 => None,
            Typ::F64 => None,
            Typ::DateTime => match parse_rfc3339(s) {
                Some((secs, nanos)) => Some(Value::DateTime(norm_ts_exec(secs, nanos))),
                None => match parse_rfc2822(s) {
                    Some((secs, nanos)) => Some(
                        Value::DateTime(norm_ts_exec(secs, nanos)),
                    ),
                    None => None,
                },
            },
            Typ::Duration => match parse_duration(s) {
                Some(d) => Some(Value::Duration(d)),
                None => None,
            },
            Typ::Bool => {
                let w = trim_str(s);
                if str_eq_str(w, "true") || str_eq_str(w, "True") {
                    Some(Value::True)
                } else if str_eq_str(w, "false") || str_eq_str(w, "False") {
                    Some(Value::False)
                } else {
                    None
                }
            }
            Typ::String => Some(Value::String(String::from_str(s))),
            Typ::Bytes => match base64_decode(s) {
                Some(b) => Some(Value::Bytes(b)),
                None => None,
            },
            Typ::Result => {
                let w = trim_str(s);
                if str_eq_str(w, "ok") || str_eq_str(w, "Ok") {
                    Some(Value::Okay)
                } else if str_eq_str(w, "error") || str_eq_str(w, "Error") {
                    proof {
                        assert(""@ =~= Seq::<char>::empty());
                    }
                    Some(Value::Error(String::from_str("")))
                } else if str_starts_with(w, "error:") || str_starts_with(w, "Error:") {
                    let wn = w.unicode_len();
                    let rest = w.substring_char(6, wn);
                    proof {
                        assert(rest@ =~= trim_of(s@).skip(6));
                    }
                    let msg = trim_str(rest);
                    Some(Value::Error(String::from_str(msg)))
                } else {
                    None
                }
            }
        }
    }
}

/// The tag a name denotes, if any: the inverse of [`Typ::name`].
pub open spec fn typ_of_name(s: Seq<char>) -> Option<Typ> {
    if s == "u32"@ {
        Some(Typ::U32)
    } else if s == "v32"@ {
        Some(Typ::V32)
    } else if s == "i32"@ {
        Some(Typ::I32)
    } else if s == "z32"@ {
        Some(Typ::Z32)
    } else if s == "u64"@ {
        Some(Typ::U64)
    } else if s == "v64"@ {
        Some(Typ::V64)
    } else if s == "i64"@ {
        Some(Typ::I64)
    } else if s == "z64"@ {
        Some(Typ::Z64)
    } else if s == "f32"@ {
        Some(Typ::F32)
    } else if s == "f64"@ {
        Some(Typ::F64)
    } else if s == "datetime"@ {
        Some(Typ::DateTime)
    } else if s == "duration"@ {
        Some(Typ::Duration)
    } else if s == "bool"@ {
        Some(Typ::Bool)
    } else if s == "string"@ {
        Some(Typ::String)
    } else if s == "bytes"@ {
        Some(Typ::Bytes)
    } else if s == "result"@ {
        Some(Typ::Result)
    } else {
        None
    }
}

impl Typ {
    /// Read a tag from its canonical name.
    pub fn from_str(s: &str) -> (r: Option<Typ>)
        ensures
            r == typ_of_name(s@),
    {
        if str_eq_str(s, "u32") {
            Some(Typ::U32)
        } else if str_eq_str(s, "v32") {
            Some(Typ::V32)
        } else if str_eq_str(s, "i32") {
            Some(Typ::I32)
        } else if str_eq_str(s, "z32") {
            Some(Typ::Z32)
        } else if str_eq_str(s, "u64") {
            Some(Typ::U64)
        } else if str_eq_str(s, "v64") {
            Some(Typ::V64)
        } else if str_eq_str(s, "i64") {
            Some(Typ::I64)
        } else if str_eq_str(s, "z64") {
            Some(Typ::Z64)
        } else if str_eq_str(s, "f32") {
            Some(Typ::F32)
        } else if str_eq_str(s, "f64") {
            Some(Typ::F64)
        } else if str_eq_str(s, "datetime") {
            Some(Typ::DateTime)
        } else if str_eq_str(s, "duration") {
            Some(Typ::Duration)
        } else if str_eq_str(s, "bool") {
            Some(Typ::Bool)
        } else if str_eq_str(s, "string") {
            Some(Typ::String)
        } else if str_eq_str(s, "bytes") {
            Some(Typ::Bytes)
        } else {
            if str_eq_str(s, "result") {
                Some(Typ::Result)
            } else {
                None
            }
        }
    }
}

/// The text a value prints as, where one is defined: decimal for the
/// integer kinds, the duration and timestamp forms, the words of the
/// boolean, null and result kinds, and the string itself.
pub open spec fn text_model(m: ValueModel) -> Option<Seq<char>> {
    match m {
        ValueModel::U32(v) => Some(dec_digits(v as nat)),
        ValueModel::V32(v) => Some(dec_digits(v as nat)),
        ValueModel::I32(v) => Some(dec_int_str(v as int)),
        ValueModel::Z32(v) => Some(dec_int_str(v as int)),
        ValueModel::U64(v) => Some(dec_digits(v as nat)),
        ValueModel::V64(v) => Some(dec_digits(v as nat)),
        ValueModel::I64(v) => Some(dec_int_str(v as int)),
        ValueModel::Z64(v) => Some(dec_int_str(v as int)),
        ValueModel::F32(_) => None,
        ValueModel::F64(_) => None,
        ValueModel::DateTime(d) => datetime_text_model(d.secs, d.nanos),
        ValueModel::Duration(d) => Some(duration_text(d)),
        ValueModel::String(s) => Some(s),
        ValueModel::Bytes(_) => None,
        ValueModel::True => Some("true"@),
        ValueModel::False => Some("false"@),
        ValueModel::Null => Some("null"@),
        ValueModel::Okay => Some("ok"@),
        ValueModel::Error(s) => Some(s),
    }
}

/// Is the float with these bits strictly positive? Exact over the IEEE-754
/// encoding: the sign is clear, the bits are not all zero, and the value
/// is not a NaN.
pub open spec fn f32_bits_positive(bits: u32) -> bool {
    &&& bits & 0x8000_0000u32 == 0
    &&& bits != 0
    &&& !(bits >> 23 == 0xFFu32 && bits & 0x7F_FFFFu32 != 0)
}

/// Is the float with these bits strictly positive?
pub open spec fn f64_bits_positive(bits: u64) -> bool {
    &&& bits & 0x8000_0000_0000_0000u64 == 0
    &&& bits != 0
    &&& !(bits >> 52 == 0x7FFu64 && bits & 0xF_FFFF_FFFF_FFFFu64 != 0)
}

pub open spec fn bool_model(b: bool) -> ValueModel {
    if b {
        ValueModel::True
    } else {
        ValueModel::False
    }
}

impl Value {
    /// Print this value as text, where a text form is defined.
    pub fn to_text(&self) -> (r: Option<String>)
        requires
            self.wf(),
        ensures
            r matches Some(x) ==> text_model(self@) == Some(x@),
            r is None ==> text_model(self@) is None,
    {
        proof {
            reveal_strlit("true");
            reveal_strlit("false");
            reveal_strlit("null");
            reveal_strlit("ok");
        }
        match self {
            Value::U32(v) => Some(fmt_u64(*v as u64)),
            Value::V32(v) => Some(fmt_u64(*v as u64)),
            Value::I32(v) => Some(fmt_i64(*v as i64)),
            Value::Z32(v) => Some(fmt_i64(*v as i64)),
            Value::U64(v) => Some(fmt_u64(*v)),
            Value::V64(v) => Some(fmt_u64(*v)),
            Value::I64(v) => Some(fmt_i64(*v)),
            Value::Z64(v) => Some(fmt_i64(*v)),
            Value::F32(_) => None,
            Value::F64(_) => None,
            Value::DateTime(d) => fmt_datetime(d.secs, d.nanos),
            Value::Duration(d) => Some(fmt_duration(d)),
            Value::String(s) => Some(s.clone()),
            Value::Bytes(_) => None,
            Value::True => Some(String::from_str("true")),
            Value::False => Some(String::from_str("false")),
            Value::Null => Some(String::from_str("null")),
            Value::Okay => Some(String::from_str("ok")),
            Value::Error(s) => Some(s.clone()),
        }
    }
}

/// What casting a value to a tag returns, for every pair.
pub open spec fn cast_model(m: ValueModel, t: Typ) -> Option<ValueModel> {
    match m {
        ValueModel::String(s) => if t == Typ::String {
            Some(ValueModel::String(s))
        } else {
            parse_model(t, s)
        },
        _ => match t {
            Typ::U32 => match m {
                ValueModel::U32(v) => Some(ValueModel::U32(v)),
                ValueModel::V32(v) => Some(ValueModel::U32(v)),
                ValueModel::I32(v) => Some(ValueModel::U32(v as u32)),
                ValueModel::Z32(v) => Some(ValueModel::U32(v as u32)),
                ValueModel::U64(v) => Some(ValueModel::U32(v as u32)),
                ValueModel::V64(v) => Some(ValueModel::U32(v as u32)),
                ValueModel::I64(v) => Some(ValueModel::U32(v as u32)),
                ValueModel::Z64(v) => Some(ValueModel::U32(v as u32)),
                ValueModel::Duration(d) => Some(ValueModel::U32(d.secs as u32)),
                ValueModel::True => Some(ValueModel::U32(1)),
                ValueModel::False => Some(ValueModel::U32(0)),
                _ => None,
            },
            Typ::V32 => match m {
                ValueModel::U32(v) => Some(ValueModel::V32(v)),
                ValueModel::V32(v) => Some(ValueModel::V32(v)),
                ValueModel::I32(v) => Some(ValueModel::V32(v as u32)),
                ValueModel::Z32(v) => Some(ValueModel::V32(v as u32)),
                ValueModel::U64(v) => Some(ValueModel::V32(v as u32)),
                ValueModel::V64(v) => Some(ValueModel::V32(v as u32)),
                ValueModel::I64(v) => Some(ValueModel::V32(v as u32)),
                ValueModel::Z64(v) => Some(ValueModel::V32(v as u32)),
                ValueModel::Duration(d) => Some(ValueModel::V32(d.secs as u32)),
                ValueModel::True => Some(ValueModel::V32(1)),
                ValueModel::False => Some(ValueModel::V32(0)),
                _ => None,
            },
            Typ::I32 => match m {
                ValueModel::U32(v) => Some(ValueModel::I32(v as i32)),
                ValueModel::V32(v) => Some(ValueModel::I32(v as i32)),
                ValueModel::I32(v) => Some(ValueModel::I32(v)),
                ValueModel::Z32(v) => Some(ValueModel::I32(v)),
                ValueModel::U64(v) => Some(ValueModel::I32(v as i32)),
                ValueModel::V64(v) => Some(ValueModel::I32(v as i32)),
                ValueModel::I64(v) => Some(ValueModel::I32(v as i32)),
                ValueModel::Z64(v) => Some(ValueModel::I32(v as i32)),
                ValueModel::DateTime(d) => Some(ValueModel::I32(d.secs as i32)),
                ValueModel::Duration(d) => Some(ValueModel::I32(d.secs as i32)),
                ValueModel::True => Some(ValueModel::I32(1)),
                ValueModel::False => Some(ValueModel::I32(0)),
                _ => None,
            },
            Typ::Z32 => match m {
                ValueModel::U32(v) => Some(ValueModel::Z32(v as i32)),
                ValueModel::V32(v) => Some(ValueModel::Z32(v as i32)),
                ValueModel::I32(v) => Some(ValueModel::Z32(v)),
                ValueModel::Z32(v) => Some(ValueModel::Z32(v)),
                ValueModel::U64(v) => Some(ValueModel::Z32(v as i32)),
                ValueModel::V64(v) => Some(ValueModel::Z32(v as i32)),
                ValueModel::I64(v) => Some(ValueModel::Z32(v as i32)),
                ValueModel::Z64(v) => Some(ValueModel::Z32(v as i32)),
                ValueModel::DateTime(d) => Some(ValueModel::Z32(d.secs as i32)),
                ValueModel::Duration(d) => Some(ValueModel::Z32(d.secs as i32)),
                ValueModel::True => Some(ValueModel::Z32(1)),
                ValueModel::False => Some(ValueModel::Z32(0)),
                _ => None,
            },
            Typ::U64 => match m {
                ValueModel::U32(v) => Some(ValueModel::U64(v as u64)),
                ValueModel::V32(v) => Some(ValueModel::U64(v as u64)),
                ValueModel::I32(v) => Some(ValueModel::U64(v as u64)),
                ValueModel::Z32(v) => Some(ValueModel::U64(v as u64)),
                ValueModel::U64(v) => Some(ValueModel::U64(v)),
                ValueModel::V64(v) => Some(ValueModel::U64(v)),
                ValueModel::I64(v) => Some(ValueModel::U64(v as u64)),
                ValueModel::Z64(v) => Some(ValueModel::U64(v as u64)),
                ValueModel::Duration(d) => Some(ValueModel::U64(d.secs)),
                ValueModel::True => Some(ValueModel::U64(1)),
                ValueModel::False => Some(ValueModel::U64(0)),
                _ => None,
            },
            Typ::V64 => match m {
                ValueModel::U32(v) => Some(ValueModel::V64(v as u64)),
                ValueModel::V32(v) => Some(ValueModel::V64(v as u64)),
                ValueModel::I32(v) => Some(ValueModel::V64(v as u64)),
                ValueModel::Z32(v) => Some(ValueModel::V64(v as u64)),
                ValueModel::U64(v) => Some(ValueModel::V64(v)),
                ValueModel::V64(v) => Some(ValueModel::V64(v)),
                ValueModel::I64(v) => Some(ValueModel::V64(v as u64)),
                ValueModel::Z64(v) => Some(ValueModel::V64(v as u64)),
                ValueModel::Duration(d) => Some(ValueModel::V64(d.secs)),
                ValueModel::True => Some(ValueModel::V64(1)),
                ValueModel::False => Some(ValueModel::V64(0)),
                _ => None,
            },
            Typ::I64 => match m {
                ValueModel::U32(v) => Some(ValueModel::I64(v as i64)),
                ValueModel::V32(v) => Some(ValueModel::I64(v as i64)),
                ValueModel::I32(v) => Some(ValueModel::I64(v as i64)),
                ValueModel::Z32(v) => Some(ValueModel::I64(v as i64)),
                ValueModel::U64(v) => Some(ValueModel::I64(v as i64)),
                ValueModel::V64(v) => Some(ValueModel::I64(v as i64)),
                ValueModel::I64(v) => Some(ValueModel::I64(v)),
                ValueModel::Z64(v) => Some(ValueModel::I64(v)),
                ValueModel::DateTime(d) => Some(ValueModel::I64(d.secs)),
                ValueModel::Duration(d) => Some(ValueModel::I64(d.secs as i64)),
                ValueModel::True => Some(ValueModel::I64(1)),
                ValueModel::False => Some(ValueModel::I64(0)),
                _ => None,
            },
            Typ::Z64 => match m {
                ValueModel::U32(v) => Some(ValueModel::Z64(v as i64)),
                ValueModel::V32(v) => Some(ValueModel::Z64(v as i64)),
                ValueModel::I32(v) => Some(ValueModel::Z64(v as i64)),
                ValueModel::Z32(v) => Some(ValueModel::Z64(v as i64)),
                ValueModel::U64(v) => Some(ValueModel::Z64(v as i64)),
                ValueModel::V64(v) => Some(ValueModel::Z64(v as i64)),
                ValueModel::I64(v) => Some(ValueModel::Z64(v)),
                ValueModel::Z64(v) => Some(ValueModel::Z64(v)),
                ValueModel::DateTime(d) => Some(ValueModel::Z64(d.secs)),
                ValueModel::Duration(d) => Some(ValueModel::Z64(d.secs as i64)),
                ValueModel::True => Some(ValueModel::Z64(1)),
                ValueModel::False => Some(ValueModel::Z64(0)),
                _ => None,
            },
            Typ::F32 => match m {
                ValueModel::F32(bits) => Some(ValueModel::F32(bits)),
                ValueModel::True => Some(ValueModel::F32(0x3F80_0000)),
                ValueModel::False => Some(ValueModel::F32(0)),
                _ => None,
            },
            Typ::F64 => match m {
                ValueModel::F64(bits) => Some(ValueModel::F64(bits)),
                ValueModel::True => Some(ValueModel::F64(0x3FF0_0000_0000_0000)),
                ValueModel::False => Some(ValueModel::F64(0)),
                _ => None,
            },
            Typ::Bool => match m {
                ValueModel::U32(v) => Some(bool_model(v > 0)),
                ValueModel::V32(v) => Some(bool_model(v > 0)),
                ValueModel::I32(v) => Some(bool_model(v > 0)),
                ValueModel::Z32(v) => Some(bool_model(v > 0)),
                ValueModel::U64(v) => Some(bool_model(v > 0)),
                ValueModel::V64(v) => Some(bool_model(v > 0)),
                ValueModel::I64(v) => Some(bool_model(v > 0)),
                ValueModel::Z64(v) => Some(bool_model(v > 0)),
                ValueModel::F32(bits) => Some(bool_model(f32_bits_positive(bits))),
                ValueModel::F64(bits) => Some(bool_model(f64_bits_positive(bits))),
                ValueModel::True => Some(ValueModel::True),
                ValueModel::False => Some(ValueModel::False),
                ValueModel::Null => Some(ValueModel::False),
                ValueModel::Okay => Some(ValueModel::True),
                ValueModel::Error(_) => Some(ValueModel::False),
                _ => None,
            },
            Typ::String => match text_model(m) {
                Some(x) => Some(ValueModel::String(x)),
                None => None,
            },
            Typ::Bytes => match m {
                ValueModel::Bytes(b) => Some(ValueModel::Bytes(b)),
                _ => None,
            },
            Typ::Result => match m {
                ValueModel::Bytes(_) => None,
                ValueModel::Error(e) => Some(ValueModel::Error(e)),
                _ => Some(ValueModel::Okay),
            },
            Typ::DateTime => match m {
                ValueModel::U32(v) => Some(
                    ValueModel::DateTime(DateTime { secs: v as i64, nanos: 0 }),
                ),
                ValueModel::V32(v) => Some(
                    ValueModel::DateTime(DateTime { secs: v as i64, nanos: 0 }),
                ),
                ValueModel::I32(v) => Some(
                    ValueModel::DateTime(DateTime { secs: v as i64, nanos: 0 }),
                ),
                ValueModel::Z32(v) => Some(
                    ValueModel::DateTime(DateTime { secs: v as i64, nanos: 0 }),
                ),
                ValueModel::U64(v) => if v <= i64::MAX as u64 {
                    Some(ValueModel::DateTime(DateTime { secs: v as i64, nanos: 0 }))
                } else {
                    None
                },
                ValueModel::V64(v) => if v <= i64::MAX as u64 {
                    Some(ValueModel::DateTime(DateTime { secs: v as i64, nanos: 0 }))
                } else {
                    None
                },
                ValueModel::I64(v) => Some(
                    ValueModel::DateTime(DateTime { secs: v, nanos: 0 }),
                ),
                ValueModel::Z64(v) => Some(
                    ValueModel::DateTime(DateTime { secs: v, nanos: 0 }),
                ),
                ValueModel::DateTime(d) => Some(ValueModel::DateTime(d)),
                ValueModel::Duration(d) => if d.secs <= i64::MAX as u64 {
                    Some(
                        ValueModel::DateTime(
                            DateTime { secs: d.secs as i64, nanos: d.nanos },
                        ),
                    )
                } else {
                    None
                },
                _ => None,
            },
            Typ::Duration => match m {
                ValueModel::U32(v) => Some(
                    ValueModel::Duration(Duration { secs: v as u64, nanos: 0 }),
                ),
                ValueModel::V32(v) => Some(
                    ValueModel::Duration(Duration { secs: v as u64, nanos: 0 }),
                ),
                ValueModel::I32(v) => Some(
                    ValueModel::Duration(
                        Duration { secs: abs_i32(v), nanos: 0 },
                    ),
                ),
                ValueModel::Z32(v) => Some(
                    ValueModel::Duration(
                        Duration { secs: abs_i32(v), nanos: 0 },
                    ),
                ),
                ValueModel::U64(v) => Some(
                    ValueModel::Duration(Duration { secs: v, nanos: 0 }),
                ),
                ValueModel::V64(v) => Some(
                    ValueModel::Duration(Duration { secs: v, nanos: 0 }),
                ),
                ValueModel::I64(v) => Some(
                    ValueModel::Duration(
                        Duration { secs: abs_i64(v), nanos: 0 },
                    ),
                ),
                ValueModel::Z64(v) => Some(
                    ValueModel::Duration(
                        Duration { secs: abs_i64(v), nanos: 0 },
                    ),
                ),
                ValueModel::DateTime(d) => if d.secs >= 0 {
                    Some(
                        ValueModel::Duration(
                            Duration { secs: d.secs as u64, nanos: d.nanos },
                        ),
                    )
                } else {
                    None
                },
                ValueModel::Duration(d) => Some(ValueModel::Duration(d)),
                _ => None,
            },
        },
    }
}

impl Value {
    /// Whatever this value is, try to turn it into the kind `typ` names.
    /// Total: every pair of value and tag either casts or returns `None`.
    #[verifier::rlimit(100)]
    pub fn cast(self, typ: Typ) -> (r: Option<Value>)
        requires
            self.wf(),
        ensures
            r matches Some(v) ==> cast_model(self@, typ) == Some(v@) && v.wf(),
            r is None ==> cast_model(self@, typ) is None,
    {
        match self {
            Value::String(s) => match typ {
                Typ::String => Some(Value::String(s)),
                _ => typ.parse(s.as_str()),
            },
            v => match typ {
                Typ::U32 => match v {
                    Value::U32(x) => Some(Value::U32(x)),
                    Value::V32(x) => Some(Value::U32(x)),
                    Value::I32(x) => Some(Value::U32(x as u32)),
                    Value::Z32(x) => Some(Value::U32(x as u32)),
                    Value::U64(x) => Some(Value::U32(x as u32)),
                    Value::V64(x) => Some(Value::U32(x as u32)),
                    Value::I64(x) => Some(Value::U32(x as u32)),
                    Value::Z64(x) => Some(Value::U32(x as u32)),
                    Value::Duration(d) => Some(Value::U32(d.secs as u32)),
                    Value::True => Some(Value::U32(1)),
                    Value::False => Some(Value::U32(0)),
                    _ => None,
                },
                Typ::V32 => match v {
                    Value::U32(x) => Some(Value::V32(x)),
                    Value::V32(x) => Some(Value::V32(x)),
                    Value::I32(x) => Some(Value::V32(x as u32)),
                    Value::Z32(x) => Some(Value::V32(x as u32)),
                    Value::U64(x) => Some(Value::V32(x as u32)),
                    Value::V64(x) => Some(Value::V32(x as u32)),
                    Value::I64(x) => Some(Value::V32(x as u32)),
                    Value::Z64(x) => Some(Value::V32(x as u32)),
                    Value::Duration(d) => Some(Value::V32(d.secs as u32)),
                    Value::True => Some(Value::V32(1)),
                    Value::False => Some(Value::V32(0)),
                    _ => None,
                },
                Typ::I32 => match v {
                    Value::U32(x) => Some(Value::I32(x as i32)),
                    Value::V32(x) => Some(Value::I32(x as i32)),
                    Value::I32(x) => Some(Value::I32(x)),
                    Value::Z32(x) => Some(Value::I32(x)),
                    Value::U64(x) => Some(Value::I32(x as i32)),
                    Value::V64(x) => Some(Value::I32(x as i32)),
                    Value::I64(x) => Some(Value::I32(x as i32)),
                    Value::Z64(x) => Some(Value::I32(x as i32)),
                    Value::DateTime(d) => Some(Value::I32(d.secs as i32)),
                    Value::Duration(d) => Some(Value::I32(d.secs as i32)),
                    Value::True => Some(Value::I32(1)),
                    Value::False => Some(Value::I32(0)),
                    _ => None,
                },
                Typ::Z32 => match v {
                    Value::U32(x) => Some(Value::Z32(x as i32)),
                    Value::V32(x) => Some(Value::Z32(x as i32)),
                    Value::I32(x) => Some(Value::Z32(x)),
                    Value::Z32(x) => Some(Value::Z32(x)),
                    Value::U64(x) => Some(Value::Z32(x as i32)),
                    Value::V64(x) => Some(Value::Z32(x as i32)),
                    Value::I64(x) => Some(Value::Z32(x as i32)),
                    Value::Z64(x) => Some(Value::Z32(x as i32)),
                    Value::DateTime(d) => Some(Value::Z32(d.secs as i32)),
                    Value::Duration(d) => Some(Value::Z32(d.secs as i32)),
                    Value::True => Some(Value::Z32(1)),
                    Value::False => Some(Value::Z32(0)),
                    _ => None,
                },
                Typ::U64 => match v {
                    Value::U32(x) => Some(Value::U64(x as u64)),
                    Value::V32(x) => Some(Value::U64(x as u64)),
                    Value::I32(x) => Some(Value::U64(x as u64)),
                    Value::Z32(x) => Some(Value::U64(x as u64)),
                    Value::U64(x) => Some(Value::U64(x)),
                    Value::V64(x) => Some(Value::U64(x)),
                    Value::I64(x) => Some(Value::U64(x as u64)),
                    Value::Z64(x) => Some(Value::U64(x as u64)),
                    Value::Duration(d) => Some(Value::U64(d.secs)),
                    Value::True => Some(Value::U64(1)),
                    Value::False => Some(Value::U64(0)),
                    _ => None,
                },
                Typ::V64 => match v {
                    Value::U32(x) => Some(Value::V64(x as u64)),
                    Value::V32(x) => Some(Value::V64(x as u64)),
                    Value::I32(x) => Some(Value::V64(x as u64)),
                    Value::Z32(x) => Some(Value::V64(x as u64)),
                    Value::U64(x) => Some(Value::V64(x)),
                    Value::V64(x) => Some(Value::V64(x)),
                    Value::I64(x) => Some(Value::V64(x as u64)),
                    Value::Z64(x) => Some(Value::V64(x as u64)),
                    Value::Duration(d) => Some(Value::V64(d.secs)),
                    Value::True => Some(Value::V64(1)),
                    Value::False => Some(Value::V64(0)),
                    _ => None,
                },
                Typ::I64 => match v {
                    Value::U32(x) => Some(Value::I64(x as i64)),
                    Value::V32(x) => Some(Value::I64(x as i64)),
                    Value::I32(x) => Some(Value::I64(x as i64)),
                    Value::Z32(x) => Some(Value::I64(x as i64)),
                    Value::U64(x) => Some(Value::I64(x as i64)),
                    Value::V64(x) => Some(Value::I64(x as i64)),
                    Value::I64(x) => Some(Value::I64(x)),
                    Value::Z64(x) => Some(Value::I64(x)),
                    Value::DateTime(d) => Some(Value::I64(d.secs)),
                    Value::Duration(d) => Some(Value::I64(d.secs as i64)),
                    Value::True => Some(Value::I64(1)),
                    Value::False => Some(Value::I64(0)),
                    _ => None,
                },
                Typ::Z64 => match v {
                    Value::U32(x) => Some(Value::Z64(x as i64)),
                    Value::V32(x) => Some(Value::Z64(x as i64)),
                    Value::I32(x) => Some(Value::Z64(x as i64)),
                    Value::Z32(x) => Some(Value::Z64(x as i64)),
                    Value::U64(x) => Some(Value::Z64(x as i64)),
                    Value::V64(x) => Some(Value::Z64(x as i64)),
                    Value::I64(x) => Some(Value::Z64(x)),
                    Value::Z64(x) => Some(Value::Z64(x)),
                    Value::DateTime(d) => Some(Value::Z64(d.secs)),
                    Value::Duration(d) => Some(Value::Z64(d.secs as i64)),
                    Value::True => Some(Value::Z64(1)),
                    Value::False => Some(Value::Z64(0)),
                    _ => None,
                },
                Typ::F32 => match v {
                    Value::F32(bits) => Some(Value::F32(bits)),
                    Value::True => Some(Value::F32(0x3F80_0000)),
                    Value::False => Some(Value::F32(0)),
                    _ => None,
                },
                Typ::F64 => match v {
                    Value::F64(bits) => Some(Value::F64(bits)),
                    Value::True => Some(Value::F64(0x3FF0_0000_0000_0000)),
                    Value::False => Some(Value::F64(0)),
                    _ => None,
                },
                Typ::Bool => match v {
                    Value::U32(x) => Some(Value::of_bool(x > 0)),
                    Value::V32(x) => Some(Value::of_bool(x > 0)),
                    Value::I32(x) => Some(Value::of_bool(x > 0)),
                    Value::Z32(x) => Some(Value::of_bool(x > 0)),
                    Value::U64(x) => Some(Value::of_bool(x > 0)),
                    Value::V64(x) => Some(Value::of_bool(x > 0)),
                    Value::I64(x) => Some(Value::of_bool(x > 0)),
                    Value::Z64(x) => Some(Value::of_bool(x > 0)),
                    Value::F32(bits) => Some(
                        Value::of_bool(
                            bits & 0x8000_0000u32 == 0 && bits != 0 && !(bits >> 23
                                == 0xFFu32 && bits & 0x7F_FFFFu32 != 0),
                        ),
                    ),
                    Value::F64(bits) => Some(
                        Value::of_bool(
                            bits & 0x8000_0000_0000_0000u64 == 0 && bits != 0 && !(bits
                                >> 52 == 0x7FFu64 && bits & 0xF_FFFF_FFFF_FFFFu64 != 0),
                        ),
                    ),
                    Value::True => Some(Value::True),
                    Value::False => Some(Value::False),
                    Value::Null => Some(Value::False),
                    Value::Okay => Some(Value::True),
                    Value::Error(_) => Some(Value::False),
                    _ => None,
                },
                Typ::String => match v.to_text() {
                    Some(x) => Some(Value::String(x)),
                    None => None,
                },
                Typ::Bytes => match v {
                    Value::Bytes(b) => Some(Value::Bytes(b)),
                    _ => None,
                },
                Typ::Result => match v {
                    Value::Bytes(_) => None,
                    Value::Error(e) => Some(Value::Error(e)),
                    _ => Some(Value::Okay),
                },
                Typ::DateTime => match v {
                    Value::U32(x) => Some(
                        Value::DateTime(DateTime { secs: x as i64, nanos: 0 }),
                    ),
                    Value::V32(x) => Some(
                        Value::DateTime(DateTime { secs: x as i64, nanos: 0 }),
                    ),
                    Value::I32(x) => Some(
                        Value::DateTime(DateTime { secs: x as i64, nanos: 0 }),
                    ),
                    Value::Z32(x) => Some(
                        Value::DateTime(DateTime { secs: x as i64, nanos: 0 }),
                    ),
                    Value::U64(x) => if x <= i64::MAX as u64 {
                        Some(Value::DateTime(DateTime { secs: x as i64, nanos: 0 }))
                    } else {
                        None
                    },
                    Value::V64(x) => if x <= i64::MAX as u64 {
                        Some(Value::DateTime(DateTime { secs: x as i64, nanos: 0 }))
                    } else {
                        None
                    },
                    Value::I64(x) => Some(
                        Value::DateTime(DateTime { secs: x, nanos: 0 }),
                    ),
                    Value::Z64(x) => Some(
                        Value::DateTime(DateTime { secs: x, nanos: 0 }),
                    ),
                    Value::DateTime(d) => Some(Value::DateTime(d)),
                    Value::Duration(d) => if d.secs <= i64::MAX as u64 {
                        Some(
                            Value::DateTime(
                                DateTime { secs: d.secs as i64, nanos: d.nanos },
                            ),
                        )
                    } else {
                        None
                    },
                    _ => None,
                },
                Typ::Duration => match v {
                    Value::U32(x) => Some(
                        Value::Duration(Duration { secs: x as u64, nanos: 0 }),
                    ),
                    Value::V32(x) => Some(
                        Value::Duration(Duration { secs: x as u64, nanos: 0 }),
                    ),
                    Value::I32(x) => Some(
                        Value::Duration(Duration { secs: abs_i32_exec(x), nanos: 0 }),
                    ),
                    Value::Z32(x) => Some(
                        Value::Duration(Duration { secs: abs_i32_exec(x), nanos: 0 }),
                    ),
                    Value::U64(x) => Some(
                        Value::Duration(Duration { secs: x, nanos: 0 }),
                    ),
                    Value::V64(x) => Some(
                        Value::Duration(Duration { secs: x, nanos: 0 }),
                    ),
                    Value::I64(x) => Some(
                        Value::Duration(Duration { secs: abs_i64_exec(x), nanos: 0 }),
                    ),
                    Value::Z64(x) => Some(
                        Value::Duration(Duration { secs: abs_i64_exec(x), nanos: 0 }),
                    ),
                    Value::DateTime(d) => if d.secs >= 0 {
                        Some(
                            Value::Duration(
                                Duration { secs: d.secs as u64, nanos: d.nanos },
                            ),
                        )
                    } else {
                        None
                    },
                    Value::Duration(d) => Some(Value::Duration(d)),
                    _ => None,
                },
            },
        }
    }

    /// The value of a boolean.
    pub fn of_bool(b: bool) -> (r: Value)
        ensures
            r@ == bool_model(b),
    {
        if b {
            Value::True
        } else {
            Value::False
        }
    }
}

/// Cast soundness: a successful cast yields a value of the requested
/// kind, except that the texts `null` and `Null` always read back as
/// `Null`, whatever kind was asked for.
pub proof fn lemma_cast_typed(m: ValueModel, t: Typ, w: ValueModel)
    requires
        cast_model(m, t) == Some(w),
    ensures
        Typ::of_model(w) == Some(t) || w is Null,
{
    match m {
        ValueModel::String(s) => {
            if t != Typ::String {
                lemma_parse_typed(t, s, w);
            }
        }
        _ => {
            match t {
                Typ::U32 | Typ::V32 | Typ::I32 | Typ::Z32 | Typ::U64 | Typ::V64
                    | Typ::I64 | Typ::Z64 | Typ::F32 | Typ::F64 | Typ::Bool
                    | Typ::String | Typ::Bytes | Typ::Result | Typ::DateTime
                    | Typ::Duration => {}
            }
        }
    }
}

proof fn lemma_parse_typed(t: Typ, s: Seq<char>, w: ValueModel)
    requires
        parse_model(t, s) == Some(w),
    ensures
        Typ::of_model(w) == Some(t) || w is Null,
{
    match t {
        Typ::U32 | Typ::V32 | Typ::I32 | Typ::Z32 | Typ::U64 | Typ::V64 | Typ::I64
            | Typ::Z64 | Typ::F32 | Typ::F64 | Typ::Bool | Typ::String | Typ::Bytes
            | Typ::Result | Typ::DateTime | Typ::Duration => {}
    }
}

/// Cast idempotence: casting any value to its own kind gives the value
/// back unchanged.
pub proof fn lemma_cast_idempotent(m: ValueModel, t: Typ)
    requires
        Typ::of_model(m) == Some(t),
    ensures
        cast_model(m, t) == Some(m),
{
}

/// The kinds whose text form reads back exactly: the integer kinds, the
/// booleans, strings, durations, and the `ok` result.
pub open spec fn text_exact(m: ValueModel, t: Typ) -> bool {
    match t {
        Typ::U32 | Typ::V32 | Typ::I32 | Typ::Z32 | Typ::U64 | Typ::V64 | Typ::I64
            | Typ::Z64 | Typ::Bool | Typ::String | Typ::Duration => true,
        Typ::Result => m is Okay,
        _ => false,
    }
}

/// Format then parse is the identity: casting one of the exactly printable
/// kinds to a string and casting that string back at the same kind returns
/// the value unchanged.
pub proof fn lemma_text_cast_roundtrip(m: ValueModel, t: Typ)
    requires
        Typ::of_model(m) == Some(t),
        m.wf(),
        text_exact(m, t),
    ensures
        cast_model(m, Typ::String) is Some,
        cast_model(m, Typ::String) matches Some(x) ==> cast_model(x, t) == Some(m),
{
    reveal_strlit("null");
    reveal_strlit("Null");
    reveal_strlit("true");
    reveal_strlit("True");
    reveal_strlit("false");
    reveal_strlit("False");
    reveal_strlit("ok");
    reveal_strlit("Ok");
    reveal_strlit("error");
    reveal_strlit("Error");
    match m {
        ValueModel::U32(v) => {
            lemma_text_uint(v as u64);
        }
        ValueModel::V32(v) => {
            lemma_text_uint(v as u64);
        }
        ValueModel::U64(v) => {
            lemma_text_uint(v);
        }
        ValueModel::V64(v) => {
            lemma_text_uint(v);
        }
        ValueModel::I32(v) => {
            lemma_text_int(v as i64);
        }
        ValueModel::Z32(v) => {
            lemma_text_int(v as i64);
        }
        ValueModel::I64(v) => {
            lemma_text_int(v);
        }
        ValueModel::Z64(v) => {
            lemma_text_int(v);
        }
        ValueModel::Duration(d) => {
            let x = duration_text(d);
            crate::numstr::lemma_dec_digits_exact(d.secs as nat);
            assert(x[0] == dec_digits(d.secs as nat)[0]);
            assert(crate::numstr::is_digit_char(x[0]));
            assert(x != "null"@ && x != "Null"@);
            crate::text::lemma_duration_roundtrip(d);
        }
        ValueModel::True => {
            assert("true"@ != "null"@ && "true"@ != "Null"@);
            crate::text::lemma_trim_of_untrimmed("true"@);
        }
        ValueModel::False => {
            assert("false"@ != "null"@ && "false"@ != "Null"@);
            crate::text::lemma_trim_of_untrimmed("false"@);
        }
        ValueModel::Okay => {
            assert("ok"@ != "null"@ && "ok"@ != "Null"@);
            crate::text::lemma_trim_of_untrimmed("ok"@);
            assert(trim_of("ok"@) == "ok"@);
        }
        ValueModel::String(s) => {}
        _ => {}
    }
}

/// The decimal text of an unsigned value parses back to it at every
/// unsigned width that holds it.
proof fn lemma_text_uint(v: u64)
    ensures
        dec_digits(v as nat) != "null"@,
        dec_digits(v as nat) != "Null"@,
        crate::numstr::parse_u64_model(dec_digits(v as nat)) == Some(v),
        v <= u32::MAX ==> crate::numstr::parse_u32_model(dec_digits(v as nat)) == Some(
            v as u32,
        ),
{
    reveal_strlit("null");
    reveal_strlit("Null");
    crate::numstr::lemma_dec_digits_exact(v as nat);
    let x = dec_digits(v as nat);
    assert(crate::numstr::is_digit_char(x[0]));
    assert(x != "null"@ && x != "Null"@);
    crate::numstr::lemma_parse_u64_of_dec(v);
}

/// The decimal text of a signed value parses back to it at every signed
/// width that holds it.
proof fn lemma_text_int(v: i64)
    ensures
        dec_int_str(v as int) != "null"@,
        dec_int_str(v as int) != "Null"@,
        crate::numstr::parse_i64_model(dec_int_str(v as int)) == Some(v),
        i32::MIN <= v <= i32::MAX ==> crate::numstr::parse_i32_model(
            dec_int_str(v as int),
        ) == Some(v as i32),
{
    reveal_strlit("null");
    reveal_strlit("Null");
    let x = dec_int_str(v as int);
    if v >= 0 {
        crate::numstr::lemma_dec_digits_exact(v as nat);
        assert(crate::numstr::is_digit_char(x[0]));
    } else {
        assert(x[0] == '-');
    }
    assert(x != "null"@ && x != "Null"@);
    crate::numstr::lemma_parse_i64_of_dec(v);
}

/// The magnitude of a 32-bit signed value, in 64 unsigned bits.
pub open spec fn abs_i32(v: i32) -> u64 {
    if v >= 0 {
        v as u64
    } else {
        (-(v as int)) as u64
    }
}

/// The magnitude of a 64-bit signed value, in 64 unsigned bits.
pub open spec fn abs_i64(v: i64) -> u64 {
    if v >= 0 {
        v as u64
    } else {
        (-(v as i128)) as u64
    }
}

fn abs_i32_exec(v: i32) -> (r: u64)
    ensures
        r == abs_i32(v),
{
    if v >= 0 {
        v as u64
    } else {
        let m: u64 = if v == i32::MIN {
            2147483648u64
        } else {
            (-v) as u64
        };
        m
    }
}

fn abs_i64_exec(v: i64) -> (r: u64)
    ensures
        r == abs_i64(v),
{
    if v >= 0 {
        v as u64
    } else {
        let m: u64 = if v == i64::MIN {
            9223372036854775808u64
        } else {
            (-v) as u64
        };
        m
    }
}

} // verus!
