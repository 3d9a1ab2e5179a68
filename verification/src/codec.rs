//! The tagged wire form of a `Value`: a one-byte tag and a tag-specific
//! body. The grammar is stated twice, as a pure encoding function and a
//! pure decoding function, and the two are proved inverse.

use vstd::prelude::*;
use vstd::utf8::{encode_utf8, decode_utf8, valid_utf8};
use crate::pack::{
    be4, be8, encode_varint, i32_zz, i64_zz, put_u32_be, put_u64_be, u32_of_be, u64_of_be,
    unzigzag32, unzigzag64, varint_dec, varint_enc, zigzag32, zigzag64, decode_varint,
    varint_len, i32_uzz, i64_uzz, get_u32_be, get_u64_be,
};
use crate::value::{DateTime, Duration, Value, ValueModel};

verus! {

/// Why a buffer failed to decode.
#[derive(Debug, Clone, Copy, PartialEq, Eq, Structural)]
pub enum PackError {
    /// the tag byte is not one this codec defines
    UnknownTag,
    /// the buffer ends before the body does
    Short,
    /// a varint or a string body is malformed
    Invalid,
}

/// The exact bytes a value encodes to.
pub open spec fn spec_encode_value(m: ValueModel) -> Seq<u8> {
    match m {
        ValueModel::U32(v) => seq![0u8] + be4(v),
        ValueModel::V32(v) => seq![1u8] + varint_enc(v as u64),
        ValueModel::I32(v) => seq![2u8] + be4(v as u32),
        ValueModel::Z32(v) => seq![3u8] + varint_enc(zigzag32(v) as u64),
        ValueModel::U64(v) => seq![4u8] + be8(v),
        ValueModel::V64(v) => seq![5u8] + varint_enc(v),
        ValueModel::I64(v) => seq![6u8] + be8(v as u64),
        ValueModel::Z64(v) => seq![7u8] + varint_enc(zigzag64(v)),
        ValueModel::F32(bits) => seq![8u8] + be4(bits),
        ValueModel::F64(bits) => seq![9u8] + be8(bits),
        ValueModel::DateTime(d) => seq![10u8] + be8(d.secs as u64) + be4(d.nanos),
        ValueModel::Duration(d) => seq![11u8] + be8(d.secs) + be4(d.nanos),
        ValueModel::String(s) => seq![12u8] + varint_enc(encode_utf8(s).len() as u64)
            + encode_utf8(s),
        ValueModel::Bytes(b) => seq![13u8] + varint_enc(b.len() as u64) + b,
        ValueModel::True => seq![14u8],
        ValueModel::False => seq![15u8],
        ValueModel::Null => seq![16u8],
        ValueModel::Okay => seq![17u8],
        ValueModel::Error(s) => seq![18u8] + varint_enc(encode_utf8(s).len() as u64)
            + encode_utf8(s),
    }
}

/// A model whose payload lengths a real buffer can hold, so that the
/// length prefix does not wrap.
pub open spec fn encodable(m: ValueModel) -> bool {
    match m {
        ValueModel::String(s) => encode_utf8(s).len() <= u64::MAX,
        ValueModel::Bytes(b) => b.len() <= u64::MAX,
        ValueModel::Error(s) => encode_utf8(s).len() <= u64::MAX,
        _ => true,
    }
}

/// What decoding the front of `s` gives: the value, and how many bytes
/// its encoding took; or the exact reason it cannot decode.
pub open spec fn spec_decode_value(s: Seq<u8>) -> Result<(ValueModel, nat), PackError> {
    if s.len() == 0 {
        Err(PackError::Short)
    } else {
        let tag = s[0];
        let b = s.skip(1);
        if tag == 0 {
            if b.len() >= 4 {
                Ok((ValueModel::U32(u32_of_be(b[0], b[1], b[2], b[3])), 5))
            } else {
                Err(PackError::Short)
            }
        } else if tag == 1 {
            match varint_dec(b) {
                None => Err(PackError::Invalid),
                Some((v, k)) => Ok((ValueModel::V32(v as u32), 1 + k)),
            }
        } else if tag == 2 {
            if b.len() >= 4 {
                Ok((ValueModel::I32(u32_of_be(b[0], b[1], b[2], b[3]) as i32), 5))
            } else {
                Err(PackError::Short)
            }
        } else if tag == 3 {
            match varint_dec(b) {
                None => Err(PackError::Invalid),
                Some((v, k)) => Ok((ValueModel::Z32(unzigzag32(v as u32)), 1 + k)),
            }
        } else if tag == 4 {
            if b.len() >= 8 {
                Ok((
                    ValueModel::U64(u64_of_be(b[0], b[1], b[2], b[3], b[4], b[5], b[6], b[7])),
                    9,
                ))
            } else {
                Err(PackError::Short)
            }
        } else if tag == 5 {
            match varint_dec(b) {
                None => Err(PackError::Invalid),
                Some((v, k)) => Ok((ValueModel::V64(v), 1 + k)),
            }
        } else if tag == 6 {
            if b.len() >= 8 {
                Ok((
                    ValueModel::I64(
                        u64_of_be(b[0], b[1], b[2], b[3], b[4], b[5], b[6], b[7]) as i64,
                    ),
                    9,
                ))
            } else {
                Err(PackError::Short)
            }
        } else if tag == 7 {
            match varint_dec(b) {
                None => Err(PackError::Invalid),
                Some((v, k)) => Ok((ValueModel::Z64(unzigzag64(v)), 1 + k)),
            }
        } else if tag == 8 {
            if b.len() >= 4 {
                Ok((ValueModel::F32(u32_of_be(b[0], b[1], b[2], b[3])), 5))
            } else {
                Err(PackError::Short)
            }
        } else if tag == 9 {
            if b.len() >= 8 {
                Ok((
                    ValueModel::F64(u64_of_be(b[0], b[1], b[2], b[3], b[4], b[5], b[6], b[7])),
                    9,
                ))
            } else {
                Err(PackError::Short)
            }
        } else if tag == 10 {
            if b.len() >= 12 {
                Ok((
                    ValueModel::DateTime(
                        DateTime {
                            secs: u64_of_be(
                                b[0], b[1], b[2], b[3], b[4], b[5], b[6], b[7],
                            ) as i64,
                            nanos: u32_of_be(b[8], b[9], b[10], b[11]),
                        },
                    ),
                    13,
                ))
            } else {
                Err(PackError::Short)
            }
        } else if tag == 11 {
            if b.len() >= 12 {
                Ok((
                    ValueModel::Duration(
                        Duration {
                            secs: u64_of_be(b[0], b[1], b[2], b[3], b[4], b[5], b[6], b[7]),
                            nanos: u32_of_be(b[8], b[9], b[10], b[11]),
                        },
                    ),
                    13,
                ))
            } else {
                Err(PackError::Short)
            }
        } else if tag == 12 {
            match varint_dec(b) {
                None => Err(PackError::Invalid),
                Some((len, k)) => if k + len <= b.len() {
                    let bytes = b.subrange(k as int, (k + len) as int);
                    if valid_utf8(bytes) {
                        Ok((ValueModel::String(decode_utf8(bytes)), (1 + k + len) as nat))
                    } else {
                        Err(PackError::Invalid)
                    }
                } else {
                    Err(PackError::Short)
                },
            }
        } else if tag == 13 {
            match varint_dec(b) {
                None => Err(PackError::Invalid),
                Some((len, k)) => if k + len <= b.len() {
                    Ok((ValueModel::Bytes(b.subrange(k as int, (k + len) as int)), (1 + k + len) as nat))
                } else {
                    Err(PackError::Short)
                },
            }
        } else if tag == 14 {
            Ok((ValueModel::True, 1))
        } else if tag == 15 {
            Ok((ValueModel::False, 1))
        } else if tag == 16 {
            Ok((ValueModel::Null, 1))
        } else if tag == 17 {
            Ok((ValueModel::Okay, 1))
        } else if tag == 18 {
            match varint_dec(b) {
                None => Err(PackError::Invalid),
                Some((len, k)) => if k + len <= b.len() {
                    let bytes = b.subrange(k as int, (k + len) as int);
                    if valid_utf8(bytes) {
                        Ok((ValueModel::Error(decode_utf8(bytes)), (1 + k + len) as nat))
                    } else {
                        Err(PackError::Invalid)
                    }
                } else {
                    Err(PackError::Short)
                },
            }
        } else {
            Err(PackError::UnknownTag)
        }
    }
}

/// Relies on String::from_utf8: it succeeds exactly on valid UTF-8 and
/// the string's bytes are the input bytes.
#[verifier::external_body]
fn string_from_utf8(v: Vec<u8>) -> (r: Option<String>)
    ensures
        r matches Some(s) ==> encode_utf8(s@) == v@,
        r is None ==> !valid_utf8(v@),
{
    String::from_utf8(v).ok()
}

impl Value {
    /// Append the wire form of this value to `buf`.
    pub fn encode(&self, buf: &mut Vec<u8>)
        ensures
            final(buf)@ == old(buf)@ + spec_encode_value(self@),
    {
        match self {
            Value::U32(v) => {
                buf.push(0);
                put_u32_be(*v, buf);
            }
            Value::V32(v) => {
                buf.push(1);
                encode_varint(*v as u64, buf);
            }
            Value::I32(v) => {
                buf.push(2);
                put_u32_be(*v as u32, buf);
            }
            Value::Z32(v) => {
                buf.push(3);
                encode_varint(i32_zz(*v) as u64, buf);
            }
            Value::U64(v) => {
                buf.push(4);
                put_u64_be(*v, buf);
            }
            Value::V64(v) => {
                buf.push(5);
                encode_varint(*v, buf);
            }
            Value::I64(v) => {
                buf.push(6);
                put_u64_be(*v as u64, buf);
            }
            Value::Z64(v) => {
                buf.push(7);
                encode_varint(i64_zz(*v), buf);
            }
            Value::F32(bits) => {
                buf.push(8);
                put_u32_be(*bits, buf);
            }
            Value::F64(bits) => {
                buf.push(9);
                put_u64_be(*bits, buf);
            }
            Value::DateTime(d) => {
                buf.push(10);
                put_u64_be(d.secs as u64, buf);
                put_u32_be(d.nanos, buf);
            }
            Value::Duration(d) => {
                buf.push(11);
                put_u64_be(d.secs, buf);
                put_u32_be(d.nanos, buf);
            }
            Value::String(s) => {
                buf.push(12);
                let bs = s.as_str().as_bytes();
                encode_varint(bs.len() as u64, buf);
                buf.extend_from_slice(bs);
            }
            Value::Bytes(b) => {
                buf.push(13);
                encode_varint(b.len() as u64, buf);
                buf.extend_from_slice(b.as_slice());
            }
            Value::True => {
                buf.push(14);
            }
            Value::False => {
                buf.push(15);
            }
            Value::Null => {
                buf.push(16);
            }
            Value::Okay => {
                buf.push(17);
            }
            Value::Error(s) => {
                buf.push(18);
                let bs = s.as_str().as_bytes();
                encode_varint(bs.len() as u64, buf);
                buf.extend_from_slice(bs);
            }
        }
        proof {
            assert(buf@ =~= old(buf)@ + spec_encode_value(self@));
        }
    }
}

impl Value {
    /// How many bytes [`Value::encode`] will append, where that count
    /// fits the machine.
    pub fn encoded_len(&self) -> (r: Option<usize>)
        ensures
            r matches Some(l) ==> l == spec_encode_value(self@).len(),
            r is None ==> spec_encode_value(self@).len() > usize::MAX,
    {
        proof {
            crate::pack::lemma_varint_enc_len(0);
        }
        match self {
            Value::U32(_) => Some(5),
            Value::V32(v) => Some(1 + varint_len(*v as u64)),
            Value::I32(_) => Some(5),
            Value::Z32(v) => Some(1 + varint_len(i32_zz(*v) as u64)),
            Value::U64(_) => Some(9),
            Value::V64(v) => Some(1 + varint_len(*v)),
            Value::I64(_) => Some(9),
            Value::Z64(v) => Some(1 + varint_len(i64_zz(*v))),
            Value::F32(_) => Some(5),
            Value::F64(_) => Some(9),
            Value::DateTime(_) => Some(13),
            Value::Duration(_) => Some(13),
            Value::String(s) => {
                let bl = s.as_str().as_bytes().len();
                proof {
                    crate::pack::lemma_varint_enc_len(bl as u64);
                }
                bl.checked_add(1 + varint_len(bl as u64))
            }
            Value::Bytes(b) => {
                let bl = b.len();
                proof {
                    crate::pack::lemma_varint_enc_len(bl as u64);
                }
                bl.checked_add(1 + varint_len(bl as u64))
            }
            Value::True => Some(1),
            Value::False => Some(1),
            Value::Null => Some(1),
            Value::Okay => Some(1),
            Value::Error(s) => {
                let bl = s.as_str().as_bytes().len();
                proof {
                    crate::pack::lemma_varint_enc_len(bl as u64);
                }
                bl.checked_add(1 + varint_len(bl as u64))
            }
        }
    }

    /// Decode one value at `pos`, returning it and the position just past
    /// its encoding.
    #[verifier::rlimit(100)]
    pub fn decode(buf: &[u8], pos: usize) -> (r: Result<(Value, usize), PackError>)
        requires
            pos <= buf@.len(),
        ensures
            r matches Ok(p) ==> pos < p.1 <= buf@.len() && spec_decode_value(
                buf@.skip(pos as int),
            ) == Ok::<(ValueModel, nat), PackError>((p.0@, (p.1 - pos) as nat)),
            r matches Err(e) ==> spec_decode_value(buf@.skip(pos as int)) == Err::<
                (ValueModel, nat),
                PackError,
            >(e),
    {
        broadcast use vstd::utf8::encode_utf8_valid_utf8, vstd::utf8::encode_utf8_decode_utf8;

        let n = buf.len();
        if pos == n {
            return Err(PackError::Short);
        }
        let tag = *vstd::slice::slice_index_get(buf, pos);
        let ghost s = buf@.skip(pos as int);
        let ghost b = s.skip(1);
        proof {
            assert(b =~= buf@.skip(pos as int + 1));
        }
        let bp = pos + 1;
        if tag == 0 {
            if n - bp >= 4 {
                Ok((Value::U32(get_u32_be(buf, bp)), bp + 4))
            } else {
                Err(PackError::Short)
            }
        } else if tag == 1 {
            match decode_varint(buf, bp) {
                None => Err(PackError::Invalid),
                Some((v, np)) => Ok((Value::V32(v as u32), np)),
            }
        } else if tag == 2 {
            if n - bp >= 4 {
                Ok((Value::I32(get_u32_be(buf, bp) as i32), bp + 4))
            } else {
                Err(PackError::Short)
            }
        } else if tag == 3 {
            match decode_varint(buf, bp) {
                None => Err(PackError::Invalid),
                Some((v, np)) => Ok((Value::Z32(i32_uzz(v as u32)), np)),
            }
        } else if tag == 4 {
            if n - bp >= 8 {
                Ok((Value::U64(get_u64_be(buf, bp)), bp + 8))
            } else {
                Err(PackError::Short)
            }
        } else if tag == 5 {
            match decode_varint(buf, bp) {
                None => Err(PackError::Invalid),
                Some((v, np)) => Ok((Value::V64(v), np)),
            }
        } else if tag == 6 {
            if n - bp >= 8 {
                Ok((Value::I64(get_u64_be(buf, bp) as i64), bp + 8))
            } else {
                Err(PackError::Short)
            }
        } else if tag == 7 {
            match decode_varint(buf, bp) {
                None => Err(PackError::Invalid),
                Some((v, np)) => Ok((Value::Z64(i64_uzz(v)), np)),
            }
        } else if tag == 8 {
            if n - bp >= 4 {
                Ok((Value::F32(get_u32_be(buf, bp)), bp + 4))
            } else {
                Err(PackError::Short)
            }
        } else if tag == 9 {
            if n - bp >= 8 {
                Ok((Value::F64(get_u64_be(buf, bp)), bp + 8))
            } else {
                Err(PackError::Short)
            }
        } else if tag == 10 {
            if n - bp >= 12 {
                let secs = get_u64_be(buf, bp) as i64;
                let nanos = get_u32_be(buf, bp + 8);
                Ok((Value::DateTime(DateTime { secs, nanos }), bp + 12))
            } else {
                Err(PackError::Short)
            }
        } else if tag == 11 {
            if n - bp >= 12 {
                let secs = get_u64_be(buf, bp);
                let nanos = get_u32_be(buf, bp + 8);
                Ok((Value::Duration(Duration { secs, nanos }), bp + 12))
            } else {
                Err(PackError::Short)
            }
        } else if tag == 12 {
            match decode_varint(buf, bp) {
                None => Err(PackError::Invalid),
                Some((len64, np)) => {
                    if len64 > (n - np) as u64 {
                        Err(PackError::Short)
                    } else {
                        let len = len64 as usize;
                        let sl = vstd::slice::slice_subrange(buf, np, np + len);
                        let bytes = vstd::slice::slice_to_vec(sl);
                        proof {
                            assert(b.subrange(
                                (np - bp) as int,
                                (np - bp) as int + len as int,
                            ) =~= bytes@);
                        }
                        match string_from_utf8(bytes) {
                            Some(st) => {
                                proof {
                                    vstd::utf8::encode_utf8_decode_utf8(st@);
                                }
                                Ok((Value::String(st), np + len))
                            }
                            None => Err(PackError::Invalid),
                        }
                    }
                }
            }
        } else if tag == 13 {
            match decode_varint(buf, bp) {
                None => Err(PackError::Invalid),
                Some((len64, np)) => {
                    if len64 > (n - np) as u64 {
                        Err(PackError::Short)
                    } else {
                        let len = len64 as usize;
                        let sl = vstd::slice::slice_subrange(buf, np, np + len);
                        let bytes = vstd::slice::slice_to_vec(sl);
                        proof {
                            assert(b.subrange(
                                (np - bp) as int,
                                (np - bp) as int + len as int,
                            ) =~= bytes@);
                        }
                        Ok((Value::Bytes(bytes), np + len))
                    }
                }
            }
        } else if tag == 14 {
            Ok((Value::True, bp))
        } else if tag == 15 {
            Ok((Value::False, bp))
        } else if tag == 16 {
            Ok((Value::Null, bp))
        } else if tag == 17 {
            Ok((Value::Okay, bp))
        } else if tag == 18 {
            match decode_varint(buf, bp) {
                None => Err(PackError::Invalid),
                Some((len64, np)) => {
                    if len64 > (n - np) as u64 {
                        Err(PackError::Short)
                    } else {
                        let len = len64 as usize;
                        let sl = vstd::slice::slice_subrange(buf, np, np + len);
                        let bytes = vstd::slice::slice_to_vec(sl);
                        proof {
                            assert(b.subrange(
                                (np - bp) as int,
                                (np - bp) as int + len as int,
                            ) =~= bytes@);
                        }
                        match string_from_utf8(bytes) {
                            Some(st) => {
                                proof {
                                    vstd::utf8::encode_utf8_decode_utf8(st@);
                                }
                                Ok((Value::Error(st), np + len))
                            }
                            None => Err(PackError::Invalid),
                        }
                    }
                }
            }
        } else {
            Err(PackError::UnknownTag)
        }
    }
}

/// The frame round trip: decoding the encoding of any value, whatever
/// bytes follow it, gives the value back and consumes exactly its
/// encoding.
pub proof fn lemma_value_roundtrip(m: ValueModel, rest: Seq<u8>)
    requires
        encodable(m),
    ensures
        spec_decode_value(spec_encode_value(m) + rest) == Ok::<(ValueModel, nat), PackError>(
            (m, spec_encode_value(m).len()),
        ),
{
    match m {
        ValueModel::U32(_) | ValueModel::I32(_) | ValueModel::F32(_) | ValueModel::U64(_)
            | ValueModel::I64(_) | ValueModel::F64(_) | ValueModel::DateTime(_)
            | ValueModel::Duration(_) => lemma_rt_fixed(m, rest),
        ValueModel::V32(_) | ValueModel::Z32(_) | ValueModel::V64(_)
            | ValueModel::Z64(_) => lemma_rt_varint(m, rest),
        ValueModel::String(_) | ValueModel::Bytes(_) | ValueModel::Error(_) => lemma_rt_payload(
            m,
            rest,
        ),
        ValueModel::True | ValueModel::False | ValueModel::Null
            | ValueModel::Okay => lemma_rt_bare(m, rest),
    }
}

#[verifier::rlimit(100)]
#[verifier::spinoff_prover]
proof fn lemma_rt_fixed(m: ValueModel, rest: Seq<u8>)
    requires
        m matches ValueModel::U32(_) || m matches ValueModel::I32(_) || m matches
            ValueModel::F32(_) || m matches ValueModel::U64(_) || m matches
            ValueModel::I64(_) || m matches ValueModel::F64(_) || m matches
            ValueModel::DateTime(_) || m matches ValueModel::Duration(_),
    ensures
        spec_decode_value(spec_encode_value(m) + rest) == Ok::<(ValueModel, nat), PackError>(
            (m, spec_encode_value(m).len()),
        ),
{
    let e = spec_encode_value(m);
    let s = e + rest;
    let b = s.skip(1);
    match m {
        ValueModel::U32(v) => {
            assert(b =~= be4(v) + rest);
            crate::pack::lemma_be4_roundtrip(v);
        }
        ValueModel::I32(v) => {
            assert(b =~= be4(v as u32) + rest);
            crate::pack::lemma_be4_roundtrip(v as u32);
            assert((v as u32) as i32 == v) by (bit_vector);
        }
        ValueModel::U64(v) => {
            assert(b =~= be8(v) + rest);
            crate::pack::lemma_be8_roundtrip(v);
        }
        ValueModel::I64(v) => {
            assert(b =~= be8(v as u64) + rest);
            crate::pack::lemma_be8_roundtrip(v as u64);
            assert((v as u64) as i64 == v) by (bit_vector);
        }
        ValueModel::F32(bits) => {
            assert(b =~= be4(bits) + rest);
            crate::pack::lemma_be4_roundtrip(bits);
        }
        ValueModel::F64(bits) => {
            assert(b =~= be8(bits) + rest);
            crate::pack::lemma_be8_roundtrip(bits);
        }
        ValueModel::DateTime(d) => {
            assert(b =~= be8(d.secs as u64) + (be4(d.nanos) + rest));
            crate::pack::lemma_be8_roundtrip(d.secs as u64);
            crate::pack::lemma_be4_roundtrip(d.nanos);
            let sv = d.secs;
            assert((sv as u64) as i64 == sv) by (bit_vector);
            assert(b[8] == be4(d.nanos)[0]);
            assert(b[9] == be4(d.nanos)[1]);
            assert(b[10] == be4(d.nanos)[2]);
            assert(b[11] == be4(d.nanos)[3]);
        }
        ValueModel::Duration(d) => {
            assert(b =~= be8(d.secs) + (be4(d.nanos) + rest));
            crate::pack::lemma_be8_roundtrip(d.secs);
            crate::pack::lemma_be4_roundtrip(d.nanos);
            assert(b[8] == be4(d.nanos)[0]);
            assert(b[9] == be4(d.nanos)[1]);
            assert(b[10] == be4(d.nanos)[2]);
            assert(b[11] == be4(d.nanos)[3]);
        }
        _ => {}
    }
}

#[verifier::rlimit(100)]
#[verifier::spinoff_prover]
proof fn lemma_rt_varint(m: ValueModel, rest: Seq<u8>)
    requires
        m matches ValueModel::V32(_) || m matches ValueModel::Z32(_) || m matches
            ValueModel::V64(_) || m matches ValueModel::Z64(_),
    ensures
        spec_decode_value(spec_encode_value(m) + rest) == Ok::<(ValueModel, nat), PackError>(
            (m, spec_encode_value(m).len()),
        ),
{
    let e = spec_encode_value(m);
    let s = e + rest;
    let b = s.skip(1);
    match m {
        ValueModel::V32(v) => {
            assert(b =~= varint_enc(v as u64) + rest);
            crate::pack::lemma_varint_roundtrip(v as u64, rest);
        }
        ValueModel::Z32(v) => {
            assert(b =~= varint_enc(zigzag32(v) as u64) + rest);
            crate::pack::lemma_varint_roundtrip(zigzag32(v) as u64, rest);
            crate::pack::lemma_zigzag32_roundtrip(v);
        }
        ValueModel::V64(v) => {
            assert(b =~= varint_enc(v) + rest);
            crate::pack::lemma_varint_roundtrip(v, rest);
        }
        ValueModel::Z64(v) => {
            assert(b =~= varint_enc(zigzag64(v)) + rest);
            crate::pack::lemma_varint_roundtrip(zigzag64(v), rest);
            crate::pack::lemma_zigzag64_roundtrip(v);
        }
        _ => {}
    }
}

#[verifier::rlimit(100)]
#[verifier::spinoff_prover]
proof fn lemma_rt_payload(m: ValueModel, rest: Seq<u8>)
    requires
        encodable(m),
        m matches ValueModel::String(_) || m matches ValueModel::Bytes(_) || m matches
            ValueModel::Error(_),
    ensures
        spec_decode_value(spec_encode_value(m) + rest) == Ok::<(ValueModel, nat), PackError>(
            (m, spec_encode_value(m).len()),
        ),
{
    let e = spec_encode_value(m);
    let s = e + rest;
    let b = s.skip(1);
    match m {
        ValueModel::String(str0) => {
            let u = encode_utf8(str0);
            let ln = u.len() as u64;
            assert(b =~= varint_enc(ln) + (u + rest));
            crate::pack::lemma_varint_roundtrip(ln, u + rest);
            let k = varint_enc(ln).len();
            assert(b.subrange(k as int, k + ln) =~= u);
            vstd::utf8::encode_utf8_valid_utf8(str0);
            vstd::utf8::encode_utf8_decode_utf8(str0);
        }
        ValueModel::Bytes(p) => {
            let ln = p.len() as u64;
            assert(b =~= varint_enc(ln) + (p + rest));
            crate::pack::lemma_varint_roundtrip(ln, p + rest);
            let k = varint_enc(ln).len();
            assert(b.subrange(k as int, k + ln) =~= p);
        }
        ValueModel::Error(str0) => {
            let u = encode_utf8(str0);
            let ln = u.len() as u64;
            assert(b =~= varint_enc(ln) + (u + rest));
            crate::pack::lemma_varint_roundtrip(ln, u + rest);
            let k = varint_enc(ln).len();
            assert(b.subrange(k as int, k + ln) =~= u);
            vstd::utf8::encode_utf8_valid_utf8(str0);
            vstd::utf8::encode_utf8_decode_utf8(str0);
        }
        _ => {}
    }
}

#[verifier::spinoff_prover]
proof fn lemma_rt_bare(m: ValueModel, rest: Seq<u8>)
    requires
        m matches ValueModel::True || m matches ValueModel::False || m matches
            ValueModel::Null || m matches ValueModel::Okay,
    ensures
        spec_decode_value(spec_encode_value(m) + rest) == Ok::<(ValueModel, nat), PackError>(
            (m, spec_encode_value(m).len()),
        ),
{
}

} // verus!
