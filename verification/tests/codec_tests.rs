use netidx::codec::PackError;
use netidx::pack::{decode_varint, encode_varint, i32_uzz, i32_zz, i64_uzz, i64_zz};
use netidx::channel::decode_batch;
use netidx::value::{DateTime, Duration, Value};

fn roundtrip(v: Value) {
    let mut buf: Vec<u8> = Vec::new();
    v.encode(&mut buf);
    assert_eq!(v.encoded_len(), Some(buf.len()));
    // whatever follows the encoding must not disturb the decode
    buf.push(0xAB);
    let (w, used) = Value::decode(&buf, 0).expect("decode");
    assert_eq!(w, v);
    assert_eq!(used, buf.len() - 1);
}

#[test]
fn value_roundtrip_every_kind() {
    roundtrip(Value::U32(0xDEAD_BEEF));
    roundtrip(Value::V32(0));
    roundtrip(Value::V32(u32::MAX));
    roundtrip(Value::I32(i32::MIN));
    roundtrip(Value::Z32(-1));
    roundtrip(Value::U64(u64::MAX));
    roundtrip(Value::V64(300));
    roundtrip(Value::I64(i64::MIN));
    roundtrip(Value::Z64(-1));
    roundtrip(Value::F32(0x4048_F5C3));
    roundtrip(Value::F64(0x4009_21FB_5444_2D18));
    roundtrip(Value::DateTime(DateTime { secs: -1, nanos: 5 }));
    roundtrip(Value::Duration(Duration { secs: 1, nanos: 500_000_000 }));
    roundtrip(Value::String(String::from("hello world")));
    roundtrip(Value::String(String::from("")));
    roundtrip(Value::String(String::from("snowman \u{2603} ok")));
    roundtrip(Value::Bytes(vec![0, 1, 2, 255]));
    roundtrip(Value::True);
    roundtrip(Value::False);
    roundtrip(Value::Null);
    roundtrip(Value::Okay);
    roundtrip(Value::Error(String::from("boom")));
}

#[test]
fn wire_tags_are_stable() {
    let mut buf: Vec<u8> = Vec::new();
    Value::U32(1).encode(&mut buf);
    assert_eq!(buf[0], 0);
    buf.clear();
    Value::Null.encode(&mut buf);
    assert_eq!(buf, vec![16]);
    buf.clear();
    Value::Okay.encode(&mut buf);
    assert_eq!(buf, vec![17]);
    buf.clear();
    Value::True.encode(&mut buf);
    assert_eq!(buf, vec![14]);
    buf.clear();
    Value::String(String::from("ab")).encode(&mut buf);
    assert_eq!(buf, vec![12, 2, b'a', b'b']);
}

#[test]
fn decode_rejects_bad_input() {
    assert_eq!(Value::decode(&[], 0), Err(PackError::Short));
    assert_eq!(Value::decode(&[63], 0), Err(PackError::UnknownTag));
    assert_eq!(Value::decode(&[0, 1, 2], 0), Err(PackError::Short));
    // a string whose length runs past the buffer
    assert_eq!(Value::decode(&[12, 10, b'a'], 0), Err(PackError::Short));
    // a string that is not UTF-8
    assert_eq!(Value::decode(&[12, 1, 0xFF], 0), Err(PackError::Invalid));
    // a varint that never terminates
    assert_eq!(Value::decode(&[1, 0x80, 0x80], 0), Err(PackError::Invalid));
}

#[test]
fn varint_binary_forms() {
    let mut buf: Vec<u8> = Vec::new();
    encode_varint(0, &mut buf);
    assert_eq!(buf, vec![0]);
    buf.clear();
    encode_varint(300, &mut buf);
    assert_eq!(buf, vec![0xAC, 0x02]);
    assert_eq!(decode_varint(&buf, 0), Some((300, 2)));
    buf.clear();
    encode_varint(u64::MAX, &mut buf);
    assert_eq!(buf.len(), 10);
    assert_eq!(decode_varint(&buf, 0), Some((u64::MAX, 10)));
    assert_eq!(decode_varint(&[0x80], 0), None);
}

#[test]
fn zigzag_forms() {
    assert_eq!(i32_zz(0), 0);
    assert_eq!(i32_zz(-1), 1);
    assert_eq!(i32_zz(1), 2);
    assert_eq!(i32_zz(i32::MIN), u32::MAX);
    assert_eq!(i32_uzz(u32::MAX), i32::MIN);
    assert_eq!(i64_zz(-2), 3);
    assert_eq!(i64_uzz(3), -2);
    for v in [0i64, 1, -1, 123456789, -987654321, i64::MIN, i64::MAX] {
        assert_eq!(i64_uzz(i64_zz(v)), v);
    }
}

#[test]
fn multibyte_text_length() {
    let v = Value::String(String::from("\u{2603}"));
    let mut buf: Vec<u8> = Vec::new();
    v.encode(&mut buf);
    // one tag byte, one length byte, three payload bytes of UTF-8
    assert_eq!(buf.len(), 5);
    assert_eq!(v.encoded_len(), Some(5));
}

#[test]
fn batch_decoding() {
    let mut buf: Vec<u8> = Vec::new();
    Value::U32(1).encode(&mut buf);
    Value::True.encode(&mut buf);
    Value::String(String::from("x")).encode(&mut buf);
    let vs = decode_batch(&buf).expect("batch");
    assert_eq!(
        vs,
        vec![Value::U32(1), Value::True, Value::String(String::from("x"))]
    );
    buf.push(63);
    assert_eq!(decode_batch(&buf), Err(PackError::UnknownTag));
}
