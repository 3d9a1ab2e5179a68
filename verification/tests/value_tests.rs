use netidx::convert::FromValue;
use netidx::value::{DateTime, Duration, Typ, Value};

#[test]
fn typ_get_and_name() {
    assert_eq!(Typ::get(&Value::U32(1)), Some(Typ::U32));
    assert_eq!(Typ::get(&Value::Null), None);
    assert_eq!(Typ::get(&Value::True), Some(Typ::Bool));
    assert_eq!(Typ::get(&Value::Okay), Some(Typ::Result));
    assert_eq!(Typ::get(&Value::Error(String::from("x"))), Some(Typ::Result));
    assert_eq!(Typ::U32.name(), "u32");
    assert_eq!(Typ::DateTime.name(), "datetime");
    assert_eq!(Typ::all().len(), 16);
    assert_eq!(Typ::from_str("z64"), Some(Typ::Z64));
    assert_eq!(Typ::from_str("qqq"), None);
}

#[test]
fn is_number_splits_kinds() {
    assert!(Value::U32(0).is_number());
    assert!(Value::F64(0).is_number());
    assert!(!Value::True.is_number());
    assert!(!Value::String(String::from("5")).is_number());
}

#[test]
fn value_arithmetic() {
    // S5: mixed-width addition normalizes to the left kind
    assert_eq!(Value::U32(5).add(&Value::V32(3)), Value::U32(8));
    let t = DateTime { secs: 100, nanos: 0 };
    let one = Duration { secs: 1, nanos: 0 };
    assert_eq!(
        Value::DateTime(t).add(&Value::Duration(one)),
        Value::DateTime(DateTime { secs: 101, nanos: 0 })
    );
    match Value::U32(1).sub(&Value::U32(2)) {
        Value::Error(e) => assert_eq!(e, "can't sub u32 and u32"),
        v => panic!("expected an error value, got {:?}", v),
    }
    match Value::Bytes(vec![1]).add(&Value::U32(0)) {
        Value::Error(e) => assert_eq!(e, "can't add bytes and u32"),
        v => panic!("expected an error value, got {:?}", v),
    }
}

#[test]
fn arithmetic_edges() {
    // overflow and division by zero become error values, never faults
    assert!(matches!(Value::U32(u32::MAX).add(&Value::U32(1)), Value::Error(_)));
    assert!(matches!(Value::U32(1).div(&Value::U32(0)), Value::Error(_)));
    assert_eq!(Value::I32(-7).div(&Value::I32(2)), Value::I32(-3));
    assert_eq!(Value::U32(7).div(&Value::V32(2)), Value::U32(3));
    let d = Duration { secs: 1, nanos: 500_000_000 };
    assert_eq!(
        Value::Duration(d).mul(&Value::U32(3)),
        Value::Duration(Duration { secs: 4, nanos: 500_000_000 })
    );
    assert_eq!(
        Value::Duration(d).div(&Value::U32(2)),
        Value::Duration(Duration { secs: 0, nanos: 750_000_000 })
    );
    let dt = DateTime { secs: 0, nanos: 100 };
    let big = Duration { secs: 1, nanos: 999_999_950 };
    assert_eq!(
        Value::DateTime(dt).add(&Value::Duration(big)),
        Value::DateTime(DateTime { secs: 2, nanos: 50 })
    );
    assert_eq!(Value::True.not(), Value::False);
    assert_eq!(Value::Null.not(), Value::Null);
    assert!(matches!(Value::U32(1).not(), Value::Error(_)));
}

#[test]
fn cast_null() {
    // S6: Null casts only to the boolean false and the ok result
    assert_eq!(Value::Null.cast(Typ::Bool), Some(Value::False));
    assert_eq!(Value::Null.cast(Typ::Result), Some(Value::Okay));
    assert_eq!(Value::Null.cast(Typ::U32), None);
    assert_eq!(
        Value::Null.cast(Typ::String),
        Some(Value::String(String::from("null")))
    );
}

#[test]
fn cast_idempotent_on_samples() {
    let samples = vec![
        Value::U32(7),
        Value::V32(7),
        Value::I32(-7),
        Value::Z32(-7),
        Value::U64(7),
        Value::V64(7),
        Value::I64(-7),
        Value::Z64(-7),
        Value::F32(0x3F80_0000),
        Value::F64(0x3FF0_0000_0000_0000),
        Value::DateTime(DateTime { secs: 5, nanos: 1 }),
        Value::Duration(Duration { secs: 5, nanos: 1 }),
        Value::String(String::from("hey")),
        Value::Bytes(vec![1, 2, 3]),
        Value::True,
        Value::False,
        Value::Okay,
        Value::Error(String::from("nope")),
    ];
    for v in samples {
        let t = Typ::get(&v).unwrap();
        assert_eq!(v.clone().cast(t), Some(v));
    }
}

#[test]
fn cast_lattice_samples() {
    assert_eq!(Value::True.cast(Typ::U64), Some(Value::U64(1)));
    assert_eq!(Value::I64(-1).cast(Typ::U32), Some(Value::U32(u32::MAX)));
    assert_eq!(
        Value::U32(9).cast(Typ::Duration),
        Some(Value::Duration(Duration { secs: 9, nanos: 0 }))
    );
    assert_eq!(
        Value::I32(-9).cast(Typ::Duration),
        Some(Value::Duration(Duration { secs: 9, nanos: 0 }))
    );
    assert_eq!(
        Value::U32(9).cast(Typ::DateTime),
        Some(Value::DateTime(DateTime { secs: 9, nanos: 0 }))
    );
    assert_eq!(Value::Bytes(vec![1]).cast(Typ::U32), None);
    assert_eq!(Value::Bytes(vec![1]).cast(Typ::Bytes), Some(Value::Bytes(vec![1])));
    assert_eq!(Value::U32(0).cast(Typ::Bool), Some(Value::False));
    assert_eq!(Value::F32(0x3F80_0000).cast(Typ::Bool), Some(Value::True));
    assert_eq!(Value::F32(0x8000_0000).cast(Typ::Bool), Some(Value::False));
    assert_eq!(Value::Error(String::from("x")).cast(Typ::Bool), Some(Value::False));
    assert_eq!(Value::DateTime(DateTime { secs: 3, nanos: 0 }).cast(Typ::I64), Some(Value::I64(3)));
}

#[test]
fn parse_integers_and_bools() {
    assert_eq!(Typ::U32.parse("42"), Some(Value::U32(42)));
    assert_eq!(Typ::U32.parse("+42"), Some(Value::U32(42)));
    assert_eq!(Typ::U32.parse("4294967296"), None);
    assert_eq!(Typ::I64.parse("-9223372036854775808"), Some(Value::I64(i64::MIN)));
    assert_eq!(Typ::I32.parse("2147483648"), None);
    assert_eq!(Typ::U32.parse("4x2"), None);
    assert_eq!(Typ::U32.parse(""), None);
    assert_eq!(Typ::Bool.parse("  True "), Some(Value::True));
    assert_eq!(Typ::Bool.parse("false"), Some(Value::False));
    assert_eq!(Typ::Bool.parse("maybe"), None);
    assert_eq!(Typ::U32.parse("null"), Some(Value::Null));
    assert_eq!(Typ::Bool.parse("Null"), Some(Value::Null));
}

#[test]
fn parse_results_and_strings() {
    assert_eq!(Typ::Result.parse("ok"), Some(Value::Okay));
    assert_eq!(Typ::Result.parse(" Ok "), Some(Value::Okay));
    assert_eq!(Typ::Result.parse("error"), Some(Value::Error(String::new())));
    assert_eq!(
        Typ::Result.parse("error: out of beer"),
        Some(Value::Error(String::from("out of beer")))
    );
    assert_eq!(Typ::Result.parse("sideways"), None);
    assert_eq!(Typ::String.parse("anything"), Some(Value::String(String::from("anything"))));
}

#[test]
fn parse_durations() {
    assert_eq!(
        Typ::Duration.parse("1.5s"),
        Some(Value::Duration(Duration { secs: 1, nanos: 500_000_000 }))
    );
    assert_eq!(
        Typ::Duration.parse(" 12s "),
        Some(Value::Duration(Duration { secs: 12, nanos: 0 }))
    );
    assert_eq!(
        Typ::Duration.parse(".25s"),
        Some(Value::Duration(Duration { secs: 0, nanos: 250_000_000 }))
    );
    assert_eq!(Typ::Duration.parse("1.5"), None);
    assert_eq!(Typ::Duration.parse("s"), None);
    assert_eq!(Typ::Duration.parse("1.5ms"), None);
}

#[test]
fn parse_datetimes_via_chrono() {
    // the wrapper must hand back the instant the text denotes
    assert_eq!(
        Typ::DateTime.parse("1970-01-01T00:00:01Z"),
        Some(Value::DateTime(DateTime { secs: 1, nanos: 0 }))
    );
    assert_eq!(
        Typ::DateTime.parse("Thu, 01 Jan 1970 00:00:02 +0000"),
        Some(Value::DateTime(DateTime { secs: 2, nanos: 0 }))
    );
    assert_eq!(Typ::DateTime.parse("not a date"), None);
}

#[test]
fn parse_bytes_via_base64() {
    assert_eq!(Typ::Bytes.parse("AQID"), Some(Value::Bytes(vec![1, 2, 3])));
    assert_eq!(Typ::Bytes.parse("!!!"), None);
}

#[test]
fn text_forms() {
    assert_eq!(Value::U32(42).to_text(), Some(String::from("42")));
    assert_eq!(Value::I64(-5).to_text(), Some(String::from("-5")));
    assert_eq!(
        Value::Duration(Duration { secs: 1, nanos: 500_000_000 }).to_text(),
        Some(String::from("1.5s"))
    );
    assert_eq!(
        Value::Duration(Duration { secs: 3, nanos: 0 }).to_text(),
        Some(String::from("3s"))
    );
    assert_eq!(
        Value::Duration(Duration { secs: 0, nanos: 120 }).to_text(),
        Some(String::from("0.00000012s"))
    );
    assert_eq!(Value::True.to_text(), Some(String::from("true")));
    assert_eq!(Value::Okay.to_text(), Some(String::from("ok")));
    assert_eq!(Value::Bytes(vec![]).to_text(), None);
    // chrono prints the instant; parse of its RFC 3339 form round trips
    let dt = Value::DateTime(DateTime { secs: 1_000, nanos: 0 });
    let text = dt.to_text().unwrap();
    assert!(text.starts_with("1970-01-01 00:16:40"));
}

#[test]
fn format_then_parse_round_trips() {
    let samples = vec![
        Value::U32(42),
        Value::V32(0),
        Value::I32(-3),
        Value::Z64(i64::MIN),
        Value::U64(u64::MAX),
        Value::True,
        Value::False,
        Value::Okay,
        Value::Duration(Duration { secs: 2, nanos: 250_000_000 }),
        Value::String(String::from("keep me")),
    ];
    for v in samples {
        let t = Typ::get(&v).unwrap();
        let s = v.clone().cast(Typ::String).unwrap();
        assert_eq!(s.cast(t), Some(v));
    }
}

#[test]
fn conversions_to_plain_values() {
    assert_eq!(Value::V32(200).cast_to::<u8>(), Ok(200u8));
    assert!(Value::U32(300).cast_to::<u8>().is_err());
    assert_eq!(Value::String(String::from("17")).cast_to::<u32>(), Ok(17));
    assert_eq!(Value::True.cast_to::<u64>(), Ok(1));
    assert_eq!(Value::Null.cast_to::<bool>(), Ok(false));
    assert_eq!(Value::U32(5).get_as::<u64>(), Some(5));
    assert_eq!(Value::True.get_as::<u64>(), None);
    assert_eq!(u16::get(Value::U32(70000)), Some(70000u32 as u16));
    assert_eq!(
        Value::U32(9).cast_to::<Duration>(),
        Ok(Duration { secs: 9, nanos: 0 })
    );
    assert_eq!(
        DateTime::get(Value::DateTime(DateTime { secs: 1, nanos: 2 })),
        Some(DateTime { secs: 1, nanos: 2 })
    );
}
