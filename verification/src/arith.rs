//! Value arithmetic: `add`, `sub`, `mul`, `div` and boolean `not` over
//! type-compatible pairs. A mismatched pair, an out-of-range result or a
//! zero divisor never raises an error: it becomes an `Error` value and
//! flows on as data. The float kinds carry bit patterns and no float
//! computation happens here, so a pair of floats yields an `Error` value
//! like any other pair this module cannot combine.

use vstd::prelude::*;
use vstd::string::*;
use crate::text::kind_text;
use crate::value::{DateTime, Duration, Value, ValueModel, NANOS_PER_SEC};

verus! {

/// The error a failed binary operation turns into.
pub open spec fn arith_err(op: Seq<char>, l: ValueModel, r: ValueModel) -> ValueModel {
    ValueModel::Error(
        "can't "@ + op + " "@ + kind_text(l) + " and "@ + kind_text(r),
    )
}

fn arith_err_value(op: &str, l: &Value, r: &Value) -> (e: Value)
    ensures
        e@ == arith_err(op@, l@, r@),
{
    proof {
        reveal_strlit("can't ");
        reveal_strlit(" ");
        reveal_strlit(" and ");
    }
    let mut s = String::from_str("can't ");
    s.append(op);
    s.append(" ");
    s.append(crate::text::kind_str(l));
    s.append(" and ");
    s.append(crate::text::kind_str(r));
    proof {
        assert(s@ =~= "can't "@ + op@ + " "@ + kind_text(l@) + " and "@ + kind_text(r@));
    }
    Value::Error(s)
}

/// A timestamp moved forward by a span, where the result stays in range.
pub open spec fn dt_plus(dt: DateTime, d: Duration) -> Option<DateTime> {
    let ns = dt.nanos + d.nanos;
    let carry: int = if ns >= NANOS_PER_SEC {
        1
    } else {
        0
    };
    let rem = ns - carry * NANOS_PER_SEC;
    if dt.secs + d.secs + carry <= i64::MAX {
        Some(DateTime { secs: (dt.secs + d.secs + carry) as i64, nanos: rem as u32 })
    } else {
        None
    }
}

/// A timestamp moved back by a span, where the result stays in range.
pub open spec fn dt_minus(dt: DateTime, d: Duration) -> Option<DateTime> {
    let borrow: int = if dt.nanos >= d.nanos {
        0
    } else {
        1
    };
    let rem = dt.nanos + borrow * NANOS_PER_SEC - d.nanos;
    if dt.secs - d.secs - borrow >= i64::MIN {
        Some(DateTime { secs: (dt.secs - d.secs - borrow) as i64, nanos: rem as u32 })
    } else {
        None
    }
}

/// The sum of two spans, where it stays in range.
pub open spec fn dur_plus(a: Duration, b: Duration) -> Option<Duration> {
    let ns = a.nanos + b.nanos;
    let carry: int = if ns >= NANOS_PER_SEC {
        1
    } else {
        0
    };
    let rem = ns - carry * NANOS_PER_SEC;
    if a.secs + b.secs + carry <= u64::MAX {
        Some(Duration { secs: (a.secs + b.secs + carry) as u64, nanos: rem as u32 })
    } else {
        None
    }
}

/// The difference of two spans, where the first is no shorter.
pub open spec fn dur_minus(a: Duration, b: Duration) -> Option<Duration> {
    let borrow: int = if a.nanos >= b.nanos {
        0
    } else {
        1
    };
    let rem = a.nanos + borrow * NANOS_PER_SEC - b.nanos;
    if a.secs - b.secs - borrow >= 0 {
        Some(Duration { secs: (a.secs - b.secs - borrow) as u64, nanos: rem as u32 })
    } else {
        None
    }
}

/// The total nanoseconds of a span.
pub open spec fn dur_total(d: Duration) -> int {
    d.secs * (NANOS_PER_SEC as int) + d.nanos
}

/// A span scaled up by a whole factor, where it stays in range.
pub open spec fn dur_mul(d: Duration, k: u32) -> Option<Duration> {
    let total = dur_total(d) * k;
    if total / (NANOS_PER_SEC as int) <= u64::MAX {
        Some(
            Duration {
                secs: (total / (NANOS_PER_SEC as int)) as u64,
                nanos: (total % (NANOS_PER_SEC as int)) as u32,
            },
        )
    } else {
        None
    }
}

/// A span divided by a whole divisor, rounding whole nanoseconds down.
pub open spec fn dur_div(d: Duration, k: u32) -> Option<Duration> {
    if k == 0 {
        None
    } else {
        let q = dur_total(d) / (k as int);
        Some(
            Duration {
                secs: (q / (NANOS_PER_SEC as int)) as u64,
                nanos: (q % (NANOS_PER_SEC as int)) as u32,
            },
        )
    }
}

/// What `add` returns for every pair of values.
pub open spec fn add_model(l: ValueModel, r: ValueModel) -> ValueModel {
    match (l, r) {
        (ValueModel::U32(a), ValueModel::U32(b)) => if a + b <= u32::MAX {
            ValueModel::U32((a + b) as u32)
        } else {
            arith_err("add"@, l, r)
        },
        (ValueModel::U32(a), ValueModel::V32(b)) => if a + b <= u32::MAX {
            ValueModel::U32((a + b) as u32)
        } else {
            arith_err("add"@, l, r)
        },
        (ValueModel::V32(a), ValueModel::V32(b)) => if a + b <= u32::MAX {
            ValueModel::V32((a + b) as u32)
        } else {
            arith_err("add"@, l, r)
        },
        (ValueModel::V32(a), ValueModel::U32(b)) => if a + b <= u32::MAX {
            ValueModel::U32((a + b) as u32)
        } else {
            arith_err("add"@, l, r)
        },
        (ValueModel::I32(a), ValueModel::I32(b)) => if i32::MIN <= a + b <= i32::MAX {
            ValueModel::I32((a + b) as i32)
        } else {
            arith_err("add"@, l, r)
        },
        (ValueModel::I32(a), ValueModel::Z32(b)) => if i32::MIN <= a + b <= i32::MAX {
            ValueModel::I32((a + b) as i32)
        } else {
            arith_err("add"@, l, r)
        },
        (ValueModel::Z32(a), ValueModel::Z32(b)) => if i32::MIN <= a + b <= i32::MAX {
            ValueModel::Z32((a + b) as i32)
        } else {
            arith_err("add"@, l, r)
        },
        (ValueModel::Z32(a), ValueModel::I32(b)) => if i32::MIN <= a + b <= i32::MAX {
            ValueModel::I32((a + b) as i32)
        } else {
            arith_err("add"@, l, r)
        },
        (ValueModel::U64(a), ValueModel::U64(b)) => if a + b <= u64::MAX {
            ValueModel::U64((a + b) as u64)
        } else {
            arith_err("add"@, l, r)
        },
        (ValueModel::U64(a), ValueModel::V64(b)) => if a + b <= u64::MAX {
            ValueModel::U64((a + b) as u64)
        } else {
            arith_err("add"@, l, r)
        },
        (ValueModel::V64(a), ValueModel::V64(b)) => if a + b <= u64::MAX {
            ValueModel::V64((a + b) as u64)
        } else {
            arith_err("add"@, l, r)
        },
        (ValueModel::I64(a), ValueModel::I64(b)) => if i64::MIN <= a + b <= i64::MAX {
            ValueModel::I64((a + b) as i64)
        } else {
            arith_err("add"@, l, r)
        },
        (ValueModel::I64(a), ValueModel::Z64(b)) => if i64::MIN <= a + b <= i64::MAX {
            ValueModel::I64((a + b) as i64)
        } else {
            arith_err("add"@, l, r)
        },
        (ValueModel::Z64(a), ValueModel::Z64(b)) => if i64::MIN <= a + b <= i64::MAX {
            ValueModel::Z64((a + b) as i64)
        } else {
            arith_err("add"@, l, r)
        },
        (ValueModel::Z64(a), ValueModel::I64(b)) => if i64::MIN <= a + b <= i64::MAX {
            ValueModel::I64((a + b) as i64)
        } else {
            arith_err("add"@, l, r)
        },
        (ValueModel::DateTime(dt), ValueModel::Duration(d)) => match dt_plus(dt, d) {
            Some(x) => ValueModel::DateTime(x),
            None => arith_err("add"@, l, r),
        },
        (ValueModel::Duration(a), ValueModel::Duration(b)) => match dur_plus(a, b) {
            Some(x) => ValueModel::Duration(x),
            None => arith_err("add"@, l, r),
        },
        _ => arith_err("add"@, l, r),
    }
}

/// What `sub` returns for every pair of values. An unsigned difference is
/// only defined while it stays in range.
pub open spec fn sub_model(l: ValueModel, r: ValueModel) -> ValueModel {
    match (l, r) {
        (ValueModel::U32(a), ValueModel::U32(b)) => if a >= b {
            ValueModel::U32((a - b) as u32)
        } else {
            arith_err("sub"@, l, r)
        },
        (ValueModel::U32(a), ValueModel::V32(b)) => if a >= b {
            ValueModel::U32((a - b) as u32)
        } else {
            arith_err("sub"@, l, r)
        },
        (ValueModel::V32(a), ValueModel::V32(b)) => if a >= b {
            ValueModel::V32((a - b) as u32)
        } else {
            arith_err("sub"@, l, r)
        },
        (ValueModel::V32(a), ValueModel::U32(b)) => if a >= b {
            ValueModel::U32((a - b) as u32)
        } else {
            arith_err("sub"@, l, r)
        },
        (ValueModel::I32(a), ValueModel::I32(b)) => if i32::MIN <= a - b <= i32::MAX {
            ValueModel::I32((a - b) as i32)
        } else {
            arith_err("sub"@, l, r)
        },
        (ValueModel::I32(a), ValueModel::Z32(b)) => if i32::MIN <= a - b <= i32::MAX {
            ValueModel::I32((a - b) as i32)
        } else {
            arith_err("sub"@, l, r)
        },
        (ValueModel::Z32(a), ValueModel::Z32(b)) => if i32::MIN <= a - b <= i32::MAX {
            ValueModel::Z32((a - b) as i32)
        } else {
            arith_err("sub"@, l, r)
        },
        (ValueModel::Z32(a), ValueModel::I32(b)) => if i32::MIN <= a - b <= i32::MAX {
            ValueModel::I32((a - b) as i32)
        } else {
            arith_err("sub"@, l, r)
        },
        (ValueModel::U64(a), ValueModel::U64(b)) => if a >= b {
            ValueModel::U64((a - b) as u64)
        } else {
            arith_err("sub"@, l, r)
        },
        (ValueModel::U64(a), ValueModel::V64(b)) => if a >= b {
            ValueModel::U64((a - b) as u64)
        } else {
            arith_err("sub"@, l, r)
        },
        (ValueModel::V64(a), ValueModel::V64(b)) => if a >= b {
            ValueModel::V64((a - b) as u64)
        } else {
            arith_err("sub"@, l, r)
        },
        (ValueModel::I64(a), ValueModel::I64(b)) => if i64::MIN <= a - b <= i64::MAX {
            ValueModel::I64((a - b) as i64)
        } else {
            arith_err("sub"@, l, r)
        },
        (ValueModel::I64(a), ValueModel::Z64(b)) => if i64::MIN <= a - b <= i64::MAX {
            ValueModel::I64((a - b) as i64)
        } else {
            arith_err("sub"@, l, r)
        },
        (ValueModel::Z64(a), ValueModel::Z64(b)) => if i64::MIN <= a - b <= i64::MAX {
            ValueModel::Z64((a - b) as i64)
        } else {
            arith_err("sub"@, l, r)
        },
        (ValueModel::Z64(a), ValueModel::I64(b)) => if i64::MIN <= a - b <= i64::MAX {
            ValueModel::I64((a - b) as i64)
        } else {
            arith_err("sub"@, l, r)
        },
        (ValueModel::DateTime(dt), ValueModel::Duration(d)) => match dt_minus(dt, d) {
            Some(x) => ValueModel::DateTime(x),
            None => arith_err("sub"@, l, r),
        },
        (ValueModel::Duration(a), ValueModel::Duration(b)) => match dur_minus(a, b) {
            Some(x) => ValueModel::Duration(x),
            None => arith_err("sub"@, l, r),
        },
        _ => arith_err("sub"@, l, r),
    }
}

/// What `mul` returns for every pair of values. A span times a whole
/// factor is commutative.
pub open spec fn mul_model(l: ValueModel, r: ValueModel) -> ValueModel {
    match (l, r) {
        (ValueModel::U32(a), ValueModel::U32(b)) => if a * b <= u32::MAX {
            ValueModel::U32((a * b) as u32)
        } else {
            arith_err("multiply"@, l, r)
        },
        (ValueModel::U32(a), ValueModel::V32(b)) => if a * b <= u32::MAX {
            ValueModel::U32((a * b) as u32)
        } else {
            arith_err("multiply"@, l, r)
        },
        (ValueModel::V32(a), ValueModel::V32(b)) => if a * b <= u32::MAX {
            ValueModel::V32((a * b) as u32)
        } else {
            arith_err("multiply"@, l, r)
        },
        (ValueModel::V32(a), ValueModel::U32(b)) => if a * b <= u32::MAX {
            ValueModel::U32((a * b) as u32)
        } else {
            arith_err("multiply"@, l, r)
        },
        (ValueModel::I32(a), ValueModel::I32(b)) => if i32::MIN <= a * b <= i32::MAX {
            ValueModel::I32((a * b) as i32)
        } else {
            arith_err("multiply"@, l, r)
        },
        (ValueModel::I32(a), ValueModel::Z32(b)) => if i32::MIN <= a * b <= i32::MAX {
            ValueModel::I32((a * b) as i32)
        } else {
            arith_err("multiply"@, l, r)
        },
        (ValueModel::Z32(a), ValueModel::Z32(b)) => if i32::MIN <= a * b <= i32::MAX {
            ValueModel::Z32((a * b) as i32)
        } else {
            arith_err("multiply"@, l, r)
        },
        (ValueModel::Z32(a), ValueModel::I32(b)) => if i32::MIN <= a * b <= i32::MAX {
            ValueModel::I32((a * b) as i32)
        } else {
            arith_err("multiply"@, l, r)
        },
        (ValueModel::U64(a), ValueModel::U64(b)) => if a * b <= u64::MAX {
            ValueModel::U64((a * b) as u64)
        } else {
            arith_err("multiply"@, l, r)
        },
        (ValueModel::U64(a), ValueModel::V64(b)) => if a * b <= u64::MAX {
            ValueModel::U64((a * b) as u64)
        } else {
            arith_err("multiply"@, l, r)
        },
        (ValueModel::V64(a), ValueModel::V64(b)) => if a * b <= u64::MAX {
            ValueModel::V64((a * b) as u64)
        } else {
            arith_err("multiply"@, l, r)
        },
        (ValueModel::I64(a), ValueModel::I64(b)) => if i64::MIN <= a * b <= i64::MAX {
            ValueModel::I64((a * b) as i64)
        } else {
            arith_err("multiply"@, l, r)
        },
        (ValueModel::I64(a), ValueModel::Z64(b)) => if i64::MIN <= a * b <= i64::MAX {
            ValueModel::I64((a * b) as i64)
        } else {
            arith_err("multiply"@, l, r)
        },
        (ValueModel::Z64(a), ValueModel::Z64(b)) => if i64::MIN <= a * b <= i64::MAX {
            ValueModel::Z64((a * b) as i64)
        } else {
            arith_err("multiply"@, l, r)
        },
        (ValueModel::Z64(a), ValueModel::I64(b)) => if i64::MIN <= a * b <= i64::MAX {
            ValueModel::I64((a * b) as i64)
        } else {
            arith_err("multiply"@, l, r)
        },
        (ValueModel::Duration(d), ValueModel::U32(k)) => match dur_mul(d, k) {
            Some(x) => ValueModel::Duration(x),
            None => arith_err("multiply"@, l, r),
        },
        (ValueModel::U32(k), ValueModel::Duration(d)) => match dur_mul(d, k) {
            Some(x) => ValueModel::Duration(x),
            None => arith_err("multiply"@, l, r),
        },
        (ValueModel::Duration(d), ValueModel::V32(k)) => match dur_mul(d, k) {
            Some(x) => ValueModel::Duration(x),
            None => arith_err("multiply"@, l, r),
        },
        (ValueModel::V32(k), ValueModel::Duration(d)) => match dur_mul(d, k) {
            Some(x) => ValueModel::Duration(x),
            None => arith_err("multiply"@, l, r),
        },
        _ => arith_err("multiply"@, l, r),
    }
}

/// Division as the machine rounds it: toward zero.
pub open spec fn trunc_div(a: int, b: int) -> int {
    if a >= 0 {
        a / b
    } else {
        -((-a) / b)
    }
}

/// What `div` returns for every pair of values. Division is defined only
/// for a positive divisor.
pub open spec fn div_model(l: ValueModel, r: ValueModel) -> ValueModel {
    match (l, r) {
        (ValueModel::U32(a), ValueModel::U32(b)) => if b > 0 {
            ValueModel::U32((a as int / b as int) as u32)
        } else {
            arith_err("divide"@, l, r)
        },
        (ValueModel::U32(a), ValueModel::V32(b)) => if b > 0 {
            ValueModel::U32((a as int / b as int) as u32)
        } else {
            arith_err("divide"@, l, r)
        },
        (ValueModel::V32(a), ValueModel::V32(b)) => if b > 0 {
            ValueModel::V32((a as int / b as int) as u32)
        } else {
            arith_err("divide"@, l, r)
        },
        (ValueModel::V32(a), ValueModel::U32(b)) => if b > 0 {
            ValueModel::U32((a as int / b as int) as u32)
        } else {
            arith_err("divide"@, l, r)
        },
        (ValueModel::I32(a), ValueModel::I32(b)) => if b > 0 {
            ValueModel::I32(trunc_div(a as int, b as int) as i32)
        } else {
            arith_err("divide"@, l, r)
        },
        (ValueModel::I32(a), ValueModel::Z32(b)) => if b > 0 {
            ValueModel::I32(trunc_div(a as int, b as int) as i32)
        } else {
            arith_err("divide"@, l, r)
        },
        (ValueModel::Z32(a), ValueModel::Z32(b)) => if b > 0 {
            ValueModel::Z32(trunc_div(a as int, b as int) as i32)
        } else {
            arith_err("divide"@, l, r)
        },
        (ValueModel::Z32(a), ValueModel::I32(b)) => if b > 0 {
            ValueModel::I32(trunc_div(a as int, b as int) as i32)
        } else {
            arith_err("divide"@, l, r)
        },
        (ValueModel::U64(a), ValueModel::U64(b)) => if b > 0 {
            ValueModel::U64((a as int / b as int) as u64)
        } else {
            arith_err("divide"@, l, r)
        },
        (ValueModel::U64(a), ValueModel::V64(b)) => if b > 0 {
            ValueModel::U64((a as int / b as int) as u64)
        } else {
            arith_err("divide"@, l, r)
        },
        (ValueModel::V64(a), ValueModel::V64(b)) => if b > 0 {
            ValueModel::V64((a as int / b as int) as u64)
        } else {
            arith_err("divide"@, l, r)
        },
        (ValueModel::I64(a), ValueModel::I64(b)) => if b > 0 {
            ValueModel::I64(trunc_div(a as int, b as int) as i64)
        } else {
            arith_err("divide"@, l, r)
        },
        (ValueModel::I64(a), ValueModel::Z64(b)) => if b > 0 {
            ValueModel::I64(trunc_div(a as int, b as int) as i64)
        } else {
            arith_err("divide"@, l, r)
        },
        (ValueModel::Z64(a), ValueModel::Z64(b)) => if b > 0 {
            ValueModel::Z64(trunc_div(a as int, b as int) as i64)
        } else {
            arith_err("divide"@, l, r)
        },
        (ValueModel::Z64(a), ValueModel::I64(b)) => if b > 0 {
            ValueModel::I64(trunc_div(a as int, b as int) as i64)
        } else {
            arith_err("divide"@, l, r)
        },
        (ValueModel::Duration(d), ValueModel::U32(k)) => match dur_div(d, k) {
            Some(x) => ValueModel::Duration(x),
            None => arith_err("divide"@, l, r),
        },
        (ValueModel::Duration(d), ValueModel::V32(k)) => match dur_div(d, k) {
            Some(x) => ValueModel::Duration(x),
            None => arith_err("divide"@, l, r),
        },
        _ => arith_err("divide"@, l, r),
    }
}

fn dt_plus_exec(dt: &DateTime, d: &Duration) -> (r: Option<DateTime>)
    requires
        dt.wf(),
        d.wf(),
    ensures
        r == dt_plus(*dt, *d),
        r matches Some(x) ==> x.wf(),
{
    let ns = dt.nanos + d.nanos;
    let carry: u64 = if ns >= NANOS_PER_SEC {
        1
    } else {
        0
    };
    let rem = if ns >= NANOS_PER_SEC {
        ns - NANOS_PER_SEC
    } else {
        ns
    };
    match dt.secs.checked_add_unsigned(d.secs) {
        None => None,
        Some(s1) => match s1.checked_add_unsigned(carry) {
            None => None,
            Some(s2) => Some(DateTime { secs: s2, nanos: rem }),
        },
    }
}

fn dt_minus_exec(dt: &DateTime, d: &Duration) -> (r: Option<DateTime>)
    requires
        dt.wf(),
        d.wf(),
    ensures
        r == dt_minus(*dt, *d),
        r matches Some(x) ==> x.wf(),
{
    let borrow: u64 = if dt.nanos >= d.nanos {
        0
    } else {
        1
    };
    let rem = if dt.nanos >= d.nanos {
        dt.nanos - d.nanos
    } else {
        dt.nanos + NANOS_PER_SEC - d.nanos
    };
    match dt.secs.checked_sub_unsigned(d.secs) {
        None => None,
        Some(s1) => match s1.checked_sub_unsigned(borrow) {
            None => None,
            Some(s2) => Some(DateTime { secs: s2, nanos: rem }),
        },
    }
}

fn dur_plus_exec(a: &Duration, b: &Duration) -> (r: Option<Duration>)
    requires
        a.wf(),
        b.wf(),
    ensures
        r == dur_plus(*a, *b),
        r matches Some(x) ==> x.wf(),
{
    let ns = a.nanos + b.nanos;
    let carry: u64 = if ns >= NANOS_PER_SEC {
        1
    } else {
        0
    };
    let rem = if ns >= NANOS_PER_SEC {
        ns - NANOS_PER_SEC
    } else {
        ns
    };
    match a.secs.checked_add(b.secs) {
        None => None,
        Some(s1) => match s1.checked_add(carry) {
            None => None,
            Some(s2) => Some(Duration { secs: s2, nanos: rem }),
        },
    }
}

fn dur_minus_exec(a: &Duration, b: &Duration) -> (r: Option<Duration>)
    requires
        a.wf(),
        b.wf(),
    ensures
        r == dur_minus(*a, *b),
        r matches Some(x) ==> x.wf(),
{
    let borrow: u64 = if a.nanos >= b.nanos {
        0
    } else {
        1
    };
    let rem = if a.nanos >= b.nanos {
        a.nanos - b.nanos
    } else {
        a.nanos + NANOS_PER_SEC - b.nanos
    };
    match a.secs.checked_sub(b.secs) {
        None => None,
        Some(s1) => match s1.checked_sub(borrow) {
            None => None,
            Some(s2) => Some(Duration { secs: s2, nanos: rem }),
        },
    }
}

fn dur_mul_exec(d: &Duration, k: u32) -> (r: Option<Duration>)
    requires
        d.wf(),
    ensures
        r == dur_mul(*d, k),
        r matches Some(x) ==> x.wf(),
{
    proof {
        assert((d.secs as int) * (NANOS_PER_SEC as int) + (d.nanos as int)
            <= (u64::MAX as int) * (NANOS_PER_SEC as int) + (NANOS_PER_SEC as int))
            by (nonlinear_arith)
            requires
                d.secs <= u64::MAX,
                d.nanos <= NANOS_PER_SEC,
        ;
    }
    let base: u128 = (d.secs as u128) * (NANOS_PER_SEC as u128) + (d.nanos as u128);
    proof {
        assert((base as int) * (k as int)
            <= ((u64::MAX as int) * (NANOS_PER_SEC as int) + (NANOS_PER_SEC as int))
            * (u32::MAX as int)) by (nonlinear_arith)
            requires
                base <= (u64::MAX as int) * (NANOS_PER_SEC as int)
                    + (NANOS_PER_SEC as int),
                k <= u32::MAX,
        ;
    }
    let total: u128 = base * (k as u128);
    proof {
        assert(total == dur_total(*d) * k) by (nonlinear_arith)
            requires
                total == ((d.secs as u128) * (NANOS_PER_SEC as u128)
                    + (d.nanos as u128)) * (k as u128),
                dur_total(*d) == d.secs * (NANOS_PER_SEC as int) + d.nanos,
        ;
    }
    let q = total / (NANOS_PER_SEC as u128);
    let rem = total % (NANOS_PER_SEC as u128);
    if q <= u64::MAX as u128 {
        Some(Duration { secs: q as u64, nanos: rem as u32 })
    } else {
        None
    }
}

fn dur_div_exec(d: &Duration, k: u32) -> (r: Option<Duration>)
    requires
        d.wf(),
    ensures
        r == dur_div(*d, k),
        r matches Some(x) ==> x.wf(),
{
    if k == 0 {
        return None;
    }
    proof {
        assert((d.secs as int) * (NANOS_PER_SEC as int) + (d.nanos as int)
            <= (u64::MAX as int) * (NANOS_PER_SEC as int) + (NANOS_PER_SEC as int))
            by (nonlinear_arith)
            requires
                d.secs <= u64::MAX,
                d.nanos <= NANOS_PER_SEC,
        ;
    }
    let total: u128 = (d.secs as u128) * (NANOS_PER_SEC as u128) + (d.nanos as u128);
    let q = total / (k as u128);
    let secs = q / (NANOS_PER_SEC as u128);
    let rem = q % (NANOS_PER_SEC as u128);
    proof {
        assert(secs <= u64::MAX) by (nonlinear_arith)
            requires
                q == total / (k as u128),
                secs == q / (NANOS_PER_SEC as u128),
                total == (d.secs as u128) * (NANOS_PER_SEC as u128) + (d.nanos as u128),
                d.secs <= u64::MAX,
                d.nanos < NANOS_PER_SEC,
                k >= 1,
                NANOS_PER_SEC == 1_000_000_000,
        ;
    }
    Some(Duration { secs: secs as u64, nanos: rem as u32 })
}

fn trunc_div_i64_exec(a: i64, b: i64) -> (r: i64)
    requires
        b > 0,
    ensures
        r == trunc_div(a as int, b as int),
        a >= 0 ==> 0 <= r <= a,
        a < 0 ==> a <= r <= 0,
{
    if a >= 0 {
        let q = (a as u64) / (b as u64);
        q as i64
    } else {
        let m: u64 = if a == i64::MIN {
            9223372036854775808u64
        } else {
            (-a) as u64
        };
        let q = m / (b as u64);
        if q == 9223372036854775808u64 {
            i64::MIN
        } else {
            -(q as i64)
        }
    }
}

/// What `not` returns: flipped booleans, `Null` unchanged, an `Error` for
/// everything else.
pub open spec fn not_model(m: ValueModel) -> ValueModel {
    match m {
        ValueModel::True => ValueModel::False,
        ValueModel::False => ValueModel::True,
        ValueModel::Null => ValueModel::Null,
        _ => ValueModel::Error("can't apply not to "@ + kind_text(m)),
    }
}

impl Value {
    /// Add two values, where the pair is type compatible and the result in
    /// range; otherwise an `Error` value.
    pub fn add(&self, rhs: &Value) -> (r: Value)
        requires
            self.wf(),
            rhs.wf(),
        ensures
            r@ == add_model(self@, rhs@),
            r.wf(),
    {
        proof {
            reveal_strlit("add");
        }
        match (self, rhs) {
            (Value::U32(a), Value::U32(b)) => match a.checked_add(*b) {
                Some(x) => Value::U32(x),
                None => arith_err_value("add", self, rhs),
            },
            (Value::U32(a), Value::V32(b)) => match a.checked_add(*b) {
                Some(x) => Value::U32(x),
                None => arith_err_value("add", self, rhs),
            },
            (Value::V32(a), Value::V32(b)) => match a.checked_add(*b) {
                Some(x) => Value::V32(x),
                None => arith_err_value("add", self, rhs),
            },
            (Value::V32(a), Value::U32(b)) => match a.checked_add(*b) {
                Some(x) => Value::U32(x),
                None => arith_err_value("add", self, rhs),
            },
            (Value::I32(a), Value::I32(b)) => match a.checked_add(*b) {
                Some(x) => Value::I32(x),
                None => arith_err_value("add", self, rhs),
            },
            (Value::I32(a), Value::Z32(b)) => match a.checked_add(*b) {
                Some(x) => Value::I32(x),
                None => arith_err_value("add", self, rhs),
            },
            (Value::Z32(a), Value::Z32(b)) => match a.checked_add(*b) {
                Some(x) => Value::Z32(x),
                None => arith_err_value("add", self, rhs),
            },
            (Value::Z32(a), Value::I32(b)) => match a.checked_add(*b) {
                Some(x) => Value::I32(x),
                None => arith_err_value("add", self, rhs),
            },
            (Value::U64(a), Value::U64(b)) => match a.checked_add(*b) {
                Some(x) => Value::U64(x),
                None => arith_err_value("add", self, rhs),
            },
            (Value::U64(a), Value::V64(b)) => match a.checked_add(*b) {
                Some(x) => Value::U64(x),
                None => arith_err_value("add", self, rhs),
            },
            (Value::V64(a), Value::V64(b)) => match a.checked_add(*b) {
                Some(x) => Value::V64(x),
                None => arith_err_value("add", self, rhs),
            },
            (Value::I64(a), Value::I64(b)) => match a.checked_add(*b) {
                Some(x) => Value::I64(x),
                None => arith_err_value("add", self, rhs),
            },
            (Value::I64(a), Value::Z64(b)) => match a.checked_add(*b) {
                Some(x) => Value::I64(x),
                None => arith_err_value("add", self, rhs),
            },
            (Value::Z64(a), Value::Z64(b)) => match a.checked_add(*b) {
                Some(x) => Value::Z64(x),
                None => arith_err_value("add", self, rhs),
            },
            (Value::Z64(a), Value::I64(b)) => match a.checked_add(*b) {
                Some(x) => Value::I64(x),
                None => arith_err_value("add", self, rhs),
            },
            (Value::DateTime(dt), Value::Duration(d)) => match dt_plus_exec(dt, d) {
                Some(x) => Value::DateTime(x),
                None => arith_err_value("add", self, rhs),
            },
            (Value::Duration(a), Value::Duration(b)) => match dur_plus_exec(a, b) {
                Some(x) => Value::Duration(x),
                None => arith_err_value("add", self, rhs),
            },
            _ => arith_err_value("add", self, rhs),
        }
    }

    /// Subtract two values; an unsigned difference below zero is an
    /// `Error` value.
    pub fn sub(&self, rhs: &Value) -> (r: Value)
        requires
            self.wf(),
            rhs.wf(),
        ensures
            r@ == sub_model(self@, rhs@),
            r.wf(),
    {
        proof {
            reveal_strlit("sub");
        }
        match (self, rhs) {
            (Value::U32(a), Value::U32(b)) => match a.checked_sub(*b) {
                Some(x) => Value::U32(x),
                None => arith_err_value("sub", self, rhs),
            },
            (Value::U32(a), Value::V32(b)) => match a.checked_sub(*b) {
                Some(x) => Value::U32(x),
                None => arith_err_value("sub", self, rhs),
            },
            (Value::V32(a), Value::V32(b)) => match a.checked_sub(*b) {
                Some(x) => Value::V32(x),
                None => arith_err_value("sub", self, rhs),
            },
            (Value::V32(a), Value::U32(b)) => match a.checked_sub(*b) {
                Some(x) => Value::U32(x),
                None => arith_err_value("sub", self, rhs),
            },
            (Value::I32(a), Value::I32(b)) => match a.checked_sub(*b) {
                Some(x) => Value::I32(x),
                None => arith_err_value("sub", self, rhs),
            },
            (Value::I32(a), Value::Z32(b)) => match a.checked_sub(*b) {
                Some(x) => Value::I32(x),
                None => arith_err_value("sub", self, rhs),
            },
            (Value::Z32(a), Value::Z32(b)) => match a.checked_sub(*b) {
                Some(x) => Value::Z32(x),
                None => arith_err_value("sub", self, rhs),
            },
            (Value::Z32(a), Value::I32(b)) => match a.checked_sub(*b) {
                Some(x) => Value::I32(x),
                None => arith_err_value("sub", self, rhs),
            },
            (Value::U64(a), Value::U64(b)) => match a.checked_sub(*b) {
                Some(x) => Value::U64(x),
                None => arith_err_value("sub", self, rhs),
            },
            (Value::U64(a), Value::V64(b)) => match a.checked_sub(*b) {
                Some(x) => Value::U64(x),
                None => arith_err_value("sub", self, rhs),
            },
            (Value::V64(a), Value::V64(b)) => match a.checked_sub(*b) {
                Some(x) => Value::V64(x),
                None => arith_err_value("sub", self, rhs),
            },
            (Value::I64(a), Value::I64(b)) => match a.checked_sub(*b) {
                Some(x) => Value::I64(x),
                None => arith_err_value("sub", self, rhs),
            },
            (Value::I64(a), Value::Z64(b)) => match a.checked_sub(*b) {
                Some(x) => Value::I64(x),
                None => arith_err_value("sub", self, rhs),
            },
            (Value::Z64(a), Value::Z64(b)) => match a.checked_sub(*b) {
                Some(x) => Value::Z64(x),
                None => arith_err_value("sub", self, rhs),
            },
            (Value::Z64(a), Value::I64(b)) => match a.checked_sub(*b) {
                Some(x) => Value::I64(x),
                None => arith_err_value("sub", self, rhs),
            },
            (Value::DateTime(dt), Value::Duration(d)) => match dt_minus_exec(dt, d) {
                Some(x) => Value::DateTime(x),
                None => arith_err_value("sub", self, rhs),
            },
            (Value::Duration(a), Value::Duration(b)) => match dur_minus_exec(a, b) {
                Some(x) => Value::Duration(x),
                None => arith_err_value("sub", self, rhs),
            },
            _ => arith_err_value("sub", self, rhs),
        }
    }

    /// Multiply two values; a span times a whole factor works in either
    /// order.
    pub fn mul(&self, rhs: &Value) -> (r: Value)
        requires
            self.wf(),
            rhs.wf(),
        ensures
            r@ == mul_model(self@, rhs@),
            r.wf(),
    {
        proof {
            reveal_strlit("multiply");
        }
        match (self, rhs) {
            (Value::U32(a), Value::U32(b)) => match a.checked_mul(*b) {
                Some(x) => Value::U32(x),
                None => arith_err_value("multiply", self, rhs),
            },
            (Value::U32(a), Value::V32(b)) => match a.checked_mul(*b) {
                Some(x) => Value::U32(x),
                None => arith_err_value("multiply", self, rhs),
            },
            (Value::V32(a), Value::V32(b)) => match a.checked_mul(*b) {
                Some(x) => Value::V32(x),
                None => arith_err_value("multiply", self, rhs),
            },
            (Value::V32(a), Value::U32(b)) => match a.checked_mul(*b) {
                Some(x) => Value::U32(x),
                None => arith_err_value("multiply", self, rhs),
            },
            (Value::I32(a), Value::I32(b)) => match a.checked_mul(*b) {
                Some(x) => Value::I32(x),
                None => arith_err_value("multiply", self, rhs),
            },
            (Value::I32(a), Value::Z32(b)) => match a.checked_mul(*b) {
                Some(x) => Value::I32(x),
                None => arith_err_value("multiply", self, rhs),
            },
            (Value::Z32(a), Value::Z32(b)) => match a.checked_mul(*b) {
                Some(x) => Value::Z32(x),
                None => arith_err_value("multiply", self, rhs),
            },
            (Value::Z32(a), Value::I32(b)) => match a.checked_mul(*b) {
                Some(x) => Value::I32(x),
                None => arith_err_value("multiply", self, rhs),
            },
            (Value::U64(a), Value::U64(b)) => match a.checked_mul(*b) {
                Some(x) => Value::U64(x),
                None => arith_err_value("multiply", self, rhs),
            },
            (Value::U64(a), Value::V64(b)) => match a.checked_mul(*b) {
                Some(x) => Value::U64(x),
                None => arith_err_value("multiply", self, rhs),
            },
            (Value::V64(a), Value::V64(b)) => match a.checked_mul(*b) {
                Some(x) => Value::V64(x),
                None => arith_err_value("multiply", self, rhs),
            },
            (Value::I64(a), Value::I64(b)) => match a.checked_mul(*b) {
                Some(x) => Value::I64(x),
                None => arith_err_value("multiply", self, rhs),
            },
            (Value::I64(a), Value::Z64(b)) => match a.checked_mul(*b) {
                Some(x) => Value::I64(x),
                None => arith_err_value("multiply", self, rhs),
            },
            (Value::Z64(a), Value::Z64(b)) => match a.checked_mul(*b) {
                Some(x) => Value::Z64(x),
                None => arith_err_value("multiply", self, rhs),
            },
            (Value::Z64(a), Value::I64(b)) => match a.checked_mul(*b) {
                Some(x) => Value::I64(x),
                None => arith_err_value("multiply", self, rhs),
            },
            (Value::Duration(d), Value::U32(k)) => match dur_mul_exec(d, *k) {
                Some(x) => Value::Duration(x),
                None => arith_err_value("multiply", self, rhs),
            },
            (Value::U32(k), Value::Duration(d)) => match dur_mul_exec(d, *k) {
                Some(x) => Value::Duration(x),
                None => arith_err_value("multiply", self, rhs),
            },
            (Value::Duration(d), Value::V32(k)) => match dur_mul_exec(d, *k) {
                Some(x) => Value::Duration(x),
                None => arith_err_value("multiply", self, rhs),
            },
            (Value::V32(k), Value::Duration(d)) => match dur_mul_exec(d, *k) {
                Some(x) => Value::Duration(x),
                None => arith_err_value("multiply", self, rhs),
            },
            _ => arith_err_value("multiply", self, rhs),
        }
    }

    /// Divide two values; a zero divisor is an `Error` value, never a
    /// fault.
    pub fn div(&self, rhs: &Value) -> (r: Value)
        requires
            self.wf(),
            rhs.wf(),
        ensures
            r@ == div_model(self@, rhs@),
            r.wf(),
    {
        proof {
            reveal_strlit("divide");
        }
        match (self, rhs) {
            (Value::U32(a), Value::U32(b)) => if *b > 0 {
                Value::U32(a / b)
            } else {
                arith_err_value("divide", self, rhs)
            },
            (Value::U32(a), Value::V32(b)) => if *b > 0 {
                Value::U32(a / b)
            } else {
                arith_err_value("divide", self, rhs)
            },
            (Value::V32(a), Value::V32(b)) => if *b > 0 {
                Value::V32(a / b)
            } else {
                arith_err_value("divide", self, rhs)
            },
            (Value::V32(a), Value::U32(b)) => if *b > 0 {
                Value::U32(a / b)
            } else {
                arith_err_value("divide", self, rhs)
            },
            (Value::I32(a), Value::I32(b)) => if *b > 0 {
                Value::I32(trunc_div_i64_exec(*a as i64, *b as i64) as i32)
            } else {
                arith_err_value("divide", self, rhs)
            },
            (Value::I32(a), Value::Z32(b)) => if *b > 0 {
                Value::I32(trunc_div_i64_exec(*a as i64, *b as i64) as i32)
            } else {
                arith_err_value("divide", self, rhs)
            },
            (Value::Z32(a), Value::Z32(b)) => if *b > 0 {
                Value::Z32(trunc_div_i64_exec(*a as i64, *b as i64) as i32)
            } else {
                arith_err_value("divide", self, rhs)
            },
            (Value::Z32(a), Value::I32(b)) => if *b > 0 {
                Value::I32(trunc_div_i64_exec(*a as i64, *b as i64) as i32)
            } else {
                arith_err_value("divide", self, rhs)
            },
            (Value::U64(a), Value::U64(b)) => if *b > 0 {
                Value::U64(a / b)
            } else {
                arith_err_value("divide", self, rhs)
            },
            (Value::U64(a), Value::V64(b)) => if *b > 0 {
                Value::U64(a / b)
            } else {
                arith_err_value("divide", self, rhs)
            },
            (Value::V64(a), Value::V64(b)) => if *b > 0 {
                Value::V64(a / b)
            } else {
                arith_err_value("divide", self, rhs)
            },
            (Value::I64(a), Value::I64(b)) => if *b > 0 {
                Value::I64(trunc_div_i64_exec(*a, *b))
            } else {
                arith_err_value("divide", self, rhs)
            },
            (Value::I64(a), Value::Z64(b)) => if *b > 0 {
                Value::I64(trunc_div_i64_exec(*a, *b))
            } else {
                arith_err_value("divide", self, rhs)
            },
            (Value::Z64(a), Value::Z64(b)) => if *b > 0 {
                Value::Z64(trunc_div_i64_exec(*a, *b))
            } else {
                arith_err_value("divide", self, rhs)
            },
            (Value::Z64(a), Value::I64(b)) => if *b > 0 {
                Value::I64(trunc_div_i64_exec(*a, *b))
            } else {
                arith_err_value("divide", self, rhs)
            },
            (Value::Duration(d), Value::U32(k)) => match dur_div_exec(d, *k) {
                Some(x) => Value::Duration(x),
                None => arith_err_value("divide", self, rhs),
            },
            (Value::Duration(d), Value::V32(k)) => match dur_div_exec(d, *k) {
                Some(x) => Value::Duration(x),
                None => arith_err_value("divide", self, rhs),
            },
            _ => arith_err_value("divide", self, rhs),
        }
    }

    /// Logical negation: flips the booleans, keeps `Null`, and turns
    /// everything else into an `Error` value.
    pub fn not(&self) -> (r: Value)
        ensures
            r@ == not_model(self@),
            r.wf(),
    {
        proof {
            reveal_strlit("can't apply not to ");
        }
        match self {
            Value::True => Value::False,
            Value::False => Value::True,
            Value::Null => Value::Null,
            _ => {
                let mut s = String::from_str("can't apply not to ");
                s.append(crate::text::kind_str(self));
                proof {
                    assert(s@ =~= "can't apply not to "@ + kind_text(self@));
                }
                Value::Error(s)
            }
        }
    }
}

} // verus!
