//! Decimal text for the integer kinds: exact formatting and parsing with
//! the same acceptance rules as the standard integer parsers (an optional
//! sign followed by one or more digits, nothing else).

use vstd::prelude::*;
use vstd::string::*;
use vstd::utf8::is_ascii_chars;

verus! {

/// A decimal digit character.
pub open spec fn is_digit_char(c: char) -> bool {
    '0' <= c <= '9'
}

/// The numeric value of a digit character.
pub open spec fn digit_val(c: char) -> nat {
    (c as int - '0' as int) as nat
}

/// The digit character of `d`, for `d < 10`.
pub open spec fn digit_char(d: nat) -> char {
    if d == 0 { '0' }
    else if d == 1 { '1' }
    else if d == 2 { '2' }
    else if d == 3 { '3' }
    else if d == 4 { '4' }
    else if d == 5 { '5' }
    else if d == 6 { '6' }
    else if d == 7 { '7' }
    else if d == 8 { '8' }
    else { '9' }
}

/// The canonical decimal digit string of `n`: no sign, no leading zero
/// except for `n == 0` itself.
pub open spec fn dec_digits(n: nat) -> Seq<char>
    decreases n,
{
    if n < 10 {
        seq![digit_char(n)]
    } else {
        dec_digits(n / 10).push(digit_char(n % 10))
    }
}

/// The canonical decimal string of a signed integer: a minus sign where
/// `n` is negative, then the digits of its magnitude.
pub open spec fn dec_int_str(n: int) -> Seq<char> {
    if n < 0 {
        seq!['-'] + dec_digits((-n) as nat)
    } else {
        dec_digits(n as nat)
    }
}

pub open spec fn all_digits(s: Seq<char>) -> bool {
    forall|i: int| 0 <= i < s.len() ==> is_digit_char(#[trigger] s[i])
}

/// The value of a string of digit characters, most significant first.
pub open spec fn digits_val(s: Seq<char>) -> nat
    decreases s.len(),
{
    if s.len() == 0 {
        0
    } else {
        digits_val(s.drop_last()) * 10 + digit_val(s.last())
    }
}

/// The digits of an unsigned decimal string, past an optional plus sign.
pub open spec fn uint_body(s: Seq<char>) -> Seq<char> {
    if s.len() > 0 && s[0] == '+' {
        s.skip(1)
    } else {
        s
    }
}

/// What the standard unsigned parsers accept: an optional plus sign and
/// then one or more digits.
pub open spec fn is_uint_str(s: Seq<char>) -> bool {
    uint_body(s).len() > 0 && all_digits(uint_body(s))
}

pub open spec fn uint_str_val(s: Seq<char>) -> nat {
    digits_val(uint_body(s))
}

/// The digits of a signed decimal string, past an optional sign.
pub open spec fn int_body(s: Seq<char>) -> Seq<char> {
    if s.len() > 0 && (s[0] == '+' || s[0] == '-') {
        s.skip(1)
    } else {
        s
    }
}

pub open spec fn int_is_neg(s: Seq<char>) -> bool {
    s.len() > 0 && s[0] == '-'
}

/// What the standard signed parsers accept: an optional sign and then one
/// or more digits.
pub open spec fn is_int_str(s: Seq<char>) -> bool {
    int_body(s).len() > 0 && all_digits(int_body(s))
}

pub open spec fn int_str_val(s: Seq<char>) -> int {
    if int_is_neg(s) {
        -(digits_val(int_body(s)) as int)
    } else {
        digits_val(int_body(s)) as int
    }
}

/// What parsing `s` as a `u64` returns.
pub open spec fn parse_u64_model(s: Seq<char>) -> Option<u64> {
    if is_uint_str(s) && uint_str_val(s) <= u64::MAX {
        Some(uint_str_val(s) as u64)
    } else {
        None
    }
}

/// What parsing `s` as a `u32` returns.
pub open spec fn parse_u32_model(s: Seq<char>) -> Option<u32> {
    if is_uint_str(s) && uint_str_val(s) <= u32::MAX {
        Some(uint_str_val(s) as u32)
    } else {
        None
    }
}

/// What parsing `s` as an `i64` returns.
pub open spec fn parse_i64_model(s: Seq<char>) -> Option<i64> {
    if is_int_str(s) && i64::MIN <= int_str_val(s) <= i64::MAX {
        Some(int_str_val(s) as i64)
    } else {
        None
    }
}

/// What parsing `s` as an `i32` returns.
pub open spec fn parse_i32_model(s: Seq<char>) -> Option<i32> {
    if is_int_str(s) && i32::MIN <= int_str_val(s) <= i32::MAX {
        Some(int_str_val(s) as i32)
    } else {
        None
    }
}

pub fn digit_str(d: u64) -> (r: &'static str)
    requires
        d < 10,
    ensures
        r@ == seq![digit_char(d as nat)],
        r@.len() == 1,
{
    proof {
        reveal_strlit("0");
        reveal_strlit("1");
        reveal_strlit("2");
        reveal_strlit("3");
        reveal_strlit("4");
        reveal_strlit("5");
        reveal_strlit("6");
        reveal_strlit("7");
        reveal_strlit("8");
        reveal_strlit("9");
    }
    let r = match d {
        0 => "0",
        1 => "1",
        2 => "2",
        3 => "3",
        4 => "4",
        5 => "5",
        6 => "6",
        7 => "7",
        8 => "8",
        _ => "9",
    };
    proof {
        assert(r@ =~= seq![digit_char(d as nat)]);
    }
    r
}

/// Format `n` as its canonical decimal digit string.
pub fn fmt_u64(n: u64) -> (r: String)
    ensures
        r@ == dec_digits(n as nat),
    decreases n,
{
    if n < 10 {
        String::from_str(digit_str(n))
    } else {
        let mut s = fmt_u64(n / 10);
        s.append(digit_str(n % 10));
        s
    }
}

/// The canonical digit string of `n` is made of digits, and its value is
/// `n` again: formatting loses nothing.
pub proof fn lemma_dec_digits_exact(n: nat)
    ensures
        dec_digits(n).len() > 0,
        all_digits(dec_digits(n)),
        is_digit_char(dec_digits(n)[0]),
        digits_val(dec_digits(n)) == n,
    decreases n,
{
    if n < 10 {
        assert(digits_val(dec_digits(n))
            == digits_val(dec_digits(n).drop_last()) * 10 + digit_val(dec_digits(n).last()));
        assert(dec_digits(n).drop_last() =~= Seq::<char>::empty());
    } else {
        lemma_dec_digits_exact(n / 10);
        let s = dec_digits(n);
        assert(s.drop_last() =~= dec_digits(n / 10));
        assert forall|i: int| 0 <= i < s.len() implies is_digit_char(#[trigger] s[i]) by {
            if i < s.len() - 1 {
                assert(s[i] == dec_digits(n / 10)[i]);
            }
        }
    }
}

/// Parsing the canonical digit string of an unsigned value returns the
/// value: parse inverts format.
pub proof fn lemma_parse_u64_of_dec(n: u64)
    ensures
        parse_u64_model(dec_digits(n as nat)) == Some(n),
{
    lemma_dec_digits_exact(n as nat);
    let s = dec_digits(n as nat);
    assert(s[0] != '+');
    assert(uint_body(s) == s);
}

/// Parsing the canonical decimal string of a signed value returns the
/// value: parse inverts format.
pub proof fn lemma_parse_i64_of_dec(n: i64)
    ensures
        parse_i64_model(dec_int_str(n as int)) == Some(n),
{
    let s = dec_int_str(n as int);
    if n >= 0 {
        lemma_dec_digits_exact(n as nat);
        assert(s[0] != '+' && s[0] != '-');
        assert(int_body(s) == s);
    } else {
        let m = (-(n as int)) as nat;
        lemma_dec_digits_exact(m);
        assert(s[0] == '-');
        assert(s.skip(1) =~= dec_digits(m));
        assert(int_is_neg(s));
        assert(int_str_val(s) == n as int);
    }
}

/// The value of a digit string only grows when more digits follow.
pub proof fn lemma_digits_val_prefix(s: Seq<char>, k: int)
    requires
        0 <= k <= s.len(),
    ensures
        digits_val(s) >= digits_val(s.take(k)),
    decreases s.len() - k,
{
    if k < s.len() {
        lemma_digits_val_prefix(s.drop_last(), k);
        assert(s.drop_last().take(k) =~= s.take(k));
        assert(digits_val(s) >= digits_val(s.drop_last()));
    } else {
        assert(s.take(k) =~= s);
    }
}

/// Parse the digits of `s` from `start` on: the value where every
/// remaining character is a digit and the value fits a `u64`.
fn parse_digits_u64(s: &str, start: usize, n: usize) -> (r: Option<u64>)
    requires
        s.is_ascii(),
        start <= n,
        n == s@.len(),
    ensures
        ({
            let body = s@.skip(start as int);
            match r {
                Some(v) => body.len() > 0 && all_digits(body) && digits_val(body) == v,
                None => !(body.len() > 0 && all_digits(body) && digits_val(body)
                    <= u64::MAX),
            }
        }),
{
    let ghost body = s@.skip(start as int);
    if start == n {
        return None;
    }
    let mut acc: u64 = 0;
    let mut i: usize = start;
    while i < n
        invariant
            s.is_ascii(),
            start <= i <= n,
            n == s@.len(),
            body == s@.skip(start as int),
            all_digits(s@.subrange(start as int, i as int)),
            acc == digits_val(s@.subrange(start as int, i as int)),
        decreases n - i,
    {
        let b = s.get_ascii(i);
        proof {
            assert('\0' <= s@[i as int] <= '\u{7f}');
        }
        if b < 48 || b > 57 {
            proof {
                assert(!is_digit_char(body[i - start]));
            }
            return None;
        }
        let d = (b - 48) as u64;
        proof {
            assert(is_digit_char(s@[i as int]));
            assert(digit_val(s@[i as int]) == d);
            assert(s@.subrange(start as int, i + 1).drop_last()
                =~= s@.subrange(start as int, i as int));
        }
        let step = match acc.checked_mul(10) {
            Some(x) => x.checked_add(d),
            None => None,
        };
        match step {
            Some(x) => {
                acc = x;
            }
            None => {
                proof {
                    let k = i + 1 - start;
                    lemma_digits_val_prefix(body, k);
                    assert(body.take(k) =~= s@.subrange(start as int, i + 1));
                    assert(digits_val(s@.subrange(start as int, i + 1))
                        == acc * 10 + d);
                }
                return None;
            }
        }
        i += 1;
    }
    proof {
        assert(s@.subrange(start as int, n as int) =~= body);
    }
    Some(acc)
}

/// A string with a character outside ASCII is no decimal number.
proof fn lemma_non_ascii_not_num(s: Seq<char>)
    requires
        !is_ascii_chars(s),
    ensures
        !is_uint_str(s),
        !is_int_str(s),
{
    let i = choose|i: int| 0 <= i < s.len() && !('\0' <= #[trigger] s[i] <= '\u{7f}');
    if s.len() > 0 && (s[0] == '+' || s[0] == '-') {
        assert(i != 0);
        assert(s.skip(1)[i - 1] == s[i]);
        assert(!is_digit_char(s.skip(1)[i - 1]));
    } else {
        assert(!is_digit_char(s[i]));
    }
}

/// Parse `s` as a `u64`: an optional plus sign and then digits.
pub fn parse_u64_str(s: &str) -> (r: Option<u64>)
    ensures
        r == parse_u64_model(s@),
{
    if !s.is_ascii() {
        proof {
            lemma_non_ascii_not_num(s@);
        }
        return None;
    }
    let n = s.unicode_len();
    if n == 0 {
        return None;
    }
    let start: usize = if s.get_ascii(0) == 43 {
        1
    } else {
        0
    };
    proof {
        assert(uint_body(s@) == s@.skip(start as int));
    }
    parse_digits_u64(s, start, n)
}

/// Parse `s` as a `u32`.
pub fn parse_u32_str(s: &str) -> (r: Option<u32>)
    ensures
        r == parse_u32_model(s@),
{
    match parse_u64_str(s) {
        Some(v) if v <= u32::MAX as u64 => Some(v as u32),
        _ => None,
    }
}

/// Parse `s` as an `i64`: an optional sign and then digits.
pub fn parse_i64_str(s: &str) -> (r: Option<i64>)
    ensures
        r == parse_i64_model(s@),
{
    if !s.is_ascii() {
        proof {
            lemma_non_ascii_not_num(s@);
        }
        return None;
    }
    let n = s.unicode_len();
    if n == 0 {
        return None;
    }
    let c0 = s.get_ascii(0);
    proof {
        assert('\0' <= s@[0] <= '\u{7f}');
    }
    let neg = c0 == 45;
    let start: usize = if c0 == 43 || c0 == 45 {
        1
    } else {
        0
    };
    proof {
        assert(int_body(s@) == s@.skip(start as int));
        assert(neg == int_is_neg(s@));
    }
    match parse_digits_u64(s, start, n) {
        None => None,
        Some(m) => {
            if neg {
                if m <= i64::MAX as u64 {
                    Some(-(m as i64))
                } else if m == 9223372036854775808u64 {
                    Some(i64::MIN)
                } else {
                    None
                }
            } else {
                if m <= i64::MAX as u64 {
                    Some(m as i64)
                } else {
                    None
                }
            }
        }
    }
}

/// Parse `s` as an `i32`.
pub fn parse_i32_str(s: &str) -> (r: Option<i32>)
    ensures
        r == parse_i32_model(s@),
{
    match parse_i64_str(s) {
        Some(v) if i32::MIN as i64 <= v && v <= i32::MAX as i64 => Some(v as i32),
        _ => None,
    }
}

/// Format `n` as its canonical decimal string, minus sign included.
pub fn fmt_i64(n: i64) -> (r: String)
    ensures
        r@ == dec_int_str(n as int),
{
    if n >= 0 {
        fmt_u64(n as u64)
    } else {
        let m: u64 = if n == i64::MIN {
            9223372036854775808u64
        } else {
            (-n) as u64
        };
        proof {
            reveal_strlit("-");
        }
        let mut s = String::from_str("-");
        s.append(fmt_u64(m).as_str());
        proof {
            assert(s@ =~= dec_int_str(n as int));
        }
        s
    }
}

} // verus!
