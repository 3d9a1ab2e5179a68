//! Text helpers for the value forms: whitespace trimming, character-wise
//! string comparison, and the decimal text of a `Duration`.

use vstd::prelude::*;
use vstd::string::*;
use crate::numstr::{all_digits, dec_digits, digit_char, digit_val, digits_val, fmt_u64};
use crate::value::{Duration, Typ, Value, ValueModel};

verus! {

/// The whitespace a trim removes: the ASCII space and control spaces.
pub open spec fn is_space(c: char) -> bool {
    c == ' ' || c == '\t' || c == '\n' || c == '\r' || c == '\u{B}' || c == '\u{C}'
}

pub open spec fn trim_start_of(s: Seq<char>) -> Seq<char>
    decreases s.len(),
{
    if s.len() > 0 && is_space(s[0]) {
        trim_start_of(s.skip(1))
    } else {
        s
    }
}

pub open spec fn trim_end_of(s: Seq<char>) -> Seq<char>
    decreases s.len(),
{
    if s.len() > 0 && is_space(s.last()) {
        trim_end_of(s.drop_last())
    } else {
        s
    }
}

/// `s` without leading and trailing whitespace.
pub open spec fn trim_of(s: Seq<char>) -> Seq<char> {
    trim_end_of(trim_start_of(s))
}

proof fn lemma_trim_start(s: Seq<char>, i: int)
    requires
        0 <= i <= s.len(),
        forall|k: int| 0 <= k < i ==> is_space(#[trigger] s[k]),
        i < s.len() ==> !is_space(s[i]),
    ensures
        trim_start_of(s) == s.skip(i),
    decreases i,
{
    if i == 0 {
        assert(s.skip(0) =~= s);
    } else {
        assert(is_space(s[0]));
        lemma_trim_start(s.skip(1), i - 1);
        assert(s.skip(1).skip(i - 1) =~= s.skip(i));
    }
}

proof fn lemma_trim_end(s: Seq<char>, j: int)
    requires
        0 <= j <= s.len(),
        forall|k: int| j <= k < s.len() ==> is_space(#[trigger] s[k]),
        j > 0 ==> !is_space(s[j - 1]),
    ensures
        trim_end_of(s) == s.take(j),
    decreases s.len() - j,
{
    if j == s.len() {
        assert(s.take(j) =~= s);
    } else {
        assert(is_space(s.last()));
        lemma_trim_end(s.drop_last(), j);
        assert(s.drop_last().take(j) =~= s.take(j));
    }
}

/// Text with no leading or trailing whitespace trims to itself.
pub proof fn lemma_trim_of_untrimmed(s: Seq<char>)
    requires
        s.len() > 0,
        !is_space(s[0]),
        !is_space(s.last()),
    ensures
        trim_of(s) == s,
{
    lemma_trim_start(s, 0);
    assert(s.skip(0) =~= s);
    lemma_trim_end(s, s.len() as int);
    assert(s.take(s.len() as int) =~= s);
}

fn is_space_c(c: char) -> (r: bool)
    ensures
        r == is_space(c),
{
    c == ' ' || c == '\t' || c == '\n' || c == '\r' || c == '\u{B}' || c == '\u{C}'
}

/// Remove leading and trailing whitespace.
pub fn trim_str<'a>(s: &'a str) -> (r: &'a str)
    ensures
        r@ == trim_of(s@),
{
    let n = s.unicode_len();
    let mut i: usize = 0;
    while i < n && is_space_c(s.get_char(i))
        invariant
            0 <= i <= n,
            n == s@.len(),
            forall|k: int| 0 <= k < i ==> is_space(#[trigger] s@[k]),
        decreases n - i,
    {
        i += 1;
    }
    let mut j: usize = n;
    while j > i && is_space_c(s.get_char(j - 1))
        invariant
            i <= j <= n,
            n == s@.len(),
            forall|k: int| j <= k < n ==> is_space(#[trigger] s@[k]),
        decreases j,
    {
        j -= 1;
    }
    proof {
        if i < n && j == i {
            assert(is_space(s@[i as int]));
            assert(false);
        }
        lemma_trim_start(s@, i as int);
        let t = s@.skip(i as int);
        assert(forall|k: int| (j - i) <= k < t.len() ==> is_space(#[trigger] t[k]));
        lemma_trim_end(t, j - i);
    }
    let r = s.substring_char(i, j);
    proof {
        assert(r@ =~= s@.skip(i as int).take(j - i));
    }
    r
}

/// Character-for-character string equality.
pub fn str_eq_str(a: &str, b: &str) -> (r: bool)
    ensures
        r == (a@ == b@),
{
    let n = a.unicode_len();
    let m = b.unicode_len();
    if n != m {
        return false;
    }
    let mut i: usize = 0;
    while i < n
        invariant
            0 <= i <= n,
            n == a@.len(),
            n == b@.len(),
            forall|k: int| 0 <= k < i ==> a@[k] == b@[k],
        decreases n - i,
    {
        if a.get_char(i) != b.get_char(i) {
            return false;
        }
        i += 1;
    }
    proof {
        assert(a@ =~= b@);
    }
    true
}

/// Does `a` start with `b`?
pub fn str_starts_with(a: &str, b: &str) -> (r: bool)
    ensures
        r == (a@.len() >= b@.len() && a@.take(b@.len() as int) == b@),
{
    let n = a.unicode_len();
    let m = b.unicode_len();
    if n < m {
        return false;
    }
    let mut i: usize = 0;
    while i < m
        invariant
            0 <= i <= m <= n,
            n == a@.len(),
            m == b@.len(),
            forall|k: int| 0 <= k < i ==> a@[k] == b@[k],
        decreases m - i,
    {
        if a.get_char(i) != b.get_char(i) {
            proof {
                assert(a@.take(m as int)[i as int] != b@[i as int]);
            }
            return false;
        }
        i += 1;
    }
    proof {
        assert(a@.take(m as int) =~= b@);
    }
    true
}

/// The kind a value shows in an arithmetic error message: its tag's name,
/// or `null`.
pub open spec fn kind_text(m: ValueModel) -> Seq<char> {
    match Typ::of_model(m) {
        Some(t) => Typ::name_model(t),
        None => "null"@,
    }
}

/// The tag name of a value, or `null`, as text.
pub fn kind_str(v: &Value) -> (r: &'static str)
    ensures
        r@ == kind_text(v@),
{
    match Typ::get(v) {
        Some(t) => t.name(),
        None => "null",
    }
}

/// The fractional digits of `n` out of `10 * pow` nanoseconds, most
/// significant first, trailing zeros dropped.
pub open spec fn frac_text(n: u64, pow: u64) -> Seq<char>
    decreases pow,
{
    if n == 0 || pow == 0 {
        Seq::empty()
    } else {
        seq![digit_char((n / pow) as nat)] + frac_text(n % pow, pow / 10)
    }
}

/// The decimal text of a duration: whole seconds, a fractional part where
/// one exists, and the `s` suffix.
pub open spec fn duration_text(d: Duration) -> Seq<char> {
    if d.nanos == 0 {
        dec_digits(d.secs as nat) + "s"@
    } else {
        dec_digits(d.secs as nat) + "."@ + frac_text(d.nanos as u64, 100_000_000) + "s"@
    }
}

/// A power of ten, or zero: what the fraction walker divides by.
pub open spec fn pow10_chain(p: u64) -> bool
    decreases p,
{
    if p <= 1 {
        true
    } else {
        p % 10 == 0 && pow10_chain(p / 10)
    }
}

fn push_frac(out: &mut String, n: u64, pow: u64)
    requires
        pow10_chain(pow),
        pow == 0 || n < 10 * pow,
    ensures
        final(out)@ == old(out)@ + frac_text(n, pow),
    decreases pow,
{
    if n == 0 || pow == 0 {
        proof {
            assert(out@ =~= old(out)@ + frac_text(n, pow));
        }
        return ;
    }
    proof {
        assert(n / pow < 10) by (nonlinear_arith)
            requires
                n < 10 * pow,
                pow > 0,
        ;
    }
    out.append(crate::numstr::digit_str(n / pow));
    push_frac(out, n % pow, pow / 10);
    proof {
        assert(out@ =~= old(out)@ + frac_text(n, pow));
    }
}


pub open spec fn pow10(k: nat) -> nat
    decreases k,
{
    if k == 0 {
        1
    } else {
        10 * pow10((k - 1) as nat)
    }
}

/// The index of the first dot of `s`, or a negative value where there is
/// none.
pub open spec fn find_dot(s: Seq<char>) -> int
    decreases s.len(),
{
    if s.len() == 0 {
        -1
    } else if s[0] == '.' {
        0
    } else {
        let r = find_dot(s.skip(1));
        if r < 0 {
            -1
        } else {
            1 + r
        }
    }
}

/// The whole-second digits of a duration body: everything before the dot.
pub open spec fn dur_int_part(s: Seq<char>) -> Seq<char> {
    if find_dot(s) < 0 {
        s
    } else {
        s.take(find_dot(s))
    }
}

/// The fractional digits of a duration body: everything after the dot.
pub open spec fn dur_frac_part(s: Seq<char>) -> Seq<char> {
    if find_dot(s) < 0 {
        Seq::empty()
    } else {
        s.skip(find_dot(s) + 1)
    }
}

/// A duration body is digits around at most one dot, with at least one
/// digit somewhere.
pub open spec fn valid_dur_digits(s: Seq<char>) -> bool {
    &&& all_digits(dur_int_part(s))
    &&& all_digits(dur_frac_part(s))
    &&& dur_int_part(s).len() + dur_frac_part(s).len() > 0
}

/// The nanoseconds the fractional digits stand for: the first nine digits
/// weighted down to nanoseconds; further digits are cut off.
pub open spec fn dur_nanos_val(f: Seq<char>) -> nat {
    if f.len() <= 9 {
        digits_val(f) * pow10((9 - f.len()) as nat)
    } else {
        digits_val(f.take(9))
    }
}

/// What parsing `s` as a duration returns: trimmed decimal seconds with
/// an `s` suffix, or nothing.
pub open spec fn parse_duration_model(s: Seq<char>) -> Option<Duration> {
    let t = trim_of(s);
    if t.len() >= 2 && t.last() == 's' {
        let b = t.drop_last();
        if valid_dur_digits(b) && digits_val(dur_int_part(b)) <= u64::MAX {
            Some(
                Duration {
                    secs: digits_val(dur_int_part(b)) as u64,
                    nanos: dur_nanos_val(dur_frac_part(b)) as u32,
                },
            )
        } else {
            None
        }
    } else {
        None
    }
}

/// Where the first dot is known from outside, `find_dot` agrees.
proof fn lemma_find_dot_at(s: Seq<char>, k: int)
    requires
        0 <= k <= s.len(),
        forall|i: int| 0 <= i < k ==> s[i] != '.',
        k < s.len() ==> s[k] == '.',
    ensures
        find_dot(s) == if k < s.len() {
            k
        } else {
            -1
        },
    decreases k,
{
    if k == 0 {
    } else {
        assert(s[0] != '.');
        lemma_find_dot_at(s.skip(1), k - 1);
    }
}

/// What `find_dot` finds is the first dot, where it finds one.
proof fn lemma_find_dot_props(s: Seq<char>)
    ensures
        find_dot(s) >= 0 ==> {
            &&& find_dot(s) < s.len()
            &&& s[find_dot(s)] == '.'
            &&& forall|k: int| 0 <= k < find_dot(s) ==> s[k] != '.'
        },
        find_dot(s) < 0 ==> forall|k: int| 0 <= k < s.len() ==> s[k] != '.',
    decreases s.len(),
{
    if s.len() > 0 && s[0] != '.' {
        lemma_find_dot_props(s.skip(1));
        let r = find_dot(s.skip(1));
        if r >= 0 {
            assert(s[1 + r] == s.skip(1)[r]);
            assert forall|k: int| 0 <= k < 1 + r implies s[k] != '.' by {
                if k >= 1 {
                    assert(s.skip(1)[k - 1] != '.');
                }
            }
        } else {
            assert forall|k: int| 0 <= k < s.len() implies s[k] != '.' by {
                if k >= 1 {
                    assert(s.skip(1)[k - 1] != '.');
                }
            }
        }
    }
}

/// A run of digits is worth less than one followed by that many zeros.
proof fn lemma_digits_val_bound(s: Seq<char>)
    requires
        all_digits(s),
    ensures
        digits_val(s) < pow10(s.len()),
    decreases s.len(),
{
    if s.len() > 0 {
        assert(all_digits(s.drop_last()));
        lemma_digits_val_bound(s.drop_last());
        assert(digit_val(s.last()) <= 9);
    }
}

/// A run of `k` zero digits.
pub open spec fn zeros(k: nat) -> Seq<char> {
    Seq::new(k, |i: int| '0')
}

/// Trailing zeros multiply a digit run's value by a power of ten.
proof fn lemma_digits_val_zeros(f: Seq<char>, k: nat)
    ensures
        digits_val(f + zeros(k)) == digits_val(f) * pow10(k),
    decreases k,
{
    let z = zeros(k);
    if k == 0 {
        assert(f + z =~= f);
        assert(pow10(0) == 1);
        assert(digits_val(f + zeros(k)) == digits_val(f) * pow10(k));
    } else {
        lemma_digits_val_zeros(f, (k - 1) as nat);
        let w = f + z;
        assert(w.last() == '0');
        assert(w.drop_last() =~= f + zeros((k - 1) as nat));
        assert(digit_val('0') == 0);
        assert(digits_val(w) == digits_val(w.drop_last()) * 10 + digit_val(w.last()));
        assert(digits_val(w.drop_last()) == digits_val(f) * pow10((k - 1) as nat));
        assert(digits_val(f) * pow10((k - 1) as nat) * 10 == digits_val(f) * pow10(k))
            by (nonlinear_arith)
            requires
                pow10(k) == 10 * pow10((k - 1) as nat),
        ;
        assert(digits_val(w) == digits_val(f) * pow10(k));
        assert(digits_val(f + zeros(k)) == digits_val(f) * pow10(k));
    }
}

proof fn lemma_pow10_pos(k: nat)
    ensures
        pow10(k) >= 1,
    decreases k,
{
    if k > 0 {
        lemma_pow10_pos((k - 1) as nat);
    }
}

/// Prepending a digit adds its value at the run's magnitude.
proof fn lemma_digits_val_prepend(c: char, g: Seq<char>)
    ensures
        digits_val(seq![c] + g) == digit_val(c) * pow10(g.len()) + digits_val(g),
    decreases g.len(),
{
    let w = seq![c] + g;
    if g.len() == 0 {
        assert(w =~= seq![c]);
        assert(w.last() == c);
        assert(w.drop_last() =~= Seq::<char>::empty());
        assert(digits_val(Seq::<char>::empty()) == 0);
        assert(digits_val(w) == digit_val(c));
        assert(pow10(0) == 1);
    } else {
        lemma_digits_val_prepend(c, g.drop_last());
        assert(w.drop_last() =~= seq![c] + g.drop_last());
        assert(w.last() == g.last());
        assert(digits_val(w) == digits_val(w.drop_last()) * 10 + digit_val(g.last()));
        let p = pow10((g.len() - 1) as nat);
        assert(pow10(g.len()) == 10 * p);
        assert((digit_val(c) * p + digits_val(g.drop_last())) * 10 == digit_val(c) * (10
            * p) + digits_val(g.drop_last()) * 10) by (nonlinear_arith);
        assert(digits_val(g) == digits_val(g.drop_last()) * 10 + digit_val(g.last()));
    }
}

/// The fraction walker emits at most `j + 1` digits whose weighted value
/// is exactly the nanoseconds it was given.
proof fn lemma_frac_text_exact(n: u64, j: nat, pow: u64)
    requires
        pow == pow10(j),
        n < 10 * pow10(j),
        j <= 8,
    ensures
        all_digits(frac_text(n, pow)),
        frac_text(n, pow).len() <= j + 1,
        digits_val(frac_text(n, pow)) * pow10((j + 1 - frac_text(n, pow).len()) as nat)
            == n,
    decreases j,
{
    lemma_pow10_pos(j);
    let f = frac_text(n, pow);
    if n == 0 {
        assert(f == Seq::<char>::empty());
        assert(digits_val(f) == 0);
    } else {
        let d = (n / pow) as nat;
        assert(n / pow < 10) by (nonlinear_arith)
            requires
                n < 10 * pow,
                pow > 0,
        ;
        assert(crate::numstr::is_digit_char(digit_char(d)));
        assert(digit_val(digit_char(d)) == d);
        if j == 0 {
            assert(pow == 1);
            assert(n % pow == 0);
            assert(frac_text(n % pow, pow / 10) =~= Seq::<char>::empty());
            assert(f =~= seq![digit_char(d)]);
            assert(f.last() == digit_char(d));
            assert(f.drop_last() =~= Seq::<char>::empty());
            assert(digits_val(Seq::<char>::empty()) == 0);
            assert(digits_val(f) == d);
            assert(d == n) by (nonlinear_arith)
                requires
                    d == (n / pow) as nat,
                    pow == 1,
            ;
            assert(pow10((1 - f.len()) as nat) == 1);
        } else {
            assert(pow10(j) == 10 * pow10((j - 1) as nat));
            assert(pow / 10 == pow10((j - 1) as nat));
            lemma_pow10_pos((j - 1) as nat);
            assert(n % pow < pow);
            assert(n % pow < 10 * pow10((j - 1) as nat)) by (nonlinear_arith)
                requires
                    n % pow < pow,
                    pow == 10 * pow10((j - 1) as nat),
                    pow10((j - 1) as nat) >= 1,
            ;
            lemma_frac_text_exact(n % pow, (j - 1) as nat, pow / 10);
            let g = frac_text(n % pow, pow / 10);
            assert(f == seq![digit_char(d)] + g);
            assert forall|i: int| 0 <= i < f.len() implies crate::numstr::is_digit_char(
                #[trigger] f[i],
            ) by {
                if i > 0 {
                    assert(f[i] == g[i - 1]);
                }
            }
            lemma_digits_val_prepend(digit_char(d), g);
            let gl = g.len();
            let fl = f.len();
            assert(fl == gl + 1);
            let w = pow10((j + 1 - fl) as nat);
            assert(digits_val(g) * pow10((j - gl) as nat) == n % pow);
            assert((j - gl) as nat == (j + 1 - fl) as nat);
            assert(digits_val(f) == d * pow10(gl) + digits_val(g));
            assert(pow10(gl) * w == pow10(j)) by {
                lemma_pow10_mul(gl, (j - gl) as nat);
            }
            assert((d * pow10(gl) + digits_val(g)) * w == d * (pow10(gl) * w)
                + digits_val(g) * w) by (nonlinear_arith);
            assert(d * pow10(j) == n - n % pow) by (nonlinear_arith)
                requires
                    d == n / pow,
                    pow == pow10(j),
                    pow > 0,
            ;
        }
    }
}

proof fn lemma_pow10_mul(a: nat, b: nat)
    ensures
        pow10(a) * pow10(b) == pow10(a + b),
    decreases b,
{
    if b == 0 {
        assert(pow10(0) == 1);
    } else {
        lemma_pow10_mul(a, (b - 1) as nat);
        assert(pow10(b) == 10 * pow10((b - 1) as nat));
        assert(pow10(a + b) == 10 * pow10((a + b - 1) as nat));
        assert(pow10(a) * (10 * pow10((b - 1) as nat)) == 10 * (pow10(a) * pow10(
            (b - 1) as nat,
        ))) by (nonlinear_arith);
    }
}

/// Parsing the decimal text of a well-formed duration gives the duration
/// back: parse inverts format.
pub proof fn lemma_duration_roundtrip(d: Duration)
    requires
        d.wf(),
    ensures
        parse_duration_model(duration_text(d)) == Some(d),
{
    reveal_strlit("s");
    reveal_strlit(".");
    let w = duration_text(d);
    crate::numstr::lemma_dec_digits_exact(d.secs as nat);
    let ds = dec_digits(d.secs as nat);
    assert(w.last() == 's');
    assert(!is_space(w[0]));
    lemma_trim_start(w, 0);
    assert(w.skip(0) =~= w);
    lemma_trim_end(w, w.len() as int);
    assert(w.take(w.len() as int) =~= w);
    assert(trim_of(w) == w);
    let b = w.drop_last();
    if d.nanos == 0 {
        assert(b =~= ds);
        lemma_find_dot_props(b);
        if find_dot(b) >= 0 {
            assert(crate::numstr::is_digit_char(b[find_dot(b)]));
            assert(false);
        }
        assert(dur_int_part(b) == b);
        assert(dur_frac_part(b) == Seq::<char>::empty());
        assert(digits_val(Seq::<char>::empty()) == 0);
        assert(Seq::<char>::empty().len() == 0);
        assert(dur_nanos_val(Seq::<char>::empty()) == digits_val(Seq::<char>::empty())
            * pow10(9));
        assert(0 * pow10(9) == 0) by (nonlinear_arith);
        assert(dur_nanos_val(Seq::<char>::empty()) == 0);
    } else {
        lemma_pow10_values();
        let f = frac_text(d.nanos as u64, 100_000_000);
        lemma_frac_text_exact(d.nanos as u64, 8, 100_000_000);
        assert(b =~= ds + seq!['.'] + f);
        lemma_find_dot_at(b, ds.len() as int);
        assert(find_dot(b) == ds.len());
        assert(dur_int_part(b) =~= ds);
        assert(dur_frac_part(b) =~= f);
        assert(f.len() <= 9);
        assert(dur_nanos_val(f) == digits_val(f) * pow10((9 - f.len()) as nat));
        assert(dur_nanos_val(f) == d.nanos);
    }
}

/// The fractional digits padded or cut to exactly nine places.
pub open spec fn fpad(f: Seq<char>) -> Seq<char> {
    if f.len() >= 9 {
        f.take(9)
    } else {
        f + zeros((9 - f.len()) as nat)
    }
}

proof fn lemma_fpad_val(f: Seq<char>)
    ensures
        digits_val(fpad(f)) == dur_nanos_val(f),
{
    if f.len() < 9 {
        lemma_digits_val_zeros(f, (9 - f.len()) as nat);
    } else {
        if f.len() == 9 {
            assert(f.take(9) =~= f);
            assert(pow10(0) == 1);
            assert(digits_val(f) * 1 == digits_val(f));
        }
    }
}

proof fn lemma_pow10_values()
    ensures
        pow10(0) == 1,
        pow10(1) == 10,
        pow10(2) == 100,
        pow10(3) == 1000,
        pow10(4) == 10000,
        pow10(5) == 100000,
        pow10(6) == 1000000,
        pow10(7) == 10000000,
        pow10(8) == 100000000,
        pow10(9) == 1000000000,
{
    assert(pow10(0) == 1);
    assert(pow10(1) == 10);
    assert(pow10(2) == 100);
    assert(pow10(3) == 1000);
    assert(pow10(4) == 10000);
    assert(pow10(5) == 100000);
    assert(pow10(6) == 1000000);
    assert(pow10(7) == 10000000);
    assert(pow10(8) == 100000000);
    assert(pow10(9) == 1000000000);
}

/// Parse `s` as a duration: trimmed decimal seconds with an `s` suffix.
#[verifier::rlimit(100)]
#[verifier::loop_isolation(false)]
pub fn parse_duration(s: &str) -> (r: Option<Duration>)
    ensures
        r == parse_duration_model(s@),
        r matches Some(d) ==> d.wf(),
{
    let t = trim_str(s);
    let n = t.unicode_len();
    if n < 2 {
        return None;
    }
    if !t.is_ascii() {
        proof {
            let tv = t@;
            let c = choose|i: int|
                0 <= i < tv.len() && !('\0' <= #[trigger] tv[i] <= '\u{7f}');
            if tv.last() == 's' {
                let b = tv.drop_last();
                assert(c < tv.len() - 1);
                lemma_find_dot_props(b);
                let d = find_dot(b);
                if d < 0 {
                    assert(!crate::numstr::is_digit_char(dur_int_part(b)[c]));
                } else if c < d {
                    assert(!crate::numstr::is_digit_char(dur_int_part(b)[c]));
                } else {
                    assert(c != d);
                    assert(!crate::numstr::is_digit_char(dur_frac_part(b)[c - d - 1]));
                }
            }
        }
        return None;
    }
    if t.get_ascii(n - 1) != 115 {
        return None;
    }
    proof {
        assert('\0' <= t@[n - 1] <= '\u{7f}');
        assert(t@[n - 1] == 's');
        assert(t@.last() == 's');
    }
    let ghost b = t@.drop_last();
    let m = n - 1;
    let mut i: usize = 0;
    let mut dot: usize = m;
    while i < m
        invariant
            0 <= i <= m,
            m == n - 1,
            n == t@.len(),
            t.is_ascii(),
            b == t@.drop_last(),
            dot == m || (dot < i && b[dot as int] == '.'),
            forall|k: int| 0 <= k < i && k != dot ==> crate::numstr::is_digit_char(
                #[trigger] b[k],
            ),
            forall|k: int| 0 <= k < i && k != dot ==> b[k] != '.',
        decreases m - i,
    {
        let c = t.get_ascii(i);
        proof {
            assert('\0' <= t@[i as int] <= '\u{7f}');
        }
        if c == 46 {
            if dot < m {
                proof {
                    lemma_find_dot_at(b, dot as int);
                    let fr = dur_frac_part(b);
                    assert(fr == b.skip(dot as int + 1));
                    assert(0 <= i - dot - 1 < fr.len());
                    assert(fr[i - dot - 1] == b[i as int]);
                    assert(b[i as int] == '.');
                    assert(!crate::numstr::is_digit_char(fr[i - dot - 1]));
                    assert(!all_digits(fr));
                    assert(parse_duration_model(s@) is None);
                }
                return None;
            }
            dot = i;
        } else if c < 48 || c > 57 {
            proof {
                lemma_find_dot_props(b);
                let d = find_dot(b);
                assert(b[i as int] != '.');
                if dot == m {
                    if d >= 0 && d < i {
                        assert(b[d] == '.');
                        assert(false);
                    }
                    if d < 0 {
                        assert(!crate::numstr::is_digit_char(dur_int_part(b)[i as int]));
                    } else {
                        assert(d > i);
                        assert(!crate::numstr::is_digit_char(dur_int_part(b)[i as int]));
                    }
                } else {
                    lemma_find_dot_at(b, dot as int);
                    let fr = dur_frac_part(b);
                    assert(0 <= i - dot - 1 < fr.len());
                    assert(fr[i - dot - 1] == b[i as int]);
                    assert(!crate::numstr::is_digit_char(fr[i - dot - 1]));
                    assert(!all_digits(fr));
                }
                assert(parse_duration_model(s@) is None);
            }
            return None;
        }
        i += 1;
    }
    proof {
        if dot == m {
            lemma_find_dot_at(b, m as int);
        } else {
            lemma_find_dot_at(b, dot as int);
        }
    }
    if m == 1 && dot == 0 {
        return None;
    }
    let intlen = if dot < m {
        dot
    } else {
        m
    };
    proof {
        assert(dur_int_part(b) =~= b.take(intlen as int));
        if dot < m {
            assert(dur_frac_part(b) =~= b.skip(dot as int + 1));
        }
        assert(crate::numstr::all_digits(dur_int_part(b)));
        assert(crate::numstr::all_digits(dur_frac_part(b)));
    }
    let mut secs: u64 = 0;
    let mut j: usize = 0;
    while j < intlen
        invariant
            0 <= j <= intlen <= m < n,
            n == t@.len(),
            t.is_ascii(),
            b == t@.drop_last(),
            dur_int_part(b) == b.take(intlen as int),
            crate::numstr::all_digits(dur_int_part(b)),
            secs == digits_val(b.take(intlen as int).take(j as int)),
        decreases intlen - j,
    {
        let c = t.get_ascii(j);
        proof {
            assert('\0' <= t@[j as int] <= '\u{7f}');
            assert(b.take(intlen as int)[j as int] == b[j as int]);
            assert(crate::numstr::is_digit_char(b[j as int]));
        }
        let d = (c - 48) as u64;
        proof {
            assert(crate::numstr::digit_val(b[j as int]) == d);
            assert(b.take(intlen as int).take(j + 1).drop_last() =~= b.take(
                intlen as int,
            ).take(j as int));
        }
        let step = match secs.checked_mul(10) {
            Some(x) => x.checked_add(d),
            None => None,
        };
        match step {
            Some(x) => {
                secs = x;
            }
            None => {
                proof {
                    crate::numstr::lemma_digits_val_prefix(
                        b.take(intlen as int),
                        j + 1,
                    );
                    assert(digits_val(b.take(intlen as int).take(j + 1)) == secs * 10
                        + d);
                    assert(digits_val(dur_int_part(b)) > u64::MAX);
                    assert(parse_duration_model(s@) is None);
                }
                return None;
            }
        }
        j += 1;
    }
    proof {
        assert(b.take(intlen as int).take(intlen as int) =~= b.take(intlen as int));
    }
    let ghost f = dur_frac_part(b);
    let mut acc: u64 = 0;
    let mut k: usize = 0;
    proof {
        lemma_pow10_values();
        assert(fpad(f).take(0) =~= Seq::<char>::empty());
    }
    while k < 9
        invariant
            0 <= k <= 9,
            n == t@.len(),
            t.is_ascii(),
            b == t@.drop_last(),
            f == dur_frac_part(b),
            dot <= m == n - 1,
            dot < m ==> f == b.skip(dot as int + 1),
            dot == m ==> f == Seq::<char>::empty(),
            crate::numstr::all_digits(f),
            acc == digits_val(fpad(f).take(k as int)),
            acc < pow10(k as nat),
            pow10(9) == 1000000000,
        decreases 9 - k,
    {
        proof {
            lemma_pow10_values();
        }
        let d: u64 = if dot < m && k < m - (dot + 1) {
            let c = t.get_ascii(dot + 1 + k);
            proof {
                assert('\0' <= t@[dot + 1 + k] <= '\u{7f}');
                assert(f[k as int] == b[dot + 1 + k]);
                assert(fpad(f)[k as int] == f[k as int]);
                assert(crate::numstr::is_digit_char(f[k as int]));
            }
            (c - 48) as u64
        } else {
            proof {
                if k < fpad(f).len() && k >= f.len() {
                    assert(fpad(f)[k as int] == '0');
                }
            }
            0
        };
        proof {
            assert(crate::numstr::digit_val(fpad(f)[k as int]) == d);
            assert(fpad(f).take(k + 1).drop_last() =~= fpad(f).take(k as int));
        }
        acc = acc * 10 + d;
        k += 1;
    }
    proof {
        assert(fpad(f).take(9) =~= fpad(f));
        lemma_fpad_val(f);
        lemma_pow10_values();
    }
    Some(Duration { secs, nanos: acc as u32 })
}

/// Format a duration as its decimal text.
pub fn fmt_duration(d: &Duration) -> (r: String)
    requires
        d.wf(),
    ensures
        r@ == duration_text(*d),
{
    proof {
        reveal_strlit(".");
        reveal_strlit("s");
    }
    let mut out = fmt_u64(d.secs);
    if d.nanos > 0 {
        out.append(".");
        proof {
            assert(pow10_chain(1));
            assert(pow10_chain(10));
            assert(pow10_chain(100));
            assert(pow10_chain(1000));
            assert(pow10_chain(10000));
            assert(pow10_chain(100000));
            assert(pow10_chain(1000000));
            assert(pow10_chain(10000000));
            assert(pow10_chain(100000000));
        }
        push_frac(&mut out, d.nanos as u64, 100_000_000);
    }
    out.append("s");
    proof {
        assert(out@ =~= duration_text(*d));
    }
    out
}

} // verus!
