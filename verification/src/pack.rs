//! Binary wire primitives: big-endian fixed-width integers, LEB128
//! varints, zig-zag signed encodings, and length-delimited byte runs.

use vstd::prelude::*;

verus! {

// ---------------------------------------------------------------- zig-zag
/// The zig-zag image of a signed 32-bit value: non-negative `n` maps to
/// `2n`, negative `n` to `-2n - 1`, so small magnitudes stay small.
pub open spec fn zigzag32(n: i32) -> u32 {
    if n >= 0 {
        (2 * n) as u32
    } else {
        (-2 * n - 1) as u32
    }
}

pub open spec fn unzigzag32(z: u32) -> i32 {
    if z % 2 == 0 {
        (z / 2) as i32
    } else {
        (-((z as int + 1) / 2)) as i32
    }
}

pub open spec fn zigzag64(n: i64) -> u64 {
    if n >= 0 {
        (2 * n) as u64
    } else {
        (-2 * n - 1) as u64
    }
}

pub open spec fn unzigzag64(z: u64) -> i64 {
    if z % 2 == 0 {
        (z / 2) as i64
    } else {
        (-((z as int + 1) / 2)) as i64
    }
}

/// Zig-zag encode a 32-bit signed value.
pub fn i32_zz(n: i32) -> (r: u32)
    ensures
        r == zigzag32(n),
{
    if n >= 0 {
        (n as u32) * 2
    } else {
        let m = -(n + 1);
        (m as u32) * 2 + 1
    }
}

/// Undo [`i32_zz`].
pub fn i32_uzz(z: u32) -> (r: i32)
    ensures
        r == unzigzag32(z),
{
    if z % 2 == 0 {
        (z / 2) as i32
    } else {
        -((z / 2) as i32) - 1
    }
}

/// Zig-zag encode a 64-bit signed value.
pub fn i64_zz(n: i64) -> (r: u64)
    ensures
        r == zigzag64(n),
{
    if n >= 0 {
        (n as u64) * 2
    } else {
        let m = -(n + 1);
        (m as u64) * 2 + 1
    }
}

/// Undo [`i64_zz`].
pub fn i64_uzz(z: u64) -> (r: i64)
    ensures
        r == unzigzag64(z),
{
    if z % 2 == 0 {
        (z / 2) as i64
    } else {
        -((z / 2) as i64) - 1
    }
}

/// Zig-zag loses nothing: decoding the encoding gives the value back.
pub proof fn lemma_zigzag32_roundtrip(n: i32)
    ensures
        unzigzag32(zigzag32(n)) == n,
{
}

/// Zig-zag loses nothing: decoding the encoding gives the value back.
pub proof fn lemma_zigzag64_roundtrip(n: i64)
    ensures
        unzigzag64(zigzag64(n)) == n,
{
}

// ----------------------------------------------------------------- varint
/// The LEB128 bytes of `n`: seven value bits per byte, least significant
/// group first, the high bit marking a continuation.
pub open spec fn varint_enc(n: u64) -> Seq<u8>
    decreases n,
{
    if n < 128 {
        seq![n as u8]
    } else {
        seq![(n % 128 + 128) as u8] + varint_enc(n / 128)
    }
}

/// What decoding a varint from the front of `s` gives, with at most `fuel`
/// bytes of the encoding considered.
pub open spec fn varint_dec_rec(s: Seq<u8>, fuel: nat) -> Option<(u64, nat)>
    decreases fuel,
{
    if fuel == 0 || s.len() == 0 {
        None
    } else if s[0] < 128 {
        Some((s[0] as u64, 1))
    } else {
        match varint_dec_rec(s.skip(1), (fuel - 1) as nat) {
            None => None,
            Some((v, k)) => {
                let val = (s[0] as int - 128) + 128 * (v as int);
                if val <= u64::MAX {
                    Some((val as u64, k + 1))
                } else {
                    None
                }
            }
        }
    }
}

/// A varint occupies at most ten bytes; longer runs of continuation bytes
/// are rejected, as the reference decoders do.
pub open spec fn varint_dec(s: Seq<u8>) -> Option<(u64, nat)> {
    varint_dec_rec(s, 10)
}

/// A varint encoding is short: at most ten bytes for a 64-bit value.
pub proof fn lemma_varint_enc_len(n: u64)
    ensures
        1 <= varint_enc(n).len() <= 10,
        n < 128 ==> varint_enc(n).len() == 1,
    decreases n,
{
    if n >= 128 {
        lemma_varint_enc_len(n / 128);
        let n1 = n / 128;
        let n2 = n1 / 128;
        let n3 = n2 / 128;
        let n4 = n3 / 128;
        let n5 = n4 / 128;
        let n6 = n5 / 128;
        let n7 = n6 / 128;
        let n8 = n7 / 128;
        let n9 = n8 / 128;
        assert(n9 < 128);
        assert(varint_enc(n).len() == 1 + varint_enc(n1).len());
        lemma_varint_len_step(n1);
        lemma_varint_len_step(n2);
        lemma_varint_len_step(n3);
        lemma_varint_len_step(n4);
        lemma_varint_len_step(n5);
        lemma_varint_len_step(n6);
        lemma_varint_len_step(n7);
        lemma_varint_len_step(n8);
    }
}

proof fn lemma_varint_len_step(n: u64)
    ensures
        n < 128 ==> varint_enc(n).len() == 1,
        n >= 128 ==> varint_enc(n).len() == 1 + varint_enc(n / 128).len(),
{
}

/// Decoding consumes at least one and at most `s.len()` bytes.
pub proof fn lemma_varint_dec_len(s: Seq<u8>, fuel: nat)
    ensures
        match varint_dec_rec(s, fuel) {
            Some((_, k)) => 1 <= k <= s.len() && k <= fuel,
            None => true,
        },
    decreases fuel,
{
    if fuel > 0 && s.len() > 0 && s[0] >= 128 {
        lemma_varint_dec_len(s.skip(1), (fuel - 1) as nat);
    }
}

/// Decoding a varint from its own encoding, whatever follows it, returns
/// the encoded value and consumes exactly the encoding.
pub proof fn lemma_varint_roundtrip(n: u64, rest: Seq<u8>)
    ensures
        varint_dec(varint_enc(n) + rest) == Some((n, varint_enc(n).len())),
{
    lemma_varint_enc_len(n);
    lemma_varint_roundtrip_rec(n, rest, 10);
}

proof fn lemma_varint_roundtrip_rec(n: u64, rest: Seq<u8>, fuel: nat)
    requires
        varint_enc(n).len() <= fuel,
    ensures
        varint_dec_rec(varint_enc(n) + rest, fuel) == Some((n, varint_enc(n).len())),
    decreases n,
{
    let s = varint_enc(n) + rest;
    if n < 128 {
        assert(s[0] == n as u8);
    } else {
        assert(s[0] == (n % 128 + 128) as u8);
        assert(s[0] >= 128);
        lemma_varint_enc_len(n / 128);
        lemma_varint_roundtrip_rec(n / 128, rest, (fuel - 1) as nat);
        assert(s.skip(1) =~= varint_enc(n / 128) + rest);
        let v = n / 128;
        let k = varint_enc(n / 128).len();
        assert(varint_dec_rec(s.skip(1), (fuel - 1) as nat) == Some((v as u64, k)));
        assert((s[0] as int - 128) + 128 * (v as int) == n);
    }
}

/// Append the LEB128 bytes of `n` to `buf`.
pub fn encode_varint(n: u64, buf: &mut Vec<u8>)
    ensures
        final(buf)@ == old(buf)@ + varint_enc(n),
    decreases n,
{
    if n < 128 {
        buf.push(n as u8);
    } else {
        buf.push((n % 128 + 128) as u8);
        encode_varint(n / 128, buf);
        proof {
            assert(buf@ =~= old(buf)@ + varint_enc(n));
        }
    }
}

/// How many bytes the LEB128 form of `n` takes.
pub fn varint_len(n: u64) -> (r: usize)
    ensures
        r == varint_enc(n).len(),
        1 <= r <= 10,
    decreases n,
{
    proof {
        lemma_varint_enc_len(n);
    }
    if n < 128 {
        1
    } else {
        1 + varint_len(n / 128)
    }
}

/// Decode a varint at `pos`, returning the value and the position just
/// past it.
pub fn decode_varint(buf: &[u8], pos: usize) -> (r: Option<(u64, usize)>)
    requires
        pos <= buf@.len(),
    ensures
        r matches Some(p) ==> {
            &&& varint_dec(buf@.skip(pos as int)) == Some((p.0, (p.1 - pos) as nat))
            &&& pos < p.1 <= buf@.len()
        },
        r is None ==> varint_dec(buf@.skip(pos as int)) is None,
{
    decode_varint_rec(buf, pos, 10)
}

fn decode_varint_rec(buf: &[u8], pos: usize, fuel: usize) -> (r: Option<(u64, usize)>)
    requires
        pos <= buf@.len(),
    ensures
        r matches Some(p) ==> {
            &&& varint_dec_rec(buf@.skip(pos as int), fuel as nat) == Some((
                p.0,
                (p.1 - pos) as nat,
            ))
            &&& pos < p.1 <= buf@.len()
        },
        r is None ==> varint_dec_rec(buf@.skip(pos as int), fuel as nat) is None,
    decreases fuel,
{
    if fuel == 0 || pos == buf.len() {
        return None;
    }
    let b = *vstd::slice::slice_index_get(buf, pos);
    if b < 128 {
        Some((b as u64, pos + 1))
    } else {
        proof {
            assert(buf@.skip(pos as int).skip(1) =~= buf@.skip(pos as int + 1));
        }
        match decode_varint_rec(buf, pos + 1, fuel - 1) {
            None => None,
            Some((v, np)) => {
                let low = (b - 128) as u64;
                match v.checked_mul(128) {
                    None => None,
                    Some(hi) => match hi.checked_add(low) {
                        None => None,
                        Some(val) => Some((val, np)),
                    },
                }
            }
        }
    }
}

// ------------------------------------------------------------- big endian
/// The four big-endian bytes of a 32-bit value.
pub open spec fn be4(x: u32) -> Seq<u8> {
    seq![(x >> 24) as u8, (x >> 16) as u8, (x >> 8) as u8, x as u8]
}

/// The 32-bit value of four big-endian bytes.
pub open spec fn u32_of_be(b0: u8, b1: u8, b2: u8, b3: u8) -> u32 {
    ((b0 as u32) << 24) | ((b1 as u32) << 16) | ((b2 as u32) << 8) | (b3 as u32)
}

/// The eight big-endian bytes of a 64-bit value.
pub open spec fn be8(x: u64) -> Seq<u8> {
    seq![
        (x >> 56) as u8, (x >> 48) as u8, (x >> 40) as u8, (x >> 32) as u8,
        (x >> 24) as u8, (x >> 16) as u8, (x >> 8) as u8, x as u8,
    ]
}

/// The 64-bit value of eight big-endian bytes.
pub open spec fn u64_of_be(
    b0: u8, b1: u8, b2: u8, b3: u8, b4: u8, b5: u8, b6: u8, b7: u8,
) -> u64 {
    ((b0 as u64) << 56) | ((b1 as u64) << 48) | ((b2 as u64) << 40) | ((b3 as u64) << 32)
        | ((b4 as u64) << 24) | ((b5 as u64) << 16) | ((b6 as u64) << 8) | (b7 as u64)
}

/// Big-endian framing loses nothing for 32-bit values.
pub proof fn lemma_be4_roundtrip(x: u32)
    ensures
        u32_of_be(be4(x)[0], be4(x)[1], be4(x)[2], be4(x)[3]) == x,
{
    assert((((x >> 24) as u8 as u32) << 24) | (((x >> 16) as u8 as u32) << 16) | (((x
        >> 8) as u8 as u32) << 8) | ((x as u8) as u32) == x) by (bit_vector);
}

/// Big-endian framing loses nothing for 64-bit values.
pub proof fn lemma_be8_roundtrip(x: u64)
    ensures
        u64_of_be(
            be8(x)[0], be8(x)[1], be8(x)[2], be8(x)[3],
            be8(x)[4], be8(x)[5], be8(x)[6], be8(x)[7],
        ) == x,
{
    assert((((x >> 56) as u8 as u64) << 56) | (((x >> 48) as u8 as u64) << 48) | (((x
        >> 40) as u8 as u64) << 40) | (((x >> 32) as u8 as u64) << 32) | (((x
        >> 24) as u8 as u64) << 24) | (((x >> 16) as u8 as u64) << 16) | (((x
        >> 8) as u8 as u64) << 8) | ((x as u8) as u64) == x) by (bit_vector);
}

/// Append the four big-endian bytes of `x` to `buf`.
pub fn put_u32_be(x: u32, buf: &mut Vec<u8>)
    ensures
        final(buf)@ == old(buf)@ + be4(x),
{
    buf.push((x >> 24) as u8);
    buf.push((x >> 16) as u8);
    buf.push((x >> 8) as u8);
    buf.push(x as u8);
    proof {
        assert(buf@ =~= old(buf)@ + be4(x));
    }
}

/// Append the eight big-endian bytes of `x` to `buf`.
pub fn put_u64_be(x: u64, buf: &mut Vec<u8>)
    ensures
        final(buf)@ == old(buf)@ + be8(x),
{
    buf.push((x >> 56) as u8);
    buf.push((x >> 48) as u8);
    buf.push((x >> 40) as u8);
    buf.push((x >> 32) as u8);
    buf.push((x >> 24) as u8);
    buf.push((x >> 16) as u8);
    buf.push((x >> 8) as u8);
    buf.push(x as u8);
    proof {
        assert(buf@ =~= old(buf)@ + be8(x));
    }
}

/// Read a big-endian 32-bit value at `pos`.
pub fn get_u32_be(buf: &[u8], pos: usize) -> (r: u32)
    requires
        pos + 4 <= buf@.len(),
    ensures
        r == u32_of_be(
            buf@[pos as int], buf@[pos as int + 1], buf@[pos as int + 2],
            buf@[pos as int + 3],
        ),
{
    let n = buf.len();
    let b0 = *vstd::slice::slice_index_get(buf, pos);
    let b1 = *vstd::slice::slice_index_get(buf, pos + 1);
    let b2 = *vstd::slice::slice_index_get(buf, pos + 2);
    let b3 = *vstd::slice::slice_index_get(buf, pos + 3);
    ((b0 as u32) << 24) | ((b1 as u32) << 16) | ((b2 as u32) << 8) | (b3 as u32)
}

/// Read a big-endian 64-bit value at `pos`.
pub fn get_u64_be(buf: &[u8], pos: usize) -> (r: u64)
    requires
        pos + 8 <= buf@.len(),
    ensures
        r == u64_of_be(
            buf@[pos as int], buf@[pos as int + 1], buf@[pos as int + 2],
            buf@[pos as int + 3], buf@[pos as int + 4], buf@[pos as int + 5],
            buf@[pos as int + 6], buf@[pos as int + 7],
        ),
{
    let n = buf.len();
    let b0 = *vstd::slice::slice_index_get(buf, pos);
    let b1 = *vstd::slice::slice_index_get(buf, pos + 1);
    let b2 = *vstd::slice::slice_index_get(buf, pos + 2);
    let b3 = *vstd::slice::slice_index_get(buf, pos + 3);
    let b4 = *vstd::slice::slice_index_get(buf, pos + 4);
    let b5 = *vstd::slice::slice_index_get(buf, pos + 5);
    let b6 = *vstd::slice::slice_index_get(buf, pos + 6);
    let b7 = *vstd::slice::slice_index_get(buf, pos + 7);
    ((b0 as u64) << 56) | ((b1 as u64) << 48) | ((b2 as u64) << 40) | ((b3 as u64) << 32)
        | ((b4 as u64) << 24) | ((b5 as u64) << 16) | ((b6 as u64) << 8) | (b7 as u64)
}

} // verus!
