//! The format's base-128, continuation-bit-tagged integer encoding.
//!
//! Each of the first eight bytes contributes its low seven bits, and a
//! clear high bit marks the final byte; if eight continuation bytes go by
//! without termination, a ninth byte contributes all eight of its bits and
//! terminates unconditionally.

use vstd::prelude::*;

use crate::error::Error;

verus! {

use vstd::arithmetic::div_mod::{
    lemma_fundamental_div_mod, lemma_hoist_over_denominator, lemma_mod_bound,
    lemma_mod_multiples_vanish, lemma_multiply_divide_lt, lemma_small_mod,
};

/// 128^n: how many values n seven-bit groups can carry.
pub open spec fn pow128(n: nat) -> nat
    decreases n,
{
    if n == 0 {
        1
    } else {
        128 * pow128((n - 1) as nat)
    }
}

pub proof fn lemma_pow128_pos(n: nat)
    ensures
        pow128(n) >= 1,
    decreases n,
{
    if n > 0 {
        lemma_pow128_pos((n - 1) as nat);
    }
}

pub proof fn lemma_pow128_mono(a: nat, b: nat)
    requires
        a <= b,
    ensures
        pow128(a) <= pow128(b),
    decreases b,
{
    if a < b {
        lemma_pow128_mono(a, (b - 1) as nat);
        lemma_pow128_pos((b - 1) as nat);
    }
}

pub proof fn lemma_pow128_values()
    ensures
        pow128(0) == 1,
        pow128(1) == 0x80,
        pow128(2) == 0x4000,
        pow128(3) == 0x200000,
        pow128(4) == 0x10000000,
        pow128(5) == 0x800000000,
        pow128(6) == 0x40000000000,
        pow128(7) == 0x2000000000000,
        pow128(8) == 0x100000000000000,
{
    reveal_with_fuel(pow128, 9);
}

pub proof fn lemma_pow128_add(a: nat, b: nat)
    ensures
        pow128(a + b) == pow128(a) * pow128(b),
    decreases a,
{
    if a == 0 {
        assert(a + b == b);
        assert(pow128(a) == 1);
        assert(pow128(a + b) == pow128(a) * pow128(b));
    } else {
        let a1 = (a - 1) as nat;
        lemma_pow128_add(a1, b);
        assert((a + b - 1) as nat == a1 + b);
        assert(pow128(a + b) == 128 * pow128(a1 + b));
        assert(pow128(a) == 128 * pow128(a1));
        assert(128 * (pow128(a1) * pow128(b)) == (128 * pow128(a1)) * pow128(b))
            by (nonlinear_arith);
        assert(pow128(a + b) == pow128(a) * pow128(b));
    }
}

/// Decoding state after the first `i` bytes: `acc` holds the bits read so
/// far. `None` means the input ended before the number terminated.
pub open spec fn decode_rec(bytes: Seq<u8>, i: int, acc: nat) -> Option<(u64, int)>
    decreases 9 - i,
{
    if !(0 <= i <= 8) {
        None
    } else if i >= bytes.len() {
        None
    } else if i == 8 {
        Some((((acc * 256 + bytes[i]) as nat) as u64, 9))
    } else if bytes[i] < 128 {
        Some((((acc * 128 + bytes[i]) as nat) as u64, i + 1))
    } else {
        decode_rec(bytes, i + 1, (acc * 128 + bytes[i] - 128) as nat)
    }
}

/// What decoding a varint at the start of `bytes` yields: the value and
/// the number of bytes consumed, or `None` if the input is too short.
pub open spec fn decode_spec(bytes: Seq<u8>) -> Option<(u64, int)> {
    decode_rec(bytes, 0, 0)
}

/// Reads a varint from the front of `bytes`, returning the decoded value
/// and how many bytes it occupied.
pub fn decode(bytes: &[u8]) -> (r: Result<(u64, usize), Error>)
    ensures
        match r {
            Ok(p) => decode_spec(bytes@) == Some((p.0, p.1 as int)) && 1 <= p.1 <= 9 && p.1
                <= bytes@.len(),
            Err(e) => e == Error::TruncatedVarint && decode_spec(bytes@) is None,
        },
{
    let mut i: usize = 0;
    let mut acc: u64 = 0;
    loop
        invariant
            i <= 8,
            (acc as nat) < pow128(i as nat),
            decode_rec(bytes@, i as int, acc as nat) == decode_spec(bytes@),
        decreases 9 - i,
    {
        proof {
            lemma_pow128_mono(i as nat, 8);
            lemma_pow128_values();
        }
        if i >= bytes.len() {
            return Err(Error::TruncatedVarint);
        }
        let b = bytes[i];
        if i == 8 {
            return Ok((acc * 256 + (b as u64), 9));
        }
        if b < 128 {
            proof {
                lemma_pow128_mono(i as nat, 7);
                lemma_pow128_values();
            }
            return Ok((acc * 128 + (b as u64), i + 1));
        }
        proof {
            lemma_pow128_mono(i as nat, 7);
            lemma_pow128_values();
            assert(pow128((i + 1) as nat) == 128 * pow128(i as nat));
        }
        acc = acc * 128 + ((b - 128) as u64);
        i = i + 1;
    }
}

/// The length of the shortest encoding of `v`: the least n of at most 8
/// with v < 128^n, or 9 when the top eight bits of `v` are in use.
pub open spec fn encode_len(v: u64) -> nat {
    if v < 0x80 {
        1
    } else if v < 0x4000 {
        2
    } else if v < 0x200000 {
        3
    } else if v < 0x10000000 {
        4
    } else if v < 0x800000000 {
        5
    } else if v < 0x40000000000 {
        6
    } else if v < 0x2000000000000 {
        7
    } else if v < 0x100000000000000 {
        8
    } else {
        9
    }
}

/// A continuation byte: the seven-bit group of `hi` at position `j`,
/// counting groups from the least significant, with the high bit set.
pub open spec fn cont_byte(hi: nat, j: nat) -> u8 {
    (128 + (hi / pow128(j)) % 128) as u8
}

/// The bytes of the shortest encoding of `v`. In the nine-byte form the
/// low eight bits of `v` go in the last byte and the remaining 56 bits in
/// the eight continuation bytes; otherwise every byte carries seven bits.
pub open spec fn encode_spec(v: u64) -> Seq<u8> {
    let n = encode_len(v) as int;
    if n <= 8 {
        Seq::new(
            n as nat,
            |k: int|
                if k < n - 1 {
                    cont_byte((v / 128) as nat, (n - 2 - k) as nat)
                } else {
                    (v % 128) as u8
                },
        )
    } else {
        Seq::new(
            9,
            |k: int|
                if k < 8 {
                    cont_byte((v / 256) as nat, (7 - k) as nat)
                } else {
                    (v % 256) as u8
                },
        )
    }
}

/// Running the decoder across a run of continuation bytes that spell out
/// `hi` folds `hi` into the accumulator.
proof fn lemma_decode_cont(bytes: Seq<u8>, i: int, j: int, acc: nat, hi: nat)
    requires
        0 <= i <= j <= 8,
        j <= bytes.len(),
        hi < pow128((j - i) as nat),
        forall|k: int| i <= k < j ==> bytes[k] == cont_byte(hi, (j - 1 - k) as nat),
    ensures
        decode_rec(bytes, i, acc) == decode_rec(bytes, j, acc * pow128((j - i) as nat) + hi),
    decreases j - i,
{
    if i == j {
        assert(pow128(0) == 1);
    } else {
        let m = (j - 1 - i) as nat;
        let p = pow128(m);
        lemma_pow128_pos(m);
        assert(pow128((j - i) as nat) == 128 * p);
        let q = hi as int / p as int;
        let r = hi as int % p as int;
        lemma_fundamental_div_mod(hi as int, p as int);
        lemma_multiply_divide_lt(hi as int, p as int, 128);
        lemma_mod_bound(hi as int, p as int);
        lemma_small_mod(q as nat, 128);
        assert(bytes[i] == cont_byte(hi, m));
        assert(bytes[i] as int == 128 + q);
        let acc2: nat = (acc * 128 + q) as nat;
        assert(decode_rec(bytes, i, acc) == decode_rec(bytes, i + 1, acc2));
        assert forall|k: int| i + 1 <= k < j implies bytes[k] == cont_byte(
            r as nat,
            (j - 1 - k) as nat,
        ) by {
            let dn = (j - 1 - k) as nat;
            let d = pow128(dn);
            lemma_pow128_pos(dn);
            lemma_pow128_add(dn, (k - i) as nat);
            let e = pow128((k - i) as nat);
            assert(p == d * e);
            let e1 = pow128((k - i - 1) as nat);
            assert(e == 128 * e1);
            assert(hi as int == r + (q * e) * d) by (nonlinear_arith)
                requires
                    hi as int == p * q + r,
                    p == d * e,
            ;
            lemma_hoist_over_denominator(r, q * e, d);
            assert(hi as int / d as int == r / d as int + q * e);
            assert(q * e == 128 * (q * e1)) by (nonlinear_arith)
                requires
                    e == 128 * e1,
            ;
            lemma_mod_multiples_vanish(q * e1, r / d as int, 128);
            assert((hi as int / d as int) % 128 == (r / d as int) % 128);
            assert(cont_byte(hi, dn) == cont_byte(r as nat, dn));
        }
        lemma_decode_cont(bytes, i + 1, j, acc2, r as nat);
        assert(acc2 * p + r == acc * (128 * p) + hi) by (nonlinear_arith)
            requires
                acc2 == acc * 128 + q,
                hi as int == p * q + r,
        ;
    }
}

/// Round trip: decoding the shortest encoding of any `v` yields `v` back
/// and consumes the whole encoding.
pub proof fn lemma_round_trip(v: u64)
    ensures
        encode_spec(v).len() == encode_len(v),
        decode_spec(encode_spec(v)) == Some((v, encode_len(v) as int)),
{
    lemma_pow128_values();
    let bytes = encode_spec(v);
    let n = encode_len(v) as int;
    if n <= 8 {
        let hi = (v / 128) as nat;
        assert(v < pow128(n as nat));
        lemma_multiply_divide_lt(v as int, 128, pow128((n - 1) as nat) as int);
        lemma_decode_cont(bytes, 0, n - 1, 0, hi);
        assert(decode_rec(bytes, 0, 0) == decode_rec(bytes, n - 1, hi));
        lemma_fundamental_div_mod(v as int, 128);
        lemma_mod_bound(v as int, 128);
        assert(bytes[n - 1] == (v % 128) as u8);
        assert(decode_rec(bytes, n - 1, hi) == Some((((hi * 128 + bytes[n - 1]) as nat) as u64, n as int)));
        assert(hi * 128 + (v % 128) == v);
    } else {
        let hi = (v / 256) as nat;
        lemma_multiply_divide_lt(v as int, 256, pow128(8) as int);
        lemma_decode_cont(bytes, 0, 8, 0, hi);
        lemma_fundamental_div_mod(v as int, 256);
        lemma_mod_bound(v as int, 256);
        assert(bytes[8] == (v % 256) as u8);
        assert(decode_rec(bytes, 8, hi) == Some((((hi * 256 + bytes[8]) as nat) as u64, 9int)));
        assert(hi * 256 + (v % 256) == v);
    }
}

fn pow128_exec(e: usize) -> (r: u64)
    requires
        e <= 7,
    ensures
        r as nat == pow128(e as nat),
{
    let mut r: u64 = 1;
    let mut k: usize = 0;
    while k < e
        invariant
            k <= e <= 7,
            r as nat == pow128(k as nat),
        decreases e - k,
    {
        proof {
            lemma_pow128_mono((k + 1) as nat, 7);
            lemma_pow128_values();
            assert(pow128((k + 1) as nat) == 128 * pow128(k as nat));
        }
        r = r * 128;
        k = k + 1;
    }
    r
}

/// Writes the shortest encoding of `v`; decoding it yields `v` back.
pub fn encode(v: u64) -> (r: Vec<u8>)
    ensures
        r@ == encode_spec(v),
        r@.len() == encode_len(v),
        decode_spec(r@) == Some((v, r@.len() as int)),
{
    proof {
        lemma_pow128_values();
    }
    let n: usize = if v < 0x80 {
        1
    } else if v < 0x4000 {
        2
    } else if v < 0x200000 {
        3
    } else if v < 0x10000000 {
        4
    } else if v < 0x800000000 {
        5
    } else if v < 0x40000000000 {
        6
    } else if v < 0x2000000000000 {
        7
    } else if v < 0x100000000000000 {
        8
    } else {
        9
    };
    let mut out: Vec<u8> = Vec::new();
    if n == 9 {
        let hi = v / 256;
        let mut k: usize = 0;
        while k < 8
            invariant
                k <= 8,
                hi == v / 256,
                out@.len() == k,
                forall|t: int| 0 <= t < k ==> out@[t] == cont_byte((v / 256) as nat, (7 - t) as nat),
            decreases 8 - k,
        {
            let p = pow128_exec(7 - k);
            proof {
                lemma_pow128_pos((7 - k) as nat);
            }
            let byte: u8 = (128 + ((hi / p) % 128)) as u8;
            out.push(byte);
            k = k + 1;
        }
        out.push((v % 256) as u8);
        proof {
            assert(out@ =~= encode_spec(v));
            lemma_round_trip(v);
        }
    } else {
        let hi = v / 128;
        let mut k: usize = 0;
        while k < n - 1
            invariant
                1 <= n <= 8,
                n == encode_len(v),
                k <= n - 1,
                hi == v / 128,
                out@.len() == k,
                forall|t: int| 0 <= t < k ==> out@[t] == cont_byte((v / 128) as nat, (n - 2 - t) as nat),
            decreases n - 1 - k,
        {
            let p = pow128_exec(n - 2 - k);
            proof {
                lemma_pow128_pos((n - 2 - k) as nat);
            }
            let byte: u8 = (128 + ((hi / p) % 128)) as u8;
            out.push(byte);
            k = k + 1;
        }
        out.push((v % 128) as u8);
        proof {
            assert(out@ =~= encode_spec(v));
            lemma_round_trip(v);
        }
    }
    out
}

} // verus!
