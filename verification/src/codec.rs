//! Shared binary codec primitives for chain runtime-query payloads: the
//! variable-length compact integer encoding and fixed-width little-endian
//! integers. The compact primitive is implemented once here and reused by
//! every record codec.

use vstd::prelude::*;
use vstd::arithmetic::div_mod::lemma_div_denominator;
use vstd::arithmetic::div_mod::lemma_fundamental_div_mod;

verus! {

/// Why a binary blob failed to decode.
#[derive(Clone, Copy, Debug, PartialEq, Eq, Structural)]
pub enum DecodeError {
    /// The input ended before the value was complete.
    UnexpectedEnd,
    /// A compact integer was not in its shortest admissible form.
    NonCanonical,
    /// A value does not fit the target integer width.
    Overflow,
    /// A byte holds no admissible value (for example a boolean not 0 or 1).
    InvalidValue,
    /// Bytes remained after the expected end of the payload.
    TrailingData,
    /// A registry snapshot whose uids are not strictly ascending.
    UnsortedUids,
}

/// 256 to the power `n`: the number of values that `n` bytes can hold.
pub open spec fn pow256(n: nat) -> nat
    decreases n,
{
    if n == 0 {
        1
    } else {
        256 * pow256((n - 1) as nat)
    }
}

/// The `n` little-endian bytes of `v` (lowest byte first).
pub open spec fn le_bytes(v: nat, n: nat) -> Seq<u8>
    decreases n,
{
    if n == 0 {
        Seq::empty()
    } else {
        seq![(v % 256) as u8] + le_bytes(v / 256, (n - 1) as nat)
    }
}

/// The value of a little-endian byte string (lowest byte first).
pub open spec fn le_val(b: Seq<u8>) -> nat
    decreases b.len(),
{
    if b.len() == 0 {
        0
    } else {
        b[0] as nat + 256 * le_val(b.skip(1))
    }
}

/// The least number of bytes that can hold `v`; at least 1.
pub open spec fn byte_len(v: nat) -> nat
    decreases v,
{
    if v < 256 {
        1
    } else {
        1 + byte_len(v / 256)
    }
}

pub proof fn lemma_pow256_values()
    ensures
        pow256(0) == 1,
        pow256(1) == 0x100,
        pow256(2) == 0x10000,
        pow256(3) == 0x1000000,
        pow256(4) == 0x100000000,
        pow256(7) == 0x100000000000000,
        pow256(8) == 0x10000000000000000,
        pow256(15) == 0x1000000000000000000000000000000,
        pow256(16) == 0x100000000000000000000000000000000,
{
    reveal_with_fuel(pow256, 17);
}

pub proof fn lemma_pow256_mono(a: nat, b: nat)
    requires
        a <= b,
    ensures
        pow256(a) <= pow256(b),
        a < b ==> 256 * pow256(a) <= pow256(b),
    decreases b,
{
    if a < b {
        lemma_pow256_mono(a, (b - 1) as nat);
        assert(pow256(b) == 256 * pow256((b - 1) as nat));
        assert(256 * pow256(a) <= 256 * pow256((b - 1) as nat)) by (nonlinear_arith)
            requires
                pow256(a) <= pow256((b - 1) as nat),
        ;
    }
}

pub proof fn lemma_pow256_pos(n: nat)
    ensures
        pow256(n) >= 1,
    decreases n,
{
    if n > 0 {
        lemma_pow256_pos((n - 1) as nat);
    }
}

pub proof fn lemma_le_bytes_len(v: nat, n: nat)
    ensures
        le_bytes(v, n).len() == n,
    decreases n,
{
    if n > 0 {
        lemma_le_bytes_len(v / 256, (n - 1) as nat);
    }
}

/// Appending one more byte to a little-endian encoding appends the next
/// higher byte of the value.
pub proof fn lemma_le_bytes_snoc(v: nat, n: nat)
    ensures
        le_bytes(v, n + 1) =~= le_bytes(v, n) + seq![((v / pow256(n)) % 256) as u8],
    decreases n,
{
    if n == 0 {
        reveal_with_fuel(le_bytes, 3);
        assert(pow256(0) == 1);
        assert(v / 1 == v);
        assert(le_bytes(v, 0) =~= Seq::<u8>::empty());
        assert(le_bytes(v, 1) =~= seq![(v % 256) as u8]);
        assert(le_bytes(v, 0) + seq![((v / pow256(0)) % 256) as u8] =~= seq![(v % 256) as u8]);
    } else {
        let m = (n - 1) as nat;
        let a = seq![(v % 256) as u8];
        lemma_le_bytes_snoc(v / 256, m);
        lemma_pow256_pos(m);
        lemma_div_denominator(v as int, 256, pow256(m) as int);
        assert((v / 256) / pow256(m) == v / (256 * pow256(m)));
        assert(pow256(n) == 256 * pow256(m));
        assert(m + 1 == n);
        assert(le_bytes(v / 256, n) == le_bytes(v / 256, m) + seq![(
        ((v / 256) / pow256(m)) % 256) as u8]);
        assert(le_bytes(v, n + 1) =~= a + le_bytes(v / 256, n));
        assert(le_bytes(v, n) =~= a + le_bytes(v / 256, m));
        assert(le_bytes(v, n + 1) =~= le_bytes(v, n) + seq![((v / pow256(n)) % 256) as u8]);
    }
}

pub proof fn lemma_le_val_bound(b: Seq<u8>)
    ensures
        le_val(b) < pow256(b.len()),
    decreases b.len(),
{
    if b.len() > 0 {
        lemma_le_val_bound(b.skip(1));
        assert(b[0] as nat + 256 * le_val(b.skip(1)) < 256 * pow256(b.skip(1).len()))
            by (nonlinear_arith)
            requires
                (b[0] as nat) < 256,
                le_val(b.skip(1)) < pow256(b.skip(1).len()),
        ;
    }
}

/// Decoding the little-endian bytes of `v` gives back `v`.
pub proof fn lemma_le_val_le_bytes(v: nat, n: nat)
    requires
        v < pow256(n),
    ensures
        le_val(le_bytes(v, n)) == v,
    decreases n,
{
    if n == 0 {
        assert(v == 0);
    } else {
        let rest = le_bytes(v / 256, (n - 1) as nat);
        lemma_le_bytes_len(v / 256, (n - 1) as nat);
        assert(le_bytes(v, n).skip(1) =~= rest);
        assert(v / 256 < pow256((n - 1) as nat)) by (nonlinear_arith)
            requires
                v < 256 * pow256((n - 1) as nat),
        ;
        lemma_le_val_le_bytes(v / 256, (n - 1) as nat);
        lemma_fundamental_div_mod(v as int, 256);
    }
}

pub proof fn lemma_byte_len_bounds(v: nat)
    ensures
        byte_len(v) >= 1,
        v < pow256(byte_len(v)),
        v > 0 ==> v >= pow256((byte_len(v) - 1) as nat),
    decreases v,
{
    if v < 256 {
        lemma_pow256_values();
    } else {
        let q = v / 256;
        assert(q < v && q >= 1) by (nonlinear_arith)
            requires
                v >= 256,
                q == v / 256,
        ;
        lemma_byte_len_bounds(q);
        let m = byte_len(q);
        assert(v < 256 * pow256(m)) by (nonlinear_arith)
            requires
                q == v / 256,
                q < pow256(m),
        ;
        assert(v >= 256 * pow256((m - 1) as nat)) by (nonlinear_arith)
            requires
                q == v / 256,
                q >= pow256((m - 1) as nat),
                v >= 256,
        ;
        assert(pow256(byte_len(v)) == 256 * pow256(m));
        assert(pow256((byte_len(v) - 1) as nat) == 256 * pow256((m - 1) as nat) || m == 1) by {
            if m >= 2 {
                assert((byte_len(v) - 1) as nat == ((m - 1) + 1) as nat);
            }
        };
        if m == 1 {
            lemma_pow256_values();
            assert(v >= 256);
        }
    }
}

/// A value below `pow256(n)` needs at most `n` bytes.
pub proof fn lemma_byte_len_le(v: nat, n: nat)
    requires
        v < pow256(n),
        n >= 1,
    ensures
        byte_len(v) <= n,
{
    lemma_byte_len_bounds(v);
    if byte_len(v) > n {
        if v == 0 {
            assert(byte_len(0nat) == 1);
        } else {
            lemma_pow256_mono(n, (byte_len(v) - 1) as nat);
            assert(v >= pow256(n));
        }
    }
}

/// Compact encoding of a 64-bit value: the two lowest bits of the first
/// byte select the layout. Values below 2^6 take one byte, below 2^14 two,
/// below 2^30 four; larger values take a length byte plus their minimal
/// little-endian representation.
#[verifier::opaque]
pub open spec fn compact_encode(v: u64) -> Seq<u8> {
    if v < 64 {
        seq![(v * 4) as u8]
    } else if v < 16384 {
        le_bytes((v * 4 + 1) as nat, 2)
    } else if v < 1073741824 {
        le_bytes((v * 4 + 2) as nat, 4)
    } else {
        seq![((byte_len(v as nat) - 4) * 4 + 3) as u8] + le_bytes(v as nat, byte_len(v as nat))
    }
}

/// Canonical decoding of one compact integer from the front of `b`: the
/// value and the number of bytes consumed, or the reason decoding fails.
/// A value encoded in more bytes than its shortest form is rejected.
#[verifier::opaque]
pub open spec fn compact_decode(b: Seq<u8>) -> Result<(u64, int), DecodeError> {
    if b.len() == 0 {
        Err(DecodeError::UnexpectedEnd)
    } else {
        let b0 = b[0] as nat;
        let mode = b0 % 4;
        if mode == 0 {
            Ok(((b0 / 4) as u64, 1))
        } else if mode == 1 {
            if b.len() < 2 {
                Err(DecodeError::UnexpectedEnd)
            } else {
                let v = le_val(b.subrange(0, 2)) / 4;
                if v >= 64 {
                    Ok((v as u64, 2))
                } else {
                    Err(DecodeError::NonCanonical)
                }
            }
        } else if mode == 2 {
            if b.len() < 4 {
                Err(DecodeError::UnexpectedEnd)
            } else {
                let v = le_val(b.subrange(0, 4)) / 4;
                if v >= 16384 {
                    Ok((v as u64, 4))
                } else {
                    Err(DecodeError::NonCanonical)
                }
            }
        } else {
            let n = b0 / 4 + 4;
            if n > 8 {
                Err(DecodeError::Overflow)
            } else if b.len() < n + 1 {
                Err(DecodeError::UnexpectedEnd)
            } else {
                let v = le_val(b.subrange(1, n as int + 1));
                if v >= 1073741824 && v >= pow256((n - 1) as nat) {
                    Ok((v as u64, n as int + 1))
                } else {
                    Err(DecodeError::NonCanonical)
                }
            }
        }
    }
}

/// Decoding starts over again exactly where an encoding was laid down:
/// whatever follows it, the encoded value and its length come back.
pub proof fn lemma_compact_round_trip(v: u64, rest: Seq<u8>)
    ensures
        1 <= compact_encode(v).len() <= 9,
        compact_decode(compact_encode(v) + rest) == Ok::<(u64, int), DecodeError>(
            (v, compact_encode(v).len() as int),
        ),
{
    reveal(compact_encode);
    reveal(compact_decode);
    lemma_pow256_values();
    let e = compact_encode(v);
    let b = e + rest;
    if v < 64 {
        assert(((v * 4) as u8) as nat == v * 4);
        assert(b[0] as nat == v * 4);
        assert((v * 4) % 4 == 0 && (v * 4) / 4 == v) by (nonlinear_arith);
    } else if v < 16384 {
        let u = (v * 4 + 1) as nat;
        lemma_le_bytes_len(u, 2);
        lemma_le_val_le_bytes(u, 2);
        assert(b.subrange(0, 2) =~= le_bytes(u, 2));
        assert(b[0] as nat == u % 256);
        assert((u % 256) % 4 == 1 && u / 4 == v) by (nonlinear_arith)
            requires
                u == v * 4 + 1,
        ;
    } else if v < 1073741824 {
        let u = (v * 4 + 2) as nat;
        lemma_le_bytes_len(u, 4);
        lemma_le_val_le_bytes(u, 4);
        assert(b.subrange(0, 4) =~= le_bytes(u, 4));
        assert(b[0] as nat == u % 256);
        assert((u % 256) % 4 == 2 && u / 4 == v) by (nonlinear_arith)
            requires
                u == v * 4 + 2,
        ;
    } else {
        let n = byte_len(v as nat);
        lemma_byte_len_bounds(v as nat);
        lemma_byte_len_le(v as nat, 8);
        if n < 4 {
            lemma_pow256_mono(n, 3);
            assert(false);
        }
        lemma_le_bytes_len(v as nat, n);
        lemma_le_val_le_bytes(v as nat, n);
        let p = ((n - 4) * 4 + 3) as u8;
        assert(p as nat == (n - 4) * 4 + 3);
        assert(b[0] == p);
        assert((p as nat) % 4 == 3 && (p as nat) / 4 == n - 4) by (nonlinear_arith)
            requires
                p as nat == (n - 4) * 4 + 3,
                4 <= n <= 8,
        ;
        assert(b.subrange(1, n as int + 1) =~= le_bytes(v as nat, n));
        assert(v >= pow256((n - 1) as nat));
    }
}

/// Appends the `n` little-endian bytes of `v` to `out`.
pub fn encode_le_u128(v: u128, n: usize, out: &mut Vec<u8>)
    requires
        (v as nat) < pow256(n as nat),
    ensures
        final(out)@ == old(out)@ + le_bytes(v as nat, n as nat),
{
    let ghost orig = out@;
    let mut cur: u128 = v;
    let mut i: usize = 0;
    proof {
        assert(pow256(0nat) == 1);
        assert((v as nat) / 1 == v as nat);
        assert(le_bytes(v as nat, 0nat) =~= Seq::<u8>::empty());
    }
    while i < n
        invariant
            i <= n,
            cur as nat == (v as nat) / pow256(i as nat),
            out@ == orig + le_bytes(v as nat, i as nat),
        decreases n - i,
    {
        let b: u8 = (cur % 256) as u8;
        proof {
            lemma_le_bytes_snoc(v as nat, i as nat);
            lemma_pow256_pos(i as nat);
            lemma_div_denominator(v as int, pow256(i as nat) as int, 256);
            assert(pow256((i + 1) as nat) == 256 * pow256(i as nat));
            assert(pow256(i as nat) * 256 == 256 * pow256(i as nat)) by (nonlinear_arith);
            assert(out@ + seq![b] == orig + le_bytes(v as nat, (i + 1) as nat));
        }
        out.push(b);
        cur = cur / 256;
        i = i + 1;
    }
    proof {
        assert(le_bytes(v as nat, 0nat) =~= Seq::<u8>::empty());
    }
}

/// Reads the `n`-byte little-endian value at `pos`.
pub fn decode_le_u128(bytes: &Vec<u8>, pos: usize, n: usize) -> (r: u128)
    requires
        n <= 16,
        pos + n <= bytes@.len(),
    ensures
        r as nat == le_val(bytes@.subrange(pos as int, pos + n)),
{
    let blen: usize = bytes.len();
    let mut acc: u128 = 0;
    let mut i: usize = 0;
    proof {
        assert(bytes@.subrange((pos + n) as int, (pos + n) as int) =~= Seq::<u8>::empty());
    }
    while i < n
        invariant
            i <= n <= 16,
            pos + n <= blen,
            blen as nat == bytes@.len(),
            acc as nat == le_val(bytes@.subrange((pos + n - i) as int, (pos + n) as int)),
        decreases n - i,
    {
        let idx = pos + (n - 1 - i);
        let b = bytes[idx];
        proof {
            let tail = bytes@.subrange((pos + n - i) as int, (pos + n) as int);
            let whole = bytes@.subrange((pos + n - i - 1) as int, (pos + n) as int);
            lemma_le_val_bound(tail);
            lemma_pow256_mono(i as nat, 15);
            lemma_pow256_values();
            assert(whole =~= seq![bytes@[idx as int]] + tail);
            assert(whole.skip(1) =~= tail);
            assert(le_val(whole) == b as nat + 256 * le_val(tail));
            assert((acc as nat) * 256 + 256 <= pow256(i as nat) * 256) by (nonlinear_arith)
                requires
                    (acc as nat) < pow256(i as nat),
            ;
            assert(pow256(i as nat) * 256 == 256 * pow256(i as nat)) by (nonlinear_arith);
            assert(256 * pow256(i as nat) == pow256((i + 1) as nat));
            lemma_pow256_mono((i + 1) as nat, 16);
        }
        acc = acc * 256 + (b as u128);
        i += 1;
    }
    acc
}

/// The least number of bytes that can hold `v`.
pub fn byte_len_u64(v: u64) -> (n: usize)
    ensures
        n as nat == byte_len(v as nat),
        1 <= n <= 8,
{
    proof {
        lemma_byte_len_bounds(v as nat);
        lemma_pow256_values();
        lemma_byte_len_le(v as nat, 8);
    }
    let mut cur: u64 = v;
    let mut n: usize = 1;
    while cur >= 256
        invariant
            1 <= n <= 8,
            byte_len(v as nat) == (n - 1) as nat + byte_len(cur as nat),
            n as nat + byte_len(cur as nat) <= 9,
        decreases cur,
    {
        proof {
            lemma_byte_len_bounds(cur as nat);
            lemma_byte_len_bounds((cur / 256) as nat);
            assert(byte_len(cur as nat) == 1 + byte_len((cur / 256) as nat));
        }
        cur = cur / 256;
        n += 1;
    }
    proof {
        assert(byte_len(cur as nat) == 1);
        assert(byte_len(v as nat) <= 8);
    }
    n
}

/// Appends the compact encoding of `v` to `out`.
pub fn encode_compact_u64(v: u64, out: &mut Vec<u8>)
    ensures
        final(out)@ == old(out)@ + compact_encode(v),
{
    proof {
        reveal(compact_encode);
        lemma_pow256_values();
    }
    if v < 64 {
        out.push((v as u8) * 4);
        proof {
            assert(out@ =~= old(out)@ + compact_encode(v));
        }
    } else if v < 16384 {
        let u = v * 4 + 1;
        encode_le_u128(u as u128, 2, out);
    } else if v < 1073741824 {
        let u = v * 4 + 2;
        encode_le_u128(u as u128, 4, out);
    } else {
        proof {
            lemma_byte_len_bounds(v as nat);
            if byte_len(v as nat) < 4 {
                lemma_pow256_mono(byte_len(v as nat), 3);
                assert(false);
            }
        }
        let ghost mid = out@;
        let n = byte_len_u64(v);
        out.push(((n as u8) - 4) * 4 + 3);
        encode_le_u128(v as u128, n, out);
        proof {
            assert(out@ =~= old(out)@ + compact_encode(v));
        }
    }
}

/// Reads one compact integer at `pos`: the value and the position just
/// after it. Succeeds exactly when the bytes at `pos` open with a
/// well-formed, canonical compact integer that fits in 64 bits.
pub fn decode_compact_u64(bytes: &Vec<u8>, pos: usize) -> (r: Result<(u64, usize), DecodeError>)
    requires
        pos <= bytes@.len(),
    ensures
        ({
            let s = bytes@.skip(pos as int);
            match r {
                Ok(p) => pos < p.1 <= bytes@.len() && compact_decode(s) == Ok::<
                    (u64, int),
                    DecodeError,
                >((p.0, p.1 - pos)),
                Err(e) => compact_decode(s) == Err::<(u64, int), DecodeError>(e),
            }
        }),
{
    proof {
        reveal(compact_decode);
    }
    let ghost s = bytes@.skip(pos as int);
    if pos == bytes.len() {
        return Err(DecodeError::UnexpectedEnd);
    }
    let b0 = bytes[pos];
    proof {
        assert(s[0] == bytes@[pos as int]);
    }
    let mode = b0 % 4;
    if mode == 0 {
        let v = (b0 / 4) as u64;
        Ok((v, pos + 1))
    } else if mode == 1 {
        if bytes.len() - pos < 2 {
            Err(DecodeError::UnexpectedEnd)
        } else {
            let u = decode_le_u128(bytes, pos, 2);
            proof {
                assert(s.subrange(0, 2) =~= bytes@.subrange(pos as int, pos + 2));
                lemma_le_val_bound(bytes@.subrange(pos as int, pos + 2));
                lemma_pow256_values();
            }
            let v = (u / 4) as u64;
            if v >= 64 {
                Ok((v, pos + 2))
            } else {
                Err(DecodeError::NonCanonical)
            }
        }
    } else if mode == 2 {
        if bytes.len() - pos < 4 {
            Err(DecodeError::UnexpectedEnd)
        } else {
            let u = decode_le_u128(bytes, pos, 4);
            proof {
                assert(s.subrange(0, 4) =~= bytes@.subrange(pos as int, pos + 4));
                lemma_le_val_bound(bytes@.subrange(pos as int, pos + 4));
                lemma_pow256_values();
            }
            let v = (u / 4) as u64;
            if v >= 16384 {
                Ok((v, pos + 4))
            } else {
                Err(DecodeError::NonCanonical)
            }
        }
    } else {
        let n = (b0 / 4) as usize + 4;
        if n > 8 {
            Err(DecodeError::Overflow)
        } else if bytes.len() - (pos + 1) < n {
            Err(DecodeError::UnexpectedEnd)
        } else {
            let u = decode_le_u128(bytes, pos + 1, n);
            proof {
                assert(s.subrange(1, n as int + 1) =~= bytes@.subrange(pos + 1, pos + 1 + n));
                lemma_le_val_bound(bytes@.subrange(pos + 1, pos + 1 + n));
                lemma_pow256_mono(n as nat, 8);
                lemma_pow256_values();
            }
            let v = u as u64;
            let mut t: u64 = 1;
            let mut j: usize = 0;
            while j < n - 1
                invariant
                    j <= n - 1,
                    4 <= n <= 8,
                    t as nat == pow256(j as nat),
                decreases n - 1 - j,
            {
                proof {
                    lemma_pow256_mono((j + 1) as nat, 7);
                    lemma_pow256_values();
                    assert(256 * pow256(j as nat) == pow256((j + 1) as nat));
                    assert((t as nat) * 256 == 256 * (t as nat)) by (nonlinear_arith);
                }
                t = t * 256;
                j += 1;
            }
            if v >= 1073741824 && v >= t {
                Ok((v, pos + 1 + n))
            } else {
                Err(DecodeError::NonCanonical)
            }
        }
    }
}

} // verus!
