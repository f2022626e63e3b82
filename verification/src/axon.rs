//! Address normalization and the serve-axon / serve-prometheus payload
//! builders. An IP address travels as one 128-bit integer: an IPv4 address
//! occupies the low 32 bits, an IPv6 address all 128; `ip_type` records
//! which encoding was used.

use vstd::prelude::*;
use crate::codec::pow256;
use crate::codec::lemma_pow256_values;
use crate::codec::lemma_pow256_mono;

verus! {

/// The value of a big-endian byte string (highest byte first).
pub open spec fn be_val(b: Seq<u8>) -> nat
    decreases b.len(),
{
    if b.len() == 0 {
        0
    } else {
        (be_val(b.take(b.len() - 1)) * 256 + b.last()) as nat
    }
}

/// The `n` big-endian bytes of `v` (highest byte first).
pub open spec fn be_bytes(v: nat, n: nat) -> Seq<u8>
    decreases n,
{
    if n == 0 {
        Seq::empty()
    } else {
        be_bytes(v / 256, (n - 1) as nat) + seq![(v % 256) as u8]
    }
}

pub proof fn lemma_be_val_bound(b: Seq<u8>)
    ensures
        be_val(b) < pow256(b.len()),
    decreases b.len(),
{
    if b.len() > 0 {
        lemma_be_val_bound(b.take(b.len() - 1));
        assert(be_val(b.take(b.len() - 1)) * 256 + b.last() < 256 * pow256(b.take(b.len()
            - 1).len())) by (nonlinear_arith)
            requires
                (b.last() as nat) < 256,
                be_val(b.take(b.len() - 1)) < pow256(b.take(b.len() - 1).len()),
        ;
    }
}

pub proof fn lemma_be_bytes_len(v: nat, n: nat)
    ensures
        be_bytes(v, n).len() == n,
    decreases n,
{
    if n > 0 {
        lemma_be_bytes_len(v / 256, (n - 1) as nat);
    }
}

/// Writing out the big-endian value of a byte string gives the bytes back.
pub proof fn lemma_be_bytes_be_val(b: Seq<u8>)
    ensures
        be_bytes(be_val(b), b.len()) =~= b,
    decreases b.len(),
{
    if b.len() > 0 {
        let front = b.take(b.len() - 1);
        let v = be_val(b);
        assert(v == be_val(front) * 256 + b.last());
        assert(v % 256 == b.last() && v / 256 == be_val(front)) by (nonlinear_arith)
            requires
                v == be_val(front) * 256 + b.last(),
                (b.last() as nat) < 256,
        ;
        lemma_be_bytes_be_val(front);
        lemma_be_bytes_len(be_val(front), front.len());
        assert(be_bytes(v, b.len()) == be_bytes(be_val(front), (b.len() - 1) as nat) + seq![(v
            % 256) as u8]);
        assert(be_bytes(v, b.len()) =~= b);
    }
}

/// Reading back the big-endian bytes of a value gives the value back.
pub proof fn lemma_be_val_be_bytes(v: nat, n: nat)
    requires
        v < pow256(n),
    ensures
        be_val(be_bytes(v, n)) == v,
    decreases n,
{
    if n == 0 {
        assert(v == 0);
    } else {
        let front = be_bytes(v / 256, (n - 1) as nat);
        lemma_be_bytes_len(v / 256, (n - 1) as nat);
        assert(be_bytes(v, n).take(n - 1) =~= front);
        assert(be_bytes(v, n).last() == (v % 256) as u8);
        assert(v / 256 < pow256((n - 1) as nat)) by (nonlinear_arith)
            requires
                v < 256 * pow256((n - 1) as nat),
        ;
        lemma_be_val_be_bytes(v / 256, (n - 1) as nat);
        assert(be_val(be_bytes(v, n)) == (v / 256) * 256 + v % 256);
        assert((v / 256) * 256 + v % 256 == v) by (nonlinear_arith);
    }
}

/// Packs the octets of an address (4 for IPv4, 16 for IPv6, highest
/// first) into the 128-bit integer form.
pub fn encode_ip_octets(octets: &Vec<u8>) -> (r: u128)
    requires
        octets@.len() == 4 || octets@.len() == 16,
    ensures
        r as nat == be_val(octets@),
        octets@.len() == 4 ==> r < 0x100000000,
{
    proof {
        lemma_pow256_values();
        assert(octets@.take(0) =~= Seq::<u8>::empty());
    }
    let n = octets.len();
    let mut acc: u128 = 0;
    let mut i: usize = 0;
    while i < n
        invariant
            i <= n,
            n == octets@.len(),
            n == 4 || n == 16,
            acc as nat == be_val(octets@.take(i as int)),
        decreases n - i,
    {
        proof {
            lemma_be_val_bound(octets@.take(i as int));
            lemma_pow256_mono(i as nat, 15);
            lemma_pow256_values();
            assert((acc as nat) * 256 + 256 <= pow256(i as nat) * 256) by (nonlinear_arith)
                requires
                    (acc as nat) < pow256(i as nat),
            ;
            assert(pow256(i as nat) * 256 == pow256((i + 1) as nat)) by (nonlinear_arith);
            lemma_pow256_mono((i + 1) as nat, 16);
            assert(octets@.take(i + 1).take(i as int) =~= octets@.take(i as int));
            assert(octets@.take(i + 1).last() == octets@[i as int]);
        }
        acc = acc * 256 + (octets[i] as u128);
        i += 1;
    }
    proof {
        assert(octets@.take(n as int) =~= octets@);
        if n == 4 {
            lemma_be_val_bound(octets@);
            lemma_pow256_values();
        }
    }
    acc
}

/// Unpacks a 128-bit integer back into its `n` address octets, highest
/// first: the inverse of `encode_ip_octets`.
pub fn decode_ip_octets(ip: u128, n: usize) -> (r: Vec<u8>)
    requires
        n <= 16,
        (ip as nat) < pow256(n as nat),
    ensures
        r@ == be_bytes(ip as nat, n as nat),
        r@.len() == n,
        be_val(r@) == ip as nat,
    decreases n,
{
    proof {
        lemma_be_bytes_len(ip as nat, n as nat);
        lemma_be_val_be_bytes(ip as nat, n as nat);
    }
    if n == 0 {
        let r: Vec<u8> = Vec::new();
        proof {
            assert(r@ =~= be_bytes(ip as nat, 0nat));
        }
        r
    } else {
        proof {
            assert((ip as nat) / 256 < pow256((n - 1) as nat)) by (nonlinear_arith)
                requires
                    (ip as nat) < 256 * pow256((n - 1) as nat),
            ;
        }
        let mut r = decode_ip_octets(ip / 256, n - 1);
        r.push((ip % 256) as u8);
        proof {
            assert(r@ =~= be_bytes((ip as nat) / 256, (n - 1) as nat) + seq![((ip as nat)
                % 256) as u8]);
        }
        r
    }
}

/// Typed payload of one serve-axon call.
pub struct ServeAxonCall {
    pub netuid: u16,
    pub version: u32,
    pub ip: u128,
    pub port: u16,
    pub ip_type: u8,
    pub protocol: u8,
    pub placeholder1: u8,
    pub placeholder2: u8,
}

/// Typed payload of one serve-prometheus call: same address rule as the
/// axon call, without the protocol and reserved fields.
pub struct ServePrometheusCall {
    pub netuid: u16,
    pub version: u32,
    pub ip: u128,
    pub port: u16,
    pub ip_type: u8,
}

/// Builds the serve-axon payload. The address must already be in its
/// 128-bit form, with an IPv4 address in the low 32 bits.
pub fn build_serve_axon(
    netuid: u16,
    version: u32,
    ip: u128,
    port: u16,
    ip_type: u8,
    protocol: u8,
    placeholder1: u8,
    placeholder2: u8,
) -> (call: ServeAxonCall)
    requires
        ip_type == 4 || ip_type == 6,
        ip_type == 4 ==> ip < 0x100000000,
    ensures
        call.netuid == netuid,
        call.version == version,
        call.ip == ip,
        call.port == port,
        call.ip_type == ip_type,
        call.protocol == protocol,
        call.placeholder1 == placeholder1,
        call.placeholder2 == placeholder2,
{
    ServeAxonCall { netuid, version, ip, port, ip_type, protocol, placeholder1, placeholder2 }
}

/// Builds the serve-prometheus payload, under the same address rule.
pub fn build_serve_prometheus(netuid: u16, version: u32, ip: u128, port: u16, ip_type: u8) -> (call:
    ServePrometheusCall)
    requires
        ip_type == 4 || ip_type == 6,
        ip_type == 4 ==> ip < 0x100000000,
    ensures
        call.netuid == netuid,
        call.version == version,
        call.ip == ip,
        call.port == port,
        call.ip_type == ip_type,
{
    ServePrometheusCall { netuid, version, ip, port, ip_type }
}

/// Address round trip: packing any 4- or 16-octet address into its
/// 128-bit form and unpacking it again gives the original octets; an
/// IPv4 address always fits the low 32 bits.
pub proof fn lemma_ip_round_trip(octets: Seq<u8>)
    requires
        octets.len() == 4 || octets.len() == 16,
    ensures
        be_val(octets) < pow256(octets.len()),
        be_bytes(be_val(octets), octets.len()) == octets,
        octets.len() == 4 ==> be_val(octets) < 0x100000000,
{
    lemma_be_val_bound(octets);
    lemma_be_bytes_be_val(octets);
    lemma_pow256_values();
}

} // verus!
