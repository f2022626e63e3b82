//! Builder for the set-weights transaction payload: a weight-assignment list
//! is split into parallel uid/weight arrays of equal length, preserving order.

use vstd::prelude::*;
use crate::codec::le_bytes;
use crate::codec::compact_encode;
use crate::codec::encode_le_u128;
use crate::codec::encode_compact_u64;
use crate::codec::lemma_pow256_values;

verus! {

/// One trust-score assignment: the target participant's uid within the
/// subnet and the unsigned 16-bit weight given to it.
#[derive(Clone, Copy, PartialEq, Eq, Structural)]
pub struct WeightAssignment {
    pub uid: u16,
    pub weight: u16,
}

/// Typed payload of one set-weights call: parallel uid/weight arrays plus
/// the subnet id and an opaque version tag.
pub struct SetWeightsCall {
    pub netuid: u16,
    pub dests: Vec<u16>,
    pub weights: Vec<u16>,
    pub version_key: u64,
}

/// Splits `assignments` into the parallel uid/weight arrays of a
/// set-weights call, preserving relative order. `version_key` is an opaque
/// versioning tag and is passed through unvalidated.
pub fn build_set_weights(netuid: u16, assignments: &Vec<WeightAssignment>, version_key: u64) -> (call:
    SetWeightsCall)
    ensures
        call.netuid == netuid,
        call.version_key == version_key,
        call.dests@.len() == assignments@.len(),
        call.weights@.len() == assignments@.len(),
        forall|i: int|
            0 <= i < assignments@.len() ==> call.dests@[i] == assignments@[i].uid
                && call.weights@[i] == assignments@[i].weight,
{
    let mut dests: Vec<u16> = Vec::new();
    let mut weights: Vec<u16> = Vec::new();
    let mut i: usize = 0;
    while i < assignments.len()
        invariant
            i <= assignments@.len(),
            dests@.len() == i,
            weights@.len() == i,
            forall|j: int|
                0 <= j < i ==> dests@[j] == assignments@[j].uid && weights@[j]
                    == assignments@[j].weight,
        decreases assignments@.len() - i,
    {
        dests.push(assignments[i].uid);
        weights.push(assignments[i].weight);
        i += 1;
    }
    SetWeightsCall { netuid, dests, weights, version_key }
}


/// Wire layout of a list of 16-bit values: each as two little-endian
/// bytes, after the compact element count written by the caller.
pub open spec fn u16_list_bytes(s: Seq<u16>) -> Seq<u8>
    decreases s.len(),
{
    if s.len() == 0 {
        Seq::empty()
    } else {
        le_bytes(s[0] as nat, 2) + u16_list_bytes(s.skip(1))
    }
}

/// Taking one more element appends its two bytes.
pub proof fn lemma_u16_list_take_snoc(s: Seq<u16>, i: int)
    requires
        0 <= i < s.len(),
    ensures
        u16_list_bytes(s.take(i + 1)) =~= u16_list_bytes(s.take(i)) + le_bytes(s[i] as nat, 2),
    decreases i,
{
    if i == 0 {
        assert(s.take(0) =~= Seq::<u16>::empty());
        assert(s.take(1) =~= seq![s[0]]);
        assert(seq![s[0]].skip(1) =~= Seq::<u16>::empty());
        assert(u16_list_bytes(seq![s[0]]) == le_bytes(s[0] as nat, 2) + u16_list_bytes(
            seq![s[0]].skip(1),
        ));
        assert(u16_list_bytes(s.take(1)) =~= u16_list_bytes(s.take(0)) + le_bytes(s[0] as nat, 2));
    } else {
        lemma_u16_list_take_snoc(s.skip(1), i - 1);
        assert(s.take(i + 1).skip(1) =~= s.skip(1).take(i));
        assert(s.take(i).skip(1) =~= s.skip(1).take(i - 1));
        assert(s.take(i + 1)[0] == s[0] && s.take(i)[0] == s[0]);
        assert(s.skip(1)[i - 1] == s[i]);
        assert(u16_list_bytes(s.take(i + 1)) == le_bytes(s[0] as nat, 2) + u16_list_bytes(
            s.skip(1).take(i),
        ));
        assert(u16_list_bytes(s.take(i)) == le_bytes(s[0] as nat, 2) + u16_list_bytes(
            s.skip(1).take(i - 1),
        ));
        assert(u16_list_bytes(s.take(i + 1)) =~= u16_list_bytes(s.take(i)) + le_bytes(
            s[i] as nat,
            2,
        ));
    }
}

/// Wire layout of one set-weights call: the subnet id as two
/// little-endian bytes, the uid and weight arrays each with a compact
/// count and two bytes per element, then the version tag as eight bytes.
pub open spec fn set_weights_bytes(
    netuid: u16,
    dests: Seq<u16>,
    weights: Seq<u16>,
    version_key: u64,
) -> Seq<u8> {
    le_bytes(netuid as nat, 2) + (compact_encode(dests.len() as u64) + (u16_list_bytes(dests) + (
    compact_encode(weights.len() as u64) + (u16_list_bytes(weights) + le_bytes(
        version_key as nat,
        8,
    )))))
}

/// Appends each element of `list` as two little-endian bytes.
fn encode_u16_list(list: &Vec<u16>, out: &mut Vec<u8>)
    ensures
        final(out)@ == old(out)@ + u16_list_bytes(list@),
{
    proof {
        lemma_pow256_values();
        assert(list@.take(0) =~= Seq::<u16>::empty());
    }
    let ghost base = out@;
    let mut i: usize = 0;
    while i < list.len()
        invariant
            i <= list@.len(),
            out@ == base + u16_list_bytes(list@.take(i as int)),
        decreases list@.len() - i,
    {
        proof {
            lemma_pow256_values();
        }
        encode_le_u128(list[i] as u128, 2, out);
        proof {
            lemma_u16_list_take_snoc(list@, i as int);
        }
        i += 1;
    }
    proof {
        assert(list@.take(list@.len() as int) =~= list@);
    }
}

/// Encodes a set-weights call into its immutable wire payload, ready to
/// be signed and submitted exactly once.
pub fn encode_set_weights(call: &SetWeightsCall) -> (out: Vec<u8>)
    ensures
        out@ == set_weights_bytes(call.netuid, call.dests@, call.weights@, call.version_key),
{
    proof {
        lemma_pow256_values();
    }
    let mut out: Vec<u8> = Vec::new();
    encode_le_u128(call.netuid as u128, 2, &mut out);
    encode_compact_u64(call.dests.len() as u64, &mut out);
    encode_u16_list(&call.dests, &mut out);
    encode_compact_u64(call.weights.len() as u64, &mut out);
    encode_u16_list(&call.weights, &mut out);
    encode_le_u128(call.version_key as u128, 8, &mut out);
    proof {
        assert(out@ =~= set_weights_bytes(call.netuid, call.dests@, call.weights@,
        call.version_key));
    }
    out
}

} // verus!
