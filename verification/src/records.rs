//! Typed domain records decoded from runtime-query response blobs, and
//! their binary layout: every integer field uses the shared compact
//! primitive, addresses are raw 32-byte strings, and the axon descriptor
//! uses fixed-width little-endian fields.

use vstd::prelude::*;
use crate::codec::DecodeError;
use crate::codec::compact_encode;
use crate::codec::compact_decode;
use crate::codec::le_bytes;
use crate::codec::le_val;
use crate::codec::encode_compact_u64;
use crate::codec::decode_compact_u64;
use crate::codec::encode_le_u128;
use crate::codec::decode_le_u128;
use crate::codec::lemma_compact_round_trip;
use crate::codec::lemma_le_bytes_len;
use crate::codec::lemma_le_val_le_bytes;
use crate::codec::lemma_le_val_bound;
use crate::codec::lemma_pow256_values;

verus! {

/// A node's advertised service endpoint: the IP is a 128-bit integer
/// (an IPv4 address sits in the low 32 bits), `ip_type` records which
/// encoding was used (4 or 6).
#[derive(Clone, Copy, Debug, PartialEq, Eq, Structural)]
pub struct AxonAdvertisement {
    pub version: u32,
    pub ip: u128,
    pub port: u16,
    pub ip_type: u8,
    pub protocol: u8,
    pub placeholder1: u8,
    pub placeholder2: u8,
}

/// The byte that encodes a boolean.
pub open spec fn bool_byte(v: bool) -> u8 {
    if v {
        1u8
    } else {
        0u8
    }
}

/// Decodes one boolean at `pos`: only 0 and 1 are admissible.
pub open spec fn bool_at(b: Seq<u8>, pos: int) -> Result<(bool, int), DecodeError> {
    if pos >= b.len() {
        Err(DecodeError::UnexpectedEnd)
    } else if b[pos] == 0u8 {
        Ok((false, pos + 1))
    } else if b[pos] == 1u8 {
        Ok((true, pos + 1))
    } else {
        Err(DecodeError::InvalidValue)
    }
}

/// Decodes one compact integer at `pos`, in absolute positions.
pub open spec fn compact_at(b: Seq<u8>, pos: int) -> Result<(u64, int), DecodeError> {
    match compact_decode(b.skip(pos)) {
        Ok((v, l)) => Ok((v, pos + l)),
        Err(e) => Err(e),
    }
}

/// Decodes a compact integer that must fit in 16 bits.
pub open spec fn compact_u16_at(b: Seq<u8>, pos: int) -> Result<(u16, int), DecodeError> {
    match compact_at(b, pos) {
        Ok((v, p)) => if v <= 0xFFFF {
            Ok((v as u16, p))
        } else {
            Err(DecodeError::Overflow)
        },
        Err(e) => Err(e),
    }
}

/// Decodes a 32-byte account identifier at `pos`.
pub open spec fn account_at(b: Seq<u8>, pos: int) -> Result<(Seq<u8>, int), DecodeError> {
    if pos + 32 > b.len() {
        Err(DecodeError::UnexpectedEnd)
    } else {
        Ok((b.subrange(pos, pos + 32), pos + 32))
    }
}

/// The binary layout of an axon advertisement: version, ip, port as
/// little-endian fixed-width integers, then the four tag bytes.
pub open spec fn axon_bytes(a: AxonAdvertisement) -> Seq<u8> {
    le_bytes(a.version as nat, 4) + le_bytes(a.ip as nat, 16) + le_bytes(a.port as nat, 2) + seq![
        a.ip_type,
        a.protocol,
        a.placeholder1,
        a.placeholder2,
    ]
}

/// Decodes one axon advertisement at `pos` (26 bytes).
pub open spec fn axon_at(b: Seq<u8>, pos: int) -> Result<(AxonAdvertisement, int), DecodeError> {
    if pos + 26 > b.len() {
        Err(DecodeError::UnexpectedEnd)
    } else {
        Ok(
            (
                AxonAdvertisement {
                    version: le_val(b.subrange(pos, pos + 4)) as u32,
                    ip: le_val(b.subrange(pos + 4, pos + 20)) as u128,
                    port: le_val(b.subrange(pos + 20, pos + 22)) as u16,
                    ip_type: b[pos + 22],
                    protocol: b[pos + 23],
                    placeholder1: b[pos + 24],
                    placeholder2: b[pos + 25],
                },
                pos + 26,
            ),
        )
    }
}

/// An axon advertisement laid down at `pos` decodes back to its value.
pub proof fn lemma_axon_at(b: Seq<u8>, pos: int, a: AxonAdvertisement)
    requires
        0 <= pos,
        pos + 26 <= b.len(),
        b.subrange(pos, pos + 26) == axon_bytes(a),
    ensures
        axon_at(b, pos) == Ok::<(AxonAdvertisement, int), DecodeError>((a, pos + 26)),
{
    lemma_pow256_values();
    lemma_le_bytes_len(a.version as nat, 4);
    lemma_le_bytes_len(a.ip as nat, 16);
    lemma_le_bytes_len(a.port as nat, 2);
    let e = axon_bytes(a);
    assert forall|i: int| 0 <= i < 26 implies b[pos + i] == e[i] by {
        assert(e[i] == b.subrange(pos, pos + 26)[i]);
    }
    let l1 = le_bytes(a.version as nat, 4);
    let l2 = le_bytes(a.ip as nat, 16);
    let l3 = le_bytes(a.port as nat, 2);
    assert(b.subrange(pos, pos + 4) =~= l1);
    assert forall|i: int| 0 <= i < 16 implies b.subrange(pos + 4, pos + 20)[i] == l2[i] by {
        assert(b[pos + (4 + i)] == e[4 + i]);
        assert(e[4 + i] == l2[i]);
    }
    assert(b.subrange(pos + 4, pos + 20) =~= l2);
    assert forall|i: int| 0 <= i < 2 implies b.subrange(pos + 20, pos + 22)[i] == l3[i] by {
        assert(b[pos + (20 + i)] == e[20 + i]);
        assert(e[20 + i] == l3[i]);
    }
    assert(b.subrange(pos + 20, pos + 22) =~= l3);
    lemma_le_val_le_bytes(a.version as nat, 4);
    lemma_le_val_le_bytes(a.ip as nat, 16);
    lemma_le_val_le_bytes(a.port as nat, 2);
    assert(b[pos + 22] == e[22]);
    assert(b[pos + 23] == e[23]);
    assert(b[pos + 24] == e[24]);
    assert(b[pos + 25] == e[25]);
    assert(e[22] == a.ip_type && e[23] == a.protocol && e[24] == a.placeholder1 && e[25]
        == a.placeholder2);
}

/// Appends all of `src` to `out`.
pub fn push_bytes(out: &mut Vec<u8>, src: &Vec<u8>)
    ensures
        final(out)@ == old(out)@ + src@,
{
    let ghost orig = out@;
    let mut i: usize = 0;
    while i < src.len()
        invariant
            i <= src@.len(),
            out@ == orig + src@.subrange(0, i as int),
        decreases src@.len() - i,
    {
        out.push(src[i]);
        proof {
            assert(orig + src@.subrange(0, (i + 1) as int) =~= (orig + src@.subrange(0, i as int))
                + seq![src@[i as int]]);
        }
        i += 1;
    }
    proof {
        assert(src@.subrange(0, src@.len() as int) =~= src@);
    }
}

/// Appends the boolean byte.
pub fn encode_bool(v: bool, out: &mut Vec<u8>)
    ensures
        final(out)@ == old(out)@ + seq![bool_byte(v)],
{
    if v {
        out.push(1u8);
    } else {
        out.push(0u8);
    }
    proof {
        assert(out@ =~= old(out)@ + seq![bool_byte(v)]);
    }
}

/// Appends the 26-byte axon layout.
pub fn encode_axon(a: &AxonAdvertisement, out: &mut Vec<u8>)
    ensures
        final(out)@ == old(out)@ + axon_bytes(*a),
{
    proof {
        lemma_pow256_values();
    }
    encode_le_u128(a.version as u128, 4, out);
    encode_le_u128(a.ip, 16, out);
    encode_le_u128(a.port as u128, 2, out);
    out.push(a.ip_type);
    out.push(a.protocol);
    out.push(a.placeholder1);
    out.push(a.placeholder2);
    proof {
        assert(out@ =~= old(out)@ + axon_bytes(*a));
    }
}

/// Reads one axon advertisement at `pos`.
pub fn decode_axon(bytes: &Vec<u8>, pos: usize) -> (r: Result<(AxonAdvertisement, usize), DecodeError>)
    requires
        pos <= bytes@.len(),
    ensures
        match r {
            Ok(p) => pos < p.1 <= bytes@.len() && axon_at(bytes@, pos as int) == Ok::<
                (AxonAdvertisement, int),
                DecodeError,
            >((p.0, p.1 as int)),
            Err(e) => axon_at(bytes@, pos as int) == Err::<(AxonAdvertisement, int), DecodeError>(e),
        },
{
    if bytes.len() - pos < 26 {
        return Err(DecodeError::UnexpectedEnd);
    }
    proof {
        lemma_le_val_bound(bytes@.subrange(pos as int, pos + 4));
        lemma_le_val_bound(bytes@.subrange(pos + 4, pos + 20));
        lemma_le_val_bound(bytes@.subrange(pos + 20, pos + 22));
        lemma_pow256_values();
    }
    let version = decode_le_u128(bytes, pos, 4) as u32;
    let ip = decode_le_u128(bytes, pos + 4, 16);
    let port = decode_le_u128(bytes, pos + 20, 2) as u16;
    let ip_type = bytes[pos + 22];
    let protocol = bytes[pos + 23];
    let placeholder1 = bytes[pos + 24];
    let placeholder2 = bytes[pos + 25];
    Ok(
        (
            AxonAdvertisement {
                version,
                ip,
                port,
                ip_type,
                protocol,
                placeholder1,
                placeholder2,
            },
            pos + 26,
        ),
    )
}

/// One entry of a participant's stake list: staking account and amount.
pub struct StakeEntry {
    pub account: Vec<u8>,
    pub amount: u64,
}

/// The mathematical value of a stake entry.
pub ghost struct StakeEntryV {
    pub account: Seq<u8>,
    pub amount: u64,
}

impl View for StakeEntry {
    type V = StakeEntryV;

    open spec fn view(&self) -> StakeEntryV {
        StakeEntryV { account: self.account@, amount: self.amount }
    }
}

impl StakeEntryV {
    /// Account identifiers are exactly 32 bytes.
    pub open spec fn wf(self) -> bool {
        self.account.len() == 32
    }
}

/// Snapshot of one registered participant at a given block.
pub struct NeuronRecord {
    pub hotkey: Vec<u8>,
    pub coldkey: Vec<u8>,
    pub uid: u16,
    pub active: bool,
    pub axon: AxonAdvertisement,
    pub stake: Vec<StakeEntry>,
    pub rank: u16,
    pub emission: u64,
    pub incentive: u16,
    pub consensus: u16,
    pub trust: u16,
    pub validator_trust: u16,
    pub dividends: u16,
    pub pruning_score: u16,
    pub last_update: u64,
    pub validator_permit: bool,
}

/// The mathematical value of a participant record.
pub ghost struct NeuronRecordV {
    pub hotkey: Seq<u8>,
    pub coldkey: Seq<u8>,
    pub uid: u16,
    pub active: bool,
    pub axon: AxonAdvertisement,
    pub stake: Seq<StakeEntryV>,
    pub rank: u16,
    pub emission: u64,
    pub incentive: u16,
    pub consensus: u16,
    pub trust: u16,
    pub validator_trust: u16,
    pub dividends: u16,
    pub pruning_score: u16,
    pub last_update: u64,
    pub validator_permit: bool,
}

/// The values of a sequence of stake entries.
pub open spec fn stake_views(s: Seq<StakeEntry>) -> Seq<StakeEntryV> {
    s.map_values(|e: StakeEntry| e@)
}

impl View for NeuronRecord {
    type V = NeuronRecordV;

    open spec fn view(&self) -> NeuronRecordV {
        NeuronRecordV {
            hotkey: self.hotkey@,
            coldkey: self.coldkey@,
            uid: self.uid,
            active: self.active,
            axon: self.axon,
            stake: stake_views(self.stake@),
            rank: self.rank,
            emission: self.emission,
            incentive: self.incentive,
            consensus: self.consensus,
            trust: self.trust,
            validator_trust: self.validator_trust,
            dividends: self.dividends,
            pruning_score: self.pruning_score,
            last_update: self.last_update,
            validator_permit: self.validator_permit,
        }
    }
}

impl NeuronRecordV {
    /// Keys are 32 bytes, every stake entry is well formed, and the stake
    /// list is countable by the compact length prefix.
    pub open spec fn wf(self) -> bool {
        self.hotkey.len() == 32 && self.coldkey.len() == 32 && self.stake.len()
            < 0x10000000000000000 && forall|i: int|
            0 <= i < self.stake.len() ==> self.stake[i].wf()
    }
}

/// Layout of one stake entry: the 32-byte account then the compact amount.
pub open spec fn stake_entry_bytes(e: StakeEntryV) -> Seq<u8> {
    e.account + compact_encode(e.amount)
}

/// Layout of a stake list: its entries one after the other.
pub open spec fn stake_list_bytes(s: Seq<StakeEntryV>) -> Seq<u8>
    decreases s.len(),
{
    if s.len() == 0 {
        Seq::empty()
    } else {
        stake_entry_bytes(s[0]) + stake_list_bytes(s.skip(1))
    }
}

/// Decodes one stake entry at `pos`.
pub open spec fn stake_entry_at(b: Seq<u8>, pos: int) -> Result<(StakeEntryV, int), DecodeError> {
    match account_at(b, pos) {
        Err(e) => Err(e),
        Ok((account, p1)) => match compact_at(b, p1) {
            Err(e) => Err(e),
            Ok((amount, p2)) => Ok((StakeEntryV { account, amount }, p2)),
        },
    }
}

/// Decodes `count` stake entries one after the other.
pub open spec fn stake_list_at(b: Seq<u8>, pos: int, count: nat) -> Result<
    (Seq<StakeEntryV>, int),
    DecodeError,
>
    decreases count,
{
    if count == 0 {
        Ok((Seq::empty(), pos))
    } else {
        match stake_entry_at(b, pos) {
            Err(e) => Err(e),
            Ok((e0, p1)) => match stake_list_at(b, p1, (count - 1) as nat) {
                Err(e) => Err(e),
                Ok((s, p2)) => Ok((seq![e0] + s, p2)),
            },
        }
    }
}

/// The consensus-metric tail of a participant record.
#[derive(Clone, Copy, Debug, PartialEq, Eq, Structural)]
pub struct ConsensusMetrics {
    pub rank: u16,
    pub emission: u64,
    pub incentive: u16,
    pub consensus: u16,
    pub trust: u16,
    pub validator_trust: u16,
    pub dividends: u16,
    pub pruning_score: u16,
    pub last_update: u64,
    pub validator_permit: bool,
}

/// The metric fields of a record, as one value.
pub open spec fn neuron_metrics(m: NeuronRecordV) -> ConsensusMetrics {
    ConsensusMetrics {
        rank: m.rank,
        emission: m.emission,
        incentive: m.incentive,
        consensus: m.consensus,
        trust: m.trust,
        validator_trust: m.validator_trust,
        dividends: m.dividends,
        pruning_score: m.pruning_score,
        last_update: m.last_update,
        validator_permit: m.validator_permit,
    }
}

/// Layout of the metric tail: each metric as a compact integer, then the
/// last-update block and the validator-permit flag.
pub open spec fn metrics_bytes(v: ConsensusMetrics) -> Seq<u8> {
    compact_encode(v.rank as u64) + (compact_encode(v.emission) + (compact_encode(
        v.incentive as u64,
    ) + (compact_encode(v.consensus as u64) + (compact_encode(v.trust as u64) + (compact_encode(
        v.validator_trust as u64,
    ) + (compact_encode(v.dividends as u64) + (compact_encode(v.pruning_score as u64) + (
    compact_encode(v.last_update) + seq![bool_byte(v.validator_permit)]))))))))
}

/// Decodes the metric tail at `pos`.
pub open spec fn metrics_at(b: Seq<u8>, pos: int) -> Result<(ConsensusMetrics, int), DecodeError> {
    match compact_u16_at(b, pos) {
        Err(e) => Err(e),
        Ok((rank, p1)) => match compact_at(b, p1) {
            Err(e) => Err(e),
            Ok((emission, p2)) => match compact_u16_at(b, p2) {
                Err(e) => Err(e),
                Ok((incentive, p3)) => match compact_u16_at(b, p3) {
                    Err(e) => Err(e),
                    Ok((consensus, p4)) => match compact_u16_at(b, p4) {
                        Err(e) => Err(e),
                        Ok((trust, p5)) => match compact_u16_at(b, p5) {
                            Err(e) => Err(e),
                            Ok((validator_trust, p6)) => match compact_u16_at(b, p6) {
                                Err(e) => Err(e),
                                Ok((dividends, p7)) => match compact_u16_at(b, p7) {
                                    Err(e) => Err(e),
                                    Ok((pruning_score, p8)) => match compact_at(b, p8) {
                                        Err(e) => Err(e),
                                        Ok((last_update, p9)) => match bool_at(b, p9) {
                                            Err(e) => Err(e),
                                            Ok((validator_permit, p10)) => Ok(
                                                (
                                                    ConsensusMetrics {
                                                        rank,
                                                        emission,
                                                        incentive,
                                                        consensus,
                                                        trust,
                                                        validator_trust,
                                                        dividends,
                                                        pruning_score,
                                                        last_update,
                                                        validator_permit,
                                                    },
                                                    p10,
                                                ),
                                            ),
                                        },
                                    },
                                },
                            },
                        },
                    },
                },
            },
        },
    }
}

/// Layout of a participant record: keys, compact uid, activation flag,
/// axon descriptor, length-prefixed stake list, then the metric tail.
pub open spec fn neuron_bytes(m: NeuronRecordV) -> Seq<u8> {
    m.hotkey + (m.coldkey + (compact_encode(m.uid as u64) + (seq![bool_byte(m.active)] + (
    axon_bytes(m.axon) + (compact_encode(m.stake.len() as u64) + (stake_list_bytes(m.stake)
        + metrics_bytes(neuron_metrics(m))))))))
}

/// Decodes one participant record at `pos`.
pub open spec fn neuron_at(b: Seq<u8>, pos: int) -> Result<(NeuronRecordV, int), DecodeError> {
    match account_at(b, pos) {
        Err(e) => Err(e),
        Ok((hotkey, p1)) => match account_at(b, p1) {
            Err(e) => Err(e),
            Ok((coldkey, p2)) => match compact_u16_at(b, p2) {
                Err(e) => Err(e),
                Ok((uid, p3)) => match bool_at(b, p3) {
                    Err(e) => Err(e),
                    Ok((active, p4)) => match axon_at(b, p4) {
                        Err(e) => Err(e),
                        Ok((axon, p5)) => match compact_at(b, p5) {
                            Err(e) => Err(e),
                            Ok((count, p6)) => match stake_list_at(b, p6, count as nat) {
                                Err(e) => Err(e),
                                Ok((stake, p7)) => match metrics_at(b, p7) {
                                    Err(e) => Err(e),
                                    Ok((mx, p8)) => Ok(
                                        (
                                            NeuronRecordV {
                                                hotkey,
                                                coldkey,
                                                uid,
                                                active,
                                                axon,
                                                stake,
                                                rank: mx.rank,
                                                emission: mx.emission,
                                                incentive: mx.incentive,
                                                consensus: mx.consensus,
                                                trust: mx.trust,
                                                validator_trust: mx.validator_trust,
                                                dividends: mx.dividends,
                                                pruning_score: mx.pruning_score,
                                                last_update: mx.last_update,
                                                validator_permit: mx.validator_permit,
                                            },
                                            p8,
                                        ),
                                    ),
                                },
                            },
                        },
                    },
                },
            },
        },
    }
}

/// The values of a sequence of participant records.
pub open spec fn neuron_views(s: Seq<NeuronRecord>) -> Seq<NeuronRecordV> {
    s.map_values(|r: NeuronRecord| r@)
}

/// Layout of a record list: the records one after the other.
pub open spec fn neuron_list_bytes(s: Seq<NeuronRecordV>) -> Seq<u8>
    decreases s.len(),
{
    if s.len() == 0 {
        Seq::empty()
    } else {
        neuron_bytes(s[0]) + neuron_list_bytes(s.skip(1))
    }
}

/// Decodes `count` records one after the other.
pub open spec fn neuron_list_at(b: Seq<u8>, pos: int, count: nat) -> Result<
    (Seq<NeuronRecordV>, int),
    DecodeError,
>
    decreases count,
{
    if count == 0 {
        Ok((Seq::empty(), pos))
    } else {
        match neuron_at(b, pos) {
            Err(e) => Err(e),
            Ok((m, p1)) => match neuron_list_at(b, p1, (count - 1) as nat) {
                Err(e) => Err(e),
                Ok((s, p2)) => Ok((seq![m] + s, p2)),
            },
        }
    }
}

/// Uids strictly ascend along the sequence: sorted and duplicate-free.
pub open spec fn uids_ascending(s: Seq<NeuronRecordV>) -> bool {
    forall|i: int| 0 <= i < s.len() - 1 ==> #[trigger] s[i].uid < s[i + 1].uid
}

/// Between any two positions of an ascending sequence, the earlier uid is
/// strictly smaller: no duplicates anywhere.
pub proof fn lemma_ascending_pairwise(s: Seq<NeuronRecordV>, i: int, j: int)
    requires
        uids_ascending(s),
        0 <= i < j < s.len(),
    ensures
        s[i].uid < s[j].uid,
    decreases j - i,
{
    if j > i + 1 {
        lemma_ascending_pairwise(s, i, j - 1);
    }
}

/// A registry snapshot blob: the compact record count, then the records,
/// nothing after them, and the uids strictly ascending.
pub open spec fn neurons_response(b: Seq<u8>) -> Result<Seq<NeuronRecordV>, DecodeError> {
    match compact_at(b, 0) {
        Err(e) => Err(e),
        Ok((count, p)) => match neuron_list_at(b, p, count as nat) {
            Err(e) => Err(e),
            Ok((s, q)) => if q != b.len() {
                Err(DecodeError::TrailingData)
            } else if !uids_ascending(s) {
                Err(DecodeError::UnsortedUids)
            } else {
                Ok(s)
            },
        },
    }
}

/// Reads one compact integer, reported in absolute positions.
pub fn decode_compact(bytes: &Vec<u8>, pos: usize) -> (r: Result<(u64, usize), DecodeError>)
    requires
        pos <= bytes@.len(),
    ensures
        match r {
            Ok(p) => pos < p.1 <= bytes@.len() && compact_at(bytes@, pos as int) == Ok::<
                (u64, int),
                DecodeError,
            >((p.0, p.1 as int)),
            Err(e) => compact_at(bytes@, pos as int) == Err::<(u64, int), DecodeError>(e),
        },
{
    decode_compact_u64(bytes, pos)
}

/// Reads one compact integer that must fit in 16 bits.
pub fn decode_compact_u16(bytes: &Vec<u8>, pos: usize) -> (r: Result<(u16, usize), DecodeError>)
    requires
        pos <= bytes@.len(),
    ensures
        match r {
            Ok(p) => pos < p.1 <= bytes@.len() && compact_u16_at(bytes@, pos as int) == Ok::<
                (u16, int),
                DecodeError,
            >((p.0, p.1 as int)),
            Err(e) => compact_u16_at(bytes@, pos as int) == Err::<(u16, int), DecodeError>(e),
        },
{
    match decode_compact(bytes, pos) {
        Err(e) => Err(e),
        Ok((v, p)) => {
            if v <= 0xFFFF {
                Ok((v as u16, p))
            } else {
                Err(DecodeError::Overflow)
            }
        },
    }
}

/// Reads one boolean byte.
pub fn decode_bool(bytes: &Vec<u8>, pos: usize) -> (r: Result<(bool, usize), DecodeError>)
    requires
        pos <= bytes@.len(),
    ensures
        match r {
            Ok(p) => pos < p.1 <= bytes@.len() && bool_at(bytes@, pos as int) == Ok::<
                (bool, int),
                DecodeError,
            >((p.0, p.1 as int)),
            Err(e) => bool_at(bytes@, pos as int) == Err::<(bool, int), DecodeError>(e),
        },
{
    if pos == bytes.len() {
        return Err(DecodeError::UnexpectedEnd);
    }
    let b = bytes[pos];
    if b == 0 {
        Ok((false, pos + 1))
    } else if b == 1 {
        Ok((true, pos + 1))
    } else {
        Err(DecodeError::InvalidValue)
    }
}

/// Reads a 32-byte account identifier.
pub fn decode_account(bytes: &Vec<u8>, pos: usize) -> (r: Result<(Vec<u8>, usize), DecodeError>)
    requires
        pos <= bytes@.len(),
    ensures
        match r {
            Ok(p) => pos < p.1 <= bytes@.len() && p.0@.len() == 32 && account_at(
                bytes@,
                pos as int,
            ) == Ok::<(Seq<u8>, int), DecodeError>((p.0@, p.1 as int)),
            Err(e) => account_at(bytes@, pos as int) == Err::<(Seq<u8>, int), DecodeError>(e),
        },
{
    if bytes.len() - pos < 32 {
        return Err(DecodeError::UnexpectedEnd);
    }
    let blen: usize = bytes.len();
    let mut acc: Vec<u8> = Vec::new();
    let mut i: usize = 0;
    while i < 32
        invariant
            i <= 32,
            pos + 32 <= blen,
            blen as nat == bytes@.len(),
            acc@ == bytes@.subrange(pos as int, pos + i),
        decreases 32 - i,
    {
        acc.push(bytes[pos + i]);
        proof {
            assert(bytes@.subrange(pos as int, pos + i + 1) =~= bytes@.subrange(pos as int, pos
                + i) + seq![bytes@[pos + i]]);
        }
        i += 1;
    }
    Ok((acc, pos + 32))
}

/// Reads one stake entry.
pub fn decode_stake_entry(bytes: &Vec<u8>, pos: usize) -> (r: Result<
    (StakeEntry, usize),
    DecodeError,
>)
    requires
        pos <= bytes@.len(),
    ensures
        match r {
            Ok(p) => pos < p.1 <= bytes@.len() && p.0@.wf() && stake_entry_at(bytes@, pos as int)
                == Ok::<(StakeEntryV, int), DecodeError>((p.0@, p.1 as int)),
            Err(e) => stake_entry_at(bytes@, pos as int) == Err::<(StakeEntryV, int), DecodeError>(
                e,
            ),
        },
{
    match decode_account(bytes, pos) {
        Err(e) => Err(e),
        Ok((account, p1)) => match decode_compact(bytes, p1) {
            Err(e) => Err(e),
            Ok((amount, p2)) => Ok((StakeEntry { account, amount }, p2)),
        },
    }
}

/// Reads `count` stake entries.
pub fn decode_stake_list(bytes: &Vec<u8>, pos: usize, count: u64) -> (r: Result<
    (Vec<StakeEntry>, usize),
    DecodeError,
>)
    requires
        pos <= bytes@.len(),
    ensures
        match r {
            Ok(p) => pos <= p.1 <= bytes@.len() && p.0@.len() == count && stake_list_at(
                bytes@,
                pos as int,
                count as nat,
            ) == Ok::<(Seq<StakeEntryV>, int), DecodeError>((stake_views(p.0@), p.1 as int))
                && forall|i: int| 0 <= i < p.0@.len() ==> (#[trigger] p.0@[i])@.wf(),
            Err(e) => stake_list_at(bytes@, pos as int, count as nat) == Err::<
                (Seq<StakeEntryV>, int),
                DecodeError,
            >(e),
        },
    decreases count,
{
    if count == 0 {
        proof {
            assert(stake_views(Seq::<StakeEntry>::empty()) =~= Seq::<StakeEntryV>::empty());
        }
        Ok((Vec::new(), pos))
    } else {
        match decode_stake_entry(bytes, pos) {
            Err(e) => Err(e),
            Ok((e0, p1)) => match decode_stake_list(bytes, p1, count - 1) {
                Err(e) => Err(e),
                Ok((mut v, p2)) => {
                    let ghost tailviews = stake_views(v@);
                    v.insert(0, e0);
                    proof {
                        assert(stake_views(v@) =~= seq![e0@] + tailviews);
                    }
                    Ok((v, p2))
                },
            },
        }
    }
}

/// A compact encoding found at `pos` decodes back to its value.
pub proof fn lemma_compact_skip(b: Seq<u8>, pos: int, v: u64, rest: Seq<u8>)
    requires
        0 <= pos <= b.len(),
        b.skip(pos) == compact_encode(v) + rest,
    ensures
        compact_at(b, pos) == Ok::<(u64, int), DecodeError>(
            (v, pos + compact_encode(v).len() as int),
        ),
{
    lemma_compact_round_trip(v, rest);
}

/// A compact encoding of a 16-bit value found at `pos` decodes back.
pub proof fn lemma_compact_u16_skip(b: Seq<u8>, pos: int, v: u16, rest: Seq<u8>)
    requires
        0 <= pos <= b.len(),
        b.skip(pos) == compact_encode(v as u64) + rest,
    ensures
        compact_u16_at(b, pos) == Ok::<(u16, int), DecodeError>(
            (v, pos + compact_encode(v as u64).len() as int),
        ),
{
    lemma_compact_skip(b, pos, v as u64, rest);
}

/// A boolean byte found at `pos` decodes back.
pub proof fn lemma_bool_skip(b: Seq<u8>, pos: int, v: bool, rest: Seq<u8>)
    requires
        0 <= pos <= b.len(),
        b.skip(pos) == seq![bool_byte(v)] + rest,
    ensures
        bool_at(b, pos) == Ok::<(bool, int), DecodeError>((v, pos + 1)),
{
    assert((seq![bool_byte(v)] + rest).len() == 1 + rest.len());
    assert(b.skip(pos).len() == b.len() - pos);
    assert(pos < b.len());
    assert(b.skip(pos)[0] == (seq![bool_byte(v)] + rest)[0]);
    assert(b.skip(pos)[0] == bool_byte(v));
    assert(b[pos] == bool_byte(v));
}

/// A 32-byte account found at `pos` decodes back.
pub proof fn lemma_account_skip(b: Seq<u8>, pos: int, a: Seq<u8>, rest: Seq<u8>)
    requires
        0 <= pos <= b.len(),
        a.len() == 32,
        b.skip(pos) == a + rest,
    ensures
        account_at(b, pos) == Ok::<(Seq<u8>, int), DecodeError>((a, pos + 32)),
{
    assert((a + rest).len() == 32 + rest.len());
    assert(b.skip(pos).len() == b.len() - pos);
    assert(pos + 32 <= b.len());
    assert forall|i: int| 0 <= i < 32 implies b.subrange(pos, pos + 32)[i] == a[i] by {
        assert(b.skip(pos)[i] == b[pos + i]);
        assert((a + rest)[i] == a[i]);
    }
    assert(b.subrange(pos, pos + 32) =~= a);
}

/// An axon layout found at `pos` decodes back.
pub proof fn lemma_axon_skip(b: Seq<u8>, pos: int, a: AxonAdvertisement, rest: Seq<u8>)
    requires
        0 <= pos <= b.len(),
        b.skip(pos) == axon_bytes(a) + rest,
    ensures
        axon_at(b, pos) == Ok::<(AxonAdvertisement, int), DecodeError>((a, pos + 26)),
{
    lemma_pow256_values();
    lemma_le_bytes_len(a.version as nat, 4);
    lemma_le_bytes_len(a.ip as nat, 16);
    lemma_le_bytes_len(a.port as nat, 2);
    assert(axon_bytes(a).len() == 26);
    assert((axon_bytes(a) + rest).len() == 26 + rest.len());
    assert(b.skip(pos).len() == b.len() - pos);
    assert(pos + 26 <= b.len());
    assert forall|i: int| 0 <= i < 26 implies b.subrange(pos, pos + 26)[i] == axon_bytes(a)[i] by {
        assert(b.skip(pos)[i] == b[pos + i]);
        assert((axon_bytes(a) + rest)[i] == axon_bytes(a)[i]);
    }
    assert(b.subrange(pos, pos + 26) =~= axon_bytes(a));
    lemma_axon_at(b, pos, a);
}

/// Shifting the decoding position by the length of a decoded prefix.
pub proof fn lemma_skip_shift(b: Seq<u8>, pos: int, l: int, head: Seq<u8>, tail: Seq<u8>)
    requires
        0 <= pos <= b.len(),
        head.len() == l,
        b.skip(pos) == head + tail,
    ensures
        pos + l <= b.len(),
        b.skip(pos + l) =~= tail,
{
    assert((head + tail).len() == l + tail.len());
    assert(b.skip(pos).len() == b.len() - pos);
    assert(pos + l <= b.len());
    assert forall|i: int| 0 <= i < tail.len() implies b.skip(pos + l)[i] == tail[i] by {
        assert(b.skip(pos)[l + i] == b[pos + l + i]);
        assert((head + tail)[l + i] == tail[i]);
    }
    assert(b.skip(pos + l).len() == tail.len());
}

/// A stake entry laid down at `pos` decodes back.
pub proof fn lemma_stake_entry_skip(b: Seq<u8>, pos: int, e: StakeEntryV, rest: Seq<u8>)
    requires
        0 <= pos <= b.len(),
        e.wf(),
        b.skip(pos) == stake_entry_bytes(e) + rest,
    ensures
        stake_entry_at(b, pos) == Ok::<(StakeEntryV, int), DecodeError>(
            (e, pos + stake_entry_bytes(e).len() as int),
        ),
        stake_entry_bytes(e).len() == 32 + compact_encode(e.amount).len(),
{
    let ce = compact_encode(e.amount);
    assert(b.skip(pos) =~= e.account + (ce + rest));
    lemma_account_skip(b, pos, e.account, ce + rest);
    lemma_skip_shift(b, pos, 32, e.account, ce + rest);
    lemma_compact_skip(b, pos + 32, e.amount, rest);
}

/// A stake list laid down at `pos` decodes back, entry by entry.
pub proof fn lemma_stake_list_skip(b: Seq<u8>, pos: int, s: Seq<StakeEntryV>, rest: Seq<u8>)
    requires
        0 <= pos <= b.len(),
        forall|i: int| 0 <= i < s.len() ==> s[i].wf(),
        b.skip(pos) == stake_list_bytes(s) + rest,
    ensures
        stake_list_at(b, pos, s.len()) == Ok::<(Seq<StakeEntryV>, int), DecodeError>(
            (s, pos + stake_list_bytes(s).len() as int),
        ),
    decreases s.len(),
{
    if s.len() == 0 {
        assert(s =~= Seq::<StakeEntryV>::empty());
        assert(stake_list_bytes(s).len() == 0);
    } else {
        let e0 = s[0];
        let eb = stake_entry_bytes(e0);
        let tb = stake_list_bytes(s.skip(1));
        assert(stake_list_bytes(s) == eb + tb);
        assert(b.skip(pos) =~= eb + (tb + rest));
        lemma_stake_entry_skip(b, pos, e0, tb + rest);
        lemma_skip_shift(b, pos, eb.len() as int, eb, tb + rest);
        let p1 = pos + eb.len() as int;
        assert(forall|i: int| 0 <= i < s.skip(1).len() ==> s.skip(1)[i].wf());
        lemma_stake_list_skip(b, p1, s.skip(1), rest);
        assert(seq![e0] + s.skip(1) =~= s);
        assert((eb + tb).len() == eb.len() + tb.len());
    }
}

/// The metric tail laid down at `pos` decodes back.
#[verifier::rlimit(100)]
#[verifier::spinoff_prover]
pub proof fn lemma_metrics_skip(b: Seq<u8>, pos: int, v: ConsensusMetrics, rest: Seq<u8>)
    requires
        0 <= pos <= b.len(),
        b.skip(pos) == metrics_bytes(v) + rest,
    ensures
        metrics_at(b, pos) == Ok::<(ConsensusMetrics, int), DecodeError>(
            (v, pos + metrics_bytes(v).len() as int),
        ),
{
    let e8 = compact_encode(v.rank as u64);
    let e9 = compact_encode(v.emission);
    let e10 = compact_encode(v.incentive as u64);
    let e11 = compact_encode(v.consensus as u64);
    let e12 = compact_encode(v.trust as u64);
    let e13 = compact_encode(v.validator_trust as u64);
    let e14 = compact_encode(v.dividends as u64);
    let e15 = compact_encode(v.pruning_score as u64);
    let e16 = compact_encode(v.last_update);
    let e17 = seq![bool_byte(v.validator_permit)];
    let t16 = e16 + e17;
    let t15 = e15 + t16;
    let t14 = e14 + t15;
    let t13 = e13 + t14;
    let t12 = e12 + t13;
    let t11 = e11 + t12;
    let t10 = e10 + t11;
    let t9 = e9 + t10;
    let mb = metrics_bytes(v);
    assert(mb == e8 + t9);
    assert(b.skip(pos) =~= e8 + (t9 + rest));
    lemma_compact_u16_skip(b, pos, v.rank, t9 + rest);
    lemma_skip_shift(b, pos, e8.len() as int, e8, t9 + rest);
    let p8 = pos + e8.len() as int;
    assert(b.skip(p8) =~= e9 + (t10 + rest));
    lemma_compact_skip(b, p8, v.emission, t10 + rest);
    lemma_skip_shift(b, p8, e9.len() as int, e9, t10 + rest);
    let p9 = p8 + e9.len() as int;
    assert(b.skip(p9) =~= e10 + (t11 + rest));
    lemma_compact_u16_skip(b, p9, v.incentive, t11 + rest);
    lemma_skip_shift(b, p9, e10.len() as int, e10, t11 + rest);
    let p10 = p9 + e10.len() as int;
    assert(b.skip(p10) =~= e11 + (t12 + rest));
    lemma_compact_u16_skip(b, p10, v.consensus, t12 + rest);
    lemma_skip_shift(b, p10, e11.len() as int, e11, t12 + rest);
    let p11 = p10 + e11.len() as int;
    assert(b.skip(p11) =~= e12 + (t13 + rest));
    lemma_compact_u16_skip(b, p11, v.trust, t13 + rest);
    lemma_skip_shift(b, p11, e12.len() as int, e12, t13 + rest);
    let p12 = p11 + e12.len() as int;
    assert(b.skip(p12) =~= e13 + (t14 + rest));
    lemma_compact_u16_skip(b, p12, v.validator_trust, t14 + rest);
    lemma_skip_shift(b, p12, e13.len() as int, e13, t14 + rest);
    let p13 = p12 + e13.len() as int;
    assert(b.skip(p13) =~= e14 + (t15 + rest));
    lemma_compact_u16_skip(b, p13, v.dividends, t15 + rest);
    lemma_skip_shift(b, p13, e14.len() as int, e14, t15 + rest);
    let p14 = p13 + e14.len() as int;
    assert(b.skip(p14) =~= e15 + (t16 + rest));
    lemma_compact_u16_skip(b, p14, v.pruning_score, t16 + rest);
    lemma_skip_shift(b, p14, e15.len() as int, e15, t16 + rest);
    let p15 = p14 + e15.len() as int;
    assert(b.skip(p15) =~= e16 + (e17 + rest));
    lemma_compact_skip(b, p15, v.last_update, e17 + rest);
    lemma_skip_shift(b, p15, e16.len() as int, e16, e17 + rest);
    let p16 = p15 + e16.len() as int;
    assert(b.skip(p16) =~= e17 + rest);
    lemma_bool_skip(b, p16, v.validator_permit, rest);
    let p17 = p16 + 1;
    assert(mb.len() == p17 - pos);
}

/// Decoding starts over exactly where a participant record was laid
/// down: whatever follows it, the record and its length come back.
#[verifier::rlimit(100)]
#[verifier::spinoff_prover]
pub proof fn lemma_neuron_skip(b: Seq<u8>, pos: int, m: NeuronRecordV, rest: Seq<u8>)
    requires
        0 <= pos <= b.len(),
        m.wf(),
        b.skip(pos) == neuron_bytes(m) + rest,
    ensures
        neuron_at(b, pos) == Ok::<(NeuronRecordV, int), DecodeError>(
            (m, pos + neuron_bytes(m).len() as int),
        ),
{
    let e1 = m.hotkey;
    let e2 = m.coldkey;
    let e3 = compact_encode(m.uid as u64);
    let e4 = seq![bool_byte(m.active)];
    let e5 = axon_bytes(m.axon);
    let e6 = compact_encode(m.stake.len() as u64);
    let e7 = stake_list_bytes(m.stake);
    let e8 = metrics_bytes(neuron_metrics(m));
    let t7 = e7 + e8;
    let t6 = e6 + t7;
    let t5 = e5 + t6;
    let t4 = e4 + t5;
    let t3 = e3 + t4;
    let t2 = e2 + t3;
    let nb = neuron_bytes(m);
    lemma_le_bytes_len(m.axon.version as nat, 4);
    lemma_le_bytes_len(m.axon.ip as nat, 16);
    lemma_le_bytes_len(m.axon.port as nat, 2);
    assert(e5.len() == 26);
    assert(nb == e1 + t2);
    assert(b.skip(pos) =~= e1 + (t2 + rest));
    lemma_account_skip(b, pos, e1, t2 + rest);
    lemma_skip_shift(b, pos, 32, e1, t2 + rest);
    let p1 = pos + 32;
    assert(b.skip(p1) =~= e2 + (t3 + rest));
    lemma_account_skip(b, p1, e2, t3 + rest);
    lemma_skip_shift(b, p1, 32, e2, t3 + rest);
    let p2 = p1 + 32;
    assert(b.skip(p2) =~= e3 + (t4 + rest));
    lemma_compact_u16_skip(b, p2, m.uid, t4 + rest);
    lemma_skip_shift(b, p2, e3.len() as int, e3, t4 + rest);
    let p3 = p2 + e3.len() as int;
    assert(b.skip(p3) =~= e4 + (t5 + rest));
    lemma_bool_skip(b, p3, m.active, t5 + rest);
    lemma_skip_shift(b, p3, 1, e4, t5 + rest);
    let p4 = p3 + 1;
    assert(b.skip(p4) =~= e5 + (t6 + rest));
    lemma_axon_skip(b, p4, m.axon, t6 + rest);
    lemma_skip_shift(b, p4, e5.len() as int, e5, t6 + rest);
    let p5 = p4 + e5.len() as int;
    assert(b.skip(p5) =~= e6 + (t7 + rest));
    lemma_compact_skip(b, p5, m.stake.len() as u64, t7 + rest);
    lemma_skip_shift(b, p5, e6.len() as int, e6, t7 + rest);
    let p6 = p5 + e6.len() as int;
    assert(b.skip(p6) =~= e7 + (e8 + rest));
    assert((m.stake.len() as u64) as nat == m.stake.len());
    lemma_stake_list_skip(b, p6, m.stake, e8 + rest);
    lemma_skip_shift(b, p6, e7.len() as int, e7, e8 + rest);
    let p7 = p6 + e7.len() as int;
    assert(b.skip(p7) =~= e8 + rest);
    lemma_metrics_skip(b, p7, neuron_metrics(m), rest);
    let p8 = p7 + e8.len() as int;
    assert(nb.len() == p8 - pos);
    let mx = neuron_metrics(m);
    let decoded = NeuronRecordV {
        hotkey: m.hotkey,
        coldkey: m.coldkey,
        uid: m.uid,
        active: m.active,
        axon: m.axon,
        stake: m.stake,
        rank: mx.rank,
        emission: mx.emission,
        incentive: mx.incentive,
        consensus: mx.consensus,
        trust: mx.trust,
        validator_trust: mx.validator_trust,
        dividends: mx.dividends,
        pruning_score: mx.pruning_score,
        last_update: mx.last_update,
        validator_permit: mx.validator_permit,
    };
    assert(decoded == m);
    assert((m.stake.len() as u64) as nat == m.stake.len());
    assert(account_at(b, pos) == Ok::<(Seq<u8>, int), DecodeError>((m.hotkey, p1)));
    assert(account_at(b, p1) == Ok::<(Seq<u8>, int), DecodeError>((m.coldkey, p2)));
    assert(compact_u16_at(b, p2) == Ok::<(u16, int), DecodeError>((m.uid, p3)));
    assert(bool_at(b, p3) == Ok::<(bool, int), DecodeError>((m.active, p4)));
    assert(axon_at(b, p4) == Ok::<(AxonAdvertisement, int), DecodeError>((m.axon, p5)));
    assert(compact_at(b, p5) == Ok::<(u64, int), DecodeError>((m.stake.len() as u64, p6)));
    assert(stake_list_at(b, p6, (m.stake.len() as u64) as nat) == Ok::<
        (Seq<StakeEntryV>, int),
        DecodeError,
    >((m.stake, p7)));
    assert(metrics_at(b, p7) == Ok::<(ConsensusMetrics, int), DecodeError>((mx, p8)));
    assert(neuron_at(b, pos) == Ok::<(NeuronRecordV, int), DecodeError>((decoded, p8)));
}

/// Decode is a left inverse of encode for participant records: laying a
/// record down and decoding from its first byte gives the record back,
/// whatever follows it.
pub proof fn lemma_neuron_round_trip(m: NeuronRecordV, rest: Seq<u8>)
    requires
        m.wf(),
    ensures
        neuron_at(neuron_bytes(m) + rest, 0) == Ok::<(NeuronRecordV, int), DecodeError>(
            (m, neuron_bytes(m).len() as int),
        ),
{
    let b = neuron_bytes(m) + rest;
    assert(b.skip(0) =~= neuron_bytes(m) + rest);
    lemma_neuron_skip(b, 0, m, rest);
}

/// Reads the metric tail.
pub fn decode_metrics(bytes: &Vec<u8>, pos: usize) -> (r: Result<
    (ConsensusMetrics, usize),
    DecodeError,
>)
    requires
        pos <= bytes@.len(),
    ensures
        match r {
            Ok(p) => pos < p.1 <= bytes@.len() && metrics_at(bytes@, pos as int) == Ok::<
                (ConsensusMetrics, int),
                DecodeError,
            >((p.0, p.1 as int)),
            Err(e) => metrics_at(bytes@, pos as int) == Err::<(ConsensusMetrics, int), DecodeError>(
                e,
            ),
        },
{
    let (rank, p1) = match decode_compact_u16(bytes, pos) {
        Ok(x) => x,
        Err(e) => {
            return Err(e);
        },
    };
    let (emission, p2) = match decode_compact(bytes, p1) {
        Ok(x) => x,
        Err(e) => {
            return Err(e);
        },
    };
    let (incentive, p3) = match decode_compact_u16(bytes, p2) {
        Ok(x) => x,
        Err(e) => {
            return Err(e);
        },
    };
    let (consensus, p4) = match decode_compact_u16(bytes, p3) {
        Ok(x) => x,
        Err(e) => {
            return Err(e);
        },
    };
    let (trust, p5) = match decode_compact_u16(bytes, p4) {
        Ok(x) => x,
        Err(e) => {
            return Err(e);
        },
    };
    let (validator_trust, p6) = match decode_compact_u16(bytes, p5) {
        Ok(x) => x,
        Err(e) => {
            return Err(e);
        },
    };
    let (dividends, p7) = match decode_compact_u16(bytes, p6) {
        Ok(x) => x,
        Err(e) => {
            return Err(e);
        },
    };
    let (pruning_score, p8) = match decode_compact_u16(bytes, p7) {
        Ok(x) => x,
        Err(e) => {
            return Err(e);
        },
    };
    let (last_update, p9) = match decode_compact(bytes, p8) {
        Ok(x) => x,
        Err(e) => {
            return Err(e);
        },
    };
    let (validator_permit, p10) = match decode_bool(bytes, p9) {
        Ok(x) => x,
        Err(e) => {
            return Err(e);
        },
    };
    Ok(
        (
            ConsensusMetrics {
                rank,
                emission,
                incentive,
                consensus,
                trust,
                validator_trust,
                dividends,
                pruning_score,
                last_update,
                validator_permit,
            },
            p10,
        ),
    )
}

/// Reads one participant record.
pub fn decode_neuron(bytes: &Vec<u8>, pos: usize) -> (r: Result<(NeuronRecord, usize), DecodeError>)
    requires
        pos <= bytes@.len(),
    ensures
        match r {
            Ok(p) => pos < p.1 <= bytes@.len() && p.0@.wf() && neuron_at(bytes@, pos as int)
                == Ok::<(NeuronRecordV, int), DecodeError>((p.0@, p.1 as int)),
            Err(e) => neuron_at(bytes@, pos as int) == Err::<(NeuronRecordV, int), DecodeError>(e),
        },
{
    let (hotkey, p1) = match decode_account(bytes, pos) {
        Ok(x) => x,
        Err(e) => {
            return Err(e);
        },
    };
    let (coldkey, p2) = match decode_account(bytes, p1) {
        Ok(x) => x,
        Err(e) => {
            return Err(e);
        },
    };
    let (uid, p3) = match decode_compact_u16(bytes, p2) {
        Ok(x) => x,
        Err(e) => {
            return Err(e);
        },
    };
    let (active, p4) = match decode_bool(bytes, p3) {
        Ok(x) => x,
        Err(e) => {
            return Err(e);
        },
    };
    let (axon, p5) = match decode_axon(bytes, p4) {
        Ok(x) => x,
        Err(e) => {
            return Err(e);
        },
    };
    let (count, p6) = match decode_compact(bytes, p5) {
        Ok(x) => x,
        Err(e) => {
            return Err(e);
        },
    };
    let (stake, p7) = match decode_stake_list(bytes, p6, count) {
        Ok(x) => x,
        Err(e) => {
            return Err(e);
        },
    };
    let (mx, p8) = match decode_metrics(bytes, p7) {
        Ok(x) => x,
        Err(e) => {
            return Err(e);
        },
    };
    let rec = NeuronRecord {
        hotkey,
        coldkey,
        uid,
        active,
        axon,
        stake,
        rank: mx.rank,
        emission: mx.emission,
        incentive: mx.incentive,
        consensus: mx.consensus,
        trust: mx.trust,
        validator_trust: mx.validator_trust,
        dividends: mx.dividends,
        pruning_score: mx.pruning_score,
        last_update: mx.last_update,
        validator_permit: mx.validator_permit,
    };
    Ok((rec, p8))
}

/// Reads `count` participant records.
pub fn decode_neuron_list(bytes: &Vec<u8>, pos: usize, count: u64) -> (r: Result<
    (Vec<NeuronRecord>, usize),
    DecodeError,
>)
    requires
        pos <= bytes@.len(),
    ensures
        match r {
            Ok(p) => pos <= p.1 <= bytes@.len() && p.0@.len() == count && neuron_list_at(
                bytes@,
                pos as int,
                count as nat,
            ) == Ok::<(Seq<NeuronRecordV>, int), DecodeError>((neuron_views(p.0@), p.1 as int))
                && forall|i: int| 0 <= i < p.0@.len() ==> (#[trigger] p.0@[i])@.wf(),
            Err(e) => neuron_list_at(bytes@, pos as int, count as nat) == Err::<
                (Seq<NeuronRecordV>, int),
                DecodeError,
            >(e),
        },
    decreases count,
{
    if count == 0 {
        proof {
            assert(neuron_views(Seq::<NeuronRecord>::empty()) =~= Seq::<NeuronRecordV>::empty());
        }
        Ok((Vec::new(), pos))
    } else {
        match decode_neuron(bytes, pos) {
            Err(e) => Err(e),
            Ok((m0, p1)) => match decode_neuron_list(bytes, p1, count - 1) {
                Err(e) => Err(e),
                Ok((mut v, p2)) => {
                    let ghost tailviews = neuron_views(v@);
                    v.insert(0, m0);
                    proof {
                        assert(neuron_views(v@) =~= seq![m0@] + tailviews);
                    }
                    Ok((v, p2))
                },
            },
        }
    }
}

/// Decodes a whole registry snapshot: the compact record count, the
/// records, no trailing bytes; rejects a snapshot whose uids are not
/// strictly ascending. On success the records come back in uid order,
/// without duplicates, exactly as the blob laid them down.
#[verifier::loop_isolation(false)]
pub fn decode_neurons(bytes: &Vec<u8>) -> (r: Result<Vec<NeuronRecord>, DecodeError>)
    ensures
        match r {
            Ok(v) => neurons_response(bytes@) == Ok::<Seq<NeuronRecordV>, DecodeError>(
                neuron_views(v@),
            ) && uids_ascending(neuron_views(v@)) && forall|i: int|
                0 <= i < v@.len() ==> (#[trigger] v@[i])@.wf(),
            Err(e) => neurons_response(bytes@) == Err::<Seq<NeuronRecordV>, DecodeError>(e),
        },
{
    let (count, p) = match decode_compact(bytes, 0) {
        Ok(x) => x,
        Err(e) => {
            return Err(e);
        },
    };
    let (v, q) = match decode_neuron_list(bytes, p, count) {
        Ok(x) => x,
        Err(e) => {
            return Err(e);
        },
    };
    if q != bytes.len() {
        return Err(DecodeError::TrailingData);
    }
    let ghost views = neuron_views(v@);
    let mut i: usize = 1;
    while i < v.len()
        invariant
            1 <= i,
            v@.len() > 0 ==> i <= v@.len(),
            views == neuron_views(v@),
            views.len() == v@.len(),
            forall|k: int| 0 <= k < i - 1 && k < views.len() - 1 ==> #[trigger] views[k].uid
                < views[k + 1].uid,
        decreases v@.len() - i,
    {
        proof {
            assert(views[i - 1].uid == v@[i - 1]@.uid);
            assert(views[i as int].uid == v@[i as int]@.uid);
        }
        if v[i - 1].uid >= v[i].uid {
            proof {
                assert(!uids_ascending(views));
            }
            return Err(DecodeError::UnsortedUids);
        }
        i += 1;
    }
    proof {
        assert(uids_ascending(views));
    }
    Ok(v)
}

/// Layout of a whole registry snapshot: compact count then the records.
pub open spec fn neurons_response_bytes(s: Seq<NeuronRecordV>) -> Seq<u8> {
    compact_encode(s.len() as u64) + neuron_list_bytes(s)
}

/// Appends one stake entry.
pub fn encode_stake_entry(e: &StakeEntry, out: &mut Vec<u8>)
    requires
        e@.wf(),
    ensures
        final(out)@ == old(out)@ + stake_entry_bytes(e@),
{
    push_bytes(out, &e.account);
    encode_compact_u64(e.amount, out);
    proof {
        assert(out@ =~= old(out)@ + stake_entry_bytes(e@));
    }
}

/// Taking one more entry appends that entry's bytes.
pub proof fn lemma_stake_list_take_snoc(s: Seq<StakeEntryV>, i: int)
    requires
        0 <= i < s.len(),
    ensures
        stake_list_bytes(s.take(i + 1)) =~= stake_list_bytes(s.take(i)) + stake_entry_bytes(s[i]),
    decreases i,
{
    if i == 0 {
        assert(s.take(0) =~= Seq::<StakeEntryV>::empty());
        assert(s.take(1) =~= seq![s[0]]);
        assert(stake_list_bytes(seq![s[0]]) == stake_entry_bytes(s[0]) + stake_list_bytes(
            seq![s[0]].skip(1),
        ));
        assert(seq![s[0]].skip(1) =~= Seq::<StakeEntryV>::empty());
        assert(stake_list_bytes(s.take(1)) =~= stake_list_bytes(s.take(0)) + stake_entry_bytes(
            s[0],
        ));
    } else {
        lemma_stake_list_take_snoc(s.skip(1), i - 1);
        assert(s.take(i + 1).skip(1) =~= s.skip(1).take(i));
        assert(s.take(i).skip(1) =~= s.skip(1).take(i - 1));
        assert(s.take(i + 1)[0] == s[0] && s.take(i)[0] == s[0]);
        assert(s.skip(1)[i - 1] == s[i]);
        assert(stake_list_bytes(s.take(i + 1)) == stake_entry_bytes(s[0]) + stake_list_bytes(
            s.skip(1).take(i),
        ));
        assert(stake_list_bytes(s.take(i)) == stake_entry_bytes(s[0]) + stake_list_bytes(
            s.skip(1).take(i - 1),
        ));
        assert(stake_list_bytes(s.take(i + 1)) =~= stake_list_bytes(s.take(i))
            + stake_entry_bytes(s[i]));
    }
}

/// Taking one more record appends that record's bytes.
pub proof fn lemma_neuron_list_take_snoc(s: Seq<NeuronRecordV>, i: int)
    requires
        0 <= i < s.len(),
    ensures
        neuron_list_bytes(s.take(i + 1)) =~= neuron_list_bytes(s.take(i)) + neuron_bytes(s[i]),
    decreases i,
{
    if i == 0 {
        assert(s.take(0) =~= Seq::<NeuronRecordV>::empty());
        assert(s.take(1) =~= seq![s[0]]);
        assert(neuron_list_bytes(seq![s[0]]) == neuron_bytes(s[0]) + neuron_list_bytes(
            seq![s[0]].skip(1),
        ));
        assert(seq![s[0]].skip(1) =~= Seq::<NeuronRecordV>::empty());
        assert(neuron_list_bytes(s.take(1)) =~= neuron_list_bytes(s.take(0)) + neuron_bytes(s[0]));
    } else {
        lemma_neuron_list_take_snoc(s.skip(1), i - 1);
        assert(s.take(i + 1).skip(1) =~= s.skip(1).take(i));
        assert(s.take(i).skip(1) =~= s.skip(1).take(i - 1));
        assert(s.take(i + 1)[0] == s[0] && s.take(i)[0] == s[0]);
        assert(s.skip(1)[i - 1] == s[i]);
        assert(neuron_list_bytes(s.take(i + 1)) == neuron_bytes(s[0]) + neuron_list_bytes(
            s.skip(1).take(i),
        ));
        assert(neuron_list_bytes(s.take(i)) == neuron_bytes(s[0]) + neuron_list_bytes(
            s.skip(1).take(i - 1),
        ));
        assert(neuron_list_bytes(s.take(i + 1)) =~= neuron_list_bytes(s.take(i)) + neuron_bytes(
            s[i],
        ));
    }
}

/// Appends the metric tail.
#[verifier::rlimit(100)]
#[verifier::spinoff_prover]
pub fn encode_metrics(v: &ConsensusMetrics, out: &mut Vec<u8>)
    ensures
        final(out)@ == old(out)@ + metrics_bytes(*v),
{
    encode_compact_u64(v.rank as u64, out);
    encode_compact_u64(v.emission, out);
    encode_compact_u64(v.incentive as u64, out);
    encode_compact_u64(v.consensus as u64, out);
    encode_compact_u64(v.trust as u64, out);
    encode_compact_u64(v.validator_trust as u64, out);
    encode_compact_u64(v.dividends as u64, out);
    encode_compact_u64(v.pruning_score as u64, out);
    encode_compact_u64(v.last_update, out);
    encode_bool(v.validator_permit, out);
    proof {
        assert(out@ =~= old(out)@ + metrics_bytes(*v));
    }
}

/// Appends one participant record.
pub fn encode_neuron(rec: &NeuronRecord, out: &mut Vec<u8>)
    requires
        rec@.wf(),
    ensures
        final(out)@ == old(out)@ + neuron_bytes(rec@),
{
    push_bytes(out, &rec.hotkey);
    push_bytes(out, &rec.coldkey);
    encode_compact_u64(rec.uid as u64, out);
    encode_bool(rec.active, out);
    encode_axon(&rec.axon, out);
    encode_compact_u64(rec.stake.len() as u64, out);
    let ghost views = stake_views(rec.stake@);
    let ghost base = out@;
    let mut i: usize = 0;
    while i < rec.stake.len()
        invariant
            i <= rec.stake@.len(),
            views == stake_views(rec.stake@),
            views.len() == rec.stake@.len(),
            rec@.wf(),
            forall|k: int| 0 <= k < views.len() ==> (#[trigger] views[k]).wf(),
            out@ == base + stake_list_bytes(views.take(i as int)),
        decreases rec.stake@.len() - i,
    {
        proof {
            assert(views[i as int] == rec.stake@[i as int]@);
            assert(rec@.stake == views);
        }
        encode_stake_entry(&rec.stake[i], out);
        proof {
            lemma_stake_list_take_snoc(views, i as int);
        }
        i += 1;
    }
    proof {
        assert(views.take(views.len() as int) =~= views);
    }
    encode_metrics(
        &ConsensusMetrics {
            rank: rec.rank,
            emission: rec.emission,
            incentive: rec.incentive,
            consensus: rec.consensus,
            trust: rec.trust,
            validator_trust: rec.validator_trust,
            dividends: rec.dividends,
            pruning_score: rec.pruning_score,
            last_update: rec.last_update,
            validator_permit: rec.validator_permit,
        },
        out,
    );
    proof {
        assert(out@ =~= old(out)@ + neuron_bytes(rec@));
    }
}

/// Encodes a whole registry snapshot: compact count then the records.
pub fn encode_neurons(list: &Vec<NeuronRecord>) -> (out: Vec<u8>)
    requires
        forall|i: int| 0 <= i < list@.len() ==> (#[trigger] list@[i])@.wf(),
    ensures
        out@ == neurons_response_bytes(neuron_views(list@)),
{
    let mut out: Vec<u8> = Vec::new();
    encode_compact_u64(list.len() as u64, &mut out);
    let ghost views = neuron_views(list@);
    let ghost base = out@;
    let mut i: usize = 0;
    while i < list.len()
        invariant
            i <= list@.len(),
            views == neuron_views(list@),
            views.len() == list@.len(),
            forall|k: int| 0 <= k < list@.len() ==> (#[trigger] list@[k])@.wf(),
            out@ == base + neuron_list_bytes(views.take(i as int)),
        decreases list@.len() - i,
    {
        proof {
            assert(views[i as int] == list@[i as int]@);
        }
        encode_neuron(&list[i], &mut out);
        proof {
            lemma_neuron_list_take_snoc(views, i as int);
        }
        i += 1;
    }
    proof {
        assert(views.take(views.len() as int) =~= views);
        assert(out@ =~= neurons_response_bytes(views));
    }
    out
}

/// A record list laid down at `pos` decodes back, record by record.
pub proof fn lemma_neuron_list_skip(b: Seq<u8>, pos: int, s: Seq<NeuronRecordV>, rest: Seq<u8>)
    requires
        0 <= pos <= b.len(),
        forall|i: int| 0 <= i < s.len() ==> (#[trigger] s[i]).wf(),
        b.skip(pos) == neuron_list_bytes(s) + rest,
    ensures
        neuron_list_at(b, pos, s.len()) == Ok::<(Seq<NeuronRecordV>, int), DecodeError>(
            (s, pos + neuron_list_bytes(s).len() as int),
        ),
    decreases s.len(),
{
    if s.len() == 0 {
        assert(s =~= Seq::<NeuronRecordV>::empty());
        assert(neuron_list_bytes(s).len() == 0);
    } else {
        let m0 = s[0];
        let eb = neuron_bytes(m0);
        let tb = neuron_list_bytes(s.skip(1));
        assert(neuron_list_bytes(s) == eb + tb);
        assert(b.skip(pos) =~= eb + (tb + rest));
        lemma_neuron_skip(b, pos, m0, tb + rest);
        lemma_skip_shift(b, pos, eb.len() as int, eb, tb + rest);
        let p1 = pos + eb.len() as int;
        assert(forall|i: int| 0 <= i < s.skip(1).len() ==> (#[trigger] s.skip(1)[i]).wf());
        lemma_neuron_list_skip(b, p1, s.skip(1), rest);
        assert(seq![m0] + s.skip(1) =~= s);
        assert((eb + tb).len() == eb.len() + tb.len());
    }
}

/// Decode is a left inverse of encode for whole registry snapshots: a
/// snapshot of well-formed records with strictly ascending uids, laid
/// down and decoded again, comes back exactly.
pub proof fn lemma_neurons_response_round_trip(s: Seq<NeuronRecordV>)
    requires
        forall|i: int| 0 <= i < s.len() ==> (#[trigger] s[i]).wf(),
        uids_ascending(s),
        s.len() < 0x10000000000000000,
    ensures
        neurons_response(neurons_response_bytes(s)) == Ok::<Seq<NeuronRecordV>, DecodeError>(s),
{
    let ce = compact_encode(s.len() as u64);
    let lb = neuron_list_bytes(s);
    let b = neurons_response_bytes(s);
    assert(b == ce + lb);
    assert(b.skip(0) =~= ce + lb);
    lemma_compact_skip(b, 0, s.len() as u64, lb);
    lemma_skip_shift(b, 0, ce.len() as int, ce, lb);
    let p = ce.len() as int;
    assert(b.skip(p) =~= lb + Seq::<u8>::empty());
    assert((s.len() as u64) as nat == s.len());
    lemma_neuron_list_skip(b, p, s, Seq::<u8>::empty());
    assert(b.len() == p + lb.len());
}

/// Snapshot of one registered delegate: its accounts, take, nominator
/// stakes, per-subnet registrations and permits, and return rates.
pub struct DelegateRecord {
    pub delegate: Vec<u8>,
    pub take: u16,
    pub nominators: Vec<StakeEntry>,
    pub owner: Vec<u8>,
    pub registrations: Vec<u16>,
    pub validator_permits: Vec<u16>,
    pub return_per_1000: u64,
    pub total_daily_return: u64,
}

/// The mathematical value of a delegate record.
pub ghost struct DelegateRecordV {
    pub delegate: Seq<u8>,
    pub take: u16,
    pub nominators: Seq<StakeEntryV>,
    pub owner: Seq<u8>,
    pub registrations: Seq<u16>,
    pub validator_permits: Seq<u16>,
    pub return_per_1000: u64,
    pub total_daily_return: u64,
}

impl View for DelegateRecord {
    type V = DelegateRecordV;

    open spec fn view(&self) -> DelegateRecordV {
        DelegateRecordV {
            delegate: self.delegate@,
            take: self.take,
            nominators: stake_views(self.nominators@),
            owner: self.owner@,
            registrations: self.registrations@,
            validator_permits: self.validator_permits@,
            return_per_1000: self.return_per_1000,
            total_daily_return: self.total_daily_return,
        }
    }
}

impl DelegateRecordV {
    /// Accounts are 32 bytes, every nominator entry is well formed, and
    /// the lists are countable by their compact length prefixes.
    pub open spec fn wf(self) -> bool {
        self.delegate.len() == 32 && self.owner.len() == 32 && self.nominators.len()
            < 0x10000000000000000 && self.registrations.len() < 0x10000000000000000
            && self.validator_permits.len() < 0x10000000000000000 && forall|i: int|
            0 <= i < self.nominators.len() ==> self.nominators[i].wf()
    }
}

/// Layout of a list of compact 16-bit values: the values one after the
/// other, after the compact count written by the caller.
pub open spec fn compact_u16_list_bytes(s: Seq<u16>) -> Seq<u8>
    decreases s.len(),
{
    if s.len() == 0 {
        Seq::empty()
    } else {
        compact_encode(s[0] as u64) + compact_u16_list_bytes(s.skip(1))
    }
}

/// Decodes `count` compact 16-bit values one after the other.
pub open spec fn compact_u16_list_at(b: Seq<u8>, pos: int, count: nat) -> Result<
    (Seq<u16>, int),
    DecodeError,
>
    decreases count,
{
    if count == 0 {
        Ok((Seq::empty(), pos))
    } else {
        match compact_u16_at(b, pos) {
            Err(e) => Err(e),
            Ok((v, p1)) => match compact_u16_list_at(b, p1, (count - 1) as nat) {
                Err(e) => Err(e),
                Ok((s, p2)) => Ok((seq![v] + s, p2)),
            },
        }
    }
}

/// A compact 16-bit list laid down at `pos` decodes back.
pub proof fn lemma_compact_u16_list_skip(b: Seq<u8>, pos: int, s: Seq<u16>, rest: Seq<u8>)
    requires
        0 <= pos <= b.len(),
        b.skip(pos) == compact_u16_list_bytes(s) + rest,
    ensures
        compact_u16_list_at(b, pos, s.len()) == Ok::<(Seq<u16>, int), DecodeError>(
            (s, pos + compact_u16_list_bytes(s).len() as int),
        ),
    decreases s.len(),
{
    if s.len() == 0 {
        assert(s =~= Seq::<u16>::empty());
        assert(compact_u16_list_bytes(s).len() == 0);
    } else {
        let eb = compact_encode(s[0] as u64);
        let tb = compact_u16_list_bytes(s.skip(1));
        assert(compact_u16_list_bytes(s) == eb + tb);
        assert(b.skip(pos) =~= eb + (tb + rest));
        lemma_compact_u16_skip(b, pos, s[0], tb + rest);
        lemma_skip_shift(b, pos, eb.len() as int, eb, tb + rest);
        let p1 = pos + eb.len() as int;
        lemma_compact_u16_list_skip(b, p1, s.skip(1), rest);
        assert(seq![s[0]] + s.skip(1) =~= s);
        assert((eb + tb).len() == eb.len() + tb.len());
    }
}

/// Layout of the tail of a delegate record: the owner account, the two
/// length-prefixed compact uid lists, then the two compact return rates.
pub open spec fn delegate_tail_bytes(m: DelegateRecordV) -> Seq<u8> {
    m.owner + (compact_encode(m.registrations.len() as u64) + (compact_u16_list_bytes(
        m.registrations,
    ) + (compact_encode(m.validator_permits.len() as u64) + (compact_u16_list_bytes(
        m.validator_permits,
    ) + (compact_encode(m.return_per_1000) + compact_encode(m.total_daily_return))))))
}

/// Layout of a delegate record: the delegate account, compact take, the
/// length-prefixed nominator stakes, then the tail.
pub open spec fn delegate_bytes(m: DelegateRecordV) -> Seq<u8> {
    m.delegate + (compact_encode(m.take as u64) + (compact_encode(m.nominators.len() as u64) + (
    stake_list_bytes(m.nominators) + delegate_tail_bytes(m))))
}

/// Decodes one delegate record at `pos`.
pub open spec fn delegate_at(b: Seq<u8>, pos: int) -> Result<(DelegateRecordV, int), DecodeError> {
    match account_at(b, pos) {
        Err(e) => Err(e),
        Ok((delegate, p1)) => match compact_u16_at(b, p1) {
            Err(e) => Err(e),
            Ok((take, p2)) => match compact_at(b, p2) {
                Err(e) => Err(e),
                Ok((ncount, p3)) => match stake_list_at(b, p3, ncount as nat) {
                    Err(e) => Err(e),
                    Ok((nominators, p4)) => match account_at(b, p4) {
                        Err(e) => Err(e),
                        Ok((owner, p5)) => match compact_at(b, p5) {
                            Err(e) => Err(e),
                            Ok((rcount, p6)) => match compact_u16_list_at(b, p6, rcount as nat) {
                                Err(e) => Err(e),
                                Ok((registrations, p7)) => match compact_at(b, p7) {
                                    Err(e) => Err(e),
                                    Ok((vcount, p8)) => match compact_u16_list_at(
                                        b,
                                        p8,
                                        vcount as nat,
                                    ) {
                                        Err(e) => Err(e),
                                        Ok((validator_permits, p9)) => match compact_at(b, p9) {
                                            Err(e) => Err(e),
                                            Ok((return_per_1000, p10)) => match compact_at(
                                                b,
                                                p10,
                                            ) {
                                                Err(e) => Err(e),
                                                Ok((total_daily_return, p11)) => Ok(
                                                    (
                                                        DelegateRecordV {
                                                            delegate,
                                                            take,
                                                            nominators,
                                                            owner,
                                                            registrations,
                                                            validator_permits,
                                                            return_per_1000,
                                                            total_daily_return,
                                                        },
                                                        p11,
                                                    ),
                                                ),
                                            },
                                        },
                                    },
                                },
                            },
                        },
                    },
                },
            },
        },
    }
}

/// Decoding starts over exactly where a delegate record was laid down.
#[verifier::rlimit(100)]
#[verifier::spinoff_prover]
pub proof fn lemma_delegate_skip(b: Seq<u8>, pos: int, m: DelegateRecordV, rest: Seq<u8>)
    requires
        0 <= pos <= b.len(),
        m.wf(),
        b.skip(pos) == delegate_bytes(m) + rest,
    ensures
        delegate_at(b, pos) == Ok::<(DelegateRecordV, int), DecodeError>(
            (m, pos + delegate_bytes(m).len() as int),
        ),
{
    let e1 = m.delegate;
    let e2 = compact_encode(m.take as u64);
    let e3 = compact_encode(m.nominators.len() as u64);
    let e4 = stake_list_bytes(m.nominators);
    let e5 = m.owner;
    let e6 = compact_encode(m.registrations.len() as u64);
    let e7 = compact_u16_list_bytes(m.registrations);
    let e8 = compact_encode(m.validator_permits.len() as u64);
    let e9 = compact_u16_list_bytes(m.validator_permits);
    let e10 = compact_encode(m.return_per_1000);
    let e11 = compact_encode(m.total_daily_return);
    let t10 = e10 + e11;
    let t9 = e9 + t10;
    let t8 = e8 + t9;
    let t7 = e7 + t8;
    let t6 = e6 + t7;
    let t5 = e5 + t6;
    let t4 = e4 + t5;
    let t3 = e3 + t4;
    let t2 = e2 + t3;
    let db = delegate_bytes(m);
    assert(db == e1 + t2);
    assert(b.skip(pos) =~= e1 + (t2 + rest));
    lemma_account_skip(b, pos, e1, t2 + rest);
    lemma_skip_shift(b, pos, 32, e1, t2 + rest);
    let p1 = pos + 32;
    assert(b.skip(p1) =~= e2 + (t3 + rest));
    lemma_compact_u16_skip(b, p1, m.take, t3 + rest);
    lemma_skip_shift(b, p1, e2.len() as int, e2, t3 + rest);
    let p2 = p1 + e2.len() as int;
    assert(b.skip(p2) =~= e3 + (t4 + rest));
    lemma_compact_skip(b, p2, m.nominators.len() as u64, t4 + rest);
    lemma_skip_shift(b, p2, e3.len() as int, e3, t4 + rest);
    let p3 = p2 + e3.len() as int;
    assert(b.skip(p3) =~= e4 + (t5 + rest));
    assert((m.nominators.len() as u64) as nat == m.nominators.len());
    lemma_stake_list_skip(b, p3, m.nominators, t5 + rest);
    lemma_skip_shift(b, p3, e4.len() as int, e4, t5 + rest);
    let p4 = p3 + e4.len() as int;
    assert(b.skip(p4) =~= e5 + (t6 + rest));
    lemma_account_skip(b, p4, e5, t6 + rest);
    lemma_skip_shift(b, p4, 32, e5, t6 + rest);
    let p5 = p4 + 32;
    assert(b.skip(p5) =~= e6 + (t7 + rest));
    lemma_compact_skip(b, p5, m.registrations.len() as u64, t7 + rest);
    lemma_skip_shift(b, p5, e6.len() as int, e6, t7 + rest);
    let p6 = p5 + e6.len() as int;
    assert(b.skip(p6) =~= e7 + (t8 + rest));
    assert((m.registrations.len() as u64) as nat == m.registrations.len());
    lemma_compact_u16_list_skip(b, p6, m.registrations, t8 + rest);
    lemma_skip_shift(b, p6, e7.len() as int, e7, t8 + rest);
    let p7 = p6 + e7.len() as int;
    assert(b.skip(p7) =~= e8 + (t9 + rest));
    lemma_compact_skip(b, p7, m.validator_permits.len() as u64, t9 + rest);
    lemma_skip_shift(b, p7, e8.len() as int, e8, t9 + rest);
    let p8 = p7 + e8.len() as int;
    assert(b.skip(p8) =~= e9 + (t10 + rest));
    assert((m.validator_permits.len() as u64) as nat == m.validator_permits.len());
    lemma_compact_u16_list_skip(b, p8, m.validator_permits, t10 + rest);
    lemma_skip_shift(b, p8, e9.len() as int, e9, t10 + rest);
    let p9 = p8 + e9.len() as int;
    assert(b.skip(p9) =~= e10 + (e11 + rest));
    lemma_compact_skip(b, p9, m.return_per_1000, e11 + rest);
    lemma_skip_shift(b, p9, e10.len() as int, e10, e11 + rest);
    let p10 = p9 + e10.len() as int;
    assert(b.skip(p10) =~= e11 + rest);
    lemma_compact_skip(b, p10, m.total_daily_return, rest);
    let p11 = p10 + e11.len() as int;
    assert(db.len() == p11 - pos);
}

/// Decode is a left inverse of encode for delegate records.
pub proof fn lemma_delegate_round_trip(m: DelegateRecordV, rest: Seq<u8>)
    requires
        m.wf(),
    ensures
        delegate_at(delegate_bytes(m) + rest, 0) == Ok::<(DelegateRecordV, int), DecodeError>(
            (m, delegate_bytes(m).len() as int),
        ),
{
    let b = delegate_bytes(m) + rest;
    assert(b.skip(0) =~= delegate_bytes(m) + rest);
    lemma_delegate_skip(b, 0, m, rest);
}

/// Reads `count` compact 16-bit values.
pub fn decode_compact_u16_list(bytes: &Vec<u8>, pos: usize, count: u64) -> (r: Result<
    (Vec<u16>, usize),
    DecodeError,
>)
    requires
        pos <= bytes@.len(),
    ensures
        match r {
            Ok(p) => pos <= p.1 <= bytes@.len() && p.0@.len() == count && compact_u16_list_at(
                bytes@,
                pos as int,
                count as nat,
            ) == Ok::<(Seq<u16>, int), DecodeError>((p.0@, p.1 as int)),
            Err(e) => compact_u16_list_at(bytes@, pos as int, count as nat) == Err::<
                (Seq<u16>, int),
                DecodeError,
            >(e),
        },
    decreases count,
{
    if count == 0 {
        Ok((Vec::new(), pos))
    } else {
        match decode_compact_u16(bytes, pos) {
            Err(e) => Err(e),
            Ok((v0, p1)) => match decode_compact_u16_list(bytes, p1, count - 1) {
                Err(e) => Err(e),
                Ok((mut v, p2)) => {
                    let ghost tail = v@;
                    v.insert(0, v0);
                    proof {
                        assert(v@ =~= seq![v0] + tail);
                    }
                    Ok((v, p2))
                },
            },
        }
    }
}

/// Appends each element as a compact integer.
fn encode_compact_u16_list(list: &Vec<u16>, out: &mut Vec<u8>)
    ensures
        final(out)@ == old(out)@ + compact_u16_list_bytes(list@),
{
    proof {
        assert(list@.skip(0) =~= list@);
        assert(out@ + compact_u16_list_bytes(list@.skip(0)) == out@ + compact_u16_list_bytes(
            list@,
        ));
    }
    let ghost base = out@;
    let mut i: usize = 0;
    while i < list.len()
        invariant
            i <= list@.len(),
            base + compact_u16_list_bytes(list@.skip(0)) == base + compact_u16_list_bytes(list@),
            out@ + compact_u16_list_bytes(list@.skip(i as int)) == base + compact_u16_list_bytes(
                list@,
            ),
        decreases list@.len() - i,
    {
        proof {
            assert(compact_u16_list_bytes(list@.skip(i as int)) == compact_encode(
                list@.skip(i as int)[0] as u64,
            ) + compact_u16_list_bytes(list@.skip(i as int).skip(1)));
            assert(list@.skip(i as int)[0] == list@[i as int]);
            assert(list@.skip(i as int).skip(1) =~= list@.skip(i + 1));
        }
        encode_compact_u64(list[i] as u64, out);
        i += 1;
    }
    proof {
        assert(list@.skip(list@.len() as int) =~= Seq::<u16>::empty());
    }
}

/// Reads one delegate record.
pub fn decode_delegate(bytes: &Vec<u8>, pos: usize) -> (r: Result<
    (DelegateRecord, usize),
    DecodeError,
>)
    requires
        pos <= bytes@.len(),
    ensures
        match r {
            Ok(p) => pos < p.1 <= bytes@.len() && p.0@.wf() && delegate_at(bytes@, pos as int)
                == Ok::<(DelegateRecordV, int), DecodeError>((p.0@, p.1 as int)),
            Err(e) => delegate_at(bytes@, pos as int) == Err::<(DelegateRecordV, int), DecodeError>(
                e,
            ),
        },
{
    let (delegate, p1) = match decode_account(bytes, pos) {
        Ok(x) => x,
        Err(e) => {
            return Err(e);
        },
    };
    let (take, p2) = match decode_compact_u16(bytes, p1) {
        Ok(x) => x,
        Err(e) => {
            return Err(e);
        },
    };
    let (ncount, p3) = match decode_compact(bytes, p2) {
        Ok(x) => x,
        Err(e) => {
            return Err(e);
        },
    };
    let (nominators, p4) = match decode_stake_list(bytes, p3, ncount) {
        Ok(x) => x,
        Err(e) => {
            return Err(e);
        },
    };
    let (owner, p5) = match decode_account(bytes, p4) {
        Ok(x) => x,
        Err(e) => {
            return Err(e);
        },
    };
    let (rcount, p6) = match decode_compact(bytes, p5) {
        Ok(x) => x,
        Err(e) => {
            return Err(e);
        },
    };
    let (registrations, p7) = match decode_compact_u16_list(bytes, p6, rcount) {
        Ok(x) => x,
        Err(e) => {
            return Err(e);
        },
    };
    let (vcount, p8) = match decode_compact(bytes, p7) {
        Ok(x) => x,
        Err(e) => {
            return Err(e);
        },
    };
    let (validator_permits, p9) = match decode_compact_u16_list(bytes, p8, vcount) {
        Ok(x) => x,
        Err(e) => {
            return Err(e);
        },
    };
    let (return_per_1000, p10) = match decode_compact(bytes, p9) {
        Ok(x) => x,
        Err(e) => {
            return Err(e);
        },
    };
    let (total_daily_return, p11) = match decode_compact(bytes, p10) {
        Ok(x) => x,
        Err(e) => {
            return Err(e);
        },
    };
    let rec = DelegateRecord {
        delegate,
        take,
        nominators,
        owner,
        registrations,
        validator_permits,
        return_per_1000,
        total_daily_return,
    };
    Ok((rec, p11))
}

/// Appends one delegate record.
#[verifier::rlimit(100)]
#[verifier::spinoff_prover]
pub fn encode_delegate(rec: &DelegateRecord, out: &mut Vec<u8>)
    requires
        rec@.wf(),
    ensures
        final(out)@ == old(out)@ + delegate_bytes(rec@),
{
    push_bytes(out, &rec.delegate);
    encode_compact_u64(rec.take as u64, out);
    encode_compact_u64(rec.nominators.len() as u64, out);
    let ghost views = stake_views(rec.nominators@);
    let ghost base = out@;
    let mut i: usize = 0;
    while i < rec.nominators.len()
        invariant
            i <= rec.nominators@.len(),
            views == stake_views(rec.nominators@),
            views.len() == rec.nominators@.len(),
            rec@.wf(),
            forall|k: int| 0 <= k < views.len() ==> (#[trigger] views[k]).wf(),
            out@ == base + stake_list_bytes(views.take(i as int)),
        decreases rec.nominators@.len() - i,
    {
        proof {
            assert(views[i as int] == rec.nominators@[i as int]@);
            assert(rec@.nominators == views);
        }
        encode_stake_entry(&rec.nominators[i], out);
        proof {
            lemma_stake_list_take_snoc(views, i as int);
        }
        i += 1;
    }
    proof {
        assert(views.take(views.len() as int) =~= views);
    }
    let ghost mid = out@;
    push_bytes(out, &rec.owner);
    encode_compact_u64(rec.registrations.len() as u64, out);
    encode_compact_u16_list(&rec.registrations, out);
    encode_compact_u64(rec.validator_permits.len() as u64, out);
    encode_compact_u16_list(&rec.validator_permits, out);
    encode_compact_u64(rec.return_per_1000, out);
    encode_compact_u64(rec.total_daily_return, out);
    proof {
        assert(out@ =~= mid + delegate_tail_bytes(rec@));
        assert(mid =~= old(out)@ + (rec@.delegate + (compact_encode(rec@.take as u64) + (
        compact_encode(rec@.nominators.len() as u64) + stake_list_bytes(rec@.nominators)))));
        assert(out@ =~= old(out)@ + delegate_bytes(rec@));
    }
}

/// The values of a sequence of delegate records.
pub open spec fn delegate_views(s: Seq<DelegateRecord>) -> Seq<DelegateRecordV> {
    s.map_values(|r: DelegateRecord| r@)
}

/// Decodes `count` delegate records one after the other.
pub open spec fn delegate_list_at(b: Seq<u8>, pos: int, count: nat) -> Result<
    (Seq<DelegateRecordV>, int),
    DecodeError,
>
    decreases count,
{
    if count == 0 {
        Ok((Seq::empty(), pos))
    } else {
        match delegate_at(b, pos) {
            Err(e) => Err(e),
            Ok((m, p1)) => match delegate_list_at(b, p1, (count - 1) as nat) {
                Err(e) => Err(e),
                Ok((s, p2)) => Ok((seq![m] + s, p2)),
            },
        }
    }
}

/// A delegate listing blob: the compact record count, then the records,
/// nothing after them.
pub open spec fn delegates_response(b: Seq<u8>) -> Result<Seq<DelegateRecordV>, DecodeError> {
    match compact_at(b, 0) {
        Err(e) => Err(e),
        Ok((count, p)) => match delegate_list_at(b, p, count as nat) {
            Err(e) => Err(e),
            Ok((s, q)) => if q != b.len() {
                Err(DecodeError::TrailingData)
            } else {
                Ok(s)
            },
        },
    }
}

/// Reads `count` delegate records.
pub fn decode_delegate_list(bytes: &Vec<u8>, pos: usize, count: u64) -> (r: Result<
    (Vec<DelegateRecord>, usize),
    DecodeError,
>)
    requires
        pos <= bytes@.len(),
    ensures
        match r {
            Ok(p) => pos <= p.1 <= bytes@.len() && p.0@.len() == count && delegate_list_at(
                bytes@,
                pos as int,
                count as nat,
            ) == Ok::<(Seq<DelegateRecordV>, int), DecodeError>((delegate_views(p.0@), p.1 as int))
                && forall|i: int| 0 <= i < p.0@.len() ==> (#[trigger] p.0@[i])@.wf(),
            Err(e) => delegate_list_at(bytes@, pos as int, count as nat) == Err::<
                (Seq<DelegateRecordV>, int),
                DecodeError,
            >(e),
        },
    decreases count,
{
    if count == 0 {
        proof {
            assert(delegate_views(Seq::<DelegateRecord>::empty()) =~= Seq::<
                DelegateRecordV,
            >::empty());
        }
        Ok((Vec::new(), pos))
    } else {
        match decode_delegate(bytes, pos) {
            Err(e) => Err(e),
            Ok((m0, p1)) => match decode_delegate_list(bytes, p1, count - 1) {
                Err(e) => Err(e),
                Ok((mut v, p2)) => {
                    let ghost tailviews = delegate_views(v@);
                    v.insert(0, m0);
                    proof {
                        assert(delegate_views(v@) =~= seq![m0@] + tailviews);
                    }
                    Ok((v, p2))
                },
            },
        }
    }
}

/// Decodes a whole delegate listing: the compact record count, the
/// records, no trailing bytes.
pub fn decode_delegates(bytes: &Vec<u8>) -> (r: Result<Vec<DelegateRecord>, DecodeError>)
    ensures
        match r {
            Ok(v) => delegates_response(bytes@) == Ok::<Seq<DelegateRecordV>, DecodeError>(
                delegate_views(v@),
            ) && forall|i: int| 0 <= i < v@.len() ==> (#[trigger] v@[i])@.wf(),
            Err(e) => delegates_response(bytes@) == Err::<Seq<DelegateRecordV>, DecodeError>(e),
        },
{
    let (count, p) = match decode_compact(bytes, 0) {
        Ok(x) => x,
        Err(e) => {
            return Err(e);
        },
    };
    let (v, q) = match decode_delegate_list(bytes, p, count) {
        Ok(x) => x,
        Err(e) => {
            return Err(e);
        },
    };
    if q != bytes.len() {
        return Err(DecodeError::TrailingData);
    }
    Ok(v)
}

} // verus!
