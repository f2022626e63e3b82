use rustnett::axon::{build_serve_axon, build_serve_prometheus, decode_ip_octets, encode_ip_octets};
use rustnett::codec::{decode_compact_u64, encode_compact_u64, DecodeError};
use rustnett::config::SubnetConfig;
use rustnett::keys::{KeyError, Keypair};
use rustnett::neuron::{BaseNeuron, ChainSnapshot, NeuronError, Stage};
use rustnett::records::{
    decode_compact_u16, decode_delegate, decode_delegates, decode_neuron, decode_neurons,
    encode_delegate, encode_neuron, encode_neurons, AxonAdvertisement, DelegateRecord,
    NeuronRecord, StakeEntry,
};
use rustnett::wallet::{decode_hex_seed, load_seed_from_json, WalletError};
use rustnett::weights::{build_set_weights, encode_set_weights, WeightAssignment};

use parity_scale_codec::{Compact, Encode};

fn sample_axon() -> AxonAdvertisement {
    AxonAdvertisement {
        version: 640,
        ip: 0xC0A8010A,
        port: 8091,
        ip_type: 4,
        protocol: 4,
        placeholder1: 0,
        placeholder2: 0,
    }
}

fn sample_record(uid: u16) -> NeuronRecord {
    NeuronRecord {
        hotkey: vec![7u8; 32],
        coldkey: vec![9u8; 32],
        uid,
        active: true,
        axon: sample_axon(),
        stake: vec![
            StakeEntry { account: vec![1u8; 32], amount: 5_000 },
            StakeEntry { account: vec![2u8; 32], amount: 1_500_000_000 },
        ],
        rank: 120,
        emission: 9_999_999_999,
        incentive: 300,
        consensus: 400,
        trust: 500,
        validator_trust: 600,
        dividends: 700,
        pruning_score: 800,
        last_update: 123_456,
        validator_permit: true,
    }
}

#[test]
fn set_weights_scenario() {
    let assignments = vec![
        WeightAssignment { uid: 5, weight: 1000 },
        WeightAssignment { uid: 9, weight: 2000 },
    ];
    let call = build_set_weights(1, &assignments, 42);
    assert_eq!(call.netuid, 1);
    assert_eq!(call.dests, vec![5, 9]);
    assert_eq!(call.weights, vec![1000, 2000]);
    assert_eq!(call.version_key, 42);
}

#[test]
fn set_weights_payload_matches_scale() {
    let assignments = vec![
        WeightAssignment { uid: 5, weight: 1000 },
        WeightAssignment { uid: 9, weight: 2000 },
    ];
    let call = build_set_weights(1, &assignments, 42);
    let payload = encode_set_weights(&call);
    let reference = (1u16, vec![5u16, 9], vec![1000u16, 2000], 42u64).encode();
    assert_eq!(payload, reference);
}

#[test]
fn set_weights_parallel_arrays_keep_order() {
    let assignments: Vec<WeightAssignment> =
        (0..100).map(|i| WeightAssignment { uid: 200 - i, weight: i * 3 }).collect();
    let call = build_set_weights(7, &assignments, 0);
    assert_eq!(call.dests.len(), assignments.len());
    assert_eq!(call.weights.len(), assignments.len());
    for (i, a) in assignments.iter().enumerate() {
        assert_eq!(call.dests[i], a.uid);
        assert_eq!(call.weights[i], a.weight);
    }
}

#[test]
fn set_weights_empty_list() {
    let call = build_set_weights(3, &Vec::new(), 11);
    assert!(call.dests.is_empty());
    assert!(call.weights.is_empty());
}

#[test]
fn compact_encoding_matches_scale() {
    for v in [
        0u64,
        1,
        63,
        64,
        12_345,
        16_383,
        16_384,
        1_073_741_823,
        1_073_741_824,
        5_000_000_000,
        u64::MAX,
    ] {
        let mut ours = Vec::new();
        encode_compact_u64(v, &mut ours);
        assert_eq!(ours, Compact(v).encode(), "value {v}");
    }
}

#[test]
fn compact_round_trip() {
    for v in [0u64, 63, 64, 16_383, 16_384, 1 << 29, 1 << 30, 1 << 40, u64::MAX] {
        let mut bytes = Vec::new();
        encode_compact_u64(v, &mut bytes);
        bytes.push(0xAB); // trailing data after the integer
        let (decoded, next) = decode_compact_u64(&bytes, 0).unwrap();
        assert_eq!(decoded, v);
        assert_eq!(next, bytes.len() - 1);
    }
}

#[test]
fn compact_rejects_non_canonical() {
    // two-byte layout holding a value that fits one byte
    let bytes = vec![0x01u8, 0x00];
    assert_eq!(decode_compact_u64(&bytes, 0), Err(DecodeError::NonCanonical));
}

#[test]
fn compact_rejects_truncated_input() {
    let bytes = vec![0x01u8];
    assert_eq!(decode_compact_u64(&bytes, 0), Err(DecodeError::UnexpectedEnd));
    assert_eq!(decode_compact_u64(&Vec::new(), 0), Err(DecodeError::UnexpectedEnd));
}

#[test]
fn compact_u16_overflow() {
    let mut bytes = Vec::new();
    encode_compact_u64(70_000, &mut bytes);
    assert_eq!(decode_compact_u16(&bytes, 0), Err(DecodeError::Overflow));
}

#[test]
fn ipv4_round_trip() {
    let octets = vec![192u8, 168, 1, 10];
    let ip = encode_ip_octets(&octets);
    assert_eq!(ip, 0xC0A8010A);
    assert!(ip < 1u128 << 32);
    assert_eq!(decode_ip_octets(ip, 4), octets);
}

#[test]
fn ipv6_round_trip() {
    let mut octets = vec![0x20u8, 0x01, 0x0d, 0xb8];
    octets.extend_from_slice(&[0u8; 10]);
    octets.extend_from_slice(&[0x12, 0x34]);
    let ip = encode_ip_octets(&octets);
    assert_eq!(decode_ip_octets(ip, 16), octets);
}

#[test]
fn serve_axon_fields() {
    let call = build_serve_axon(1, 640, 0xC0A8010A, 8091, 4, 4, 0, 0);
    assert_eq!(call.netuid, 1);
    assert_eq!(call.version, 640);
    assert_eq!(call.ip, 0xC0A8010A);
    assert_eq!(call.port, 8091);
    assert_eq!(call.ip_type, 4);
    assert_eq!(call.protocol, 4);
    assert_eq!(call.placeholder1, 0);
    assert_eq!(call.placeholder2, 0);
}

#[test]
fn serve_prometheus_fields() {
    let call = build_serve_prometheus(2, 640, 0x2001_0db8_0000_0000_0000_0000_0000_1234, 9090, 6);
    assert_eq!(call.netuid, 2);
    assert_eq!(call.version, 640);
    assert_eq!(call.ip, 0x2001_0db8_0000_0000_0000_0000_0000_1234);
    assert_eq!(call.port, 9090);
    assert_eq!(call.ip_type, 6);
}

fn assert_records_equal(a: &NeuronRecord, b: &NeuronRecord) {
    assert_eq!(a.hotkey, b.hotkey);
    assert_eq!(a.coldkey, b.coldkey);
    assert_eq!(a.uid, b.uid);
    assert_eq!(a.active, b.active);
    assert_eq!(a.axon, b.axon);
    assert_eq!(a.stake.len(), b.stake.len());
    for (x, y) in a.stake.iter().zip(b.stake.iter()) {
        assert_eq!(x.account, y.account);
        assert_eq!(x.amount, y.amount);
    }
    assert_eq!(a.rank, b.rank);
    assert_eq!(a.emission, b.emission);
    assert_eq!(a.incentive, b.incentive);
    assert_eq!(a.consensus, b.consensus);
    assert_eq!(a.trust, b.trust);
    assert_eq!(a.validator_trust, b.validator_trust);
    assert_eq!(a.dividends, b.dividends);
    assert_eq!(a.pruning_score, b.pruning_score);
    assert_eq!(a.last_update, b.last_update);
    assert_eq!(a.validator_permit, b.validator_permit);
}

#[test]
fn neuron_record_round_trip() {
    let rec = sample_record(5);
    let mut bytes = Vec::new();
    encode_neuron(&rec, &mut bytes);
    let (decoded, next) = decode_neuron(&bytes, 0).unwrap();
    assert_eq!(next, bytes.len());
    assert_records_equal(&decoded, &rec);
}

#[test]
fn neurons_response_round_trip_ascending() {
    let list = vec![sample_record(1), sample_record(5), sample_record(9)];
    let bytes = encode_neurons(&list);
    let decoded = decode_neurons(&bytes).unwrap();
    assert_eq!(decoded.len(), 3);
    let uids: Vec<u16> = decoded.iter().map(|r| r.uid).collect();
    assert_eq!(uids, vec![1, 5, 9]);
    for (a, b) in decoded.iter().zip(list.iter()) {
        assert_records_equal(a, b);
    }
}

#[test]
fn neurons_response_rejects_unsorted_uids() {
    let list = vec![sample_record(5), sample_record(1)];
    let bytes = encode_neurons(&list);
    assert!(matches!(decode_neurons(&bytes), Err(DecodeError::UnsortedUids)));
}

#[test]
fn neurons_response_rejects_duplicate_uids() {
    let list = vec![sample_record(5), sample_record(5)];
    let bytes = encode_neurons(&list);
    assert!(matches!(decode_neurons(&bytes), Err(DecodeError::UnsortedUids)));
}

#[test]
fn neurons_response_rejects_trailing_data() {
    let list = vec![sample_record(1)];
    let mut bytes = encode_neurons(&list);
    bytes.push(0);
    assert!(matches!(decode_neurons(&bytes), Err(DecodeError::TrailingData)));
}

#[test]
fn delegate_record_round_trip() {
    let rec = DelegateRecord {
        delegate: vec![4u8; 32],
        take: 11_796,
        nominators: vec![
            StakeEntry { account: vec![5u8; 32], amount: 1_000_000 },
            StakeEntry { account: vec![6u8; 32], amount: 42 },
        ],
        owner: vec![8u8; 32],
        registrations: vec![1, 3, 77],
        validator_permits: vec![1, 3],
        return_per_1000: 12_345,
        total_daily_return: 999,
    };
    let mut bytes = Vec::new();
    encode_delegate(&rec, &mut bytes);
    let (decoded, next) = decode_delegate(&bytes, 0).unwrap();
    assert_eq!(next, bytes.len());
    assert_eq!(decoded.delegate, rec.delegate);
    assert_eq!(decoded.take, rec.take);
    assert_eq!(decoded.nominators.len(), rec.nominators.len());
    for (x, y) in decoded.nominators.iter().zip(rec.nominators.iter()) {
        assert_eq!(x.account, y.account);
        assert_eq!(x.amount, y.amount);
    }
    assert_eq!(decoded.owner, rec.owner);
    assert_eq!(decoded.registrations, rec.registrations);
    assert_eq!(decoded.validator_permits, rec.validator_permits);
    assert_eq!(decoded.return_per_1000, rec.return_per_1000);
    assert_eq!(decoded.total_daily_return, rec.total_daily_return);
}

#[test]
fn delegate_record_round_trip_empty_lists() {
    let rec = DelegateRecord {
        delegate: vec![4u8; 32],
        take: 0,
        nominators: Vec::new(),
        owner: vec![8u8; 32],
        registrations: Vec::new(),
        validator_permits: Vec::new(),
        return_per_1000: 0,
        total_daily_return: 0,
    };
    let mut bytes = Vec::new();
    encode_delegate(&rec, &mut bytes);
    let (decoded, next) = decode_delegate(&bytes, 0).unwrap();
    assert_eq!(next, bytes.len());
    assert_eq!(decoded.delegate, rec.delegate);
    assert!(decoded.nominators.is_empty());
    assert!(decoded.registrations.is_empty());
}

fn sample_delegate(tag: u8) -> DelegateRecord {
    DelegateRecord {
        delegate: vec![tag; 32],
        take: 100,
        nominators: vec![StakeEntry { account: vec![tag.wrapping_add(1); 32], amount: 7 }],
        owner: vec![tag.wrapping_add(2); 32],
        registrations: vec![1],
        validator_permits: vec![1],
        return_per_1000: 10,
        total_daily_return: 20,
    }
}

#[test]
fn delegates_listing_round_trip() {
    let mut bytes = Vec::new();
    encode_compact_u64(2, &mut bytes);
    encode_delegate(&sample_delegate(10), &mut bytes);
    encode_delegate(&sample_delegate(50), &mut bytes);
    let listing = decode_delegates(&bytes).unwrap();
    assert_eq!(listing.len(), 2);
    assert_eq!(listing[0].delegate, vec![10u8; 32]);
    assert_eq!(listing[1].delegate, vec![50u8; 32]);
}

#[test]
fn delegates_listing_rejects_trailing_data() {
    let mut bytes = Vec::new();
    encode_compact_u64(1, &mut bytes);
    encode_delegate(&sample_delegate(10), &mut bytes);
    bytes.push(9);
    assert!(matches!(decode_delegates(&bytes), Err(DecodeError::TrailingData)));
}

#[test]
fn zero_seed_keypair_is_deterministic() {
    let k1 = Keypair::from_seed(vec![0u8; 32]).unwrap();
    let k2 = Keypair::from_seed(vec![0u8; 32]).unwrap();
    assert_eq!(k1.account_bytes(), k2.account_bytes());
    assert_eq!(k1.account_bytes().len(), 32);
    let payload = vec![1u8, 2, 3];
    assert_eq!(k1.sign(&payload), k2.sign(&payload));
    assert_eq!(k1.sign(&payload).len(), 64);
}

#[test]
fn keypair_rejects_wrong_seed_length() {
    assert!(matches!(Keypair::from_seed(vec![0u8; 31]), Err(KeyError::InvalidSeedLength)));
    assert!(matches!(Keypair::from_seed(vec![0u8; 33]), Err(KeyError::InvalidSeedLength)));
}

#[test]
fn wallet_file_scenario() {
    let content = format!("{{\"secretSeed\":\"0x{}\"}}", "11".repeat(32));
    let seed = load_seed_from_json(&content).unwrap();
    assert_eq!(seed, vec![0x11u8; 32]);
}

#[test]
fn wallet_file_mixed_digits() {
    let content = "{\"secretSeed\":\"0x000102030405060708090a0b0c0d0e0fF0E0D0C0B0A090807060504030201000\"}";
    let seed = load_seed_from_json(content).unwrap();
    assert_eq!(seed.len(), 32);
    assert_eq!(&seed[..4], &[0x00, 0x01, 0x02, 0x03]);
    assert_eq!(seed[16], 0xF0);
}

#[test]
fn wallet_file_rejected() {
    assert_eq!(load_seed_from_json("not json"), Err(WalletError::InvalidWalletFile));
    assert_eq!(load_seed_from_json("{}"), Err(WalletError::InvalidWalletFile));
    assert_eq!(
        load_seed_from_json("{\"secretSeed\":\"0x1234\"}"),
        Err(WalletError::InvalidWalletFile)
    );
    assert_eq!(
        load_seed_from_json(&format!("{{\"secretSeed\":\"0x{}zz\"}}", "11".repeat(31))),
        Err(WalletError::InvalidWalletFile)
    );
    assert_eq!(decode_hex_seed("11"), Err(WalletError::InvalidWalletFile));
}

fn sample_config() -> SubnetConfig {
    SubnetConfig::new(100, String::from("ws://localhost:9944"), 1, String::from("default"), String::from("default"))
}

fn snapshot(block: u64, uids: &[u16]) -> ChainSnapshot {
    ChainSnapshot { block, neurons: uids.iter().map(|u| sample_record(*u)).collect() }
}

#[test]
fn lifecycle_stages() {
    let mut n = BaseNeuron::new(sample_config());
    assert_eq!(n.stage, Stage::Created);
    assert_eq!(n.start(), Err(NeuronError::WrongStage));
    let kp = Keypair::from_seed(vec![3u8; 32]).unwrap();
    n.init(kp).unwrap();
    assert_eq!(n.stage, Stage::Initialized);
    let kp2 = Keypair::from_seed(vec![3u8; 32]).unwrap();
    assert_eq!(n.init(kp2), Err(NeuronError::WrongStage));
    n.start().unwrap();
    assert_eq!(n.stage, Stage::Running);
    n.stop().unwrap();
    assert_eq!(n.stage, Stage::Stopped);
    assert_eq!(n.stop(), Err(NeuronError::WrongStage));
}

#[test]
fn sync_twice_is_idempotent() {
    let mut n = BaseNeuron::new(sample_config());
    let kp = Keypair::from_seed(vec![3u8; 32]).unwrap();
    n.init(kp).unwrap();
    n.start().unwrap();
    n.set_score(777);
    n.sync(snapshot(500, &[1, 4, 7]));
    let block_1 = n.block;
    let uids_1: Vec<u16> = n.neurons.iter().map(|r| r.uid).collect();
    let (step_1, score_1, stage_1) = (n.step, n.score, n.stage);
    n.sync(snapshot(500, &[1, 4, 7]));
    assert_eq!(n.block, block_1);
    assert_eq!(n.neurons.iter().map(|r| r.uid).collect::<Vec<u16>>(), uids_1);
    assert_eq!(n.step, step_1);
    assert_eq!(n.score, score_1);
    assert_eq!(n.stage, stage_1);
}

#[test]
fn score_and_step_are_cached_state() {
    let mut n = BaseNeuron::new(sample_config());
    assert_eq!(n.get_score(), 0);
    n.set_score(65535);
    assert_eq!(n.get_score(), 65535);
    assert_eq!(n.step, 0);
    n.advance_step();
    n.advance_step();
    assert_eq!(n.step, 2);
}
