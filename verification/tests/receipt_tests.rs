use alloy_rlp::Encodable;
use eth_receipt::receipt::{derive_bloom, Log, Receipt, OPTIMISM_DEPOSIT_NONCE_VERSION};
use eth_receipt::types::{Address, B256, U256};

fn encode_to_vec(r: &Receipt) -> Vec<u8> {
    let mut out = Vec::new();
    r.encode(&mut out);
    out
}

/// The exact bytes of the example legacy receipt: success, 21000 gas, no
/// logs, type 0: a 4-element list with no type prefix.
fn expected_empty_legacy() -> Vec<u8> {
    let mut expected = vec![0xf9, 0x01, 0x08];
    expected.push(0x01); // success
    expected.extend(vec![0x82, 0x52, 0x08]); // 21000
    expected.extend(vec![0xb9, 0x01, 0x00]); // bloom header
    expected.extend(vec![0u8; 256]); // all-zero bloom
    expected.push(0xc0); // empty log list
    expected
}

#[test]
fn empty_legacy_receipt_encoding() {
    let r = Receipt::new(0, true, U256::from_u64(21000), vec![]);
    assert_eq!(r.payload.logs_bloom.bytes, vec![0u8; 256]);
    let out = encode_to_vec(&r);
    assert_eq!(out, expected_empty_legacy());
    assert_eq!(r.length(), out.len());
}

#[test]
fn typed_receipt_prefix() {
    let r = Receipt::new(2, true, U256::from_u64(21000), vec![]);
    let out = encode_to_vec(&r);
    assert_eq!(out[0], 0x02);
    assert_eq!(out[1..].to_vec(), expected_empty_legacy());
    assert_eq!(r.length(), out.len());
}

#[test]
fn deposit_nonce_extension() {
    let r = Receipt::new(126, true, U256::from_u64(21000), vec![]);
    assert_eq!(r.payload.deposit_nonce, None);
    assert_eq!(r.payload.deposit_nonce_version, None);
    let r = r.with_deposit_nonce(7);
    assert_eq!(r.payload.deposit_nonce, Some(7));
    assert_eq!(r.payload.deposit_nonce_version, Some(1));
    assert_eq!(OPTIMISM_DEPOSIT_NONCE_VERSION, 1);

    // The encoded list gains exactly the two extension fields.
    let out = encode_to_vec(&r);
    let mut expected = vec![126, 0xf9, 0x01, 0x0a];
    expected.push(0x01);
    expected.extend(vec![0x82, 0x52, 0x08]);
    expected.extend(vec![0xb9, 0x01, 0x00]);
    expected.extend(vec![0u8; 256]);
    expected.push(0xc0);
    expected.push(0x07); // deposit nonce
    expected.push(0x01); // deposit nonce version
    assert_eq!(out, expected);
    assert_eq!(r.length(), out.len());
}

fn sample_log(addr_byte: u8, topic_bytes: &[u8], data: Vec<u8>) -> Log {
    let topics = topic_bytes
        .iter()
        .map(|b| B256::new(vec![*b; 32]))
        .collect();
    Log {
        address: Address::new(vec![addr_byte; 20]),
        topics,
        data,
    }
}

#[test]
fn length_matches_encoding() {
    let logs = vec![
        sample_log(0x11, &[0x22, 0x33], vec![0xaa, 0xbb, 0xcc]),
        sample_log(0x44, &[], vec![]),
        sample_log(0x55, &[0x66], vec![0u8; 80]),
    ];
    let candidates = vec![
        Receipt::new(0, true, U256::from_u64(21000), vec![]),
        Receipt::new(1, false, U256::zero(), logs.clone()),
        Receipt::new(2, true, U256::from_u64(u64::MAX), logs.clone()),
        Receipt::new(0, false, U256::from_u64(123_456), logs).with_deposit_nonce(42),
    ];
    for r in candidates {
        let out = encode_to_vec(&r);
        assert_eq!(r.length(), out.len());
        // Idempotence: a second encoding of the same value is byte-identical.
        assert_eq!(encode_to_vec(&r), out);
    }
}

#[test]
fn bloom_order_independent_and_ignores_data() {
    let a = sample_log(0x11, &[0x22], vec![1, 2, 3]);
    let b = sample_log(0x44, &[0x55, 0x66], vec![]);
    let ab = derive_bloom(&vec![a.clone(), b.clone()]);
    let ba = derive_bloom(&vec![b.clone(), a.clone()]);
    assert_eq!(ab.bytes, ba.bytes);

    // Changing only the data leaves the filter unchanged.
    let a2 = sample_log(0x11, &[0x22], vec![9, 9, 9, 9]);
    let ab2 = derive_bloom(&vec![a2, b]);
    assert_eq!(ab.bytes, ab2.bytes);

    // A different topic changes it.
    let a3 = sample_log(0x11, &[0x23], vec![1, 2, 3]);
    let ab3 = derive_bloom(&vec![a3, a.clone()]);
    assert_ne!(ab.bytes, ab3.bytes);

    // A repeated log adds nothing: the filter depends on the set alone.
    let once = derive_bloom(&vec![a.clone()]);
    let twice = derive_bloom(&vec![a.clone(), a]);
    assert_eq!(once.bytes, twice.bytes);
}

#[test]
fn bloom_matches_reference() {
    let log = sample_log(0x11, &[0x22, 0x33], vec![0xaa]);
    let mine = derive_bloom(&vec![log]);

    let mut reference = alloy_primitives::Bloom::default();
    let address = alloy_primitives::Address::from([0x11u8; 20]);
    let topics = [
        alloy_primitives::B256::from([0x22u8; 32]),
        alloy_primitives::B256::from([0x33u8; 32]),
    ];
    reference.accrue_raw_log(address, &topics);
    assert_eq!(mine.bytes.as_slice(), reference.as_slice());
    assert_ne!(mine.bytes, vec![0u8; 256]);
}

/// Reference encoding of one log with alloy-rlp: the list
/// `[address, topics, data]`.
fn reference_log_encoding(log: &Log) -> Vec<u8> {
    let address = alloy_primitives::Address::from_slice(&log.address.bytes);
    let topics: Vec<alloy_primitives::B256> = log
        .topics
        .iter()
        .map(|t| alloy_primitives::B256::from_slice(&t.bytes))
        .collect();
    let data: &[u8] = &log.data;
    let payload_length = address.length() + topics.length() + data.length();
    let mut out = Vec::new();
    alloy_rlp::Header { list: true, payload_length }.encode(&mut out);
    address.encode(&mut out);
    topics.encode(&mut out);
    data.encode(&mut out);
    out
}

#[test]
fn encoding_matches_reference() {
    let logs = vec![
        sample_log(0x11, &[0x22, 0x33], vec![0xaa, 0xbb, 0xcc]),
        sample_log(0x44, &[], vec![]),
    ];
    let r = Receipt::new(0, false, U256::from_u64(123_456), logs.clone());

    let success = false;
    let gas = alloy_primitives::U256::from(123_456u64);
    let bloom = alloy_primitives::Bloom::from_slice(&r.payload.logs_bloom.bytes);
    let encoded_logs: Vec<Vec<u8>> = logs.iter().map(reference_log_encoding).collect();
    let logs_payload: usize = encoded_logs.iter().map(|e| e.len()).sum();

    let payload_length = success.length() + gas.length() + bloom.length()
        + alloy_rlp::length_of_length(logs_payload) + logs_payload;
    let mut expected = Vec::new();
    alloy_rlp::Header { list: true, payload_length }.encode(&mut expected);
    success.encode(&mut expected);
    gas.encode(&mut expected);
    bloom.encode(&mut expected);
    alloy_rlp::Header { list: true, payload_length: logs_payload }.encode(&mut expected);
    for e in &encoded_logs {
        expected.extend(e);
    }

    assert_eq!(encode_to_vec(&r), expected);
    assert_eq!(r.length(), expected.len());
}

#[test]
fn uint_encoding_boundaries() {
    for v in [0u64, 1, 0x7f, 0x80, 0xff, 0x100, 21000, u64::MAX] {
        let r = Receipt::new(0, true, U256::from_u64(v), vec![]);
        let out = encode_to_vec(&r);
        // The gas field sits right after the 3-byte list header and the
        // 1-byte success flag; compare it with the reference encoding.
        let mut reference = Vec::new();
        alloy_primitives::U256::from(v).encode(&mut reference);
        assert_eq!(out[4..4 + reference.len()].to_vec(), reference);
    }
}

#[test]
fn u256_minimal_bytes() {
    assert_eq!(U256::zero().bytes, Vec::<u8>::new());
    assert_eq!(U256::from_u64(0).bytes, Vec::<u8>::new());
    assert_eq!(U256::from_u64(0x5208).bytes, vec![0x52, 0x08]);
    let padded = vec![0, 0, 0, 1, 0];
    assert_eq!(U256::from_be_bytes(&padded).bytes, vec![1, 0]);
    let full = vec![0xffu8; 32];
    assert_eq!(U256::from_be_bytes(&full).bytes, full);
}

#[test]
fn default_values_are_zero() {
    let log = Log::default();
    assert_eq!(log.address.bytes, vec![0u8; 20]);
    assert!(log.topics.is_empty());
    assert!(log.data.is_empty());

    let r = Receipt::default();
    assert_eq!(r.tx_type, 0);
    assert!(!r.payload.success);
    assert_eq!(r.payload.cumulative_gas_used.bytes, Vec::<u8>::new());
    assert_eq!(r.payload.logs_bloom.bytes, vec![0u8; 256]);
    assert!(r.payload.logs.is_empty());
    assert_eq!(r.payload.deposit_nonce, None);
    assert_eq!(r.payload.deposit_nonce_version, None);
}
