use logchain::{generate_keypair, hex_val, parse_hex_bytes, to_hex, LogBatch};

fn sample_batch(prev: u8, logs: Vec<String>, timestamp: u64, agent_id: &str) -> LogBatch {
    LogBatch {
        prev_hash: vec![prev; 32],
        logs,
        timestamp,
        agent_id: agent_id.to_string(),
        seq: 1,
        signature: vec![0u8; 64],
        public_key: vec![0u8; 32],
    }
}

#[test]
fn sign_and_verify_round_trip() {
    let mut batch = sample_batch(1, vec!["line1".into(), "line2".into()], 1234, "agent-a");
    let signer = generate_keypair();
    batch.sign(&signer);
    assert!(batch.verify(), "signature must verify");
    assert_eq!(batch.signature.len(), 64);
    assert_eq!(batch.public_key.len(), 32);
}

#[test]
fn tamper_changes_hash_and_breaks_signature() {
    let mut batch = sample_batch(2, vec!["a".into()], 1, "agent-b");
    let signer = generate_keypair();
    batch.sign(&signer);
    assert!(batch.verify());

    // Tamper
    batch.logs.push("evil".into());
    assert!(!batch.verify(), "tampering should fail verification");
}

#[test]
fn digest_covers_fields_only() {
    let a = sample_batch(3, vec!["x".into(), "y".into()], 77, "agent-c");
    let mut b = sample_batch(3, vec!["x".into(), "y".into()], 77, "agent-c");
    // The signature fields are not covered by the digest.
    b.signature = vec![9u8; 64];
    b.public_key = vec![7u8; 32];
    assert_eq!(a.compute_hash(), b.compute_hash());
    assert_eq!(a.compute_hash().len(), 32);
}

#[test]
fn permuting_log_lines_changes_digest() {
    let a = sample_batch(0, vec!["line1".into(), "line2".into()], 5, "agent-d");
    let b = sample_batch(0, vec!["line2".into(), "line1".into()], 5, "agent-d");
    assert_ne!(a.compute_hash(), b.compute_hash());
}

#[test]
fn tampering_any_signed_field_breaks_verification() {
    let signer = generate_keypair();
    let base = {
        let mut b = sample_batch(4, vec!["log line".into()], 42, "agent-e");
        b.sign(&signer);
        b
    };
    assert!(base.verify());

    let mut t1 = clone_batch(&base);
    t1.prev_hash[0] ^= 1;
    assert!(!t1.verify());

    let mut t2 = clone_batch(&base);
    t2.timestamp += 1;
    assert!(!t2.verify());

    let mut t3 = clone_batch(&base);
    t3.agent_id.push('x');
    assert!(!t3.verify());

    let mut t4 = clone_batch(&base);
    t4.seq += 1;
    assert!(!t4.verify());

    let mut t5 = clone_batch(&base);
    t5.logs[0] = "log lin3".to_string();
    assert!(!t5.verify());
}

fn clone_batch(b: &LogBatch) -> LogBatch {
    LogBatch {
        prev_hash: b.prev_hash.clone(),
        logs: b.logs.clone(),
        timestamp: b.timestamp,
        agent_id: b.agent_id.clone(),
        seq: b.seq,
        signature: b.signature.clone(),
        public_key: b.public_key.clone(),
    }
}

#[test]
fn hex_round_trip_and_errors() {
    assert_eq!(to_hex(&vec![0x00, 0x01, 0xff]), "0001ff");
    assert_eq!(parse_hex_bytes("0001ff", 3).unwrap(), vec![0x00, 0x01, 0xff]);
    assert_eq!(parse_hex_bytes("AbCd", 2).unwrap(), vec![0xab, 0xcd]);
    assert!(parse_hex_bytes("0001ff", 2).is_err());
    assert!(parse_hex_bytes("zz", 1).is_err());
    assert_eq!(hex_val(b'7').unwrap(), 7);
    assert_eq!(hex_val(b'a').unwrap(), 10);
    assert_eq!(hex_val(b'F').unwrap(), 15);
    assert!(hex_val(b'g').is_err());
}

#[test]
fn generated_keys_are_distinct_identities() {
    let k1 = generate_keypair();
    let k2 = generate_keypair();
    assert_eq!(k1.len(), 32);
    let id1 = logchain::derive_agent_id(&k1);
    let id2 = logchain::derive_agent_id(&k2);
    assert_eq!(id1.len(), 64);
    assert_ne!(id1, id2);
}

#[test]
fn now_unix_is_not_negative() {
    assert!(logchain::now_unix() >= 0);
}

#[test]
fn digest_matches_the_canonical_encoding_exactly() {
    // SHA-256 over: prev_hash, timestamp and seq as 8-byte little-endian,
    // the agent identifier's UTF-8 bytes, then each line's bytes, with no
    // separators.  The expected value pins the wire format bit-exactly.
    let mut batch = sample_batch(1, vec!["line1".into(), "line2".into()], 1234, "agent-a");
    batch.seq = 5;
    assert_eq!(
        to_hex(&batch.compute_hash()),
        "bd2472e6e96b459b99aad9f70b759bc0c52040113cc5612d7a058e0e533b37f1"
    );
}
