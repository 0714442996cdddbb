use logchain::{
    derive_agent_id, generate_keypair, verify_chain, AuditFailure, AuditOutcome, LogBatch,
    QueryBatch,
};

fn signed_batch(prev_hash: Vec<u8>, logs: Vec<String>, seq: u64, agent: &str, key: &Vec<u8>) -> LogBatch {
    let mut batch = LogBatch {
        prev_hash,
        logs,
        timestamp: 10,
        agent_id: agent.to_string(),
        seq,
        signature: vec![0u8; 64],
        public_key: vec![0u8; 32],
    };
    batch.sign(key);
    batch
}

fn as_row(id: i64, batch: LogBatch) -> QueryBatch {
    let hash = batch.compute_hash();
    QueryBatch { id, batch, hash }
}

fn healthy_chain(agent: &str, key: &Vec<u8>, first_id: i64) -> Vec<QueryBatch> {
    let b1 = signed_batch(vec![0u8; 32], vec!["one".into()], 1, agent, key);
    let h1 = b1.compute_hash();
    let b2 = signed_batch(h1, vec!["two".into()], 2, agent, key);
    let h2 = b2.compute_hash();
    let b3 = signed_batch(h2, vec!["three".into()], 3, agent, key);
    vec![as_row(first_id, b1), as_row(first_id + 1, b2), as_row(first_id + 2, b3)]
}

#[test]
fn audit_accepts_valid_chains() {
    let ka = generate_keypair();
    let kb = generate_keypair();
    let a = derive_agent_id(&ka);
    let b = derive_agent_id(&kb);
    let mut listing = healthy_chain(&a, &ka, 1);
    listing.extend(healthy_chain(&b, &kb, 4));
    // Interleave to show grouping does not depend on input order.
    listing.swap(1, 4);
    assert!(matches!(verify_chain(&listing), AuditOutcome::Valid));
}

#[test]
fn audit_accepts_empty_listing() {
    assert!(matches!(verify_chain(&Vec::new()), AuditOutcome::Valid));
}

#[test]
fn audit_rejects_tampered_content() {
    let key = generate_keypair();
    let agent = derive_agent_id(&key);
    let mut listing = healthy_chain(&agent, &key, 1);
    listing[1].batch.logs[0] = "evil".into();
    match verify_chain(&listing) {
        AuditOutcome::Invalid(id, who, failure) => {
            assert_eq!(id, 2);
            assert_eq!(who, agent);
            assert!(matches!(failure, AuditFailure::InvalidSignature));
        },
        AuditOutcome::Valid => panic!("tampered listing must not audit clean"),
    }
}

#[test]
fn audit_rejects_sequence_gap() {
    let key = generate_keypair();
    let agent = derive_agent_id(&key);
    let mut listing = healthy_chain(&agent, &key, 1);
    listing.remove(1);
    match verify_chain(&listing) {
        AuditOutcome::Invalid(id, _, failure) => {
            assert_eq!(id, 3);
            assert!(matches!(failure, AuditFailure::SeqMismatch(2, 3)));
        },
        AuditOutcome::Valid => panic!("gapped listing must not audit clean"),
    }
}

#[test]
fn audit_rejects_broken_linkage() {
    let key = generate_keypair();
    let agent = derive_agent_id(&key);
    let b1 = signed_batch(vec![0u8; 32], vec!["one".into()], 1, &agent, &key);
    // Properly signed, but linking to the wrong predecessor hash.
    let b2 = signed_batch(vec![9u8; 32], vec!["two".into()], 2, &agent, &key);
    let listing = vec![as_row(1, b1), as_row(2, b2)];
    match verify_chain(&listing) {
        AuditOutcome::Invalid(id, _, failure) => {
            assert_eq!(id, 2);
            assert!(matches!(failure, AuditFailure::PrevHashMismatch));
        },
        AuditOutcome::Valid => panic!("broken linkage must not audit clean"),
    }
}

#[test]
fn audit_rejects_wrong_stored_hash() {
    let key = generate_keypair();
    let agent = derive_agent_id(&key);
    let mut listing = healthy_chain(&agent, &key, 1);
    listing[2].hash = vec![0u8; 32];
    match verify_chain(&listing) {
        AuditOutcome::Invalid(id, _, failure) => {
            assert_eq!(id, 3);
            assert!(matches!(failure, AuditFailure::HashMismatch));
        },
        AuditOutcome::Valid => panic!("wrong stored hash must not audit clean"),
    }
}

#[test]
fn audit_rejects_nonzero_first_prev_hash() {
    let key = generate_keypair();
    let agent = derive_agent_id(&key);
    let first = signed_batch(vec![5u8; 32], vec!["one".into()], 1, &agent, &key);
    let listing = vec![as_row(1, first)];
    match verify_chain(&listing) {
        AuditOutcome::Invalid(id, _, failure) => {
            assert_eq!(id, 1);
            assert!(matches!(failure, AuditFailure::PrevHashMismatch));
        },
        AuditOutcome::Valid => panic!("nonzero first prev_hash must not audit clean"),
    }
}
