use ed25519_dalek::Signer;
use logchain::{
    derive_agent_id, generate_keypair, handle_submit, to_hex, valid_auth, verify_chain,
    AuditOutcome, ListParams, LogBatch, QueryError, RateLimiter, RegisterOutcome, RotateOutcome,
    Store, SubmitOutcome,
};

fn make_batch(
    prev_hash: Vec<u8>,
    logs: Vec<String>,
    seq: u64,
    agent_id: &str,
    key: &Vec<u8>,
) -> LogBatch {
    let mut batch = LogBatch {
        prev_hash,
        logs,
        timestamp: 1_700_000_000,
        agent_id: agent_id.to_string(),
        seq,
        signature: vec![0u8; 64],
        public_key: vec![0u8; 32],
    };
    batch.sign(key);
    batch
}

fn five_lines() -> Vec<String> {
    vec!["a".into(), "b".into(), "c".into(), "d".into(), "e".into()]
}

#[test]
fn fresh_first_batch() {
    let mut store = Store::new();
    let key = generate_keypair();
    let agent = derive_agent_id(&key);
    let batch = make_batch(vec![0u8; 32], five_lines(), 1, &agent, &key);
    let h1 = batch.compute_hash();

    let outcome = store.submit(&batch, false, 100, "127.0.0.1:5000");
    assert!(matches!(outcome, SubmitOutcome::Created));
    assert_eq!(outcome.http_status(), 201);
    assert_eq!(outcome.message(), "batch stored");

    let cps = store.checkpoints();
    assert_eq!(cps.len(), 1);
    assert_eq!(cps[0].agent_id, agent);
    assert_eq!(cps[0].last_seq, 1);
    assert_eq!(cps[0].count, 1);
    assert_eq!(cps[0].last_hash, h1);
}

#[test]
fn chain_continuation() {
    let mut store = Store::new();
    let key = generate_keypair();
    let agent = derive_agent_id(&key);
    let b1 = make_batch(vec![0u8; 32], five_lines(), 1, &agent, &key);
    let h1 = b1.compute_hash();
    assert!(matches!(store.submit(&b1, false, 100, "src"), SubmitOutcome::Created));

    let b2 = make_batch(h1.clone(), vec!["f".into()], 2, &agent, &key);
    let h2 = b2.compute_hash();
    assert!(matches!(store.submit(&b2, false, 101, "src"), SubmitOutcome::Created));

    let cps = store.checkpoints();
    assert_eq!(cps.len(), 1);
    assert_eq!(cps[0].last_seq, 2);
    assert_eq!(cps[0].count, 2);
    assert_eq!(cps[0].last_hash, h2);
}

#[test]
fn seq_gap_rejection() {
    let mut store = Store::new();
    let key = generate_keypair();
    let agent = derive_agent_id(&key);
    let b1 = make_batch(vec![0u8; 32], five_lines(), 1, &agent, &key);
    let h1 = b1.compute_hash();
    store.submit(&b1, false, 100, "src");
    let b2 = make_batch(h1.clone(), vec!["f".into()], 2, &agent, &key);
    let h2 = b2.compute_hash();
    store.submit(&b2, false, 101, "src");

    let gap = make_batch(h2.clone(), vec!["g".into()], 4, &agent, &key);
    let outcome = store.submit(&gap, false, 102, "src");
    assert!(matches!(outcome, SubmitOutcome::SeqMismatch(3, 4)));
    assert_eq!(outcome.http_status(), 400);
    assert_eq!(outcome.message(), "seq must increment: expected 3, got 4");
    assert_eq!(store.checkpoints()[0].count, 2);
}

#[test]
fn prev_hash_mismatch_rejection() {
    let mut store = Store::new();
    let key = generate_keypair();
    let agent = derive_agent_id(&key);
    let b1 = make_batch(vec![0u8; 32], five_lines(), 1, &agent, &key);
    let h1 = b1.compute_hash();
    store.submit(&b1, false, 100, "src");
    let b2 = make_batch(h1.clone(), vec!["f".into()], 2, &agent, &key);
    store.submit(&b2, false, 101, "src");

    let bad = make_batch(vec![0u8; 32], vec!["g".into()], 3, &agent, &key);
    let outcome = store.submit(&bad, false, 102, "src");
    assert!(matches!(outcome, SubmitOutcome::PrevHashMismatch));
    assert_eq!(outcome.http_status(), 400);
    assert_eq!(store.checkpoints()[0].count, 2);
}

#[test]
fn duplicate_content_conflict() {
    let mut store = Store::new();
    let key = generate_keypair();
    let agent = derive_agent_id(&key);
    let b1 = make_batch(vec![0u8; 32], five_lines(), 1, &agent, &key);
    let h1 = b1.compute_hash();
    store.submit(&b1, false, 100, "src");
    let b2 = make_batch(h1.clone(), vec!["f".into()], 2, &agent, &key);
    store.submit(&b2, false, 101, "src");

    let outcome = store.submit(&b2, false, 102, "src");
    assert!(matches!(outcome, SubmitOutcome::Duplicate));
    assert_eq!(outcome.http_status(), 409);
    assert_eq!(store.checkpoints()[0].count, 2);
    assert_eq!(store.checkpoints()[0].last_seq, 2);
}

fn dalek_sign(key: &Vec<u8>, message: &[u8]) -> Vec<u8> {
    let mut key_bytes = [0u8; 32];
    key_bytes.copy_from_slice(key);
    let signer = ed25519_dalek::SigningKey::from_bytes(&key_bytes);
    signer.sign(message).to_bytes().to_vec()
}

#[test]
fn rotation_keeps_old_rows_auditable() {
    let mut store = Store::new();
    let k1 = generate_keypair();
    let k2 = generate_keypair();
    let k1_hex = derive_agent_id(&k1);
    let k2_hex = derive_agent_id(&k2);
    let agent = "agent-rotation";

    assert!(matches!(
        store.register(agent, &k1_hex, 50),
        RegisterOutcome::Registered
    ));

    let b1 = make_batch(vec![0u8; 32], five_lines(), 1, agent, &k1);
    let h1 = b1.compute_hash();
    assert!(matches!(store.submit(&b1, true, 100, "src"), SubmitOutcome::Created));

    let message = format!("rotate:{}:{}", agent, k2_hex);
    let sig_hex = to_hex(&dalek_sign(&k1, message.as_bytes()));
    let outcome = store.rotate(agent, &k2_hex, &sig_hex);
    assert!(matches!(outcome, RotateOutcome::Rotated));
    assert_eq!(outcome.http_status(), 200);

    // A batch under the old key is now refused ...
    let stale = make_batch(h1.clone(), vec!["f".into()], 2, agent, &k1);
    assert!(matches!(store.submit(&stale, true, 101, "src"), SubmitOutcome::KeyMismatch));

    // ... and one under the new key is accepted.
    let b2 = make_batch(h1.clone(), vec!["g".into()], 2, agent, &k2);
    assert!(matches!(store.submit(&b2, true, 102, "src"), SubmitOutcome::Created));

    // The auditor still accepts the first batch: its row carries the old key.
    let listing = store.list(&all_params()).unwrap();
    assert_eq!(listing.len(), 2);
    assert!(matches!(verify_chain(&listing), AuditOutcome::Valid));
}

fn all_params() -> ListParams {
    ListParams {
        agent_id: None,
        since_seq: None,
        limit: None,
        offset: None,
        since_timestamp: None,
        until_timestamp: None,
        log_substring: None,
    }
}

#[test]
fn invalid_signature_rejected() {
    let mut store = Store::new();
    let batch = LogBatch {
        prev_hash: vec![0u8; 32],
        logs: vec!["a".into()],
        timestamp: 1,
        agent_id: "nobody".into(),
        seq: 1,
        signature: vec![0u8; 64],
        public_key: vec![0u8; 32],
    };
    let outcome = store.submit(&batch, false, 100, "src");
    assert!(matches!(outcome, SubmitOutcome::InvalidSignature));
    assert_eq!(outcome.http_status(), 400);
    assert_eq!(outcome.message(), "invalid signature");
    assert_eq!(store.checkpoints().len(), 0);
}

#[test]
fn registration_required_rejects_unknown_agent() {
    let mut store = Store::new();
    let key = generate_keypair();
    let agent = derive_agent_id(&key);
    let batch = make_batch(vec![0u8; 32], five_lines(), 1, &agent, &key);
    let outcome = store.submit(&batch, true, 100, "src");
    assert!(matches!(outcome, SubmitOutcome::NotRegistered));
    assert_eq!(outcome.http_status(), 400);
    assert_eq!(store.checkpoints().len(), 0);
}

#[test]
fn key_mismatch_rejected() {
    let mut store = Store::new();
    let k1 = generate_keypair();
    let k2 = generate_keypair();
    let agent = "agent-keys";
    assert!(matches!(
        store.register(agent, &derive_agent_id(&k1), 50),
        RegisterOutcome::Registered
    ));
    let batch = make_batch(vec![0u8; 32], five_lines(), 1, agent, &k2);
    let outcome = store.submit(&batch, false, 100, "src");
    assert!(matches!(outcome, SubmitOutcome::KeyMismatch));
    assert_eq!(outcome.http_status(), 400);
}

#[test]
fn first_batch_constraints() {
    let mut store = Store::new();
    let key = generate_keypair();
    let agent = derive_agent_id(&key);

    let wrong_seq = make_batch(vec![0u8; 32], five_lines(), 2, &agent, &key);
    assert!(matches!(
        store.submit(&wrong_seq, false, 100, "src"),
        SubmitOutcome::FirstSeqNotOne
    ));

    let wrong_prev = make_batch(vec![1u8; 32], five_lines(), 1, &agent, &key);
    assert!(matches!(
        store.submit(&wrong_prev, false, 100, "src"),
        SubmitOutcome::FirstPrevHashNotZero
    ));
    assert_eq!(store.checkpoints().len(), 0);
}

#[test]
fn register_idempotent_and_conflicting() {
    let mut store = Store::new();
    let k1 = generate_keypair();
    let k2 = generate_keypair();
    let agent = "agent-reg";
    let first = store.register(agent, &derive_agent_id(&k1), 50);
    assert!(matches!(first, RegisterOutcome::Registered));
    assert_eq!(first.http_status(), 201);

    let again = store.register(agent, &derive_agent_id(&k1), 51);
    assert!(matches!(again, RegisterOutcome::AlreadyRegistered));
    assert_eq!(again.http_status(), 200);

    let conflict = store.register(agent, &derive_agent_id(&k2), 52);
    assert!(matches!(conflict, RegisterOutcome::Conflict));
    assert_eq!(conflict.http_status(), 409);

    let bad = store.register("other", "zz", 53);
    assert!(matches!(bad, RegisterOutcome::InvalidKey));
    assert_eq!(bad.http_status(), 400);
}

#[test]
fn rotate_error_paths() {
    let mut store = Store::new();
    let k1 = generate_keypair();
    let k2 = generate_keypair();
    let k2_hex = derive_agent_id(&k2);
    let agent = "agent-rot-err";

    let missing = store.rotate(agent, &k2_hex, "00");
    assert!(matches!(missing, RotateOutcome::NotFound));
    assert_eq!(missing.http_status(), 404);

    store.register(agent, &derive_agent_id(&k1), 50);

    let bad_key = store.rotate(agent, "nothex", "00");
    assert!(matches!(bad_key, RotateOutcome::InvalidNewKey));

    let bad_sig_hex = store.rotate(agent, &k2_hex, "not-a-signature");
    assert!(matches!(bad_sig_hex, RotateOutcome::InvalidSignature));

    // Signed by the wrong key: rejected as unauthorized.
    let message = format!("rotate:{}:{}", agent, k2_hex);
    let wrong_signer = to_hex(&dalek_sign(&k2, message.as_bytes()));
    let unauthorized = store.rotate(agent, &k2_hex, &wrong_signer);
    assert!(matches!(unauthorized, RotateOutcome::Unauthorized));
    assert_eq!(unauthorized.http_status(), 401);

    // Signed over different bytes: also unauthorized.
    let other = to_hex(&dalek_sign(&k1, b"rotate:someone-else:aa"));
    assert!(matches!(store.rotate(agent, &k2_hex, &other), RotateOutcome::Unauthorized));
}

#[test]
fn rate_limiter_fixed_window() {
    let mut limiter = RateLimiter::new(2, 60_000);
    assert!(limiter.allow("1.2.3.4", 1_000));
    assert!(limiter.allow("1.2.3.4", 2_000));
    assert!(!limiter.allow("1.2.3.4", 3_000));
    // Another key has its own window.
    assert!(limiter.allow("5.6.7.8", 3_000));
    // After the window passes, the count resets.
    assert!(limiter.allow("1.2.3.4", 63_000));
}

#[test]
fn handle_submit_rate_limit_and_auth() {
    let key = generate_keypair();
    let agent = derive_agent_id(&key);
    let batch = make_batch(vec![0u8; 32], five_lines(), 1, &agent, &key);

    let mut store = Store::new();
    let mut strict = RateLimiter::new(0, 60_000);
    let limited = handle_submit(
        &mut store, &mut strict, None, None, false, &batch, 100, 1_000, "9.9.9.9:1",
    );
    assert!(matches!(limited, SubmitOutcome::RateLimited));
    assert_eq!(limited.http_status(), 429);

    let mut limiter = RateLimiter::new(100, 60_000);
    let token = "swordfish".to_string();
    let bad_header = "Bearer wrong".to_string();
    let denied = handle_submit(
        &mut store,
        &mut limiter,
        Some(&token),
        Some(&bad_header),
        false,
        &batch,
        100,
        1_000,
        "9.9.9.9:1",
    );
    assert!(matches!(denied, SubmitOutcome::Unauthorized));
    assert_eq!(denied.http_status(), 401);
    assert_eq!(store.checkpoints().len(), 0);

    let good_header = format!("Bearer {}", token);
    let accepted = handle_submit(
        &mut store,
        &mut limiter,
        Some(&token),
        Some(&good_header),
        false,
        &batch,
        100,
        1_001,
        "9.9.9.9:1",
    );
    assert!(matches!(accepted, SubmitOutcome::Created));
}

#[test]
fn valid_auth_requires_exact_bearer_token() {
    let header = "Bearer open-sesame".to_string();
    assert!(valid_auth(Some(&header), "open-sesame"));
    assert!(!valid_auth(Some(&header), "open"));
    let lower = "bearer open-sesame".to_string();
    assert!(!valid_auth(Some(&lower), "open-sesame"));
    let missing_space = "Beareropen-sesame".to_string();
    assert!(!valid_auth(Some(&missing_space), "open-sesame"));
    assert!(!valid_auth(None, "open-sesame"));
}

fn seeded_store() -> (Store, String, String) {
    // Two agents with interleaved submissions.
    let mut store = Store::new();
    let ka = generate_keypair();
    let kb = generate_keypair();
    let a = derive_agent_id(&ka);
    let b = derive_agent_id(&kb);
    let a1 = make_batch(vec![0u8; 32], vec!["alpha one".into()], 1, &a, &ka);
    let b1 = make_batch(vec![0u8; 32], vec!["beta one".into()], 1, &b, &kb);
    let a2 = make_batch(a1.compute_hash(), vec!["alpha two".into()], 2, &a, &ka);
    let b2 = make_batch(b1.compute_hash(), vec!["beta two".into()], 2, &b, &kb);
    assert!(matches!(store.submit(&a1, false, 100, "s"), SubmitOutcome::Created));
    assert!(matches!(store.submit(&b1, false, 101, "s"), SubmitOutcome::Created));
    assert!(matches!(store.submit(&b2, false, 102, "s"), SubmitOutcome::Created));
    assert!(matches!(store.submit(&a2, false, 103, "s"), SubmitOutcome::Created));
    (store, a, b)
}

#[test]
fn list_orders_by_agent_then_seq() {
    let (store, a, b) = seeded_store();
    let listing = store.list(&all_params()).unwrap();
    assert_eq!(listing.len(), 4);
    for pair in listing.windows(2) {
        let x = &pair[0].batch;
        let y = &pair[1].batch;
        assert!(x.agent_id < y.agent_id || (x.agent_id == y.agent_id && x.seq < y.seq));
    }
    let (first, second) = if a < b { (a, b) } else { (b, a) };
    assert_eq!(listing[0].batch.agent_id, first);
    assert_eq!(listing[1].batch.agent_id, first);
    assert_eq!(listing[2].batch.agent_id, second);
    assert_eq!(listing[3].batch.agent_id, second);
}

#[test]
fn list_filters_and_paging() {
    let (store, a, _b) = seeded_store();

    let mut by_agent = all_params();
    by_agent.agent_id = Some(a.clone());
    let rows = store.list(&by_agent).unwrap();
    assert_eq!(rows.len(), 2);
    assert!(rows.iter().all(|r| r.batch.agent_id == a));

    let mut since = all_params();
    since.since_seq = Some(2);
    assert_eq!(store.list(&since).unwrap().len(), 2);

    let mut substring = all_params();
    substring.log_substring = Some("beta".to_string());
    let beta_rows = store.list(&substring).unwrap();
    assert_eq!(beta_rows.len(), 2);

    let mut paged = all_params();
    paged.offset = Some(1);
    paged.limit = Some(2);
    assert_eq!(store.list(&paged).unwrap().len(), 2);

    let mut far = all_params();
    far.offset = Some(10);
    assert_eq!(store.list(&far).unwrap().len(), 0);

    let mut timed = all_params();
    timed.until_timestamp = Some(0);
    assert_eq!(store.list(&timed).unwrap().len(), 0);
}

#[test]
fn export_is_incremental_by_id() {
    let (store, _a, _b) = seeded_store();
    let everything = store.export(&logchain::ExportParams { since_id: None, limit: None }).unwrap();
    assert_eq!(everything.len(), 4);
    for pair in everything.windows(2) {
        assert!(pair[0].id < pair[1].id);
    }
    let after = store
        .export(&logchain::ExportParams { since_id: Some(everything[1].id), limit: Some(1) })
        .unwrap();
    assert_eq!(after.len(), 1);
    assert_eq!(after[0].id, everything[2].id);
}

#[test]
fn get_by_id_found_and_missing() {
    let (store, _a, _b) = seeded_store();
    let listing = store.list(&all_params()).unwrap();
    let id = listing[0].id;
    let fetched = store.get_by_id(id).unwrap();
    assert_eq!(fetched.id, id);
    assert_eq!(fetched.batch.agent_id, listing[0].batch.agent_id);
    assert!(matches!(store.get_by_id(9999), Err(QueryError::NotFound)));
}

#[test]
fn stored_logs_round_trip_exactly() {
    let mut store = Store::new();
    let key = generate_keypair();
    let agent = derive_agent_id(&key);
    let lines: Vec<String> = vec![
        "plain".into(),
        "with \"quotes\" and, commas".into(),
        "unicode: żółć λ".into(),
        "".into(),
        "tab\tand\\backslash".into(),
    ];
    let batch = make_batch(vec![0u8; 32], lines.clone(), 1, &agent, &key);
    assert!(matches!(store.submit(&batch, false, 100, "s"), SubmitOutcome::Created));
    let listing = store.list(&all_params()).unwrap();
    assert_eq!(listing.len(), 1);
    assert_eq!(listing[0].batch.logs, lines);
    assert_eq!(listing[0].hash, batch.compute_hash());
}

#[test]
fn corrupt_stored_row_is_reported() {
    // A row whose compressed logs are not gzip data cannot be served back.
    let row = logchain::StoredRow {
        id: 1,
        agent_id: "x".into(),
        seq: 1,
        prev_hash: vec![0u8; 32],
        hash: vec![0u8; 32],
        logs: vec!["a".into()],
        logs_json: "[\"a\"]".into(),
        logs_compressed: vec![1, 2, 3],
        timestamp: 1,
        signature: vec![0u8; 64],
        public_key: vec![0u8; 32],
        received_at: 1,
        source: "s".into(),
    };
    assert!(matches!(logchain::row_to_query_batch(&row), Err(QueryError::Corrupt)));
}

#[test]
fn corrupt_stored_key_is_reported_on_rotation() {
    // Some 32-byte strings do not decode to a public key; rotating an agent
    // whose stored key was damaged out-of-band reports the corruption.
    let k2_hex = derive_agent_id(&generate_keypair());
    let mut seen_invalid = false;
    for b in 0u8..=255 {
        let mut store = Store::new();
        store.agents.push(logchain::AgentEntry {
            agent_id: "damaged".into(),
            public_key: vec![b; 32],
            created_at: 1,
        });
        if matches!(store.rotate("damaged", &k2_hex, "00"), RotateOutcome::StoredKeyInvalid) {
            seen_invalid = true;
            break;
        }
    }
    assert!(seen_invalid, "no damaged key pattern was rejected");
}
