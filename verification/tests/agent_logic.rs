use logchain::{
    build_signed_batch, derive_agent_id, find_checkpoint, generate_keypair,
    parse_prev_hash_contents, parse_seq_contents, resolve_signing_key, retry_decision, to_hex,
    AgentArgs, AgentCheckpoint, AgentConfig, AgentEnv, ChainState, CliArgs, RetryDecision,
};

fn strings(args: &[&str]) -> Vec<String> {
    args.iter().map(|s| s.to_string()).collect()
}

fn empty_env() -> AgentEnv {
    AgentEnv {
        home: None,
        log_path: None,
        server_url: None,
        state_dir: None,
        max_retries: None,
        retry_base_ms: None,
    }
}

#[test]
fn agent_args_parse_flags() {
    let args = AgentArgs::parse(&strings(&[
        "--log-path",
        "/tmp/x.log",
        "ignored",
        "--server-url",
        "http://h:1",
        "--state-dir",
        "/tmp/state",
        "--max-retries",
        "7",
        "--retry-base-ms",
        "250",
    ]));
    assert_eq!(args.log_path.as_deref(), Some("/tmp/x.log"));
    assert_eq!(args.server_url.as_deref(), Some("http://h:1"));
    assert_eq!(args.state_dir.as_deref(), Some("/tmp/state"));
    assert_eq!(args.max_retries, Some(7));
    assert_eq!(args.retry_base_ms, Some(250));
}

#[test]
fn agent_args_later_occurrence_wins() {
    let args = AgentArgs::parse(&strings(&["--max-retries", "7", "--max-retries", "9"]));
    assert_eq!(args.max_retries, Some(9));
    // An unparseable later value leaves the flag unset, as assignment does.
    let args = AgentArgs::parse(&strings(&["--max-retries", "7", "--max-retries", "x"]));
    assert_eq!(args.max_retries, None);
}

#[test]
fn agent_args_flag_at_end_takes_no_value() {
    let args = AgentArgs::parse(&strings(&["--max-retries", "7", "--log-path"]));
    assert_eq!(args.max_retries, Some(7));
    assert_eq!(args.log_path, None);
    // A flag in value position is consumed as the value.
    let args = AgentArgs::parse(&strings(&["--log-path", "--server-url", "u"]));
    assert_eq!(args.log_path.as_deref(), Some("--server-url"));
    assert_eq!(args.server_url, None);
}

#[test]
fn config_precedence_flag_env_default() {
    let key = generate_keypair();
    let args = AgentArgs {
        log_path: Some("/from/args.log".into()),
        server_url: None,
        state_dir: None,
        max_retries: Some(9),
        retry_base_ms: None,
    };
    let env = AgentEnv {
        home: Some("/home/me".into()),
        log_path: Some("/from/env.log".into()),
        server_url: Some("http://env:2".into()),
        state_dir: None,
        max_retries: Some("3".into()),
        retry_base_ms: Some("junk".into()),
    };
    let config = AgentConfig::load(args, env, &key);
    assert_eq!(config.log_path, "/from/args.log");
    assert_eq!(config.server_url, "http://env:2");
    assert_eq!(config.state_dir, "/home/me/.logagent");
    assert_eq!(config.max_retries, 9);
    assert_eq!(config.retry_base_ms, 500);
    assert_eq!(config.agent_id, derive_agent_id(&key));
}

#[test]
fn config_defaults_without_overrides() {
    let key = generate_keypair();
    let args = AgentArgs {
        log_path: None,
        server_url: None,
        state_dir: None,
        max_retries: None,
        retry_base_ms: None,
    };
    let config = AgentConfig::load(args, empty_env(), &key);
    assert_eq!(config.log_path, "/var/log/dpkg.log");
    assert_eq!(config.server_url, "http://127.0.0.1:3000");
    assert_eq!(config.state_dir, "./.logagent");
    assert_eq!(config.max_retries, 5);
    assert_eq!(config.retry_base_ms, 500);
}

#[test]
fn state_file_paths() {
    let key = generate_keypair();
    let args = AgentArgs {
        log_path: None,
        server_url: None,
        state_dir: Some("/var/lib/agent".into()),
        max_retries: None,
        retry_base_ms: None,
    };
    let config = AgentConfig::load(args, empty_env(), &key);
    assert_eq!(AgentConfig::key_path(&config.state_dir), "/var/lib/agent/agent.key");
    assert_eq!(config.seq_path(), "/var/lib/agent/seq.txt");
    assert_eq!(config.prev_hash_path(), "/var/lib/agent/prev_hash.txt");
}

#[test]
fn seq_file_parsing_starts_fresh_on_damage() {
    assert_eq!(parse_seq_contents(Some(&"5\n".to_string())), 5);
    assert_eq!(parse_seq_contents(Some(&"  7 ".to_string())), 7);
    assert_eq!(parse_seq_contents(Some(&"abc".to_string())), 1);
    assert_eq!(parse_seq_contents(Some(&"".to_string())), 1);
    assert_eq!(parse_seq_contents(None), 1);
}

#[test]
fn prev_hash_file_parsing_starts_fresh_on_damage() {
    let stored = vec![0xabu8; 32];
    let contents = format!("{}\n", to_hex(&stored));
    assert_eq!(parse_prev_hash_contents(Some(&contents)), stored);
    assert_eq!(parse_prev_hash_contents(Some(&"short".to_string())), vec![0u8; 32]);
    let bad = "g".repeat(64);
    assert_eq!(parse_prev_hash_contents(Some(&bad)), vec![0u8; 32]);
    assert_eq!(parse_prev_hash_contents(None), vec![0u8; 32]);
}

#[test]
fn signing_key_resolution() {
    let stored = vec![3u8; 32];
    let (kept, fresh) = resolve_signing_key(Some(stored.clone()));
    assert_eq!(kept, stored);
    assert!(!fresh);

    let (generated, fresh) = resolve_signing_key(Some(vec![1u8; 5]));
    assert_eq!(generated.len(), 32);
    assert!(fresh);

    let (generated, fresh) = resolve_signing_key(None);
    assert_eq!(generated.len(), 32);
    assert!(fresh);
}

#[test]
fn reconcile_with_server_checkpoint() {
    let mut state = ChainState { seq: 9, prev_hash: vec![9u8; 32] };
    let cp = AgentCheckpoint {
        agent_id: "a".into(),
        last_seq: 4,
        last_hash: vec![7u8; 32],
        count: 4,
    };
    state.reconcile(Some(&cp));
    assert_eq!(state.seq, 5);
    assert_eq!(state.prev_hash, vec![7u8; 32]);

    state.reconcile(None);
    assert_eq!(state.seq, 1);
    assert_eq!(state.prev_hash, vec![0u8; 32]);
}

#[test]
fn chain_state_advances_past_acknowledged_batch() {
    let mut state = ChainState { seq: 1, prev_hash: vec![0u8; 32] };
    let key = generate_keypair();
    let agent = derive_agent_id(&key);
    let lines: Vec<String> = vec!["one".into(), "two".into()];
    let batch = build_signed_batch(&state, &lines, &agent, 1234, &key);
    assert!(batch.verify());
    assert_eq!(batch.seq, 1);
    assert_eq!(batch.logs, lines);
    let next = batch.compute_hash();
    state.advance(next.clone());
    assert_eq!(state.seq, 2);
    assert_eq!(state.prev_hash, next);
}

#[test]
fn retry_backoff_doubles_per_attempt() {
    assert!(matches!(retry_decision(1, 5, 500), RetryDecision::Wait(500)));
    assert!(matches!(retry_decision(2, 5, 500), RetryDecision::Wait(1000)));
    assert!(matches!(retry_decision(3, 5, 500), RetryDecision::Wait(2000)));
    assert!(matches!(retry_decision(4, 5, 500), RetryDecision::Wait(4000)));
    assert!(matches!(retry_decision(5, 5, 500), RetryDecision::GiveUp));
    assert!(matches!(retry_decision(1, 0, 500), RetryDecision::GiveUp));
    // Far past the width of the counter, the wait saturates.
    assert!(matches!(retry_decision(70, 100, 500), RetryDecision::Wait(u64::MAX)));
    assert!(matches!(retry_decision(70, 100, 0), RetryDecision::Wait(0)));
}

#[test]
fn find_checkpoint_matches_agent() {
    let cps = vec![
        AgentCheckpoint { agent_id: "a".into(), last_seq: 1, last_hash: vec![0u8; 32], count: 1 },
        AgentCheckpoint { agent_id: "b".into(), last_seq: 2, last_hash: vec![1u8; 32], count: 2 },
    ];
    assert_eq!(find_checkpoint(&cps, "b"), Some(1));
    assert_eq!(find_checkpoint(&cps, "a"), Some(0));
    assert_eq!(find_checkpoint(&cps, "c"), None);
}

#[test]
fn cli_args_parse_server_url() {
    let args = CliArgs::parse(&strings(&["--server-url", "http://x:9"]));
    assert_eq!(args.server_url.as_deref(), Some("http://x:9"));
    let args = CliArgs::parse(&strings(&["--other", "v"]));
    assert_eq!(args.server_url, None);
    // Unlike the agent, the auditor treats unknown flags as plain words.
    let args = CliArgs::parse(&strings(&["--max-retries", "--server-url", "http://y:1"]));
    assert_eq!(args.server_url.as_deref(), Some("http://y:1"));
}
