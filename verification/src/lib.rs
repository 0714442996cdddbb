//! Tamper-evident log collection: signed, hash-chained batches, a collector
//! that validates and appends them into an append-only store, and an auditor
//! that re-checks every signature, sequence and hash linkage.

mod admission;
mod agent;
mod audit;
mod clock;
mod codec;
mod crypto;
mod hex;
mod laws;
mod query;
mod ratelimit;
mod store;
mod strutil;
mod wire;

pub use admission::handle_submit;
pub use admission::valid_auth;
pub use admission::RegisterOutcome;
pub use admission::RotateOutcome;
pub use admission::SubmitOutcome;
pub use agent::build_signed_batch;
pub use agent::derive_agent_id;
pub use agent::find_checkpoint;
pub use agent::parse_prev_hash_contents;
pub use agent::parse_seq_contents;
pub use agent::resolve_signing_key;
pub use agent::retry_decision;
pub use agent::zero_hash_vec;
pub use agent::AgentArgs;
pub use agent::AgentConfig;
pub use agent::AgentEnv;
pub use agent::ChainState;
pub use agent::RetryDecision;
pub use audit::verify_chain;
pub use audit::AuditFailure;
pub use audit::AuditOutcome;
pub use audit::CliArgs;
pub use clock::now_unix;
pub use codec::lemma_digest_deterministic;
pub use codec::LogBatch;
pub use crypto::generate_keypair;
pub use hex::hex_val;
pub use hex::parse_hex_bytes;
pub use hex::to_hex;
pub use laws::lemma_admission_atomic;
pub use laws::lemma_chain_linked;
pub use laws::lemma_idempotent_retransmit;
pub use laws::lemma_rows_authentic;
pub use laws::lemma_seq_exactly_one_to_n;
pub use query::row_to_query_batch;
pub use query::AgentCheckpoint;
pub use query::ExportParams;
pub use query::ListParams;
pub use query::QueryBatch;
pub use query::QueryError;
pub use ratelimit::RateLimiter;
pub use store::AgentEntry;
pub use store::Store;
pub use store::StoredRow;
