//! The agent: command-line and environment configuration, the persisted
//! chain state (key, next sequence number, last hash), batch production, the
//! checkpoint reconciliation, and the retry/backoff policy.
//!
//! Reading and writing files, environment variables and the network stay
//! with the caller; everything here decides from plain values.

use vstd::prelude::*;
use vstd::arithmetic::power2::{pow2, lemma_pow2_strictly_increases, lemma2_to64_rest};
use vstd::bits::{lemma_u64_shl_is_mul, lemma_u64_pow2_no_overflow};
use vstd::string::StringSliceAdditionalSpecFns;
use vstd::string::StringExecFns;
use vstd::utf8::encode_utf8;
use crate::codec::{LogBatch, spec_digest, spec_batch_verifies};
use crate::crypto::{vk_of, ed_sign, generate_keypair, verifying_key_of};
use crate::hex::{to_hex, spec_to_hex, all_hex, spec_hex_decode};
use crate::query::AgentCheckpoint;
use crate::store::{zero_hash, clone_bytes, clone_lines};
use crate::strutil::{str_eq, parse_u64_dec, spec_dec_value, all_dec_digits};

verus! {

/// Command-line overrides, raw as given; numeric flags already parsed, with
/// an unparseable value standing for "not set", as the flag loop leaves it.
pub struct AgentArgs {
    pub log_path: Option<String>,
    pub server_url: Option<String>,
    pub state_dir: Option<String>,
    pub max_retries: Option<u32>,
    pub retry_base_ms: Option<u64>,
}

/// The environment's overrides, raw as read; the caller hands them in.
pub struct AgentEnv {
    pub home: Option<String>,
    pub log_path: Option<String>,
    pub server_url: Option<String>,
    pub state_dir: Option<String>,
    pub max_retries: Option<String>,
    pub retry_base_ms: Option<String>,
}

/// The agent's resolved configuration.
pub struct AgentConfig {
    pub log_path: String,
    pub server_url: String,
    pub state_dir: String,
    pub agent_id: String,
    pub max_retries: u32,
    pub retry_base_ms: u64,
}

/// The value given for a flag, the last occurrence winning; a flag in value
/// position is consumed as a value, and a flag at the very end takes none.
pub open spec fn spec_flag_value(args: Seq<Seq<char>>, flag: Seq<char>) -> Option<Seq<char>>
    decreases args.len(),
{
    if args.len() == 0 {
        None
    } else if spec_agent_flag(args.first()) && args.len() >= 2 {
        let rest = spec_flag_value(args.skip(2), flag);
        if rest is Some {
            rest
        } else if args.first() == flag {
            Some(args[1])
        } else {
            None
        }
    } else if spec_agent_flag(args.first()) {
        None
    } else {
        spec_flag_value(args.skip(1), flag)
    }
}

/// The flags the agent knows.
pub open spec fn spec_agent_flag(a: Seq<char>) -> bool {
    ||| a == "--log-path"@
    ||| a == "--server-url"@
    ||| a == "--state-dir"@
    ||| a == "--max-retries"@
    ||| a == "--retry-base-ms"@
}

/// An unsigned decimal reading of a flag value, within the given bound.
pub open spec fn spec_parse_dec(s: Seq<char>, max: nat) -> Option<nat> {
    let b = encode_utf8(s);
    if b.len() > 0 && all_dec_digits(b) && spec_dec_value(b) <= max {
        Some(spec_dec_value(b))
    } else {
        None
    }
}

/// What one string field of the parsed arguments must hold.
pub open spec fn spec_string_flag(r: Option<String>, args: Seq<Seq<char>>, flag: Seq<char>) -> bool {
    match r {
        Some(s) => spec_flag_value(args, flag) == Some(s@),
        None => spec_flag_value(args, flag) is None,
    }
}

impl AgentArgs {
    /// Parses the agent's command-line arguments (the program name already
    /// stripped): five `--flag value` pairs, unknown arguments ignored.
    pub fn parse(args: &Vec<String>) -> (r: AgentArgs)
        ensures
            spec_string_flag(r.log_path, args.deep_view(), "--log-path"@),
            spec_string_flag(r.server_url, args.deep_view(), "--server-url"@),
            spec_string_flag(r.state_dir, args.deep_view(), "--state-dir"@),
            r.max_retries == (match spec_flag_value(args.deep_view(), "--max-retries"@) {
                Some(s) => (match spec_parse_dec(s, u32::MAX as nat) {
                    Some(v) => Some(v as u32),
                    None => None,
                }),
                None => None,
            }),
            r.retry_base_ms == (match spec_flag_value(args.deep_view(), "--retry-base-ms"@) {
                Some(s) => (match spec_parse_dec(s, u64::MAX as nat) {
                    Some(v) => Some(v as u64),
                    None => None,
                }),
                None => None,
            }),
    {
        let ghost av = args.deep_view();
        let mut log_path: Option<String> = None;
        let mut server_url: Option<String> = None;
        let mut state_dir: Option<String> = None;
        let mut max_retries: Option<u32> = None;
        let mut retry_base_ms: Option<u64> = None;
        let ghost mut raw_log: Option<Seq<char>> = None;
        let ghost mut raw_url: Option<Seq<char>> = None;
        let ghost mut raw_dir: Option<Seq<char>> = None;
        let ghost mut raw_mr: Option<Seq<char>> = None;
        let ghost mut raw_rb: Option<Seq<char>> = None;
        let n = args.len();
        let mut i: usize = 0;
        proof {
            assert(av.skip(0) =~= av);
        }
        while i < n
            invariant
                n == av.len(),
                av == args.deep_view(),
                i <= n,
                spec_merge(spec_flag_value(av.skip(i as int), "--log-path"@), raw_log)
                    == spec_flag_value(av, "--log-path"@),
                spec_merge(spec_flag_value(av.skip(i as int), "--server-url"@), raw_url)
                    == spec_flag_value(av, "--server-url"@),
                spec_merge(spec_flag_value(av.skip(i as int), "--state-dir"@), raw_dir)
                    == spec_flag_value(av, "--state-dir"@),
                spec_merge(spec_flag_value(av.skip(i as int), "--max-retries"@), raw_mr)
                    == spec_flag_value(av, "--max-retries"@),
                spec_merge(spec_flag_value(av.skip(i as int), "--retry-base-ms"@), raw_rb)
                    == spec_flag_value(av, "--retry-base-ms"@),
                (match log_path {
                    Some(s) => raw_log == Some(s@),
                    None => raw_log is None,
                }),
                (match server_url {
                    Some(s) => raw_url == Some(s@),
                    None => raw_url is None,
                }),
                (match state_dir {
                    Some(s) => raw_dir == Some(s@),
                    None => raw_dir is None,
                }),
                max_retries == (match raw_mr {
                    Some(s) => (match spec_parse_dec(s, u32::MAX as nat) {
                        Some(v) => Some(v as u32),
                        None => None,
                    }),
                    None => None,
                }),
                retry_base_ms == (match raw_rb {
                    Some(s) => (match spec_parse_dec(s, u64::MAX as nat) {
                        Some(v) => Some(v as u64),
                        None => None,
                    }),
                    None => None,
                }),
            decreases n - i,
        {
            proof {
                reveal_strlit("--log-path");
                reveal_strlit("--server-url");
                reveal_strlit("--state-dir");
                reveal_strlit("--max-retries");
                reveal_strlit("--retry-base-ms");
                assert(av.skip(i as int).first() == av[i as int]);
                assert(av.skip(i as int).skip(1) =~= av.skip(i + 1));
                if i + 2 <= n {
                    assert(av.skip(i as int).skip(2) =~= av.skip(i + 2));
                    assert(av.skip(i as int)[1] == av[i + 1]);
                }
                assert(av[i as int] == args@[i as int]@);
            }
            let arg = &args[i];
            let is_log = str_eq(arg.as_str(), "--log-path");
            let is_url = str_eq(arg.as_str(), "--server-url");
            let is_dir = str_eq(arg.as_str(), "--state-dir");
            let is_mr = str_eq(arg.as_str(), "--max-retries");
            let is_rb = str_eq(arg.as_str(), "--retry-base-ms");
            if is_log || is_url || is_dir || is_mr || is_rb {
                if i + 1 < n {
                    let value = args[i + 1].clone();
                    proof {
                        assert(value@ == av[i + 1]);
                    }
                    if is_log {
                        proof {
                            raw_log = Some(value@);
                        }
                        log_path = Some(value);
                    } else if is_url {
                        proof {
                            raw_url = Some(value@);
                        }
                        server_url = Some(value);
                    } else if is_dir {
                        proof {
                            raw_dir = Some(value@);
                        }
                        state_dir = Some(value);
                    } else if is_mr {
                        proof {
                            raw_mr = Some(value@);
                        }
                        max_retries = parse_u32_flag(&value);
                    } else {
                        proof {
                            raw_rb = Some(value@);
                        }
                        retry_base_ms = parse_u64_flag(&value);
                    }
                    i = i + 2;
                } else {
                    i = n;
                }
            } else {
                i = i + 1;
            }
        }
        proof {
            assert(av.skip(n as int) =~= Seq::<Seq<char>>::empty());
        }
        AgentArgs { log_path, server_url, state_dir, max_retries, retry_base_ms }
    }
}

/// The later value wins.
pub open spec fn spec_merge(later: Option<Seq<char>>, earlier: Option<Seq<char>>) -> Option<
    Seq<char>,
> {
    if later is Some {
        later
    } else {
        earlier
    }
}

/// Parses a `u32` flag or environment value, digits only.
fn parse_u32_flag(s: &String) -> (r: Option<u32>)
    ensures
        r == (match spec_parse_dec(s@, u32::MAX as nat) {
            Some(v) => Some(v as u32),
            None => None,
        }),
{
    match parse_u64_dec(s.as_str()) {
        Some(v) => {
            if v <= u32::MAX as u64 {
                Some(v as u32)
            } else {
                None
            }
        },
        None => None,
    }
}

/// Parses a `u64` flag or environment value, digits only.
fn parse_u64_flag(s: &String) -> (r: Option<u64>)
    ensures
        r == (match spec_parse_dec(s@, u64::MAX as nat) {
            Some(v) => Some(v as u64),
            None => None,
        }),
{
    parse_u64_dec(s.as_str())
}

impl AgentConfig {
    /// Resolves the configuration: command-line flag over environment
    /// variable over default, and the agent identifier as the hex of the
    /// verifying key derived from the 32 signing key bytes.  The caller
    /// creates the state directory and loads or creates the key file.
    pub fn load(args: AgentArgs, env: AgentEnv, key: &Vec<u8>) -> (r: AgentConfig)
        requires
            key@.len() == 32,
        ensures
            r.state_dir@ == (match args.state_dir {
                Some(s) => s@,
                None => (match env.state_dir {
                    Some(s) => s@,
                    None => (match env.home {
                        Some(h) => h@ + "/.logagent"@,
                        None => "."@ + "/.logagent"@,
                    }),
                }),
            }),
            r.log_path@ == (match args.log_path {
                Some(s) => s@,
                None => (match env.log_path {
                    Some(s) => s@,
                    None => "/var/log/dpkg.log"@,
                }),
            }),
            r.server_url@ == (match args.server_url {
                Some(s) => s@,
                None => (match env.server_url {
                    Some(s) => s@,
                    None => "http://127.0.0.1:3000"@,
                }),
            }),
            r.max_retries == (match args.max_retries {
                Some(v) => v,
                None => (match env.max_retries {
                    Some(s) => (match spec_parse_dec(s@, u32::MAX as nat) {
                        Some(v) => v as u32,
                        None => 5u32,
                    }),
                    None => 5u32,
                }),
            }),
            r.retry_base_ms == (match args.retry_base_ms {
                Some(v) => v,
                None => (match env.retry_base_ms {
                    Some(s) => (match spec_parse_dec(s@, u64::MAX as nat) {
                        Some(v) => v as u64,
                        None => 500u64,
                    }),
                    None => 500u64,
                }),
            }),
            r.agent_id@ == spec_to_hex(vk_of(key@)),
    {
        let state_dir = match args.state_dir {
            Some(s) => s,
            None => match env.state_dir {
                Some(s) => s,
                None => {
                    let home = match env.home {
                        Some(h) => h,
                        None => String::from_str("."),
                    };
                    home.concat("/.logagent")
                },
            },
        };
        let log_path = match args.log_path {
            Some(s) => s,
            None => match env.log_path {
                Some(s) => s,
                None => String::from_str("/var/log/dpkg.log"),
            },
        };
        let server_url = match args.server_url {
            Some(s) => s,
            None => match env.server_url {
                Some(s) => s,
                None => String::from_str("http://127.0.0.1:3000"),
            },
        };
        let max_retries = match args.max_retries {
            Some(v) => v,
            None => match env.max_retries {
                Some(s) => match parse_u32_flag(&s) {
                    Some(v) => v,
                    None => 5,
                },
                None => 5,
            },
        };
        let retry_base_ms = match args.retry_base_ms {
            Some(v) => v,
            None => match env.retry_base_ms {
                Some(s) => match parse_u64_flag(&s) {
                    Some(v) => v,
                    None => 500,
                },
                None => 500,
            },
        };
        let agent_id = derive_agent_id(key);
        AgentConfig { log_path, server_url, state_dir, agent_id, max_retries, retry_base_ms }
    }

    /// The key file's path under a state directory.
    pub fn key_path(state_dir: &String) -> (r: String)
        ensures
            r@ == state_dir@ + "/agent.key"@,
    {
        state_dir.clone().concat("/agent.key")
    }

    /// The sequence-number file's path.
    pub fn seq_path(&self) -> (r: String)
        ensures
            r@ == self.state_dir@ + "/seq.txt"@,
    {
        self.state_dir.clone().concat("/seq.txt")
    }

    /// The last-hash file's path.
    pub fn prev_hash_path(&self) -> (r: String)
        ensures
            r@ == self.state_dir@ + "/prev_hash.txt"@,
    {
        self.state_dir.clone().concat("/prev_hash.txt")
    }
}

/// The agent identifier: the lower-case hex of the verifying key derived
/// from the 32 signing key bytes.
pub fn derive_agent_id(key: &Vec<u8>) -> (r: String)
    requires
        key@.len() == 32,
    ensures
        r@ == spec_to_hex(vk_of(key@)),
{
    let vk = verifying_key_of(key);
    to_hex(&vk)
}

/// The signing key to run with: the stored 32 bytes if the file held
/// exactly 32, else a fresh key (which the caller persists).
pub fn resolve_signing_key(stored: Option<Vec<u8>>) -> (r: (Vec<u8>, bool))
    ensures
        r.0@.len() == 32,
        (match stored {
            Some(b) => if b@.len() == 32 {
                r.0@ == b@ && r.1 == false
            } else {
                r.1 == true
            },
            None => r.1 == true,
        }),
{
    match stored {
        Some(b) => {
            if b.len() == 32 {
                (b, false)
            } else {
                (generate_keypair(), true)
            }
        },
        None => (generate_keypair(), true),
    }
}

/// An ASCII whitespace byte: tab, line feed, carriage return or space.
pub open spec fn spec_is_ws(b: u8) -> bool {
    b == 9 || b == 10 || b == 13 || b == 32
}

/// The byte string with ASCII whitespace stripped from both ends.
pub open spec fn spec_trim(s: Seq<u8>) -> Seq<u8>
    decreases s.len(),
{
    if s.len() == 0 {
        s
    } else if spec_is_ws(s.first()) {
        spec_trim(s.drop_first())
    } else if spec_is_ws(s.last()) {
        spec_trim(s.drop_last())
    } else {
        s
    }
}

/// Strips ASCII whitespace from both ends of the bytes of `s`.
fn trim_bytes(s: &str) -> (r: Vec<u8>)
    ensures
        r@ == spec_trim(s.spec_bytes()),
{
    let bytes = s.as_bytes();
    let mut lo: usize = 0;
    let mut hi: usize = bytes.len();
    proof {
        assert(bytes@.subrange(0, bytes@.len() as int) =~= bytes@);
    }
    while lo < hi && is_ws(bytes[lo])
        invariant
            lo <= hi <= bytes@.len(),
            spec_trim(bytes@.subrange(lo as int, hi as int)) == spec_trim(bytes@),
            hi == bytes@.len(),
        decreases hi - lo,
    {
        proof {
            assert(bytes@.subrange(lo as int, hi as int).drop_first() =~= bytes@.subrange(
                lo + 1,
                hi as int,
            ));
        }
        lo = lo + 1;
    }
    while lo < hi && is_ws(bytes[hi - 1])
        invariant
            lo <= hi <= bytes@.len(),
            spec_trim(bytes@.subrange(lo as int, hi as int)) == spec_trim(bytes@),
            lo < hi ==> !spec_is_ws(bytes@[lo as int]),
        decreases hi - lo,
    {
        proof {
            assert(bytes@.subrange(lo as int, hi as int).drop_last() =~= bytes@.subrange(
                lo as int,
                hi - 1,
            ));
        }
        hi = hi - 1;
    }
    proof {
        if lo < hi {
            assert(!spec_is_ws(bytes@.subrange(lo as int, hi as int).first()));
            assert(!spec_is_ws(bytes@.subrange(lo as int, hi as int).last()));
        }
        assert(spec_trim(bytes@.subrange(lo as int, hi as int)) == bytes@.subrange(
            lo as int,
            hi as int,
        ));
    }
    let mut out: Vec<u8> = Vec::new();
    let mut i: usize = lo;
    while i < hi
        invariant
            lo <= i <= hi <= bytes@.len(),
            out@ == bytes@.subrange(lo as int, i as int),
        decreases hi - i,
    {
        out.push(bytes[i]);
        proof {
            assert(bytes@.subrange(lo as int, i + 1) =~= bytes@.subrange(lo as int, i as int).push(
                bytes@[i as int]));
        }
        i = i + 1;
    }
    out
}

/// Is the byte ASCII whitespace?
fn is_ws(b: u8) -> (r: bool)
    ensures
        r == spec_is_ws(b),
{
    b == 9 || b == 10 || b == 13 || b == 32
}

/// The persisted next sequence number: the file's trimmed decimal value, or
/// 1 when the file is missing or malformed (start fresh).
pub fn parse_seq_contents(contents: Option<&String>) -> (r: u64)
    ensures
        r == (match contents {
            Some(s) => {
                let t = spec_trim(encode_utf8(s@));
                if t.len() > 0 && all_dec_digits(t) && spec_dec_value(t) <= u64::MAX {
                    spec_dec_value(t) as u64
                } else {
                    1u64
                }
            },
            None => 1u64,
        }),
{
    match contents {
        Some(s) => {
            let t = trim_bytes(s.as_str());
            match crate::strutil::parse_dec_bytes(t.as_slice()) {
                Some(v) => v,
                None => 1,
            }
        },
        None => 1,
    }
}

/// The persisted last hash: the file's trimmed 64 hex digits decoded, or the
/// all-zero hash when the file is missing or malformed (start fresh).
pub fn parse_prev_hash_contents(contents: Option<&String>) -> (r: Vec<u8>)
    ensures
        r@.len() == 32,
        r@ == (match contents {
            Some(s) => {
                let t = spec_trim(encode_utf8(s@));
                if t.len() == 64 && all_hex(t) {
                    spec_hex_decode(t)
                } else {
                    zero_hash()
                }
            },
            None => zero_hash(),
        }),
{
    match contents {
        Some(s) => {
            let t = trim_bytes(s.as_str());
            if t.len() != 64 {
                let z = zero_hash_vec();
                return z;
            }
            match decode_hex_bytes(&t) {
                Some(v) => v,
                None => zero_hash_vec(),
            }
        },
        None => zero_hash_vec(),
    }
}

/// A 32-byte all-zero hash value.
pub fn zero_hash_vec() -> (r: Vec<u8>)
    ensures
        r@ == zero_hash(),
        r@.len() == 32,
{
    let r = vec![0u8; 32];
    proof {
        assert(r@ =~= zero_hash());
    }
    r
}

/// Decodes an even-length hex byte string.
fn decode_hex_bytes(bytes: &Vec<u8>) -> (r: Option<Vec<u8>>)
    requires
        bytes@.len() % 2 == 0,
    ensures
        r is Some <==> all_hex(bytes@),
        r is Some ==> r->0@ == spec_hex_decode(bytes@),
{
    let n = bytes.len() / 2;
    let mut out: Vec<u8> = Vec::new();
    let mut i: usize = 0;
    while i < n
        invariant
            n == bytes@.len() / 2,
            n <= usize::MAX / 2,
            bytes@.len() % 2 == 0,
            i <= n,
            out@.len() == i,
            forall|k: int| 0 <= k < 2 * i ==> (#[trigger] crate::hex::spec_hex_val(bytes@[k])) is Some,
            forall|k: int| 0 <= k < i ==> out@[k] == spec_hex_decode(bytes@)[k],
        decreases n - i,
    {
        let high = match crate::hex::hex_val(bytes[2 * i]) {
            Ok(v) => v,
            Err(_) => {
                return None;
            },
        };
        let low = match crate::hex::hex_val(bytes[2 * i + 1]) {
            Ok(v) => v,
            Err(_) => {
                return None;
            },
        };
        out.push(high * 16 + low);
        i = i + 1;
    }
    proof {
        assert(out@ =~= spec_hex_decode(bytes@));
    }
    Some(out)
}

/// The agent's chain position: the next sequence number to use and the hash
/// its next batch must link to.
pub struct ChainState {
    pub seq: u64,
    pub prev_hash: Vec<u8>,
}

impl ChainState {
    /// Reconciles with the collector's checkpoint: adopt the server's view,
    /// or reset to the beginning when the server has nothing for this agent.
    pub fn reconcile(&mut self, cp: Option<&AgentCheckpoint>)
        ensures
            (match cp {
                Some(c) => final(self).seq == (if c.last_seq == u64::MAX {
                    u64::MAX
                } else {
                    (c.last_seq + 1) as u64
                }) && final(self).prev_hash@ == c.last_hash@,
                None => final(self).seq == 1 && final(self).prev_hash@ == zero_hash(),
            }),
    {
        match cp {
            Some(c) => {
                self.seq = c.last_seq.saturating_add(1);
                self.prev_hash = clone_bytes(&c.last_hash);
            },
            None => {
                self.seq = 1;
                self.prev_hash = zero_hash_vec();
            },
        }
    }

    /// Advances past an acknowledged batch: the next batch links to its
    /// digest and carries the next sequence number.
    pub fn advance(&mut self, next_hash: Vec<u8>)
        requires
            old(self).seq < u64::MAX,
        ensures
            final(self).seq == old(self).seq + 1,
            final(self).prev_hash@ == next_hash@,
    {
        self.prev_hash = next_hash;
        self.seq = self.seq + 1;
    }
}

/// Builds and signs one batch from the chain position, the buffered lines
/// and the clock; the result verifies (the sign/verify round trip).
pub fn build_signed_batch(
    state: &ChainState,
    lines: &Vec<String>,
    agent_id: &String,
    timestamp: u64,
    key: &Vec<u8>,
) -> (b: LogBatch)
    requires
        key@.len() == 32,
    ensures
        b.prev_hash@ == state.prev_hash@,
        b.logs@ == lines@,
        b.timestamp == timestamp,
        b.agent_id@ == agent_id@,
        b.seq == state.seq,
        b.public_key@ == vk_of(key@),
        b.signature@ == ed_sign(key@, spec_digest(b)),
        spec_batch_verifies(b),
{
    let mut batch = LogBatch {
        prev_hash: clone_bytes(&state.prev_hash),
        logs: clone_lines(lines),
        timestamp,
        agent_id: agent_id.clone(),
        seq: state.seq,
        // Placeholder, overwritten by signing; never transmitted.
        signature: vec![0u8; 64],
        public_key: vec![0u8; 32],
    };
    batch.sign(key);
    batch
}

/// What the sender does after a failed attempt: wait and retry, or give up.
pub enum RetryDecision {
    /// Wait this many milliseconds, then retry.
    Wait(u64),
    /// Attempts are exhausted.
    GiveUp,
}

/// The exponential backoff before retry `attempt + 1`: the base times
/// `2^(attempt-1)`, saturated at the type's maximum.
pub open spec fn spec_backoff(base_ms: u64, attempt: u32) -> u64 {
    let raw = base_ms * pow2((attempt - 1) as nat);
    if raw > u64::MAX {
        u64::MAX
    } else {
        raw as u64
    }
}

/// Decides, after failed attempt number `attempt`, whether to retry and how
/// long to wait first.
pub fn retry_decision(attempt: u32, max_retries: u32, base_ms: u64) -> (r: RetryDecision)
    requires
        attempt >= 1,
    ensures
        r == (if attempt >= max_retries {
            RetryDecision::GiveUp
        } else {
            RetryDecision::Wait(spec_backoff(base_ms, attempt))
        }),
{
    if attempt >= max_retries {
        return RetryDecision::GiveUp;
    }
    let shift = attempt - 1;
    if shift >= 64 {
        if base_ms == 0 {
            proof {
                lemma_pow2_pos_large(shift as nat);
            }
            return RetryDecision::Wait(0);
        }
        proof {
            lemma_pow2_pos_large(shift as nat);
            assert(base_ms * pow2(shift as nat) >= 1 * pow2(shift as nat)) by (nonlinear_arith)
                requires
                    base_ms >= 1,
                    pow2(shift as nat) >= 0,
            ;
        }
        return RetryDecision::Wait(u64::MAX);
    }
    let factor: u64 = 1u64 << (shift as u64);
    proof {
        lemma_u64_pow2_no_overflow(shift as nat);
        lemma_u64_shl_is_mul(1u64, shift as u64);
    }
    match base_ms.checked_mul(factor) {
        Some(v) => RetryDecision::Wait(v),
        None => RetryDecision::Wait(u64::MAX),
    }
}

/// For an exponent of 64 or more, the power of two exceeds `u64::MAX`.
proof fn lemma_pow2_pos_large(n: nat)
    requires
        n >= 64,
    ensures
        pow2(n) > u64::MAX,
{
    lemma2_to64_rest();
    if n > 64 {
        lemma_pow2_strictly_increases(64, n);
    }
}

/// The first checkpoint for an agent in the collector's listing, if any.
pub fn find_checkpoint(checkpoints: &Vec<AgentCheckpoint>, agent_id: &str) -> (r: Option<usize>)
    ensures
        match r {
            Some(i) => i < checkpoints@.len() && checkpoints@[i as int].agent_id@ == agent_id@,
            None => forall|k: int|
                0 <= k < checkpoints@.len() ==> (#[trigger] checkpoints@[k]).agent_id@
                    != agent_id@,
        },
{
    let n = checkpoints.len();
    let mut i: usize = 0;
    while i < n
        invariant
            n == checkpoints@.len(),
            i <= n,
            forall|k: int| 0 <= k < i ==> (#[trigger] checkpoints@[k]).agent_id@ != agent_id@,
        decreases n - i,
    {
        if str_eq(checkpoints[i].agent_id.as_str(), agent_id) {
            return Some(i);
        }
        i = i + 1;
    }
    None
}

} // verus!
