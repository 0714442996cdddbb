//! The collector's admission pipeline and agent registry operations:
//! signature check, registered-key check, content dedup, chain check, and
//! the append — all or nothing — plus registration and signed key rotation.

use vstd::prelude::*;
use vstd::string::StringSliceAdditionalSpecFns;
use vstd::string::StrSliceExecFns;
use vstd::string::StringExecFns;
use vstd::utf8::encode_utf8;
use crate::codec::{LogBatch, spec_digest, spec_batch_verifies, lemma_digest_deterministic};
use crate::crypto::{ed_verifies, ed_pk_ok, ed_verify, ed_pk_decodes};
use crate::store::{Store, StoredRow, AgentEntry, rows_of, spec_lookup_agent, zero_hash, row_batch,
    row_sized, chain_ok, bytes_eq, clone_bytes, clone_lines};
use crate::wire::{logs_to_json, compress_json, json_of_lines, gunzip_of};
use crate::strutil::{u64_to_dec, spec_u64_dec, matches_at, lemma_encode_utf8_concat};
use crate::hex::{parse_hex_bytes, all_hex, spec_hex_decode};
use crate::ratelimit::{RateLimiter, spec_effective_count, spec_allow_transition};

verus! {

/// The outcome of one submission, one variant per way the pipeline can end.
pub enum SubmitOutcome {
    /// Admitted and appended.
    Created,
    /// Rejected by the rate limiter before any other check.
    RateLimited,
    /// A bearer token is configured and the request did not present it.
    Unauthorized,
    /// The batch signature does not verify.
    InvalidSignature,
    /// The batch's key differs from the agent's registered key.
    KeyMismatch,
    /// Registration is required and the agent is unknown.
    NotRegistered,
    /// A first batch whose sequence number is not 1.
    FirstSeqNotOne,
    /// A first batch whose `prev_hash` is not all zero.
    FirstPrevHashNotZero,
    /// The expected next sequence number, and the one submitted.
    SeqMismatch(u64, u64),
    /// `prev_hash` does not equal the stored hash of the agent's last row.
    PrevHashMismatch,
    /// The agent already stores this exact content (idempotent re-send).
    Duplicate,
}

/// What the chain check decides, given the agent's rows so far.
pub open spec fn spec_chain_outcome(rows: Seq<StoredRow>, b: LogBatch) -> SubmitOutcome {
    let f = rows_of(rows, b.agent_id@);
    if f.len() == 0 {
        if b.seq != 1 {
            SubmitOutcome::FirstSeqNotOne
        } else if b.prev_hash@ != zero_hash() {
            SubmitOutcome::FirstPrevHashNotZero
        } else {
            SubmitOutcome::Created
        }
    } else {
        let last = f.last();
        if b.seq != last.seq as int + 1 {
            SubmitOutcome::SeqMismatch(
                if last.seq == u64::MAX {
                    u64::MAX
                } else {
                    (last.seq + 1) as u64
                },
                b.seq,
            )
        } else if b.prev_hash@ != last.hash@ {
            SubmitOutcome::PrevHashMismatch
        } else {
            SubmitOutcome::Created
        }
    }
}

/// What the pipeline decides after the registered-key check: content dedup
/// first — an exact re-send is answered as a duplicate, whatever the chain
/// state — then the chain check.
pub open spec fn spec_post_key_outcome(s: Store, b: LogBatch) -> SubmitOutcome {
    if exists|i: int|
        0 <= i < s.rows@.len() && (#[trigger] s.rows@[i]).agent_id@ == b.agent_id@
            && s.rows@[i].hash@ == spec_digest(b) {
        SubmitOutcome::Duplicate
    } else {
        spec_chain_outcome(s.rows@, b)
    }
}

/// What the whole pipeline decides for a batch: signature, registered key,
/// dedup, chain — in that order.
pub open spec fn spec_admission(s: Store, b: LogBatch, require_registration: bool) -> SubmitOutcome {
    if !spec_batch_verifies(b) {
        SubmitOutcome::InvalidSignature
    } else {
        match spec_lookup_agent(s.agents@, b.agent_id@) {
            Some(e) => if e.public_key@ != b.public_key@ {
                SubmitOutcome::KeyMismatch
            } else {
                spec_post_key_outcome(s, b)
            },
            None => if require_registration {
                SubmitOutcome::NotRegistered
            } else {
                spec_post_key_outcome(s, b)
            },
        }
    }
}

/// The row an admitted batch is stored as.
pub open spec fn spec_new_row(
    row: StoredRow,
    b: LogBatch,
    id: i64,
    now: i64,
    source: Seq<char>,
) -> bool {
    &&& row.id == id
    &&& row.agent_id@ == b.agent_id@
    &&& row.seq == b.seq
    &&& row.prev_hash@ == b.prev_hash@
    &&& row.hash@ == spec_digest(b)
    &&& row.logs.deep_view() == b.logs.deep_view()
    &&& row.logs_json@ == json_of_lines(b.logs.deep_view())
    &&& gunzip_of(row.logs_compressed@) == Some(encode_utf8(json_of_lines(b.logs.deep_view())))
    &&& row.timestamp == b.timestamp
    &&& row.signature@ == b.signature@
    &&& row.public_key@ == b.public_key@
    &&& row.received_at == now
    &&& row.source@ == source
}

/// Whether the agent registry is unchanged or extended by exactly the
/// submitting agent (auto-enrolment).
pub open spec fn spec_enrolment(
    agents_before: Seq<AgentEntry>,
    agents_after: Seq<AgentEntry>,
    b: LogBatch,
    now: i64,
) -> bool {
    match spec_lookup_agent(agents_before, b.agent_id@) {
        Some(_) => agents_after == agents_before,
        None => {
            &&& agents_after.len() == agents_before.len() + 1
            &&& agents_after.drop_last() == agents_before
            &&& agents_after.last().agent_id@ == b.agent_id@
            &&& agents_after.last().public_key@ == b.public_key@
            &&& agents_after.last().created_at == now
        },
    }
}

/// How one submission changes the store: not at all unless it was admitted;
/// on admission, exactly one appended row holding the batch, and enrolment
/// of the agent when it was unknown.
pub open spec fn spec_submit_transition(
    pre: Store,
    post: Store,
    b: LogBatch,
    r: SubmitOutcome,
    now: i64,
    source: Seq<char>,
) -> bool {
    &&& (!(r is Created) ==> post == pre)
    &&& (r is Created ==> {
        &&& post.rows@.len() == pre.rows@.len() + 1
        &&& post.rows@.drop_last() == pre.rows@
        &&& spec_new_row(post.rows@.last(), b, pre.next_id, now, source)
        &&& post.next_id == pre.next_id + 1
        &&& spec_enrolment(pre.agents@, post.agents@, b, now)
    })
}

/// A registry lookup answers `None` exactly when no entry has the agent, and
/// a `Some` answer is an entry of the registry.
pub proof fn lemma_lookup_agent(agents: Seq<AgentEntry>, a: Seq<char>)
    ensures
        spec_lookup_agent(agents, a) is None <==> (forall|i: int|
            0 <= i < agents.len() ==> (#[trigger] agents[i]).agent_id@ != a),
        spec_lookup_agent(agents, a) is Some ==> exists|i: int|
            0 <= i < agents.len() && #[trigger] agents[i] == spec_lookup_agent(agents, a)->0
                && agents[i].agent_id@ == a,
    decreases agents.len(),
{
    if agents.len() > 0 {
        lemma_lookup_agent(agents.drop_first(), a);
        assert forall|i: int| 0 <= i < agents.len() && spec_lookup_agent(agents, a) is None
            implies (#[trigger] agents[i]).agent_id@ != a by {
            if i > 0 {
                assert(agents.drop_first()[i - 1] == agents[i]);
            }
        }
        if agents.first().agent_id@ != a && spec_lookup_agent(agents.drop_first(), a) is Some {
            let j = choose|j: int|
                0 <= j < agents.drop_first().len() && #[trigger] agents.drop_first()[j]
                    == spec_lookup_agent(agents.drop_first(), a)->0 && agents.drop_first()[
                    j].agent_id@ == a;
            assert(agents[j + 1] == agents.drop_first()[j]);
        }
    }
}

/// Is the value the 32-byte all-zero hash?
pub fn is_zero_hash(v: &Vec<u8>) -> (r: bool)
    ensures
        r == (v@ == zero_hash()),
{
    if v.len() != 32 {
        return false;
    }
    let mut i: usize = 0;
    while i < 32
        invariant
            v@.len() == 32,
            i <= 32,
            forall|k: int| 0 <= k < i ==> v@[k] == 0u8,
        decreases 32 - i,
    {
        if v[i] != 0 {
            assert(v@ != zero_hash());
            return false;
        }
        i = i + 1;
    }
    proof {
        assert(v@ =~= zero_hash());
    }
    true
}

impl Store {
    /// The admission pipeline for one batch, run atomically: a failing check
    /// changes nothing; success appends exactly one row with the recomputed
    /// digest, and enrols the agent when it was unknown and registration is
    /// not required.
    pub fn submit(
        &mut self,
        batch: &LogBatch,
        require_registration: bool,
        now: i64,
        source: &str,
    ) -> (r: SubmitOutcome)
        requires
            old(self).wf(),
            old(self).next_id < i64::MAX,
        ensures
            final(self).wf(),
            r == spec_admission(*old(self), *batch, require_registration),
            spec_submit_transition(*old(self), *final(self), *batch, r, now, source@),
            old(self).crypto_ok() ==> final(self).crypto_ok(),
            old(self).keys_ok() ==> final(self).keys_ok(),
            old(self).decodes_ok() ==> final(self).decodes_ok(),
    {
        if !batch.verify() {
            return SubmitOutcome::InvalidSignature;
        }
        let computed_hash = batch.compute_hash();

        // Registered-key check; remember whether to enrol on success.
        let auto_enroll: bool;
        match self.find_agent(batch.agent_id.as_str()) {
            Some(i) => {
                if !bytes_eq(&self.agents[i].public_key, &batch.public_key) {
                    return SubmitOutcome::KeyMismatch;
                }
                auto_enroll = false;
            },
            None => {
                if require_registration {
                    return SubmitOutcome::NotRegistered;
                }
                auto_enroll = true;
            },
        }

        // Content dedup: an exact re-send collapses to a duplicate answer.
        if self.has_content(batch.agent_id.as_str(), &computed_hash) {
            return SubmitOutcome::Duplicate;
        }

        // Chain check against the agent's last row.
        let ghost f = rows_of(self.rows@, batch.agent_id@);
        match self.last_row_for(batch.agent_id.as_str()) {
            None => {
                if batch.seq != 1 {
                    return SubmitOutcome::FirstSeqNotOne;
                }
                if !is_zero_hash(&batch.prev_hash) {
                    return SubmitOutcome::FirstPrevHashNotZero;
                }
            },
            Some(i) => {
                let last_seq = self.rows[i].seq;
                proof {
                    assert(chain_ok(f));
                    assert(f[f.len() - 1].seq == f.len());
                }
                if last_seq == u64::MAX || batch.seq != last_seq + 1 {
                    return SubmitOutcome::SeqMismatch(last_seq.saturating_add(1), batch.seq);
                }
                if !bytes_eq(&batch.prev_hash, &self.rows[i].hash) {
                    return SubmitOutcome::PrevHashMismatch;
                }
            },
        }

        // Every check passed: enrol if needed, then append.
        let ghost rows_before = self.rows@;
        let ghost agents_before = self.agents@;
        let logs_json = logs_to_json(&batch.logs);
        let logs_compressed = compress_json(logs_json.as_str());
        if auto_enroll {
            let entry = AgentEntry {
                agent_id: batch.agent_id.clone(),
                public_key: clone_bytes(&batch.public_key),
                created_at: now,
            };
            self.agents.push(entry);
        }
        let row = StoredRow {
            id: self.next_id,
            agent_id: batch.agent_id.clone(),
            seq: batch.seq,
            prev_hash: clone_bytes(&batch.prev_hash),
            hash: computed_hash,
            logs: clone_lines(&batch.logs),
            logs_json,
            logs_compressed,
            timestamp: batch.timestamp,
            signature: clone_bytes(&batch.signature),
            public_key: clone_bytes(&batch.public_key),
            received_at: now,
            source: String::from_str(source),
        };
        self.rows.push(row);
        self.next_id = self.next_id + 1;
        proof {
            let b = *batch;
            let rows_after = self.rows@;
            let new_row = rows_after.last();
            assert(rows_after.drop_last() =~= rows_before);
            lemma_digest_deterministic(row_batch(new_row), b);

            // Chains: the submitting agent's chain grows by one row; every
            // other agent's rows are untouched.
            assert forall|a: Seq<char>| chain_ok(#[trigger] rows_of(rows_after, a)) by {
                assert(chain_ok(rows_of(rows_before, a)));
                if a == b.agent_id@ {
                    assert(rows_of(rows_after, a) == rows_of(rows_before, a).push(new_row));
                } else {
                    assert(rows_of(rows_after, a) == rows_of(rows_before, a));
                }
            }
            if auto_enroll {
                lemma_lookup_agent(agents_before, b.agent_id@);
                assert(self.agents@.drop_last() =~= agents_before);
            }

            // The appended row decodes back: its compressed logs decompress
            // to the JSON the lines serialised to, which parses to them.
            broadcast use vstd::utf8::encode_utf8_valid_utf8;
            broadcast use vstd::utf8::encode_utf8_decode_utf8;

            assert(crate::query::spec_row_decodes(new_row));
        }
        SubmitOutcome::Created
    }
}

/// The outcome of a registration request.
pub enum RegisterOutcome {
    /// The key hex does not denote a valid public key.
    InvalidKey,
    /// The agent is already bound to exactly this key (idempotent success).
    AlreadyRegistered,
    /// The agent is bound to a different key.
    Conflict,
    /// A new binding was created.
    Registered,
}

/// What a registration request decides.
pub open spec fn spec_register_outcome(
    s: Store,
    agent: Seq<char>,
    key_hex: Seq<char>,
) -> RegisterOutcome {
    let hexb = encode_utf8(key_hex);
    if !(hexb.len() == 64 && all_hex(hexb) && ed_pk_ok(spec_hex_decode(hexb))) {
        RegisterOutcome::InvalidKey
    } else {
        match spec_lookup_agent(s.agents@, agent) {
            Some(e) => if e.public_key@ == spec_hex_decode(hexb) {
                RegisterOutcome::AlreadyRegistered
            } else {
                RegisterOutcome::Conflict
            },
            None => RegisterOutcome::Registered,
        }
    }
}

/// The outcome of a key rotation request.
pub enum RotateOutcome {
    /// The agent is not registered.
    NotFound,
    /// The stored key bytes do not decode (corrupt store).
    StoredKeyInvalid,
    /// The new key hex does not denote a valid public key.
    InvalidNewKey,
    /// The signature hex does not denote a 64-byte signature.
    InvalidSignature,
    /// The rotation message is not signed by the current key.
    Unauthorized,
    /// The binding now carries the new key.
    Rotated,
}

/// The exact bytes a rotation must sign: the ASCII text
/// `rotate:<agent_id>:<new_public_key_hex>`.
pub open spec fn spec_rotation_message(agent: Seq<char>, new_key_hex: Seq<char>) -> Seq<char> {
    "rotate:"@ + agent + ":"@ + new_key_hex
}

/// What a rotation request decides.
pub open spec fn spec_rotate_outcome(
    s: Store,
    agent: Seq<char>,
    new_hex: Seq<char>,
    sig_hex: Seq<char>,
) -> RotateOutcome {
    match spec_lookup_agent(s.agents@, agent) {
        None => RotateOutcome::NotFound,
        Some(e) => {
            let nb = encode_utf8(new_hex);
            let sb = encode_utf8(sig_hex);
            if !ed_pk_ok(e.public_key@) {
                RotateOutcome::StoredKeyInvalid
            } else if !(nb.len() == 64 && all_hex(nb) && ed_pk_ok(spec_hex_decode(nb))) {
                RotateOutcome::InvalidNewKey
            } else if !(sb.len() == 128 && all_hex(sb)) {
                RotateOutcome::InvalidSignature
            } else if !ed_verifies(
                e.public_key@,
                encode_utf8(spec_rotation_message(agent, new_hex)),
                spec_hex_decode(sb),
            ) {
                RotateOutcome::Unauthorized
            } else {
                RotateOutcome::Rotated
            }
        },
    }
}

/// Decodes 64 hex digits and checks they denote a valid public key.
pub fn parse_hex_public_key(hex: &str) -> (r: Result<Vec<u8>, String>)
    ensures
        r is Ok <==> (hex.spec_bytes().len() == 64 && all_hex(hex.spec_bytes()) && ed_pk_ok(
            spec_hex_decode(hex.spec_bytes()),
        )),
        r is Ok ==> (r->Ok_0@ == spec_hex_decode(hex.spec_bytes()) && r->Ok_0@.len() == 32),
{
    let bytes = match parse_hex_bytes(hex, 32) {
        Ok(b) => b,
        Err(e) => {
            return Err(e);
        },
    };
    if ed_pk_decodes(&bytes) {
        Ok(bytes)
    } else {
        Err(String::from_str("invalid public key bytes"))
    }
}

/// Decodes 128 hex digits into 64 signature bytes.  Any 64 bytes form a
/// signature value; validity is decided only by verification.
pub fn parse_hex_signature(hex: &str) -> (r: Result<Vec<u8>, String>)
    ensures
        r is Ok <==> (hex.spec_bytes().len() == 128 && all_hex(hex.spec_bytes())),
        r is Ok ==> (r->Ok_0@ == spec_hex_decode(hex.spec_bytes()) && r->Ok_0@.len() == 64),
{
    parse_hex_bytes(hex, 64)
}

impl Store {
    /// Binds an agent to a key: created if absent, idempotent if already
    /// bound to the same key, a conflict if bound to a different one.
    pub fn register(&mut self, agent_id: &str, public_key_hex: &str, now: i64) -> (r:
        RegisterOutcome)
        requires
            old(self).wf(),
        ensures
            final(self).wf(),
            r == spec_register_outcome(*old(self), agent_id@, public_key_hex@),
            !(r is Registered) ==> *final(self) == *old(self),
            r is Registered ==> {
                &&& final(self).rows@ == old(self).rows@
                &&& final(self).next_id == old(self).next_id
                &&& final(self).agents@.len() == old(self).agents@.len() + 1
                &&& final(self).agents@.drop_last() == old(self).agents@
                &&& final(self).agents@.last().agent_id@ == agent_id@
                &&& final(self).agents@.last().public_key@ == spec_hex_decode(
                    encode_utf8(public_key_hex@),
                )
                &&& final(self).agents@.last().created_at == now
            },
            old(self).crypto_ok() ==> final(self).crypto_ok(),
            old(self).keys_ok() ==> final(self).keys_ok(),
    {
        let pk = match parse_hex_public_key(public_key_hex) {
            Ok(pk) => pk,
            Err(_) => {
                return RegisterOutcome::InvalidKey;
            },
        };
        match self.find_agent(agent_id) {
            Some(i) => {
                if bytes_eq(&self.agents[i].public_key, &pk) {
                    RegisterOutcome::AlreadyRegistered
                } else {
                    RegisterOutcome::Conflict
                }
            },
            None => {
                proof {
                    lemma_lookup_agent(self.agents@, agent_id@);
                }
                let ghost agents_before = self.agents@;
                let entry = AgentEntry {
                    agent_id: String::from_str(agent_id),
                    public_key: pk,
                    created_at: now,
                };
                self.agents.push(entry);
                proof {
                    assert(self.agents@.drop_last() =~= agents_before);
                }
                RegisterOutcome::Registered
            },
        }
    }

    /// Replaces an agent's key after checking a signature, under the current
    /// key, over exactly `rotate:<agent_id>:<new_public_key_hex>`.  Stored
    /// rows are untouched: auditing uses the key each row carries.
    pub fn rotate(
        &mut self,
        agent_id: &str,
        new_public_key_hex: &str,
        auth_signature_hex: &str,
    ) -> (r: RotateOutcome)
        requires
            old(self).wf(),
        ensures
            final(self).wf(),
            r == spec_rotate_outcome(
                *old(self),
                agent_id@,
                new_public_key_hex@,
                auth_signature_hex@,
            ),
            !(r is Rotated) ==> *final(self) == *old(self),
            r is Rotated ==> {
                &&& final(self).rows@ == old(self).rows@
                &&& final(self).next_id == old(self).next_id
                &&& final(self).agents@.len() == old(self).agents@.len()
                &&& forall|k: int|
                    0 <= k < old(self).agents@.len() && (#[trigger] old(self).agents@[k]).agent_id@
                        != agent_id@ ==> final(self).agents@[k] == old(self).agents@[k]
                &&& forall|k: int|
                    0 <= k < old(self).agents@.len() && (#[trigger] old(self).agents@[k]).agent_id@
                        == agent_id@ ==> {
                        &&& final(self).agents@[k].agent_id@ == agent_id@
                        &&& final(self).agents@[k].public_key@ == spec_hex_decode(
                            encode_utf8(new_public_key_hex@),
                        )
                        &&& final(self).agents@[k].created_at == old(self).agents@[k].created_at
                    }
            },
            old(self).crypto_ok() ==> final(self).crypto_ok(),
            old(self).keys_ok() ==> final(self).keys_ok(),
    {
        let idx = match self.find_agent(agent_id) {
            Some(i) => i,
            None => {
                return RotateOutcome::NotFound;
            },
        };
        if !ed_pk_decodes(&self.agents[idx].public_key) {
            return RotateOutcome::StoredKeyInvalid;
        }
        let new_pk = match parse_hex_public_key(new_public_key_hex) {
            Ok(pk) => pk,
            Err(_) => {
                return RotateOutcome::InvalidNewKey;
            },
        };
        let sig = match parse_hex_signature(auth_signature_hex) {
            Ok(s) => s,
            Err(_) => {
                return RotateOutcome::InvalidSignature;
            },
        };
        let mut msg = String::new();
        msg.append("rotate:");
        msg.append(agent_id);
        msg.append(":");
        msg.append(new_public_key_hex);
        proof {
            assert(msg@ =~= spec_rotation_message(agent_id@, new_public_key_hex@));
        }
        let msg_bytes = msg.as_str().as_bytes_vec();
        if !ed_verify(&self.agents[idx].public_key, &msg_bytes, &sig) {
            return RotateOutcome::Unauthorized;
        }
        let ghost agents_before = self.agents@;
        let entry = vstd::std_specs::vec::vec_index_mut(&mut self.agents, idx);
        entry.public_key = new_pk;
        proof {
            assert(self.agents@ == agents_before.update(idx as int, self.agents@[idx as int]));
            assert forall|k: int|
                0 <= k < agents_before.len() && (#[trigger] agents_before[k]).agent_id@
                    != agent_id@ implies self.agents@[k] == agents_before[k] by {
                assert(k != idx);
            }
        }
        RotateOutcome::Rotated
    }
}

impl SubmitOutcome {
    /// The HTTP status a submission outcome is reported with.
    pub open spec fn spec_status(self) -> u16 {
        match self {
            SubmitOutcome::Created => 201,
            SubmitOutcome::RateLimited => 429,
            SubmitOutcome::Unauthorized => 401,
            SubmitOutcome::Duplicate => 409,
            _ => 400,
        }
    }

    /// The response body text of a submission outcome.
    pub open spec fn spec_message(self) -> Seq<char> {
        match self {
            SubmitOutcome::Created => "batch stored"@,
            SubmitOutcome::RateLimited => "rate limit exceeded"@,
            SubmitOutcome::Unauthorized => "missing or invalid auth"@,
            SubmitOutcome::InvalidSignature => "invalid signature"@,
            SubmitOutcome::KeyMismatch => "public key does not match registered agent key"@,
            SubmitOutcome::NotRegistered => "agent not registered; register key before sending batches"@,
            SubmitOutcome::FirstSeqNotOne => "first batch for agent must have seq=1"@,
            SubmitOutcome::FirstPrevHashNotZero => "first batch prev_hash must be all zeros"@,
            SubmitOutcome::SeqMismatch(expected, got) => "seq must increment: expected "@
                + spec_u64_dec(expected as nat) + ", got "@ + spec_u64_dec(got as nat),
            SubmitOutcome::PrevHashMismatch => "prev_hash does not match last hash"@,
            SubmitOutcome::Duplicate => "duplicate batch content for agent"@,
        }
    }

    /// The HTTP status code for this outcome.
    pub fn http_status(&self) -> (r: u16)
        ensures
            r == self.spec_status(),
    {
        match self {
            SubmitOutcome::Created => 201,
            SubmitOutcome::RateLimited => 429,
            SubmitOutcome::Unauthorized => 401,
            SubmitOutcome::Duplicate => 409,
            _ => 400,
        }
    }

    /// The response body text for this outcome.
    pub fn message(&self) -> (r: String)
        ensures
            r@ == self.spec_message(),
    {
        match self {
            SubmitOutcome::Created => String::from_str("batch stored"),
            SubmitOutcome::RateLimited => String::from_str("rate limit exceeded"),
            SubmitOutcome::Unauthorized => String::from_str("missing or invalid auth"),
            SubmitOutcome::InvalidSignature => String::from_str("invalid signature"),
            SubmitOutcome::KeyMismatch => String::from_str(
                "public key does not match registered agent key",
            ),
            SubmitOutcome::NotRegistered => String::from_str(
                "agent not registered; register key before sending batches",
            ),
            SubmitOutcome::FirstSeqNotOne => String::from_str(
                "first batch for agent must have seq=1",
            ),
            SubmitOutcome::FirstPrevHashNotZero => String::from_str(
                "first batch prev_hash must be all zeros",
            ),
            SubmitOutcome::SeqMismatch(expected, got) => {
                let mut m = String::from_str("seq must increment: expected ");
                let e = u64_to_dec(*expected);
                m.append(e.as_str());
                m.append(", got ");
                let g = u64_to_dec(*got);
                m.append(g.as_str());
                proof {
                    assert(m@ =~= self.spec_message());
                }
                m
            },
            SubmitOutcome::PrevHashMismatch => String::from_str(
                "prev_hash does not match last hash",
            ),
            SubmitOutcome::Duplicate => String::from_str("duplicate batch content for agent"),
        }
    }
}

impl RegisterOutcome {
    /// The HTTP status a registration outcome is reported with.
    pub open spec fn spec_status(self) -> u16 {
        match self {
            RegisterOutcome::InvalidKey => 400,
            RegisterOutcome::AlreadyRegistered => 200,
            RegisterOutcome::Conflict => 409,
            RegisterOutcome::Registered => 201,
        }
    }

    /// The response body text of a registration outcome.
    pub open spec fn spec_message(self) -> Seq<char> {
        match self {
            RegisterOutcome::InvalidKey => "invalid public key hex"@,
            RegisterOutcome::AlreadyRegistered => "agent already registered with this key"@,
            RegisterOutcome::Conflict => "agent ID already registered with a different key"@,
            RegisterOutcome::Registered => "agent registered"@,
        }
    }

    /// The HTTP status code for this outcome.
    pub fn http_status(&self) -> (r: u16)
        ensures
            r == self.spec_status(),
    {
        match self {
            RegisterOutcome::InvalidKey => 400,
            RegisterOutcome::AlreadyRegistered => 200,
            RegisterOutcome::Conflict => 409,
            RegisterOutcome::Registered => 201,
        }
    }

    /// The response body text for this outcome.
    pub fn message(&self) -> (r: String)
        ensures
            r@ == self.spec_message(),
    {
        match self {
            RegisterOutcome::InvalidKey => String::from_str("invalid public key hex"),
            RegisterOutcome::AlreadyRegistered => String::from_str(
                "agent already registered with this key",
            ),
            RegisterOutcome::Conflict => String::from_str(
                "agent ID already registered with a different key",
            ),
            RegisterOutcome::Registered => String::from_str("agent registered"),
        }
    }
}

impl RotateOutcome {
    /// The HTTP status a rotation outcome is reported with.
    pub open spec fn spec_status(self) -> u16 {
        match self {
            RotateOutcome::NotFound => 404,
            RotateOutcome::StoredKeyInvalid => 500,
            RotateOutcome::InvalidNewKey => 400,
            RotateOutcome::InvalidSignature => 400,
            RotateOutcome::Unauthorized => 401,
            RotateOutcome::Rotated => 200,
        }
    }

    /// The response body text of a rotation outcome.
    pub open spec fn spec_message(self) -> Seq<char> {
        match self {
            RotateOutcome::NotFound => "agent not registered"@,
            RotateOutcome::StoredKeyInvalid => "stored public key is invalid"@,
            RotateOutcome::InvalidNewKey => "invalid public key hex"@,
            RotateOutcome::InvalidSignature => "invalid signature hex"@,
            RotateOutcome::Unauthorized => "rotation signature invalid"@,
            RotateOutcome::Rotated => "agent key rotated"@,
        }
    }

    /// The HTTP status code for this outcome.
    pub fn http_status(&self) -> (r: u16)
        ensures
            r == self.spec_status(),
    {
        match self {
            RotateOutcome::NotFound => 404,
            RotateOutcome::StoredKeyInvalid => 500,
            RotateOutcome::InvalidNewKey => 400,
            RotateOutcome::InvalidSignature => 400,
            RotateOutcome::Unauthorized => 401,
            RotateOutcome::Rotated => 200,
        }
    }

    /// The response body text for this outcome.
    pub fn message(&self) -> (r: String)
        ensures
            r@ == self.spec_message(),
    {
        match self {
            RotateOutcome::NotFound => String::from_str("agent not registered"),
            RotateOutcome::StoredKeyInvalid => String::from_str("stored public key is invalid"),
            RotateOutcome::InvalidNewKey => String::from_str("invalid public key hex"),
            RotateOutcome::InvalidSignature => String::from_str("invalid signature hex"),
            RotateOutcome::Unauthorized => String::from_str("rotation signature invalid"),
            RotateOutcome::Rotated => String::from_str("agent key rotated"),
        }
    }
}

/// What a full submission request decides: the rate limit first, then the
/// configured bearer token, then the admission pipeline.
pub open spec fn spec_handle_submit(
    store: Store,
    limiter: RateLimiter,
    auth_token: Option<Seq<char>>,
    auth_header: Option<Seq<char>>,
    require_registration: bool,
    b: LogBatch,
    now_ms: u64,
    source: Seq<char>,
) -> SubmitOutcome {
    if !(spec_effective_count(limiter, source, now_ms) < limiter.max) {
        SubmitOutcome::RateLimited
    } else if (match auth_token {
        Some(t) => !(auth_header == Some("Bearer "@ + t)),
        None => false,
    }) {
        SubmitOutcome::Unauthorized
    } else {
        spec_admission(store, b, require_registration)
    }
}

/// One submission request, end to end: rate limit by source address, bearer
/// auth when configured, then the admission pipeline, atomically.
pub fn handle_submit(
    store: &mut Store,
    limiter: &mut RateLimiter,
    auth_token: Option<&String>,
    auth_header: Option<&String>,
    require_registration: bool,
    batch: &LogBatch,
    now: i64,
    now_ms: u64,
    source: &str,
) -> (r: SubmitOutcome)
    requires
        old(store).wf(),
        old(store).next_id < i64::MAX,
        old(limiter).wf(),
    ensures
        final(store).wf(),
        final(limiter).wf(),
        r == spec_handle_submit(
            *old(store),
            *old(limiter),
            (match auth_token {
                Some(t) => Some(t@),
                None => None,
            }),
            (match auth_header {
                Some(h) => Some(h@),
                None => None,
            }),
            require_registration,
            *batch,
            now_ms,
            source@,
        ),
        spec_allow_transition(
            *old(limiter),
            *final(limiter),
            source@,
            now_ms,
            !(r is RateLimited),
        ),
        (r is RateLimited || r is Unauthorized) ==> *final(store) == *old(store),
        !(r is RateLimited) && !(r is Unauthorized) ==> spec_submit_transition(
            *old(store),
            *final(store),
            *batch,
            r,
            now,
            source@,
        ),
        old(store).crypto_ok() ==> final(store).crypto_ok(),
        old(store).keys_ok() ==> final(store).keys_ok(),
{
    if !limiter.allow(source, now_ms) {
        return SubmitOutcome::RateLimited;
    }
    match auth_token {
        Some(expected) => {
            if !valid_auth(auth_header, expected.as_str()) {
                return SubmitOutcome::Unauthorized;
            }
        },
        None => {},
    }
    store.submit(batch, require_registration, now, source)
}

/// Whether the request's `Authorization` header value is exactly
/// `Bearer <expected>`.
pub fn valid_auth(header: Option<&String>, expected: &str) -> (r: bool)
    ensures
        r == (match header {
            Some(h) => h@ == "Bearer "@ + expected@,
            None => false,
        }),
{
    let h = match header {
        Some(h) => h,
        None => {
            return false;
        },
    };
    let hb = h.as_str().as_bytes();
    let pb = "Bearer ".as_bytes();
    let eb = expected.as_bytes();
    proof {
        lemma_encode_utf8_concat("Bearer "@, expected@);
    }
    if hb.len() < pb.len() || hb.len() - pb.len() != eb.len() {
        return false;
    }
    if !matches_at(hb, pb, 0) {
        proof {
            if h@ == "Bearer "@ + expected@ {
                assert(hb@.subrange(0, 0 + pb@.len() as int) =~= pb@);
            }
        }
        return false;
    }
    if !matches_at(hb, eb, pb.len()) {
        proof {
            if h@ == "Bearer "@ + expected@ {
                assert(hb@.subrange(pb@.len() as int, pb@.len() as int + eb@.len() as int)
                    =~= eb@);
            }
        }
        return false;
    }
    proof {
        assert(hb@ =~= pb@ + eb@);
        broadcast use vstd::utf8::encode_utf8_decode_utf8;

        assert(vstd::utf8::decode_utf8(encode_utf8(h@)) == h@);
        assert(vstd::utf8::decode_utf8(encode_utf8("Bearer "@ + expected@)) == "Bearer "@
            + expected@);
    }
    true
}

} // verus!
