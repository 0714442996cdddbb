//! The store's laws, stated and proved on their own: what holds at every
//! instant the store is observed, and how admission answers re-sends and
//! failures.  Each law is phrased over the same spec functions the
//! operations' own contracts use.

use vstd::prelude::*;
use crate::admission::{SubmitOutcome, spec_admission, spec_submit_transition};
use crate::codec::{LogBatch, spec_digest, spec_batch_verifies};
use crate::store::{Store, rows_of, row_batch, chain_ok, spec_lookup_agent};

verus! {

/// Some row of the agent carries the sequence number `v`.
pub open spec fn spec_seq_taken(s: Store, agent: Seq<char>, v: int) -> bool {
    exists|k: int|
        0 <= k < rows_of(s.rows@, agent).len() && (#[trigger] rows_of(s.rows@, agent)[k]).seq == v
}

/// Law: for every agent, the stored sequence numbers are exactly the set
/// 1..N — each row's number is in range, no two rows share one, and every
/// number in range is taken.
pub proof fn lemma_seq_exactly_one_to_n(s: Store, agent: Seq<char>)
    requires
        s.wf(),
    ensures
        forall|k: int|
            0 <= k < rows_of(s.rows@, agent).len() ==> 1 <= (#[trigger] rows_of(
                s.rows@,
                agent,
            )[k]).seq <= rows_of(s.rows@, agent).len(),
        forall|k1: int, k2: int|
            0 <= k1 < k2 < rows_of(s.rows@, agent).len() ==> rows_of(s.rows@, agent)[k1].seq
                != rows_of(s.rows@, agent)[k2].seq,
        forall|v: int|
            1 <= v <= rows_of(s.rows@, agent).len() ==> #[trigger] spec_seq_taken(s, agent, v),
{
    {
        let f = rows_of(s.rows@, agent);
        assert(chain_ok(f));
        assert forall|k: int| 0 <= k < f.len() implies 1 <= (#[trigger] f[k]).seq <= f.len() by {
            assert(f[k].seq == k + 1);
        }
        assert forall|k1: int, k2: int| 0 <= k1 < k2 < f.len() implies f[k1].seq != f[k2].seq by {
            assert(f[k1].seq == k1 + 1);
            assert(f[k2].seq == k2 + 1);
        }
        assert forall|v: int| 1 <= v <= f.len() implies #[trigger] spec_seq_taken(
            s,
            agent,
            v,
        ) by {
            assert(f[v - 1].seq == v);
        }
    }
}

/// Law: for every agent, adjacent rows link — each row's `prev_hash` is the
/// stored hash of the row before it, and the first row's is all zero.
pub proof fn lemma_chain_linked(s: Store, agent: Seq<char>, k: int)
    ensures
        s.wf() && 0 < k < rows_of(s.rows@, agent).len() ==> rows_of(s.rows@, agent)[k].prev_hash@
            == rows_of(s.rows@, agent)[k - 1].hash@,
        s.wf() && 0 < rows_of(s.rows@, agent).len() ==> rows_of(s.rows@, agent)[0].prev_hash@
            == crate::store::zero_hash(),
{
    if s.wf() {
        assert(chain_ok(rows_of(s.rows@, agent)));
    }
}

/// Law: in a store whose cryptographic invariant holds — established empty
/// and preserved by every admission — each stored hash is the digest of the
/// row's batch, and each row's signature verifies under the row's key.
pub proof fn lemma_rows_authentic(s: Store, i: int)
    ensures
        s.crypto_ok() && 0 <= i < s.rows@.len() ==> ({
            &&& s.rows@[i].hash@ == spec_digest(row_batch(s.rows@[i]))
            &&& spec_batch_verifies(row_batch(s.rows@[i]))
        }),
{
}

/// Law (idempotent retransmit): re-submitting a batch whose content the
/// agent already stores — its signature still verifying and its key still
/// the registered one — answers `Duplicate`, and a `Duplicate` answer
/// leaves the store exactly as it was.
pub proof fn lemma_idempotent_retransmit(s: Store, b: LogBatch, require_registration: bool)
    ensures
        ({
            &&& spec_batch_verifies(b)
            &&& (match spec_lookup_agent(s.agents@, b.agent_id@) {
                Some(e) => e.public_key@ == b.public_key@,
                None => !require_registration,
            })
            &&& (exists|i: int|
                0 <= i < s.rows@.len() && (#[trigger] s.rows@[i]).agent_id@ == b.agent_id@
                    && s.rows@[i].hash@ == spec_digest(b))
        }) ==> spec_admission(s, b, require_registration) == SubmitOutcome::Duplicate,
        forall|post: Store, now: i64, source: Seq<char>|
            spec_submit_transition(s, post, b, SubmitOutcome::Duplicate, now, source) ==> post
                == s,
{
}

/// Law (admission atomicity): any outcome other than `Created` leaves the
/// store — rows, registry and identifier counter — exactly as it was.
pub proof fn lemma_admission_atomic(
    s: Store,
    post: Store,
    b: LogBatch,
    r: SubmitOutcome,
    now: i64,
    source: Seq<char>,
)
    ensures
        spec_submit_transition(s, post, b, r, now, source) && !(r is Created) ==> post == s,
{
}

} // verus!
