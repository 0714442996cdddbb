//! The collector's append-only store: one row per admitted batch, one
//! registry entry per agent, and the invariants that hold of them at every
//! instant — contiguous per-agent sequence numbers, hash-chain linkage, and
//! per-agent uniqueness of content hashes.

use vstd::prelude::*;
use crate::codec::{LogBatch, spec_digest, spec_batch_verifies};
use crate::crypto::{ed_verifies, ed_pk_ok};
use crate::strutil::str_eq;

verus! {

/// One admitted batch as stored: the batch fields, the digest the collector
/// recomputed (never the one from the wire), the log lines also as JSON text
/// (kept plain for substring search) and gzip-compressed, and bookkeeping.
pub struct StoredRow {
    pub id: i64,
    pub agent_id: String,
    pub seq: u64,
    pub prev_hash: Vec<u8>,
    pub hash: Vec<u8>,
    pub logs: Vec<String>,
    pub logs_json: String,
    pub logs_compressed: Vec<u8>,
    pub timestamp: u64,
    pub signature: Vec<u8>,
    pub public_key: Vec<u8>,
    pub received_at: i64,
    pub source: String,
}

/// One registry entry: the key an agent is currently bound to.
pub struct AgentEntry {
    pub agent_id: String,
    pub public_key: Vec<u8>,
    pub created_at: i64,
}

/// The append-only store.  Rows are only ever appended; `next_id` is the
/// storage identifier the next admitted batch will get.
pub struct Store {
    pub rows: Vec<StoredRow>,
    pub agents: Vec<AgentEntry>,
    pub next_id: i64,
}

/// The all-zero 32-byte digest that starts every agent's chain.
pub open spec fn zero_hash() -> Seq<u8> {
    Seq::new(32, |i: int| 0u8)
}

/// The batch a stored row denotes.
pub open spec fn row_batch(r: StoredRow) -> LogBatch {
    LogBatch {
        prev_hash: r.prev_hash,
        logs: r.logs,
        timestamp: r.timestamp,
        agent_id: r.agent_id,
        seq: r.seq,
        signature: r.signature,
        public_key: r.public_key,
    }
}

/// The rows of one agent, in storage order.
pub open spec fn rows_of(rows: Seq<StoredRow>, agent: Seq<char>) -> Seq<StoredRow>
    decreases rows.len(),
{
    if rows.len() == 0 {
        Seq::empty()
    } else {
        let rest = rows_of(rows.drop_last(), agent);
        if rows.last().agent_id@ == agent {
            rest.push(rows.last())
        } else {
            rest
        }
    }
}

/// An agent has at most as many rows as the store.
pub proof fn lemma_rows_of_len(rows: Seq<StoredRow>, agent: Seq<char>)
    ensures
        rows_of(rows, agent).len() <= rows.len(),
    decreases rows.len(),
{
    if rows.len() > 0 {
        lemma_rows_of_len(rows.drop_last(), agent);
    }
}

/// An agent none of the rows belong to has no rows.
pub proof fn lemma_rows_of_absent(rows: Seq<StoredRow>, agent: Seq<char>)
    requires
        forall|i: int| 0 <= i < rows.len() ==> (#[trigger] rows[i]).agent_id@ != agent,
    ensures
        rows_of(rows, agent).len() == 0,
    decreases rows.len(),
{
    if rows.len() > 0 {
        assert(rows[rows.len() - 1].agent_id@ != agent);
        assert forall|i: int| 0 <= i < rows.drop_last().len() implies (#[trigger] rows.drop_last()[i]).agent_id@
            != agent by {
            assert(rows.drop_last()[i] == rows[i]);
        }
        lemma_rows_of_absent(rows.drop_last(), agent);
    }
}

/// The registry entry of an agent, if any.
pub open spec fn spec_lookup_agent(agents: Seq<AgentEntry>, agent: Seq<char>) -> Option<AgentEntry>
    decreases agents.len(),
{
    if agents.len() == 0 {
        None
    } else if agents.first().agent_id@ == agent {
        Some(agents.first())
    } else {
        spec_lookup_agent(agents.drop_first(), agent)
    }
}

/// Field lengths of a stored row: 32-byte hashes and key, 64-byte signature.
pub open spec fn row_sized(r: StoredRow) -> bool {
    &&& r.prev_hash@.len() == 32
    &&& r.hash@.len() == 32
    &&& r.public_key@.len() == 32
    &&& r.signature@.len() == 64
}

/// One agent's rows form a chain: sequence numbers are exactly 1, 2, ... in
/// storage order, the first row's `prev_hash` is all zero, and every later
/// row's `prev_hash` equals the stored hash of the row before it.
pub open spec fn chain_ok(f: Seq<StoredRow>) -> bool {
    forall|k: int|
        0 <= k < f.len() ==> {
            &&& (#[trigger] f[k]).seq == k + 1
            &&& f[k].prev_hash@ == (if k == 0 {
                zero_hash()
            } else {
                f[k - 1].hash@
            })
        }
}

impl Store {
    /// The structural store invariant: storage identifiers strictly increase
    /// and stay below `next_id`; every row is well-sized; every agent's rows
    /// chain up; no agent stores the same content hash twice; registry
    /// entries have distinct agents and 32-byte keys.
    pub open spec fn wf(self) -> bool {
        &&& forall|i: int, j: int|
            0 <= i < j < self.rows@.len() ==> self.rows@[i].id < self.rows@[j].id
        &&& forall|i: int| 0 <= i < self.rows@.len() ==> (#[trigger] self.rows@[i]).id < self.next_id
        &&& forall|i: int| 0 <= i < self.rows@.len() ==> row_sized(#[trigger] self.rows@[i])
        &&& forall|a: Seq<char>| chain_ok(#[trigger] rows_of(self.rows@, a))
        &&& forall|i: int, j: int|
            0 <= i < j < self.rows@.len() && self.rows@[i].agent_id@ == self.rows@[j].agent_id@
                ==> self.rows@[i].hash@ != self.rows@[j].hash@
        &&& forall|i: int, j: int|
            0 <= i < j < self.agents@.len() ==> self.agents@[i].agent_id@
                != self.agents@[j].agent_id@
        &&& forall|i: int|
            0 <= i < self.agents@.len() ==> (#[trigger] self.agents@[i]).public_key@.len() == 32
    }

    /// The cryptographic store invariant, maintained by admission but not
    /// assumed by it: every stored hash is the digest of the row's batch, and
    /// every row's signature verifies under the row's key.
    pub open spec fn crypto_ok(self) -> bool {
        forall|i: int|
            0 <= i < self.rows@.len() ==> {
                &&& (#[trigger] self.rows@[i]).hash@ == spec_digest(row_batch(self.rows@[i]))
                &&& spec_batch_verifies(row_batch(self.rows@[i]))
            }
    }

    /// Registry keys decode to valid Ed25519 points; maintained by
    /// registration, auto-enrolment and rotation, but not assumed.
    pub open spec fn keys_ok(self) -> bool {
        forall|i: int|
            0 <= i < self.agents@.len() ==> ed_pk_ok((#[trigger] self.agents@[i]).public_key@)
    }

    /// An empty store, with storage identifiers starting at 1.
    pub fn new() -> (s: Store)
        ensures
            s.wf(),
            s.crypto_ok(),
            s.keys_ok(),
            s.rows@.len() == 0,
            s.agents@.len() == 0,
            s.next_id == 1,
    {
        Store { rows: Vec::new(), agents: Vec::new(), next_id: 1 }
    }

    /// Finds the registry entry for an agent.
    pub fn find_agent(&self, agent_id: &str) -> (r: Option<usize>)
        ensures
            match r {
                Some(i) => i < self.agents@.len() && self.agents@[i as int].agent_id@ == agent_id@
                    && spec_lookup_agent(self.agents@, agent_id@) == Some(self.agents@[i as int]),
                None => spec_lookup_agent(self.agents@, agent_id@) is None,
            },
    {
        let n = self.agents.len();
        let mut i: usize = 0;
        proof {
            assert(self.agents@.skip(0) =~= self.agents@);
        }
        while i < n
            invariant
                n == self.agents@.len(),
                i <= n,
                spec_lookup_agent(self.agents@, agent_id@) == spec_lookup_agent(
                    self.agents@.skip(i as int),
                    agent_id@,
                ),
            decreases n - i,
        {
            proof {
                assert(self.agents@.skip(i as int).first() == self.agents@[i as int]);
                assert(self.agents@.skip(i as int).drop_first() =~= self.agents@.skip(i + 1));
            }
            if str_eq(self.agents[i].agent_id.as_str(), agent_id) {
                return Some(i);
            }
            i = i + 1;
        }
        proof {
            assert(self.agents@.skip(n as int) =~= Seq::<AgentEntry>::empty());
        }
        None
    }

    /// Finds the index of the agent's last row, the one its next batch must
    /// chain from.
    pub fn last_row_for(&self, agent_id: &str) -> (r: Option<usize>)
        ensures
            match r {
                Some(i) => {
                    &&& i < self.rows@.len()
                    &&& rows_of(self.rows@, agent_id@).len() > 0
                    &&& self.rows@[i as int] == rows_of(self.rows@, agent_id@).last()
                },
                None => rows_of(self.rows@, agent_id@).len() == 0,
            },
    {
        let n = self.rows.len();
        let mut best: Option<usize> = None;
        let mut i: usize = 0;
        while i < n
            invariant
                n == self.rows@.len(),
                i <= n,
                match best {
                    Some(j) => {
                        &&& j < i
                        &&& rows_of(self.rows@.take(i as int), agent_id@).len() > 0
                        &&& self.rows@[j as int] == rows_of(
                            self.rows@.take(i as int),
                            agent_id@,
                        ).last()
                    },
                    None => rows_of(self.rows@.take(i as int), agent_id@).len() == 0,
                },
            decreases n - i,
        {
            proof {
                assert(self.rows@.take(i + 1).drop_last() =~= self.rows@.take(i as int));
                assert(self.rows@.take(i + 1).last() == self.rows@[i as int]);
            }
            if str_eq(self.rows[i].agent_id.as_str(), agent_id) {
                best = Some(i);
            }
            i = i + 1;
        }
        proof {
            assert(self.rows@.take(n as int) =~= self.rows@);
        }
        best
    }

    /// Whether the agent already stores a row with this content hash.
    pub fn has_content(&self, agent_id: &str, hash: &Vec<u8>) -> (r: bool)
        ensures
            r == exists|i: int|
                0 <= i < self.rows@.len() && (#[trigger] self.rows@[i]).agent_id@ == agent_id@
                    && self.rows@[i].hash@ == hash@,
    {
        let n = self.rows.len();
        let mut i: usize = 0;
        while i < n
            invariant
                n == self.rows@.len(),
                i <= n,
                forall|k: int|
                    0 <= k < i ==> !((#[trigger] self.rows@[k]).agent_id@ == agent_id@
                        && self.rows@[k].hash@ == hash@),
            decreases n - i,
        {
            if str_eq(self.rows[i].agent_id.as_str(), agent_id) && bytes_eq(&self.rows[i].hash,
                hash) {
                return true;
            }
            i = i + 1;
        }
        false
    }

    /// Finds the row with a given storage identifier.
    pub fn row_by_id(&self, id: i64) -> (r: Option<usize>)
        ensures
            match r {
                Some(i) => i < self.rows@.len() && self.rows@[i as int].id == id,
                None => forall|k: int|
                    0 <= k < self.rows@.len() ==> (#[trigger] self.rows@[k]).id != id,
            },
    {
        let n = self.rows.len();
        let mut i: usize = 0;
        while i < n
            invariant
                n == self.rows@.len(),
                i <= n,
                forall|k: int| 0 <= k < i ==> (#[trigger] self.rows@[k]).id != id,
            decreases n - i,
        {
            if self.rows[i].id == id {
                return Some(i);
            }
            i = i + 1;
        }
        None
    }
}

/// Byte-string equality.
pub fn bytes_eq(a: &Vec<u8>, b: &Vec<u8>) -> (r: bool)
    ensures
        r == (a@ == b@),
{
    if a.len() != b.len() {
        return false;
    }
    let mut i: usize = 0;
    while i < a.len()
        invariant
            a@.len() == b@.len(),
            i <= a@.len(),
            forall|k: int| 0 <= k < i ==> a@[k] == b@[k],
        decreases a@.len() - i,
    {
        if a[i] != b[i] {
            return false;
        }
        i = i + 1;
    }
    proof {
        assert(a@ =~= b@);
    }
    true
}

/// Copies a byte string.
pub fn clone_bytes(v: &Vec<u8>) -> (r: Vec<u8>)
    ensures
        r@ == v@,
{
    let mut out: Vec<u8> = Vec::new();
    let mut i: usize = 0;
    while i < v.len()
        invariant
            i <= v@.len(),
            out@ == v@.take(i as int),
        decreases v@.len() - i,
    {
        out.push(v[i]);
        proof {
            assert(v@.take(i + 1) =~= v@.take(i as int).push(v@[i as int]));
        }
        i = i + 1;
    }
    proof {
        assert(v@.take(v@.len() as int) =~= v@);
    }
    out
}

/// Copies a list of lines.
pub fn clone_lines(v: &Vec<String>) -> (r: Vec<String>)
    ensures
        r@ == v@,
{
    let mut out: Vec<String> = Vec::new();
    let mut i: usize = 0;
    while i < v.len()
        invariant
            i <= v@.len(),
            out@ == v@.take(i as int),
        decreases v@.len() - i,
    {
        out.push(v[i].clone());
        proof {
            assert(v@.take(i + 1) =~= v@.take(i as int).push(v@[i as int]));
        }
        i = i + 1;
    }
    proof {
        assert(v@.take(v@.len() as int) =~= v@);
    }
    out
}

} // verus!
