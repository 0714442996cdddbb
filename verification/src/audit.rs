//! The auditor: pulls the served listing, partitions it by agent, sorts each
//! partition by sequence number, and re-checks every signature, the sequence
//! numbering, the hash chain, and every stored hash.  A run with no failure
//! is the system's positive integrity statement, and its contract says
//! exactly that.

use vstd::prelude::*;
use crate::codec::{spec_digest, spec_batch_verifies};
use crate::query::QueryBatch;
use crate::store::{zero_hash, bytes_eq};
use crate::strutil::str_eq;

verus! {

/// Which of the auditor's four checks failed.
pub enum AuditFailure {
    /// The batch signature does not verify.
    InvalidSignature,
    /// The expected sequence number, and the one found.
    SeqMismatch(u64, u64),
    /// `prev_hash` does not equal the digest of the predecessor.
    PrevHashMismatch,
    /// The stored hash does not equal the recomputed digest.
    HashMismatch,
}

/// The auditor's answer: every chain checks out, or the first failure found
/// — the row's storage identifier, its agent, and what went wrong.
pub enum AuditOutcome {
    Valid,
    Invalid(i64, String, AuditFailure),
}

/// What a clean audit of a served listing means, stated over the listing
/// itself: every entry's signature verifies and its stored hash is its
/// digest; within each agent the sequence numbers are distinct, start at 1,
/// have no gaps, successors link by `prev_hash` to the predecessor's digest,
/// and the first batch links to the all-zero hash.
pub open spec fn spec_audit_ok(chain: Seq<QueryBatch>) -> bool {
    &&& forall|i: int|
        0 <= i < chain.len() ==> spec_batch_verifies((#[trigger] chain[i]).batch)
    &&& forall|i: int|
        0 <= i < chain.len() ==> (#[trigger] chain[i]).hash@ == spec_digest(chain[i].batch)
    &&& forall|i: int| 0 <= i < chain.len() ==> (#[trigger] chain[i]).batch.seq >= 1
    &&& forall|i: int, j: int|
        0 <= i < chain.len() && 0 <= j < chain.len() && i != j && (#[trigger] chain[i]).batch.agent_id@
            == (#[trigger] chain[j]).batch.agent_id@ ==> chain[i].batch.seq != chain[j].batch.seq
    &&& forall|i: int|
        0 <= i < chain.len() && (#[trigger] chain[i]).batch.seq > 1 ==> exists|j: int|
            0 <= j < chain.len() && (#[trigger] chain[j]).batch.agent_id@
                == chain[i].batch.agent_id@ && chain[j].batch.seq == chain[i].batch.seq - 1
    &&& forall|i: int, j: int|
        0 <= i < chain.len() && 0 <= j < chain.len() && (#[trigger] chain[i]).batch.agent_id@ == (
        #[trigger] chain[j]).batch.agent_id@ && chain[j].batch.seq == chain[i].batch.seq + 1
            ==> chain[j].batch.prev_hash@ == spec_digest(chain[i].batch)
    &&& forall|i: int|
        0 <= i < chain.len() && (#[trigger] chain[i]).batch.seq == 1 ==> chain[i].batch.prev_hash@
            == zero_hash()
}

/// `order` lists exactly the positions of one agent's entries, each once,
/// with sequence numbers ascending.
pub open spec fn spec_partition_order(
    chain: Seq<QueryBatch>,
    agent: Seq<char>,
    order: Seq<usize>,
) -> bool {
    &&& forall|k: int|
        0 <= k < order.len() ==> (#[trigger] order[k]) < chain.len() && chain[order[k] as int].batch.agent_id@
            == agent
    &&& forall|j: int|
        0 <= j < chain.len() && (#[trigger] chain[j]).batch.agent_id@ == agent ==> exists|k: int|
            0 <= k < order.len() && #[trigger] order[k] == j
    &&& forall|k1: int, k2: int| 0 <= k1 < k2 < order.len() ==> order[k1] != order[k2]
    &&& forall|k1: int, k2: int|
        0 <= k1 < k2 < order.len() ==> chain[#[trigger] order[k1] as int].batch.seq
            <= chain[#[trigger] order[k2] as int].batch.seq
}

/// The agent of the listing entry at `i` appears in the collected list.
pub open spec fn spec_agent_listed(chain: Seq<QueryBatch>, agents: Seq<String>, i: int) -> bool {
    exists|x: int| 0 <= x < agents.len() && (#[trigger] agents[x])@ == chain[i].batch.agent_id@
}

/// Some sorted partition of the agent passes every one of the walk's checks.
pub open spec fn spec_partition_passes(chain: Seq<QueryBatch>, agent: Seq<char>) -> bool {
    exists|order: Seq<usize>|
        #[trigger] spec_partition_order(chain, agent, order) && (forall|k: int|
            0 <= k < order.len() ==> spec_entry_ok(chain, order, k))
}

/// The auditor's four checks at one position of a sorted partition.
pub open spec fn spec_entry_ok(chain: Seq<QueryBatch>, order: Seq<usize>, k: int) -> bool {
    &&& spec_batch_verifies(chain[order[k] as int].batch)
    &&& chain[order[k] as int].batch.seq == k + 1
    &&& chain[order[k] as int].batch.prev_hash@ == (if k == 0 {
        zero_hash()
    } else {
        spec_digest(chain[order[k - 1] as int].batch)
    })
    &&& chain[order[k] as int].hash@ == spec_digest(chain[order[k] as int].batch)
}

/// The positions of one agent's entries, sorted by sequence number.
fn agent_positions(chain: &Vec<QueryBatch>, agent: &str) -> (order: Vec<usize>)
    ensures
        spec_partition_order(chain@, agent@, order@),
{
    let n = chain.len();
    let mut order: Vec<usize> = Vec::new();
    let mut j: usize = 0;
    while j < n
        invariant
            n == chain@.len(),
            j <= n,
            forall|k: int|
                0 <= k < order@.len() ==> (#[trigger] order@[k]) < j && chain@[order@[k] as int].batch.agent_id@
                    == agent@,
            forall|jj: int|
                0 <= jj < j && (#[trigger] chain@[jj]).batch.agent_id@ == agent@ ==> exists|k: int|
                    0 <= k < order@.len() && #[trigger] order@[k] == jj,
            forall|k1: int, k2: int| 0 <= k1 < k2 < order@.len() ==> order@[k1] != order@[k2],
            forall|k1: int, k2: int|
                0 <= k1 < k2 < order@.len() ==> chain@[#[trigger] order@[k1] as int].batch.seq
                    <= chain@[#[trigger] order@[k2] as int].batch.seq,
        decreases n - j,
    {
        if str_eq(chain[j].batch.agent_id.as_str(), agent) {
            let m = order.len();
            let mut pos: usize = 0;
            loop
                invariant_except_break
                    n == chain@.len(),
                    j < n,
                    m == order@.len(),
                    pos <= m,
                    forall|k: int| 0 <= k < order@.len() ==> (#[trigger] order@[k]) < j,
                    forall|k: int|
                        0 <= k < pos ==> chain@[#[trigger] order@[k] as int].batch.seq
                            <= chain@[j as int].batch.seq,
                ensures
                    pos <= m,
                    forall|k: int|
                        0 <= k < pos ==> chain@[#[trigger] order@[k] as int].batch.seq
                            <= chain@[j as int].batch.seq,
                    pos < m ==> chain@[j as int].batch.seq < chain@[order@[pos as int] as int].batch.seq,
                decreases m - pos,
            {
                if pos == m {
                    break;
                }
                if chain[order[pos]].batch.seq > chain[j].batch.seq {
                    break;
                }
                pos = pos + 1;
            }
            let ghost order_before = order@;
            order.insert(pos, j);
            proof {
                assert(order@ == order_before.insert(pos as int, j as usize));
                assert(forall|k: int| 0 <= k < pos ==> order@[k] == order_before[k]);
                assert(order@[pos as int] == j as usize);
                assert(forall|k: int| pos < k < order@.len() ==> order@[k] == order_before[k - 1]);
                assert forall|jj: int|
                    0 <= jj < j + 1 && (#[trigger] chain@[jj]).batch.agent_id@ == agent@
                        implies exists|k: int| 0 <= k < order@.len() && #[trigger] order@[k]
                    == jj by {
                    if jj == j {
                        assert(order@[pos as int] == jj as usize);
                    } else {
                        let k0 = choose|k0: int|
                            0 <= k0 < order_before.len() && #[trigger] order_before[k0]
                                == jj as usize;
                        if k0 < pos {
                            assert(order@[k0] == jj as usize);
                        } else {
                            assert(order@[k0 + 1] == jj as usize);
                        }
                    }
                }
            }
        }
        j = j + 1;
    }
    order
}

/// Walks one agent's sorted partition, re-checking signature, sequence
/// number, chain linkage and stored hash; reports the first failure.
fn audit_agent(chain: &Vec<QueryBatch>, order: &Vec<usize>, agent: Ghost<Seq<char>>) -> (r: Option<
    (i64, AuditFailure),
>)
    requires
        spec_partition_order(chain@, agent@, order@),
    ensures
        r is None <==> (forall|k: int|
            0 <= k < order@.len() ==> spec_entry_ok(chain@, order@, k)),
        r is Some ==> !spec_audit_ok(chain@),
{
    let n = order.len();
    let mut expected_prev: Vec<u8> = vec![0u8; 32];
    proof {
        assert(expected_prev@ =~= zero_hash());
    }
    let mut k: usize = 0;
    while k < n
        invariant
            spec_partition_order(chain@, agent@, order@),
            n == order@.len(),
            k <= n,
            forall|kk: int| 0 <= kk < k ==> spec_entry_ok(chain@, order@, kk),
            expected_prev@ == (if k == 0 {
                zero_hash()
            } else {
                spec_digest(chain@[order@[k - 1] as int].batch)
            }),
        decreases n - k,
    {
        let idx = order[k];
        let entry = &chain[idx];
        let expected_seq: u64 = (k as u64) + 1;

        if !entry.batch.verify() {
            proof {
                assert(!spec_entry_ok(chain@, order@, k as int));
            }
            return Some((entry.id, AuditFailure::InvalidSignature));
        }

        if entry.batch.seq != expected_seq {
            proof {
                assert(!spec_entry_ok(chain@, order@, k as int));
                lemma_seq_failure(chain@, agent@, order@, k as int);
            }
            return Some((entry.id, AuditFailure::SeqMismatch(expected_seq, entry.batch.seq)));
        }

        if !bytes_eq(&entry.batch.prev_hash, &expected_prev) {
            proof {
                assert(!spec_entry_ok(chain@, order@, k as int));
                if k == 0 {
                    assert(chain@[order@[0] as int].batch.seq == 1);
                } else {
                    assert(spec_entry_ok(chain@, order@, k - 1));
                    let i = order@[k - 1] as int;
                    let j = order@[k as int] as int;
                    assert(chain@[j].batch.seq == chain@[i].batch.seq + 1);
                    assert(chain@[j].batch.prev_hash@ != spec_digest(chain@[i].batch));
                }
            }
            return Some((entry.id, AuditFailure::PrevHashMismatch));
        }

        let computed = entry.batch.compute_hash();
        if !bytes_eq(&computed, &entry.hash) {
            proof {
                assert(!spec_entry_ok(chain@, order@, k as int));
            }
            return Some((entry.id, AuditFailure::HashMismatch));
        }

        expected_prev = computed;
        k = k + 1;
    }
    None
}

/// A sequence-number mismatch at the first failing position refutes the
/// listing-level statement: the culprit is a zero, a duplicate, or a gap.
proof fn lemma_seq_failure(
    chain: Seq<QueryBatch>,
    agent: Seq<char>,
    order: Seq<usize>,
    k: int,
)
    requires
        spec_partition_order(chain, agent, order),
        0 <= k < order.len(),
        forall|kk: int| 0 <= kk < k ==> spec_entry_ok(chain, order, kk),
        chain[order[k] as int].batch.seq != k + 1,
    ensures
        !spec_audit_ok(chain),
{
    let s = chain[order[k] as int].batch.seq as int;
    let i = order[k] as int;
    if k > 0 {
        assert(spec_entry_ok(chain, order, k - 1));
        assert(chain[order[k - 1] as int].batch.seq == k);
        assert(chain[order[k - 1] as int].batch.seq <= chain[order[k] as int].batch.seq);
    }
    if s < 1 {
        assert(!(chain[i].batch.seq >= 1));
    } else if k > 0 && s == k {
        // Duplicate of the predecessor's sequence number.
        let i2 = order[k - 1] as int;
        assert(order[k - 1] != order[k]);
        assert(chain[i2].batch.agent_id@ == chain[i].batch.agent_id@);
        assert(chain[i2].batch.seq == chain[i].batch.seq);
        assert(!spec_audit_ok(chain));
    } else {
        // A gap: nothing carries the predecessor sequence number s - 1.
        assert(s >= k + 2) by {
            if k > 0 {
                assert(s >= k);
            }
        }
        if spec_audit_ok(chain) {
            assert(chain[i].batch.seq > 1);
            let j = choose|j: int|
                0 <= j < chain.len() && (#[trigger] chain[j]).batch.agent_id@
                    == chain[i].batch.agent_id@ && chain[j].batch.seq == chain[i].batch.seq - 1;
            let kj = choose|kj: int| 0 <= kj < order.len() && #[trigger] order[kj] == j as usize;
            if kj < k {
                assert(spec_entry_ok(chain, order, kj));
                assert(chain[order[kj] as int].batch.seq == kj + 1);
                assert(kj + 1 <= k);
            } else if kj == k {
                assert(chain[j].batch.seq == s);
            } else {
                assert(chain[order[k] as int].batch.seq <= chain[order[kj] as int].batch.seq);
            }
            assert(false);
        }
    }
}

/// Audits a served listing: partitions it by agent, sorts each partition by
/// sequence number, and walks the four checks.  Answers `Valid` exactly when
/// the listing-level integrity statement holds.
pub fn verify_chain(chain: &Vec<QueryBatch>) -> (r: AuditOutcome)
    ensures
        r is Valid <==> spec_audit_ok(chain@),
{
    let agents = collect_agents(chain);
    let n = agents.len();
    let mut a: usize = 0;
    while a < n
        invariant
            n == agents@.len(),
            forall|i: int| 0 <= i < chain@.len() ==> spec_agent_listed(chain@, agents@, i),
            a <= n,
            forall|x: int|
                0 <= x < a ==> spec_partition_passes(chain@, (#[trigger] agents@[x])@),
        decreases n - a,
    {
        let order = agent_positions(chain, agents[a].as_str());
        match audit_agent(chain, &order, Ghost(agents@[a as int]@)) {
            Some((id, failure)) => {
                return AuditOutcome::Invalid(id, agents[a].clone(), failure);
            },
            None => {},
        }
        proof {
            assert(spec_partition_order(chain@, agents@[a as int]@, order@));
            assert(spec_partition_passes(chain@, agents@[a as int]@));
        }
        a = a + 1;
    }
    proof {
        lemma_all_agents_ok(chain@, agents@);
    }
    AuditOutcome::Valid
}

/// When every agent's sorted partition passes the walk, the listing-level
/// statement holds.
proof fn lemma_all_agents_ok(chain: Seq<QueryBatch>, agents: Seq<String>)
    requires
        forall|i: int| 0 <= i < chain.len() ==> spec_agent_listed(chain, agents, i),
        forall|x: int| 0 <= x < agents.len() ==> spec_partition_passes(chain, (#[trigger] agents[x])@),
    ensures
        spec_audit_ok(chain),
{
    assert forall|i: int| 0 <= i < chain.len() implies spec_batch_verifies(
        (#[trigger] chain[i]).batch,
    ) && chain[i].hash@ == spec_digest(chain[i].batch) && chain[i].batch.seq >= 1 by {
        let (order, k) = position_of(chain, agents, i);
        assert(spec_entry_ok(chain, order, k));
    }
    assert forall|i: int, j: int|
        0 <= i < chain.len() && 0 <= j < chain.len() && i != j && (#[trigger] chain[i]).batch.agent_id@
            == (#[trigger] chain[j]).batch.agent_id@ implies chain[i].batch.seq
        != chain[j].batch.seq by {
        let (order, ki) = position_of(chain, agents, i);
        let kj = choose|kj: int| 0 <= kj < order.len() && #[trigger] order[kj] == j as usize;
        assert(spec_entry_ok(chain, order, ki));
        assert(spec_entry_ok(chain, order, kj));
        assert(ki != kj);
    }
    assert forall|i: int|
        0 <= i < chain.len() && (#[trigger] chain[i]).batch.seq > 1 implies exists|j: int|
        0 <= j < chain.len() && (#[trigger] chain[j]).batch.agent_id@ == chain[i].batch.agent_id@
            && chain[j].batch.seq == chain[i].batch.seq - 1 by {
        let (order, ki) = position_of(chain, agents, i);
        assert(spec_entry_ok(chain, order, ki));
        assert(ki >= 1);
        assert(spec_entry_ok(chain, order, ki - 1));
        let j = order[ki - 1] as int;
        assert(0 <= j < chain.len() && chain[j].batch.agent_id@ == chain[i].batch.agent_id@
            && chain[j].batch.seq == chain[i].batch.seq - 1);
    }
    assert forall|i: int, j: int|
        0 <= i < chain.len() && 0 <= j < chain.len() && (#[trigger] chain[i]).batch.agent_id@ == (
        #[trigger] chain[j]).batch.agent_id@ && chain[j].batch.seq == chain[i].batch.seq + 1
            implies chain[j].batch.prev_hash@ == spec_digest(chain[i].batch) by {
        let (order, ki) = position_of(chain, agents, i);
        let kj = choose|kj: int| 0 <= kj < order.len() && #[trigger] order[kj] == j as usize;
        assert(spec_entry_ok(chain, order, ki));
        assert(spec_entry_ok(chain, order, kj));
        assert(kj == ki + 1);
    }
    assert forall|i: int|
        0 <= i < chain.len() && (#[trigger] chain[i]).batch.seq == 1 implies chain[i].batch.prev_hash@
        == zero_hash() by {
        let (order, ki) = position_of(chain, agents, i);
        assert(spec_entry_ok(chain, order, ki));
        assert(ki == 0);
    }
}

/// Picks, for a listing position, a passing sorted partition of its agent
/// and the entry's place in it.
proof fn position_of(chain: Seq<QueryBatch>, agents: Seq<String>, i: int) -> (r: (Seq<usize>, int))
    requires
        0 <= i < chain.len(),
        forall|ii: int| 0 <= ii < chain.len() ==> spec_agent_listed(chain, agents, ii),
        forall|x: int| 0 <= x < agents.len() ==> spec_partition_passes(chain, (#[trigger] agents[x])@),
    ensures
        spec_partition_order(chain, chain[i].batch.agent_id@, r.0),
        forall|k: int| 0 <= k < r.0.len() ==> spec_entry_ok(chain, r.0, k),
        0 <= r.1 < r.0.len(),
        r.0[r.1] == i as usize,
{
    assert(spec_agent_listed(chain, agents, i));
    let x = choose|x: int|
        0 <= x < agents.len() && (#[trigger] agents[x])@ == chain[i].batch.agent_id@;
    assert(spec_partition_passes(chain, agents[x]@));
    let order = choose|order: Seq<usize>|
        #[trigger] spec_partition_order(chain, agents[x]@, order) && (forall|k: int|
            0 <= k < order.len() ==> spec_entry_ok(chain, order, k));
    let ki = choose|ki: int| 0 <= ki < order.len() && #[trigger] order[ki] == i as usize;
    (order, ki)
}

/// The distinct agents of a listing, in first-appearance order.
fn collect_agents(chain: &Vec<QueryBatch>) -> (agents: Vec<String>)
    ensures
        forall|i: int| 0 <= i < chain@.len() ==> spec_agent_listed(chain@, agents@, i),
        forall|x1: int, x2: int|
            0 <= x1 < x2 < agents@.len() ==> agents@[x1]@ != agents@[x2]@,
{
    let n = chain.len();
    let mut agents: Vec<String> = Vec::new();
    let mut i: usize = 0;
    while i < n
        invariant
            n == chain@.len(),
            i <= n,
            forall|ii: int| 0 <= ii < i ==> spec_agent_listed(chain@, agents@, ii),
            forall|x1: int, x2: int|
                0 <= x1 < x2 < agents@.len() ==> agents@[x1]@ != agents@[x2]@,
        decreases n - i,
    {
        let ghost agents0 = agents@;
        let found = find_agent_name(&agents, chain[i].batch.agent_id.as_str());
        if found.is_none() {
            agents.push(chain[i].batch.agent_id.clone());
        }
        proof {
            assert forall|ii: int| 0 <= ii < i + 1 implies spec_agent_listed(
                chain@,
                agents@,
                ii,
            ) by {
                if ii < i {
                    assert(spec_agent_listed(chain@, agents0, ii));
                    let x0 = choose|x0: int|
                        0 <= x0 < agents0.len() && (#[trigger] agents0[x0])@
                            == chain@[ii].batch.agent_id@;
                    assert(agents@[x0]@ == chain@[ii].batch.agent_id@);
                } else {
                    match found {
                        Some(x) => {
                            assert(agents@[x as int]@ == chain@[ii].batch.agent_id@);
                        },
                        None => {
                            assert(agents@[agents@.len() - 1]@ == chain@[ii].batch.agent_id@);
                        },
                    }
                }
            }
        }
        i = i + 1;
    }
    agents
}

/// The auditor's command-line arguments.
pub struct CliArgs {
    pub server_url: Option<String>,
}

/// The value of the auditor's one flag, the last occurrence winning.
pub open spec fn spec_cli_server_url(args: Seq<Seq<char>>) -> Option<Seq<char>>
    decreases args.len(),
{
    if args.len() == 0 {
        None
    } else if args.first() == "--server-url"@ && args.len() >= 2 {
        let rest = spec_cli_server_url(args.skip(2));
        if rest is Some {
            rest
        } else {
            Some(args[1])
        }
    } else if args.first() == "--server-url"@ {
        None
    } else {
        spec_cli_server_url(args.skip(1))
    }
}

impl CliArgs {
    /// Parses the auditor's command line (program name already stripped):
    /// only `--server-url <url>` is recognised.
    pub fn parse(args: &Vec<String>) -> (r: CliArgs)
        ensures
            (match r.server_url {
                Some(s) => spec_cli_server_url(args.deep_view()) == Some(s@),
                None => spec_cli_server_url(args.deep_view()) is None,
            }),
    {
        let ghost av = args.deep_view();
        let mut server_url: Option<String> = None;
        let ghost mut raw: Option<Seq<char>> = None;
        let n = args.len();
        let mut i: usize = 0;
        proof {
            assert(av.skip(0) =~= av);
        }
        while i < n
            invariant
                n == av.len(),
                av == args.deep_view(),
                i <= n,
                (match spec_cli_server_url(av.skip(i as int)) {
                    Some(v) => spec_cli_server_url(av) == Some(v),
                    None => spec_cli_server_url(av) == raw,
                }),
                (match server_url {
                    Some(s) => raw == Some(s@),
                    None => raw is None,
                }),
            decreases n - i,
        {
            proof {
                assert(av.skip(i as int).first() == av[i as int]);
                assert(av.skip(i as int).skip(1) =~= av.skip(i + 1));
                if i + 2 <= n {
                    assert(av.skip(i as int).skip(2) =~= av.skip(i + 2));
                    assert(av.skip(i as int)[1] == av[i + 1]);
                }
                assert(av[i as int] == args@[i as int]@);
            }
            if str_eq(args[i].as_str(), "--server-url") {
                if i + 1 < n {
                    let value = args[i + 1].clone();
                    proof {
                        raw = Some(value@);
                    }
                    server_url = Some(value);
                    i = i + 2;
                } else {
                    i = n;
                }
            } else {
                i = i + 1;
            }
        }
        proof {
            assert(av.skip(n as int) =~= Seq::<Seq<char>>::empty());
        }
        CliArgs { server_url }
    }
}

/// Finds a name in a list of agent names.
fn find_agent_name(agents: &Vec<String>, name: &str) -> (r: Option<usize>)
    ensures
        match r {
            Some(x) => x < agents@.len() && agents@[x as int]@ == name@,
            None => forall|x: int| 0 <= x < agents@.len() ==> (#[trigger] agents@[x])@ != name@,
        },
{
    let n = agents.len();
    let mut x: usize = 0;
    while x < n
        invariant
            n == agents@.len(),
            x <= n,
            forall|k: int| 0 <= k < x ==> (#[trigger] agents@[k])@ != name@,
        decreases n - x,
    {
        if str_eq(agents[x].as_str(), name) {
            return Some(x);
        }
        x = x + 1;
    }
    None
}

} // verus!
