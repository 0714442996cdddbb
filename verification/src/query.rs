//! The query surface: listing with filters and deterministic ordering,
//! export by storage identifier, per-agent checkpoints, and lookup by id.

use vstd::prelude::*;
use vstd::utf8::{encode_utf8, decode_utf8, valid_utf8};
use crate::codec::LogBatch;
use crate::store::{Store, StoredRow, rows_of, row_sized, clone_bytes};
use crate::wire::{gunzip_of, lines_of_json, decompress_json, logs_from_json};
use crate::strutil::{spec_bytes_le, bytes_le, lemma_bytes_le_total, lemma_bytes_le_trans,
    spec_contains_bytes, str_contains, str_eq};

verus! {

/// A stored batch as served back: its storage identifier, the batch, and the
/// digest the collector stored for it.
pub struct QueryBatch {
    pub id: i64,
    pub batch: LogBatch,
    pub hash: Vec<u8>,
}

/// Why a read request failed.
#[derive(Debug)]
pub enum QueryError {
    /// No row has the requested identifier.
    NotFound,
    /// A stored row would not decode back into a batch.
    Corrupt,
}

/// A stored row decodes back into a batch: its byte fields have their sizes,
/// its compressed logs decompress to UTF-8 JSON, and that JSON parses to a
/// list of lines.
pub open spec fn spec_row_decodes(row: StoredRow) -> bool {
    &&& row_sized(row)
    &&& gunzip_of(row.logs_compressed@) is Some
    &&& valid_utf8(gunzip_of(row.logs_compressed@)->0)
    &&& lines_of_json(decode_utf8(gunzip_of(row.logs_compressed@)->0)) is Some
}

/// The served batch holds exactly the row's fields; its log lines are the
/// ones the row's compressed JSON decodes to.
pub open spec fn spec_query_of_row(q: QueryBatch, row: StoredRow) -> bool {
    &&& q.id == row.id
    &&& q.batch.prev_hash@ == row.prev_hash@
    &&& q.batch.timestamp == row.timestamp
    &&& q.batch.agent_id@ == row.agent_id@
    &&& q.batch.seq == row.seq
    &&& q.batch.signature@ == row.signature@
    &&& q.batch.public_key@ == row.public_key@
    &&& q.hash@ == row.hash@
    &&& Some(q.batch.logs.deep_view()) == lines_of_json(
        decode_utf8(gunzip_of(row.logs_compressed@)->0),
    )
}

/// Rebuilds the served batch from a stored row, decompressing and parsing
/// the stored log text; corrupt stored bytes are reported, not served.
pub fn row_to_query_batch(row: &StoredRow) -> (r: Result<QueryBatch, QueryError>)
    ensures
        r is Ok <==> spec_row_decodes(*row),
        r is Ok ==> spec_query_of_row(r->Ok_0, *row),
        r is Err ==> r->Err_0 is Corrupt,
{
    if row.prev_hash.len() != 32 || row.hash.len() != 32 || row.public_key.len() != 32
        || row.signature.len() != 64 {
        return Err(QueryError::Corrupt);
    }
    let json = match decompress_json(&row.logs_compressed) {
        Ok(s) => s,
        Err(_) => {
            return Err(QueryError::Corrupt);
        },
    };
    proof {
        broadcast use vstd::utf8::encode_utf8_decode_utf8;

        assert(decode_utf8(encode_utf8(json@)) == json@);
    }
    let logs = match logs_from_json(json.as_str()) {
        Some(v) => v,
        None => {
            return Err(QueryError::Corrupt);
        },
    };
    Ok(
        QueryBatch {
            id: row.id,
            batch: LogBatch {
                prev_hash: clone_bytes(&row.prev_hash),
                logs,
                timestamp: row.timestamp,
                agent_id: row.agent_id.clone(),
                seq: row.seq,
                signature: clone_bytes(&row.signature),
                public_key: clone_bytes(&row.public_key),
            },
            hash: clone_bytes(&row.hash),
        },
    )
}

/// Optional listing filters and paging, as the listing endpoint takes them.
pub struct ListParams {
    pub agent_id: Option<String>,
    pub since_seq: Option<u64>,
    pub limit: Option<u64>,
    pub offset: Option<u64>,
    pub since_timestamp: Option<u64>,
    pub until_timestamp: Option<u64>,
    pub log_substring: Option<String>,
}

/// Whether a row passes every given filter.  The substring filter is
/// case-sensitive containment in the row's stored JSON log text.
pub open spec fn spec_row_matches_filters(r: StoredRow, p: ListParams) -> bool {
    &&& (match p.agent_id {
        Some(a) => r.agent_id@ == a@,
        None => true,
    })
    &&& (match p.since_seq {
        Some(s) => r.seq >= s,
        None => true,
    })
    &&& (match p.since_timestamp {
        Some(t) => r.timestamp >= t,
        None => true,
    })
    &&& (match p.until_timestamp {
        Some(t) => r.timestamp <= t,
        None => true,
    })
    &&& (match p.log_substring {
        Some(s) => spec_contains_bytes(encode_utf8(r.logs_json@), encode_utf8(s@)),
        None => true,
    })
}

fn row_matches_filters(r: &StoredRow, p: &ListParams) -> (b: bool)
    ensures
        b == spec_row_matches_filters(*r, *p),
{
    let agent_ok = match &p.agent_id {
        Some(a) => str_eq(r.agent_id.as_str(), a.as_str()),
        None => true,
    };
    let seq_ok = match &p.since_seq {
        Some(s) => r.seq >= *s,
        None => true,
    };
    let since_ok = match &p.since_timestamp {
        Some(t) => r.timestamp >= *t,
        None => true,
    };
    let until_ok = match &p.until_timestamp {
        Some(t) => r.timestamp <= *t,
        None => true,
    };
    let sub_ok = match &p.log_substring {
        Some(s) => str_contains(r.logs_json.as_str(), s.as_str()),
        None => true,
    };
    agent_ok && seq_ok && since_ok && until_ok && sub_ok
}

/// The listing order: agent identifier ascending, compared byte for byte on
/// the UTF-8 encodings, then sequence number ascending.
pub open spec fn spec_row_le(x: StoredRow, y: StoredRow) -> bool {
    if x.agent_id@ == y.agent_id@ {
        x.seq <= y.seq
    } else {
        spec_bytes_le(encode_utf8(x.agent_id@), encode_utf8(y.agent_id@))
    }
}

/// The listing order is total.
proof fn lemma_row_le_total(x: StoredRow, y: StoredRow)
    ensures
        spec_row_le(x, y) || spec_row_le(y, x),
{
    if x.agent_id@ != y.agent_id@ {
        lemma_bytes_le_total(encode_utf8(x.agent_id@), encode_utf8(y.agent_id@));
    }
}

/// The listing order is transitive.
proof fn lemma_row_le_trans(x: StoredRow, y: StoredRow, z: StoredRow)
    requires
        spec_row_le(x, y),
        spec_row_le(y, z),
    ensures
        spec_row_le(x, z),
{
    broadcast use vstd::utf8::encode_utf8_decode_utf8;

    let xb = encode_utf8(x.agent_id@);
    let yb = encode_utf8(y.agent_id@);
    let zb = encode_utf8(z.agent_id@);
    if x.agent_id@ == y.agent_id@ {
        assert(xb == yb);
    } else if y.agent_id@ == z.agent_id@ {
        assert(yb == zb);
    } else {
        lemma_bytes_le_trans(xb, yb, zb);
        if x.agent_id@ == z.agent_id@ {
            assert(xb == zb);
            crate::strutil::lemma_bytes_le_antisym(xb, yb);
            assert(decode_utf8(xb) == x.agent_id@);
            assert(decode_utf8(yb) == y.agent_id@);
        }
    }
}

/// Decides the listing order.
fn row_le(x: &StoredRow, y: &StoredRow) -> (r: bool)
    ensures
        r == spec_row_le(*x, *y),
{
    if str_eq(x.agent_id.as_str(), y.agent_id.as_str()) {
        x.seq <= y.seq
    } else {
        let xb = x.agent_id.as_str().as_bytes();
        let yb = y.agent_id.as_str().as_bytes();
        bytes_le(xb, yb)
    }
}

/// `order` lists exactly the indices of the rows that pass the filters, each
/// once, arranged in the listing order.
pub open spec fn spec_list_order(rows: Seq<StoredRow>, p: ListParams, order: Seq<usize>) -> bool {
    &&& forall|k: int|
        0 <= k < order.len() ==> (#[trigger] order[k]) < rows.len() && spec_row_matches_filters(
            rows[order[k] as int],
            p,
        )
    &&& forall|j: int|
        0 <= j < rows.len() && spec_row_matches_filters(#[trigger] rows[j], p) ==> exists|k: int|
            0 <= k < order.len() && #[trigger] order[k] == j
    &&& forall|k1: int, k2: int| 0 <= k1 < k2 < order.len() ==> order[k1] != order[k2]
    &&& forall|k1: int, k2: int|
        0 <= k1 < k2 < order.len() ==> spec_row_le(
            rows[#[trigger] order[k1] as int],
            rows[#[trigger] order[k2] as int],
        )
}

impl Store {
    /// Every stored row decodes back into a batch.  Admission maintains
    /// this; reads report any violation as corruption.
    pub open spec fn decodes_ok(self) -> bool {
        forall|i: int| 0 <= i < self.rows@.len() ==> spec_row_decodes(#[trigger] self.rows@[i])
    }

    /// The indices of the rows that pass the filters, in the listing order.
    fn sorted_matching_indices(&self, p: &ListParams) -> (order: Vec<usize>)
        ensures
            spec_list_order(self.rows@, *p, order@),
    {
        let n = self.rows.len();
        let mut order: Vec<usize> = Vec::new();
        let mut j: usize = 0;
        while j < n
            invariant
                n == self.rows@.len(),
                j <= n,
                forall|k: int|
                    0 <= k < order@.len() ==> (#[trigger] order@[k]) < j
                        && spec_row_matches_filters(self.rows@[order@[k] as int], *p),
                forall|jj: int|
                    0 <= jj < j && spec_row_matches_filters(#[trigger] self.rows@[jj], *p)
                        ==> exists|k: int| 0 <= k < order@.len() && #[trigger] order@[k] == jj,
                forall|k1: int, k2: int|
                    0 <= k1 < k2 < order@.len() ==> order@[k1] != order@[k2],
                forall|k1: int, k2: int|
                    0 <= k1 < k2 < order@.len() ==> spec_row_le(
                        self.rows@[#[trigger] order@[k1] as int],
                        self.rows@[#[trigger] order@[k2] as int],
                    ),
            decreases n - j,
        {
            if row_matches_filters(&self.rows[j], p) {
                // Find the first position whose row does not come before ours.
                let m = order.len();
                let mut pos: usize = 0;
                loop
                    invariant_except_break
                        n == self.rows@.len(),
                        j < n,
                        m == order@.len(),
                        pos <= m,
                        forall|k: int| 0 <= k < order@.len() ==> (#[trigger] order@[k]) < j,
                        forall|k: int|
                            0 <= k < pos ==> spec_row_le(
                                self.rows@[#[trigger] order@[k] as int],
                                self.rows@[j as int],
                            ),
                    ensures
                        pos <= m,
                        forall|k: int|
                            0 <= k < pos ==> spec_row_le(
                                self.rows@[#[trigger] order@[k] as int],
                                self.rows@[j as int],
                            ),
                        pos < m ==> !spec_row_le(
                            self.rows@[order@[pos as int] as int],
                            self.rows@[j as int],
                        ),
                    decreases m - pos,
                {
                    if pos == m {
                        break;
                    }
                    if !row_le(&self.rows[order[pos]], &self.rows[j]) {
                        break;
                    }
                    pos = pos + 1;
                }
                proof {
                    if pos < m {
                        lemma_row_le_total(
                            self.rows@[order@[pos as int] as int],
                            self.rows@[j as int],
                        );
                    }
                    assert forall|k: int| pos <= k < order@.len() implies spec_row_le(
                        self.rows@[j as int],
                        self.rows@[order@[k] as int],
                    ) by {
                        if k > pos {
                            lemma_row_le_trans(
                                self.rows@[j as int],
                                self.rows@[order@[pos as int] as int],
                                self.rows@[order@[k] as int],
                            );
                        }
                    }
                }
                let ghost order_before = order@;
                order.insert(pos, j);
                proof {
                    assert(order@ == order_before.insert(pos as int, j as usize));
                    assert(order@.len() == order_before.len() + 1);
                    assert(forall|k: int| 0 <= k < pos ==> order@[k] == order_before[k]);
                    assert(order@[pos as int] == j as usize);
                    assert(forall|k: int|
                        pos < k < order@.len() ==> order@[k] == order_before[k - 1]);
                    assert forall|k1: int, k2: int| 0 <= k1 < k2 < order@.len() implies
                        spec_row_le(
                        self.rows@[#[trigger] order@[k1] as int],
                        self.rows@[#[trigger] order@[k2] as int],
                    ) by {
                        let jj = j as int;
                        if k1 == pos {
                            assert(order@[k1] == j as usize);
                        } else if k2 == pos {
                            assert(order@[k2] == j as usize);
                        }
                    }
                    assert forall|jj: int|
                        0 <= jj < j + 1 && spec_row_matches_filters(self.rows@[jj], *p)
                            implies exists|k: int|
                        0 <= k < order@.len() && #[trigger] order@[k] == jj by {
                        if jj == j {
                            assert(order@[pos as int] == jj as usize);
                        } else {
                            let k0 = choose|k0: int|
                                0 <= k0 < order_before.len() && #[trigger] order_before[k0]
                                    == jj as usize;
                            if k0 < pos {
                                assert(order@[k0] == jj as usize);
                            } else {
                                assert(order@[k0 + 1] == jj as usize);
                            }
                        }
                    }
                }
            }
            j = j + 1;
        }
        order
    }

    /// Lists the stored batches that pass the filters, ordered by agent then
    /// sequence number, with `offset` skipped and at most `limit` returned.
    pub fn list(&self, params: &ListParams) -> (r: Result<Vec<QueryBatch>, QueryError>)
        ensures
            self.decodes_ok() ==> r is Ok,
            r is Err ==> r->Err_0 is Corrupt && exists|i: int|
                0 <= i < self.rows@.len() && !spec_row_decodes(#[trigger] self.rows@[i]),
            r is Ok ==> exists|order: Seq<usize>|
                {
                    &&& spec_list_order(self.rows@, *params, order)
                    &&& {
                        let start = (match params.offset {
                            Some(o) => if o <= order.len() {
                                o as int
                            } else {
                                order.len() as int
                            },
                            None => 0,
                        });
                        let count = (match params.limit {
                            Some(l) => if l <= order.len() - start {
                                l as int
                            } else {
                                order.len() - start
                            },
                            None => order.len() - start,
                        });
                        &&& r->Ok_0@.len() == count
                        &&& forall|k: int|
                            0 <= k < count ==> spec_query_of_row(
                                #[trigger] r->Ok_0@[k],
                                self.rows@[order[start + k] as int],
                            )
                    }
                },
    {
        let order = self.sorted_matching_indices(params);
        let total = order.len();
        let start: usize = match params.offset {
            Some(o) => {
                if o <= total as u64 {
                    o as usize
                } else {
                    total
                }
            },
            None => 0,
        };
        let count: usize = match params.limit {
            Some(l) => {
                if l <= (total - start) as u64 {
                    l as usize
                } else {
                    total - start
                }
            },
            None => total - start,
        };
        let mut out: Vec<QueryBatch> = Vec::new();
        let mut k: usize = 0;
        while k < count
            invariant
                spec_list_order(self.rows@, *params, order@),
                total == order@.len(),
                start + count <= total,
                k <= count,
                out@.len() == k,
                forall|kk: int|
                    0 <= kk < k ==> spec_query_of_row(
                        #[trigger] out@[kk],
                        self.rows@[order@[start + kk] as int],
                    ),
            decreases count - k,
        {
            let idx = order[start + k];
            match row_to_query_batch(&self.rows[idx]) {
                Ok(q) => {
                    out.push(q);
                },
                Err(_) => {
                    return Err(QueryError::Corrupt);
                },
            }
            k = k + 1;
        }
        Ok(out)
    }
}

/// The export cursor: rows strictly after a storage identifier, capped.
pub struct ExportParams {
    pub since_id: Option<i64>,
    pub limit: Option<u64>,
}

/// The rows an export cursor selects, in storage order (which, in a
/// well-formed store, is ascending identifier order).
pub open spec fn spec_export_rows(rows: Seq<StoredRow>, since_id: Option<i64>) -> Seq<StoredRow>
    decreases rows.len(),
{
    if rows.len() == 0 {
        Seq::empty()
    } else {
        let rest = spec_export_rows(rows.drop_last(), since_id);
        let keep = (match since_id {
            Some(s) => rows.last().id > s,
            None => true,
        });
        if keep {
            rest.push(rows.last())
        } else {
            rest
        }
    }
}

/// One agent's checkpoint: how far its chain has gone.
pub struct AgentCheckpoint {
    pub agent_id: String,
    pub last_seq: u64,
    pub last_hash: Vec<u8>,
    pub count: u64,
}

/// The checkpoint entry is exactly the state of the agent's chain.
pub open spec fn spec_checkpoint_of(cp: AgentCheckpoint, rows: Seq<StoredRow>) -> bool {
    let f = rows_of(rows, cp.agent_id@);
    &&& f.len() > 0
    &&& cp.last_seq == f.last().seq
    &&& cp.last_hash@ == f.last().hash@
    &&& cp.count == f.len()
}

impl Store {
    /// Serves strictly-incremental slices: the rows with identifiers after
    /// `since_id`, in storage order, at most `limit` of them.
    pub fn export(&self, params: &ExportParams) -> (r: Result<Vec<QueryBatch>, QueryError>)
        ensures
            self.decodes_ok() ==> r is Ok,
            r is Err ==> r->Err_0 is Corrupt && exists|i: int|
                0 <= i < self.rows@.len() && !spec_row_decodes(#[trigger] self.rows@[i]),
            r is Ok ==> {
                let f = spec_export_rows(self.rows@, params.since_id);
                let count = (match params.limit {
                    Some(l) => if l <= f.len() {
                        l as int
                    } else {
                        f.len() as int
                    },
                    None => f.len() as int,
                });
                &&& r->Ok_0@.len() == count
                &&& forall|k: int|
                    0 <= k < count ==> spec_query_of_row(#[trigger] r->Ok_0@[k], f[k])
            },
    {
        let n = self.rows.len();
        let mut out: Vec<QueryBatch> = Vec::new();
        let mut i: usize = 0;
        let ghost whole = spec_export_rows(self.rows@, params.since_id);
        proof {
            lemma_export_prefix(self.rows@, params.since_id, n as int);
        }
        while i < n
            invariant
                n == self.rows@.len(),
                i <= n,
                whole == spec_export_rows(self.rows@, params.since_id),
                spec_export_rows(self.rows@.take(i as int), params.since_id).len()
                    <= whole.len(),
                spec_export_rows(self.rows@.take(i as int), params.since_id) == whole.take(
                    spec_export_rows(self.rows@.take(i as int), params.since_id).len() as int,
                ),
                (match params.limit {
                    Some(l) => out@.len() <= l && out@.len() <= spec_export_rows(
                        self.rows@.take(i as int),
                        params.since_id,
                    ).len() && (out@.len() < l ==> out@.len() == spec_export_rows(
                        self.rows@.take(i as int),
                        params.since_id,
                    ).len()),
                    None => out@.len() == spec_export_rows(
                        self.rows@.take(i as int),
                        params.since_id,
                    ).len(),
                }),
                forall|k: int| 0 <= k < out@.len() ==> spec_query_of_row(#[trigger] out@[k], whole[k]),
            decreases n - i,
        {
            let keep = match params.since_id {
                Some(s) => self.rows[i].id > s,
                None => true,
            };
            let full = match params.limit {
                Some(l) => out.len() as u64 >= l,
                None => false,
            };
            proof {
                assert(self.rows@.take(i + 1).drop_last() =~= self.rows@.take(i as int));
                assert(self.rows@.take(i + 1).last() == self.rows@[i as int]);
                lemma_export_prefix(self.rows@, params.since_id, i + 1);
            }
            if keep && !full {
                let ghost fi = spec_export_rows(self.rows@.take(i as int), params.since_id);
                proof {
                    let f1 = spec_export_rows(self.rows@.take(i + 1), params.since_id);
                    assert(f1 == fi.push(self.rows@[i as int]));
                    assert(f1 == whole.take(f1.len() as int));
                    assert(whole.take(f1.len() as int)[fi.len() as int] == whole[fi.len() as int]);
                    assert(whole[fi.len() as int] == self.rows@[i as int]);
                }
                match row_to_query_batch(&self.rows[i]) {
                    Ok(q) => {
                        out.push(q);
                    },
                    Err(_) => {
                        return Err(QueryError::Corrupt);
                    },
                }
            } else if keep && full {
                proof {
                    assert(spec_export_rows(self.rows@.take(i + 1), params.since_id).len()
                        == spec_export_rows(self.rows@.take(i as int), params.since_id).len()
                        + 1);
                }
            }
            i = i + 1;
        }
        proof {
            assert(self.rows@.take(n as int) =~= self.rows@);
        }
        Ok(out)
    }

    /// One checkpoint per agent that has rows: its last sequence number, the
    /// stored hash at that sequence number, and its row count.  This is what
    /// an agent consults on startup to resume its chain.
    pub fn checkpoints(&self) -> (r: Vec<AgentCheckpoint>)
        requires
            self.wf(),
        ensures
            forall|k: int|
                0 <= k < r@.len() ==> spec_checkpoint_of(#[trigger] r@[k], self.rows@),
            forall|i: int|
                0 <= i < self.rows@.len() ==> exists|k: int|
                    0 <= k < r@.len() && (#[trigger] r@[k]).agent_id@ == (#[trigger] self.rows@[i]).agent_id@,
            forall|k1: int, k2: int|
                0 <= k1 < k2 < r@.len() ==> r@[k1].agent_id@ != r@[k2].agent_id@,
    {
        let n = self.rows.len();
        let mut cps: Vec<AgentCheckpoint> = Vec::new();
        let mut i: usize = 0;
        while i < n
            invariant
                self.wf(),
                n == self.rows@.len(),
                i <= n,
                forall|k: int|
                    0 <= k < cps@.len() ==> spec_checkpoint_of_prefix(
                        #[trigger] cps@[k],
                        self.rows@,
                        i as int,
                    ),
                forall|ii: int|
                    0 <= ii < i ==> exists|k: int|
                        0 <= k < cps@.len() && (#[trigger] cps@[k]).agent_id@ == (
                        #[trigger] self.rows@[ii]).agent_id@,
                forall|k1: int, k2: int|
                    0 <= k1 < k2 < cps@.len() ==> cps@[k1].agent_id@ != cps@[k2].agent_id@,
            decreases n - i,
        {
            let row = &self.rows[i];
            let ghost cps0 = cps@;
            proof {
                assert(self.rows@.take(i + 1).drop_last() =~= self.rows@.take(i as int));
                assert(self.rows@.take(i + 1).last() == self.rows@[i as int]);
                assert forall|a: Seq<char>|
                    a != self.rows@[i as int].agent_id@ implies rows_of(
                    self.rows@.take(i + 1),
                    a,
                ) == rows_of(self.rows@.take(i as int), a) by {}
            }
            let found = find_checkpoint_entry(&cps, row.agent_id.as_str());
            match found {
                Some(k) => {
                    let ghost cps_before = cps@;
                    let count_before = cps[k].count;
                    proof {
                        crate::store::lemma_rows_of_len(
                            self.rows@.take(i as int),
                            cps@[k as int].agent_id@,
                        );
                    }
                    let e = vstd::std_specs::vec::vec_index_mut(&mut cps, k);
                    e.last_seq = row.seq;
                    e.last_hash = clone_bytes(&row.hash);
                    e.count = count_before + 1;
                    proof {
                        assert(cps@ == cps_before.update(k as int, cps@[k as int]));
                        assert(cps@[k as int].agent_id@ == cps0[k as int].agent_id@);
                    }
                },
                None => {
                    proof {
                        assert forall|ii: int|
                            0 <= ii < i implies (#[trigger] self.rows@.take(i as int)[ii]).agent_id@
                            != self.rows@[i as int].agent_id@ by {
                            assert(self.rows@.take(i as int)[ii] == self.rows@[ii]);
                        }
                        crate::store::lemma_rows_of_absent(
                            self.rows@.take(i as int),
                            self.rows@[i as int].agent_id@,
                        );
                    }
                    let cp = AgentCheckpoint {
                        agent_id: row.agent_id.clone(),
                        last_seq: row.seq,
                        last_hash: clone_bytes(&row.hash),
                        count: 1,
                    };
                    cps.push(cp);
                },
            }
            proof {
                assert forall|ii: int| 0 <= ii < i + 1 implies exists|k: int|
                    0 <= k < cps@.len() && (#[trigger] cps@[k]).agent_id@ == (
                #[trigger] self.rows@[ii]).agent_id@ by {
                    if ii == i {
                        match found {
                            Some(k0) => {
                                assert(cps@[k0 as int].agent_id@ == self.rows@[ii].agent_id@);
                            },
                            None => {
                                assert(cps@[cps@.len() - 1].agent_id@
                                    == self.rows@[ii].agent_id@);
                            },
                        }
                    } else {
                        let k0 = choose|k0: int|
                            0 <= k0 < cps0.len() && (#[trigger] cps0[k0]).agent_id@
                                == self.rows@[ii].agent_id@;
                        assert(cps@[k0].agent_id@ == cps0[k0].agent_id@);
                    }
                }
            }
            i = i + 1;
        }
        proof {
            assert(self.rows@.take(n as int) =~= self.rows@);
        }
        cps
    }

    /// The stored batch with a given identifier, or that none exists.
    pub fn get_by_id(&self, id: i64) -> (r: Result<QueryBatch, QueryError>)
        ensures
            r is Ok ==> exists|i: int|
                0 <= i < self.rows@.len() && (#[trigger] self.rows@[i]).id == id
                    && spec_query_of_row(r->Ok_0, self.rows@[i]),
            r is Err && r->Err_0 is NotFound <==> (forall|i: int|
                0 <= i < self.rows@.len() ==> (#[trigger] self.rows@[i]).id != id),
            r is Err && r->Err_0 is Corrupt ==> exists|i: int|
                0 <= i < self.rows@.len() && !spec_row_decodes(#[trigger] self.rows@[i]),
            (self.decodes_ok() && (exists|i: int|
                0 <= i < self.rows@.len() && (#[trigger] self.rows@[i]).id == id)) ==> r is Ok,
    {
        match self.row_by_id(id) {
            Some(i) => {
                match row_to_query_batch(&self.rows[i]) {
                    Ok(q) => Ok(q),
                    Err(_) => Err(QueryError::Corrupt),
                }
            },
            None => Err(QueryError::NotFound),
        }
    }
}

/// The checkpoint entry is exactly the state of the agent's chain within the
/// first `upto` rows.
pub open spec fn spec_checkpoint_of_prefix(
    cp: AgentCheckpoint,
    rows: Seq<StoredRow>,
    upto: int,
) -> bool {
    let f = rows_of(rows.take(upto), cp.agent_id@);
    &&& f.len() > 0
    &&& cp.last_seq == f.last().seq
    &&& cp.last_hash@ == f.last().hash@
    &&& cp.count == f.len()
}

/// Finds the checkpoint entry for an agent.
fn find_checkpoint_entry(cps: &Vec<AgentCheckpoint>, agent_id: &str) -> (r: Option<usize>)
    ensures
        match r {
            Some(i) => i < cps@.len() && cps@[i as int].agent_id@ == agent_id@,
            None => forall|k: int|
                0 <= k < cps@.len() ==> (#[trigger] cps@[k]).agent_id@ != agent_id@,
        },
{
    let n = cps.len();
    let mut i: usize = 0;
    while i < n
        invariant
            n == cps@.len(),
            i <= n,
            forall|k: int| 0 <= k < i ==> (#[trigger] cps@[k]).agent_id@ != agent_id@,
        decreases n - i,
    {
        if str_eq(cps[i].agent_id.as_str(), agent_id) {
            return Some(i);
        }
        i = i + 1;
    }
    None
}

/// A prefix of the rows selects a prefix of the export.
proof fn lemma_export_prefix(rows: Seq<StoredRow>, since_id: Option<i64>, upto: int)
    requires
        0 <= upto <= rows.len(),
    ensures
        spec_export_rows(rows.take(upto), since_id).len() <= spec_export_rows(rows, since_id).len(),
        spec_export_rows(rows.take(upto), since_id) == spec_export_rows(rows, since_id).take(
            spec_export_rows(rows.take(upto), since_id).len() as int,
        ),
    decreases rows.len() - upto,
{
    if upto == rows.len() {
        assert(rows.take(upto) =~= rows);
        assert(spec_export_rows(rows, since_id).take(
            spec_export_rows(rows, since_id).len() as int) =~= spec_export_rows(rows, since_id));
    } else {
        lemma_export_prefix(rows, since_id, upto + 1);
        assert(rows.take(upto + 1).drop_last() =~= rows.take(upto));
        assert(rows.take(upto + 1).last() == rows[upto]);
        let f0 = spec_export_rows(rows.take(upto), since_id);
        let f1 = spec_export_rows(rows.take(upto + 1), since_id);
        let w = spec_export_rows(rows, since_id);
        assert(f1 == w.take(f1.len() as int));
        let keep = (match since_id {
            Some(s) => rows[upto].id > s,
            None => true,
        });
        if keep {
            assert(f1 == f0.push(rows[upto]));
            assert(f0 =~= f1.take(f0.len() as int));
            assert(f1.take(f0.len() as int) =~= w.take(f1.len() as int).take(f0.len() as int));
            assert(w.take(f1.len() as int).take(f0.len() as int) =~= w.take(f0.len() as int));
        } else {
            assert(f1 == f0);
        }
    }
}

} // verus!
