//! The batch codec: the canonical encoding of a batch, its SHA-256 digest,
//! and Ed25519 signing and verification over that digest.

use vstd::prelude::*;
use vstd::bytes::{spec_u64_to_le_bytes, u64_to_le_bytes};
use vstd::utf8::encode_utf8;
use vstd::string::StringSliceAdditionalSpecFns;
use vstd::string::StrSliceExecFns;
use crate::crypto::{sha256, sha256_of, sign_message, ed_sign, ed_verifies, ed_pk_ok, vk_of,
    verifying_key_of, ed_verify};

verus! {

/// A tamper-evident batch of log lines sent from an agent to the collector.
///
/// `prev_hash` (32 bytes) links to the digest of the agent's previous batch,
/// all zero for the first; `seq` counts per agent from 1; `signature` (64
/// bytes) is an Ed25519 signature of the batch digest under `public_key` (32
/// bytes).
pub struct LogBatch {
    pub prev_hash: Vec<u8>,
    pub logs: Vec<String>,
    pub timestamp: u64,
    pub agent_id: String,
    pub seq: u64,
    pub signature: Vec<u8>,
    pub public_key: Vec<u8>,
}

/// The UTF-8 bytes of the log lines, concatenated in order with no separator
/// and no length prefix.
pub open spec fn spec_logs_bytes(logs: Seq<Seq<char>>) -> Seq<u8>
    decreases logs.len(),
{
    if logs.len() == 0 {
        Seq::empty()
    } else {
        encode_utf8(logs.first()) + spec_logs_bytes(logs.drop_first())
    }
}

/// The canonical encoding that the digest covers, in this exact order:
/// `prev_hash`, the timestamp and sequence number as 8-byte little-endian,
/// the agent identifier's UTF-8 bytes, then each log line's UTF-8 bytes.
/// The signature and public key are not covered.
pub open spec fn spec_covered_bytes(b: LogBatch) -> Seq<u8> {
    b.prev_hash@ + spec_u64_to_le_bytes(b.timestamp) + spec_u64_to_le_bytes(b.seq)
        + encode_utf8(b.agent_id@) + spec_logs_bytes(b.logs.deep_view())
}

/// The digest of a batch: SHA-256 over the canonical encoding.
pub open spec fn spec_digest(b: LogBatch) -> Seq<u8> {
    sha256_of(spec_covered_bytes(b))
}

/// Whether the stored signature passes strict Ed25519 verification of the
/// batch digest under the stored public key.
pub open spec fn spec_batch_verifies(b: LogBatch) -> bool {
    &&& b.public_key@.len() == 32
    &&& b.signature@.len() == 64
    &&& ed_verifies(b.public_key@, spec_digest(b), b.signature@)
}

/// Appending a line extends the concatenated log bytes at the end.
proof fn lemma_logs_bytes_push(logs: Seq<Seq<char>>, line: Seq<char>)
    ensures
        spec_logs_bytes(logs.push(line)) == spec_logs_bytes(logs) + encode_utf8(line),
    decreases logs.len(),
{
    if logs.len() == 0 {
        assert(logs.push(line).len() == 1);
        assert(logs.push(line)[0] == line);
        assert(logs.push(line).drop_first() =~= Seq::<Seq<char>>::empty());
        assert(spec_logs_bytes(logs.push(line)) == encode_utf8(line) + spec_logs_bytes(
            Seq::<Seq<char>>::empty()));
        assert(encode_utf8(line) + Seq::<u8>::empty() =~= encode_utf8(line));
        assert(spec_logs_bytes(logs) + encode_utf8(line) =~= encode_utf8(line));
    } else {
        assert(logs.push(line).drop_first() =~= logs.drop_first().push(line));
        lemma_logs_bytes_push(logs.drop_first(), line);
        assert(spec_logs_bytes(logs.push(line)) == encode_utf8(logs.first()) + (spec_logs_bytes(
            logs.drop_first()) + encode_utf8(line)));
        assert(encode_utf8(logs.first()) + (spec_logs_bytes(logs.drop_first()) + encode_utf8(line))
            =~= (encode_utf8(logs.first()) + spec_logs_bytes(logs.drop_first())) + encode_utf8(
            line));
    }
}

impl LogBatch {
    /// Computes the SHA-256 digest of the canonical encoding of this batch.
    /// The signature and public key are not covered.
    pub fn compute_hash(&self) -> (r: Vec<u8>)
        ensures
            r@ == spec_digest(*self),
            r@.len() == 32,
    {
        let mut data: Vec<u8> = Vec::new();
        data.extend_from_slice(self.prev_hash.as_slice());
        let mut ts = u64_to_le_bytes(self.timestamp);
        data.append(&mut ts);
        let mut sq = u64_to_le_bytes(self.seq);
        data.append(&mut sq);
        let mut ident = self.agent_id.as_str().as_bytes_vec();
        data.append(&mut ident);
        let ghost prefix = data@;
        let mut k: usize = 0;
        while k < self.logs.len()
            invariant
                k <= self.logs@.len(),
                data@ == prefix + spec_logs_bytes(self.logs.deep_view().take(k as int)),
            decreases self.logs@.len() - k,
        {
            let mut line = self.logs[k].as_str().as_bytes_vec();
            data.append(&mut line);
            proof {
                assert(self.logs.deep_view().take(k + 1) =~= self.logs.deep_view().take(
                    k as int).push(self.logs.deep_view()[k as int]));
                lemma_logs_bytes_push(self.logs.deep_view().take(k as int),
                    self.logs.deep_view()[k as int]);
                assert(self.logs.deep_view()[k as int] == self.logs@[k as int]@);
            }
            k = k + 1;
        }
        proof {
            assert(self.logs.deep_view().take(self.logs@.len() as int) =~= self.logs.deep_view());
            assert(data@ =~= spec_covered_bytes(*self));
        }
        sha256(&data)
    }

    /// Signs the batch digest and stores the signature and the signer's
    /// public key.  Afterwards the batch verifies: this is the sign/verify
    /// round trip.
    pub fn sign(&mut self, signer: &Vec<u8>)
        requires
            signer@.len() == 32,
        ensures
            final(self).prev_hash == old(self).prev_hash,
            final(self).logs == old(self).logs,
            final(self).timestamp == old(self).timestamp,
            final(self).agent_id == old(self).agent_id,
            final(self).seq == old(self).seq,
            final(self).public_key@ == vk_of(signer@),
            final(self).signature@ == ed_sign(signer@, spec_digest(*old(self))),
            spec_digest(*final(self)) == spec_digest(*old(self)),
            spec_batch_verifies(*final(self)),
    {
        let hash = self.compute_hash();
        self.signature = sign_message(signer, &hash);
        self.public_key = verifying_key_of(signer);
        proof {
            assert(spec_covered_bytes(*self) == spec_covered_bytes(*old(self)));
        }
    }

    /// Recomputes the digest and checks the stored signature under the stored
    /// public key, with strict Ed25519 verification.
    pub fn verify(&self) -> (r: bool)
        ensures
            r == spec_batch_verifies(*self),
            r ==> ed_pk_ok(self.public_key@),
    {
        if self.public_key.len() != 32 || self.signature.len() != 64 {
            return false;
        }
        let hash = self.compute_hash();
        ed_verify(&self.public_key, &hash, &self.signature)
    }
}

/// Digest determinism: the digest is a function of the covered fields alone.
/// Two batches that agree on `prev_hash`, `timestamp`, `seq`, `agent_id` and
/// the log lines have the same digest, whatever their signature fields hold.
pub proof fn lemma_digest_deterministic(a: LogBatch, b: LogBatch)
    requires
        a.prev_hash@ == b.prev_hash@,
        a.timestamp == b.timestamp,
        a.seq == b.seq,
        a.agent_id@ == b.agent_id@,
        a.logs.deep_view() == b.logs.deep_view(),
    ensures
        spec_digest(a) == spec_digest(b),
{
    assert(spec_covered_bytes(a) == spec_covered_bytes(b));
}

} // verus!
