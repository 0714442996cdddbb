//! A fixed-window rate limiter keyed by source address.

use vstd::prelude::*;
use crate::strutil::str_eq;

verus! {

/// One source's window: when it started and how many requests it has seen.
pub struct Bucket {
    pub key: String,
    pub window_start: u64,
    pub count: u32,
}

/// A fixed-window counter per key: at most `max` requests per window of
/// `window_ms` milliseconds, counted against a monotonic clock.
pub struct RateLimiter {
    pub max: u32,
    pub window_ms: u64,
    pub buckets: Vec<Bucket>,
}

/// The bucket for a key, if any.
pub open spec fn spec_lookup_bucket(buckets: Seq<Bucket>, key: Seq<char>) -> Option<Bucket>
    decreases buckets.len(),
{
    if buckets.len() == 0 {
        None
    } else if buckets.first().key@ == key {
        Some(buckets.first())
    } else {
        spec_lookup_bucket(buckets.drop_first(), key)
    }
}

/// The count that stands against a key at `now_ms`: 0 for an unknown key or
/// an expired window, else the bucket's count.
pub open spec fn spec_effective_count(lim: RateLimiter, key: Seq<char>, now_ms: u64) -> u32 {
    match spec_lookup_bucket(lim.buckets@, key) {
        None => 0u32,
        Some(b) => {
            let elapsed: int = if now_ms >= b.window_start {
                now_ms - b.window_start
            } else {
                0
            };
            if elapsed > lim.window_ms {
                0u32
            } else {
                b.count
            }
        },
    }
}

/// How one `allow` call changes the buckets: the key's bucket is created or
/// updated — reset when its window expired, counted up when the request was
/// admitted — and every other bucket stays.
pub open spec fn spec_allow_transition(
    pre: RateLimiter,
    post: RateLimiter,
    key: Seq<char>,
    now_ms: u64,
    r: bool,
) -> bool {
    let eff = spec_effective_count(pre, key, now_ms);
    let add: u32 = if r {
        1u32
    } else {
        0u32
    };
    &&& post.max == pre.max
    &&& post.window_ms == pre.window_ms
    &&& (match spec_lookup_bucket(pre.buckets@, key) {
        None => {
            &&& post.buckets@.len() == pre.buckets@.len() + 1
            &&& post.buckets@.drop_last() == pre.buckets@
            &&& post.buckets@.last().key@ == key
            &&& post.buckets@.last().window_start == now_ms
            &&& post.buckets@.last().count == add
        },
        Some(b) => {
            let elapsed: int = if now_ms >= b.window_start {
                now_ms - b.window_start
            } else {
                0
            };
            let reset = elapsed > pre.window_ms;
            exists|i: int|
                {
                    &&& 0 <= i < pre.buckets@.len()
                    &&& (#[trigger] pre.buckets@[i]).key@ == key
                    &&& post.buckets@ == pre.buckets@.update(i, post.buckets@[i])
                    &&& post.buckets@[i].key@ == key
                    &&& post.buckets@[i].window_start == (if reset {
                        now_ms
                    } else {
                        b.window_start
                    })
                    &&& post.buckets@[i].count == eff + add
                }
        },
    })
}

impl RateLimiter {
    /// Buckets belong to distinct keys.
    pub open spec fn wf(self) -> bool {
        forall|i: int, j: int|
            0 <= i < j < self.buckets@.len() ==> self.buckets@[i].key@ != self.buckets@[j].key@
    }

    /// A limiter that admits `max` requests per key per window.
    pub fn new(max: u32, window_ms: u64) -> (r: RateLimiter)
        ensures
            r.wf(),
            r.max == max,
            r.window_ms == window_ms,
            r.buckets@.len() == 0,
    {
        RateLimiter { max, window_ms, buckets: Vec::new() }
    }

    /// Finds the bucket for a key.
    fn find_bucket(&self, key: &str) -> (r: Option<usize>)
        ensures
            match r {
                Some(i) => i < self.buckets@.len() && self.buckets@[i as int].key@ == key@
                    && spec_lookup_bucket(self.buckets@, key@) == Some(self.buckets@[i as int]),
                None => spec_lookup_bucket(self.buckets@, key@) is None,
            },
    {
        let n = self.buckets.len();
        let mut i: usize = 0;
        proof {
            assert(self.buckets@.skip(0) =~= self.buckets@);
        }
        while i < n
            invariant
                n == self.buckets@.len(),
                i <= n,
                spec_lookup_bucket(self.buckets@, key@) == spec_lookup_bucket(
                    self.buckets@.skip(i as int),
                    key@,
                ),
            decreases n - i,
        {
            proof {
                assert(self.buckets@.skip(i as int).first() == self.buckets@[i as int]);
                assert(self.buckets@.skip(i as int).drop_first() =~= self.buckets@.skip(i + 1));
            }
            if str_eq(self.buckets[i].key.as_str(), key) {
                return Some(i);
            }
            i = i + 1;
        }
        proof {
            assert(self.buckets@.skip(n as int) =~= Seq::<Bucket>::empty());
        }
        None
    }

    /// Admits the request if the key has seen fewer than `max` requests in
    /// its current window; a request outside the window opens a fresh one.
    /// Denied requests still create or reset the bucket, and are not counted.
    pub fn allow(&mut self, key: &str, now_ms: u64) -> (r: bool)
        requires
            old(self).wf(),
        ensures
            final(self).wf(),
            r == (spec_effective_count(*old(self), key@, now_ms) < old(self).max),
            spec_allow_transition(*old(self), *final(self), key@, now_ms, r),
    {
        let ghost pre = *self;
        let idx: usize;
        match self.find_bucket(key) {
            Some(i) => {
                idx = i;
            },
            None => {
                let b = Bucket { key: String::from_str(key), window_start: now_ms, count: 0 };
                self.buckets.push(b);
                proof {
                    assert(self.buckets@.drop_last() =~= pre.buckets@);
                    lemma_lookup_bucket_none(pre.buckets@, key@);
                }
                idx = self.buckets.len() - 1;
            },
        }
        let max = self.max;
        let window_ms = self.window_ms;
        let ghost mid = *self;
        let b = vstd::std_specs::vec::vec_index_mut(&mut self.buckets, idx);
        let elapsed = if now_ms >= b.window_start {
            now_ms - b.window_start
        } else {
            0
        };
        if elapsed > window_ms {
            b.window_start = now_ms;
            b.count = 0;
        }
        let admitted: bool;
        if b.count >= max {
            admitted = false;
        } else {
            b.count = b.count + 1;
            admitted = true;
        }
        proof {
            assert(self.buckets@ == mid.buckets@.update(idx as int, self.buckets@[idx as int]));
            match spec_lookup_bucket(pre.buckets@, key@) {
                None => {
                    assert(self.buckets@.drop_last() =~= pre.buckets@);
                },
                Some(_) => {
                },
            }
        }
        admitted
    }
}

/// When a key has no bucket, no entry carries it.
proof fn lemma_lookup_bucket_none(buckets: Seq<Bucket>, key: Seq<char>)
    requires
        spec_lookup_bucket(buckets, key) is None,
    ensures
        forall|i: int| 0 <= i < buckets.len() ==> (#[trigger] buckets[i]).key@ != key,
    decreases buckets.len(),
{
    if buckets.len() > 0 {
        lemma_lookup_bucket_none(buckets.drop_first(), key);
        assert forall|i: int| 0 <= i < buckets.len() implies (#[trigger] buckets[i]).key@
            != key by {
            if i > 0 {
                assert(buckets.drop_first()[i - 1] == buckets[i]);
            }
        }
    }
}

} // verus!
