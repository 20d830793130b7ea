//! Per-region tracker of in-flight transaction locks, producing a
//! monotonic resolved timestamp.
//!
//! Every lock observed on the lock column family is tracked once; the
//! matching commit or rollback untracks it. `resolve` then returns the
//! largest timestamp `T` not above the observed minimum such that no
//! tracked lock started below `T`.

use vstd::prelude::*;

use crate::codec::bytes_eq;
use crate::timestamp::TimeStamp;

verus! {

/// An in-flight lock: the raw key it covers and the transaction start
/// timestamp.
pub struct TrackedLock {
    pub start_ts: u64,
    pub key: Vec<u8>,
}

/// The mathematical image of a tracked lock.
pub struct LockV {
    pub start_ts: u64,
    pub key: Seq<u8>,
}

impl View for TrackedLock {
    type V = LockV;

    open spec fn view(&self) -> LockV {
        LockV { start_ts: self.start_ts, key: self.key@ }
    }
}

/// The smaller of two 64-bit values.
pub open spec fn min64(a: u64, b: u64) -> u64 {
    if a < b {
        a
    } else {
        b
    }
}

/// The larger of two 64-bit values.
pub open spec fn max64(a: u64, b: u64) -> u64 {
    if a < b {
        b
    } else {
        a
    }
}

/// The smallest start timestamp among tracked locks, or `u64::MAX` when
/// none is tracked.
pub open spec fn min_lock_ts(locks: Seq<LockV>) -> u64
    decreases locks.len(),
{
    if locks.len() == 0 {
        u64::MAX
    } else {
        min64(min_lock_ts(locks.drop_last()), locks.last().start_ts)
    }
}

/// The lock list with the first occurrence of `l` removed, if any.
pub open spec fn remove_first_lock(s: Seq<LockV>, l: LockV) -> Seq<LockV>
    decreases s.len(),
{
    if s.len() == 0 {
        s
    } else if s[0] == l {
        s.drop_first()
    } else {
        seq![s[0]] + remove_first_lock(s.drop_first(), l)
    }
}

/// Removing an absent lock changes nothing.
pub proof fn lemma_remove_first_absent(s: Seq<LockV>, l: LockV)
    requires
        forall|j: int| 0 <= j < s.len() ==> s[j] != l,
    ensures
        remove_first_lock(s, l) == s,
    decreases s.len(),
{
    if s.len() > 0 {
        lemma_remove_first_absent(s.drop_first(), l);
        assert(seq![s[0]] + s.drop_first() =~= s);
    }
}

/// Removing the first occurrence of `l`, found at index `idx`, splices it
/// out of the list.
pub proof fn lemma_remove_first_at(s: Seq<LockV>, l: LockV, idx: int)
    requires
        0 <= idx < s.len(),
        s[idx] == l,
        forall|j: int| 0 <= j < idx ==> s[j] != l,
    ensures
        remove_first_lock(s, l) == s.subrange(0, idx) + s.skip(idx + 1),
    decreases idx,
{
    if idx == 0 {
        assert(remove_first_lock(s, l) == s.drop_first());
        assert(s.subrange(0, 0) + s.skip(1) =~= s.drop_first());
    } else {
        lemma_remove_first_at(s.drop_first(), l, idx - 1);
        assert(s.drop_first().subrange(0, idx - 1) =~= s.subrange(1, idx));
        assert(s.drop_first().skip(idx) =~= s.skip(idx + 1));
        assert(seq![s[0]] + (s.subrange(1, idx) + s.skip(idx + 1)) =~= s.subrange(0, idx)
            + s.skip(idx + 1));
    }
}

/// Tracks the in-flight locks of one region and the resolved timestamp
/// computed from them.
pub struct Resolver {
    region_id: u64,
    locks: Vec<TrackedLock>,
    resolved_ts: u64,
    initialized: bool,
}

impl Resolver {
    /// The tracked locks, in the order they were tracked.
    pub closed spec fn locks(&self) -> Seq<LockV> {
        Seq::new(self.locks@.len(), |i: int| self.locks@[i]@)
    }

    /// The last resolved timestamp, zero before the first resolution.
    pub closed spec fn resolved(&self) -> u64 {
        self.resolved_ts
    }

    /// Whether initialization has completed and resolving is allowed.
    pub closed spec fn is_init(&self) -> bool {
        self.initialized
    }

    /// The region this resolver belongs to.
    pub closed spec fn region(&self) -> u64 {
        self.region_id
    }

    /// Creates an uninitialized resolver with no tracked locks.
    pub fn new(region_id: u64) -> (r: Resolver)
        ensures
            r.region() == region_id,
            r.locks() =~= Seq::<LockV>::empty(),
            r.resolved() == 0,
            !r.is_init(),
    {
        Resolver { region_id, locks: Vec::new(), resolved_ts: 0, initialized: false }
    }

    /// Marks the resolver ready: buffered history has been replayed.
    pub fn init(&mut self)
        ensures
            final(self).is_init(),
            final(self).locks() == old(self).locks(),
            final(self).resolved() == old(self).resolved(),
            final(self).region() == old(self).region(),
    {
        self.initialized = true;
    }

    /// Whether the resolver has been initialized.
    pub fn is_initialized(&self) -> (r: bool)
        ensures
            r == self.is_init(),
    {
        self.initialized
    }

    /// Tracks one in-flight lock.
    pub fn track_lock(&mut self, start_ts: TimeStamp, key: Vec<u8>)
        ensures
            final(self).locks() == old(self).locks().push(
                LockV { start_ts: start_ts.0, key: key@ },
            ),
            final(self).resolved() == old(self).resolved(),
            final(self).is_init() == old(self).is_init(),
            final(self).region() == old(self).region(),
    {
        self.locks.push(TrackedLock { start_ts: start_ts.0, key });
        proof {
            assert(self.locks() =~= old(self).locks().push(
                LockV { start_ts: start_ts.0, key: self.locks@.last().key@ },
            ));
        }
    }

    /// Untracks the lock for `key` started at `start_ts`, if it is
    /// tracked; the commit timestamp is informational only.
    pub fn untrack_lock(&mut self, start_ts: TimeStamp, commit_ts: Option<TimeStamp>, key: Vec<u8>)
        ensures
            final(self).locks() == remove_first_lock(
                old(self).locks(),
                LockV { start_ts: start_ts.0, key: key@ },
            ),
            final(self).resolved() == old(self).resolved(),
            final(self).is_init() == old(self).is_init(),
            final(self).region() == old(self).region(),
    {
        let ghost l = LockV { start_ts: start_ts.0, key: key@ };
        let n = self.locks.len();
        let mut i: usize = 0;
        while i < n
            invariant
                n == self.locks.len(),
                i <= n,
                forall|j: int| 0 <= j < i ==> self.locks()[j] != l,
                l == (LockV { start_ts: start_ts.0, key: key@ }),
                self == old(self),
            decreases n - i,
        {
            let cand = &self.locks[i];
            if cand.start_ts == start_ts.0 && bytes_eq(cand.key.as_slice(), key.as_slice()) {
                proof {
                    assert(self.locks()[i as int] == l);
                }
                self.locks.remove(i);
                proof {
                    lemma_remove_first_at(old(self).locks(), l, i as int);
                    assert(self.locks() =~= old(self).locks().subrange(0, i as int) + old(
                        self,
                    ).locks().skip(i + 1));
                }
                return;
            }
            proof {
                assert(self.locks()[i as int] != l);
            }
            i += 1;
        }
        proof {
            lemma_remove_first_absent(self.locks(), l);
        }
    }

    /// Resolves the largest safe timestamp not above `min_ts`.
    ///
    /// Returns nothing while uninitialized. Otherwise the result is the
    /// larger of the previously resolved timestamp and the smaller of
    /// `min_ts` and the smallest tracked lock start; it never decreases.
    pub fn resolve(&mut self, min_ts: TimeStamp) -> (r: Option<TimeStamp>)
        ensures
            final(self).locks() == old(self).locks(),
            final(self).is_init() == old(self).is_init(),
            final(self).region() == old(self).region(),
            match r {
                Some(t) => {
                    &&& old(self).is_init()
                    &&& t.0 == max64(
                        old(self).resolved(),
                        min64(min_ts.0, min_lock_ts(old(self).locks())),
                    )
                    &&& final(self).resolved() == t.0
                    &&& t.0 >= old(self).resolved()
                },
                None => !old(self).is_init() && final(self).resolved() == old(self).resolved(),
            },
    {
        if !self.initialized {
            return None;
        }
        let n = self.locks.len();
        let mut acc: u64 = u64::MAX;
        let mut i: usize = 0;
        proof {
            assert(self.locks().take(0) =~= Seq::<LockV>::empty());
        }
        while i < n
            invariant
                n == self.locks.len(),
                i <= n,
                acc == min_lock_ts(self.locks().take(i as int)),
                self == old(self),
            decreases n - i,
    {
            let ts = self.locks[i].start_ts;
            if ts < acc {
                acc = ts;
            }
            proof {
                let s = self.locks();
                assert(s.take(i + 1).drop_last() =~= s.take(i as int));
                assert(s.take(i + 1).last() == s[i as int]);
            }
            i += 1;
        }
        proof {
            assert(self.locks().take(n as int) =~= self.locks());
        }
        let new_rts = if min_ts.0 < acc {
            min_ts.0
        } else {
            acc
        };
        if new_rts > self.resolved_ts {
            self.resolved_ts = new_rts;
        }
        Some(TimeStamp(self.resolved_ts))
    }
}

/// The resolved-timestamp stream never decreases: each resolution returns
/// at least the previously resolved timestamp, whatever locks were
/// tracked or untracked in between and whatever minimum is supplied.
pub proof fn lemma_resolved_ts_monotonic(
    resolved: u64,
    locks1: Seq<LockV>,
    t1: u64,
    locks2: Seq<LockV>,
    t2: u64,
)
    ensures
        ({
            let r1 = max64(resolved, min64(t1, min_lock_ts(locks1)));
            let r2 = max64(r1, min64(t2, min_lock_ts(locks2)));
            r2 >= r1 >= resolved
        }),
{
}

} // verus!
