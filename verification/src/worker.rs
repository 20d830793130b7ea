//! Bookkeeping of the region snapshot worker: the admission-controlled
//! FIFO of apply tasks, the job status protocol, the destroy decision
//! that quarantines ranges for delayed deletion, and the key helpers of
//! the data keyspace.
//!
//! The worker's outside work — generating snapshot artifacts, reading
//! region state, issuing deletes — is performed by its driver; this
//! module decides what to do and in which order.

use vstd::prelude::*;
use vstd::string::*;

use crate::events::Region;
use crate::pending_ranges::{
    bytes_lt, keep_filter, overlap_filter, ranges_wf, triples_of, PendingDeleteRanges, RangeV,
};
use crate::text::{dec_str_of, hex_upper, hex_upper_of, u64_to_dec};

verus! {

/// The byte that prefixes every data key in the storage engine.
pub const DATA_PREFIX: u8 = 122;

/// How often, in milliseconds, held apply tasks are re-examined.
pub const PENDING_APPLY_CHECK_INTERVAL: u64 = 1_000;

/// How often, in milliseconds, quarantined ranges are checked for
/// expiry.
pub const STALE_PEER_CHECK_INTERVAL: u64 = 10_000;

/// Wall-time budget, in milliseconds, of one expiry-cleanup tick.
pub const CLEANUP_MAX_DURATION: u64 = 5_000;

/// Number of threads of the snapshot generator pool.
pub const GENERATE_POOL_SIZE: usize = 2;

/// The data-space image of a raw key.
pub open spec fn data_key_v(k: Seq<u8>) -> Seq<u8> {
    seq![DATA_PREFIX] + k
}

/// The exclusive upper bound of the whole data keyspace.
pub open spec fn data_max_key_v() -> Seq<u8> {
    seq![(DATA_PREFIX + 1) as u8]
}

/// Prefixes a raw key into the data keyspace.
pub fn data_key(key: &[u8]) -> (r: Vec<u8>)
    ensures
        r@ == data_key_v(key@),
{
    let mut r: Vec<u8> = Vec::new();
    r.push(DATA_PREFIX);
    r.extend_from_slice(key);
    proof {
        assert(r@ =~= data_key_v(key@));
    }
    r
}

/// The data-space start key of a region.
pub fn enc_start_key(region: &Region) -> (r: Vec<u8>)
    ensures
        r@ == data_key_v(region@.start_key),
{
    data_key(region.start_key.as_slice())
}

/// The data-space end key of a region; an empty end key means the end
/// of the keyspace.
pub fn enc_end_key(region: &Region) -> (r: Vec<u8>)
    ensures
        r@ == if region@.end_key.len() == 0 {
            data_max_key_v()
        } else {
            data_key_v(region@.end_key)
        },
{
    if region.end_key.is_empty() {
        let mut r: Vec<u8> = Vec::new();
        r.push(DATA_PREFIX + 1);
        proof {
            assert(r@ =~= data_max_key_v());
        }
        r
    } else {
        data_key(region.end_key.as_slice())
    }
}

/// The status word of one snapshot-apply job. The dispatching peer owns
/// it; the worker only reads it and moves it forward.
#[derive(Clone, Copy, Debug, PartialEq, Eq, Structural)]
pub enum JobStatus {
    Pending,
    Running,
    Cancelling,
    Cancelled,
    Finished,
    Failed,
}

/// A request to abort the running apply, observed at a checkpoint.
#[derive(Clone, Copy, Debug, PartialEq, Eq, Structural)]
pub struct ApplyAbort;

/// The dispatch transition of a job status: a pending job starts
/// running; any other observed status is left as it is.
pub fn start_job(s: JobStatus) -> (r: JobStatus)
    ensures
        r == (if s == JobStatus::Pending {
            JobStatus::Running
        } else {
            s
        }),
{
    if s == JobStatus::Pending {
        JobStatus::Running
    } else {
        s
    }
}

/// An abort checkpoint: the apply continues unless cancellation was
/// requested.
pub fn check_abort(s: JobStatus) -> (r: Result<(), ApplyAbort>)
    ensures
        match r {
            Ok(_) => s != JobStatus::Cancelling,
            Err(_) => s == JobStatus::Cancelling,
        },
{
    if s == JobStatus::Cancelling {
        Err(ApplyAbort)
    } else {
        Ok(())
    }
}

/// How one snapshot-apply attempt ended.
#[derive(Clone, Copy, Debug, PartialEq, Eq, Structural)]
pub enum ApplyOutcome {
    Success,
    Aborted,
    Failed,
}

/// The final status transition of a job. An abort is only ever observed
/// while cancellation was requested; any other claim is a protocol
/// violation.
pub fn conclude_job(s: JobStatus, outcome: ApplyOutcome) -> (r: JobStatus)
    requires
        outcome == ApplyOutcome::Aborted ==> s == JobStatus::Cancelling,
    ensures
        r == (match outcome {
            ApplyOutcome::Success => JobStatus::Finished,
            ApplyOutcome::Aborted => JobStatus::Cancelled,
            ApplyOutcome::Failed => JobStatus::Failed,
        }),
{
    match outcome {
        ApplyOutcome::Success => JobStatus::Finished,
        ApplyOutcome::Aborted => JobStatus::Cancelled,
        ApplyOutcome::Failed => JobStatus::Failed,
    }
}

/// A task of the region worker.
#[derive(Debug)]
pub enum Task {
    /// Generate a snapshot artifact of the region.
    Gen { region_id: u64, last_applied_index_term: u64 },
    /// Apply a received snapshot; the status word is shared with the
    /// dispatching peer.
    Apply { region_id: u64, status: JobStatus },
    /// Destroy data between `[start_key, end_key)`.
    ///
    /// The deletion may and may not succeed.
    Destroy { region_id: u64, start_key: Vec<u8>, end_key: Vec<u8> },
}

/// The mathematical image of a worker task.
pub enum TaskV {
    Gen { region_id: u64, last_applied_index_term: u64 },
    Apply { region_id: u64, status: JobStatus },
    Destroy { region_id: u64, start_key: Seq<u8>, end_key: Seq<u8> },
}

impl View for Task {
    type V = TaskV;

    open spec fn view(&self) -> TaskV {
        match self {
            Task::Gen { region_id, last_applied_index_term } => TaskV::Gen {
                region_id: *region_id,
                last_applied_index_term: *last_applied_index_term,
            },
            Task::Apply { region_id, status } => TaskV::Apply {
                region_id: *region_id,
                status: *status,
            },
            Task::Destroy { region_id, start_key, end_key } => TaskV::Destroy {
                region_id: *region_id,
                start_key: start_key@,
                end_key: end_key@,
            },
        }
    }
}

/// The description of a worker task.
pub open spec fn task_describe_v(t: TaskV) -> Seq<char> {
    match t {
        TaskV::Gen { region_id, .. } => "Snap gen for "@ + dec_str_of(region_id),
        TaskV::Apply { region_id, .. } => "Snap apply for "@ + dec_str_of(region_id),
        TaskV::Destroy { region_id, start_key, end_key } => "Destroy "@ + dec_str_of(region_id)
            + " ["@ + hex_upper_of(start_key) + ", "@ + hex_upper_of(end_key) + ")"@,
    }
}

impl Task {
    /// A task that destroys the data between the two keys.
    pub fn destroy(region_id: u64, start_key: Vec<u8>, end_key: Vec<u8>) -> (r: Task)
        ensures
            r@ == (TaskV::Destroy { region_id, start_key: start_key@, end_key: end_key@ }),
    {
        Task::Destroy { region_id, start_key, end_key }
    }

    /// Describes the task for logs.
    pub fn describe(&self) -> (r: String)
        ensures
            r@ == task_describe_v(self@),
    {
        match self {
            Task::Gen { region_id, .. } => {
                let mut s = String::from_str("Snap gen for ");
                s.append(u64_to_dec(*region_id).as_str());
                s
            },
            Task::Apply { region_id, .. } => {
                let mut s = String::from_str("Snap apply for ");
                s.append(u64_to_dec(*region_id).as_str());
                s
            },
            Task::Destroy { region_id, start_key, end_key } => {
                let mut s = String::from_str("Destroy ");
                s.append(u64_to_dec(*region_id).as_str());
                s.append(" [");
                s.append(hex_upper(start_key.as_slice()).as_str());
                s.append(", ");
                s.append(hex_upper(end_key.as_slice()).as_str());
                s.append(")");
                s
            },
        }
    }
}

/// A timeout event of the region worker.
pub enum Event {
    CheckStalePeer,
    CheckApply,
}

/// The level-0 pressure of one column family, as the storage engine
/// reports it.
#[derive(Clone, Copy, Debug, PartialEq, Eq, Structural)]
pub struct CfPressure {
    /// Whether the family is stored in plain files (never ingested).
    pub plain_file: bool,
    pub level0_files: u64,
    pub slowdown_trigger: u64,
}

/// Whether ingesting now could stall writes: true when some non-plain
/// column family has at least as many level-0 files as its slow-down
/// trigger.
pub open spec fn stall_v(cfs: Seq<CfPressure>) -> bool {
    exists|i: int|
        0 <= i < cfs.len() && !(#[trigger] cfs[i]).plain_file && cfs[i].level0_files
            >= cfs[i].slowdown_trigger
}

/// Checks the level-0 file counts against the slow-down thresholds.
pub fn ingest_maybe_stall(cfs: &Vec<CfPressure>) -> (r: bool)
    ensures
        r == stall_v(cfs@),
{
    let n = cfs.len();
    let mut i: usize = 0;
    while i < n
        invariant
            n == cfs@.len(),
            i <= n,
            forall|j: int|
                0 <= j < i ==> (#[trigger] cfs@[j]).plain_file || cfs@[j].level0_files < cfs@[
                    j].slowdown_trigger,
        decreases n - i,
    {
        let cf = cfs[i];
        if !cf.plain_file && cf.level0_files >= cf.slowdown_trigger {
            return true;
        }
        i += 1;
    }
    false
}

/// The concatenation of a list of delete batches.
pub open spec fn concat_batches(bs: Seq<Seq<Seq<u8>>>) -> Seq<Seq<u8>>
    decreases bs.len(),
{
    if bs.len() == 0 {
        Seq::empty()
    } else {
        concat_batches(bs.drop_last()) + bs.last()
    }
}

/// The images of a list of keys.
pub open spec fn keys_v(ks: Seq<Vec<u8>>) -> Seq<Seq<u8>> {
    Seq::new(ks.len(), |i: int| ks[i]@)
}

/// The images of a list of key batches.
pub open spec fn batches_v(bs: Seq<Vec<Vec<u8>>>) -> Seq<Seq<Seq<u8>>> {
    Seq::new(bs.len(), |i: int| keys_v(bs[i]@))
}

/// Splits the keys found in a range into delete batches of at most
/// `max` keys each, in order, so that every engine write stays bounded:
/// every batch except possibly the last is full.
pub fn delete_batches(keys: Vec<Vec<u8>>, max: usize) -> (r: Vec<Vec<Vec<u8>>>)
    requires
        max > 0,
    ensures
        concat_batches(batches_v(r@)) == keys_v(keys@),
        forall|i: int| 0 <= i < r@.len() ==> keys_v((#[trigger] r@[i])@).len() <= max,
        forall|i: int| 0 <= i < r@.len() - 1 ==> keys_v((#[trigger] r@[i])@).len() == max,
{
    let mut out: Vec<Vec<Vec<u8>>> = Vec::new();
    let mut cur: Vec<Vec<u8>> = Vec::new();
    let mut keys = keys;
    let ghost all = keys_v(keys@);
    proof {
        assert(batches_v(out@) =~= Seq::<Seq<Seq<u8>>>::empty());
        assert(concat_batches(batches_v(out@)) + keys_v(cur@) + keys_v(keys@) =~= all);
    }
    #[verifier::loop_isolation(false)]
    while keys.len() > 0
        invariant
            concat_batches(batches_v(out@)) + keys_v(cur@) + keys_v(keys@) == all,
            cur@.len() < max,
            forall|i: int| 0 <= i < out@.len() ==> keys_v((#[trigger] out@[i])@).len() == max,
        decreases keys@.len(),
    {
        let ghost rem0 = keys_v(keys@);
        let ghost cur0 = keys_v(cur@);
        let ghost out0 = batches_v(out@);
        let k = keys.remove(0);
        cur.push(k);
        proof {
            assert(keys_v(keys@) =~= rem0.drop_first());
            assert(keys_v(cur@) =~= cur0.push(rem0[0]));
            assert(concat_batches(out0) + cur0.push(rem0[0]) + rem0.drop_first()
                =~= concat_batches(out0) + cur0 + rem0);
        }
        if cur.len() == max {
            let ghost curv = keys_v(cur@);
            let mut done: Vec<Vec<u8>> = Vec::new();
            core::mem::swap(&mut cur, &mut done);
            out.push(done);
            proof {
                assert(batches_v(out@) =~= out0.push(curv));
                assert(concat_batches(out0.push(curv)) == concat_batches(out0) + curv) by {
                    assert(out0.push(curv).drop_last() =~= out0);
                    assert(out0.push(curv).last() == curv);
                }
                assert(keys_v(cur@) =~= Seq::<Seq<u8>>::empty());
                assert(concat_batches(batches_v(out@)) + keys_v(cur@) + keys_v(keys@)
                    =~= concat_batches(out0) + curv + keys_v(keys@));
                assert forall|i: int| 0 <= i < out@.len() implies keys_v(
                    (#[trigger] out@[i])@,
                ).len() == max by {
                    if i < out@.len() - 1 {
                        assert(batches_v(out@)[i] == out0[i]);
                    }
                }
            }
        }
    }
    if cur.len() > 0 {
        let ghost out0 = batches_v(out@);
        let ghost curv = keys_v(cur@);
        out.push(cur);
        proof {
            assert(batches_v(out@) =~= out0.push(curv));
            assert(concat_batches(out0.push(curv)) == concat_batches(out0) + curv) by {
                assert(out0.push(curv).drop_last() =~= out0);
                assert(out0.push(curv).last() == curv);
            }
            assert(keys_v(keys@) =~= Seq::<Seq<u8>>::empty());
            assert(concat_batches(batches_v(out@)) =~= all);
            assert forall|i: int| 0 <= i < out@.len() - 1 implies keys_v(
                (#[trigger] out@[i])@,
            ).len() == max by {
                assert(batches_v(out@)[i] == out0[i]);
            }
        }
    } else {
        proof {
            assert(keys_v(keys@) =~= Seq::<Seq<u8>>::empty());
            assert(keys_v(cur@) =~= Seq::<Seq<u8>>::empty());
            assert(concat_batches(batches_v(out@)) =~= all);
        }
    }
    out
}

/// What the driver must do with a destroy task.
pub enum DestroyDecision {
    /// No deferral is configured: clean the range at once.
    CleanNow,
    /// The range was quarantined; the returned overlapping ranges were
    /// evicted and must be cleaned at once.
    Deferred { overlaps: Vec<(u64, Vec<u8>, Vec<u8>)> },
}

/// The verified core of the region worker: the FIFO of held apply
/// tasks and the registry of ranges awaiting delayed deletion.
pub struct RegionWorker {
    pending_applies: Vec<Task>,
    pending_delete_ranges: PendingDeleteRanges,
    clean_stale_peer_delay: u64,
}

impl RegionWorker {
    /// The held apply tasks, front first.
    pub closed spec fn applies(&self) -> Seq<TaskV> {
        Seq::new(self.pending_applies@.len(), |i: int| self.pending_applies@[i]@)
    }

    /// The quarantined ranges.
    pub closed spec fn ranges(&self) -> Seq<RangeV> {
        self.pending_delete_ranges@
    }

    /// The configured deferral delay in milliseconds; zero disables
    /// quarantining.
    pub closed spec fn delay(&self) -> u64 {
        self.clean_stale_peer_delay
    }

    /// A worker with no held applies and no quarantined ranges.
    pub fn new(clean_stale_peer_delay: u64) -> (r: RegionWorker)
        ensures
            r.applies() =~= Seq::<TaskV>::empty(),
            r.ranges() =~= Seq::<RangeV>::empty(),
            ranges_wf(r.ranges()),
            r.delay() == clean_stale_peer_delay,
    {
        RegionWorker {
            pending_applies: Vec::new(),
            pending_delete_ranges: PendingDeleteRanges::new(),
            clean_stale_peer_delay,
        }
    }

    /// Read access to the quarantine registry.
    pub fn delete_ranges(&self) -> (r: &PendingDeleteRanges)
        ensures
            r@ == self.ranges(),
    {
        &self.pending_delete_ranges
    }

    /// Holds one apply task at the back of the FIFO queue.
    pub fn enqueue_apply(&mut self, task: Task)
        ensures
            final(self).applies() == old(self).applies().push(task@),
            final(self).ranges() == old(self).ranges(),
            final(self).delay() == old(self).delay(),
    {
        self.pending_applies.push(task);
        proof {
            assert(self.applies() =~= old(self).applies().push(
                self.pending_applies@.last()@,
            ));
        }
    }

    /// Whether apply tasks are waiting.
    pub fn has_pending_applies(&self) -> (r: bool)
        ensures
            r == (self.applies().len() > 0),
    {
        self.pending_applies.len() > 0
    }

    /// The admission gate: while the engine reports level-0 pressure,
    /// or when nothing waits, no task leaves; otherwise the front task
    /// leaves the queue, in FIFO order, for the caller to run.
    pub fn next_apply(&mut self, stall: bool) -> (r: Option<Task>)
        ensures
            final(self).ranges() == old(self).ranges(),
            final(self).delay() == old(self).delay(),
            ({
                if stall || old(self).applies().len() == 0 {
                    r is None && final(self).applies() == old(self).applies()
                } else {
                    match r {
                        Some(t) => t@ == old(self).applies()[0] && final(self).applies()
                            == old(self).applies().drop_first(),
                        None => false,
                    }
                }
            }),
    {
        if stall || self.pending_applies.is_empty() {
            return None;
        }
        let t = self.pending_applies.remove(0);
        proof {
            assert(t@ == old(self).applies()[0]);
            assert(self.applies() =~= old(self).applies().drop_first());
        }
        Some(t)
    }

    /// Decides a destroy task. With no deferral configured the range is
    /// cleaned at once. Otherwise overlapping quarantined ranges are
    /// drained (they are about to become obsolete and must be cleaned
    /// now) and the new range enters the quarantine with a deadline
    /// `delay` milliseconds from `now`.
    pub fn on_destroy(&mut self, region_id: u64, start_key: &[u8], end_key: &[u8], now: u64) -> (r:
        DestroyDecision)
        requires
            ranges_wf(old(self).ranges()),
            bytes_lt(start_key@, end_key@),
            now + old(self).delay() <= u64::MAX,
        ensures
            ranges_wf(final(self).ranges()),
            final(self).applies() == old(self).applies(),
            final(self).delay() == old(self).delay(),
            ({
                if old(self).delay() == 0 {
                    r is CleanNow && final(self).ranges() == old(self).ranges()
                } else {
                    match r {
                        DestroyDecision::Deferred { overlaps } => {
                            &&& Seq::new(
                                overlaps@.len(),
                                |i: int| (overlaps@[i].0, overlaps@[i].1@, overlaps@[i].2@),
                            ) == triples_of(
                                overlap_filter(old(self).ranges(), start_key@, end_key@),
                            )
                            &&& exists|i: int|
                                {
                                    &&& 0 <= i <= keep_filter(
                                        old(self).ranges(),
                                        start_key@,
                                        end_key@,
                                    ).len()
                                    &&& final(self).ranges() == #[trigger] keep_filter(
                                        old(self).ranges(),
                                        start_key@,
                                        end_key@,
                                    ).insert(
                                        i,
                                        RangeV {
                                            start_key: start_key@,
                                            region_id,
                                            end_key: end_key@,
                                            timeout: (now + old(self).delay()) as u64,
                                        },
                                    )
                                }
                        },
                        DestroyDecision::CleanNow => false,
                    }
                }
            }),
    {
        if self.clean_stale_peer_delay == 0 {
            return DestroyDecision::CleanNow;
        }
        let overlaps = self.pending_delete_ranges.drain_overlap_ranges(start_key, end_key);
        let timeout = now + self.clean_stale_peer_delay;
        proof {
            crate::pending_ranges::lemma_keep_overlap_empty(
                old(self).ranges(),
                start_key@,
                end_key@,
            );
        }
        self.pending_delete_ranges.insert(region_id, start_key, end_key, timeout);
        DestroyDecision::Deferred { overlaps }
    }

    /// The quarantined ranges due at `now`, for the driver to clean.
    pub fn stale_ranges(&self, now: u64) -> (r: Vec<(u64, Vec<u8>, Vec<u8>)>)
        ensures
            Seq::new(r@.len(), |i: int| (r@[i].0, r@[i].1@, r@[i].2@)) == triples_of(
                crate::pending_ranges::due_filter(self.ranges(), now),
            ),
    {
        self.pending_delete_ranges.timeout_ranges(now)
    }

    /// Removes one cleaned range from the quarantine by its start key.
    pub fn remove_range(&mut self, start_key: &[u8]) -> (r: Option<(u64, Vec<u8>, Vec<u8>)>)
        requires
            ranges_wf(old(self).ranges()),
        ensures
            ranges_wf(final(self).ranges()),
            final(self).applies() == old(self).applies(),
            final(self).delay() == old(self).delay(),
            match r {
                Some(t) => exists|i: int|
                    {
                        &&& 0 <= i < old(self).ranges().len()
                        &&& (#[trigger] old(self).ranges()[i]).start_key == start_key@
                        &&& final(self).ranges() == old(self).ranges().remove(i)
                    },
                None => final(self).ranges() == old(self).ranges() && forall|i: int|
                    0 <= i < old(self).ranges().len() ==> (#[trigger] old(
                        self,
                    ).ranges()[i]).start_key != start_key@,
            },
    {
        self.pending_delete_ranges.remove(start_key)
    }
}

} // verus!
