//! The per-region CDC delegate: it converts committed raft commands into
//! ordered change events, tracks in-flight transactions through the
//! resolver, and fans events out to subscribed downstreams.

use vstd::prelude::*;

use crate::cmd::{AdminCmdType, AdminRequest, AdminResponse, AdminResponseV, CfName, CmdBatch, CmdRequest, CmdV, ObserveId, RequestV};
use crate::errors::{extract_header_of, header_of, CdcError, CdcErrorV, HeaderV, RaftError, RaftErrorV};
use crate::events::{
    ErrV, Event, EventPayload, EventV, PayloadV, Region, RegionEpoch, RegionNotFoundInfo, RegionV,
};
use crate::codec::{dec_bytes, ts_of_suffix};
use crate::events::{empty_row, rows_size, EventRow, LogType, OpType, RowV};
use crate::key::Key;
use crate::resolver::{remove_first_lock, LockV, Resolver};
use crate::sink::EventSink;
use crate::timestamp::TimeStamp;
use crate::txn::{parse_lock, parse_write, LockKind, LockRecV, WriteKind, WriteRecV};
use crate::txn::{parse_lock_record, parse_write_record};

verus! {

/// A unique identifier of a downstream; the endpoint allocates them from
/// a monotonic counter.
#[derive(Clone, Copy, Debug, PartialEq, Eq, Hash, Structural)]
pub struct DownstreamID(pub u64);

impl DownstreamID {
    /// Wraps an allocated identifier value.
    pub fn new(v: u64) -> (r: DownstreamID)
        ensures
            r.0 == v,
    {
        DownstreamID(v)
    }
}

/// A connection identifier assigned by the transport.
#[derive(Clone, Copy, Debug, PartialEq, Eq, Hash, Structural)]
pub struct ConnID(pub u64);

impl ConnID {
    /// Wraps a connection identifier value.
    pub fn new(v: u64) -> (r: ConnID)
        ensures
            r.0 == v,
    {
        ConnID(v)
    }
}

/// The lifecycle state of a downstream. `Stopped` is terminal.
#[derive(Clone, Copy, Debug, PartialEq, Eq, Structural)]
pub enum DownstreamState {
    Uninitialized,
    Normal,
    Stopped,
}

impl Default for DownstreamState {
    /// A downstream starts uninitialized.
    fn default() -> (r: Self)
        ensures
            r == DownstreamState::Uninitialized,
    {
        DownstreamState::Uninitialized
    }
}

/// Whether decoders fetch the previous value of each prewritten key.
#[derive(Clone, Copy, Debug, PartialEq, Eq, Structural)]
pub enum TxnExtraOp {
    Noop,
    ReadOldValue,
}

/// The mathematical image of a downstream handle.
#[verifier::ext_equal]
pub struct DownstreamM {
    pub id: u64,
    pub req_id: u64,
    pub conn_id: u64,
    pub peer: Seq<char>,
    pub region_epoch: RegionEpoch,
    /// The log of events handed to the sink, or nothing before a sink is
    /// attached.
    pub sink: Option<Seq<EventV>>,
    pub state: DownstreamState,
}

/// One subscriber of a region's change stream.
pub struct Downstream {
    id: DownstreamID,
    req_id: u64,
    conn_id: ConnID,
    peer: String,
    region_epoch: RegionEpoch,
    sink: Option<EventSink>,
    state: DownstreamState,
}

impl View for Downstream {
    type V = DownstreamM;

    closed spec fn view(&self) -> DownstreamM {
        DownstreamM {
            id: self.id.0,
            req_id: self.req_id,
            conn_id: self.conn_id.0,
            peer: self.peer@,
            region_epoch: self.region_epoch,
            sink: match &self.sink {
                Some(s) => Some(s@),
                None => None,
            },
            state: self.state,
        }
    }
}

/// The event `ev` as downstream `d` records it: stamped with the
/// downstream's request id.
pub open spec fn stamped(ev: EventV, req_id: u64) -> EventV {
    EventV { request_id: req_id, ..ev }
}

/// Downstream `d` after one event was handed to its sink (a downstream
/// without a sink drops the event).
pub open spec fn sunk(d: DownstreamM, ev: EventV) -> DownstreamM {
    match d.sink {
        Some(log) => DownstreamM { sink: Some(log.push(stamped(ev, d.req_id))), ..d },
        None => d,
    }
}

impl Downstream {
    /// Creates a downstream handle.
    ///
    /// `peer` is the address of the subscriber, `id` its unique
    /// identifier. No sink is attached yet; the state starts
    /// uninitialized.
    pub fn new(
        peer: String,
        region_epoch: RegionEpoch,
        req_id: u64,
        conn_id: ConnID,
        id: DownstreamID,
    ) -> (r: Downstream)
        ensures
            r@ == (DownstreamM {
                id: id.0,
                req_id,
                conn_id: conn_id.0,
                peer: peer@,
                region_epoch,
                sink: None,
                state: DownstreamState::Uninitialized,
            }),
    {
        Downstream {
            id,
            req_id,
            conn_id,
            peer,
            region_epoch,
            sink: None,
            state: DownstreamState::Uninitialized,
        }
    }

    /// Hands one event to this downstream's sink, stamped with its
    /// request id; without a sink the event is dropped.
    pub fn sink_event(&mut self, ev: Event)
        ensures
            final(self)@ == sunk(old(self)@, ev@),
    {
        let mut ev = ev;
        ev.request_id = self.req_id;
        match &mut self.sink {
            Some(s) => {
                s.send(ev);
            },
            None => {},
        }
    }

    /// Attaches the sink that carries events to the subscriber.
    pub fn set_sink(&mut self, sink: EventSink)
        ensures
            final(self)@ == (DownstreamM { sink: Some(sink@), ..old(self)@ }),
    {
        self.sink = Some(sink);
    }

    /// The unique identifier.
    pub fn get_id(&self) -> (r: DownstreamID)
        ensures
            r.0 == self@.id,
    {
        self.id
    }

    /// The current lifecycle state.
    pub fn get_state(&self) -> (r: DownstreamState)
        ensures
            r == self@.state,
    {
        self.state
    }

    /// Moves the downstream to a new lifecycle state.
    pub fn set_state(&mut self, state: DownstreamState)
        ensures
            final(self)@ == (DownstreamM { state, ..old(self)@ }),
    {
        self.state = state;
    }

    /// The connection this downstream arrived on.
    pub fn get_conn_id(&self) -> (r: ConnID)
        ensures
            r.0 == self@.conn_id,
    {
        self.conn_id
    }

    /// Reports a duplicate subscription for the region to this
    /// downstream.
    pub fn sink_duplicate_error(&mut self, region_id: u64)
        ensures
            final(self)@ == sunk(
                old(self)@,
                EventV {
                    region_id,
                    index: 0,
                    request_id: 0,
                    payload: PayloadV::Error(ErrV::DuplicateRequest(region_id)),
                },
            ),
    {
        let ev = Event {
            region_id,
            index: 0,
            request_id: 0,
            payload: EventPayload::Error(crate::events::EventError::DuplicateRequest(region_id)),
        };
        self.sink_event(ev);
    }

    /// Reports a compatibility problem to this downstream.
    pub fn sink_compatibility_error(&mut self, region_id: u64, compat: String)
        ensures
            final(self)@ == sunk(
                old(self)@,
                EventV {
                    region_id,
                    index: 0,
                    request_id: 0,
                    payload: PayloadV::Error(ErrV::Compatibility(compat@)),
                },
            ),
    {
        let ev = Event {
            region_id,
            index: 0,
            request_id: 0,
            payload: EventPayload::Error(crate::events::EventError::Compatibility(compat)),
        };
        self.sink_event(ev);
    }
}

/// A lock bookkeeping operation deferred while the region initializes.
enum PendingLock {
    Track { key: Vec<u8>, start_ts: TimeStamp },
    Untrack { key: Vec<u8>, start_ts: TimeStamp, commit_ts: Option<TimeStamp> },
}

/// The mathematical image of a deferred lock operation.
pub enum LockOpV {
    Track { key: Seq<u8>, start_ts: u64 },
    Untrack { key: Seq<u8>, start_ts: u64, commit_ts: Option<u64> },
}

impl View for PendingLock {
    type V = LockOpV;

    closed spec fn view(&self) -> LockOpV {
        match self {
            PendingLock::Track { key, start_ts } => LockOpV::Track {
                key: key@,
                start_ts: start_ts.0,
            },
            PendingLock::Untrack { key, start_ts, commit_ts } => LockOpV::Untrack {
                key: key@,
                start_ts: start_ts.0,
                commit_ts: match commit_ts {
                    Some(t) => Some(t.0),
                    None => None,
                },
            },
        }
    }
}

/// A resolver's lock list after one deferred operation is replayed.
pub open spec fn apply_lock_op(locks: Seq<LockV>, op: LockOpV) -> Seq<LockV> {
    match op {
        LockOpV::Track { key, start_ts } => locks.push(LockV { start_ts, key }),
        LockOpV::Untrack { key, start_ts, commit_ts: _ } => remove_first_lock(
            locks,
            LockV { start_ts, key },
        ),
    }
}

/// A resolver's lock list after a deferred history is replayed in order.
pub open spec fn replay_lock_ops(locks: Seq<LockV>, ops: Seq<LockOpV>) -> Seq<LockV>
    decreases ops.len(),
{
    if ops.len() == 0 {
        locks
    } else {
        replay_lock_ops(apply_lock_op(locks, ops[0]), ops.drop_first())
    }
}

/// Deferral changes nothing: replaying a buffered history of lock
/// operations and then continuing online leaves the resolver with
/// exactly the locks that applying the whole history online would have
/// left. Replay preserves observation order, so the eventual resolver
/// state equals the online-tracked state.
pub proof fn lemma_replay_preserves_order(
    locks: Seq<LockV>,
    deferred: Seq<LockOpV>,
    online: Seq<LockOpV>,
)
    ensures
        replay_lock_ops(locks, deferred + online) == replay_lock_ops(
            replay_lock_ops(locks, deferred),
            online,
        ),
    decreases deferred.len(),
{
    if deferred.len() == 0 {
        assert(deferred + online =~= online);
    } else {
        assert((deferred + online)[0] == deferred[0]);
        assert((deferred + online).drop_first() =~= deferred.drop_first() + online);
        lemma_replay_preserves_order(
            apply_lock_op(locks, deferred[0]),
            deferred.drop_first(),
            online,
        );
    }
}

/// What the delegate buffers while the region initializes: deferred
/// subscribers, deferred lock operations, and the byte gauge of the
/// deferred keys.
struct Pending {
    downstreams: Vec<Downstream>,
    locks: Vec<PendingLock>,
    pending_bytes: u64,
}

/// The mathematical image of the pending buffer.
#[verifier::ext_equal]
pub struct PendingM {
    pub downstreams: Seq<DownstreamM>,
    pub locks: Seq<LockOpV>,
    pub pending_bytes: u64,
}

impl View for Pending {
    type V = PendingM;

    closed spec fn view(&self) -> PendingM {
        PendingM {
            downstreams: Seq::new(self.downstreams@.len(), |i: int| self.downstreams@[i]@),
            locks: Seq::new(self.locks@.len(), |i: int| self.locks@[i]@),
            pending_bytes: self.pending_bytes,
        }
    }
}

/// The mathematical image of a resolver.
#[verifier::ext_equal]
pub struct ResolverM {
    pub region_id: u64,
    pub locks: Seq<LockV>,
    pub resolved_ts: u64,
    pub initialized: bool,
}

/// The image of a resolver value.
pub open spec fn resolver_m(r: &Resolver) -> ResolverM {
    ResolverM {
        region_id: r.region(),
        locks: r.locks(),
        resolved_ts: r.resolved(),
        initialized: r.is_init(),
    }
}

/// The mathematical image of a delegate.
#[verifier::ext_equal]
pub struct DelegateM {
    pub id: ObserveId,
    pub region_id: u64,
    pub region: Option<RegionV>,
    /// The active subscribers (populated once the region is ready).
    pub downstreams: Seq<DownstreamM>,
    pub resolver: Option<ResolverM>,
    pub pending: Option<PendingM>,
    pub enabled: bool,
    pub failed: bool,
    pub txn_extra_op: TxnExtraOp,
}

impl DelegateM {
    /// The downstream list that operations address: the pending list
    /// while the region initializes, the active list afterwards.
    pub open spec fn live(self) -> Seq<DownstreamM> {
        match self.pending {
            Some(p) => p.downstreams,
            None => self.downstreams,
        }
    }

    /// Structural invariant: the delegate is either initializing (a
    /// pending buffer, no region, no resolver) or ready (region and
    /// resolver installed, no pending buffer), one-shot and irreversible.
    pub open spec fn inv(self) -> bool {
        &&& (self.pending is Some <==> self.region is None)
        &&& (self.resolver is Some <==> self.region is Some)
        &&& (self.pending is Some ==> self.downstreams.len() == 0)
    }
}

/// A CDC delegate of one region peer.
pub struct Delegate {
    id: ObserveId,
    region_id: u64,
    region: Option<Region>,
    downstreams: Vec<Downstream>,
    resolver: Option<Resolver>,
    pending: Option<Pending>,
    enabled: bool,
    failed: bool,
    txn_extra_op: TxnExtraOp,
}

impl View for Delegate {
    type V = DelegateM;

    closed spec fn view(&self) -> DelegateM {
        DelegateM {
            id: self.id,
            region_id: self.region_id,
            region: match &self.region {
                Some(r) => Some(r@),
                None => None,
            },
            downstreams: Seq::new(self.downstreams@.len(), |i: int| self.downstreams@[i]@),
            resolver: match &self.resolver {
                Some(r) => Some(resolver_m(r)),
                None => None,
            },
            pending: match &self.pending {
                Some(p) => Some(p@),
                None => None,
            },
            enabled: self.enabled,
            failed: self.failed,
            txn_extra_op: self.txn_extra_op,
        }
    }
}

/// The error event the delegate synthesizes from a wire error header:
/// the not-leader or epoch-not-match detail when present, otherwise a
/// region-not-found for this region.
pub open spec fn error_event_v(region_id: u64, h: HeaderV) -> EventV {
    let err = if h.not_leader is Some {
        ErrV::NotLeader(h.not_leader->Some_0)
    } else if h.epoch_not_match is Some {
        ErrV::EpochNotMatch(h.epoch_not_match->Some_0)
    } else {
        ErrV::RegionNotFound(RegionNotFoundInfo { region_id })
    };
    EventV { region_id, index: 0, request_id: 0, payload: PayloadV::Error(err) }
}

/// The resolved-timestamp event for a region.
pub open spec fn resolved_ts_event_v(region_id: u64, ts: u64) -> EventV {
    EventV { region_id, index: 0, request_id: 0, payload: PayloadV::ResolvedTs(ts) }
}

/// Every downstream stopped and, where a sink is attached, handed one
/// copy of `ev`.
pub open spec fn stopped_and_notified(ds: Seq<DownstreamM>, ev: EventV) -> Seq<DownstreamM> {
    Seq::new(
        ds.len(),
        |i: int| sunk(DownstreamM { state: DownstreamState::Stopped, ..ds[i] }, ev),
    )
}

/// The downstream list after a broadcast: each addressed downstream
/// (every one, or only those in `Normal` state) is handed one copy of
/// `ev`.
pub open spec fn broadcast_to(ds: Seq<DownstreamM>, ev: EventV, normal_only: bool) -> Seq<
    DownstreamM,
> {
    Seq::new(
        ds.len(),
        |i: int|
            if !normal_only || ds[i].state == DownstreamState::Normal {
                sunk(ds[i], ev)
            } else {
                ds[i]
            },
    )
}

/// Largest cumulative `key + value` size of one entries event emitted by
/// the initial scan.
pub const EVENT_MAX_SIZE: usize = 6 * 1024 * 1024;

/// The synchronous collaborator that fetches the value a key held before
/// the current transaction; injected into command processing.
pub trait OldValueReader {
    /// The prior value this reader returns for a timestamped key.
    spec fn old_value_spec(&self, key: Seq<u8>) -> Option<Seq<u8>>;

    /// Fetches the prior value stored under a timestamped key.
    fn read_old_value(&self, key: Key) -> (r: Option<Vec<u8>>)
        ensures
            match self.old_value_spec(key@) {
                Some(v) => r is Some && r->Some_0@ == v,
                None => r is None,
            },
    ;
}

/// The first value stored under a key in an association table.
pub open spec fn table_lookup(s: Seq<(Seq<u8>, Seq<u8>)>, k: Seq<u8>) -> Option<Seq<u8>>
    decreases s.len(),
{
    if s.len() == 0 {
        None
    } else if s[0].0 == k {
        Some(s[0].1)
    } else {
        table_lookup(s.drop_first(), k)
    }
}

/// An old-value reader backed by a staged table: callers that have the
/// prior values at hand store them under the timestamped keys the data
/// path will ask for.
pub struct OldValueTable {
    entries: Vec<(Vec<u8>, Vec<u8>)>,
}

impl View for OldValueTable {
    type V = Seq<(Seq<u8>, Seq<u8>)>;

    closed spec fn view(&self) -> Seq<(Seq<u8>, Seq<u8>)> {
        Seq::new(self.entries@.len(), |i: int| (self.entries@[i].0@, self.entries@[i].1@))
    }
}

impl OldValueTable {
    /// An empty table: every lookup misses.
    pub fn new() -> (r: OldValueTable)
        ensures
            r@ =~= Seq::<(Seq<u8>, Seq<u8>)>::empty(),
    {
        OldValueTable { entries: Vec::new() }
    }

    /// Stages the prior value of one timestamped key.
    pub fn stage(&mut self, key: Vec<u8>, value: Vec<u8>)
        ensures
            final(self)@ == old(self)@.push((key@, value@)),
    {
        self.entries.push((key, value));
        proof {
            assert(self@ =~= old(self)@.push(
                (self.entries@.last().0@, self.entries@.last().1@),
            ));
        }
    }
}

impl OldValueReader for OldValueTable {
    open spec fn old_value_spec(&self, key: Seq<u8>) -> Option<Seq<u8>> {
        table_lookup(self@, key)
    }

    fn read_old_value(&self, key: Key) -> (r: Option<Vec<u8>>) {
        let n = self.entries.len();
        let mut i: usize = 0;
        proof {
            assert(self@.skip(0) =~= self@);
        }
        #[verifier::loop_isolation(false)]
        while i < n
            invariant
                i <= n,
                n == self@.len(),
                table_lookup(self@, key@) == table_lookup(self@.skip(i as int), key@),
            decreases n - i,
        {
            let ghost rem0 = self@.skip(i as int);
            proof {
                assert(rem0[0] == self@[i as int]);
                assert(rem0.drop_first() =~= self@.skip(i + 1));
            }
            if crate::codec::bytes_eq(self.entries[i].0.as_slice(), key.as_encoded().as_slice()) {
                let v = clone_bytes(&self.entries[i].1);
                proof {
                    assert(rem0[0].0 == key@);
                    assert(table_lookup(rem0, key@) == Some(rem0[0].1));
                    assert(v@ == self@[i as int].1);
                }
                return Some(v);
            }
            i += 1;
        }
        proof {
            assert(self@.skip(n as int) =~= Seq::<(Seq<u8>, Seq<u8>)>::empty());
        }
        None
    }
}

/// Whether a write-column-family put is well formed: the record parses
/// and, unless it is skipped, the key is timestamped and decodes.
pub open spec fn wf_write_put(key: Seq<u8>, value: Seq<u8>) -> bool {
    &&& parse_write(value) is Some
    &&& (parse_write(value)->Some_0.kind != WriteKind::Lock ==> key.len() >= 8 && dec_bytes(
        key.take(key.len() - 8),
    ) is Ok)
}

/// Whether a lock-column-family put is well formed: the record parses
/// and, unless it is skipped, the key decodes.
pub open spec fn wf_lock_put(key: Seq<u8>, value: Seq<u8>) -> bool {
    &&& parse_lock(value) is Some
    &&& ({
        let kind = parse_lock(value)->Some_0.kind;
        (kind == LockKind::Put || kind == LockKind::Delete) ==> dec_bytes(key) is Ok
    })
}

/// The row a write record sets, over a base row whose `value` (when no
/// short value is inlined) and `old_value` it keeps.
pub open spec fn write_row_v(key: Seq<u8>, w: WriteRecV, base: RowV) -> RowV {
    RowV {
        start_ts: w.start_ts,
        commit_ts: if w.kind == WriteKind::Rollback {
            0
        } else {
            ts_of_suffix(key.skip(key.len() - 8))
        },
        key: dec_bytes(key.take(key.len() - 8))->Ok_0,
        value: match w.short_value {
            Some(v) => v,
            None => base.value,
        },
        old_value: base.old_value,
        op_type: match w.kind {
            WriteKind::Put => OpType::Put,
            WriteKind::Delete => OpType::Delete,
            _ => OpType::Unknown,
        },
        log_type: if w.kind == WriteKind::Rollback {
            LogType::Rollback
        } else {
            LogType::Commit
        },
    }
}

/// The row a lock record sets, over a base row whose `commit_ts`,
/// `value` (when no short value is inlined) and `old_value` it keeps.
pub open spec fn lock_row_v(key: Seq<u8>, l: LockRecV, base: RowV) -> RowV {
    RowV {
        start_ts: l.ts,
        commit_ts: base.commit_ts,
        key: dec_bytes(key)->Ok_0,
        value: match l.short_value {
            Some(v) => v,
            None => base.value,
        },
        old_value: base.old_value,
        op_type: match l.kind {
            LockKind::Put => OpType::Put,
            LockKind::Delete => OpType::Delete,
            _ => OpType::Unknown,
        },
        log_type: LogType::Prewrite,
    }
}

/// Sets the log type of a row.
pub fn set_event_row_type(row: &mut EventRow, ty: LogType)
    ensures
        final(row)@ == (RowV { log_type: ty, ..old(row)@ }),
{
    row.log_type = ty;
}

/// Decodes a write-column-family put into an event row. Returns true,
/// leaving the row alone, when the record is of a kind the stream skips.
pub fn decode_write(key: Vec<u8>, value: &[u8], row: &mut EventRow) -> (skip: bool)
    requires
        wf_write_put(key@, value@),
    ensures
        ({
            let w = parse_write(value@)->Some_0;
            if w.kind == WriteKind::Lock {
                skip && final(row)@ == old(row)@
            } else {
                !skip && final(row)@ == write_row_v(key@, w, old(row)@)
            }
        }),
{
    let rec = match parse_write_record(value) {
        Some(rec) => rec,
        None => vstd::pervasive::unreached(),
    };
    match rec.kind {
        WriteKind::Lock => true,
        _ => {
            let op_type = match rec.kind {
                WriteKind::Put => OpType::Put,
                WriteKind::Delete => OpType::Delete,
                _ => OpType::Unknown,
            };
            let log_type = match rec.kind {
                WriteKind::Rollback => LogType::Rollback,
                _ => LogType::Commit,
            };
            let key = crate::key::Key::from_encoded(key);
            let commit_ts: u64 = match rec.kind {
                WriteKind::Rollback => 0,
                _ => match key.decode_ts() {
                    Ok(t) => t.0,
                    Err(_) => vstd::pervasive::unreached(),
                },
            };
            let user_key = match key.truncate_ts() {
                Ok(k) => k,
                Err(_) => vstd::pervasive::unreached(),
            };
            let raw = match user_key.into_raw() {
                Ok(r) => r,
                Err(_) => vstd::pervasive::unreached(),
            };
            row.start_ts = rec.start_ts;
            row.commit_ts = commit_ts;
            row.key = raw;
            row.op_type = op_type;
            set_event_row_type(row, log_type);
            if let Some(value) = rec.short_value {
                row.value = value;
            }
            false
        },
    }
}

/// Decodes a lock-column-family put into an event row. Returns true,
/// leaving the row alone, when the lock is of a kind the stream skips.
pub fn decode_lock(key: Vec<u8>, value: &[u8], row: &mut EventRow) -> (skip: bool)
    requires
        wf_lock_put(key@, value@),
    ensures
        ({
            let l = parse_lock(value@)->Some_0;
            if l.kind == LockKind::Put || l.kind == LockKind::Delete {
                !skip && final(row)@ == lock_row_v(key@, l, old(row)@)
            } else {
                skip && final(row)@ == old(row)@
            }
        }),
{
    let rec = match parse_lock_record(value) {
        Some(rec) => rec,
        None => vstd::pervasive::unreached(),
    };
    let op_type = match rec.kind {
        LockKind::Put => OpType::Put,
        LockKind::Delete => OpType::Delete,
        _ => {
            return true;
        },
    };
    let key = crate::key::Key::from_encoded(key);
    let raw = match key.into_raw() {
        Ok(r) => r,
        Err(_) => vstd::pervasive::unreached(),
    };
    row.start_ts = rec.ts;
    row.key = raw;
    row.op_type = op_type;
    set_event_row_type(row, LogType::Prewrite);
    if let Some(value) = rec.short_value {
        row.value = value;
    }
    false
}

/// Merges a default-column-family value into the row for its key; an
/// empty value changes nothing.
pub fn decode_default(value: Vec<u8>, row: &mut EventRow)
    ensures
        final(row)@ == (RowV {
            value: if value@.len() > 0 {
                value@
            } else {
                old(row)@.value
            },
            ..old(row)@
        }),
{
    if !value.is_empty() {
        row.value = value;
    }
}

/// The images of the aggregated rows of one data command, keyed by raw
/// user key in first-touch order.
pub open spec fn rows_v(rows: Seq<(Vec<u8>, EventRow)>) -> Seq<(Seq<u8>, RowV)> {
    Seq::new(rows.len(), |i: int| (rows[i].0@, rows[i].1@))
}

/// The rows of an aggregation, in order, without their keys.
pub open spec fn row_values(acc: Seq<(Seq<u8>, RowV)>) -> Seq<RowV> {
    Seq::new(acc.len(), |i: int| acc[i].1)
}

/// First index of key `k` among the aggregated rows, or -1.
pub open spec fn find_key(acc: Seq<(Seq<u8>, RowV)>, k: Seq<u8>) -> int
    decreases acc.len(),
{
    if acc.len() == 0 {
        -1
    } else if acc[0].0 == k {
        0
    } else {
        let r = find_key(acc.drop_first(), k);
        if r < 0 {
            -1
        } else {
            r + 1
        }
    }
}

/// A found key lies in range and names a row with that key.
pub proof fn lemma_find_key_props(acc: Seq<(Seq<u8>, RowV)>, k: Seq<u8>)
    ensures
        find_key(acc, k) >= 0 ==> find_key(acc, k) < acc.len() && acc[find_key(acc, k)].0 == k,
    decreases acc.len(),
{
    if acc.len() > 0 && acc[0].0 != k {
        lemma_find_key_props(acc.drop_first(), k);
    }
}

/// The first match determines `find_key`.
pub proof fn lemma_find_key_at(acc: Seq<(Seq<u8>, RowV)>, k: Seq<u8>, i: int)
    requires
        0 <= i < acc.len(),
        acc[i].0 == k,
        forall|j: int| 0 <= j < i ==> acc[j].0 != k,
    ensures
        find_key(acc, k) == i,
    decreases i,
{
    if i > 0 {
        lemma_find_key_at(acc.drop_first(), k, i - 1);
    }
}

/// A key under no row is not found.
pub proof fn lemma_find_key_absent(acc: Seq<(Seq<u8>, RowV)>, k: Seq<u8>)
    requires
        forall|j: int| 0 <= j < acc.len() ==> acc[j].0 != k,
    ensures
        find_key(acc, k) < 0,
    decreases acc.len(),
{
    if acc.len() > 0 {
        lemma_find_key_absent(acc.drop_first(), k);
    }
}

/// The old value attached to a prewrite row: what the reader returns for
/// the raw key re-encoded with the transaction start timestamp, or empty.
pub open spec fn ov_of<R: OldValueReader>(reader: &R, raw: Seq<u8>, ts: u64) -> Seq<u8> {
    match reader.old_value_spec(crate::codec::enc_bytes(raw) + crate::codec::ts_suffix(ts)) {
        Some(v) => v,
        None => Seq::empty(),
    }
}

/// One put request folded into the aggregated rows of a data command.
pub open spec fn step_row<R: OldValueReader>(
    acc: Seq<(Seq<u8>, RowV)>,
    req: RequestV,
    read_old: bool,
    reader: &R,
) -> Seq<(Seq<u8>, RowV)> {
    match req {
        RequestV::Put { cf, key, value } => match cf {
            CfName::Write => {
                let w = parse_write(value)->Some_0;
                if w.kind == WriteKind::Lock {
                    acc
                } else {
                    acc.push(
                        (
                            dec_bytes(key.take(key.len() - 8))->Ok_0,
                            write_row_v(key, w, empty_row()),
                        ),
                    )
                }
            },
            CfName::Lock => {
                let l = parse_lock(value)->Some_0;
                if l.kind == LockKind::Put || l.kind == LockKind::Delete {
                    let k = dec_bytes(key)->Ok_0;
                    let row0 = lock_row_v(key, l, empty_row());
                    let row1 = RowV {
                        old_value: if read_old {
                            ov_of(reader, k, l.ts)
                        } else {
                            Seq::empty()
                        },
                        ..row0
                    };
                    let i = find_key(acc, k);
                    if i >= 0 {
                        let occ = acc[i].1;
                        let row2 = if occ.value.len() > 0 {
                            RowV { value: occ.value, ..row1 }
                        } else {
                            row1
                        };
                        acc.update(i, (k, row2))
                    } else {
                        acc.push((k, row1))
                    }
                } else {
                    acc
                }
            },
            CfName::Default => {
                let k = dec_bytes(key.take(key.len() - 8))->Ok_0;
                let i = find_key(acc, k);
                if i >= 0 {
                    acc.update(
                        i,
                        (
                            k,
                            RowV {
                                value: if value.len() > 0 {
                                    value
                                } else {
                                    acc[i].1.value
                                },
                                ..acc[i].1
                            },
                        ),
                    )
                } else {
                    acc.push(
                        (
                            k,
                            RowV {
                                value: if value.len() > 0 {
                                    value
                                } else {
                                    Seq::empty()
                                },
                                ..empty_row()
                            },
                        ),
                    )
                }
            },
            _ => acc,
        },
        _ => acc,
    }
}

/// Whether folding this put over the aggregated rows meets the data
/// path's assertions: put requests name a known column family, their
/// records parse, a commit row's key is fresh, and a prewrite's inline
/// value never collides with a value already aggregated for its key.
pub open spec fn step_ok(acc: Seq<(Seq<u8>, RowV)>, req: RequestV) -> bool {
    match req {
        RequestV::Put { cf, key, value } => match cf {
            CfName::Write => wf_write_put(key, value) && (parse_write(value)->Some_0.kind
                != WriteKind::Lock ==> find_key(acc, dec_bytes(key.take(key.len() - 8))->Ok_0)
                < 0),
            CfName::Lock => wf_lock_put(key, value) && ({
                let l = parse_lock(value)->Some_0;
                (l.kind == LockKind::Put || l.kind == LockKind::Delete) ==> ({
                    let i = find_key(acc, dec_bytes(key)->Ok_0);
                    (i >= 0 && acc[i].1.value.len() > 0) ==> l.short_value is None
                })
            }),
            CfName::Default => key.len() >= 8 && dec_bytes(key.take(key.len() - 8)) is Ok,
            _ => false,
        },
        _ => true,
    }
}

/// Whether every request of a data command can be folded in turn.
pub open spec fn steps_ok<R: OldValueReader>(
    acc: Seq<(Seq<u8>, RowV)>,
    reqs: Seq<RequestV>,
    read_old: bool,
    reader: &R,
) -> bool
    decreases reqs.len(),
{
    reqs.len() == 0 || (step_ok(acc, reqs[0]) && steps_ok(
        step_row(acc, reqs[0], read_old, reader),
        reqs.drop_first(),
        read_old,
        reader,
    ))
}

/// The aggregated rows of a data command: every put folded in order.
pub open spec fn sink_rows<R: OldValueReader>(
    acc: Seq<(Seq<u8>, RowV)>,
    reqs: Seq<RequestV>,
    read_old: bool,
    reader: &R,
) -> Seq<(Seq<u8>, RowV)>
    decreases reqs.len(),
{
    if reqs.len() == 0 {
        acc
    } else {
        sink_rows(step_row(acc, reqs[0], read_old, reader), reqs.drop_first(), read_old, reader)
    }
}

/// The resolver bookkeeping effect of one request, if it has one: a
/// commit (or rollback) untracks its lock, a prewrite tracks one.
pub open spec fn lock_op_of(req: RequestV) -> Option<LockOpV> {
    match req {
        RequestV::Put { cf, key, value } => match cf {
            CfName::Write => {
                let w = parse_write(value)->Some_0;
                if w.kind == WriteKind::Lock {
                    None
                } else {
                    let c = if w.kind == WriteKind::Rollback {
                        0
                    } else {
                        ts_of_suffix(key.skip(key.len() - 8))
                    };
                    Some(
                        LockOpV::Untrack {
                            key: dec_bytes(key.take(key.len() - 8))->Ok_0,
                            start_ts: w.start_ts,
                            commit_ts: if c == 0 {
                                None
                            } else {
                                Some(c)
                            },
                        },
                    )
                }
            },
            CfName::Lock => {
                let l = parse_lock(value)->Some_0;
                if l.kind == LockKind::Put || l.kind == LockKind::Delete {
                    Some(LockOpV::Track { key: dec_bytes(key)->Ok_0, start_ts: l.ts })
                } else {
                    None
                }
            },
            _ => None,
        },
        _ => None,
    }
}

/// The resolver bookkeeping effects of a data command, in order. Each
/// lock-column-family row contributes exactly one track and each
/// unskipped write-column-family row exactly one untrack.
pub open spec fn lock_ops_of(reqs: Seq<RequestV>) -> Seq<LockOpV>
    decreases reqs.len(),
{
    if reqs.len() == 0 {
        Seq::empty()
    } else {
        (match lock_op_of(reqs[0]) {
            Some(op) => seq![op],
            None => Seq::empty(),
        }) + lock_ops_of(reqs.drop_first())
    }
}

/// The number of key bytes a deferred lock operation holds.
pub open spec fn op_key_len(op: LockOpV) -> nat {
    match op {
        LockOpV::Track { key, .. } => key.len(),
        LockOpV::Untrack { key, .. } => key.len(),
    }
}

/// Saturating 64-bit addition.
pub open spec fn sat_add64(a: u64, b: nat) -> u64 {
    if a + b > u64::MAX {
        u64::MAX
    } else {
        (a + b) as u64
    }
}

/// The pending-byte gauge after deferring a list of lock operations.
pub open spec fn bytes_after(b: u64, ops: Seq<LockOpV>) -> u64
    decreases ops.len(),
{
    if ops.len() == 0 {
        b
    } else {
        bytes_after(sat_add64(b, op_key_len(ops[0])), ops.drop_first())
    }
}

/// The delegate after the lock effects of a data command: deferred into
/// the pending buffer while initializing, applied to the resolver once
/// ready.
pub open spec fn after_lock_effects(
    m: DelegateM,
    rlocks: Seq<LockV>,
    plocks: Seq<LockOpV>,
    pbytes: u64,
) -> DelegateM {
    match m.pending {
        Some(p) => DelegateM {
            pending: Some(
                PendingM { downstreams: p.downstreams, locks: plocks, pending_bytes: pbytes },
            ),
            ..m
        },
        None => DelegateM {
            resolver: Some(ResolverM { locks: rlocks, ..m.resolver->Some_0 }),
            ..m
        },
    }
}

/// Replaying one operation and then a history equals replaying the
/// history from the operation's result.
pub proof fn lemma_replay_cons(locks: Seq<LockV>, op: LockOpV, rest: Seq<LockOpV>)
    ensures
        replay_lock_ops(locks, seq![op] + rest) == replay_lock_ops(apply_lock_op(locks, op), rest),
{
    assert((seq![op] + rest)[0] == op);
    assert((seq![op] + rest).drop_first() =~= rest);
}

/// One entry of the initial scan of a region: a still-prewritten intent,
/// a committed record, or the end-of-scan sentinel (`None` in the entry
/// list). Each carries its default-column-family pair and optionally the
/// value the key held before.
pub enum TxnEntry {
    Prewrite { default: (Vec<u8>, Vec<u8>), lock: (Vec<u8>, Vec<u8>), old_value: Option<Vec<u8>> },
    Commit { default: (Vec<u8>, Vec<u8>), write: (Vec<u8>, Vec<u8>), old_value: Option<Vec<u8>> },
}

/// The mathematical image of a scan entry.
pub enum TxnEntryV {
    Prewrite {
        default: (Seq<u8>, Seq<u8>),
        lock: (Seq<u8>, Seq<u8>),
        old_value: Option<Seq<u8>>,
    },
    Commit {
        default: (Seq<u8>, Seq<u8>),
        write: (Seq<u8>, Seq<u8>),
        old_value: Option<Seq<u8>>,
    },
}

impl View for TxnEntry {
    type V = TxnEntryV;

    open spec fn view(&self) -> TxnEntryV {
        match self {
            TxnEntry::Prewrite { default, lock, old_value } => TxnEntryV::Prewrite {
                default: (default.0@, default.1@),
                lock: (lock.0@, lock.1@),
                old_value: match old_value {
                    Some(v) => Some(v@),
                    None => None,
                },
            },
            TxnEntry::Commit { default, write, old_value } => TxnEntryV::Commit {
                default: (default.0@, default.1@),
                write: (write.0@, write.1@),
                old_value: match old_value {
                    Some(v) => Some(v@),
                    None => None,
                },
            },
        }
    }
}

/// The images of a list of optional scan entries.
pub open spec fn entries_v(es: Seq<Option<TxnEntry>>) -> Seq<Option<TxnEntryV>> {
    Seq::new(
        es.len(),
        |i: int|
            match es[i] {
                Some(e) => Some(e@),
                None => None,
            },
    )
}

/// The row one scan entry contributes, or nothing when the entry is of a
/// kind the scan skips (non-put, non-delete locks; rollbacks).
pub open spec fn scan_row(e: TxnEntryV) -> Option<RowV> {
    match e {
        TxnEntryV::Prewrite { default, lock, old_value } => {
            let l = parse_lock(lock.1)->Some_0;
            if l.kind == LockKind::Put || l.kind == LockKind::Delete {
                let row0 = lock_row_v(lock.0, l, empty_row());
                let row1 = RowV {
                    value: if default.1.len() > 0 {
                        default.1
                    } else {
                        row0.value
                    },
                    ..row0
                };
                Some(
                    RowV {
                        old_value: match old_value {
                            Some(v) => v,
                            None => Seq::empty(),
                        },
                        ..row1
                    },
                )
            } else {
                None
            }
        },
        TxnEntryV::Commit { default, write, old_value } => {
            let w = parse_write(write.1)->Some_0;
            if w.kind == WriteKind::Lock || w.kind == WriteKind::Rollback {
                None
            } else {
                let row0 = write_row_v(write.0, w, empty_row());
                let row1 = RowV {
                    value: if default.1.len() > 0 {
                        default.1
                    } else {
                        row0.value
                    },
                    ..row0
                };
                Some(
                    RowV {
                        log_type: LogType::Committed,
                        old_value: match old_value {
                            Some(v) => v,
                            None => Seq::empty(),
                        },
                        ..row1
                    },
                )
            }
        },
    }
}

/// Whether one scan entry is well formed: its record parses and, when it
/// is not skipped, its key decodes.
pub open spec fn scan_entry_wf(e: Option<TxnEntryV>) -> bool {
    match e {
        Some(TxnEntryV::Prewrite { lock, .. }) => wf_lock_put(lock.0, lock.1),
        Some(TxnEntryV::Commit { write, .. }) => wf_write_put(write.0, write.1),
        None => true,
    }
}

/// Whether every entry of a scan is well formed.
pub open spec fn scan_wf(es: Seq<Option<TxnEntryV>>) -> bool {
    forall|i: int| 0 <= i < es.len() ==> scan_entry_wf(#[trigger] es[i])
}

/// Whether the row one scan entry contributes stays below the event
/// size budget on its own.
pub open spec fn scan_entry_bounded(e: Option<TxnEntryV>) -> bool {
    match e {
        Some(entry) => match scan_row(entry) {
            Some(row) => EventRow::size(row) < EVENT_MAX_SIZE,
            None => true,
        },
        None => true,
    }
}

/// Whether every row of a scan stays below the event size budget.
pub open spec fn scan_bounded(es: Seq<Option<TxnEntryV>>) -> bool {
    forall|i: int| 0 <= i < es.len() ==> scan_entry_bounded(#[trigger] es[i])
}

/// One scan entry folded into the chunked rows: the running chunk takes
/// the next row unless that would reach the size budget, in which case a
/// new chunk starts; the end-of-scan sentinel appends an `Initialized`
/// row without size bookkeeping.
pub open spec fn scan_step(st: (Seq<Seq<RowV>>, int), e: Option<TxnEntryV>) -> (
    Seq<Seq<RowV>>,
    int,
)
    recommends
        st.0.len() >= 1,
{
    match e {
        None => {
            let init = RowV { log_type: LogType::Initialized, ..empty_row() };
            (st.0.update(st.0.len() - 1, st.0.last().push(init)), st.1)
        },
        Some(entry) => match scan_row(entry) {
            None => st,
            Some(row) => {
                let size = EventRow::size(row);
                let st2 = if st.1 + size >= EVENT_MAX_SIZE {
                    (st.0.push(Seq::<RowV>::empty()), 0int)
                } else {
                    st
                };
                (st2.0.update(st2.0.len() - 1, st2.0.last().push(row)), st2.1 + size)
            },
        },
    }
}

/// The chunked rows after folding a list of scan entries.
pub open spec fn scan_fold(es: Seq<Option<TxnEntryV>>, st: (Seq<Seq<RowV>>, int)) -> (
    Seq<Seq<RowV>>,
    int,
)
    decreases es.len(),
{
    if es.len() == 0 {
        st
    } else {
        scan_fold(es.drop_first(), scan_step(st, es[0]))
    }
}

/// The chunked rows of one initial scan.
pub open spec fn scan_chunks(es: Seq<Option<TxnEntryV>>) -> Seq<Seq<RowV>> {
    scan_fold(es, (seq![Seq::<RowV>::empty()], 0int)).0
}

/// The entries events one scan emits to its downstream: one per
/// non-empty chunk, in order.
pub open spec fn scan_events(chunks: Seq<Seq<RowV>>, region_id: u64) -> Seq<EventV>
    decreases chunks.len(),
{
    if chunks.len() == 0 {
        Seq::empty()
    } else {
        let rest = scan_events(chunks.drop_first(), region_id);
        if chunks[0].len() > 0 {
            seq![
                EventV {
                    region_id,
                    index: 0,
                    request_id: 0,
                    payload: PayloadV::Entries(chunks[0]),
                },
            ] + rest
        } else {
            rest
        }
    }
}

/// A downstream after a list of events was handed to it in order.
pub open spec fn sunk_all(d: DownstreamM, evs: Seq<EventV>) -> DownstreamM
    decreases evs.len(),
{
    if evs.len() == 0 {
        d
    } else {
        sunk_all(sunk(d, evs[0]), evs.drop_first())
    }
}

/// Handing one event and then a list equals handing the list from the
/// updated downstream.
pub proof fn lemma_sunk_all_cons(d: DownstreamM, e: EventV, rest: Seq<EventV>)
    ensures
        sunk_all(d, seq![e] + rest) == sunk_all(sunk(d, e), rest),
{
    assert((seq![e] + rest)[0] == e);
    assert((seq![e] + rest).drop_first() =~= rest);
}

/// First index of the downstream with the given id, or -1.
pub open spec fn index_of_downstream(ds: Seq<DownstreamM>, id: u64) -> int
    decreases ds.len(),
{
    if ds.len() == 0 {
        -1
    } else if ds[0].id == id {
        0
    } else {
        let r = index_of_downstream(ds.drop_first(), id);
        if r < 0 {
            -1
        } else {
            r + 1
        }
    }
}

/// The first matching position determines `index_of_downstream`.
pub proof fn lemma_index_of_downstream_at(ds: Seq<DownstreamM>, id: u64, i: int)
    requires
        0 <= i < ds.len(),
        ds[i].id == id,
        forall|j: int| 0 <= j < i ==> ds[j].id != id,
    ensures
        index_of_downstream(ds, id) == i,
    decreases i,
{
    if i > 0 {
        lemma_index_of_downstream_at(ds.drop_first(), id, i - 1);
    }
}

/// An id under no downstream is not found.
pub proof fn lemma_index_of_downstream_absent(ds: Seq<DownstreamM>, id: u64)
    requires
        forall|j: int| 0 <= j < ds.len() ==> ds[j].id != id,
    ensures
        index_of_downstream(ds, id) < 0,
    decreases ds.len(),
{
    if ds.len() > 0 {
        lemma_index_of_downstream_absent(ds.drop_first(), id);
    }
}

/// The images of the chunk list under construction.
pub open spec fn chunks_vv(cs: Seq<Vec<EventRow>>) -> Seq<Seq<RowV>> {
    Seq::new(cs.len(), |i: int| Seq::new(cs[i]@.len(), |j: int| cs[i]@[j]@))
}

/// A pushed row extends a chunk's size by its own.
pub proof fn lemma_rows_size_push(c: Seq<RowV>, r: RowV)
    ensures
        rows_size(c.push(r)) == rows_size(c) + EventRow::size(r),
{
    assert(c.push(r).drop_last() =~= c);
}

/// Folding preserves the size budget of every chunk, provided every
/// single row stays below the budget itself.
proof fn lemma_scan_fold_sizes(es: Seq<Option<TxnEntryV>>, st: (Seq<Seq<RowV>>, int))
    requires
        scan_bounded(es),
        st.0.len() >= 1,
        forall|i: int| 0 <= i < st.0.len() ==> rows_size(#[trigger] st.0[i]) < EVENT_MAX_SIZE,
        rows_size(st.0.last()) == st.1,
    ensures
        ({
            let r = scan_fold(es, st);
            &&& r.0.len() >= 1
            &&& forall|i: int| 0 <= i < r.0.len() ==> rows_size(#[trigger] r.0[i]) < EVENT_MAX_SIZE
        }),
    decreases es.len(),
{
    if es.len() > 0 {
        let st1 = scan_step(st, es[0]);
        assert(scan_entry_bounded(es[0]));
        match es[0] {
            None => {
                let init = RowV { log_type: LogType::Initialized, ..empty_row() };
                lemma_rows_size_push(st.0.last(), init);
                assert(st1.0.last() == st.0.last().push(init));
                assert(rows_size(st1.0.last()) == st1.1);
                assert forall|i: int| 0 <= i < st1.0.len() implies rows_size(
                    #[trigger] st1.0[i],
                ) < EVENT_MAX_SIZE by {
                    if i < st.0.len() - 1 {
                        assert(st1.0[i] == st.0[i]);
                    }
                }
            },
            Some(entry) => {
                match scan_row(entry) {
                    None => {},
                    Some(row) => {
                        let size = EventRow::size(row);
                        let st2 = if st.1 + size >= EVENT_MAX_SIZE {
                            (st.0.push(Seq::<RowV>::empty()), 0int)
                        } else {
                            st
                        };
                        lemma_rows_size_push(st2.0.last(), row);
                        assert(st1.0.last() == st2.0.last().push(row));
                        assert(rows_size(st1.0.last()) == st1.1);
                        assert forall|i: int| 0 <= i < st1.0.len() implies rows_size(
                            #[trigger] st1.0[i],
                        ) < EVENT_MAX_SIZE by {
                            if i < st2.0.len() - 1 {
                                if st.1 + size >= EVENT_MAX_SIZE {
                                    if i < st.0.len() {
                                        assert(st2.0[i] == st.0[i]);
                                    }
                                } else {
                                    assert(st2.0[i] == st.0[i]);
                                }
                                assert(st1.0[i] == st2.0[i]);
                            }
                        }
                    },
                }
            },
        }
        assert forall|j: int| 0 <= j < es.drop_first().len() implies scan_entry_bounded(
            #[trigger] es.drop_first()[j],
        ) by {
            assert(es.drop_first()[j] == es[j + 1]);
        }
        lemma_scan_fold_sizes(es.drop_first(), st1);
    }
}

/// No entries event emitted by one initial scan exceeds the event size
/// budget, provided no single row reaches the budget on its own: a
/// chunk takes another row only while the total stays below the budget.
pub proof fn lemma_scan_chunk_sizes(es: Seq<Option<TxnEntryV>>)
    requires
        scan_bounded(es),
    ensures
        forall|i: int|
            0 <= i < scan_chunks(es).len() ==> rows_size(#[trigger] scan_chunks(es)[i])
                < EVENT_MAX_SIZE,
{
    let st0 = (seq![Seq::<RowV>::empty()], 0int);
    assert(rows_size(st0.0.last()) == 0);
    assert forall|i: int| 0 <= i < st0.0.len() implies rows_size(#[trigger] st0.0[i])
        < EVENT_MAX_SIZE by {
        assert(st0.0[i] == Seq::<RowV>::empty());
    }
    lemma_scan_fold_sizes(es, st0);
}

/// First index of the downstream with the given id in the list.
fn find_downstream_idx(list: &Vec<Downstream>, id: DownstreamID) -> (r: Option<usize>)
    ensures
        match r {
            Some(i) => i < list@.len() && index_of_downstream(downstream_views(list@), id.0)
                == i,
            None => index_of_downstream(downstream_views(list@), id.0) < 0,
        },
{
    let n = list.len();
    let mut i: usize = 0;
    while i < n
        invariant
            n == list@.len(),
            i <= n,
            forall|j: int| 0 <= j < i ==> downstream_views(list@)[j].id != id.0,
        decreases n - i,
    {
        if list[i].get_id().0 == id.0 {
            proof {
                lemma_index_of_downstream_at(downstream_views(list@), id.0, i as int);
            }
            return Some(i);
        }
        proof {
            assert(downstream_views(list@)[i as int].id != id.0);
        }
        i += 1;
    }
    proof {
        lemma_index_of_downstream_absent(downstream_views(list@), id.0);
    }
    None
}

/// Hands the non-empty chunks of one scan, as entries events, to the
/// downstream at the given index.
fn sink_chunks(list: &mut Vec<Downstream>, idx: usize, region_id: u64, chunks: Vec<Vec<EventRow>>)
    requires
        idx < old(list)@.len(),
    ensures
        downstream_views(final(list)@) == downstream_views(old(list)@).update(
            idx as int,
            sunk_all(
                downstream_views(old(list)@)[idx as int],
                scan_events(chunks_vv(chunks@), region_id),
            ),
        ),
{
    let ghost all = chunks_vv(chunks@);
    let ghost orig = downstream_views(old(list)@);
    let mut chunks = chunks;
    proof {
        assert(chunks_vv(chunks@) =~~= all);
        assert(downstream_views(list@) =~= orig.update(idx as int, orig[idx as int]));
    }
    #[verifier::loop_isolation(false)]
    while chunks.len() > 0
        invariant
            list@.len() == orig.len(),
            downstream_views(list@) == orig.update(
                idx as int,
                downstream_views(list@)[idx as int],
            ),
            sunk_all(orig[idx as int], scan_events(all, region_id)) == sunk_all(
                downstream_views(list@)[idx as int],
                scan_events(chunks_vv(chunks@), region_id),
            ),
        decreases chunks@.len(),
    {
        let ghost rem0 = chunks_vv(chunks@);
        let ghost d0 = downstream_views(list@)[idx as int];
        let c = chunks.remove(0);
        proof {
            assert(Seq::new(c@.len(), |j: int| c@[j]@) =~= rem0[0]);
            assert(chunks_vv(chunks@) =~~= rem0.drop_first());
        }
        if c.len() > 0 {
            let ev = Event {
                region_id,
                index: 0,
                request_id: 0,
                payload: EventPayload::Entries(c),
            };
            proof {
                assert(ev@ =~~= (EventV {
                    region_id,
                    index: 0,
                    request_id: 0,
                    payload: PayloadV::Entries(rem0[0]),
                }));
            }
            let ghost prevv = list@;
            let d = vstd::std_specs::vec::vec_index_mut(list, idx);
            d.sink_event(ev);
            proof {
                assert(list@ =~= prevv.update(idx as int, list@[idx as int]));
                assert forall|j: int|
                    0 <= j < orig.len() && j != idx as int implies downstream_views(list@)[j]
                    == orig[j] by {
                    assert(downstream_views(list@)[j] == list@[j]@);
                    assert(downstream_views(prevv)[j] == prevv[j]@);
                    assert(list@[j] == prevv[j]);
                }
                assert(downstream_views(list@) =~= orig.update(
                    idx as int,
                    downstream_views(list@)[idx as int],
                ));
                lemma_sunk_all_cons(d0, ev@, scan_events(rem0.drop_first(), region_id));
                assert(scan_events(rem0, region_id) =~= seq![ev@] + scan_events(
                    rem0.drop_first(),
                    region_id,
                ));
            }
        } else {
            proof {
                assert(scan_events(rem0, region_id) =~= scan_events(
                    rem0.drop_first(),
                    region_id,
                ));
            }
        }
    }
    proof {
        assert(chunks_vv(chunks@) =~~= Seq::<Seq<RowV>>::empty());
        assert(scan_events(chunks_vv(chunks@), region_id) =~= Seq::<EventV>::empty());
    }
}

/// The epoch-not-match header a split or merge admin command surfaces,
/// with the new regions it carries; other admin commands surface nothing.
pub open spec fn admin_epoch_err(t: AdminCmdType, resp: AdminResponseV) -> Option<HeaderV> {
    match t {
        AdminCmdType::Split => Some(
            header_of(
                RaftErrorV::EpochNotMatch {
                    msg: "split"@,
                    new_regions: seq![resp.split_left, resp.split_right],
                },
            ),
        ),
        AdminCmdType::BatchSplit => Some(
            header_of(
                RaftErrorV::EpochNotMatch { msg: "batchsplit"@, new_regions: resp.splits },
            ),
        ),
        AdminCmdType::PrepareMerge | AdminCmdType::CommitMerge | AdminCmdType::RollbackMerge => {
            Some(
                header_of(
                    RaftErrorV::EpochNotMatch {
                        msg: "merge"@,
                        new_regions: Seq::<RegionV>::empty(),
                    },
                ),
            )
        },
        AdminCmdType::Other => None,
    }
}

/// The delegate after the data-path effects of one command: rows
/// aggregated and broadcast, locks tracked and untracked (or deferred).
pub open spec fn sink_data_m<R: OldValueReader>(
    m: DelegateM,
    index: u64,
    reqs: Seq<RequestV>,
    reader: &R,
) -> DelegateM {
    let read_old = m.txn_extra_op == TxnExtraOp::ReadOldValue;
    let rows = row_values(sink_rows(Seq::empty(), reqs, read_old, reader));
    let ev = EventV {
        region_id: m.region_id,
        index,
        request_id: 0,
        payload: PayloadV::Entries(rows),
    };
    let ops = lock_ops_of(reqs);
    match m.pending {
        Some(p) => DelegateM {
            pending: Some(
                PendingM {
                    downstreams: broadcast_to(p.downstreams, ev, true),
                    locks: p.locks + ops,
                    pending_bytes: bytes_after(p.pending_bytes, ops),
                },
            ),
            ..m
        },
        None => DelegateM {
            downstreams: broadcast_to(m.downstreams, ev, true),
            resolver: Some(
                ResolverM {
                    locks: replay_lock_ops(m.resolver->Some_0.locks, ops),
                    ..m.resolver->Some_0
                },
            ),
            ..m
        },
    }
}

/// Whether every data command of a batch can be folded by the data path.
pub open spec fn cmds_wf<R: OldValueReader>(cmds: Seq<CmdV>, read_old: bool, reader: &R) -> bool {
    forall|i: int|
        0 <= i < cmds.len() && (#[trigger] cmds[i]).header_error is None
            && cmds[i].admin_request is None ==> steps_ok(
            Seq::empty(),
            cmds[i].requests,
            read_old,
            reader,
        )
}

/// The delegate state and surfaced error after handling the commands of
/// a batch in order; handling stops at the first error.
pub open spec fn on_cmds_m<R: OldValueReader>(m: DelegateM, cmds: Seq<CmdV>, reader: &R) -> (
    DelegateM,
    Option<CdcErrorV>,
)
    decreases cmds.len(),
{
    if cmds.len() == 0 {
        (m, None)
    } else {
        let c = cmds[0];
        match c.header_error {
            Some(h) => (DelegateM { failed: true, ..m }, Some(CdcErrorV::Request(h))),
            None => match c.admin_request {
                Some(a) => match admin_epoch_err(a.cmd_type, c.admin_response) {
                    Some(h) => (DelegateM { failed: true, ..m }, Some(CdcErrorV::Request(h))),
                    None => on_cmds_m(m, cmds.drop_first(), reader),
                },
                None => on_cmds_m(
                    sink_data_m(m, c.index, c.requests, reader),
                    cmds.drop_first(),
                    reader,
                ),
            },
        }
    }
}

/// An independent copy of a byte vector.
pub fn clone_bytes(v: &Vec<u8>) -> (r: Vec<u8>)
    ensures
        r@ == v@,
{
    let mut r: Vec<u8> = Vec::new();
    r.extend_from_slice(v.as_slice());
    proof {
        assert(r@ =~= v@);
    }
    r
}

/// First index of `k` among the aggregated rows.
fn find_row_idx(rows: &Vec<(Vec<u8>, EventRow)>, k: &[u8]) -> (r: Option<usize>)
    ensures
        match r {
            Some(i) => i < rows@.len() && find_key(rows_v(rows@), k@) == i,
            None => find_key(rows_v(rows@), k@) < 0,
        },
{
    let n = rows.len();
    let mut i: usize = 0;
    while i < n
        invariant
            n == rows@.len(),
            i <= n,
            forall|j: int| 0 <= j < i ==> rows_v(rows@)[j].0 != k@,
        decreases n - i,
    {
        if crate::codec::bytes_eq(rows[i].0.as_slice(), k) {
            proof {
                lemma_find_key_at(rows_v(rows@), k@, i as int);
            }
            return Some(i);
        }
        proof {
            assert(rows_v(rows@)[i as int].0 != k@);
        }
        i += 1;
    }
    proof {
        lemma_find_key_absent(rows_v(rows@), k@);
    }
    None
}

/// The mathematical images of a list of downstream handles.
pub open spec fn downstream_views(v: Seq<Downstream>) -> Seq<DownstreamM> {
    Seq::new(v.len(), |i: int| v[i]@)
}

/// The downstream list without every entry carrying the given id.
pub open spec fn without_id(ds: Seq<DownstreamM>, id: u64) -> Seq<DownstreamM>
    decreases ds.len(),
{
    if ds.len() == 0 {
        ds
    } else if ds[0].id == id {
        without_id(ds.drop_first(), id)
    } else {
        seq![ds[0]] + without_id(ds.drop_first(), id)
    }
}

/// Removes every downstream with the given id from the list; each one
/// removed is stopped and, when an error event is supplied, handed one
/// copy of it first.
fn remove_downstreams(list: &mut Vec<Downstream>, id: DownstreamID, ev: &Option<Event>)
    ensures
        downstream_views(final(list)@) == without_id(downstream_views(old(list)@), id.0),
{
    let ghost all = downstream_views(old(list)@);
    let mut kept: Vec<Downstream> = Vec::new();
    proof {
        assert(downstream_views(list@) =~= all);
        assert(downstream_views(kept@) + without_id(all, id.0) =~= without_id(all, id.0));
    }
    while list.len() > 0
        invariant
            without_id(all, id.0) == downstream_views(kept@) + without_id(
                downstream_views(list@),
                id.0,
            ),
        decreases list@.len(),
    {
        let ghost rem = downstream_views(list@);
        let mut d = list.remove(0);
        proof {
            assert(downstream_views(list@) =~= rem.drop_first());
            assert(d@ == rem[0]);
        }
        if d.get_id().0 == id.0 {
            match ev {
                Some(e) => d.sink_event(e.duplicate()),
                None => {},
            }
            d.set_state(DownstreamState::Stopped);
        } else {
            kept.push(d);
            proof {
                assert(downstream_views(kept@) =~= downstream_views(old(list)@).subrange(
                    0,
                    0,
                ) + downstream_views(kept@));
                assert(downstream_views(kept@).drop_last().push(rem[0]) =~= downstream_views(
                    kept@,
                ));
                assert(downstream_views(kept@) + without_id(rem.drop_first(), id.0)
                    =~= (downstream_views(kept@).drop_last() + (seq![rem[0]] + without_id(
                    rem.drop_first(),
                    id.0,
                ))));
            }
        }
    }
    proof {
        assert(downstream_views(list@) =~= Seq::<DownstreamM>::empty());
        assert(downstream_views(kept@) + without_id(downstream_views(list@), id.0)
            =~= downstream_views(kept@));
    }
    let mut kept = kept;
    core::mem::swap(list, &mut kept);
}

/// Stops every downstream in the list and hands each one's sink one
/// copy of the event.
fn stop_downstreams(list: &mut Vec<Downstream>, ev: &Event)
    ensures
        downstream_views(final(list)@) == stopped_and_notified(downstream_views(old(list)@), ev@),
{
    let n = list.len();
    let mut i: usize = 0;
    while i < n
        invariant
            n == list@.len(),
            n == old(list)@.len(),
            i <= n,
            forall|j: int|
                i <= j < n ==> downstream_views(list@)[j] == downstream_views(old(list)@)[j],
            forall|j: int|
                0 <= j < i ==> downstream_views(list@)[j] == stopped_and_notified(
                    downstream_views(old(list)@),
                    ev@,
                )[j],
        decreases n - i,
    {
        let ghost prevv = list@;
        let d = vstd::std_specs::vec::vec_index_mut(list, i);
        d.set_state(DownstreamState::Stopped);
        d.sink_event(ev.duplicate());
        proof {
            assert(list@ =~= prevv.update(i as int, list@[i as int]));
            assert forall|j: int| 0 <= j < n implies downstream_views(list@)[j] == (if j
                == i as int {
                sunk(
                    DownstreamM {
                        state: DownstreamState::Stopped,
                        ..downstream_views(prevv)[j]
                    },
                    ev@,
                )
            } else {
                downstream_views(prevv)[j]
            }) by {
                assert(downstream_views(list@)[j] == list@[j]@);
                assert(downstream_views(prevv)[j] == prevv[j]@);
                if j != i as int {
                    assert(list@[j] == prevv[j]);
                }
            }
        }
        i += 1;
    }
    proof {
        assert(downstream_views(list@) =~= stopped_and_notified(
            downstream_views(old(list)@),
            ev@,
        ));
    }
}

/// Hands one copy of the event to each addressed downstream in the
/// list: every one, or only those in `Normal` state.
fn broadcast_downstreams(list: &mut Vec<Downstream>, ev: &Event, normal_only: bool)
    ensures
        downstream_views(final(list)@) == broadcast_to(
            downstream_views(old(list)@),
            ev@,
            normal_only,
        ),
{
    let n = list.len();
    let mut i: usize = 0;
    while i < n
        invariant
            n == list@.len(),
            n == old(list)@.len(),
            i <= n,
            forall|j: int|
                i <= j < n ==> downstream_views(list@)[j] == downstream_views(old(list)@)[j],
            forall|j: int|
                0 <= j < i ==> downstream_views(list@)[j] == broadcast_to(
                    downstream_views(old(list)@),
                    ev@,
                    normal_only,
                )[j],
        decreases n - i,
    {
        let ghost prevv = list@;
        let d = vstd::std_specs::vec::vec_index_mut(list, i);
        if !normal_only || d.get_state() == DownstreamState::Normal {
            d.sink_event(ev.duplicate());
        }
        proof {
            assert(list@ =~= prevv.update(i as int, list@[i as int]));
            assert forall|j: int| 0 <= j < n implies downstream_views(list@)[j] == (if j
                == i as int && (!normal_only || downstream_views(prevv)[j].state
                == DownstreamState::Normal) {
                sunk(downstream_views(prevv)[j], ev@)
            } else {
                downstream_views(prevv)[j]
            }) by {
                assert(downstream_views(list@)[j] == list@[j]@);
                assert(downstream_views(prevv)[j] == prevv[j]@);
                if j != i as int {
                    assert(list@[j] == prevv[j]);
                }
            }
        }
        i += 1;
    }
    proof {
        assert(downstream_views(list@) =~= broadcast_to(
            downstream_views(old(list)@),
            ev@,
            normal_only,
        ));
    }
}

/// Checks an asserted epoch against the current region: the version and,
/// when asked, the configuration version must match exactly. On mismatch
/// the error carries the current region when `include_region` is set.
pub fn compare_region_epoch(
    from_epoch: &RegionEpoch,
    region: &Region,
    check_conf_ver: bool,
    check_ver: bool,
    include_region: bool,
) -> (r: Result<(), RaftError>)
    ensures
        ({
            let mismatch = (check_conf_ver && from_epoch.conf_ver
                != region@.region_epoch.conf_ver) || (check_ver && from_epoch.version
                != region@.region_epoch.version);
            match r {
                Ok(()) => !mismatch,
                Err(e) => mismatch && e@ == (crate::errors::RaftErrorV::EpochNotMatch {
                    msg: "epoch not match"@,
                    new_regions: if include_region {
                        seq![region@]
                    } else {
                        Seq::<RegionV>::empty()
                    },
                }),
            }
        }),
{
    let current = &region.region_epoch;
    if (check_conf_ver && from_epoch.conf_ver != current.conf_ver) || (check_ver
        && from_epoch.version != current.version) {
        let mut new_regions: Vec<Region> = Vec::new();
        if include_region {
            new_regions.push(region.duplicate());
        }
        proof {
            if include_region {
                assert(Seq::new(new_regions@.len(), |i: int| new_regions@[i]@) =~= seq![region@]);
            } else {
                assert(Seq::new(new_regions@.len(), |i: int| new_regions@[i]@)
                    =~= Seq::<RegionV>::empty());
            }
        }
        let e = RaftError::EpochNotMatch {
            msg: String::from_str("epoch not match"),
            new_regions,
        };
        Err(e)
    } else {
        Ok(())
    }
}

impl Delegate {
    /// Creates a delegate for the given region, in the initializing
    /// state, with the given observation generation.
    pub fn new(region_id: u64, id: ObserveId) -> (r: Delegate)
        ensures
            r@ == (DelegateM {
                id,
                region_id,
                region: None,
                downstreams: Seq::empty(),
                resolver: None,
                pending: Some(
                    PendingM { downstreams: Seq::empty(), locks: Seq::empty(), pending_bytes: 0 },
                ),
                enabled: true,
                failed: false,
                txn_extra_op: TxnExtraOp::Noop,
            }),
            r@.inv(),
    {
        let r = Delegate {
            id,
            region_id,
            region: None,
            downstreams: Vec::new(),
            resolver: None,
            pending: Some(Pending { downstreams: Vec::new(), locks: Vec::new(), pending_bytes: 0 }),
            enabled: true,
            failed: false,
            txn_extra_op: TxnExtraOp::Noop,
        };
        proof {
            assert(r@ =~~= (DelegateM {
                id,
                region_id,
                region: None,
                downstreams: Seq::empty(),
                resolver: None,
                pending: Some(
                    PendingM { downstreams: Seq::empty(), locks: Seq::empty(), pending_bytes: 0 },
                ),
                enabled: true,
                failed: false,
                txn_extra_op: TxnExtraOp::Noop,
            }));
        }
        r
    }

    /// The observation generation this delegate accepts batches for.
    pub fn ob_id(&self) -> (r: ObserveId)
        ensures
            r == self@.id,
    {
        self.id
    }

    /// The region this delegate serves.
    pub fn region_id(&self) -> (r: u64)
        ensures
            r == self@.region_id,
    {
        self.region_id
    }

    /// True while some downstream still subscribes the region; false
    /// once all have unsubscribed or the delegate stopped.
    pub fn enabled(&self) -> (r: bool)
        ensures
            r == self@.enabled,
    {
        self.enabled
    }

    /// Chooses whether decoders fetch old values.
    pub fn set_txn_extra_op(&mut self, op: TxnExtraOp)
        ensures
            final(self)@ == (DelegateM { txn_extra_op: op, ..old(self)@ }),
    {
        self.txn_extra_op = op;
    }

    /// Marks the delegate failed; sticky.
    pub fn mark_failed(&mut self)
        ensures
            final(self)@ == (DelegateM { failed: true, ..old(self)@ }),
    {
        self.failed = true;
    }

    /// Whether the delegate has failed.
    pub fn has_failed(&self) -> (r: bool)
        ensures
            r == self@.failed,
    {
        self.failed
    }

    /// Subscribes a downstream. While initializing it is buffered
    /// unconditionally; once ready its asserted epoch version must match
    /// the region's, else an epoch-not-match error event is handed to the
    /// downstream's own sink and subscription fails.
    pub fn subscribe(&mut self, downstream: Downstream) -> (r: bool)
        requires
            old(self)@.inv(),
        ensures
            final(self)@.inv(),
            ({
                let m = old(self)@;
                match m.pending {
                    Some(p) => r && final(self)@ == (DelegateM {
                        pending: Some(
                            PendingM { downstreams: p.downstreams.push(downstream@), ..p },
                        ),
                        ..m
                    }),
                    None => {
                        if downstream@.region_epoch.version == m.region->Some_0.region_epoch.version {
                            r && final(self)@ == (DelegateM {
                                downstreams: m.downstreams.push(downstream@),
                                ..m
                            })
                        } else {
                            !r && final(self)@ == m
                        }
                    },
                }
            }),
    {
        match &self.region {
            Some(region) => {
                match compare_region_epoch(&downstream.region_epoch, region, false, true, true) {
                    Err(e) => {
                        let err = CdcError::Request(e.into_error_header());
                        let ev = self.error_event(err);
                        let mut d = downstream;
                        d.sink_event(ev);
                        false
                    },
                    Ok(()) => {
                        self.downstreams.push(downstream);
                        proof {
                            assert(self@ =~~= (DelegateM {
                                downstreams: old(self)@.downstreams.push(downstream@),
                                ..old(self)@
                            }));
                        }
                        true
                    },
                }
            },
            None => {
                match &mut self.pending {
                    Some(p) => {
                        p.downstreams.push(downstream);
                        proof {
                            let pm = old(self)@.pending->Some_0;
                            assert(self@ =~~= (DelegateM {
                                pending: Some(
                                    PendingM {
                                        downstreams: pm.downstreams.push(downstream@),
                                        ..pm
                                    },
                                ),
                                ..old(self)@
                            }));
                        }
                        true
                    },
                    None => vstd::pervasive::unreached(),
                }
            },
        }
    }

    /// The active downstream with the given id, if any.
    pub fn downstream(&self, downstream_id: DownstreamID) -> (r: Option<&Downstream>)
        ensures
            match r {
                Some(d) => exists|i: int|
                    0 <= i < self@.downstreams.len() && self@.downstreams[i] == d@ && d@.id
                        == downstream_id.0,
                None => forall|i: int|
                    0 <= i < self@.downstreams.len() ==> self@.downstreams[i].id
                        != downstream_id.0,
            },
    {
        let n = self.downstreams.len();
        let mut i: usize = 0;
        while i < n
            invariant
                n == self.downstreams.len(),
                i <= n,
                forall|j: int| 0 <= j < i ==> self@.downstreams[j].id != downstream_id.0,
            decreases n - i,
        {
            if self.downstreams[i].get_id().0 == downstream_id.0 {
                let d = &self.downstreams[i];
                proof {
                    assert(self@.downstreams[i as int] == d@);
                }
                return Some(d);
            }
            i += 1;
        }
        None
    }

    /// The downstream list operations address: the pending list while
    /// initializing, the active list once ready.
    pub fn downstreams(&self) -> (r: &Vec<Downstream>)
        requires
            self@.inv(),
        ensures
            Seq::new(r@.len(), |i: int| r@[i]@) == self@.live(),
    {
        match &self.pending {
            Some(p) => &p.downstreams,
            None => &self.downstreams,
        }
    }

    /// Synthesizes the error event this delegate reports for an error.
    pub fn error_event(&self, err: CdcError) -> (r: Event)
        ensures
            r@ == error_event_v(self@.region_id, extract_header_of(err@)),
    {
        let h = err.extract_error_header();
        let e = match h.not_leader {
            Some(nl) => crate::events::EventError::NotLeader(nl),
            None => match h.epoch_not_match {
                Some(regions) => crate::events::EventError::EpochNotMatch(
                    crate::events::EpochNotMatchInfo { current_regions: regions },
                ),
                None => crate::events::EventError::RegionNotFound(
                    RegionNotFoundInfo { region_id: self.region_id },
                ),
            },
        };
        let r = Event {
            region_id: self.region_id,
            index: 0,
            request_id: 0,
            payload: EventPayload::Error(e),
        };
        proof {
            assert(r@ =~~= error_event_v(self@.region_id, extract_header_of(err@)));
        }
        r
    }

    /// Removes the downstream with the given id from the live list,
    /// after handing it one error event when an error is supplied. When
    /// the last downstream goes, the enabled flag is cleared; returns
    /// whether that happened.
    pub fn unsubscribe(&mut self, id: DownstreamID, err: Option<CdcError>) -> (r: bool)
        requires
            old(self)@.inv(),
        ensures
            final(self)@.inv(),
            ({
                let m = old(self)@;
                let lv = without_id(m.live(), id.0);
                let base = match m.pending {
                    Some(p) => DelegateM {
                        pending: Some(PendingM { downstreams: lv, ..p }),
                        ..m
                    },
                    None => DelegateM { downstreams: lv, ..m },
                };
                &&& final(self)@ == (DelegateM {
                    enabled: if lv.len() == 0 {
                        false
                    } else {
                        m.enabled
                    },
                    ..base
                })
                &&& r == (lv.len() == 0)
            }),
    {
        let ev = match err {
            Some(e) => Some(self.error_event(e)),
            None => None,
        };
        let is_last: bool;
        match &mut self.pending {
            Some(p) => {
                remove_downstreams(&mut p.downstreams, id, &ev);
                is_last = p.downstreams.is_empty();
            },
            None => {
                remove_downstreams(&mut self.downstreams, id, &ev);
                is_last = self.downstreams.is_empty();
            },
        }
        if is_last {
            self.enabled = false;
        }
        proof {
            let m = old(self)@;
            let lv = without_id(m.live(), id.0);
            match m.pending {
                Some(p) => {
                    assert(self@ =~~= (DelegateM {
                        enabled: if lv.len() == 0 {
                            false
                        } else {
                            m.enabled
                        },
                        pending: Some(PendingM { downstreams: lv, ..p }),
                        ..m
                    }));
                },
                None => {
                    assert(self@ =~~= (DelegateM {
                        enabled: if lv.len() == 0 {
                            false
                        } else {
                            m.enabled
                        },
                        downstreams: lv,
                        ..m
                    }));
                },
            }
        }
        is_last
    }

    /// Stops the delegate: the region met an unrecoverable error. Marks
    /// it failed, clears the enabled flag, stops every downstream and
    /// hands each one's sink the error event.
    pub fn stop(&mut self, err: CdcError)
        requires
            old(self)@.inv(),
            old(self)@.live().len() > 0,
        ensures
            final(self)@.inv(),
            ({
                let m = old(self)@;
                let evv = error_event_v(m.region_id, extract_header_of(err@));
                let lv = stopped_and_notified(m.live(), evv);
                final(self)@ == (match m.pending {
                    Some(p) => DelegateM {
                        enabled: false,
                        failed: true,
                        pending: Some(PendingM { downstreams: lv, ..p }),
                        ..m
                    },
                    None => DelegateM {
                        enabled: false,
                        failed: true,
                        downstreams: lv,
                        ..m
                    },
                })
            }),
    {
        self.failed = true;
        self.enabled = false;
        let ev = self.error_event(err);
        match &mut self.pending {
            Some(p) => stop_downstreams(&mut p.downstreams, &ev),
            None => stop_downstreams(&mut self.downstreams, &ev),
        }
        proof {
            let m = old(self)@;
            let evv = error_event_v(m.region_id, extract_header_of(err@));
            let lv = stopped_and_notified(m.live(), evv);
            match m.pending {
                Some(p) => {
                    assert(self@ =~~= (DelegateM {
                        enabled: false,
                        failed: true,
                        pending: Some(PendingM { downstreams: lv, ..p }),
                        ..m
                    }));
                },
                None => {
                    assert(self@ =~~= (DelegateM {
                        enabled: false,
                        failed: true,
                        downstreams: lv,
                        ..m
                    }));
                },
            }
        }
    }

    /// Broadcasts one event to the live downstreams: to each of them, or
    /// only to those in `Normal` state.
    pub fn broadcast(&mut self, event: Event, normal_only: bool)
        requires
            old(self)@.inv(),
            old(self)@.live().len() > 0,
        ensures
            final(self)@.inv(),
            ({
                let m = old(self)@;
                let lv = broadcast_to(m.live(), event@, normal_only);
                final(self)@ == (match m.pending {
                    Some(p) => DelegateM {
                        pending: Some(PendingM { downstreams: lv, ..p }),
                        ..m
                    },
                    None => DelegateM { downstreams: lv, ..m },
                })
            }),
    {
        match &mut self.pending {
            Some(p) => broadcast_downstreams(&mut p.downstreams, &event, normal_only),
            None => broadcast_downstreams(&mut self.downstreams, &event, normal_only),
        }
        proof {
            let m = old(self)@;
            let lv = broadcast_to(m.live(), event@, normal_only);
            match m.pending {
                Some(p) => {
                    assert(self@ =~~= (DelegateM {
                        pending: Some(PendingM { downstreams: lv, ..p }),
                        ..m
                    }));
                },
                None => {
                    assert(self@ =~~= (DelegateM { downstreams: lv, ..m }));
                },
            }
        }
    }

    /// Installs the resolver and region metadata, replaying every
    /// buffered lock operation into the resolver in original order, and
    /// returns the buffered downstreams for the caller to re-subscribe
    /// with epoch validation.
    pub fn on_region_ready(&mut self, resolver: Resolver, region: Region) -> (r: Vec<Downstream>)
        requires
            old(self)@.inv(),
            old(self)@.pending is Some,
        ensures
            final(self)@.inv(),
            ({
                let m = old(self)@;
                let p = m.pending->Some_0;
                &&& final(self)@ == (DelegateM {
                    region: Some(region@),
                    resolver: Some(
                        ResolverM {
                            locks: replay_lock_ops(resolver.locks(), p.locks),
                            ..resolver_m(&resolver)
                        },
                    ),
                    pending: None,
                    ..m
                })
                &&& Seq::new(r@.len(), |i: int| r@[i]@) == p.downstreams
            }),
    {
        let ghost m = old(self)@;
        let ghost regionv = region@;
        let ghost rm0 = resolver_m(&resolver);
        let ghost all_ops = old(self)@.pending->Some_0.locks;
        let pending = match self.pending.take() {
            Some(p) => p,
            None => vstd::pervasive::unreached(),
        };
        let mut resolver = resolver;
        let ghost base_locks = resolver.locks();
        let mut ops = pending.locks;
        proof {
            assert(Seq::new(ops@.len(), |i: int| ops@[i]@) =~= all_ops);
        }
        while ops.len() > 0
            invariant
                replay_lock_ops(base_locks, all_ops) == replay_lock_ops(
                    resolver.locks(),
                    Seq::new(ops@.len(), |i: int| ops@[i]@),
                ),
                resolver.resolved() == rm0.resolved_ts,
                resolver.is_init() == rm0.initialized,
                resolver.region() == rm0.region_id,
            decreases ops.len(),
        {
            let ghost ops_v = Seq::new(ops@.len(), |i: int| ops@[i]@);
            let op = ops.remove(0);
            proof {
                assert(op@ == ops_v[0]);
            }
            match op {
                PendingLock::Track { key, start_ts } => {
                    resolver.track_lock(start_ts, key);
                },
                PendingLock::Untrack { key, start_ts, commit_ts } => {
                    resolver.untrack_lock(start_ts, commit_ts, key);
                },
            }
            proof {
                assert(Seq::new(ops@.len(), |i: int| ops@[i]@) =~= ops_v.drop_first());
            }
        }
        proof {
            assert(Seq::new(ops@.len(), |i: int| ops@[i]@) =~= Seq::<LockOpV>::empty());
            assert(replay_lock_ops(base_locks, all_ops) == resolver.locks());
        }
        self.region = Some(region);
        self.resolver = Some(resolver);
        proof {
            assert(self@ =~~= (DelegateM {
                region: Some(regionv),
                resolver: Some(ResolverM { locks: replay_lock_ops(base_locks, all_ops), ..rm0 }),
                pending: None,
                ..m
            }));
        }
        let r = pending.downstreams;
        proof {
            assert(Seq::new(r@.len(), |i: int| r@[i]@) =~= m.pending->Some_0.downstreams);
        }
        r
    }

    /// Tries to advance the resolved timestamp. Does nothing while the
    /// region initializes; otherwise resolves against `min_ts` and, when
    /// a resolved timestamp comes back, broadcasts it to the `Normal`
    /// downstreams and returns it.
    pub fn on_min_ts(&mut self, min_ts: TimeStamp) -> (r: Option<TimeStamp>)
        requires
            old(self)@.inv(),
        ensures
            final(self)@.inv(),
            ({
                let m = old(self)@;
                match r {
                    None => final(self)@ == m && (m.resolver is None
                        || !m.resolver->Some_0.initialized),
                    Some(t) => {
                        let res = m.resolver->Some_0;
                        &&& m.resolver is Some
                        &&& res.initialized
                        &&& t.0 == crate::resolver::max64(
                            res.resolved_ts,
                            crate::resolver::min64(
                                min_ts.0,
                                crate::resolver::min_lock_ts(res.locks),
                            ),
                        )
                        &&& final(self)@ == (DelegateM {
                            resolver: Some(ResolverM { resolved_ts: t.0, ..res }),
                            downstreams: if m.downstreams.len() > 0 {
                                broadcast_to(
                                    m.downstreams,
                                    resolved_ts_event_v(m.region_id, t.0),
                                    true,
                                )
                            } else {
                                m.downstreams
                            },
                            ..m
                        })
                    },
                }
            }),
    {
        let resolved = match &mut self.resolver {
            Some(res) => res.resolve(min_ts),
            None => {
                return None;
            },
        };
        let rts = match resolved {
            Some(t) => t,
            None => {
                proof {
                    assert(self@ =~~= old(self)@);
                }
                return None;
            },
        };
        proof {
            assert(self@.inv());
        }
        if !self.downstreams.is_empty() {
            let ev = Event {
                region_id: self.region_id,
                index: 0,
                request_id: 0,
                payload: EventPayload::ResolvedTs(rts.0),
            };
            broadcast_downstreams(&mut self.downstreams, &ev, true);
        }
        proof {
            let m = old(self)@;
            let res = m.resolver->Some_0;
            assert(self@ =~~= (DelegateM {
                resolver: Some(ResolverM { resolved_ts: rts.0, ..res }),
                downstreams: if m.downstreams.len() > 0 {
                    broadcast_to(m.downstreams, resolved_ts_event_v(m.region_id, rts.0), true)
                } else {
                    m.downstreams
                },
                ..m
            }));
        }
        Some(rts)
    }

    /// Converts the put requests of one data command into an entries
    /// event keyed by raw user key, retires committed locks and tracks
    /// new ones in the resolver (deferring both while the region
    /// initializes), and broadcasts the event, tagged with the command
    /// index, to the `Normal` downstreams.
    pub fn sink_data<R: OldValueReader>(
        &mut self,
        index: u64,
        requests: Vec<CmdRequest>,
        reader: &R,
    ) -> (r: Result<(), CdcError>)
        requires
            old(self)@.inv(),
            old(self)@.live().len() > 0,
            steps_ok(
                Seq::empty(),
                Seq::new(requests@.len(), |i: int| requests@[i]@),
                old(self)@.txn_extra_op == TxnExtraOp::ReadOldValue,
                reader,
            ),
        ensures
            final(self)@.inv(),
            r is Ok,
            final(self)@ == sink_data_m(
                old(self)@,
                index,
                Seq::new(requests@.len(), |i: int| requests@[i]@),
                reader,
            ),
    {
        let ghost m = old(self)@;
        let ghost reqs_all = Seq::new(requests@.len(), |i: int| requests@[i]@);
        let ghost init_plocks = match m.pending {
            Some(p) => p.locks,
            None => Seq::<LockOpV>::empty(),
        };
        let ghost init_pbytes: u64 = match m.pending {
            Some(p) => p.pending_bytes,
            None => 0,
        };
        let ghost init_rlocks = match m.resolver {
            Some(rm) => rm.locks,
            None => Seq::<LockV>::empty(),
        };
        let read_old = match self.txn_extra_op {
            TxnExtraOp::ReadOldValue => true,
            _ => false,
        };
        let mut rows: Vec<(Vec<u8>, EventRow)> = Vec::new();
        let mut requests = requests;
        proof {
            assert(Seq::new(requests@.len(), |i: int| requests@[i]@) =~= reqs_all);
            assert(rows_v(rows@) =~= Seq::<(Seq<u8>, RowV)>::empty());
            assert(self@ =~~= after_lock_effects(m, init_rlocks, init_plocks, init_pbytes));
        }
        while requests.len() > 0
            invariant
                m == old(self)@,
                m.inv(),
                self@.inv(),
                read_old == (m.txn_extra_op == TxnExtraOp::ReadOldValue),
                sink_rows(
                    rows_v(rows@),
                    Seq::new(requests@.len(), |i: int| requests@[i]@),
                    read_old,
                    reader,
                ) == sink_rows(Seq::empty(), reqs_all, read_old, reader),
                steps_ok(
                    rows_v(rows@),
                    Seq::new(requests@.len(), |i: int| requests@[i]@),
                    read_old,
                    reader,
                ),
                m.pending is Some ==> self@ == after_lock_effects(
                    m,
                    init_rlocks,
                    self@.pending->Some_0.locks,
                    self@.pending->Some_0.pending_bytes,
                ),
                m.pending is None ==> self@ == after_lock_effects(
                    m,
                    self@.resolver->Some_0.locks,
                    init_plocks,
                    init_pbytes,
                ),
                m.pending is Some ==> init_plocks + lock_ops_of(reqs_all)
                    == self@.pending->Some_0.locks + lock_ops_of(
                    Seq::new(requests@.len(), |i: int| requests@[i]@),
                ),
                m.pending is Some ==> bytes_after(init_pbytes, lock_ops_of(reqs_all))
                    == bytes_after(
                    self@.pending->Some_0.pending_bytes,
                    lock_ops_of(Seq::new(requests@.len(), |i: int| requests@[i]@)),
                ),
                m.pending is None ==> replay_lock_ops(init_rlocks, lock_ops_of(reqs_all))
                    == replay_lock_ops(
                    self@.resolver->Some_0.locks,
                    lock_ops_of(Seq::new(requests@.len(), |i: int| requests@[i]@)),
                ),
            decreases requests@.len(),
        {
            let ghost rem0 = Seq::new(requests@.len(), |i: int| requests@[i]@);
            let ghost cur0 = rows_v(rows@);
            let ghost plocks0 = match self@.pending {
                Some(p) => p.locks,
                None => Seq::<LockOpV>::empty(),
            };
            let ghost rlocks0 = match self@.resolver {
                Some(rm) => rm.locks,
                None => Seq::<LockV>::empty(),
            };
            let ghost pbytes0: u64 = match self@.pending {
                Some(p) => p.pending_bytes,
                None => 0u64,
            };
            let req = requests.remove(0);
            proof {
                assert(req@ == rem0[0]);
                assert(Seq::new(requests@.len(), |i: int| requests@[i]@) =~= rem0.drop_first());
            }
            let ghost op_opt = lock_op_of(rem0[0]);
            match req {
                CmdRequest::Put { cf, key, value } => {
                    match cf {
                        CfName::Write => {
                            let ghost w = parse_write(value@)->Some_0;
                            let mut row = EventRow::empty();
                            let skip = decode_write(key, value.as_slice(), &mut row);
                            if !skip {
                                let ghost op = op_opt->Some_0;
                                let commit_ts = if row.commit_ts == 0 {
                                    None
                                } else {
                                    Some(TimeStamp(row.commit_ts))
                                };
                                let rkey = clone_bytes(&row.key);
                                let klen = row.key.len() as u64;
                                if self.resolver.is_some() {
                                    match &mut self.resolver {
                                        Some(res) => {
                                            res.untrack_lock(
                                                TimeStamp(row.start_ts),
                                                commit_ts,
                                                rkey,
                                            );
                                            proof {
                                                assert(seq![op] + lock_ops_of(rem0.drop_first())
                                                    =~= lock_ops_of(rem0));
                                                lemma_replay_cons(
                                                    rlocks0,
                                                    op,
                                                    lock_ops_of(rem0.drop_first()),
                                                );
                                                assert(lock_ops_of(rem0)[0] == op);
                                                assert(lock_ops_of(rem0).drop_first()
                                                    =~= lock_ops_of(rem0.drop_first()));
                                            }
                                        },
                                        None => vstd::pervasive::unreached(),
                                    }
                                } else {
                                    match &mut self.pending {
                                        Some(p) => {
                                            p.locks.push(
                                                PendingLock::Untrack {
                                                    key: rkey,
                                                    start_ts: TimeStamp(row.start_ts),
                                                    commit_ts,
                                                },
                                            );
                                            if p.pending_bytes > u64::MAX - klen {
                                                p.pending_bytes = u64::MAX;
                                            } else {
                                                p.pending_bytes = p.pending_bytes + klen;
                                            }
                                            proof {
                                                assert(p@.locks =~= plocks0.push(op));
                                                assert(p@.pending_bytes == sat_add64(
                                                    pbytes0,
                                                    op_key_len(op),
                                                ));
                                                assert(seq![op] + lock_ops_of(
                                                    rem0.drop_first(),
                                                ) =~= lock_ops_of(rem0));
                                                assert(plocks0 + lock_ops_of(rem0)
                                                    =~= plocks0.push(op) + lock_ops_of(
                                                    rem0.drop_first(),
                                                ));
                                                assert(lock_ops_of(rem0)[0] == op);
                                                assert(lock_ops_of(rem0).drop_first()
                                                    =~= lock_ops_of(rem0.drop_first()));
                                            }
                                        },
                                        None => vstd::pervasive::unreached(),
                                    }
                                }
                                let rkey2 = clone_bytes(&row.key);
                                rows.push((rkey2, row));
                                proof {
                                    assert(rows_v(rows@) =~= cur0.push(
                                        (
                                            dec_bytes(
                                                rem0[0]->Put_key.take(rem0[0]->Put_key.len() - 8),
                                            )->Ok_0,
                                            write_row_v(rem0[0]->Put_key, w, empty_row()),
                                        ),
                                    ));
                                }
                            } else {
                                proof {
                                    assert(rows_v(rows@) =~= cur0);
                                    assert(Seq::<LockOpV>::empty() + lock_ops_of(
                                        rem0.drop_first(),
                                    ) =~= lock_ops_of(rem0));
                                }
                            }
                        },
                        CfName::Lock => {
                            let ghost l = parse_lock(value@)->Some_0;
                            let mut row = EventRow::empty();
                            let skip = decode_lock(key, value.as_slice(), &mut row);
                            if !skip {
                                let ghost op = op_opt->Some_0;
                                if read_old {
                                    let tskey = Key::from_raw(row.key.as_slice()).append_ts(
                                        TimeStamp(row.start_ts),
                                    );
                                    row.old_value = match reader.read_old_value(tskey) {
                                        Some(v) => v,
                                        None => Vec::new(),
                                    };
                                    proof {
                                        assert(row@.old_value == ov_of(
                                            reader,
                                            dec_bytes(rem0[0]->Put_key)->Ok_0,
                                            l.ts,
                                        ));
                                    }
                                }
                                let rkey = clone_bytes(&row.key);
                                let klen = row.key.len() as u64;
                                if self.resolver.is_some() {
                                    match &mut self.resolver {
                                        Some(res) => {
                                            res.track_lock(TimeStamp(row.start_ts), rkey);
                                            proof {
                                                assert(seq![op] + lock_ops_of(rem0.drop_first())
                                                    =~= lock_ops_of(rem0));
                                                lemma_replay_cons(
                                                    rlocks0,
                                                    op,
                                                    lock_ops_of(rem0.drop_first()),
                                                );
                                                assert(lock_ops_of(rem0)[0] == op);
                                                assert(lock_ops_of(rem0).drop_first()
                                                    =~= lock_ops_of(rem0.drop_first()));
                                            }
                                        },
                                        None => vstd::pervasive::unreached(),
                                    }
                                } else {
                                    match &mut self.pending {
                                        Some(p) => {
                                            p.locks.push(
                                                PendingLock::Track {
                                                    key: rkey,
                                                    start_ts: TimeStamp(row.start_ts),
                                                },
                                            );
                                            if p.pending_bytes > u64::MAX - klen {
                                                p.pending_bytes = u64::MAX;
                                            } else {
                                                p.pending_bytes = p.pending_bytes + klen;
                                            }
                                            proof {
                                                assert(p@.locks =~= plocks0.push(op));
                                                assert(p@.pending_bytes == sat_add64(
                                                    pbytes0,
                                                    op_key_len(op),
                                                ));
                                                assert(seq![op] + lock_ops_of(
                                                    rem0.drop_first(),
                                                ) =~= lock_ops_of(rem0));
                                                assert(plocks0 + lock_ops_of(rem0)
                                                    =~= plocks0.push(op) + lock_ops_of(
                                                    rem0.drop_first(),
                                                ));
                                                assert(lock_ops_of(rem0)[0] == op);
                                                assert(lock_ops_of(rem0).drop_first()
                                                    =~= lock_ops_of(rem0.drop_first()));
                                            }
                                        },
                                        None => vstd::pervasive::unreached(),
                                    }
                                }
                                let ghost row1 = row@;
                                match find_row_idx(&rows, row.key.as_slice()) {
                                    Some(i) => {
                                        proof {
                                            lemma_find_key_props(cur0, row@.key);
                                        }
                                        let slot = vstd::std_specs::vec::vec_index_mut(
                                            &mut rows,
                                            i,
                                        );
                                        if slot.1.value.len() > 0 {
                                            let mut tmp: Vec<u8> = Vec::new();
                                            core::mem::swap(&mut slot.1.value, &mut tmp);
                                            row.value = tmp;
                                        }
                                        slot.1 = row;
                                        proof {
                                            let k = dec_bytes(rem0[0]->Put_key)->Ok_0;
                                            let occ = cur0[i as int].1;
                                            let row2 = if occ.value.len() > 0 {
                                                RowV { value: occ.value, ..row1 }
                                            } else {
                                                row1
                                            };
                                            assert(rows_v(rows@) =~= cur0.update(
                                                i as int,
                                                (k, row2),
                                            ));
                                        }
                                    },
                                    None => {
                                        let rk = clone_bytes(&row.key);
                                        rows.push((rk, row));
                                        proof {
                                            let k = dec_bytes(rem0[0]->Put_key)->Ok_0;
                                            assert(rows_v(rows@) =~= cur0.push((k, row1)));
                                        }
                                    },
                                }
                            } else {
                                proof {
                                    assert(rows_v(rows@) =~= cur0);
                                    assert(Seq::<LockOpV>::empty() + lock_ops_of(
                                        rem0.drop_first(),
                                    ) =~= lock_ops_of(rem0));
                                }
                            }
                        },
                        CfName::Default => {
                            let key_k = Key::from_encoded(key);
                            let truncated = match key_k.truncate_ts() {
                                Ok(k) => k,
                                Err(_) => vstd::pervasive::unreached(),
                            };
                            let raw = match truncated.into_raw() {
                                Ok(r) => r,
                                Err(_) => vstd::pervasive::unreached(),
                            };
                            match find_row_idx(&rows, raw.as_slice()) {
                                Some(i) => {
                                    proof {
                                        lemma_find_key_props(cur0, raw@);
                                    }
                                    let slot = vstd::std_specs::vec::vec_index_mut(&mut rows, i);
                                    decode_default(value, &mut slot.1);
                                    proof {
                                        let k = dec_bytes(
                                            rem0[0]->Put_key.take(rem0[0]->Put_key.len() - 8),
                                        )->Ok_0;
                                        assert(rows_v(rows@) =~= cur0.update(
                                            i as int,
                                            (
                                                k,
                                                RowV {
                                                    value: if rem0[0]->Put_value.len() > 0 {
                                                        rem0[0]->Put_value
                                                    } else {
                                                        cur0[i as int].1.value
                                                    },
                                                    ..cur0[i as int].1
                                                },
                                            ),
                                        ));
                                    }
                                },
                                None => {
                                    let mut row = EventRow::empty();
                                    decode_default(value, &mut row);
                                    rows.push((raw, row));
                                    proof {
                                        let k = dec_bytes(
                                            rem0[0]->Put_key.take(rem0[0]->Put_key.len() - 8),
                                        )->Ok_0;
                                        assert(rows_v(rows@) =~= cur0.push(
                                            (
                                                k,
                                                RowV {
                                                    value: if rem0[0]->Put_value.len() > 0 {
                                                        rem0[0]->Put_value
                                                    } else {
                                                        Seq::empty()
                                                    },
                                                    ..empty_row()
                                                },
                                            ),
                                        ));
                                    }
                                },
                            }
                            proof {
                                assert(Seq::<LockOpV>::empty() + lock_ops_of(rem0.drop_first())
                                    =~= lock_ops_of(rem0));
                            }
                        },
                        CfName::Raft => vstd::pervasive::unreached(),
                        CfName::Other => vstd::pervasive::unreached(),
                    }
                },
                _ => {
                    proof {
                        assert(rows_v(rows@) =~= cur0);
                        assert(Seq::<LockOpV>::empty() + lock_ops_of(rem0.drop_first())
                            =~= lock_ops_of(rem0));
                    }
                },
            }
            proof {
                if m.pending is Some {
                    assert(self@ =~~= after_lock_effects(
                        m,
                        init_rlocks,
                        self@.pending->Some_0.locks,
                        self@.pending->Some_0.pending_bytes,
                    ));
                    match op_opt {
                        Some(op) => {
                            assert(self@.pending->Some_0.locks =~= plocks0.push(op));
                            assert(self@.pending->Some_0.pending_bytes == sat_add64(
                                pbytes0,
                                op_key_len(op),
                            ));
                        },
                        None => {
                            assert(lock_ops_of(rem0) =~= lock_ops_of(rem0.drop_first()));
                        },
                    }
                } else {
                    assert(self@ =~~= after_lock_effects(
                        m,
                        self@.resolver->Some_0.locks,
                        init_plocks,
                        init_pbytes,
                    ));
                    match op_opt {
                        Some(op) => {
                            assert(self@.resolver->Some_0.locks == apply_lock_op(rlocks0, op));
                        },
                        None => {
                            assert(lock_ops_of(rem0) =~= lock_ops_of(rem0.drop_first()));
                        },
                    }
                }
            }
        }
        proof {
            assert(Seq::new(requests@.len(), |i: int| requests@[i]@)
                =~= Seq::<RequestV>::empty());
            assert(lock_ops_of(Seq::<RequestV>::empty()) =~= Seq::<LockOpV>::empty());
        }
        let ghost final_rows = rows_v(rows@);
        let mut entries: Vec<EventRow> = Vec::new();
        proof {
            assert(Seq::new(entries@.len(), |i: int| entries@[i]@) + row_values(rows_v(rows@))
                =~= row_values(final_rows));
        }
        while rows.len() > 0
            invariant
                Seq::new(entries@.len(), |i: int| entries@[i]@) + row_values(rows_v(rows@))
                    == row_values(final_rows),
            decreases rows@.len(),
        {
            let ghost cur = rows_v(rows@);
            let ghost ent0 = Seq::new(entries@.len(), |i: int| entries@[i]@);
            let kv = rows.remove(0);
            entries.push(kv.1);
            proof {
                assert(rows_v(rows@) =~= cur.drop_first());
                assert(row_values(cur.drop_first()) =~= row_values(cur).drop_first());
                assert(Seq::new(entries@.len(), |i: int| entries@[i]@) =~= ent0.push(cur[0].1));
                assert(ent0.push(cur[0].1) + row_values(cur).drop_first() =~= ent0 + row_values(
                    cur,
                ));
            }
        }
        proof {
            assert(rows_v(rows@) =~= Seq::<(Seq<u8>, RowV)>::empty());
            assert(row_values(rows_v(rows@)) =~= Seq::<RowV>::empty());
            assert(Seq::new(entries@.len(), |i: int| entries@[i]@) =~= row_values(final_rows));
        }
        let event = Event {
            region_id: self.region_id,
            index,
            request_id: 0,
            payload: EventPayload::Entries(entries),
        };
        proof {
            assert(event@ =~~= (EventV {
                region_id: m.region_id,
                index,
                request_id: 0,
                payload: PayloadV::Entries(
                    row_values(sink_rows(Seq::empty(), reqs_all, read_old, reader)),
                ),
            }));
        }
        self.broadcast(event, true);
        proof {
            let reqs = reqs_all;
            let rowsv = row_values(sink_rows(Seq::empty(), reqs, read_old, reader));
            let ev = EventV {
                region_id: m.region_id,
                index,
                request_id: 0,
                payload: PayloadV::Entries(rowsv),
            };
            let ops = lock_ops_of(reqs);
            match m.pending {
                Some(p) => {
                    assert(self@ =~~= (DelegateM {
                        pending: Some(
                            PendingM {
                                downstreams: broadcast_to(p.downstreams, ev, true),
                                locks: p.locks + ops,
                                pending_bytes: bytes_after(p.pending_bytes, ops),
                            },
                        ),
                        ..m
                    }));
                },
                None => {
                    assert(self@ =~~= (DelegateM {
                        downstreams: broadcast_to(m.downstreams, ev, true),
                        resolver: Some(
                            ResolverM {
                                locks: replay_lock_ops(m.resolver->Some_0.locks, ops),
                                ..m.resolver->Some_0
                            },
                        ),
                        ..m
                    }));
                },
            }
        }
        Ok(())
    }

    /// Translates a split or merge admin command into the epoch-not-match
    /// error it means for subscribers: a split carries the new regions
    /// (two for a plain split, all of them for a batch split), a merge
    /// carries none. Any other admin command is a no-op. On translation
    /// the delegate marks itself failed and returns the error for the
    /// caller to surface.
    pub fn sink_admin(&mut self, request: AdminRequest, response: AdminResponse) -> (r: Result<
        (),
        CdcError,
    >)
        ensures
            ({
                let m = old(self)@;
                match admin_epoch_err(request.cmd_type, response@) {
                    Some(h) => final(self)@ == (DelegateM { failed: true, ..m }) && (match r {
                        Err(e) => e@ == CdcErrorV::Request(h),
                        Ok(_) => false,
                    }),
                    None => final(self)@ == m && r is Ok,
                }
            }),
    {
        let store_err = match request.cmd_type {
            AdminCmdType::Split => {
                let mut regions: Vec<Region> = Vec::new();
                regions.push(response.split.left);
                regions.push(response.split.right);
                proof {
                    assert(Seq::new(regions@.len(), |i: int| regions@[i]@) =~= seq![
                        response@.split_left,
                        response@.split_right,
                    ]);
                }
                RaftError::EpochNotMatch {
                    msg: String::from_str("split"),
                    new_regions: regions,
                }
            },
            AdminCmdType::BatchSplit => {
                let regions = response.splits.regions;
                proof {
                    assert(Seq::new(regions@.len(), |i: int| regions@[i]@) =~= response@.splits);
                }
                RaftError::EpochNotMatch {
                    msg: String::from_str("batchsplit"),
                    new_regions: regions,
                }
            },
            AdminCmdType::PrepareMerge | AdminCmdType::CommitMerge
                | AdminCmdType::RollbackMerge => {
                let regions: Vec<Region> = Vec::new();
                proof {
                    assert(Seq::new(regions@.len(), |i: int| regions@[i]@)
                        =~= Seq::<RegionV>::empty());
                }
                RaftError::EpochNotMatch { msg: String::from_str("merge"), new_regions: regions }
            },
            AdminCmdType::Other => {
                return Ok(());
            },
        };
        self.mark_failed();
        Err(CdcError::Request(store_err.into_error_header()))
    }

    /// Handles one committed command batch. A batch from a previous
    /// observation generation is dropped silently. Commands are handled
    /// in order: a response header error marks the delegate failed and
    /// surfaces; an admin command is translated; data requests feed the
    /// event pipeline. The caller must stop the delegate when an error
    /// comes back.
    pub fn on_batch<R: OldValueReader>(&mut self, batch: CmdBatch, reader: &R) -> (r: Result<
        (),
        CdcError,
    >)
        requires
            old(self)@.inv(),
            old(self)@.live().len() > 0,
            batch@.observe_id == old(self)@.id ==> cmds_wf(
                batch@.commands,
                old(self)@.txn_extra_op == TxnExtraOp::ReadOldValue,
                reader,
            ),
        ensures
            final(self)@.inv(),
            ({
                let m = old(self)@;
                if batch@.observe_id != m.id {
                    final(self)@ == m && r is Ok
                } else {
                    let folded = on_cmds_m(m, batch@.commands, reader);
                    final(self)@ == folded.0 && (match r {
                        Ok(_) => folded.1 is None,
                        Err(e) => folded.1 == Some(e@),
                    })
                }
            }),
    {
        let ghost m = old(self)@;
        if batch.observe_id.0 != self.id.0 {
            return Ok(());
        }
        let ghost all_cmds = batch@.commands;
        let mut cmds = batch.commands;
        proof {
            assert(Seq::new(cmds@.len(), |i: int| cmds@[i]@) =~= all_cmds);
        }
        #[verifier::loop_isolation(false)]
        while cmds.len() > 0
            invariant
                m == old(self)@,
                m.inv(),
                self@.inv(),
                self@.live().len() > 0,
                self@.txn_extra_op == m.txn_extra_op,
                cmds_wf(
                    Seq::new(cmds@.len(), |i: int| cmds@[i]@),
                    m.txn_extra_op == TxnExtraOp::ReadOldValue,
                    reader,
                ),
                on_cmds_m(m, all_cmds, reader) == on_cmds_m(
                    self@,
                    Seq::new(cmds@.len(), |i: int| cmds@[i]@),
                    reader,
                ),
            decreases cmds@.len(),
        {
            let ghost rem0 = Seq::new(cmds@.len(), |i: int| cmds@[i]@);
            let ghost pre = self@;
            let cmd = cmds.remove(0);
            proof {
                assert(cmd@ == rem0[0]);
                assert(Seq::new(cmds@.len(), |i: int| cmds@[i]@) =~= rem0.drop_first());
            }
            match cmd.header_error {
                Some(err_header) => {
                    proof {
                        assert(rem0[0].header_error == Some(err_header@));
                    }
                    self.mark_failed();
                    proof {
                        assert(self@ =~~= (DelegateM { failed: true, ..pre }));
                        assert(on_cmds_m(pre, rem0, reader) == (
                            DelegateM { failed: true, ..pre },
                            Some(CdcErrorV::Request(err_header@)),
                        ));
                    }
                    return Err(CdcError::Request(err_header));
                },
                None => {
                    match cmd.admin_request {
                        Some(admin) => {
                            proof {
                                assert(rem0[0].admin_request == Some(admin));
                                assert(rem0[0].header_error is None);
                            }
                            match self.sink_admin(admin, cmd.admin_response) {
                                Ok(_) => {
                                    proof {
                                        assert(self@ == pre);
                                        assert(on_cmds_m(pre, rem0, reader) == on_cmds_m(
                                            pre,
                                            rem0.drop_first(),
                                            reader,
                                        ));
                                    }
                                },
                                Err(e) => {
                                    proof {
                                        let h = admin_epoch_err(
                                            admin.cmd_type,
                                            rem0[0].admin_response,
                                        )->Some_0;
                                        assert(e@ == CdcErrorV::Request(h));
                                        assert(on_cmds_m(pre, rem0, reader) == (
                                            DelegateM { failed: true, ..pre },
                                            Some(CdcErrorV::Request(h)),
                                        ));
                                    }
                                    return Err(e);
                                },
                            }
                        },
                        None => {
                            let res = self.sink_data(cmd.index, cmd.requests, reader);
                            proof {
                                assert(self@ == sink_data_m(pre, rem0[0].index, rem0[0].requests, reader));
                            }
                            match res {
                                Ok(_) => {},
                                Err(_) => vstd::pervasive::unreached(),
                            }
                        },
                    }
                },
            }
        }
        proof {
            assert(Seq::new(cmds@.len(), |i: int| cmds@[i]@) =~= Seq::<CmdV>::empty());
        }
        Ok(())
    }

    /// Streams initial-scan entries to one downstream: rows are chunked
    /// so one event's cumulative `key + value` size stays below the
    /// budget, rollbacks are dropped, and the end-of-scan sentinel emits
    /// one `Initialized` row. An unknown downstream id is a no-op.
    pub fn on_scan(&mut self, downstream_id: DownstreamID, entries: Vec<Option<TxnEntry>>)
        requires
            old(self)@.inv(),
            scan_wf(entries_v(entries@)),
            scan_bounded(entries_v(entries@)),
        ensures
            final(self)@.inv(),
            ({
                let m = old(self)@;
                let lv = m.live();
                let i = index_of_downstream(lv, downstream_id.0);
                if i < 0 {
                    final(self)@ == m
                } else {
                    let d2 = sunk_all(
                        lv[i],
                        scan_events(scan_chunks(entries_v(entries@)), m.region_id),
                    );
                    final(self)@ == (match m.pending {
                        Some(p) => DelegateM {
                            pending: Some(
                                PendingM { downstreams: p.downstreams.update(i, d2), ..p },
                            ),
                            ..m
                        },
                        None => DelegateM { downstreams: lv.update(i, d2), ..m },
                    })
                }
            }),
    {
        let ghost m = old(self)@;
        let ghost all_es = entries_v(entries@);
        let idx = match (if self.pending.is_some() {
            match &self.pending {
                Some(p) => find_downstream_idx(&p.downstreams, downstream_id),
                None => vstd::pervasive::unreached(),
            }
        } else {
            find_downstream_idx(&self.downstreams, downstream_id)
        }) {
            Some(i) => i,
            None => {
                return ;
            },
        };
        let region_id = self.region_id;
        let mut rows: Vec<Vec<EventRow>> = Vec::new();
        rows.push(Vec::new());
        let mut current_rows_size: usize = 0;
        let mut entries = entries;
        proof {
            assert(Seq::new(entries@.len(), |i: int| match entries@[i] {
                Some(e) => Some(e@),
                None => None,
            }) =~= all_es);
            assert(chunks_vv(rows@) =~~= seq![Seq::<RowV>::empty()]);
        }
        #[verifier::loop_isolation(false)]
        while entries.len() > 0
            invariant
                rows@.len() >= 1,
                current_rows_size < EVENT_MAX_SIZE,
                scan_fold(
                    Seq::new(entries@.len(), |i: int| match entries@[i] {
                        Some(e) => Some(e@),
                        None => None,
                    }),
                    (chunks_vv(rows@), current_rows_size as int),
                ) == scan_fold(all_es, (seq![Seq::<RowV>::empty()], 0int)),
                scan_wf(Seq::new(entries@.len(), |i: int| match entries@[i] {
                    Some(e) => Some(e@),
                    None => None,
                })),
                scan_bounded(Seq::new(entries@.len(), |i: int| match entries@[i] {
                    Some(e) => Some(e@),
                    None => None,
                })),
            decreases entries@.len(),
        {
            let ghost rem0 = Seq::new(entries@.len(), |i: int| match entries@[i] {
                Some(e) => Some(e@),
                None => None,
            });
            let ghost st0 = (chunks_vv(rows@), current_rows_size as int);
            let entry = entries.remove(0);
            proof {
                assert((match entry {
                    Some(ref e) => Some(e@),
                    None => None::<TxnEntryV>,
                }) == rem0[0]);
                assert(Seq::new(entries@.len(), |i: int| match entries@[i] {
                    Some(e) => Some(e@),
                    None => None,
                }) =~= rem0.drop_first());
                assert forall|j: int| 0 <= j < rem0.drop_first().len() implies scan_entry_wf(
                    #[trigger] rem0.drop_first()[j],
                ) && scan_entry_bounded(rem0.drop_first()[j]) by {
                    assert(rem0.drop_first()[j] == rem0[j + 1]);
                }
            }
            match entry {
                Some(TxnEntry::Prewrite { default, lock, old_value }) => {
                    let mut row = EventRow::empty();
                    let skip = decode_lock(lock.0, lock.1.as_slice(), &mut row);
                    if !skip {
                        decode_default(default.1, &mut row);
                        let row_size = row.key.len() + row.value.len();
                        proof {
                            assert(row@ == scan_row(rem0[0]->Some_0)->Some_0
                                || (RowV {
                                old_value: scan_row(rem0[0]->Some_0)->Some_0.old_value,
                                ..row@
                            }) == scan_row(rem0[0]->Some_0)->Some_0);
                            assert(row_size as int == EventRow::size(
                                scan_row(rem0[0]->Some_0)->Some_0,
                            ));
                        }
                        if current_rows_size + row_size >= EVENT_MAX_SIZE {
                            rows.push(Vec::new());
                            current_rows_size = 0;
                            proof {
                                assert(chunks_vv(rows@) =~~= st0.0.push(Seq::<RowV>::empty()));
                            }
                        }
                        current_rows_size = current_rows_size + row_size;
                        row.old_value = match old_value {
                            Some(v) => v,
                            None => Vec::new(),
                        };
                        let ghost mid = chunks_vv(rows@);
                        let li = rows.len() - 1;
                        vstd::std_specs::vec::vec_index_mut(&mut rows, li).push(row);
                        proof {
                            assert(chunks_vv(rows@) =~~= mid.update(
                                mid.len() - 1,
                                mid.last().push(scan_row(rem0[0]->Some_0)->Some_0),
                            ));
                        }
                    }
                },
                Some(TxnEntry::Commit { default, write, old_value }) => {
                    let mut row = EventRow::empty();
                    let skip = decode_write(write.0, write.1.as_slice(), &mut row);
                    if !skip {
                        decode_default(default.1, &mut row);
                        if row.log_type == LogType::Rollback {
                            proof {
                                assert(scan_row(rem0[0]->Some_0) is None);
                            }
                        } else {
                            set_event_row_type(&mut row, LogType::Committed);
                            row.old_value = match old_value {
                                Some(v) => v,
                                None => Vec::new(),
                            };
                            let row_size = row.key.len() + row.value.len();
                            proof {
                                assert(row@ == scan_row(rem0[0]->Some_0)->Some_0);
                                assert(row_size as int == EventRow::size(
                                    scan_row(rem0[0]->Some_0)->Some_0,
                                ));
                            }
                            if current_rows_size + row_size >= EVENT_MAX_SIZE {
                                rows.push(Vec::new());
                                current_rows_size = 0;
                                proof {
                                    assert(chunks_vv(rows@) =~~= st0.0.push(
                                        Seq::<RowV>::empty(),
                                    ));
                                }
                            }
                            current_rows_size = current_rows_size + row_size;
                            let ghost mid = chunks_vv(rows@);
                            let li = rows.len() - 1;
                            vstd::std_specs::vec::vec_index_mut(&mut rows, li).push(row);
                            proof {
                                assert(chunks_vv(rows@) =~~= mid.update(
                                    mid.len() - 1,
                                    mid.last().push(scan_row(rem0[0]->Some_0)->Some_0),
                                ));
                            }
                        }
                    }
                },
                None => {
                    let mut row = EventRow::empty();
                    set_event_row_type(&mut row, LogType::Initialized);
                    let ghost mid = chunks_vv(rows@);
                    let li = rows.len() - 1;
                    vstd::std_specs::vec::vec_index_mut(&mut rows, li).push(row);
                    proof {
                        assert(chunks_vv(rows@) =~~= mid.update(
                            mid.len() - 1,
                            mid.last().push(RowV { log_type: LogType::Initialized, ..empty_row() }),
                        ));
                    }
                },
            }
        }
        proof {
            assert(Seq::new(entries@.len(), |i: int| match entries@[i] {
                Some(e) => Some(e@),
                None => None,
            }) =~= Seq::<Option<TxnEntryV>>::empty());
            assert(chunks_vv(rows@) =~~= scan_chunks(all_es));
        }
        if self.pending.is_some() {
            match &mut self.pending {
                Some(p) => sink_chunks(&mut p.downstreams, idx, region_id, rows),
                None => vstd::pervasive::unreached(),
            }
        } else {
            sink_chunks(&mut self.downstreams, idx, region_id, rows);
        }
        proof {
            let lv = m.live();
            let i = index_of_downstream(lv, downstream_id.0);
            let d2 = sunk_all(lv[i], scan_events(scan_chunks(all_es), m.region_id));
            match m.pending {
                Some(p) => {
                    assert(self@ =~~= (DelegateM {
                        pending: Some(
                            PendingM { downstreams: p.downstreams.update(i, d2), ..p },
                        ),
                        ..m
                    }));
                },
                None => {
                    assert(self@ =~~= (DelegateM { downstreams: lv.update(i, d2), ..m }));
                },
            }
        }
    }

    /// Mutable access to the live downstream list.
    pub fn downstreams_mut(&mut self) -> (r: &mut Vec<Downstream>)
        requires
            old(self)@.inv(),
        ensures
            Seq::new(r@.len(), |i: int| r@[i]@) == old(self)@.live(),
            final(self)@.inv(),
            ({
                let lv = Seq::new(final(r)@.len(), |i: int| final(r)@[i]@);
                final(self)@ == (match old(self)@.pending {
                    Some(p) => DelegateM {
                        pending: Some(PendingM { downstreams: lv, ..p }),
                        ..old(self)@
                    },
                    None => DelegateM { downstreams: lv, ..old(self)@ },
                })
            }),
    {
        match &mut self.pending {
            Some(p) => &mut p.downstreams,
            None => &mut self.downstreams,
        }
    }
}

} // verus!
