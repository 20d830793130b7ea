//! Wire-visible data model: region metadata, change-event rows and the
//! events broadcast to downstream consumers.

use vstd::prelude::*;

verus! {

/// A `(version, conf_ver)` pair stamping a region's key range and
/// membership configuration.
#[derive(Clone, Copy, Debug, PartialEq, Eq, Structural)]
pub struct RegionEpoch {
    pub conf_ver: u64,
    pub version: u64,
}

/// One peer of a region.
#[derive(Clone, Copy, Debug, PartialEq, Eq, Structural)]
pub struct Peer {
    pub id: u64,
    pub store_id: u64,
}

/// Region metadata as the delegate caches it at readiness.
#[derive(Debug)]
pub struct Region {
    pub id: u64,
    pub start_key: Vec<u8>,
    pub end_key: Vec<u8>,
    pub region_epoch: RegionEpoch,
    pub peers: Vec<Peer>,
}

/// The mathematical image of a region.
pub struct RegionV {
    pub id: u64,
    pub start_key: Seq<u8>,
    pub end_key: Seq<u8>,
    pub region_epoch: RegionEpoch,
    pub peers: Seq<Peer>,
}

impl View for Region {
    type V = RegionV;

    open spec fn view(&self) -> RegionV {
        RegionV {
            id: self.id,
            start_key: self.start_key@,
            end_key: self.end_key@,
            region_epoch: self.region_epoch,
            peers: self.peers@,
        }
    }
}

/// A region with the given id, empty key range and no peers.
pub open spec fn empty_region_v(id: u64) -> RegionV {
    RegionV {
        id,
        start_key: Seq::empty(),
        end_key: Seq::empty(),
        region_epoch: RegionEpoch { conf_ver: 0, version: 0 },
        peers: Seq::empty(),
    }
}

impl Region {
    /// A region with the given id, empty key range and no peers.
    pub fn new(id: u64) -> (r: Region)
        ensures
            r@ == empty_region_v(id),
    {
        let r = Region {
            id,
            start_key: Vec::new(),
            end_key: Vec::new(),
            region_epoch: RegionEpoch { conf_ver: 0, version: 0 },
            peers: Vec::new(),
        };
        proof {
            assert(r@ =~= empty_region_v(id));
        }
        r
    }

    /// An independent copy of this region.
    pub fn duplicate(&self) -> (r: Region)
        ensures
            r@ == self@,
    {
        let mut start_key: Vec<u8> = Vec::new();
        start_key.extend_from_slice(self.start_key.as_slice());
        let mut end_key: Vec<u8> = Vec::new();
        end_key.extend_from_slice(self.end_key.as_slice());
        let mut peers: Vec<Peer> = Vec::new();
        let mut i: usize = 0;
        while i < self.peers.len()
            invariant
                i <= self.peers.len(),
                peers@ == self.peers@.take(i as int),
            decreases self.peers.len() - i,
        {
            peers.push(self.peers[i]);
            proof {
                assert(peers@ =~= self.peers@.take(i + 1));
            }
            i += 1;
        }
        proof {
            assert(start_key@ =~= self.start_key@);
            assert(end_key@ =~= self.end_key@);
            assert(self.peers@.take(self.peers@.len() as int) =~= self.peers@);
        }
        let r = Region {
            id: self.id,
            start_key,
            end_key,
            region_epoch: self.region_epoch,
            peers,
        };
        proof {
            assert(r@ =~= self@);
        }
        r
    }
}

/// The kind of change a row carries.
#[derive(Clone, Copy, Debug, PartialEq, Eq, Structural)]
pub enum OpType {
    Unknown,
    Put,
    Delete,
}

/// Which phase of the transaction protocol a row reports.
#[derive(Clone, Copy, Debug, PartialEq, Eq, Structural)]
pub enum LogType {
    Unknown,
    /// An intent became visible (lock column family write).
    Prewrite,
    /// A commit record observed in real time.
    Commit,
    /// A self-contained commit record observed during initial scan.
    Committed,
    /// A write-type rollback; never emitted downstream.
    Rollback,
    /// Sentinel marking the end of the initial scan for one downstream.
    Initialized,
}

/// One row-level change event.
#[derive(Debug)]
pub struct EventRow {
    pub start_ts: u64,
    pub commit_ts: u64,
    pub key: Vec<u8>,
    pub value: Vec<u8>,
    pub old_value: Vec<u8>,
    pub op_type: OpType,
    pub log_type: LogType,
}

/// The mathematical image of an event row.
pub struct RowV {
    pub start_ts: u64,
    pub commit_ts: u64,
    pub key: Seq<u8>,
    pub value: Seq<u8>,
    pub old_value: Seq<u8>,
    pub op_type: OpType,
    pub log_type: LogType,
}

impl View for EventRow {
    type V = RowV;

    open spec fn view(&self) -> RowV {
        RowV {
            start_ts: self.start_ts,
            commit_ts: self.commit_ts,
            key: self.key@,
            value: self.value@,
            old_value: self.old_value@,
            op_type: self.op_type,
            log_type: self.log_type,
        }
    }
}

/// The row every decoder starts from: zero timestamps, empty byte
/// strings, unknown operation and log type.
pub open spec fn empty_row() -> RowV {
    RowV {
        start_ts: 0,
        commit_ts: 0,
        key: Seq::empty(),
        value: Seq::empty(),
        old_value: Seq::empty(),
        op_type: OpType::Unknown,
        log_type: LogType::Unknown,
    }
}

impl EventRow {
    /// A fresh, empty row.
    pub fn empty() -> (r: EventRow)
        ensures
            r@ == empty_row(),
    {
        let r = EventRow {
            start_ts: 0,
            commit_ts: 0,
            key: Vec::new(),
            value: Vec::new(),
            old_value: Vec::new(),
            op_type: OpType::Unknown,
            log_type: LogType::Unknown,
        };
        proof {
            assert(r@ =~= empty_row());
        }
        r
    }

    /// An independent copy of this row.
    pub fn duplicate(&self) -> (r: EventRow)
        ensures
            r@ == self@,
    {
        let mut key: Vec<u8> = Vec::new();
        key.extend_from_slice(self.key.as_slice());
        let mut value: Vec<u8> = Vec::new();
        value.extend_from_slice(self.value.as_slice());
        let mut old_value: Vec<u8> = Vec::new();
        old_value.extend_from_slice(self.old_value.as_slice());
        proof {
            assert(key@ =~= self.key@);
            assert(value@ =~= self.value@);
            assert(old_value@ =~= self.old_value@);
        }
        let r = EventRow {
            start_ts: self.start_ts,
            commit_ts: self.commit_ts,
            key,
            value,
            old_value,
            op_type: self.op_type,
            log_type: self.log_type,
        };
        proof {
            assert(r@ =~= self@);
        }
        r
    }

    /// The bytes this row contributes to an event's size budget.
    pub open spec fn size(self_v: RowV) -> int {
        self_v.key.len() + self_v.value.len() as int
    }
}

/// A region peer was not the leader when the request was handled.
#[derive(Clone, Copy, Debug, PartialEq, Eq, Structural)]
pub struct NotLeaderInfo {
    pub region_id: u64,
    pub leader: Option<Peer>,
}

/// The region was not found on this store.
#[derive(Clone, Copy, Debug, PartialEq, Eq, Structural)]
pub struct RegionNotFoundInfo {
    pub region_id: u64,
}

/// The asserted epoch does not match; carries the current regions.
#[derive(Debug)]
pub struct EpochNotMatchInfo {
    pub current_regions: Vec<Region>,
}

/// A protocol error reported to a downstream in an error event.
#[derive(Debug)]
pub enum EventError {
    NotLeader(NotLeaderInfo),
    EpochNotMatch(EpochNotMatchInfo),
    RegionNotFound(RegionNotFoundInfo),
    DuplicateRequest(u64),
    Compatibility(String),
}

/// The mathematical image of a downstream-visible error.
pub enum ErrV {
    NotLeader(NotLeaderInfo),
    EpochNotMatch(Seq<RegionV>),
    RegionNotFound(RegionNotFoundInfo),
    DuplicateRequest(u64),
    Compatibility(Seq<char>),
}

impl View for EventError {
    type V = ErrV;

    open spec fn view(&self) -> ErrV {
        match self {
            EventError::NotLeader(n) => ErrV::NotLeader(*n),
            EventError::EpochNotMatch(e) => ErrV::EpochNotMatch(
                Seq::new(e.current_regions@.len(), |i: int| e.current_regions@[i]@),
            ),
            EventError::RegionNotFound(n) => ErrV::RegionNotFound(*n),
            EventError::DuplicateRequest(id) => ErrV::DuplicateRequest(*id),
            EventError::Compatibility(s) => ErrV::Compatibility(s@),
        }
    }
}

/// The payload of one event on the downstream wire.
#[derive(Debug)]
pub enum EventPayload {
    /// A batch of row-level changes.
    Entries(Vec<EventRow>),
    /// A structured protocol error; the stream ends after it.
    Error(EventError),
    /// A new resolved timestamp for the region.
    ResolvedTs(u64),
}

/// The mathematical image of an event payload.
pub enum PayloadV {
    Entries(Seq<RowV>),
    Error(ErrV),
    ResolvedTs(u64),
}

impl View for EventPayload {
    type V = PayloadV;

    open spec fn view(&self) -> PayloadV {
        match self {
            EventPayload::Entries(rows) => PayloadV::Entries(
                Seq::new(rows@.len(), |i: int| rows@[i]@),
            ),
            EventPayload::Error(e) => PayloadV::Error(e@),
            EventPayload::ResolvedTs(t) => PayloadV::ResolvedTs(*t),
        }
    }
}

/// One event on the downstream wire.
#[derive(Debug)]
pub struct Event {
    pub region_id: u64,
    pub index: u64,
    pub request_id: u64,
    pub payload: EventPayload,
}

/// The mathematical image of an event.
pub struct EventV {
    pub region_id: u64,
    pub index: u64,
    pub request_id: u64,
    pub payload: PayloadV,
}

impl View for Event {
    type V = EventV;

    open spec fn view(&self) -> EventV {
        EventV {
            region_id: self.region_id,
            index: self.index,
            request_id: self.request_id,
            payload: self.payload@,
        }
    }
}

impl EventError {
    /// An independent copy of this error.
    pub fn duplicate(&self) -> (r: EventError)
        ensures
            r@ == self@,
    {
        match self {
            EventError::NotLeader(n) => EventError::NotLeader(*n),
            EventError::EpochNotMatch(e) => {
                let mut regions: Vec<Region> = Vec::new();
                let n = e.current_regions.len();
                let mut i: usize = 0;
                while i < n
                    invariant
                        n == e.current_regions.len(),
                        i <= n,
                        regions@.len() == i,
                        forall|j: int| 0 <= j < i ==> regions@[j]@ == e.current_regions@[j]@,
                    decreases n - i,
                {
                    regions.push(e.current_regions[i].duplicate());
                    i += 1;
                }
                let r = EventError::EpochNotMatch(EpochNotMatchInfo { current_regions: regions });
                proof {
                    assert(Seq::new(regions@.len(), |i: int| regions@[i]@) =~= Seq::new(
                        e.current_regions@.len(),
                        |i: int| e.current_regions@[i]@,
                    ));
                }
                r
            },
            EventError::RegionNotFound(n) => EventError::RegionNotFound(*n),
            EventError::DuplicateRequest(id) => EventError::DuplicateRequest(*id),
            EventError::Compatibility(s) => EventError::Compatibility(s.clone()),
        }
    }
}

impl Event {
    /// An independent copy of this event.
    pub fn duplicate(&self) -> (r: Event)
        ensures
            r@ == self@,
    {
        let payload = match &self.payload {
            EventPayload::Entries(rows) => {
                let mut out: Vec<EventRow> = Vec::new();
                let n = rows.len();
                let mut i: usize = 0;
                while i < n
                    invariant
                        n == rows.len(),
                        i <= n,
                        out@.len() == i,
                        forall|j: int| 0 <= j < i ==> out@[j]@ == rows@[j]@,
                    decreases n - i,
                {
                    out.push(rows[i].duplicate());
                    i += 1;
                }
                let p = EventPayload::Entries(out);
                proof {
                    assert(Seq::new(out@.len(), |i: int| out@[i]@) =~= Seq::new(
                        rows@.len(),
                        |i: int| rows@[i]@,
                    ));
                }
                p
            },
            EventPayload::Error(e) => EventPayload::Error(e.duplicate()),
            EventPayload::ResolvedTs(t) => EventPayload::ResolvedTs(*t),
        };
        Event {
            region_id: self.region_id,
            index: self.index,
            request_id: self.request_id,
            payload,
        }
    }
}

/// The total `key + value` bytes of the rows of an entries payload.
pub open spec fn rows_size(rows: Seq<RowV>) -> int
    decreases rows.len(),
{
    if rows.len() == 0 {
        0
    } else {
        rows_size(rows.drop_last()) + EventRow::size(rows.last())
    }
}

} // verus!
