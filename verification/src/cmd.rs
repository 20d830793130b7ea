//! Committed command batches as the replication engine delivers them to
//! the delegate: key-value requests tagged with a column family, admin
//! requests, and response headers.

use vstd::prelude::*;

use crate::errors::{ErrorHeader, HeaderV};
use crate::events::{empty_region_v, Region, RegionV};

verus! {

/// A generation stamp scoping one observation attempt on a region; stale
/// batches carry an old stamp and are dropped.
#[derive(Clone, Copy, Debug, PartialEq, Eq, Structural)]
pub struct ObserveId(pub u64);

impl ObserveId {
    /// Wraps a generation number.
    pub fn new(v: u64) -> (r: ObserveId)
        ensures
            r.0 == v,
    {
        ObserveId(v)
    }
}

/// The column family a key-value request addresses.
#[derive(Clone, Copy, Debug, PartialEq, Eq, Structural)]
pub enum CfName {
    /// The default column family; also what an unnamed family means.
    Default,
    Lock,
    Write,
    Raft,
    Other,
}

/// One key-value request of a data command.
#[derive(Debug)]
pub enum CmdRequest {
    Put { cf: CfName, key: Vec<u8>, value: Vec<u8> },
    Delete { cf: CfName, key: Vec<u8> },
    Other,
}

/// The mathematical image of a key-value request.
pub enum RequestV {
    Put { cf: CfName, key: Seq<u8>, value: Seq<u8> },
    Delete { cf: CfName, key: Seq<u8> },
    Other,
}

impl View for CmdRequest {
    type V = RequestV;

    open spec fn view(&self) -> RequestV {
        match self {
            CmdRequest::Put { cf, key, value } => RequestV::Put {
                cf: *cf,
                key: key@,
                value: value@,
            },
            CmdRequest::Delete { cf, key } => RequestV::Delete { cf: *cf, key: key@ },
            CmdRequest::Other => RequestV::Other,
        }
    }
}

/// The kind of an admin command.
#[derive(Clone, Copy, Debug, PartialEq, Eq, Structural)]
pub enum AdminCmdType {
    Split,
    BatchSplit,
    PrepareMerge,
    CommitMerge,
    RollbackMerge,
    Other,
}

/// An admin request.
#[derive(Clone, Copy, Debug, PartialEq, Eq, Structural)]
pub struct AdminRequest {
    pub cmd_type: AdminCmdType,
}

/// The response of a split admin command.
#[derive(Debug)]
pub struct SplitResponse {
    pub left: Region,
    pub right: Region,
}

/// The response of a batch-split admin command.
#[derive(Debug)]
pub struct BatchSplitResponse {
    pub regions: Vec<Region>,
}

/// An admin response; only the split payloads matter to the delegate.
#[derive(Debug)]
pub struct AdminResponse {
    pub split: SplitResponse,
    pub splits: BatchSplitResponse,
}

/// The mathematical image of an admin response.
pub struct AdminResponseV {
    pub split_left: RegionV,
    pub split_right: RegionV,
    pub splits: Seq<RegionV>,
}

impl View for AdminResponse {
    type V = AdminResponseV;

    open spec fn view(&self) -> AdminResponseV {
        AdminResponseV {
            split_left: self.split.left@,
            split_right: self.split.right@,
            splits: Seq::new(self.splits.regions@.len(), |i: int| self.splits.regions@[i]@),
        }
    }
}

impl AdminResponse {
    /// An admin response with empty split payloads.
    pub fn empty() -> (r: AdminResponse)
        ensures
            r@.split_left == empty_region_v(0),
            r@.split_right == empty_region_v(0),
            r@.splits.len() == 0,
    {
        AdminResponse {
            split: SplitResponse { left: Region::new(0), right: Region::new(0) },
            splits: BatchSplitResponse { regions: Vec::new() },
        }
    }
}

/// One committed command: its raft log index, its request set and its
/// response.
#[derive(Debug)]
pub struct Cmd {
    pub index: u64,
    pub admin_request: Option<AdminRequest>,
    pub requests: Vec<CmdRequest>,
    pub header_error: Option<ErrorHeader>,
    pub admin_response: AdminResponse,
}

/// The mathematical image of a committed command.
pub struct CmdV {
    pub index: u64,
    pub admin_request: Option<AdminRequest>,
    pub requests: Seq<RequestV>,
    pub header_error: Option<HeaderV>,
    pub admin_response: AdminResponseV,
}

impl View for Cmd {
    type V = CmdV;

    open spec fn view(&self) -> CmdV {
        CmdV {
            index: self.index,
            admin_request: self.admin_request,
            requests: Seq::new(self.requests@.len(), |i: int| self.requests@[i]@),
            header_error: match &self.header_error {
                Some(h) => Some(h@),
                None => None,
            },
            admin_response: self.admin_response@,
        }
    }
}

/// A batch of committed commands for one region, stamped with the
/// observation generation it belongs to.
#[derive(Debug)]
pub struct CmdBatch {
    pub observe_id: ObserveId,
    pub region_id: u64,
    pub commands: Vec<Cmd>,
}

/// The mathematical image of a command batch.
pub struct CmdBatchV {
    pub observe_id: ObserveId,
    pub region_id: u64,
    pub commands: Seq<CmdV>,
}

impl View for CmdBatch {
    type V = CmdBatchV;

    open spec fn view(&self) -> CmdBatchV {
        CmdBatchV {
            observe_id: self.observe_id,
            region_id: self.region_id,
            commands: Seq::new(self.commands@.len(), |i: int| self.commands@[i]@),
        }
    }
}

} // verus!
