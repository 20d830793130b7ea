//! Error taxonomy of the replication path and its translation to the
//! wire-level error header carried by responses and error events.

use vstd::prelude::*;
use vstd::string::*;

use crate::events::{NotLeaderInfo, Peer, Region, RegionNotFoundInfo, RegionV};

verus! {

/// Reason a message was discarded by the transport.
#[derive(Clone, Copy, Debug, PartialEq, Eq, Structural)]
pub enum DiscardReason {
    /// Channel is disconnected, message can't be delivered.
    Disconnected,
    /// Message is dropped due to some filter rules, usually in tests.
    Filtered,
    /// Channel runs out of capacity, message can't be delivered.
    Full,
}

/// A structured error of the replication layer.
#[derive(Debug)]
pub enum RaftError {
    RaftEntryTooLarge { region_id: u64, entry_size: u64 },
    StoreNotMatch { to_store_id: u64, my_store_id: u64 },
    RegionNotFound(u64),
    RegionNotInitialized(u64),
    NotLeader { region_id: u64, leader: Option<Peer> },
    KeyNotInRegion { key: Vec<u8>, region: Region },
    EpochNotMatch { msg: String, new_regions: Vec<Region> },
    StaleCommand,
    Timeout(String),
    Transport(DiscardReason),
    /// Storage, codec and other wrapped failures, reduced to a message.
    Other(String),
}

/// The mathematical image of a replication-layer error.
pub enum RaftErrorV {
    RaftEntryTooLarge { region_id: u64, entry_size: u64 },
    StoreNotMatch { to_store_id: u64, my_store_id: u64 },
    RegionNotFound(u64),
    RegionNotInitialized(u64),
    NotLeader { region_id: u64, leader: Option<Peer> },
    KeyNotInRegion { key: Seq<u8>, region: RegionV },
    EpochNotMatch { msg: Seq<char>, new_regions: Seq<RegionV> },
    StaleCommand,
    Timeout(Seq<char>),
    Transport(DiscardReason),
    Other(Seq<char>),
}

impl View for RaftError {
    type V = RaftErrorV;

    open spec fn view(&self) -> RaftErrorV {
        match self {
            RaftError::RaftEntryTooLarge { region_id, entry_size } => {
                RaftErrorV::RaftEntryTooLarge {
                    region_id: *region_id,
                    entry_size: *entry_size,
                }
            },
            RaftError::StoreNotMatch { to_store_id, my_store_id } => RaftErrorV::StoreNotMatch {
                to_store_id: *to_store_id,
                my_store_id: *my_store_id,
            },
            RaftError::RegionNotFound(id) => RaftErrorV::RegionNotFound(*id),
            RaftError::RegionNotInitialized(id) => RaftErrorV::RegionNotInitialized(*id),
            RaftError::NotLeader { region_id, leader } => RaftErrorV::NotLeader {
                region_id: *region_id,
                leader: *leader,
            },
            RaftError::KeyNotInRegion { key, region } => RaftErrorV::KeyNotInRegion {
                key: key@,
                region: region@,
            },
            RaftError::EpochNotMatch { msg, new_regions } => RaftErrorV::EpochNotMatch {
                msg: msg@,
                new_regions: Seq::new(new_regions@.len(), |i: int| new_regions@[i]@),
            },
            RaftError::StaleCommand => RaftErrorV::StaleCommand,
            RaftError::Timeout(m) => RaftErrorV::Timeout(m@),
            RaftError::Transport(r) => RaftErrorV::Transport(*r),
            RaftError::Other(m) => RaftErrorV::Other(m@),
        }
    }
}

/// The key-not-in-region detail of a wire error header.
#[derive(Debug)]
pub struct KeyNotInRegionInfo {
    pub key: Vec<u8>,
    pub region_id: u64,
    pub start_key: Vec<u8>,
    pub end_key: Vec<u8>,
}

/// The mathematical image of the key-not-in-region detail.
pub struct KeyNotInRegionV {
    pub key: Seq<u8>,
    pub region_id: u64,
    pub start_key: Seq<u8>,
    pub end_key: Seq<u8>,
}

impl View for KeyNotInRegionInfo {
    type V = KeyNotInRegionV;

    open spec fn view(&self) -> KeyNotInRegionV {
        KeyNotInRegionV {
            key: self.key@,
            region_id: self.region_id,
            start_key: self.start_key@,
            end_key: self.end_key@,
        }
    }
}

/// The raft-entry-too-large detail of a wire error header.
#[derive(Clone, Copy, Debug, PartialEq, Eq, Structural)]
pub struct EntryTooLargeInfo {
    pub region_id: u64,
    pub entry_size: u64,
}

/// The store-not-match detail of a wire error header.
#[derive(Clone, Copy, Debug, PartialEq, Eq, Structural)]
pub struct StoreNotMatchInfo {
    pub request_store_id: u64,
    pub actual_store_id: u64,
}

/// The wire-level error header: a message plus at most one structured
/// detail.
#[derive(Debug)]
pub struct ErrorHeader {
    pub message: String,
    pub not_leader: Option<NotLeaderInfo>,
    pub region_not_found: Option<RegionNotFoundInfo>,
    pub epoch_not_match: Option<Vec<Region>>,
    pub key_not_in_region: Option<KeyNotInRegionInfo>,
    pub raft_entry_too_large: Option<EntryTooLargeInfo>,
    pub store_not_match: Option<StoreNotMatchInfo>,
    pub server_is_busy: Option<String>,
    pub stale_command: bool,
}

/// The mathematical image of a wire error header.
pub struct HeaderV {
    pub message: Seq<char>,
    pub not_leader: Option<NotLeaderInfo>,
    pub region_not_found: Option<RegionNotFoundInfo>,
    pub epoch_not_match: Option<Seq<RegionV>>,
    pub key_not_in_region: Option<KeyNotInRegionV>,
    pub raft_entry_too_large: Option<EntryTooLargeInfo>,
    pub store_not_match: Option<StoreNotMatchInfo>,
    pub server_is_busy: Option<Seq<char>>,
    pub stale_command: bool,
}

impl View for ErrorHeader {
    type V = HeaderV;

    open spec fn view(&self) -> HeaderV {
        HeaderV {
            message: self.message@,
            not_leader: self.not_leader,
            region_not_found: self.region_not_found,
            epoch_not_match: match &self.epoch_not_match {
                Some(rs) => Some(Seq::new(rs@.len(), |i: int| rs@[i]@)),
                None => None,
            },
            key_not_in_region: match &self.key_not_in_region {
                Some(k) => Some(k@),
                None => None,
            },
            raft_entry_too_large: self.raft_entry_too_large,
            store_not_match: self.store_not_match,
            server_is_busy: match &self.server_is_busy {
                Some(s) => Some(s@),
                None => None,
            },
            stale_command: self.stale_command,
        }
    }
}

/// An error header with no message and no detail.
pub open spec fn empty_header() -> HeaderV {
    HeaderV {
        message: Seq::empty(),
        not_leader: None,
        region_not_found: None,
        epoch_not_match: None,
        key_not_in_region: None,
        raft_entry_too_large: None,
        store_not_match: None,
        server_is_busy: None,
        stale_command: false,
    }
}

/// The message string each error kind carries on the wire.
pub open spec fn message_of(e: RaftErrorV) -> Seq<char> {
    match e {
        RaftErrorV::RaftEntryTooLarge { .. } => "raft entry is too large"@,
        RaftErrorV::StoreNotMatch { .. } => "store is not match"@,
        RaftErrorV::RegionNotFound(_) => "region is not found"@,
        RaftErrorV::RegionNotInitialized(_) => "region has not been initialized yet"@,
        RaftErrorV::NotLeader { .. } => "peer is not leader"@,
        RaftErrorV::KeyNotInRegion { .. } => "key is not in region"@,
        RaftErrorV::EpochNotMatch { .. } => "region epoch is not match"@,
        RaftErrorV::StaleCommand => "stale command"@,
        RaftErrorV::Timeout(_) => "request timeout"@,
        RaftErrorV::Transport(_) => "failed to send a message"@,
        RaftErrorV::Other(m) => m,
    }
}

/// Reported by the transport when a channel is over capacity.
pub open spec fn busy_reason() -> Seq<char> {
    "raftstore is busy"@
}

/// The wire error header an error translates to: the kind's message plus
/// the structured detail of the kinds that have one.
pub open spec fn header_of(e: RaftErrorV) -> HeaderV {
    let base = HeaderV { message: message_of(e), ..empty_header() };
    match e {
        RaftErrorV::RegionNotFound(region_id) => HeaderV {
            region_not_found: Some(RegionNotFoundInfo { region_id }),
            ..base
        },
        RaftErrorV::NotLeader { region_id, leader } => HeaderV {
            not_leader: Some(NotLeaderInfo { region_id, leader }),
            ..base
        },
        RaftErrorV::RaftEntryTooLarge { region_id, entry_size } => HeaderV {
            raft_entry_too_large: Some(EntryTooLargeInfo { region_id, entry_size }),
            ..base
        },
        RaftErrorV::StoreNotMatch { to_store_id, my_store_id } => HeaderV {
            store_not_match: Some(
                StoreNotMatchInfo {
                    request_store_id: to_store_id,
                    actual_store_id: my_store_id,
                },
            ),
            ..base
        },
        RaftErrorV::KeyNotInRegion { key, region } => HeaderV {
            key_not_in_region: Some(
                KeyNotInRegionV {
                    key,
                    region_id: region.id,
                    start_key: region.start_key,
                    end_key: region.end_key,
                },
            ),
            ..base
        },
        RaftErrorV::EpochNotMatch { msg: _, new_regions } => HeaderV {
            epoch_not_match: Some(new_regions),
            ..base
        },
        RaftErrorV::StaleCommand => HeaderV { stale_command: true, ..base },
        RaftErrorV::Transport(DiscardReason::Full) => HeaderV {
            server_is_busy: Some(busy_reason()),
            ..base
        },
        _ => base,
    }
}

impl ErrorHeader {
    /// A header with no message and no detail.
    pub fn empty() -> (r: ErrorHeader)
        ensures
            r@ == empty_header(),
    {
        let r = ErrorHeader {
            message: String::new(),
            not_leader: None,
            region_not_found: None,
            epoch_not_match: None,
            key_not_in_region: None,
            raft_entry_too_large: None,
            store_not_match: None,
            server_is_busy: None,
            stale_command: false,
        };
        proof {
            assert(r@ =~= empty_header());
        }
        r
    }
}

impl RaftError {
    /// Translates this error into the wire error header.
    pub fn into_error_header(self) -> (r: ErrorHeader)
        ensures
            r@ == header_of(self@),
    {
        let ghost v = self@;
        let mut h = ErrorHeader::empty();
        match self {
            RaftError::RaftEntryTooLarge { region_id, entry_size } => {
                h.message = String::from_str("raft entry is too large");
                h.raft_entry_too_large = Some(EntryTooLargeInfo { region_id, entry_size });
            },
            RaftError::StoreNotMatch { to_store_id, my_store_id } => {
                h.message = String::from_str("store is not match");
                h.store_not_match = Some(
                    StoreNotMatchInfo {
                        request_store_id: to_store_id,
                        actual_store_id: my_store_id,
                    },
                );
            },
            RaftError::RegionNotFound(region_id) => {
                h.message = String::from_str("region is not found");
                h.region_not_found = Some(RegionNotFoundInfo { region_id });
            },
            RaftError::RegionNotInitialized(_) => {
                h.message = String::from_str("region has not been initialized yet");
            },
            RaftError::NotLeader { region_id, leader } => {
                h.message = String::from_str("peer is not leader");
                h.not_leader = Some(NotLeaderInfo { region_id, leader });
            },
            RaftError::KeyNotInRegion { key, region } => {
                h.message = String::from_str("key is not in region");
                h.key_not_in_region = Some(
                    KeyNotInRegionInfo {
                        key,
                        region_id: region.id,
                        start_key: region.start_key,
                        end_key: region.end_key,
                    },
                );
            },
            RaftError::EpochNotMatch { msg: _, new_regions } => {
                h.message = String::from_str("region epoch is not match");
                h.epoch_not_match = Some(new_regions);
            },
            RaftError::StaleCommand => {
                h.message = String::from_str("stale command");
                h.stale_command = true;
            },
            RaftError::Timeout(_) => {
                h.message = String::from_str("request timeout");
            },
            RaftError::Transport(reason) => {
                h.message = String::from_str("failed to send a message");
                if reason == DiscardReason::Full {
                    h.server_is_busy = Some(String::from_str("raftstore is busy"));
                }
            },
            RaftError::Other(m) => {
                h.message = m;
            },
        }
        proof {
            assert(h@ =~= header_of(v));
        }
        h
    }

    /// The catalog code of this error kind.
    pub fn error_code(&self) -> (r: &'static str)
        ensures
            r@ == code_of(self@),
    {
        match self {
            RaftError::RaftEntryTooLarge { .. } => "KV:Raftstore:EntryTooLarge",
            RaftError::StoreNotMatch { .. } => "KV:Raftstore:StoreNotMatch",
            RaftError::RegionNotFound(_) => "KV:Raftstore:RegionNotFound",
            RaftError::RegionNotInitialized(_) => "KV:Raftstore:RegionNotInitialized",
            RaftError::NotLeader { .. } => "KV:Raftstore:NotLeader",
            RaftError::KeyNotInRegion { .. } => "KV:Raftstore:KeyNotInRegion",
            RaftError::EpochNotMatch { .. } => "KV:Raftstore:EpochNotMatch",
            RaftError::StaleCommand => "KV:Raftstore:StaleCommand",
            RaftError::Timeout(_) => "KV:Raftstore:Timeout",
            RaftError::Transport(_) => "KV:Raftstore:Transport",
            RaftError::Other(_) => "KV:Raftstore:Unknown",
        }
    }
}

/// The catalog code each error kind maps to.
pub open spec fn code_of(e: RaftErrorV) -> Seq<char> {
    match e {
        RaftErrorV::RaftEntryTooLarge { .. } => "KV:Raftstore:EntryTooLarge"@,
        RaftErrorV::StoreNotMatch { .. } => "KV:Raftstore:StoreNotMatch"@,
        RaftErrorV::RegionNotFound(_) => "KV:Raftstore:RegionNotFound"@,
        RaftErrorV::RegionNotInitialized(_) => "KV:Raftstore:RegionNotInitialized"@,
        RaftErrorV::NotLeader { .. } => "KV:Raftstore:NotLeader"@,
        RaftErrorV::KeyNotInRegion { .. } => "KV:Raftstore:KeyNotInRegion"@,
        RaftErrorV::EpochNotMatch { .. } => "KV:Raftstore:EpochNotMatch"@,
        RaftErrorV::StaleCommand => "KV:Raftstore:StaleCommand"@,
        RaftErrorV::Timeout(_) => "KV:Raftstore:Timeout"@,
        RaftErrorV::Transport(_) => "KV:Raftstore:Transport"@,
        RaftErrorV::Other(_) => "KV:Raftstore:Unknown"@,
    }
}

/// The outcome of a non-blocking send into a downstream sink.
#[derive(Clone, Copy, Debug, PartialEq, Eq, Structural)]
pub enum SendOutcome {
    /// The event was handed to the channel.
    Sent,
    /// The channel was full; the event was dropped.
    Full,
    /// The receiver is gone; the event was dropped.
    Disconnected,
}

/// The transport error a failed send maps to.
pub fn send_outcome_error(outcome: SendOutcome) -> (r: Option<RaftError>)
    ensures
        match outcome {
            SendOutcome::Sent => r is None,
            SendOutcome::Full => r == Some(RaftError::Transport(DiscardReason::Full)),
            SendOutcome::Disconnected => r == Some(
                RaftError::Transport(DiscardReason::Disconnected),
            ),
        },
{
    match outcome {
        SendOutcome::Sent => None,
        SendOutcome::Full => Some(RaftError::Transport(DiscardReason::Full)),
        SendOutcome::Disconnected => Some(RaftError::Transport(DiscardReason::Disconnected)),
    }
}

/// An error of the CDC layer proper.
#[derive(Debug)]
pub enum CdcError {
    /// A request-level error surfaced by a command response header.
    Request(ErrorHeader),
    /// Any other failure, reduced to a message.
    Other(String),
}

/// The mathematical image of a CDC-layer error.
pub enum CdcErrorV {
    Request(HeaderV),
    Other(Seq<char>),
}

impl View for CdcError {
    type V = CdcErrorV;

    open spec fn view(&self) -> CdcErrorV {
        match self {
            CdcError::Request(h) => CdcErrorV::Request(h@),
            CdcError::Other(m) => CdcErrorV::Other(m@),
        }
    }
}

/// The error header a CDC error reduces to when reported downstream.
pub open spec fn extract_header_of(e: CdcErrorV) -> HeaderV {
    match e {
        CdcErrorV::Request(h) => h,
        CdcErrorV::Other(m) => HeaderV { message: m, ..empty_header() },
    }
}

impl CdcError {
    /// Reduces this error to a wire error header.
    pub fn extract_error_header(self) -> (r: ErrorHeader)
        ensures
            r@ == extract_header_of(self@),
    {
        match self {
            CdcError::Request(h) => h,
            CdcError::Other(m) => {
                let mut h = ErrorHeader::empty();
                h.message = m;
                proof {
                    assert(h@ =~= extract_header_of(CdcErrorV::Other(h.message@)));
                }
                h
            },
        }
    }
}

} // verus!
