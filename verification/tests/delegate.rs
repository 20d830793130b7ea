use cdc_core::cmd::{
    AdminCmdType, AdminRequest, AdminResponse, BatchSplitResponse, CfName, Cmd, CmdBatch,
    CmdRequest, ObserveId, SplitResponse,
};
use cdc_core::delegate::{
    ConnID, Delegate, Downstream, DownstreamID, DownstreamState, OldValueTable, TxnEntry,
    TxnExtraOp,
};
use cdc_core::errors::{CdcError, ErrorHeader};
use cdc_core::events::{
    Event, EventError, EventPayload, EventRow, LogType, NotLeaderInfo, OpType, Peer, Region,
    RegionEpoch, RegionNotFoundInfo,
};
use cdc_core::key::Key;
use cdc_core::resolver::Resolver;
use cdc_core::sink::EventSink;
use cdc_core::timestamp::TimeStamp;
use cdc_core::txn::{encode_lock_record, encode_write_record, LockKind, LockRecord, WriteKind,
    WriteRecord};

fn test_region(region_id: u64) -> Region {
    let mut region = Region::new(region_id);
    region.peers.push(Peer { id: 0, store_id: 0 });
    region.region_epoch = RegionEpoch { conf_ver: 2, version: 2 };
    region
}

fn receive_event(rx: &crossbeam::channel::Receiver<Event>, request_id: u64) -> Event {
    let ev = match rx.try_recv() {
        Ok(ev) => ev,
        Err(e) => panic!("unexpected recv error: {:?}", e),
    };
    assert_eq!(ev.request_id, request_id);
    ev
}

fn receive_error(rx: &crossbeam::channel::Receiver<Event>, request_id: u64) -> EventError {
    let ev = receive_event(rx, request_id);
    match ev.payload {
        EventPayload::Error(err) => err,
        other => panic!("unknown event {:?}", other),
    }
}

fn not_leader_error() -> CdcError {
    let mut header = ErrorHeader::empty();
    header.not_leader = Some(NotLeaderInfo { region_id: 0, leader: None });
    CdcError::Request(header)
}

fn region_not_found_error() -> CdcError {
    let mut header = ErrorHeader::empty();
    header.region_not_found = Some(RegionNotFoundInfo { region_id: 0 });
    CdcError::Request(header)
}

fn epoch_not_match_error() -> CdcError {
    let mut header = ErrorHeader::empty();
    header.epoch_not_match = Some(Vec::new());
    CdcError::Request(header)
}

#[test]
fn test_error() {
    let region_id = 1;
    let region = test_region(region_id);
    let region_epoch = region.region_epoch;

    let (sink, rx) = crossbeam::channel::unbounded();
    let request_id = 123;
    let mut downstream = Downstream::new(
        String::new(),
        region_epoch,
        request_id,
        ConnID::new(1),
        DownstreamID::new(1),
    );
    downstream.set_sink(EventSink::new(sink));
    let mut delegate = Delegate::new(region_id, ObserveId::new(1));
    assert!(delegate.subscribe(downstream));
    assert!(delegate.enabled());
    let mut resolver = Resolver::new(region_id);
    resolver.init();
    for downstream in delegate.on_region_ready(resolver, region) {
        assert!(delegate.subscribe(downstream));
    }

    delegate.stop(not_leader_error());
    let err = receive_error(&rx, request_id);
    assert!(matches!(err, EventError::NotLeader(_)));
    // Exactly one event reaches the sink.
    assert!(rx.try_recv().is_err());
    // Enable is disabled by any error.
    assert!(!delegate.enabled());

    delegate.stop(region_not_found_error());
    let err = receive_error(&rx, request_id);
    assert!(matches!(err, EventError::RegionNotFound(_)));

    delegate.stop(epoch_not_match_error());
    let err = receive_error(&rx, request_id);
    assert!(matches!(err, EventError::EpochNotMatch(_)));

    // Split
    let region = test_region(1);
    let request = AdminRequest { cmd_type: AdminCmdType::Split };
    let mut response = AdminResponse::empty();
    response.split = SplitResponse { left: region, right: Region::new(0) };
    let err = delegate.sink_admin(request, response).err().unwrap();
    delegate.stop(err);
    let err = receive_error(&rx, request_id);
    match err {
        EventError::EpochNotMatch(info) => {
            assert!(info.current_regions.iter().any(|r| r.id == 1));
        },
        other => panic!("unknown event {:?}", other),
    }

    let request = AdminRequest { cmd_type: AdminCmdType::BatchSplit };
    let mut response = AdminResponse::empty();
    response.splits = BatchSplitResponse { regions: vec![test_region(1)] };
    let err = delegate.sink_admin(request, response).err().unwrap();
    delegate.stop(err);
    let err = receive_error(&rx, request_id);
    match err {
        EventError::EpochNotMatch(info) => {
            assert!(info.current_regions.iter().any(|r| r.id == 1));
        },
        other => panic!("unknown event {:?}", other),
    }

    // Merge
    for cmd_type in [
        AdminCmdType::PrepareMerge,
        AdminCmdType::CommitMerge,
        AdminCmdType::RollbackMerge,
    ] {
        let request = AdminRequest { cmd_type };
        let response = AdminResponse::empty();
        let err = delegate.sink_admin(request, response).err().unwrap();
        delegate.stop(err);
        let err = receive_error(&rx, request_id);
        match err {
            EventError::EpochNotMatch(info) => {
                assert!(info.current_regions.is_empty());
            },
            other => panic!("unknown event {:?}", other),
        }
    }
}

fn prewrite_entry(key: &[u8], value: &[u8], start_ts: u64) -> TxnEntry {
    let lock_key = Key::from_raw(key).into_encoded();
    let lock_value = encode_lock_record(&LockRecord {
        kind: LockKind::Put,
        ts: start_ts,
        short_value: Some(value.to_vec()),
    });
    TxnEntry::Prewrite {
        default: (Vec::new(), Vec::new()),
        lock: (lock_key, lock_value),
        old_value: None,
    }
}

fn commit_entry(key: &[u8], value: &[u8], start_ts: u64, commit_ts: u64) -> TxnEntry {
    let write_key = Key::from_raw(key).append_ts(TimeStamp::new(commit_ts)).into_encoded();
    let write_value = encode_write_record(&WriteRecord {
        kind: WriteKind::Put,
        start_ts,
        short_value: Some(value.to_vec()),
    });
    TxnEntry::Commit {
        default: (Vec::new(), Vec::new()),
        write: (write_key, write_value),
        old_value: None,
    }
}

fn rollback_entry(key: &[u8], start_ts: u64) -> TxnEntry {
    let write_key = Key::from_raw(key).append_ts(TimeStamp::new(start_ts)).into_encoded();
    let write_value = encode_write_record(&WriteRecord {
        kind: WriteKind::Rollback,
        start_ts,
        short_value: None,
    });
    TxnEntry::Commit {
        default: (Vec::new(), Vec::new()),
        write: (write_key, write_value),
        old_value: None,
    }
}

fn check_row(
    row: &EventRow,
    start_ts: u64,
    commit_ts: u64,
    key: &[u8],
    value: &[u8],
    op: OpType,
    log: LogType,
) {
    assert_eq!(row.start_ts, start_ts);
    assert_eq!(row.commit_ts, commit_ts);
    assert_eq!(row.key, key.to_vec());
    assert_eq!(row.value, value.to_vec());
    assert_eq!(row.op_type, op);
    assert_eq!(row.log_type, log);
}

#[test]
fn test_scan() {
    let region_id = 1;
    let region = test_region(region_id);
    let region_epoch = region.region_epoch;

    let (sink, rx) = crossbeam::channel::unbounded();
    let request_id = 123;
    let mut downstream = Downstream::new(
        String::new(),
        region_epoch,
        request_id,
        ConnID::new(1),
        DownstreamID::new(2),
    );
    let downstream_id = downstream.get_id();
    downstream.set_sink(EventSink::new(sink));
    let mut delegate = Delegate::new(region_id, ObserveId::new(2));
    assert!(delegate.subscribe(downstream));
    assert!(delegate.enabled());

    // Stashed in pending before region ready.
    let entries = vec![
        Some(prewrite_entry(b"a", b"b", 1)),
        Some(commit_entry(b"a", b"b", 1, 2)),
        Some(rollback_entry(b"a", 3)),
        None,
    ];
    delegate.on_scan(downstream_id, entries);

    let ev = receive_event(&rx, request_id);
    assert_eq!(ev.region_id, region_id);
    assert_eq!(ev.index, 0);
    let rows = match ev.payload {
        EventPayload::Entries(rows) => rows,
        other => panic!("unknown event {:?}", other),
    };
    assert_eq!(rows.len(), 3);
    check_row(&rows[0], 1, 0, b"a", b"b", OpType::Put, LogType::Prewrite);
    check_row(&rows[1], 1, 2, b"a", b"b", OpType::Put, LogType::Committed);
    check_row(&rows[2], 0, 0, b"", b"", OpType::Unknown, LogType::Initialized);

    let mut resolver = Resolver::new(region_id);
    resolver.init();
    delegate.on_region_ready(resolver, region);
}

fn put_request(cf: CfName, key: Vec<u8>, value: Vec<u8>) -> CmdRequest {
    CmdRequest::Put { cf, key, value }
}

fn data_cmd(index: u64, requests: Vec<CmdRequest>) -> Cmd {
    Cmd {
        index,
        admin_request: None,
        requests,
        header_error: None,
        admin_response: AdminResponse::empty(),
    }
}

#[test]
fn test_batch_tracks_and_untracks_locks() {
    // A prewrite observed while initializing is buffered, replayed into
    // the resolver at readiness, and holds the resolved timestamp back
    // until its commit untracks it.
    let region_id = 1;
    let region = test_region(region_id);
    let region_epoch = region.region_epoch;
    let (sink, rx) = crossbeam::channel::unbounded();
    let mut downstream = Downstream::new(
        String::new(),
        region_epoch,
        7,
        ConnID::new(1),
        DownstreamID::new(3),
    );
    downstream.set_sink(EventSink::new(sink));
    let mut delegate = Delegate::new(region_id, ObserveId::new(3));
    assert!(delegate.subscribe(downstream));

    // Lock-column-family put for key "a" at start_ts 5, buffered.
    let lock_key = Key::from_raw(b"a").into_encoded();
    let lock_value = encode_lock_record(&LockRecord {
        kind: LockKind::Put,
        ts: 5,
        short_value: None,
    });
    let batch = CmdBatch {
        observe_id: ObserveId::new(3),
        region_id,
        commands: vec![data_cmd(4, vec![put_request(CfName::Lock, lock_key, lock_value)])],
    };
    let reader = OldValueTable::new();
    delegate.on_batch(batch, &reader).unwrap();

    // A stale batch from another observation generation is dropped.
    let stale = CmdBatch {
        observe_id: ObserveId::new(99),
        region_id,
        commands: vec![data_cmd(5, vec![CmdRequest::Other])],
    };
    delegate.on_batch(stale, &reader).unwrap();

    let mut resolver = Resolver::new(region_id);
    resolver.init();
    for d in delegate.on_region_ready(resolver, region) {
        assert!(delegate.subscribe(d));
    }

    // The tracked lock holds the resolved timestamp at its start.
    assert_eq!(delegate.on_min_ts(TimeStamp::new(10)), Some(TimeStamp::new(5)));

    // The matching commit from the write column family untracks it.
    let write_key = Key::from_raw(b"a").append_ts(TimeStamp::new(6)).into_encoded();
    let write_value = encode_write_record(&WriteRecord {
        kind: WriteKind::Put,
        start_ts: 5,
        short_value: Some(b"v".to_vec()),
    });
    let batch = CmdBatch {
        observe_id: ObserveId::new(3),
        region_id,
        commands: vec![data_cmd(6, vec![put_request(CfName::Write, write_key, write_value)])],
    };
    delegate.on_batch(batch, &reader).unwrap();
    assert_eq!(delegate.on_min_ts(TimeStamp::new(10)), Some(TimeStamp::new(10)));

    // The pending-phase data command was broadcast to nobody (the
    // downstream was still uninitialized), so the first event on the
    // sink is the one for the ready-phase commit... which also goes
    // nowhere until the downstream turns Normal. Nothing was received.
    assert!(rx.try_recv().is_err());
}

#[test]
fn test_resolved_ts_monotonic() {
    // Without locks the resolved timestamp follows the observed minimum
    // and never decreases.
    let region_id = 2;
    let region = test_region(region_id);
    let region_epoch = region.region_epoch;
    let (sink, _rx) = crossbeam::channel::unbounded();
    let mut downstream = Downstream::new(
        String::new(),
        region_epoch,
        1,
        ConnID::new(1),
        DownstreamID::new(4),
    );
    downstream.set_sink(EventSink::new(sink));
    let mut delegate = Delegate::new(region_id, ObserveId::new(4));
    assert!(delegate.subscribe(downstream));
    assert_eq!(delegate.on_min_ts(TimeStamp::new(3)), None);
    let mut resolver = Resolver::new(region_id);
    resolver.init();
    for d in delegate.on_region_ready(resolver, region) {
        assert!(delegate.subscribe(d));
    }
    let t1 = TimeStamp::new(100);
    let t2 = TimeStamp::new(200);
    let r1 = delegate.on_min_ts(t1).unwrap();
    let r2 = delegate.on_min_ts(t2).unwrap();
    assert!(r1.into_inner() <= t1.into_inner());
    assert!(r2.into_inner() <= t2.into_inner());
    assert!(r1.into_inner() <= r2.into_inner());
    // A smaller observed minimum cannot pull the stream back.
    let r3 = delegate.on_min_ts(TimeStamp::new(150)).unwrap();
    assert!(r3.into_inner() >= r2.into_inner());
}

#[test]
fn test_subscribe_epoch_mismatch() {
    let region_id = 3;
    let region = test_region(region_id);
    let (sink, rx) = crossbeam::channel::unbounded();
    let mut delegate = Delegate::new(region_id, ObserveId::new(5));
    let mut seed = Downstream::new(
        String::new(),
        region.region_epoch,
        9,
        ConnID::new(1),
        DownstreamID::new(5),
    );
    let (drop_sink, _drop_rx) = crossbeam::channel::unbounded::<Event>();
    seed.set_sink(EventSink::new(drop_sink));
    assert!(delegate.subscribe(seed));
    let mut resolver = Resolver::new(region_id);
    resolver.init();
    for d in delegate.on_region_ready(resolver, region) {
        assert!(delegate.subscribe(d));
    }
    // A subscriber asserting a stale epoch version is refused and gets
    // an epoch-not-match error on its own sink.
    let mut stale = Downstream::new(
        String::new(),
        RegionEpoch { conf_ver: 2, version: 1 },
        11,
        ConnID::new(2),
        DownstreamID::new(6),
    );
    stale.set_sink(EventSink::new(sink));
    assert!(!delegate.subscribe(stale));
    let err = receive_error(&rx, 11);
    assert!(matches!(err, EventError::EpochNotMatch(_)));
}

#[test]
fn test_unsubscribe_last_disables() {
    let region_id = 4;
    let mut delegate = Delegate::new(region_id, ObserveId::new(6));
    let downstream = Downstream::new(
        String::new(),
        RegionEpoch { conf_ver: 2, version: 2 },
        1,
        ConnID::new(1),
        DownstreamID::new(7),
    );
    assert!(delegate.subscribe(downstream));
    assert!(delegate.enabled());
    let is_last = delegate.unsubscribe(DownstreamID::new(7), None);
    assert!(is_last);
    assert!(!delegate.enabled());
}

#[test]
fn test_scan_chunks_by_size() {
    // Two large committed rows cross the 6 MiB budget, so they are
    // split into two entries events; the sentinel lands in the second.
    let region_id = 5;
    let (sink, rx) = crossbeam::channel::unbounded();
    let request_id = 77;
    let mut downstream = Downstream::new(
        String::new(),
        RegionEpoch { conf_ver: 2, version: 2 },
        request_id,
        ConnID::new(1),
        DownstreamID::new(8),
    );
    let downstream_id = downstream.get_id();
    downstream.set_sink(EventSink::new(sink));
    let mut delegate = Delegate::new(region_id, ObserveId::new(7));
    assert!(delegate.subscribe(downstream));

    let big = vec![0x61u8; 4 * 1024 * 1024];
    let entries = vec![
        Some(big_commit_entry(b"k1", &big, 1, 2)),
        Some(big_commit_entry(b"k2", &big, 3, 4)),
        None,
    ];
    delegate.on_scan(downstream_id, entries);

    let ev1 = receive_event(&rx, request_id);
    let rows1 = match ev1.payload {
        EventPayload::Entries(rows) => rows,
        other => panic!("unknown event {:?}", other),
    };
    assert_eq!(rows1.len(), 1);
    assert_eq!(rows1[0].key, b"k1".to_vec());
    let ev2 = receive_event(&rx, request_id);
    let rows2 = match ev2.payload {
        EventPayload::Entries(rows) => rows,
        other => panic!("unknown event {:?}", other),
    };
    assert_eq!(rows2.len(), 2);
    assert_eq!(rows2[0].key, b"k2".to_vec());
    assert_eq!(rows2[1].log_type, LogType::Initialized);
}

fn big_commit_entry(key: &[u8], value: &[u8], start_ts: u64, commit_ts: u64) -> TxnEntry {
    // The large value travels on the default column family; the write
    // record itself carries no inline value.
    let write_key = Key::from_raw(key).append_ts(TimeStamp::new(commit_ts)).into_encoded();
    let write_value = encode_write_record(&WriteRecord {
        kind: WriteKind::Put,
        start_ts,
        short_value: None,
    });
    TxnEntry::Commit {
        default: (Vec::new(), value.to_vec()),
        write: (write_key, write_value),
        old_value: None,
    }
}

#[test]
fn test_sink_data_broadcasts_rows() {
    // Once ready and with a Normal downstream, a data command's put
    // requests aggregate into one entries event tagged with the command
    // index.
    let region_id = 6;
    let region = test_region(region_id);
    let region_epoch = region.region_epoch;
    let (sink, rx) = crossbeam::channel::unbounded();
    let request_id = 55;
    let mut downstream = Downstream::new(
        String::new(),
        region_epoch,
        request_id,
        ConnID::new(1),
        DownstreamID::new(9),
    );
    let downstream_id = downstream.get_id();
    downstream.set_sink(EventSink::new(sink));
    let mut delegate = Delegate::new(region_id, ObserveId::new(8));
    assert!(delegate.subscribe(downstream));
    let mut resolver = Resolver::new(region_id);
    resolver.init();
    let mut promoted = Vec::new();
    for mut d in delegate.on_region_ready(resolver, region) {
        if d.get_id() == downstream_id {
            d.set_state(DownstreamState::Normal);
        }
        promoted.push(d);
    }
    for d in promoted {
        assert!(delegate.subscribe(d));
    }

    let lock_key = Key::from_raw(b"row").into_encoded();
    let lock_value = encode_lock_record(&LockRecord {
        kind: LockKind::Put,
        ts: 8,
        short_value: None,
    });
    let default_key = Key::from_raw(b"row").append_ts(TimeStamp::new(8)).into_encoded();
    let requests = vec![
        put_request(CfName::Lock, lock_key, lock_value),
        put_request(CfName::Default, default_key, b"value".to_vec()),
    ];
    let reader = OldValueTable::new();
    delegate.sink_data(42, requests, &reader).unwrap();

    let ev = receive_event(&rx, request_id);
    assert_eq!(ev.index, 42);
    assert_eq!(ev.region_id, region_id);
    let rows = match ev.payload {
        EventPayload::Entries(rows) => rows,
        other => panic!("unknown event {:?}", other),
    };
    assert_eq!(rows.len(), 1);
    check_row(&rows[0], 8, 0, b"row", b"value", OpType::Put, LogType::Prewrite);

    // A resolved timestamp is broadcast to the Normal downstream.
    assert_eq!(delegate.on_min_ts(TimeStamp::new(20)), Some(TimeStamp::new(8)));
    let ev = receive_event(&rx, request_id);
    match ev.payload {
        EventPayload::ResolvedTs(ts) => assert_eq!(ts, 8),
        other => panic!("unknown event {:?}", other),
    }
}

#[test]
fn test_old_value_capture() {
    // With old-value capture enabled the reader is consulted under the
    // prewritten key re-encoded with its start timestamp.
    let region_id = 7;
    let region = test_region(region_id);
    let region_epoch = region.region_epoch;
    let (sink, rx) = crossbeam::channel::unbounded();
    let request_id = 56;
    let mut downstream = Downstream::new(
        String::new(),
        region_epoch,
        request_id,
        ConnID::new(1),
        DownstreamID::new(10),
    );
    let downstream_id = downstream.get_id();
    downstream.set_sink(EventSink::new(sink));
    let mut delegate = Delegate::new(region_id, ObserveId::new(9));
    delegate.set_txn_extra_op(TxnExtraOp::ReadOldValue);
    assert!(delegate.subscribe(downstream));
    let mut resolver = Resolver::new(region_id);
    resolver.init();
    let mut promoted = Vec::new();
    for mut d in delegate.on_region_ready(resolver, region) {
        if d.get_id() == downstream_id {
            d.set_state(DownstreamState::Normal);
        }
        promoted.push(d);
    }
    for d in promoted {
        assert!(delegate.subscribe(d));
    }

    let lock_key = Key::from_raw(b"row").into_encoded();
    let lock_value = encode_lock_record(&LockRecord {
        kind: LockKind::Put,
        ts: 8,
        short_value: Some(b"new".to_vec()),
    });
    let mut reader = OldValueTable::new();
    reader.stage(
        Key::from_raw(b"row").append_ts(TimeStamp::new(8)).into_encoded(),
        b"old".to_vec(),
    );
    delegate.sink_data(1, vec![put_request(CfName::Lock, lock_key, lock_value)], &reader)
        .unwrap();
    let ev = receive_event(&rx, request_id);
    let rows = match ev.payload {
        EventPayload::Entries(rows) => rows,
        other => panic!("unknown event {:?}", other),
    };
    assert_eq!(rows[0].old_value, b"old".to_vec());
    assert_eq!(rows[0].value, b"new".to_vec());
}

#[test]
fn test_downstream_duplicate_error() {
    let (sink, rx) = crossbeam::channel::unbounded();
    let mut downstream = Downstream::new(
        String::new(),
        RegionEpoch { conf_ver: 0, version: 0 },
        5,
        ConnID::new(1),
        DownstreamID::new(11),
    );
    downstream.set_sink(EventSink::new(sink));
    downstream.sink_duplicate_error(12);
    let err = receive_error(&rx, 5);
    match err {
        EventError::DuplicateRequest(id) => assert_eq!(id, 12),
        other => panic!("unknown event {:?}", other),
    }
    assert_eq!(downstream.get_conn_id(), ConnID::new(1));
    assert_eq!(downstream.get_state(), DownstreamState::Uninitialized);
}

#[test]
fn test_batch_header_error_surfaces() {
    // A response header error marks the delegate failed and surfaces to
    // the caller, who is expected to stop the delegate.
    let region_id = 8;
    let (sink, _rx) = crossbeam::channel::unbounded::<Event>();
    let mut downstream = Downstream::new(
        String::new(),
        RegionEpoch { conf_ver: 2, version: 2 },
        1,
        ConnID::new(1),
        DownstreamID::new(12),
    );
    downstream.set_sink(EventSink::new(sink));
    let mut delegate = Delegate::new(region_id, ObserveId::new(10));
    assert!(delegate.subscribe(downstream));
    assert!(!delegate.has_failed());

    let mut header = ErrorHeader::empty();
    header.not_leader = Some(NotLeaderInfo { region_id, leader: None });
    let cmd = Cmd {
        index: 1,
        admin_request: None,
        requests: Vec::new(),
        header_error: Some(header),
        admin_response: AdminResponse::empty(),
    };
    let batch = CmdBatch { observe_id: ObserveId::new(10), region_id, commands: vec![cmd] };
    let reader = OldValueTable::new();
    let err = delegate.on_batch(batch, &reader).err().unwrap();
    assert!(delegate.has_failed());
    match err {
        CdcError::Request(h) => assert_eq!(h.not_leader.unwrap().region_id, region_id),
        other => panic!("unknown event {:?}", other),
    }
}

#[test]
fn test_compatibility_error() {
    let (sink, rx) = crossbeam::channel::unbounded();
    let mut downstream = Downstream::new(
        String::new(),
        RegionEpoch { conf_ver: 0, version: 0 },
        6,
        ConnID::new(1),
        DownstreamID::new(13),
    );
    downstream.set_sink(EventSink::new(sink));
    downstream.sink_compatibility_error(3, String::from("6.0 required"));
    let err = receive_error(&rx, 6);
    match err {
        EventError::Compatibility(msg) => assert_eq!(msg, "6.0 required"),
        other => panic!("unknown event {:?}", other),
    }
}
