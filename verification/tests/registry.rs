use cdc_core::errors::{DiscardReason, ErrorHeader, RaftError};
use cdc_core::key::Key;
use cdc_core::mutation::{
    Mutation, MutationType, OldValue, RangeTTL, RangeTTLRegistry, TxnExtra,
};
use cdc_core::text::u64_to_dec;
use cdc_core::timestamp::TimeStamp;

#[test]
fn test_error_header_translation() {
    let header: ErrorHeader = RaftError::NotLeader { region_id: 4, leader: None }
        .into_error_header();
    assert_eq!(header.not_leader.unwrap().region_id, 4);
    assert_eq!(header.message, "peer is not leader");

    let header = RaftError::RegionNotFound(9).into_error_header();
    assert_eq!(header.region_not_found.unwrap().region_id, 9);

    let header = RaftError::StaleCommand.into_error_header();
    assert!(header.stale_command);

    let header = RaftError::Transport(DiscardReason::Full).into_error_header();
    assert_eq!(header.server_is_busy.unwrap(), "raftstore is busy");

    let header = RaftError::Transport(DiscardReason::Disconnected).into_error_header();
    assert!(header.server_is_busy.is_none());

    let header = RaftError::RaftEntryTooLarge { region_id: 2, entry_size: 512 }
        .into_error_header();
    let info = header.raft_entry_too_large.unwrap();
    assert_eq!(info.region_id, 2);
    assert_eq!(info.entry_size, 512);

    let header = RaftError::StoreNotMatch { to_store_id: 5, my_store_id: 6 }
        .into_error_header();
    let info = header.store_not_match.unwrap();
    assert_eq!(info.request_store_id, 5);
    assert_eq!(info.actual_store_id, 6);
}

#[test]
fn test_error_codes() {
    assert_eq!(RaftError::StaleCommand.error_code(), "KV:Raftstore:StaleCommand");
    assert_eq!(
        RaftError::NotLeader { region_id: 0, leader: None }.error_code(),
        "KV:Raftstore:NotLeader"
    );
    assert_eq!(
        RaftError::EpochNotMatch { msg: String::new(), new_regions: Vec::new() }.error_code(),
        "KV:Raftstore:EpochNotMatch"
    );
    assert_eq!(RaftError::Other(String::new()).error_code(), "KV:Raftstore:Unknown");
}

#[test]
fn test_mutation_accessors() {
    let key = Key::from_raw(b"m");
    let put = Mutation::Put((Key::from_raw(b"m"), b"v".to_vec()));
    assert_eq!(put.key().as_encoded(), key.as_encoded());
    assert_eq!(put.mutation_type(), MutationType::Put);
    assert!(!put.should_not_exists());
    assert!(!put.should_not_write());
    let (k, v) = put.into_key_value();
    assert_eq!(k.as_encoded(), key.as_encoded());
    assert_eq!(v.unwrap(), b"v".to_vec());

    let check = Mutation::CheckNotExists(Key::from_raw(b"m"));
    assert_eq!(check.mutation_type(), MutationType::Other);
    assert!(check.should_not_exists());
    assert!(check.should_not_write());

    let ins = Mutation::Insert((Key::from_raw(b"m"), b"w".to_vec()));
    assert_eq!(ins.mutation_type(), MutationType::Insert);
    assert!(ins.should_not_exists());
    assert!(!ins.should_not_write());

    let del = Mutation::Delete(Key::from_raw(b"m"));
    assert_eq!(del.mutation_type(), MutationType::Delete);
    let (_, v) = del.into_key_value();
    assert!(v.is_none());

    let lock = Mutation::Lock(Key::from_raw(b"m"));
    assert_eq!(lock.mutation_type(), MutationType::Lock);
}

#[test]
fn test_txn_extra_upserts() {
    let mut extra = TxnExtra::new();
    assert!(extra.is_empty());
    extra.add_old_value(
        Key::from_raw(b"k1"),
        Some(OldValue { short_value: Some(b"v1".to_vec()), start_ts: TimeStamp::new(1) }),
        MutationType::Put,
    );
    extra.add_old_value(Key::from_raw(b"k2"), None, MutationType::Delete);
    assert_eq!(extra.get_old_values().len(), 2);
    // A later record for the same key replaces the earlier one.
    extra.add_old_value(
        Key::from_raw(b"k1"),
        Some(OldValue { short_value: Some(b"v2".to_vec()), start_ts: TimeStamp::new(2) }),
        MutationType::Put,
    );
    assert_eq!(extra.get_old_values().len(), 2);
    let entry = &extra.get_old_values()[0];
    assert_eq!(entry.value.as_ref().unwrap().short_value.as_ref().unwrap(), &b"v2".to_vec());
    assert!(!extra.is_empty());

    let mut other = TxnExtra::new();
    other.add_old_value(Key::from_raw(b"k3"), None, MutationType::Lock);
    extra.extend(&mut other);
    assert!(other.is_empty());
    assert_eq!(extra.get_old_values().len(), 3);
}

#[test]
fn test_range_ttl_json() {
    // "a" encodes to 61 followed by seven zero bytes and the padding
    // marker F8; the hex rendering is exact.
    let ttl = RangeTTL::new(b"a", b"b", 5);
    assert_eq!(
        ttl.json_string(),
        "{\"start_key\": \"6100000000000000F8\", \"end_key\":\"6200000000000000F8\", \"ttl\":5}"
    );
    let mut registry = RangeTTLRegistry::new();
    assert_eq!(registry.json_string(), "[]");
    registry.update(vec![RangeTTL::new(b"a", b"b", 5), RangeTTL::new(b"c", b"d", 6)]);
    assert_eq!(
        registry.json_string(),
        "[{\"start_key\": \"6100000000000000F8\", \"end_key\":\"6200000000000000F8\", \"ttl\":5},{\"start_key\": \"6300000000000000F8\", \"end_key\":\"6400000000000000F8\", \"ttl\":6}]"
    );
}

#[test]
fn test_range_expiry() {
    let mut registry = RangeTTLRegistry::new();
    registry.update(vec![RangeTTL::new(b"a", b"b", 10)]);
    // With a clock reading, the expiry counts back from now, capped at
    // the safe point.
    let safe_point = TimeStamp::compose(100, 0);
    let now = TimeStamp::compose(50, 0);
    let resolved = registry.get(safe_point, now);
    assert_eq!(resolved.len(), 1);
    assert_eq!(resolved[0].expiry.physical(), 40);
    // Without one, it counts back from the safe point.
    let resolved = registry.get(safe_point, TimeStamp::new(0));
    assert_eq!(resolved[0].expiry.physical(), 90);
    // The cap applies when now is far ahead of the safe point.
    let resolved = registry.get(TimeStamp::compose(20, 0), TimeStamp::compose(500, 0));
    assert_eq!(resolved[0].expiry.physical(), 20);
}

#[test]
fn test_u64_to_dec() {
    assert_eq!(u64_to_dec(0), "0");
    assert_eq!(u64_to_dec(42), "42");
    assert_eq!(u64_to_dec(18446744073709551615), "18446744073709551615");
}

#[test]
fn test_from_minutes() {
    let ttl = RangeTTL::from_minutes(b"a", b"b", 2);
    assert_eq!(ttl.ttl, 120000);
}
