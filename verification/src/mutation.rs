//! Row mutations of the transactional layer, the old-value side table
//! filled during command processing, and the TTL-range registry.

use vstd::prelude::*;
use vstd::string::*;

use crate::codec::{dec_bytes, enc_bytes, CodecError};
use crate::key::Key;
use crate::text::{dec_str_of, hex_upper, hex_upper_of, u64_to_dec};
use crate::timestamp::TimeStamp;

verus! {

/// The kind of a row mutation.
#[derive(Clone, Copy, Debug, PartialEq, Eq, Structural)]
pub enum MutationType {
    Put,
    Delete,
    Lock,
    Insert,
    Other,
}

/// A row mutation.
#[derive(Debug)]
pub enum Mutation {
    /// Put a value under a key, overwriting any existing value.
    Put((Key, Vec<u8>)),
    /// Delete a key.
    Delete(Key),
    /// Set a lock on a key.
    Lock(Key),
    /// Put a value under a key that must not yet exist.
    Insert((Key, Vec<u8>)),
    /// Assert that a key does not exist; writes nothing.
    CheckNotExists(Key),
}

/// The mathematical image of a mutation: its encoded key and, where it
/// has one, its value.
pub enum MutationV {
    Put((Seq<u8>, Seq<u8>)),
    Delete(Seq<u8>),
    Lock(Seq<u8>),
    Insert((Seq<u8>, Seq<u8>)),
    CheckNotExists(Seq<u8>),
}

impl View for Mutation {
    type V = MutationV;

    open spec fn view(&self) -> MutationV {
        match self {
            Mutation::Put(kv) => MutationV::Put((kv.0@, kv.1@)),
            Mutation::Delete(k) => MutationV::Delete(k@),
            Mutation::Lock(k) => MutationV::Lock(k@),
            Mutation::Insert(kv) => MutationV::Insert((kv.0@, kv.1@)),
            Mutation::CheckNotExists(k) => MutationV::CheckNotExists(k@),
        }
    }
}

/// The encoded key a mutation addresses.
pub open spec fn mutation_key_v(m: MutationV) -> Seq<u8> {
    match m {
        MutationV::Put(kv) => kv.0,
        MutationV::Delete(k) => k,
        MutationV::Lock(k) => k,
        MutationV::Insert(kv) => kv.0,
        MutationV::CheckNotExists(k) => k,
    }
}

impl Mutation {
    /// The key this mutation addresses.
    pub fn key(&self) -> (r: &Key)
        ensures
            r@ == mutation_key_v(self@),
    {
        match self {
            Mutation::Put(kv) => &kv.0,
            Mutation::Delete(k) => k,
            Mutation::Lock(k) => k,
            Mutation::Insert(kv) => &kv.0,
            Mutation::CheckNotExists(k) => k,
        }
    }

    /// The kind of this mutation.
    pub fn mutation_type(&self) -> (r: MutationType)
        ensures
            r == (match self@ {
                MutationV::Put(_) => MutationType::Put,
                MutationV::Delete(_) => MutationType::Delete,
                MutationV::Lock(_) => MutationType::Lock,
                MutationV::Insert(_) => MutationType::Insert,
                MutationV::CheckNotExists(_) => MutationType::Other,
            }),
    {
        match self {
            Mutation::Put(_) => MutationType::Put,
            Mutation::Delete(_) => MutationType::Delete,
            Mutation::Lock(_) => MutationType::Lock,
            Mutation::Insert(_) => MutationType::Insert,
            Mutation::CheckNotExists(_) => MutationType::Other,
        }
    }

    /// Splits the mutation into its key and, where it carries one, its
    /// value.
    pub fn into_key_value(self) -> (r: (Key, Option<Vec<u8>>))
        ensures
            r.0@ == mutation_key_v(self@),
            (match self@ {
                MutationV::Put(kv) => r.1 is Some && r.1->Some_0@ == kv.1,
                MutationV::Insert(kv) => r.1 is Some && r.1->Some_0@ == kv.1,
                _ => r.1 is None,
            }),
    {
        match self {
            Mutation::Put((key, value)) => (key, Some(value)),
            Mutation::Delete(key) => (key, None),
            Mutation::Lock(key) => (key, None),
            Mutation::Insert((key, value)) => (key, Some(value)),
            Mutation::CheckNotExists(key) => (key, None),
        }
    }

    /// Whether the mutation asserts that its key must not yet exist.
    pub fn should_not_exists(&self) -> (r: bool)
        ensures
            r == (self@ is Insert || self@ is CheckNotExists),
    {
        match self {
            Mutation::Insert(_) => true,
            Mutation::CheckNotExists(_) => true,
            _ => false,
        }
    }

    /// Whether the mutation writes nothing.
    pub fn should_not_write(&self) -> (r: bool)
        ensures
            r == (self@ is CheckNotExists),
    {
        match self {
            Mutation::CheckNotExists(_) => true,
            _ => false,
        }
    }
}

/// The value a key held before the current transaction.
#[derive(Debug)]
pub struct OldValue {
    pub short_value: Option<Vec<u8>>,
    pub start_ts: TimeStamp,
}

/// The mathematical image of an old value.
pub struct OldValueM {
    pub short_value: Option<Seq<u8>>,
    pub start_ts: u64,
}

impl View for OldValue {
    type V = OldValueM;

    open spec fn view(&self) -> OldValueM {
        OldValueM {
            short_value: match &self.short_value {
                Some(v) => Some(v@),
                None => None,
            },
            start_ts: self.start_ts.0,
        }
    }
}

impl Default for OldValue {
    /// No previous value, at timestamp zero.
    fn default() -> (r: Self)
        ensures
            r@ == (OldValueM { short_value: None, start_ts: 0 }),
    {
        OldValue { short_value: None, start_ts: TimeStamp(0) }
    }
}

/// One recorded old value: the encoded key it belongs to, the value (if
/// any was captured), and the kind of the current mutation.
pub struct OldValueEntry {
    pub key: Key,
    pub value: Option<OldValue>,
    pub mutation_type: MutationType,
}

/// The mathematical image of a recorded old value.
pub struct OldValueEntryM {
    pub key: Seq<u8>,
    pub value: Option<OldValueM>,
    pub mutation_type: MutationType,
}

impl View for OldValueEntry {
    type V = OldValueEntryM;

    open spec fn view(&self) -> OldValueEntryM {
        OldValueEntryM {
            key: self.key@,
            value: match &self.value {
                Some(v) => Some(v@),
                None => None,
            },
            mutation_type: self.mutation_type,
        }
    }
}

/// First index of an entry recorded under `k`, or -1.
pub open spec fn ov_index_of(s: Seq<OldValueEntryM>, k: Seq<u8>) -> int
    decreases s.len(),
{
    if s.len() == 0 {
        -1
    } else if s[0].key == k {
        0
    } else {
        let r = ov_index_of(s.drop_first(), k);
        if r < 0 {
            -1
        } else {
            r + 1
        }
    }
}

/// Old values recorded under one entry per key: a later record for the
/// same key replaces the earlier one.
pub open spec fn ov_upsert(s: Seq<OldValueEntryM>, e: OldValueEntryM) -> Seq<OldValueEntryM> {
    let i = ov_index_of(s, e.key);
    if i >= 0 {
        s.update(i, e)
    } else {
        s.push(e)
    }
}

/// Extra data captured while applying a transaction: the old values of
/// the keys it touches, one entry per key.
#[derive(Default)]
pub struct TxnExtra {
    old_values: Vec<OldValueEntry>,
}

impl View for TxnExtra {
    type V = Seq<OldValueEntryM>;

    closed spec fn view(&self) -> Seq<OldValueEntryM> {
        Seq::new(self.old_values@.len(), |i: int| self.old_values@[i]@)
    }
}

/// A found key lies in range and names an entry with that key.
proof fn lemma_ov_index_props(s: Seq<OldValueEntryM>, k: Seq<u8>)
    ensures
        ov_index_of(s, k) >= 0 ==> ov_index_of(s, k) < s.len() && s[ov_index_of(s, k)].key == k,
    decreases s.len(),
{
    if s.len() > 0 && s[0].key != k {
        lemma_ov_index_props(s.drop_first(), k);
    }
}

/// The first match determines `ov_index_of`.
proof fn lemma_ov_index_at(s: Seq<OldValueEntryM>, k: Seq<u8>, i: int)
    requires
        0 <= i < s.len(),
        s[i].key == k,
        forall|j: int| 0 <= j < i ==> s[j].key != k,
    ensures
        ov_index_of(s, k) == i,
    decreases i,
{
    if i > 0 {
        lemma_ov_index_at(s.drop_first(), k, i - 1);
    }
}

/// An absent key is not found.
proof fn lemma_ov_index_absent(s: Seq<OldValueEntryM>, k: Seq<u8>)
    requires
        forall|j: int| 0 <= j < s.len() ==> s[j].key != k,
    ensures
        ov_index_of(s, k) < 0,
    decreases s.len(),
{
    if s.len() > 0 {
        lemma_ov_index_absent(s.drop_first(), k);
    }
}

impl TxnExtra {
    /// An empty side table.
    pub fn new() -> (r: TxnExtra)
        ensures
            r@ =~= Seq::<OldValueEntryM>::empty(),
    {
        TxnExtra { old_values: Vec::new() }
    }

    /// Records the old value of one key, replacing an earlier record for
    /// the same key.
    pub fn add_old_value(&mut self, key: Key, value: Option<OldValue>, mutation_type: MutationType)
        ensures
            final(self)@ == ov_upsert(
                old(self)@,
                OldValueEntryM {
                    key: key@,
                    value: match value {
                        Some(v) => Some(v@),
                        None => None,
                    },
                    mutation_type,
                },
            ),
    {
        let n = self.old_values.len();
        let mut i: usize = 0;
        #[verifier::loop_isolation(false)]
        while i < n
            invariant
                i <= n,
                n == self@.len(),
                self == old(self),
                forall|j: int| 0 <= j < i ==> (#[trigger] self@[j]).key != key@,
            decreases n - i,
        {
            if crate::codec::bytes_eq(
                self.old_values[i].key.as_encoded().as_slice(),
                key.as_encoded().as_slice(),
            ) {
                proof {
                    lemma_ov_index_at(self@, key@, i as int);
                }
                let e = OldValueEntry { key, value, mutation_type };
                let slot = vstd::std_specs::vec::vec_index_mut(&mut self.old_values, i);
                *slot = e;
                proof {
                    assert(self@ =~= old(self)@.update(i as int, (OldValueEntryM {
                        key: old(self)@[i as int].key,
                        value: self@[i as int].value,
                        mutation_type,
                    })));
                    assert(self@ =~~= ov_upsert(
                        old(self)@,
                        OldValueEntryM {
                            key: self@[i as int].key,
                            value: self@[i as int].value,
                            mutation_type,
                        },
                    ));
                }
                return ;
            }
            i += 1;
        }
        proof {
            lemma_ov_index_absent(self@, key@);
        }
        self.old_values.push(OldValueEntry { key, value, mutation_type });
        proof {
            assert(self@ =~~= old(self)@.push(self@.last()));
        }
    }

    /// Whether nothing has been recorded.
    pub fn is_empty(&mut self) -> (r: bool)
        ensures
            final(self)@ == old(self)@,
            r == (old(self)@.len() == 0),
    {
        self.old_values.is_empty()
    }

    /// Moves every record of `other` into this table, overwriting
    /// records for the same keys; `other` is left empty.
    pub fn extend(&mut self, other: &mut TxnExtra)
        ensures
            final(other)@ =~= Seq::<OldValueEntryM>::empty(),
            final(self)@ == extend_ovs(old(self)@, old(other)@),
    {
        let mut taken: Vec<OldValueEntry> = Vec::new();
        core::mem::swap(&mut other.old_values, &mut taken);
        proof {
            assert(Seq::new(taken@.len(), |i: int| taken@[i]@) =~= old(other)@);
            assert(other@ =~= Seq::<OldValueEntryM>::empty());
        }
        #[verifier::loop_isolation(false)]
        while taken.len() > 0
            invariant
                extend_ovs(old(self)@, old(other)@) == extend_ovs(
                    self@,
                    Seq::new(taken@.len(), |i: int| taken@[i]@),
                ),
                other@ == Seq::<OldValueEntryM>::empty(),
            decreases taken@.len(),
        {
            let ghost rem0 = Seq::new(taken@.len(), |i: int| taken@[i]@);
            let e = taken.remove(0);
            proof {
                assert(e@ == rem0[0]);
                assert(Seq::new(taken@.len(), |i: int| taken@[i]@) =~= rem0.drop_first());
            }
            self.add_old_value(e.key, e.value, e.mutation_type);
        }
        proof {
            assert(Seq::new(taken@.len(), |i: int| taken@[i]@)
                =~= Seq::<OldValueEntryM>::empty());
        }
    }

    /// Mutable access to the recorded entries.
    pub fn mut_old_values(&mut self) -> (r: &mut Vec<OldValueEntry>)
        ensures
            Seq::new(r@.len(), |i: int| r@[i]@) == old(self)@,
            final(self)@ == Seq::new(final(r)@.len(), |i: int| final(r)@[i]@),
    {
        &mut self.old_values
    }

    /// The recorded entries.
    pub fn get_old_values(&self) -> (r: &Vec<OldValueEntry>)
        ensures
            Seq::new(r@.len(), |i: int| r@[i]@) == self@,
    {
        &self.old_values
    }
}

/// A side table extended record by record, in order.
pub open spec fn extend_ovs(a: Seq<OldValueEntryM>, b: Seq<OldValueEntryM>) -> Seq<
    OldValueEntryM,
>
    decreases b.len(),
{
    if b.len() == 0 {
        a
    } else {
        extend_ovs(ov_upsert(a, b[0]), b.drop_first())
    }
}

/// A key range with a time-to-live, as configuration delivers it.
#[derive(Debug)]
pub struct RangeTTL {
    pub start_key: Key,
    pub end_key: Key,
    pub ttl: u64,
}

/// The mathematical image of a TTL range.
pub struct RangeTTLM {
    pub start_key: Seq<u8>,
    pub end_key: Seq<u8>,
    pub ttl: u64,
}

impl View for RangeTTL {
    type V = RangeTTLM;

    open spec fn view(&self) -> RangeTTLM {
        RangeTTLM { start_key: self.start_key@, end_key: self.end_key@, ttl: self.ttl }
    }
}

/// The JSON rendering of a TTL range: its keys in uppercase hex and its
/// time-to-live in milliseconds.
pub open spec fn range_ttl_json_v(r: RangeTTLM) -> Seq<char> {
    "{\"start_key\": \""@ + hex_upper_of(r.start_key) + "\", \"end_key\":\""@ + hex_upper_of(
        r.end_key,
    ) + "\", \"ttl\":"@ + dec_str_of(r.ttl) + "}"@
}

impl RangeTTL {
    /// A TTL range over raw keys.
    pub fn new(start_key: &[u8], end_key: &[u8], ttl: u64) -> (r: RangeTTL)
        ensures
            r@.start_key == enc_bytes(start_key@),
            r@.end_key == enc_bytes(end_key@),
            r@.ttl == ttl,
    {
        RangeTTL { start_key: Key::from_raw(start_key), end_key: Key::from_raw(end_key), ttl }
    }

    /// A TTL range from wire configuration, whose time-to-live comes in
    /// minutes.
    pub fn from_minutes(start_key: &[u8], end_key: &[u8], ttl_minutes: u64) -> (r: RangeTTL)
        requires
            ttl_minutes <= u64::MAX / 60000,
        ensures
            r@.start_key == enc_bytes(start_key@),
            r@.end_key == enc_bytes(end_key@),
            r@.ttl == ttl_minutes * 60000,
    {
        RangeTTL::new(start_key, end_key, ttl_minutes * 60000)
    }

    /// Renders the range as a JSON object.
    pub fn json_string(&self) -> (r: String)
        ensures
            r@ == range_ttl_json_v(self@),
    {
        let mut s = String::from_str("{\"start_key\": \"");
        s.append(hex_upper(self.start_key.as_encoded().as_slice()).as_str());
        s.append("\", \"end_key\":\"");
        s.append(hex_upper(self.end_key.as_encoded().as_slice()).as_str());
        s.append("\", \"ttl\":");
        s.append(u64_to_dec(self.ttl).as_str());
        s.append("}");
        s
    }
}

/// A key range with the absolute timestamp at which it expires.
#[derive(Debug)]
pub struct RangeExpiry {
    pub start_key: Key,
    pub end_key: Key,
    pub expiry: TimeStamp,
}

/// The physical expiry instant a TTL range resolves to: the
/// time-to-live counted back from now (or from the safe point while no
/// clock reading is available), capped at the safe point.
pub open spec fn expiry_physical_v(ttl: u64, safe_point_phys: u64, now_phys: u64) -> int {
    let base: int = if now_phys == 0 {
        safe_point_phys - ttl
    } else {
        now_phys - ttl
    };
    if base > safe_point_phys {
        safe_point_phys as int
    } else {
        base
    }
}

impl RangeExpiry {
    /// Resolves a TTL range against a safe point and the current time.
    ///
    /// The time-to-live must not reach behind the clock reading it is
    /// counted back from.
    pub fn new(ttl: &RangeTTL, safe_point: TimeStamp, now: TimeStamp) -> (r: RangeExpiry)
        requires
            ttl@.ttl <= (if now.0 >> 18 == 0 {
                safe_point.0 >> 18
            } else {
                now.0 >> 18
            }),
        ensures
            r.start_key@ == ttl@.start_key,
            r.end_key@ == ttl@.end_key,
            r.expiry.0 >> 18 == expiry_physical_v(ttl@.ttl, safe_point.0 >> 18, now.0 >> 18),
            r.expiry.0 & 0x3FFFF == 0,
    {
        let safe_point_phys = safe_point.physical();
        let now_phys = now.physical();
        let expiry = if now_phys == 0 {
            safe_point_phys - ttl.ttl
        } else {
            now_phys - ttl.ttl
        };
        let expiry = if expiry > safe_point_phys {
            safe_point_phys
        } else {
            expiry
        };
        proof {
            let sp = safe_point.0;
            let nw = now.0;
            assert(sp >> 18u64 <= u64::MAX >> 18u64) by (bit_vector);
            assert(nw >> 18u64 <= u64::MAX >> 18u64) by (bit_vector);
            assert(0u64 < (1u64 << 18u64)) by (bit_vector);
        }
        let r = RangeExpiry {
            start_key: ttl.start_key.duplicate(),
            end_key: ttl.end_key.duplicate(),
            expiry: TimeStamp::compose(expiry, 0),
        };
        proof {
            let e = expiry;
            assert(e <= u64::MAX >> 18 ==> ((e << 18u64) | 0u64) >> 18u64 == e) by (bit_vector);
            assert(e <= u64::MAX >> 18 ==> ((e << 18u64) | 0u64) & 0x3FFFFu64 == 0) by (bit_vector);
        }
        r
    }
}

/// The registry of TTL ranges, replaced wholesale by configuration
/// updates and resolved on demand.
#[derive(Debug)]
pub struct RangeTTLRegistry {
    ttl: Vec<RangeTTL>,
}

/// The JSON rendering of a list of TTL ranges, comma-separated.
pub open spec fn ttl_list_json_v(rs: Seq<RangeTTLM>) -> Seq<char>
    decreases rs.len(),
{
    if rs.len() == 0 {
        Seq::empty()
    } else if rs.len() == 1 {
        range_ttl_json_v(rs[0])
    } else {
        ttl_list_json_v(rs.drop_last()) + ","@ + range_ttl_json_v(rs.last())
    }
}

impl View for RangeTTLRegistry {
    type V = Seq<RangeTTLM>;

    closed spec fn view(&self) -> Seq<RangeTTLM> {
        Seq::new(self.ttl@.len(), |i: int| self.ttl@[i]@)
    }
}

impl RangeTTLRegistry {
    /// An empty registry.
    pub fn new() -> (r: RangeTTLRegistry)
        ensures
            r@ =~= Seq::<RangeTTLM>::empty(),
    {
        RangeTTLRegistry { ttl: Vec::new() }
    }

    /// Replaces the registered ranges.
    pub fn update(&mut self, ranges: Vec<RangeTTL>)
        ensures
            final(self)@ == Seq::new(ranges@.len(), |i: int| ranges@[i]@),
    {
        self.ttl = ranges;
    }

    /// The registered ranges.
    pub fn get_ttl(&self) -> (r: &Vec<RangeTTL>)
        ensures
            Seq::new(r@.len(), |i: int| r@[i]@) == self@,
    {
        &self.ttl
    }

    /// Resolves every registered range against a safe point and the
    /// current time.
    pub fn get(&self, safe_point: TimeStamp, now: TimeStamp) -> (r: Vec<RangeExpiry>)
        requires
            forall|i: int|
                0 <= i < self@.len() ==> (#[trigger] self@[i]).ttl <= (if now.0 >> 18 == 0 {
                    safe_point.0 >> 18
                } else {
                    now.0 >> 18
                }),
        ensures
            r@.len() == self@.len(),
            forall|i: int|
                0 <= i < r@.len() ==> {
                    &&& (#[trigger] r@[i]).start_key@ == self@[i].start_key
                    &&& r@[i].end_key@ == self@[i].end_key
                    &&& r@[i].expiry.0 >> 18 == expiry_physical_v(
                        self@[i].ttl,
                        safe_point.0 >> 18,
                        now.0 >> 18,
                    )
                },
    {
        let n = self.ttl.len();
        let mut out: Vec<RangeExpiry> = Vec::new();
        let mut i: usize = 0;
        #[verifier::loop_isolation(false)]
        while i < n
            invariant
                i <= n,
                out@.len() == i,
                forall|j: int|
                    0 <= j < i ==> {
                        &&& (#[trigger] out@[j]).start_key@ == self@[j].start_key
                        &&& out@[j].end_key@ == self@[j].end_key
                        &&& out@[j].expiry.0 >> 18 == expiry_physical_v(
                            self@[j].ttl,
                            safe_point.0 >> 18,
                            now.0 >> 18,
                        )
                    },
            decreases n - i,
        {
            proof {
                assert(self@[i as int].ttl == self.ttl@[i as int]@.ttl);
            }
            out.push(RangeExpiry::new(&self.ttl[i], safe_point, now));
            i += 1;
        }
        out
    }

    /// Renders the registered ranges as a JSON array.
    pub fn json_string(&self) -> (r: String)
        ensures
            r@ == "["@ + ttl_list_json_v(self@) + "]"@,
    {
        let n = self.ttl.len();
        let mut body = String::new();
        let mut i: usize = 0;
        #[verifier::loop_isolation(false)]
        while i < n
            invariant
                i <= n,
                body@ == ttl_list_json_v(self@.take(i as int)),
            decreases n - i,
        {
            if i > 0 {
                body.append(",");
            }
            body.append(self.ttl[i].json_string().as_str());
            proof {
                assert(self@.take(i + 1).drop_last() =~= self@.take(i as int));
                assert(self@.take(i + 1).last() == self@[i as int]);
                if i == 0 {
                    assert(Seq::<char>::empty() + range_ttl_json_v(self@[0]) =~= range_ttl_json_v(
                        self@[0],
                    ));
                    assert(body@ =~= ttl_list_json_v(self@.take(1)));
                }
            }
            i += 1;
        }
        proof {
            assert(self@.take(n as int) =~= self@);
        }
        let mut s = String::from_str("[");
        s.append(body.as_str());
        s.append("]");
        s
    }
}

} // verus!
