//! The registry of key ranges quarantined for delayed deletion: an
//! ordered interval map keyed by start key whose entries never overlap.

use vstd::prelude::*;

use crate::codec::bytes_eq;

verus! {

/// Lexicographic (memcmp) order on byte strings.
pub open spec fn bytes_lt(a: Seq<u8>, b: Seq<u8>) -> bool
    decreases a.len(),
{
    if b.len() == 0 {
        false
    } else if a.len() == 0 {
        true
    } else if a[0] < b[0] {
        true
    } else if a[0] > b[0] {
        false
    } else {
        bytes_lt(a.drop_first(), b.drop_first())
    }
}

/// Non-strict lexicographic order.
pub open spec fn bytes_le(a: Seq<u8>, b: Seq<u8>) -> bool {
    bytes_lt(a, b) || a == b
}

/// The order is total: two byte strings compare one way, the other, or
/// are equal.
pub proof fn lemma_bytes_lt_total(a: Seq<u8>, b: Seq<u8>)
    ensures
        bytes_lt(a, b) || bytes_lt(b, a) || a == b,
    decreases a.len(),
{
    if a.len() > 0 && b.len() > 0 && a[0] == b[0] {
        lemma_bytes_lt_total(a.drop_first(), b.drop_first());
        if a.drop_first() == b.drop_first() {
            assert forall|i: int| 0 <= i < a.len() implies a[i] == b[i] by {
                if i > 0 {
                    assert(a.drop_first()[i - 1] == b.drop_first()[i - 1]);
                }
            }
            assert(a =~= b);
        }
    } else if a.len() == 0 && b.len() == 0 {
        assert(a =~= b);
    }
}

/// The order is strict: no byte string is below itself or below one
/// that is below it.
pub proof fn lemma_bytes_lt_asym(a: Seq<u8>, b: Seq<u8>)
    ensures
        bytes_lt(a, b) ==> !bytes_lt(b, a) && a != b,
    decreases a.len(),
{
    if a.len() > 0 && b.len() > 0 && a[0] == b[0] {
        lemma_bytes_lt_asym(a.drop_first(), b.drop_first());
        if a.drop_first() != b.drop_first() {
            assert(a != b) by {
                if a == b {
                    assert(a.drop_first() =~= b.drop_first());
                }
            }
        } else {
            if a == b {
            } else {
                assert forall|i: int| 0 <= i < a.len() implies a[i] == b[i] by {
                    if i > 0 {
                        assert(a.drop_first()[i - 1] == b.drop_first()[i - 1]);
                    }
                }
                assert(a =~= b);
            }
        }
    }
}

/// The order is transitive.
pub proof fn lemma_bytes_lt_trans(a: Seq<u8>, b: Seq<u8>, c: Seq<u8>)
    ensures
        bytes_lt(a, b) && bytes_lt(b, c) ==> bytes_lt(a, c),
    decreases a.len(),
{
    if bytes_lt(a, b) && bytes_lt(b, c) {
        if a.len() > 0 && b.len() > 0 && c.len() > 0 {
            if a[0] == b[0] && b[0] == c[0] {
                lemma_bytes_lt_trans(a.drop_first(), b.drop_first(), c.drop_first());
            }
        }
    }
}

/// Compares two byte strings in memcmp order.
pub fn bytes_lt_exec(a: &[u8], b: &[u8]) -> (r: bool)
    ensures
        r == bytes_lt(a@, b@),
    decreases a@.len(),
{
    if b.len() == 0 {
        false
    } else if a.len() == 0 {
        true
    } else if a[0] < b[0] {
        true
    } else if a[0] > b[0] {
        false
    } else {
        let ra = &a[1..a.len()];
        let rb = &b[1..b.len()];
        proof {
            assert(ra@ =~= a@.drop_first());
            assert(rb@ =~= b@.drop_first());
        }
        bytes_lt_exec(ra, rb)
    }
}

/// A range registered for delayed deletion.
pub struct PendingRange {
    pub start_key: Vec<u8>,
    pub region_id: u64,
    pub end_key: Vec<u8>,
    /// The instant, in the caller's clock, at which the range falls due.
    pub timeout: u64,
}

/// The mathematical image of a registered range.
pub struct RangeV {
    pub start_key: Seq<u8>,
    pub region_id: u64,
    pub end_key: Seq<u8>,
    pub timeout: u64,
}

impl View for PendingRange {
    type V = RangeV;

    open spec fn view(&self) -> RangeV {
        RangeV {
            start_key: self.start_key@,
            region_id: self.region_id,
            end_key: self.end_key@,
            timeout: self.timeout,
        }
    }
}

/// Whether a registered range intersects `[s, e)`.
pub open spec fn overlaps_v(r: RangeV, s: Seq<u8>, e: Seq<u8>) -> bool {
    bytes_lt(r.start_key, e) && bytes_lt(s, r.end_key)
}

/// The registered ranges intersecting `[s, e)`, in key order.
pub open spec fn overlap_filter(rs: Seq<RangeV>, s: Seq<u8>, e: Seq<u8>) -> Seq<RangeV>
    decreases rs.len(),
{
    if rs.len() == 0 {
        rs
    } else {
        (if overlaps_v(rs[0], s, e) {
            seq![rs[0]]
        } else {
            Seq::empty()
        }) + overlap_filter(rs.drop_first(), s, e)
    }
}

/// The registered ranges not intersecting `[s, e)`, in key order.
pub open spec fn keep_filter(rs: Seq<RangeV>, s: Seq<u8>, e: Seq<u8>) -> Seq<RangeV>
    decreases rs.len(),
{
    if rs.len() == 0 {
        rs
    } else {
        (if overlaps_v(rs[0], s, e) {
            Seq::empty()
        } else {
            seq![rs[0]]
        }) + keep_filter(rs.drop_first(), s, e)
    }
}

/// The registered ranges due at `now`, in key order.
pub open spec fn due_filter(rs: Seq<RangeV>, now: u64) -> Seq<RangeV>
    decreases rs.len(),
{
    if rs.len() == 0 {
        rs
    } else {
        (if rs[0].timeout <= now {
            seq![rs[0]]
        } else {
            Seq::empty()
        }) + due_filter(rs.drop_first(), now)
    }
}

/// The `(region_id, start_key, end_key)` triples of a range list.
pub open spec fn triples_of(rs: Seq<RangeV>) -> Seq<(u64, Seq<u8>, Seq<u8>)> {
    Seq::new(rs.len(), |i: int| (rs[i].region_id, rs[i].start_key, rs[i].end_key))
}

/// Well-formedness of the registry: every range is non-empty and ranges
/// are sorted and pairwise disjoint, each ending no later than the next
/// begins.
pub open spec fn ranges_wf(rs: Seq<RangeV>) -> bool {
    &&& forall|i: int| 0 <= i < rs.len() ==> bytes_lt(#[trigger] rs[i].start_key, rs[i].end_key)
    &&& forall|i: int, j: int|
        0 <= i < j < rs.len() ==> bytes_le((#[trigger] rs[i]).end_key, (#[trigger] rs[j]).start_key)
}

/// Well-formed registries contain no two overlapping ranges: any two
/// distinct entries cover disjoint parts of the key space.
pub proof fn lemma_wf_no_overlap(rs: Seq<RangeV>)
    requires
        ranges_wf(rs),
    ensures
        forall|i: int, j: int|
            0 <= i < rs.len() && 0 <= j < rs.len() && i != j ==> !(bytes_lt(
                (#[trigger] rs[i]).start_key,
                (#[trigger] rs[j]).end_key,
            ) && bytes_lt(rs[j].start_key, rs[i].end_key)),
{
    assert forall|i: int, j: int|
        0 <= i < rs.len() && 0 <= j < rs.len() && i != j implies !(bytes_lt(
        (#[trigger] rs[i]).start_key,
        (#[trigger] rs[j]).end_key,
    ) && bytes_lt(rs[j].start_key, rs[i].end_key)) by {
        if i < j {
            lemma_bytes_lt_asym(rs[j].start_key, rs[i].end_key);
            if rs[i].end_key == rs[j].start_key {
            } else {
                lemma_bytes_lt_trans(rs[j].start_key, rs[i].end_key, rs[j].start_key);
            }
        } else {
            lemma_bytes_lt_asym(rs[i].start_key, rs[j].end_key);
            if rs[j].end_key == rs[i].start_key {
            } else {
                lemma_bytes_lt_trans(rs[i].start_key, rs[j].end_key, rs[i].start_key);
            }
        }
    }
}

/// Every entry the keep filter retains is an entry of the original list.
proof fn lemma_keep_filter_membership(rs: Seq<RangeV>, s: Seq<u8>, e: Seq<u8>)
    ensures
        forall|k: int|
            0 <= k < keep_filter(rs, s, e).len() ==> exists|j: int|
                0 <= j < rs.len() && rs[j] == #[trigger] keep_filter(rs, s, e)[k],
    decreases rs.len(),
{
    if rs.len() > 0 {
        lemma_keep_filter_membership(rs.drop_first(), s, e);
        assert forall|k: int| 0 <= k < keep_filter(rs, s, e).len() implies exists|j: int|
            0 <= j < rs.len() && rs[j] == #[trigger] keep_filter(rs, s, e)[k] by {
            let kf = keep_filter(rs, s, e);
            let rest = keep_filter(rs.drop_first(), s, e);
            if overlaps_v(rs[0], s, e) {
                assert(kf[k] == rest[k]);
                let j0 = choose|j0: int|
                    0 <= j0 < rs.drop_first().len() && rs.drop_first()[j0] == rest[k];
                assert(rs[j0 + 1] == kf[k]);
            } else {
                if k == 0 {
                    assert(rs[0] == kf[0]);
                } else {
                    assert(kf[k] == rest[k - 1]);
                    let j0 = choose|j0: int|
                        0 <= j0 < rs.drop_first().len() && rs.drop_first()[j0] == rest[k - 1];
                    assert(rs[j0 + 1] == kf[k]);
                }
            }
        }
    }
}

/// The keep filter of a well-formed registry is well formed.
proof fn lemma_keep_filter_wf(rs: Seq<RangeV>, s: Seq<u8>, e: Seq<u8>)
    requires
        ranges_wf(rs),
    ensures
        ranges_wf(keep_filter(rs, s, e)),
    decreases rs.len(),
{
    if rs.len() > 0 {
        assert forall|i: int| 0 <= i < rs.drop_first().len() implies bytes_lt(
            (#[trigger] rs.drop_first()[i]).start_key,
            rs.drop_first()[i].end_key,
        ) && true by {
            assert(rs.drop_first()[i] == rs[i + 1]);
        }
        assert forall|i: int, j: int| 0 <= i < j < rs.drop_first().len() implies bytes_le(
            (#[trigger] rs.drop_first()[i]).end_key,
            (#[trigger] rs.drop_first()[j]).start_key,
        ) by {
            assert(rs.drop_first()[i] == rs[i + 1]);
            assert(rs.drop_first()[j] == rs[j + 1]);
        }
        lemma_keep_filter_wf(rs.drop_first(), s, e);
        lemma_keep_filter_membership(rs.drop_first(), s, e);
        let kf = keep_filter(rs, s, e);
        let rest = keep_filter(rs.drop_first(), s, e);
        if overlaps_v(rs[0], s, e) {
            assert(kf =~= rest);
        } else {
            assert(kf[0] == rs[0]);
            assert forall|k: int| 1 <= k < kf.len() implies kf[k] == rest[k - 1] by {}
            assert forall|i: int, j: int| 0 <= i < j < kf.len() implies bytes_le(
                (#[trigger] kf[i]).end_key,
                (#[trigger] kf[j]).start_key,
            ) by {
                if i == 0 {
                    let j0 = choose|j0: int|
                        0 <= j0 < rs.drop_first().len() && rs.drop_first()[j0] == rest[j - 1];
                    assert(rs[j0 + 1] == kf[j]);
                    assert(bytes_le(rs[0].end_key, rs[j0 + 1].start_key));
                }
            }
            assert forall|i: int| 0 <= i < kf.len() implies bytes_lt(
                (#[trigger] kf[i]).start_key,
                kf[i].end_key,
            ) by {
                if i > 0 {
                    assert(kf[i] == rest[i - 1]);
                }
            }
        }
    }
}

/// A registry of key ranges to be deleted after a delay, because
/// coprocessor readers may still use them. Entries never overlap.
pub struct PendingDeleteRanges {
    ranges: Vec<PendingRange>,
}

impl View for PendingDeleteRanges {
    type V = Seq<RangeV>;

    closed spec fn view(&self) -> Seq<RangeV> {
        Seq::new(self.ranges@.len(), |i: int| self.ranges@[i]@)
    }
}

impl PendingDeleteRanges {
    /// An empty registry.
    pub fn new() -> (r: PendingDeleteRanges)
        ensures
            r@ =~= Seq::<RangeV>::empty(),
            ranges_wf(r@),
    {
        PendingDeleteRanges { ranges: Vec::new() }
    }

    /// The number of registered ranges.
    pub fn len(&self) -> (r: usize)
        ensures
            r == self@.len(),
    {
        self.ranges.len()
    }

    /// The ranges that overlap `[start_key, end_key)`, in key order.
    pub fn find_overlap_ranges(&self, start_key: &[u8], end_key: &[u8]) -> (r: Vec<
        (u64, Vec<u8>, Vec<u8>),
    >)
        ensures
            Seq::new(r@.len(), |i: int| (r@[i].0, r@[i].1@, r@[i].2@)) == triples_of(
                overlap_filter(self@, start_key@, end_key@),
            ),
    {
        let n = self.ranges.len();
        let mut out: Vec<(u64, Vec<u8>, Vec<u8>)> = Vec::new();
        let mut i: usize = 0;
        proof {
            assert(self@.skip(0) =~= self@);
            assert(Seq::new(out@.len(), |k: int| (out@[k].0, out@[k].1@, out@[k].2@))
                + triples_of(overlap_filter(self@, start_key@, end_key@)) =~= triples_of(
                overlap_filter(self@, start_key@, end_key@),
            ));
        }
        #[verifier::loop_isolation(false)]
        while i < n
            invariant
                i <= n,
                triples_of(overlap_filter(self@, start_key@, end_key@)) == Seq::new(
                    out@.len(),
                    |k: int| (out@[k].0, out@[k].1@, out@[k].2@),
                ) + triples_of(overlap_filter(self@.skip(i as int), start_key@, end_key@)),
            decreases n - i,
        {
            let ghost rem0 = self@.skip(i as int);
            let ghost out0 = Seq::new(out@.len(), |k: int| (out@[k].0, out@[k].1@, out@[k].2@));
            let rg = &self.ranges[i];
            proof {
                assert(rem0[0] == self@[i as int]);
                assert(rem0.drop_first() =~= self@.skip(i + 1));
            }
            if bytes_lt_exec(rg.start_key.as_slice(), end_key) && bytes_lt_exec(
                start_key,
                rg.end_key.as_slice(),
            ) {
                let t = (rg.region_id, crate::delegate::clone_bytes(&rg.start_key),
                crate::delegate::clone_bytes(&rg.end_key));
                out.push(t);
                proof {
                    assert(Seq::new(out@.len(), |k: int| (out@[k].0, out@[k].1@, out@[k].2@))
                        =~= out0.push(
                        (self@[i as int].region_id, self@[i as int].start_key, self@[
                            i as int].end_key),
                    ));
                    assert(triples_of(overlap_filter(rem0, start_key@, end_key@)) =~= seq![
                        (self@[i as int].region_id, self@[i as int].start_key, self@[
                            i as int].end_key),
                    ] + triples_of(overlap_filter(rem0.drop_first(), start_key@, end_key@)));
                    assert(out0.push(
                        (self@[i as int].region_id, self@[i as int].start_key, self@[
                            i as int].end_key),
                    ) + triples_of(overlap_filter(self@.skip(i + 1), start_key@, end_key@))
                        =~= out0 + triples_of(overlap_filter(rem0, start_key@, end_key@)));
                }
            } else {
                proof {
                    assert(triples_of(overlap_filter(rem0, start_key@, end_key@))
                        =~= triples_of(
                        overlap_filter(rem0.drop_first(), start_key@, end_key@),
                    ));
                }
            }
            i += 1;
        }
        proof {
            assert(self@.skip(n as int) =~= Seq::<RangeV>::empty());
            assert(Seq::new(out@.len(), |k: int| (out@[k].0, out@[k].1@, out@[k].2@))
                =~= triples_of(overlap_filter(self@, start_key@, end_key@)));
        }
        out
    }

    /// Removes and returns the ranges that overlap `[start_key,
    /// end_key)`, in key order; the rest stay registered.
    pub fn drain_overlap_ranges(&mut self, start_key: &[u8], end_key: &[u8]) -> (r: Vec<
        (u64, Vec<u8>, Vec<u8>),
    >)
        requires
            ranges_wf(old(self)@),
        ensures
            ranges_wf(final(self)@),
            Seq::new(r@.len(), |i: int| (r@[i].0, r@[i].1@, r@[i].2@)) == triples_of(
                overlap_filter(old(self)@, start_key@, end_key@),
            ),
            final(self)@ == keep_filter(old(self)@, start_key@, end_key@),
    {
        let ghost all = self@;
        let mut taken: Vec<PendingRange> = Vec::new();
        core::mem::swap(&mut self.ranges, &mut taken);
        let mut removed: Vec<(u64, Vec<u8>, Vec<u8>)> = Vec::new();
        let mut kept: Vec<PendingRange> = Vec::new();
        proof {
            assert(Seq::new(taken@.len(), |i: int| taken@[i]@) =~= all);
            assert(Seq::new(kept@.len(), |i: int| kept@[i]@) + keep_filter(
                all,
                start_key@,
                end_key@,
            ) =~= keep_filter(all, start_key@, end_key@));
            assert(Seq::new(removed@.len(), |k: int| (removed@[k].0, removed@[k].1@, removed@[
                k].2@,
            )) + triples_of(overlap_filter(all, start_key@, end_key@)) =~= triples_of(
                overlap_filter(all, start_key@, end_key@),
            ));
        }
        #[verifier::loop_isolation(false)]
        while taken.len() > 0
            invariant
                keep_filter(all, start_key@, end_key@) == Seq::new(
                    kept@.len(),
                    |i: int| kept@[i]@,
                ) + keep_filter(
                    Seq::new(taken@.len(), |i: int| taken@[i]@),
                    start_key@,
                    end_key@,
                ),
                triples_of(overlap_filter(all, start_key@, end_key@)) == Seq::new(
                    removed@.len(),
                    |k: int| (removed@[k].0, removed@[k].1@, removed@[k].2@),
                ) + triples_of(
                    overlap_filter(
                        Seq::new(taken@.len(), |i: int| taken@[i]@),
                        start_key@,
                        end_key@,
                    ),
                ),
            decreases taken@.len(),
        {
            let ghost rem0 = Seq::new(taken@.len(), |i: int| taken@[i]@);
            let ghost kept0 = Seq::new(kept@.len(), |i: int| kept@[i]@);
            let ghost removed0 = Seq::new(
                removed@.len(),
                |k: int| (removed@[k].0, removed@[k].1@, removed@[k].2@),
            );
            let rg = taken.remove(0);
            proof {
                assert(rg@ == rem0[0]);
                assert(Seq::new(taken@.len(), |i: int| taken@[i]@) =~= rem0.drop_first());
            }
            if bytes_lt_exec(rg.start_key.as_slice(), end_key) && bytes_lt_exec(
                start_key,
                rg.end_key.as_slice(),
            ) {
                let t = (rg.region_id, rg.start_key, rg.end_key);
                removed.push(t);
                proof {
                    assert(Seq::new(removed@.len(), |k: int| (removed@[k].0, removed@[k].1@,
                        removed@[k].2@,
                    )) =~= removed0.push(
                        (rem0[0].region_id, rem0[0].start_key, rem0[0].end_key),
                    ));
                    assert(triples_of(overlap_filter(rem0, start_key@, end_key@)) =~= seq![
                        (rem0[0].region_id, rem0[0].start_key, rem0[0].end_key),
                    ] + triples_of(overlap_filter(rem0.drop_first(), start_key@, end_key@)));
                    assert(removed0.push((rem0[0].region_id, rem0[0].start_key, rem0[0].end_key))
                        + triples_of(overlap_filter(rem0.drop_first(), start_key@, end_key@))
                        =~= removed0 + triples_of(overlap_filter(rem0, start_key@, end_key@)));
                    assert(keep_filter(rem0, start_key@, end_key@) =~= keep_filter(
                        rem0.drop_first(),
                        start_key@,
                        end_key@,
                    ));
                }
            } else {
                kept.push(rg);
                proof {
                    assert(Seq::new(kept@.len(), |i: int| kept@[i]@) =~= kept0.push(rem0[0]));
                    assert(keep_filter(rem0, start_key@, end_key@) =~= seq![rem0[0]]
                        + keep_filter(rem0.drop_first(), start_key@, end_key@));
                    assert(kept0.push(rem0[0]) + keep_filter(
                        rem0.drop_first(),
                        start_key@,
                        end_key@,
                    ) =~= kept0 + keep_filter(rem0, start_key@, end_key@));
                    assert(triples_of(overlap_filter(rem0, start_key@, end_key@))
                        =~= triples_of(
                        overlap_filter(rem0.drop_first(), start_key@, end_key@),
                    ));
                }
            }
        }
        proof {
            assert(Seq::new(taken@.len(), |i: int| taken@[i]@) =~= Seq::<RangeV>::empty());
            assert(Seq::new(kept@.len(), |i: int| kept@[i]@) =~= keep_filter(
                all,
                start_key@,
                end_key@,
            ));
        }
        self.ranges = kept;
        proof {
            lemma_keep_filter_wf(all, start_key@, end_key@);
        }
        removed
    }

    /// Removes and returns the range registered under exactly
    /// `start_key`, if any.
    pub fn remove(&mut self, start_key: &[u8]) -> (r: Option<(u64, Vec<u8>, Vec<u8>)>)
        requires
            ranges_wf(old(self)@),
        ensures
            ranges_wf(final(self)@),
            match r {
                Some(t) => exists|i: int|
                    {
                        &&& 0 <= i < old(self)@.len()
                        &&& (#[trigger] old(self)@[i]).start_key == start_key@
                        &&& t.0 == old(self)@[i].region_id
                        &&& t.1@ == start_key@
                        &&& t.2@ == old(self)@[i].end_key
                        &&& final(self)@ == old(self)@.remove(i)
                    },
                None => final(self)@ == old(self)@ && forall|i: int|
                    0 <= i < old(self)@.len() ==> (#[trigger] old(self)@[i]).start_key
                        != start_key@,
            },
    {
        let n = self.ranges.len();
        let mut i: usize = 0;
        #[verifier::loop_isolation(false)]
        while i < n
            invariant
                i <= n,
                self == old(self),
                n == self@.len(),
                forall|j: int| 0 <= j < i ==> (#[trigger] self@[j]).start_key != start_key@,
            decreases n - i,
        {
            if bytes_eq(self.ranges[i].start_key.as_slice(), start_key) {
                let rg = self.ranges.remove(i);
                proof {
                    assert(self@ =~= old(self)@.remove(i as int));
                    assert forall|a: int, b: int| 0 <= a < b < self@.len() implies bytes_le(
                        (#[trigger] self@[a]).end_key,
                        (#[trigger] self@[b]).start_key,
                    ) by {
                        let a0: int = if a < i as int {
                            a
                        } else {
                            a + 1
                        };
                        let b0: int = if b < i as int {
                            b
                        } else {
                            b + 1
                        };
                        assert(self@[a] == old(self)@[a0]);
                        assert(self@[b] == old(self)@[b0]);
                    }
                    assert forall|a: int| 0 <= a < self@.len() implies bytes_lt(
                        (#[trigger] self@[a]).start_key,
                        self@[a].end_key,
                    ) by {
                        let a0: int = if a < i as int {
                            a
                        } else {
                            a + 1
                        };
                        assert(self@[a] == old(self)@[a0]);
                    }
                }
                let mut sk: Vec<u8> = Vec::new();
                sk.extend_from_slice(start_key);
                proof {
                    assert(sk@ =~= start_key@);
                }
                let t = (rg.region_id, sk, rg.end_key);
                proof {
                    let ii = i as int;
                    assert(rg@ == old(self)@[ii]);
                    assert({
                        &&& 0 <= ii < old(self)@.len()
                        &&& old(self)@[ii].start_key == start_key@
                        &&& t.0 == old(self)@[ii].region_id
                        &&& t.1@ == start_key@
                        &&& t.2@ == old(self)@[ii].end_key
                        &&& self@ == old(self)@.remove(ii)
                    });
                }
                return Some(t);
            }
            i += 1;
        }
        None
    }

    /// Registers a new range waiting to be deleted.
    ///
    /// The caller must have drained overlapping ranges first: inserting
    /// an overlapping range is a contract violation.
    pub fn insert(&mut self, region_id: u64, start_key: &[u8], end_key: &[u8], timeout: u64)
        requires
            ranges_wf(old(self)@),
            bytes_lt(start_key@, end_key@),
            overlap_filter(old(self)@, start_key@, end_key@) == Seq::<RangeV>::empty(),
        ensures
            ranges_wf(final(self)@),
            exists|i: int|
                {
                    &&& 0 <= i <= old(self)@.len()
                    &&& final(self)@ == old(self)@.insert(
                        i,
                        RangeV {
                            start_key: start_key@,
                            region_id,
                            end_key: end_key@,
                            timeout,
                        },
                    )
                },
    {
        proof {
            lemma_overlap_filter_empty(old(self)@, start_key@, end_key@);
        }
        let n = self.ranges.len();
        let mut i: usize = 0;
        #[verifier::loop_isolation(false)]
        while i < n && !bytes_lt_exec(start_key, self.ranges[i].start_key.as_slice())
            invariant
                i <= n,
                forall|j: int| 0 <= j < i ==> !bytes_lt(start_key@, (#[trigger] self@[j]).start_key),
            decreases n - i,
        {
            i += 1;
        }
        proof {
            assert(i < n ==> bytes_lt(start_key@, self@[i as int].start_key));
        }
        let mut sk: Vec<u8> = Vec::new();
        sk.extend_from_slice(start_key);
        let mut ek: Vec<u8> = Vec::new();
        ek.extend_from_slice(end_key);
        proof {
            assert(sk@ =~= start_key@);
            assert(ek@ =~= end_key@);
        }
        let rg = PendingRange { start_key: sk, region_id, end_key: ek, timeout };
        let ghost pos = i as int;
        self.ranges.insert(i, rg);
        proof {
            let nv = RangeV { start_key: start_key@, region_id, end_key: end_key@, timeout };
            assert(self@ =~= old(self)@.insert(pos, nv));
            assert forall|a: int| 0 <= a < self@.len() implies bytes_lt(
                (#[trigger] self@[a]).start_key,
                self@[a].end_key,
            ) by {
                if a < pos {
                    assert(self@[a] == old(self)@[a]);
                } else if a > pos {
                    assert(self@[a] == old(self)@[a - 1]);
                }
            }
            assert forall|a: int, b: int| 0 <= a < b < self@.len() implies bytes_le(
                (#[trigger] self@[a]).end_key,
                (#[trigger] self@[b]).start_key,
            ) by {
                if a < pos && b < pos {
                    assert(self@[a] == old(self)@[a]);
                    assert(self@[b] == old(self)@[b]);
                } else if a > pos && b > pos {
                    assert(self@[a] == old(self)@[a - 1]);
                    assert(self@[b] == old(self)@[b - 1]);
                } else if b == pos {
                    assert(self@[a] == old(self)@[a]);
                    lemma_no_overlap_before(old(self)@, start_key@, end_key@, a);
                } else if a == pos {
                    assert(self@[b] == old(self)@[b - 1]);
                    let t = b - 1;
                    assert(bytes_lt(start_key@, old(self)@[t].start_key)) by {
                        if t > pos {
                            assert(bytes_lt(start_key@, old(self)@[pos].start_key));
                            assert(bytes_le(old(self)@[pos].end_key, old(self)@[t].start_key));
                            assert(bytes_lt(old(self)@[pos].start_key, old(self)@[pos].end_key));
                            lemma_bytes_lt_trans(
                                start_key@,
                                old(self)@[pos].start_key,
                                old(self)@[pos].end_key,
                            );
                            if old(self)@[pos].end_key == old(self)@[t].start_key {
                            } else {
                                lemma_bytes_lt_trans(
                                    start_key@,
                                    old(self)@[pos].end_key,
                                    old(self)@[t].start_key,
                                );
                            }
                        }
                    }
                    lemma_no_overlap_after(old(self)@, start_key@, end_key@, t);
                } else {
                    assert(a < pos && b > pos);
                    assert(self@[a] == old(self)@[a]);
                    assert(self@[b] == old(self)@[b - 1]);
                    assert(a < b - 1);
                }
            }
        }
    }

    /// The ranges due at `now`: region, start key and end key of every
    /// entry whose deadline has passed, in key order.
    pub fn timeout_ranges(&self, now: u64) -> (r: Vec<(u64, Vec<u8>, Vec<u8>)>)
        ensures
            Seq::new(r@.len(), |i: int| (r@[i].0, r@[i].1@, r@[i].2@)) == triples_of(
                due_filter(self@, now),
            ),
    {
        let n = self.ranges.len();
        let mut out: Vec<(u64, Vec<u8>, Vec<u8>)> = Vec::new();
        let mut i: usize = 0;
        proof {
            assert(self@.skip(0) =~= self@);
            assert(Seq::new(out@.len(), |k: int| (out@[k].0, out@[k].1@, out@[k].2@))
                + triples_of(due_filter(self@, now)) =~= triples_of(due_filter(self@, now)));
        }
        #[verifier::loop_isolation(false)]
        while i < n
            invariant
                i <= n,
                triples_of(due_filter(self@, now)) == Seq::new(
                    out@.len(),
                    |k: int| (out@[k].0, out@[k].1@, out@[k].2@),
                ) + triples_of(due_filter(self@.skip(i as int), now)),
            decreases n - i,
        {
            let ghost rem0 = self@.skip(i as int);
            let ghost out0 = Seq::new(out@.len(), |k: int| (out@[k].0, out@[k].1@, out@[k].2@));
            let rg = &self.ranges[i];
            proof {
                assert(rem0[0] == self@[i as int]);
                assert(rem0.drop_first() =~= self@.skip(i + 1));
            }
            if rg.timeout <= now {
                let t = (rg.region_id, crate::delegate::clone_bytes(&rg.start_key),
                crate::delegate::clone_bytes(&rg.end_key));
                out.push(t);
                proof {
                    assert(Seq::new(out@.len(), |k: int| (out@[k].0, out@[k].1@, out@[k].2@))
                        =~= out0.push(
                        (rem0[0].region_id, rem0[0].start_key, rem0[0].end_key),
                    ));
                    assert(triples_of(due_filter(rem0, now)) =~= seq![
                        (rem0[0].region_id, rem0[0].start_key, rem0[0].end_key),
                    ] + triples_of(due_filter(rem0.drop_first(), now)));
                    assert(out0.push((rem0[0].region_id, rem0[0].start_key, rem0[0].end_key))
                        + triples_of(due_filter(self@.skip(i + 1), now)) =~= out0 + triples_of(
                        due_filter(rem0, now),
                    ));
                }
            } else {
                proof {
                    assert(triples_of(due_filter(rem0, now)) =~= triples_of(
                        due_filter(rem0.drop_first(), now),
                    ));
                }
            }
            i += 1;
        }
        proof {
            assert(self@.skip(n as int) =~= Seq::<RangeV>::empty());
            assert(Seq::new(out@.len(), |k: int| (out@[k].0, out@[k].1@, out@[k].2@))
                =~= triples_of(due_filter(self@, now)));
        }
        out
    }
}

/// In a registry with no range overlapping `[s, e)`, every range
/// overlaps nothing of it: those starting at or before `s` end by `s`,
/// and those starting after `s` start at or after `e`.
pub proof fn lemma_overlap_filter_empty(rs: Seq<RangeV>, s: Seq<u8>, e: Seq<u8>)
    requires
        overlap_filter(rs, s, e) == Seq::<RangeV>::empty(),
    ensures
        forall|i: int| 0 <= i < rs.len() ==> !overlaps_v(#[trigger] rs[i], s, e),
    decreases rs.len(),
{
    if rs.len() > 0 {
        if overlaps_v(rs[0], s, e) {
            assert(overlap_filter(rs, s, e)[0] == rs[0]);
        }
        assert(overlap_filter(rs.drop_first(), s, e) =~= Seq::<RangeV>::empty()) by {
            if overlap_filter(rs.drop_first(), s, e).len() > 0 {
                assert(overlap_filter(rs, s, e).len() > 0);
            }
        }
        lemma_overlap_filter_empty(rs.drop_first(), s, e);
        assert forall|i: int| 0 <= i < rs.len() implies !overlaps_v(#[trigger] rs[i], s, e) by {
            if i > 0 {
                assert(rs.drop_first()[i - 1] == rs[i]);
            }
        }
    }
}

/// Draining the overlaps of `[s, e)` leaves nothing that overlaps it.
pub proof fn lemma_keep_overlap_empty(rs: Seq<RangeV>, s: Seq<u8>, e: Seq<u8>)
    ensures
        overlap_filter(keep_filter(rs, s, e), s, e) == Seq::<RangeV>::empty(),
    decreases rs.len(),
{
    if rs.len() > 0 {
        lemma_keep_overlap_empty(rs.drop_first(), s, e);
        let kf = keep_filter(rs, s, e);
        if overlaps_v(rs[0], s, e) {
            assert(kf =~= keep_filter(rs.drop_first(), s, e));
        } else {
            assert(kf[0] == rs[0]);
            assert(kf.drop_first() =~= keep_filter(rs.drop_first(), s, e));
            assert(overlap_filter(kf, s, e) =~= Seq::<RangeV>::empty());
        }
    }
}

/// A non-overlapping range that starts at or before `s` (of a valid
/// insert) ends at or before `s`.
proof fn lemma_no_overlap_before(rs: Seq<RangeV>, s: Seq<u8>, e: Seq<u8>, i: int)
    requires
        0 <= i < rs.len(),
        ranges_wf(rs),
        bytes_lt(s, e),
        !overlaps_v(rs[i], s, e),
        !bytes_lt(s, rs[i].start_key),
    ensures
        bytes_le(rs[i].end_key, s),
{
    lemma_bytes_lt_total(rs[i].start_key, e);
    lemma_bytes_lt_total(rs[i].end_key, s);
    lemma_bytes_lt_asym(s, rs[i].start_key);
    lemma_bytes_lt_asym(rs[i].start_key, e);
    lemma_bytes_lt_total(s, rs[i].start_key);
    if !bytes_le(rs[i].end_key, s) {
        assert(bytes_lt(s, rs[i].end_key));
        assert(!bytes_lt(rs[i].start_key, e));
        lemma_bytes_lt_total(rs[i].start_key, s);
        assert(bytes_le(rs[i].start_key, s));
        if rs[i].start_key == s {
            lemma_bytes_lt_asym(rs[i].start_key, e);
        } else {
            lemma_bytes_lt_trans(rs[i].start_key, s, e);
        }
    }
}

/// A non-overlapping range that starts after `s` (of a valid insert)
/// starts at or after `e`.
proof fn lemma_no_overlap_after(rs: Seq<RangeV>, s: Seq<u8>, e: Seq<u8>, i: int)
    requires
        0 <= i < rs.len(),
        ranges_wf(rs),
        bytes_lt(s, e),
        !overlaps_v(rs[i], s, e),
        bytes_lt(s, rs[i].start_key),
    ensures
        bytes_le(e, rs[i].start_key),
{
    if !bytes_le(e, rs[i].start_key) {
        lemma_bytes_lt_total(e, rs[i].start_key);
        assert(bytes_lt(rs[i].start_key, e));
        assert(!bytes_lt(s, rs[i].end_key));
        lemma_bytes_lt_total(s, rs[i].end_key);
        assert(bytes_le(rs[i].end_key, s));
        assert(bytes_lt(rs[i].start_key, rs[i].end_key));
        if rs[i].end_key == s {
            lemma_bytes_lt_asym(rs[i].start_key, s);
            lemma_bytes_lt_asym(s, rs[i].start_key);
        } else {
            lemma_bytes_lt_trans(rs[i].start_key, rs[i].end_key, s);
            lemma_bytes_lt_asym(rs[i].start_key, s);
            lemma_bytes_lt_asym(s, rs[i].start_key);
        }
    }
}

} // verus!
