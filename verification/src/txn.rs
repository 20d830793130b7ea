//! Write and lock records of the transactional layer.
//!
//! A record is one tag byte, the eight-byte big-endian transaction start
//! timestamp, and optionally an inline short value introduced by the
//! short-value tag byte and its one-byte length.

use vstd::prelude::*;

use crate::codec::{decode_u64, encode_u64, u64_be_bytes, u64_from_be};
use crate::key::SHORT_VALUE_PREFIX;

verus! {

/// Tag byte of a put record.
pub const TAG_PUT: u8 = 80;

/// Tag byte of a delete record.
pub const TAG_DELETE: u8 = 68;

/// Tag byte of a rollback write record.
pub const TAG_ROLLBACK: u8 = 82;

/// Tag byte of a lock-only record.
pub const TAG_LOCK: u8 = 76;

/// Tag byte of a pessimistic lock record.
pub const TAG_PESSIMISTIC: u8 = 83;

/// The kind of a write-column-family record.
#[derive(Clone, Copy, Debug, PartialEq, Eq, Structural)]
pub enum WriteKind {
    Put,
    Delete,
    Rollback,
    Lock,
}

/// The kind of a lock-column-family record.
#[derive(Clone, Copy, Debug, PartialEq, Eq, Structural)]
pub enum LockKind {
    Put,
    Delete,
    Lock,
    Pessimistic,
}

/// A parsed write record: the committed (or rolled back) intent.
#[derive(Debug)]
pub struct WriteRecord {
    pub kind: WriteKind,
    pub start_ts: u64,
    pub short_value: Option<Vec<u8>>,
}

/// The mathematical image of a write record.
pub struct WriteRecV {
    pub kind: WriteKind,
    pub start_ts: u64,
    pub short_value: Option<Seq<u8>>,
}

impl View for WriteRecord {
    type V = WriteRecV;

    open spec fn view(&self) -> WriteRecV {
        WriteRecV {
            kind: self.kind,
            start_ts: self.start_ts,
            short_value: match &self.short_value {
                Some(v) => Some(v@),
                None => None,
            },
        }
    }
}

/// A parsed lock record: an in-flight intent.
#[derive(Debug)]
pub struct LockRecord {
    pub kind: LockKind,
    pub ts: u64,
    pub short_value: Option<Vec<u8>>,
}

/// The mathematical image of a lock record.
pub struct LockRecV {
    pub kind: LockKind,
    pub ts: u64,
    pub short_value: Option<Seq<u8>>,
}

impl View for LockRecord {
    type V = LockRecV;

    open spec fn view(&self) -> LockRecV {
        LockRecV {
            kind: self.kind,
            ts: self.ts,
            short_value: match &self.short_value {
                Some(v) => Some(v@),
                None => None,
            },
        }
    }
}

/// The write kind a tag byte stands for.
pub open spec fn write_kind_of_tag(t: u8) -> Option<WriteKind> {
    if t == TAG_PUT {
        Some(WriteKind::Put)
    } else if t == TAG_DELETE {
        Some(WriteKind::Delete)
    } else if t == TAG_ROLLBACK {
        Some(WriteKind::Rollback)
    } else if t == TAG_LOCK {
        Some(WriteKind::Lock)
    } else {
        None
    }
}

/// The tag byte of a write kind.
pub open spec fn write_tag_of_kind(k: WriteKind) -> u8 {
    match k {
        WriteKind::Put => TAG_PUT,
        WriteKind::Delete => TAG_DELETE,
        WriteKind::Rollback => TAG_ROLLBACK,
        WriteKind::Lock => TAG_LOCK,
    }
}

/// The lock kind a tag byte stands for.
pub open spec fn lock_kind_of_tag(t: u8) -> Option<LockKind> {
    if t == TAG_PUT {
        Some(LockKind::Put)
    } else if t == TAG_DELETE {
        Some(LockKind::Delete)
    } else if t == TAG_LOCK {
        Some(LockKind::Lock)
    } else if t == TAG_PESSIMISTIC {
        Some(LockKind::Pessimistic)
    } else {
        None
    }
}

/// The tag byte of a lock kind.
pub open spec fn lock_tag_of_kind(k: LockKind) -> u8 {
    match k {
        LockKind::Put => TAG_PUT,
        LockKind::Delete => TAG_DELETE,
        LockKind::Lock => TAG_LOCK,
        LockKind::Pessimistic => TAG_PESSIMISTIC,
    }
}

/// The optional short-value suffix of a record body after the fixed
/// nine-byte head: nothing, or the short-value tag, a length byte and
/// exactly that many bytes.
pub open spec fn parse_short_value(v: Seq<u8>) -> Option<Option<Seq<u8>>> {
    if v.len() == 0 {
        Some(None)
    } else if v.len() >= 2 && v[0] == SHORT_VALUE_PREFIX && v.len() == 2 + v[1] {
        Some(Some(v.subrange(2, v.len() as int)))
    } else {
        None
    }
}

/// The write record a byte string parses to, if well-formed.
pub open spec fn parse_write(v: Seq<u8>) -> Option<WriteRecV> {
    if v.len() < 9 {
        None
    } else {
        match write_kind_of_tag(v[0]) {
            None => None,
            Some(kind) => match parse_short_value(v.skip(9)) {
                None => None,
                Some(short_value) => Some(
                    WriteRecV { kind, start_ts: u64_from_be(v.subrange(1, 9)), short_value },
                ),
            },
        }
    }
}

/// The lock record a byte string parses to, if well-formed.
pub open spec fn parse_lock(v: Seq<u8>) -> Option<LockRecV> {
    if v.len() < 9 {
        None
    } else {
        match lock_kind_of_tag(v[0]) {
            None => None,
            Some(kind) => match parse_short_value(v.skip(9)) {
                None => None,
                Some(short_value) => Some(
                    LockRecV { kind, ts: u64_from_be(v.subrange(1, 9)), short_value },
                ),
            },
        }
    }
}

/// Reads the optional short-value suffix starting at `from`.
fn read_short_value(v: &[u8], from: usize) -> (r: Option<Option<Vec<u8>>>)
    requires
        from <= v@.len(),
    ensures
        match r {
            Some(Some(sv)) => parse_short_value(v@.skip(from as int)) == Some(Some(sv@)),
            Some(None) => parse_short_value(v@.skip(from as int)) == Some(
                None::<Seq<u8>>,
            ),
            None => parse_short_value(v@.skip(from as int)) is None,
        },
{
    let ghost tail = v@.skip(from as int);
    let n = v.len();
    if from == n {
        assert(tail.len() == 0);
        return Some(None);
    }
    if n - from >= 2 && v[from] == SHORT_VALUE_PREFIX {
        let sv_len = v[from + 1] as usize;
        if n - from == 2 + sv_len {
            let mut sv: Vec<u8> = Vec::new();
            sv.extend_from_slice(&v[from + 2..n]);
            proof {
                assert(tail[0] == v@[from as int]);
                assert(tail[1] == v@[from + 1]);
                assert(sv@ =~= tail.subrange(2, tail.len() as int));
            }
            return Some(Some(sv));
        }
    }
    proof {
        assert(tail.len() >= 1);
        if tail.len() >= 2 && tail[0] == SHORT_VALUE_PREFIX {
            assert(tail[0] == v@[from as int]);
            assert(tail[1] == v@[from + 1]);
        }
    }
    None
}

/// Parses a write record.
pub fn parse_write_record(v: &[u8]) -> (r: Option<WriteRecord>)
    ensures
        match r {
            Some(rec) => parse_write(v@) == Some(rec@),
            None => parse_write(v@) is None,
        },
{
    if v.len() < 9 {
        return None;
    }
    let tag = v[0];
    let kind = if tag == TAG_PUT {
        WriteKind::Put
    } else if tag == TAG_DELETE {
        WriteKind::Delete
    } else if tag == TAG_ROLLBACK {
        WriteKind::Rollback
    } else if tag == TAG_LOCK {
        WriteKind::Lock
    } else {
        return None;
    };
    let ts_bytes = &v[1..9];
    proof {
        assert(ts_bytes@ =~= v@.subrange(1, 9));
    }
    let start_ts = decode_u64(ts_bytes);
    match read_short_value(v, 9) {
        Some(short_value) => Some(WriteRecord { kind, start_ts, short_value }),
        None => None,
    }
}

/// Parses a lock record.
pub fn parse_lock_record(v: &[u8]) -> (r: Option<LockRecord>)
    ensures
        match r {
            Some(rec) => parse_lock(v@) == Some(rec@),
            None => parse_lock(v@) is None,
        },
{
    if v.len() < 9 {
        return None;
    }
    let tag = v[0];
    let kind = if tag == TAG_PUT {
        LockKind::Put
    } else if tag == TAG_DELETE {
        LockKind::Delete
    } else if tag == TAG_LOCK {
        LockKind::Lock
    } else if tag == TAG_PESSIMISTIC {
        LockKind::Pessimistic
    } else {
        return None;
    };
    let ts_bytes = &v[1..9];
    proof {
        assert(ts_bytes@ =~= v@.subrange(1, 9));
    }
    let ts = decode_u64(ts_bytes);
    match read_short_value(v, 9) {
        Some(short_value) => Some(LockRecord { kind, ts, short_value }),
        None => None,
    }
}

/// Appends the optional short-value suffix.
fn push_short_value(out: &mut Vec<u8>, short_value: &Option<Vec<u8>>)
    requires
        match *short_value {
            Some(ref sv) => sv@.len() <= 255,
            None => true,
        },
    ensures
        match *short_value {
            Some(ref sv) => final(out)@ == old(out)@ + seq![SHORT_VALUE_PREFIX]
                + seq![sv@.len() as u8] + sv@,
            None => final(out)@ == old(out)@,
        },
{
    match short_value {
        Some(sv) => {
            let ghost pre = out@;
            out.push(SHORT_VALUE_PREFIX);
            out.push(sv.len() as u8);
            out.extend_from_slice(sv.as_slice());
            proof {
                assert(out@ =~= pre + seq![SHORT_VALUE_PREFIX] + seq![sv@.len() as u8] + sv@);
            }
        },
        None => {},
    }
}

/// A freshly appended short-value suffix parses back to itself.
proof fn lemma_short_value_roundtrip(sv: Option<Seq<u8>>)
    requires
        match sv {
            Some(s) => s.len() <= 255,
            None => true,
        },
    ensures
        match sv {
            Some(s) => parse_short_value(seq![SHORT_VALUE_PREFIX] + seq![s.len() as u8] + s)
                == Some(Some(s)),
            None => parse_short_value(Seq::<u8>::empty()) == Some(None::<Seq<u8>>),
        },
{
    match sv {
        Some(s) => {
            let v = seq![SHORT_VALUE_PREFIX] + seq![s.len() as u8] + s;
            assert(v.len() == 2 + s.len());
            assert(v[0] == SHORT_VALUE_PREFIX);
            assert(v[1] == s.len() as u8);
            assert(v.subrange(2, v.len() as int) =~= s);
        },
        None => {},
    }
}

/// Encodes a write record; the encoding parses back to the record.
pub fn encode_write_record(rec: &WriteRecord) -> (r: Vec<u8>)
    requires
        match rec.short_value {
            Some(ref sv) => sv@.len() <= 255,
            None => true,
        },
    ensures
        parse_write(r@) == Some(rec@),
{
    let mut out: Vec<u8> = Vec::new();
    let tag = match rec.kind {
        WriteKind::Put => TAG_PUT,
        WriteKind::Delete => TAG_DELETE,
        WriteKind::Rollback => TAG_ROLLBACK,
        WriteKind::Lock => TAG_LOCK,
    };
    out.push(tag);
    encode_u64(&mut out, rec.start_ts);
    push_short_value(&mut out, &rec.short_value);
    proof {
        let v = out@;
        assert(v.len() >= 9);
        assert(v[0] == write_tag_of_kind(rec@.kind));
        assert(write_kind_of_tag(v[0]) == Some(rec@.kind));
        assert(v.subrange(1, 9) =~= u64_be_bytes(rec.start_ts));
        crate::codec::lemma_u64_be_roundtrip(rec.start_ts);
        lemma_short_value_roundtrip(rec@.short_value);
        match rec@.short_value {
            Some(s) => {
                assert(v.skip(9) =~= seq![SHORT_VALUE_PREFIX] + seq![s.len() as u8] + s);
            },
            None => {
                assert(v.skip(9) =~= Seq::<u8>::empty());
            },
        }
    }
    out
}

/// Encodes a lock record; the encoding parses back to the record.
pub fn encode_lock_record(rec: &LockRecord) -> (r: Vec<u8>)
    requires
        match rec.short_value {
            Some(ref sv) => sv@.len() <= 255,
            None => true,
        },
    ensures
        parse_lock(r@) == Some(rec@),
{
    let mut out: Vec<u8> = Vec::new();
    let tag = match rec.kind {
        LockKind::Put => TAG_PUT,
        LockKind::Delete => TAG_DELETE,
        LockKind::Lock => TAG_LOCK,
        LockKind::Pessimistic => TAG_PESSIMISTIC,
    };
    out.push(tag);
    encode_u64(&mut out, rec.ts);
    push_short_value(&mut out, &rec.short_value);
    proof {
        let v = out@;
        assert(v.len() >= 9);
        assert(v[0] == lock_tag_of_kind(rec@.kind));
        assert(lock_kind_of_tag(v[0]) == Some(rec@.kind));
        assert(v.subrange(1, 9) =~= u64_be_bytes(rec.ts));
        crate::codec::lemma_u64_be_roundtrip(rec.ts);
        lemma_short_value_roundtrip(rec@.short_value);
        match rec@.short_value {
            Some(s) => {
                assert(v.skip(9) =~= seq![SHORT_VALUE_PREFIX] + seq![s.len() as u8] + s);
            },
            None => {
                assert(v.skip(9) =~= Seq::<u8>::empty());
            },
        }
    }
    out
}

} // verus!
