//! Keys of the transactional layer.
//!
//! A key has two binary representations: the *raw* form handed to public
//! interfaces and the memcmp-*encoded* form used by internal storage. A
//! `Key` value always holds the encoded form. Orthogonally, an encoded key
//! may carry an eight-byte descending timestamp suffix; this is transparent
//! to the type and the caller must use it consistently.

use vstd::prelude::*;

use crate::codec::{
    bytes_eq, dec_bytes, decode_bytes, decode_u64_desc, enc_bytes, encode_bytes, encode_u64_desc,
    ts_of_suffix, ts_suffix, CodecError, TS_SUFFIX_LEN,
};
use crate::timestamp::TimeStamp;

verus! {

/// Longest value that is stored inline next to its lock or write record.
pub const SHORT_VALUE_MAX_LEN: usize = 255;

/// Tag byte that introduces an inline short value.
pub const SHORT_VALUE_PREFIX: u8 = 118;

/// True when a value is short enough to be stored inline.
pub fn is_short_value(value: &[u8]) -> (r: bool)
    ensures
        r == (value@.len() <= SHORT_VALUE_MAX_LEN),
{
    value.len() <= SHORT_VALUE_MAX_LEN
}

/// The digest farmhash::fingerprint64 computes for a byte string.
pub uninterp spec fn fingerprint64_of(b: Seq<u8>) -> u64;

/// Relies on farmhash::fingerprint64: the digest is a function of the
/// bytes alone, stable across processes and machines.
#[verifier::external_body]
fn fingerprint64(b: &[u8]) -> (r: u64)
    ensures
        r == fingerprint64_of(b@),
{
    farmhash::fingerprint64(b)
}

/// A key in its memcmp-encoded representation.
#[derive(Debug)]
pub struct Key {
    enc: Vec<u8>,
}

impl View for Key {
    type V = Seq<u8>;

    closed spec fn view(&self) -> Seq<u8> {
        self.enc@
    }
}

impl Key {
    /// Creates a key by memcmp-encoding raw bytes.
    pub fn from_raw(key: &[u8]) -> (r: Key)
        ensures
            r@ == enc_bytes(key@),
    {
        Key { enc: encode_bytes(key) }
    }

    /// Decodes the key back to its raw bytes, consuming it.
    pub fn into_raw(self) -> (r: Result<Vec<u8>, CodecError>)
        ensures
            match r {
                Ok(v) => dec_bytes(self@) == Ok::<Seq<u8>, CodecError>(v@),
                Err(er) => dec_bytes(self@) == Err::<Seq<u8>, CodecError>(er),
            },
    {
        decode_bytes(self.enc.as_slice())
    }

    /// Decodes the key back to its raw bytes.
    pub fn to_raw(&self) -> (r: Result<Vec<u8>, CodecError>)
        ensures
            match r {
                Ok(v) => dec_bytes(self@) == Ok::<Seq<u8>, CodecError>(v@),
                Err(er) => dec_bytes(self@) == Err::<Seq<u8>, CodecError>(er),
            },
    {
        decode_bytes(self.enc.as_slice())
    }

    /// Wraps an already encoded byte vector.
    pub fn from_encoded(encoded_key: Vec<u8>) -> (r: Key)
        ensures
            r@ == encoded_key@,
    {
        Key { enc: encoded_key }
    }

    /// Copies an already encoded byte slice into a key.
    pub fn from_encoded_slice(encoded_key: &[u8]) -> (r: Key)
        ensures
            r@ == encoded_key@,
    {
        let mut k: Vec<u8> = Vec::new();
        k.extend_from_slice(encoded_key);
        proof {
            assert(k@ =~= encoded_key@);
        }
        Key { enc: k }
    }

    /// The encoded representation.
    pub fn as_encoded(&self) -> (r: &Vec<u8>)
        ensures
            r@ == self@,
    {
        &self.enc
    }

    /// The encoded representation, consuming the key.
    pub fn into_encoded(self) -> (r: Vec<u8>)
        ensures
            r@ == self@,
    {
        self.enc
    }

    /// An independent copy of this key.
    pub fn duplicate(&self) -> (r: Key)
        ensures
            r@ == self@,
    {
        Key::from_encoded_slice(self.enc.as_slice())
    }

    /// Appends the descending encoding of a timestamp.
    pub fn append_ts(self, ts: TimeStamp) -> (r: Key)
        ensures
            r@ == self@ + ts_suffix(ts.0),
    {
        let mut enc = self.enc;
        encode_u64_desc(&mut enc, ts.0);
        Key { enc }
    }

    /// Reads the timestamp suffix of this key.
    ///
    /// The caller must ensure the key actually carries a timestamp; a key
    /// shorter than the suffix is reported as a length error.
    pub fn decode_ts(&self) -> (r: Result<TimeStamp, CodecError>)
        ensures
            match r {
                Ok(t) => self@.len() >= TS_SUFFIX_LEN && t.0 == ts_of_suffix(
                    self@.skip(self@.len() - TS_SUFFIX_LEN as int),
                ),
                Err(er) => self@.len() < TS_SUFFIX_LEN && er == CodecError::KeyLength,
            },
    {
        Self::decode_ts_from(self.enc.as_slice())
    }

    /// Removes the timestamp suffix, consuming the key.
    pub fn truncate_ts(self) -> (r: Result<Key, CodecError>)
        ensures
            match r {
                Ok(k) => self@.len() >= TS_SUFFIX_LEN && k@ == self@.take(
                    self@.len() - TS_SUFFIX_LEN as int,
                ),
                Err(er) => self@.len() < TS_SUFFIX_LEN && er == CodecError::KeyLength,
            },
    {
        let len = self.enc.len();
        if len < TS_SUFFIX_LEN {
            Err(CodecError::KeyLength)
        } else {
            let mut enc = self.enc;
            enc.truncate(len - TS_SUFFIX_LEN);
            Ok(Key { enc })
        }
    }

    /// Splits a timestamped encoded key into its user part and timestamp.
    pub fn split_on_ts_for(key: &[u8]) -> (r: Result<(&[u8], TimeStamp), CodecError>)
        ensures
            match r {
                Ok(p) => key@.len() >= TS_SUFFIX_LEN && p.0@ == key@.take(
                    key@.len() - TS_SUFFIX_LEN as int,
                ) && p.1.0 == ts_of_suffix(key@.skip(key@.len() - TS_SUFFIX_LEN as int)),
                Err(er) => key@.len() < TS_SUFFIX_LEN && er == CodecError::KeyLength,
            },
    {
        if key.len() < TS_SUFFIX_LEN {
            Err(CodecError::KeyLength)
        } else {
            let pos = key.len() - TS_SUFFIX_LEN;
            let user = &key[0..pos];
            let suffix = &key[pos..key.len()];
            let ts = decode_u64_desc(suffix);
            proof {
                assert(user@ =~= key@.take(key@.len() - 8));
                assert(suffix@ =~= key@.skip(key@.len() - 8));
            }
            Ok((user, TimeStamp(ts)))
        }
    }

    /// The user part of a timestamped encoded key.
    pub fn truncate_ts_for(key: &[u8]) -> (r: Result<&[u8], CodecError>)
        ensures
            match r {
                Ok(u) => key@.len() >= TS_SUFFIX_LEN && u@ == key@.take(
                    key@.len() - TS_SUFFIX_LEN as int,
                ),
                Err(er) => key@.len() < TS_SUFFIX_LEN && er == CodecError::KeyLength,
            },
    {
        if key.len() < TS_SUFFIX_LEN {
            Err(CodecError::KeyLength)
        } else {
            let user = &key[0..key.len() - TS_SUFFIX_LEN];
            proof {
                assert(user@ =~= key@.take(key@.len() - 8));
            }
            Ok(user)
        }
    }

    /// The timestamp suffix of a timestamped encoded key.
    pub fn decode_ts_from(key: &[u8]) -> (r: Result<TimeStamp, CodecError>)
        ensures
            match r {
                Ok(t) => key@.len() >= TS_SUFFIX_LEN && t.0 == ts_of_suffix(
                    key@.skip(key@.len() - TS_SUFFIX_LEN as int),
                ),
                Err(er) => key@.len() < TS_SUFFIX_LEN && er == CodecError::KeyLength,
            },
    {
        if key.len() < TS_SUFFIX_LEN {
            Err(CodecError::KeyLength)
        } else {
            let suffix = &key[key.len() - TS_SUFFIX_LEN..key.len()];
            proof {
                assert(suffix@ =~= key@.skip(key@.len() - 8));
            }
            Ok(TimeStamp(decode_u64_desc(suffix)))
        }
    }

    /// Whether the user part of the timestamped encoded key
    /// `ts_encoded_key` equals the encoded user key `user_key`.
    pub fn is_user_key_eq(ts_encoded_key: &[u8], user_key: &[u8]) -> (r: bool)
        ensures
            r == (ts_encoded_key@.len() == user_key@.len() + TS_SUFFIX_LEN
                && ts_encoded_key@.take(user_key@.len() as int) == user_key@),
    {
        let user_key_len = user_key.len();
        if ts_encoded_key.len() < TS_SUFFIX_LEN
            || ts_encoded_key.len() - TS_SUFFIX_LEN != user_key_len {
            return false;
        }
        let prefix = &ts_encoded_key[0..user_key_len];
        proof {
            assert(prefix@ =~= ts_encoded_key@.take(user_key@.len() as int));
        }
        bytes_eq(prefix, user_key)
    }

    /// Whether this encoded key is the encoding of `raw_key`.
    pub fn is_encoded_from(&self, raw_key: &[u8]) -> (r: bool)
        ensures
            r == (self@ == enc_bytes(raw_key@)),
    {
        let expect = encode_bytes(raw_key);
        bytes_eq(self.enc.as_slice(), expect.as_slice())
    }

    /// The hash of the raw form of this key, as the upper layers
    /// compute it. The key must be well encoded.
    pub fn gen_hash(&self) -> (r: u64)
        requires
            dec_bytes(self@) is Ok,
        ensures
            r == fingerprint64_of(dec_bytes(self@)->Ok_0),
    {
        match self.to_raw() {
            Ok(raw) => fingerprint64(raw.as_slice()),
            Err(_) => vstd::pervasive::unreached(),
        }
    }
}

/// Encoding a raw key and decoding it back returns the raw key, the
/// encoded form is recognized as encoded from exactly that raw key, and
/// no two distinct raw keys share an encoded form.
pub proof fn lemma_raw_roundtrip(raw: Seq<u8>)
    ensures
        dec_bytes(enc_bytes(raw)) == Ok::<Seq<u8>, CodecError>(raw),
        forall|other: Seq<u8>| enc_bytes(raw) == enc_bytes(other) ==> raw == other,
{
    crate::codec::lemma_enc_dec(raw);
    assert forall|other: Seq<u8>| enc_bytes(raw) == enc_bytes(other) implies raw == other by {
        crate::codec::lemma_enc_dec(other);
    }
}

/// Appending a timestamp to an encoded key, then truncating it and
/// decoding, returns the original raw key; and the appended timestamp is
/// read back unchanged.
pub proof fn lemma_append_ts_roundtrip(raw: Seq<u8>, t: u64)
    ensures
        ({
            let e = enc_bytes(raw) + ts_suffix(t);
            &&& e.len() >= TS_SUFFIX_LEN
            &&& e.take(e.len() - TS_SUFFIX_LEN as int) == enc_bytes(raw)
            &&& dec_bytes(e.take(e.len() - TS_SUFFIX_LEN as int)) == Ok::<Seq<u8>, CodecError>(
                raw,
            )
            &&& ts_of_suffix(e.skip(e.len() - TS_SUFFIX_LEN as int)) == t
        }),
{
    let e = enc_bytes(raw) + ts_suffix(t);
    crate::codec::lemma_enc_len(raw);
    crate::codec::lemma_enc_dec(raw);
    crate::codec::lemma_ts_suffix_roundtrip(t);
    assert(e.take(e.len() - 8) =~= enc_bytes(raw));
    assert(e.skip(e.len() - 8) =~= ts_suffix(t));
}

} // verus!
