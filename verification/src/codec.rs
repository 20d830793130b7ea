//! Memcmp (order-preserving) byte-string encoding and the descending
//! fixed-width timestamp encoding used as a key suffix.
//!
//! A raw byte string is encoded in groups of eight bytes. Every full group
//! is followed by the marker `0xFF`; the final group (which may be empty)
//! is padded with zero bytes to eight bytes and followed by a marker equal
//! to `0xF7` plus the number of data bytes in the group. The encoding is
//! order-preserving and leaves room to append a timestamp suffix.

use vstd::prelude::*;

verus! {

/// Number of data bytes per encoded group.
pub const ENC_GROUP_SIZE: usize = 8;

/// Marker byte that follows every full group.
pub const ENC_MARKER: u8 = 0xFF;

/// Width in bytes of the encoded timestamp suffix.
pub const TS_SUFFIX_LEN: usize = 8;

/// Decoding failures.
#[derive(Clone, Copy, Debug, PartialEq, Eq, Structural)]
pub enum CodecError {
    /// The input ended before a terminal group was found, or is too short.
    KeyLength,
    /// A marker or the zero padding of the terminal group is malformed,
    /// or data follows the terminal group.
    KeyPadding,
}

/// A sequence of `n` zero bytes.
pub open spec fn zeros(n: nat) -> Seq<u8> {
    Seq::new(n, |i: int| 0u8)
}

/// The memcmp encoding of a raw byte string.
pub open spec fn enc_bytes(r: Seq<u8>) -> Seq<u8>
    decreases r.len(),
{
    if r.len() >= 8 {
        r.take(8) + seq![0xFFu8] + enc_bytes(r.skip(8))
    } else {
        r + zeros((8 - r.len()) as nat) + seq![(0xF7 + r.len()) as u8]
    }
}

/// The decoding of an encoded byte string, or the exact error it raises.
pub open spec fn dec_bytes(e: Seq<u8>) -> Result<Seq<u8>, CodecError>
    decreases e.len(),
{
    if e.len() < 9 {
        Err(CodecError::KeyLength)
    } else if e[8] == 0xFF {
        match dec_bytes(e.skip(9)) {
            Ok(rest) => Ok(e.take(8) + rest),
            Err(er) => Err(er),
        }
    } else if e[8] < 0xF7 {
        Err(CodecError::KeyPadding)
    } else if e.len() > 9 {
        Err(CodecError::KeyPadding)
    } else if e.subrange(e[8] - 0xF7, 8) == zeros((0xFF - e[8]) as nat) {
        Ok(e.take(e[8] - 0xF7))
    } else {
        Err(CodecError::KeyPadding)
    }
}

/// Decoding inverts encoding on every raw byte string.
pub proof fn lemma_enc_dec(r: Seq<u8>)
    ensures
        dec_bytes(enc_bytes(r)) == Ok::<Seq<u8>, CodecError>(r),
    decreases r.len(),
{
    let e = enc_bytes(r);
    if r.len() >= 8 {
        lemma_enc_dec(r.skip(8));
        lemma_enc_len(r.skip(8));
        assert(e.len() >= 9 + 9);
        assert(e[8] == 0xFF);
        assert(e.skip(9) =~= enc_bytes(r.skip(8)));
        assert(e.take(8) =~= r.take(8));
        assert(e.take(8) + r.skip(8) =~= r);
    } else {
        let d = r.len() as int;
        assert(e.len() == 9);
        assert(e[8] == 0xF7 + d);
        assert(0xF7 <= e[8] < 0xFF);
        assert(e.subrange(e[8] - 0xF7, 8) =~= zeros((0xFF - e[8]) as nat));
        assert(e.take(e[8] - 0xF7) =~= r);
    }
}

/// The encoded form always consists of whole groups of nine bytes, one
/// group per eight raw bytes plus a terminal group.
pub proof fn lemma_enc_len(r: Seq<u8>)
    ensures
        enc_bytes(r).len() == 9 * (r.len() / 8 + 1),
    decreases r.len(),
{
    if r.len() >= 8 {
        lemma_enc_len(r.skip(8));
    }
}

/// Byte-wise equality of two slices.
pub fn bytes_eq(a: &[u8], b: &[u8]) -> (r: bool)
    ensures
        r == (a@ == b@),
{
    if a.len() != b.len() {
        assert(a@ != b@);
        return false;
    }
    let n = a.len();
    let mut i: usize = 0;
    while i < n
        invariant
            n == a.len() == b.len(),
            i <= n,
            forall|j: int| 0 <= j < i ==> a@[j] == b@[j],
        decreases n - i,
    {
        if a[i] != b[i] {
            return false;
        }
        i += 1;
    }
    assert(a@ =~= b@);
    true
}

/// Encodes a raw byte string into its memcmp form.
pub fn encode_bytes(key: &[u8]) -> (r: Vec<u8>)
    ensures
        r@ == enc_bytes(key@),
{
    let len = key.len();
    let mut out: Vec<u8> = Vec::new();
    let mut i: usize = 0;
    proof {
        assert(key@.skip(0) =~= key@);
        assert(out@ + enc_bytes(key@) =~= enc_bytes(key@));
    }
    while len - i >= 8
        invariant
            len == key.len(),
            i <= len,
            enc_bytes(key@) == out@ + enc_bytes(key@.skip(i as int)),
        decreases len - i,
    {
        let ghost pre = out@;
        out.extend_from_slice(&key[i..i + 8]);
        out.push(ENC_MARKER);
        proof {
            let rest = key@.skip(i as int);
            assert(rest.take(8) =~= key@.subrange(i as int, i + 8));
            assert(rest.skip(8) =~= key@.skip(i + 8));
            assert(out@ =~= pre + rest.take(8) + seq![0xFFu8]);
            assert(out@ + enc_bytes(key@.skip(i + 8)) =~= pre + enc_bytes(rest));
        }
        i += 8;
    }
    let ghost pre = out@;
    let rem = len - i;
    out.extend_from_slice(&key[i..len]);
    proof {
        assert(out@ =~= pre + key@.skip(i as int) + zeros(0));
    }
    let mut p: usize = 0;
    while p < 8 - rem
        invariant
            rem < 8,
            p <= 8 - rem,
            out@ == pre + key@.skip(i as int) + zeros(p as nat),
            i + rem == len,
            len == key.len(),
        decreases 8 - rem - p,
    {
        out.push(0u8);
        proof {
            assert(zeros((p + 1) as nat) =~= zeros(p as nat) + seq![0u8]);
            assert(out@ =~= pre + key@.skip(i as int) + zeros((p + 1) as nat));
        }
        p += 1;
    }
    out.push(0xF7 + rem as u8);
    proof {
        let rest = key@.skip(i as int);
        assert(rest.len() == rem);
        assert(enc_bytes(rest) == rest + zeros((8 - rem) as nat) + seq![(0xF7 + rem) as u8]);
        assert(out@ =~= pre + enc_bytes(rest));
    }
    out
}

/// Decodes a memcmp-encoded byte string back to its raw form.
pub fn decode_bytes(data: &[u8]) -> (r: Result<Vec<u8>, CodecError>)
    ensures
        match r {
            Ok(v) => dec_bytes(data@) == Ok::<Seq<u8>, CodecError>(v@),
            Err(er) => dec_bytes(data@) == Err::<Seq<u8>, CodecError>(er),
        },
{
    let len = data.len();
    let mut out: Vec<u8> = Vec::new();
    let mut i: usize = 0;
    proof {
        assert(data@.skip(0) =~= data@);
        assert forall|rest: Seq<u8>|
            dec_bytes(data@.skip(0)) == Ok::<Seq<u8>, CodecError>(rest) implies dec_bytes(data@)
            == Ok::<Seq<u8>, CodecError>(out@ + rest) by {
            assert(out@ + rest =~= rest);
        }
    }
    loop
        invariant
            len == data.len(),
            i <= len,
            forall|rest: Seq<u8>|
                dec_bytes(data@.skip(i as int)) == Ok::<Seq<u8>, CodecError>(rest)
                    ==> dec_bytes(data@) == Ok::<Seq<u8>, CodecError>(out@ + rest),
            forall|er: CodecError|
                dec_bytes(data@.skip(i as int)) == Err::<Seq<u8>, CodecError>(er)
                    ==> dec_bytes(data@) == Err::<Seq<u8>, CodecError>(er),
        decreases len - i,
    {
        let ghost cur = data@.skip(i as int);
        if len - i < 9 {
            assert(dec_bytes(cur) == Err::<Seq<u8>, CodecError>(CodecError::KeyLength));
            return Err(CodecError::KeyLength);
        }
        assert(cur[8] == data@[i + 8]);
        let marker = data[i + 8];
        if marker == ENC_MARKER {
            let ghost pre = out@;
            out.extend_from_slice(&data[i..i + 8]);
            proof {
                assert(cur.take(8) =~= data@.subrange(i as int, i + 8));
                assert(out@ =~= pre + cur.take(8));
                assert(cur.skip(9) =~= data@.skip(i + 9));
                assert forall|rest: Seq<u8>|
                    dec_bytes(data@.skip(i + 9)) == Ok::<Seq<u8>, CodecError>(rest) implies
                    dec_bytes(data@) == Ok::<Seq<u8>, CodecError>(out@ + rest) by {
                    assert(dec_bytes(cur) == Ok::<Seq<u8>, CodecError>(cur.take(8) + rest));
                    assert(pre + (cur.take(8) + rest) =~= out@ + rest);
                }
            }
            i += 9;
        } else if marker < 0xF7 {
            assert(dec_bytes(cur) == Err::<Seq<u8>, CodecError>(CodecError::KeyPadding));
            return Err(CodecError::KeyPadding);
        } else if i + 9 != len {
            assert(cur.len() > 9);
            assert(dec_bytes(cur) == Err::<Seq<u8>, CodecError>(CodecError::KeyPadding));
            return Err(CodecError::KeyPadding);
        } else {
            let d = (marker - 0xF7) as usize;
            assert(d < 8);
            assert(cur.len() == 9);
            let mut p: usize = d;
            while p < 8
                invariant
                    d <= p <= 8,
                    d < 8,
                    i + 9 == len,
                    len == data.len(),
                    cur == data@.skip(i as int),
                    cur.len() == 9,
                    cur[8] == 0xF7 + d,
                    forall|j: int| d <= j < p ==> #[trigger] data@[i + j] == 0u8,
                    forall|er: CodecError|
                        dec_bytes(cur) == Err::<Seq<u8>, CodecError>(er)
                            ==> dec_bytes(data@) == Err::<Seq<u8>, CodecError>(er),
                decreases 8 - p,
            {
                if data[i + p] != 0 {
                    proof {
                        assert(cur.subrange(d as int, 8)[p - d] == data@[i + p]);
                        assert(cur.subrange(d as int, 8) != zeros((8 - d) as nat)) by {
                            assert(zeros((8 - d) as nat)[p - d] == 0u8);
                        }
                        assert(dec_bytes(cur) == Err::<Seq<u8>, CodecError>(
                            CodecError::KeyPadding));
                    }
                    return Err(CodecError::KeyPadding);
                }
                p += 1;
            }
            let ghost pre = out@;
            out.extend_from_slice(&data[i..i + d]);
            proof {
                assert forall|k: int| 0 <= k < 8 - d implies cur.subrange(d as int, 8)[k]
                    == 0u8 by {
                    assert(data@[i + (d + k)] == 0u8);
                }
                assert(cur.subrange(d as int, 8) =~= zeros((8 - d) as nat));
                assert(cur.take(d as int) =~= data@.subrange(i as int, i + d));
                assert(dec_bytes(cur) == Ok::<Seq<u8>, CodecError>(cur.take(d as int)));
                assert(out@ =~= pre + cur.take(d as int));
            }
            return Ok(out);
        }
    }
}

/// The big-endian byte representation of a 64-bit value.
pub open spec fn u64_be_bytes(v: u64) -> Seq<u8> {
    seq![
        (v >> 56) as u8,
        (v >> 48) as u8,
        (v >> 40) as u8,
        (v >> 32) as u8,
        (v >> 24) as u8,
        (v >> 16) as u8,
        (v >> 8) as u8,
        v as u8,
    ]
}

/// The 64-bit value represented by eight big-endian bytes.
pub open spec fn u64_from_be(b: Seq<u8>) -> u64
    recommends
        b.len() == 8,
{
    (((b[0] as u64) << 56) | ((b[1] as u64) << 48) | ((b[2] as u64) << 40)
        | ((b[3] as u64) << 32) | ((b[4] as u64) << 24) | ((b[5] as u64) << 16)
        | ((b[6] as u64) << 8) | (b[7] as u64)) as u64
}

/// The eight-byte suffix that encodes a timestamp in descending order:
/// the big-endian bytes of the bitwise complement.
pub open spec fn ts_suffix(v: u64) -> Seq<u8> {
    u64_be_bytes(!v)
}

/// The timestamp encoded by a descending eight-byte suffix.
pub open spec fn ts_of_suffix(b: Seq<u8>) -> u64
    recommends
        b.len() == 8,
{
    !u64_from_be(b)
}

/// Reading eight big-endian bytes back gives the value they were made from.
pub proof fn lemma_u64_be_roundtrip(v: u64)
    ensures
        u64_from_be(u64_be_bytes(v)) == v,
{
    let b = u64_be_bytes(v);
    assert(((((v >> 56) as u8 as u64) << 56) | (((v >> 48) as u8 as u64) << 48)
        | (((v >> 40) as u8 as u64) << 40) | (((v >> 32) as u8 as u64) << 32)
        | (((v >> 24) as u8 as u64) << 24) | (((v >> 16) as u8 as u64) << 16)
        | (((v >> 8) as u8 as u64) << 8) | ((v as u8) as u64)) == v) by (bit_vector);
}

/// The descending timestamp suffix decodes to the timestamp it encodes.
pub proof fn lemma_ts_suffix_roundtrip(v: u64)
    ensures
        ts_of_suffix(ts_suffix(v)) == v,
{
    lemma_u64_be_roundtrip(!v);
    assert(!(!v) == v) by (bit_vector);
}

/// Appends the big-endian eight-byte encoding of `v`.
pub fn encode_u64(buf: &mut Vec<u8>, v: u64)
    ensures
        final(buf)@ == old(buf)@ + u64_be_bytes(v),
{
    let ghost pre = buf@;
    buf.push(#[verifier::truncate] ((v >> 56) as u8));
    buf.push(#[verifier::truncate] ((v >> 48) as u8));
    buf.push(#[verifier::truncate] ((v >> 40) as u8));
    buf.push(#[verifier::truncate] ((v >> 32) as u8));
    buf.push(#[verifier::truncate] ((v >> 24) as u8));
    buf.push(#[verifier::truncate] ((v >> 16) as u8));
    buf.push(#[verifier::truncate] ((v >> 8) as u8));
    buf.push(#[verifier::truncate] (v as u8));
    proof {
        assert(buf@ =~= pre + u64_be_bytes(v));
    }
}

/// Reads eight big-endian bytes.
pub fn decode_u64(b: &[u8]) -> (r: u64)
    requires
        b@.len() == 8,
    ensures
        r == u64_from_be(b@),
{
    ((b[0] as u64) << 56) | ((b[1] as u64) << 48) | ((b[2] as u64) << 40)
        | ((b[3] as u64) << 32) | ((b[4] as u64) << 24) | ((b[5] as u64) << 16)
        | ((b[6] as u64) << 8) | (b[7] as u64)
}

/// Appends the descending eight-byte encoding of `v`.
pub fn encode_u64_desc(buf: &mut Vec<u8>, v: u64)
    ensures
        final(buf)@ == old(buf)@ + ts_suffix(v),
{
    let n = !v;
    let ghost pre = buf@;
    buf.push(#[verifier::truncate] ((n >> 56) as u8));
    buf.push(#[verifier::truncate] ((n >> 48) as u8));
    buf.push(#[verifier::truncate] ((n >> 40) as u8));
    buf.push(#[verifier::truncate] ((n >> 32) as u8));
    buf.push(#[verifier::truncate] ((n >> 24) as u8));
    buf.push(#[verifier::truncate] ((n >> 16) as u8));
    buf.push(#[verifier::truncate] ((n >> 8) as u8));
    buf.push(#[verifier::truncate] (n as u8));
    proof {
        assert(buf@ =~= pre + ts_suffix(v));
    }
}

/// Reads the descending eight-byte timestamp encoding.
pub fn decode_u64_desc(b: &[u8]) -> (r: u64)
    requires
        b@.len() == 8,
    ensures
        r == ts_of_suffix(b@),
{
    let x: u64 = ((b[0] as u64) << 56) | ((b[1] as u64) << 48) | ((b[2] as u64) << 40)
        | ((b[3] as u64) << 32) | ((b[4] as u64) << 24) | ((b[5] as u64) << 16)
        | ((b[6] as u64) << 8) | (b[7] as u64);
    !x
}

} // verus!
