//! One PNG chunk record: length, type tag, payload, and CRC-32 checksum,
//! together with its byte-level codec.

use crate::chunk_type::{is_tag, ChunkType};
use crate::PngError;
use vstd::prelude::*;

verus! {

/// The four big-endian bytes of a 32-bit value.
pub open spec fn be32(v: u32) -> Seq<u8> {
    seq![
        ((v >> 24) & 0xff) as u8,
        ((v >> 16) & 0xff) as u8,
        ((v >> 8) & 0xff) as u8,
        (v & 0xff) as u8,
    ]
}

/// The 32-bit value read from four big-endian bytes.
pub open spec fn be32_val(s: Seq<u8>) -> u32
    recommends
        s.len() == 4,
{
    ((s[0] as u32) << 24) | ((s[1] as u32) << 16) | ((s[2] as u32) << 8) | (s[3] as u32)
}

/// Reading back the four big-endian bytes of a value gives the value.
pub proof fn lemma_be32_val_of_be32(v: u32)
    ensures
        be32_val(be32(v)) == v,
{
    let b0 = ((v >> 24) & 0xff) as u8;
    let b1 = ((v >> 16) & 0xff) as u8;
    let b2 = ((v >> 8) & 0xff) as u8;
    let b3 = (v & 0xff) as u8;
    assert((((b0 as u32) << 24) | ((b1 as u32) << 16) | ((b2 as u32) << 8) | (b3 as u32)) == v)
        by (bit_vector)
        requires
            b0 == ((v >> 24) & 0xff) as u8,
            b1 == ((v >> 16) & 0xff) as u8,
            b2 == ((v >> 8) & 0xff) as u8,
            b3 == (v & 0xff) as u8,
    ;
}

/// Writing the value read from four bytes reproduces those bytes; so two
/// distinct 4-byte fields never decode to the same value.
pub proof fn lemma_be32_of_be32_val(s: Seq<u8>)
    requires
        s.len() == 4,
    ensures
        be32(be32_val(s)) == s,
{
    let a = s[0];
    let b = s[1];
    let c = s[2];
    let d = s[3];
    let v = be32_val(s);
    assert(((v >> 24) & 0xff) as u8 == a && ((v >> 16) & 0xff) as u8 == b && ((v >> 8) & 0xff)
        as u8 == c && (v & 0xff) as u8 == d)
        by (bit_vector)
        requires
            v == ((a as u32) << 24) | ((b as u32) << 16) | ((c as u32) << 8) | (d as u32),
    ;
    assert(be32(v) =~= s);
}

/// Reads a `u32` from four big-endian bytes.
pub fn to_u32(bytes: [u8; 4]) -> (r: u32)
    ensures
        r == be32_val(bytes@),
{
    ((bytes[0] as u32) << 24) | ((bytes[1] as u32) << 16) | ((bytes[2] as u32) << 8) | (bytes[3]
        as u32)
}

/// The CRC-32 checksum, in the reflected variant used by PNG, of a byte
/// sequence.
pub uninterp spec fn png_crc(bytes: Seq<u8>) -> u32;

/// Relies on `crc::Crc::<u32>::checksum` with the `CRC_32_ISO_HDLC` algorithm
/// (polynomial 0x04C11DB7, initial value 0xFFFFFFFF, input and output
/// reflected, final xor 0xFFFFFFFF): the checksum is a function of the input
/// bytes alone.
#[verifier::external_body]
fn crc32_checksum(bytes: &[u8]) -> (r: u32)
    ensures
        r == png_crc(bytes@),
{
    crc::Crc::<u32>::new(&crc::CRC_32_ISO_HDLC).checksum(bytes)
}

/// The mathematical content of one chunk: its tag bytes, payload bytes, and
/// stored crc.
#[verifier::ext_equal]
pub struct ChunkRec {
    pub ty: Seq<u8>,
    pub data: Seq<u8>,
    pub crc: u32,
}

/// A record is well formed when its tag is valid, its payload length fits the
/// 32-bit length field, and its crc is the checksum of tag plus payload.
pub open spec fn wf_rec(r: ChunkRec) -> bool {
    &&& is_tag(r.ty)
    &&& r.data.len() <= 0xffffffff
    &&& r.crc == png_crc(r.ty + r.data)
}

/// The on-disk layout of one chunk: big-endian length, four tag bytes, the
/// payload, then the big-endian crc.
pub open spec fn spec_chunk_bytes(r: ChunkRec) -> Seq<u8> {
    be32(r.data.len() as u32) + r.ty + r.data + be32(r.crc)
}

/// Decoding one chunk from the front of a buffer; trailing bytes are ignored.
/// A short buffer is rejected before the tag, the tag before the payload
/// bounds, and the payload bounds before the checksum.
pub open spec fn spec_parse_chunk(bytes: Seq<u8>) -> Result<ChunkRec, PngError> {
    if bytes.len() < 8 {
        Err(PngError::TruncatedInput)
    } else {
        let n = be32_val(bytes.subrange(0, 4)) as int;
        let ty = bytes.subrange(4, 8);
        if !is_tag(ty) {
            Err(PngError::InvalidTag)
        } else if bytes.len() < 12 + n {
            Err(PngError::TruncatedInput)
        } else {
            let data = bytes.subrange(8, 8 + n);
            let crc = be32_val(bytes.subrange(8 + n, 12 + n));
            if crc != png_crc(ty + data) {
                Err(PngError::ChecksumMismatch)
            } else {
                Ok(ChunkRec { ty, data, crc })
            }
        }
    }
}

/// One PNG chunk. The stored crc always equals the checksum of the tag bytes
/// followed by the payload, and the stored length always equals the payload
/// length.
#[derive(Debug)]
pub struct Chunk {
    length: u32,
    chunk_type: ChunkType,
    chunk_data: Vec<u8>,
    crc: u32,
}

impl Clone for Chunk {
    fn clone(&self) -> (r: Self)
        ensures
            r.rec() == self.rec(),
    {
        proof {
            use_type_invariant(self);
        }
        Chunk {
            length: self.length,
            chunk_type: self.chunk_type.clone(),
            chunk_data: vstd::slice::slice_to_vec(self.chunk_data.as_slice()),
            crc: self.crc,
        }
    }
}

impl Chunk {
    /// The mathematical content of this chunk.
    pub closed spec fn rec(&self) -> ChunkRec {
        ChunkRec { ty: self.chunk_type.spec_bytes(), data: self.chunk_data@, crc: self.crc }
    }

    /// The stored length field.
    pub closed spec fn spec_length(&self) -> u32 {
        self.length
    }

    #[verifier::type_invariant]
    pub open spec fn wf(&self) -> bool {
        wf_rec(self.rec()) && self.spec_length() == self.rec().data.len()
    }

    /// Builds a chunk from a tag and a payload; the length and crc fields are
    /// derived, never supplied.
    pub fn new(chunk_type: ChunkType, chunk_data: Vec<u8>) -> (c: Chunk)
        requires
            chunk_data@.len() <= 0xffffffff,
        ensures
            c.rec() == (ChunkRec {
                ty: chunk_type.spec_bytes(),
                data: chunk_data@,
                crc: png_crc(chunk_type.spec_bytes() + chunk_data@),
            }),
    {
        proof {
            use_type_invariant(&chunk_type);
        }
        let length = chunk_data.len() as u32;
        let crc = crc_checksum(&chunk_type, &chunk_data);
        let c = Chunk { length, chunk_type, chunk_data, crc };
        proof {
            assert(c.rec() =~= (ChunkRec {
                ty: c.rec().ty,
                data: c.rec().data,
                crc: png_crc(c.rec().ty + c.rec().data),
            }));
        }
        c
    }

    /// The payload length in bytes.
    pub fn length(&self) -> (r: u32)
        ensures
            r == self.rec().data.len(),
    {
        proof {
            use_type_invariant(self);
        }
        self.length
    }

    /// The chunk's type tag.
    pub fn chunk_type(&self) -> (r: &ChunkType)
        ensures
            r.spec_bytes() == self.rec().ty,
    {
        &self.chunk_type
    }

    /// The payload bytes.
    pub fn data(&self) -> (r: &[u8])
        ensures
            r@ == self.rec().data,
    {
        self.chunk_data.as_slice()
    }

    /// The stored crc.
    pub fn crc(&self) -> (r: u32)
        ensures
            r == self.rec().crc,
    {
        self.crc
    }

    /// The payload decoded as UTF-8 text; fails exactly when the payload is
    /// not valid UTF-8.
    pub fn data_as_string(&self) -> (r: Result<String, PngError>)
        ensures
            match r {
                Ok(s) => vstd::utf8::valid_utf8(self.rec().data) && s@ == vstd::utf8::decode_utf8(
                    self.rec().data,
                ),
                Err(e) => !vstd::utf8::valid_utf8(self.rec().data) && e == PngError::InvalidUtf8,
            },
    {
        crate::utf8_to_text(vstd::slice::slice_to_vec(self.chunk_data.as_slice()))
    }

    /// The chunk encoded in its on-disk layout.
    pub fn as_bytes(&self) -> (r: Vec<u8>)
        ensures
            r@ == spec_chunk_bytes(self.rec()),
    {
        proof {
            use_type_invariant(self);
        }
        let mut out: Vec<u8> = Vec::new();
        push_be32(&mut out, self.length);
        let tb = self.chunk_type.bytes();
        out.extend_from_slice(tb.as_slice());
        out.extend_from_slice(self.chunk_data.as_slice());
        push_be32(&mut out, self.crc);
        proof {
            assert(out@ =~= spec_chunk_bytes(self.rec()));
        }
        out
    }

    /// Decodes one chunk from the front of a buffer, recomputing and checking
    /// the checksum; trailing bytes are ignored.
    pub fn parse(bytes: &[u8]) -> (r: Result<Chunk, PngError>)
        ensures
            match r {
                Ok(c) => spec_parse_chunk(bytes@) == Ok::<ChunkRec, PngError>(c.rec()),
                Err(e) => spec_parse_chunk(bytes@) == Err::<ChunkRec, PngError>(e),
            },
    {
        if bytes.len() < 8 {
            return Err(PngError::TruncatedInput);
        }
        let length = read_be32(bytes, 0);
        proof {
            assert(bytes@.subrange(0, 4) =~= bytes@.subrange(0int, 0int + 4));
        }
        let ty_arr = [bytes[4], bytes[5], bytes[6], bytes[7]];
        proof {
            assert(ty_arr@ =~= bytes@.subrange(4, 8));
        }
        let chunk_type = match ChunkType::try_new(ty_arr) {
            Ok(ct) => ct,
            Err(e) => {
                return Err(e);
            },
        };
        let n = length as usize;
        let rem = bytes.len() - 8;
        if rem < 4 || rem - 4 < n {
            return Err(PngError::TruncatedInput);
        }
        let chunk_data = vstd::slice::slice_to_vec(&bytes[8..8 + n]);
        let crc = read_be32(bytes, 8 + n);
        let computed = crc_checksum(&chunk_type, &chunk_data);
        if crc != computed {
            return Err(PngError::ChecksumMismatch);
        }
        let c = Chunk { length, chunk_type, chunk_data, crc };
        proof {
            assert(spec_parse_chunk(bytes@) == Ok::<ChunkRec, PngError>(c.rec())) by {
                assert(spec_parse_chunk(bytes@) matches Ok(r) && r =~= c.rec());
            }
        }
        Ok(c)
    }
}

/// The checksum over the tag bytes followed by the payload bytes.
fn crc_checksum(chunk_type: &ChunkType, data: &Vec<u8>) -> (r: u32)
    ensures
        r == png_crc(chunk_type.spec_bytes() + data@),
{
    let tb = chunk_type.bytes();
    let mut buf: Vec<u8> = Vec::new();
    buf.extend_from_slice(tb.as_slice());
    buf.extend_from_slice(data.as_slice());
    proof {
        assert(buf@ =~= chunk_type.spec_bytes() + data@);
    }
    crc32_checksum(buf.as_slice())
}

/// Appends the four big-endian bytes of a value.
fn push_be32(out: &mut Vec<u8>, v: u32)
    ensures
        final(out)@ == old(out)@ + be32(v),
{
    assert(((v >> 24) & 0xff) < 256 && ((v >> 16) & 0xff) < 256 && ((v >> 8) & 0xff) < 256 && (v
        & 0xff) < 256) by (bit_vector);
    out.push(((v >> 24) & 0xff) as u8);
    out.push(((v >> 16) & 0xff) as u8);
    out.push(((v >> 8) & 0xff) as u8);
    out.push((v & 0xff) as u8);
    proof {
        assert(out@ =~= old(out)@ + be32(v));
    }
}

/// Reads a big-endian `u32` at an offset in a buffer.
fn read_be32(bytes: &[u8], off: usize) -> (r: u32)
    requires
        off + 4 <= bytes@.len(),
    ensures
        r == be32_val(bytes@.subrange(off as int, off as int + 4)),
{
    let r = to_u32([bytes[off], bytes[off + 1], bytes[off + 2], bytes[off + 3]]);
    proof {
        let s = bytes@.subrange(off as int, off as int + 4);
        assert(s[0] == bytes@[off as int] && s[1] == bytes@[off as int + 1] && s[2] == bytes@[off
            as int + 2] && s[3] == bytes@[off as int + 3]);
    }
    r
}

/// Law: parsing the serialization of a well-formed chunk record, with any
/// trailing bytes, yields the record back and consumes exactly its encoding.
pub proof fn lemma_chunk_round_trip_prefix(r: ChunkRec, rest: Seq<u8>)
    requires
        wf_rec(r),
    ensures
        spec_parse_chunk(spec_chunk_bytes(r) + rest) == Ok::<ChunkRec, PngError>(r),
        spec_chunk_bytes(r).len() == 12 + r.data.len(),
{
    let n32 = r.data.len() as u32;
    let bytes = spec_chunk_bytes(r) + rest;
    assert(bytes.subrange(0, 4) =~= be32(n32));
    lemma_be32_val_of_be32(n32);
    assert(bytes.subrange(4, 8) =~= r.ty);
    let n = r.data.len() as int;
    assert(bytes.subrange(8, 8 + n) =~= r.data);
    assert(bytes.subrange(8 + n, 12 + n) =~= be32(r.crc));
    lemma_be32_val_of_be32(r.crc);
    assert(spec_parse_chunk(bytes) matches Ok(p) && p =~= r);
}

/// Law: parsing the serialization of a well-formed chunk record yields the
/// record back: length, tag, payload, and crc all survive the round trip.
pub proof fn lemma_chunk_round_trip(r: ChunkRec)
    requires
        wf_rec(r),
    ensures
        spec_parse_chunk(spec_chunk_bytes(r)) == Ok::<ChunkRec, PngError>(r),
{
    lemma_chunk_round_trip_prefix(r, Seq::<u8>::empty());
    assert(spec_chunk_bytes(r) + Seq::<u8>::empty() =~= spec_chunk_bytes(r));
}

/// Law: any corruption of the stored crc field is caught. If the last four
/// bytes of a well-formed chunk's encoding are replaced by anything else —
/// in particular, by flipping a single bit — parsing fails with a checksum
/// mismatch.
pub proof fn lemma_crc_corruption_detected(r: ChunkRec, cb: Seq<u8>)
    requires
        wf_rec(r),
        cb.len() == 4,
        cb != be32(r.crc),
    ensures
        spec_parse_chunk(be32(r.data.len() as u32) + r.ty + r.data + cb) == Err::<
            ChunkRec,
            PngError,
        >(PngError::ChecksumMismatch),
{
    let n32 = r.data.len() as u32;
    let bytes = be32(n32) + r.ty + r.data + cb;
    assert(bytes.subrange(0, 4) =~= be32(n32));
    lemma_be32_val_of_be32(n32);
    assert(bytes.subrange(4, 8) =~= r.ty);
    let n = r.data.len() as int;
    assert(bytes.subrange(8, 8 + n) =~= r.data);
    assert(bytes.subrange(8 + n, 12 + n) =~= cb);
    let stored = be32_val(cb);
    assert(stored != r.crc) by {
        if stored == r.crc {
            lemma_be32_of_be32_val(cb);
            assert(cb == be32(r.crc));
        }
    }
}

} // verus!
