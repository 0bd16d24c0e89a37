//! The PNG container: the fixed signature followed by an ordered chunk
//! sequence.

use crate::chunk::{spec_chunk_bytes, spec_parse_chunk, wf_rec, Chunk, ChunkRec};
use crate::chunk::lemma_chunk_round_trip_prefix;
use crate::PngError;
use vstd::prelude::*;
use vstd::string::StringSliceAdditionalSpecFns;

verus! {

/// The fixed 8-byte PNG signature.
pub open spec fn spec_signature() -> Seq<u8> {
    seq![137u8, 80u8, 78u8, 71u8, 13u8, 10u8, 26u8, 10u8]
}

/// The chunk records of a chunk sequence, in order.
pub open spec fn chunk_recs(cs: Seq<Chunk>) -> Seq<ChunkRec> {
    cs.map(|i: int, c: Chunk| c.rec())
}

/// The encodings of a sequence of chunk records, concatenated in order.
pub open spec fn spec_chunks_bytes(recs: Seq<ChunkRec>) -> Seq<u8>
    decreases recs.len(),
{
    if recs.len() == 0 {
        Seq::<u8>::empty()
    } else {
        spec_chunk_bytes(recs[0]) + spec_chunks_bytes(recs.drop_first())
    }
}

/// The full encoding of a PNG: the signature, then every chunk in order.
pub open spec fn spec_png_bytes(recs: Seq<ChunkRec>) -> Seq<u8> {
    spec_signature() + spec_chunks_bytes(recs)
}

/// Decoding chunks back-to-back until the buffer is exhausted; any chunk-level
/// failure aborts the whole parse.
pub open spec fn spec_parse_chunks(bytes: Seq<u8>) -> Result<Seq<ChunkRec>, PngError>
    decreases bytes.len(),
{
    if bytes.len() == 0 {
        Ok(Seq::<ChunkRec>::empty())
    } else {
        match spec_parse_chunk(bytes) {
            Err(e) => Err(e),
            Ok(r) => match spec_parse_chunks(bytes.skip(12 + r.data.len() as int)) {
                Err(e) => Err(e),
                Ok(rest) => Ok(seq![r] + rest),
            },
        }
    }
}

/// Decoding a whole PNG: the signature must come first, then chunks
/// back-to-back until the end of the buffer.
pub open spec fn spec_parse_png(bytes: Seq<u8>) -> Result<Seq<ChunkRec>, PngError> {
    if bytes.len() < 8 || bytes.subrange(0, 8) != spec_signature() {
        Err(PngError::InvalidSignature)
    } else {
        spec_parse_chunks(bytes.skip(8))
    }
}

/// Prefixing a parse result with already-decoded records.
spec fn with_prefix(pre: Seq<ChunkRec>, r: Result<Seq<ChunkRec>, PngError>) -> Result<
    Seq<ChunkRec>,
    PngError,
> {
    match r {
        Ok(s) => Ok(pre + s),
        Err(e) => Err(e),
    }
}

/// The tag of the terminator chunk, `IEND`.
pub open spec fn iend_tag() -> Seq<u8> {
    seq![73u8, 69u8, 78u8, 68u8]
}

/// The position of the first chunk whose tag equals `t`, if any.
pub open spec fn spec_find(cs: Seq<Chunk>, t: Seq<u8>) -> Option<int>
    decreases cs.len(),
{
    if cs.len() == 0 {
        None
    } else if cs[0].rec().ty == t {
        Some(0)
    } else {
        match spec_find(cs.drop_first(), t) {
            None => None,
            Some(i) => Some(i + 1),
        }
    }
}

/// What `spec_find` returns: the first matching position, or nothing when no
/// chunk matches.
pub proof fn lemma_spec_find(cs: Seq<Chunk>, t: Seq<u8>)
    ensures
        match spec_find(cs, t) {
            Some(i) => 0 <= i < cs.len() && cs[i].rec().ty == t && (forall|j: int|
                0 <= j < i ==> #[trigger] cs[j].rec().ty != t),
            None => forall|j: int| 0 <= j < cs.len() ==> #[trigger] cs[j].rec().ty != t,
        },
    decreases cs.len(),
{
    if cs.len() > 0 && cs[0].rec().ty != t {
        lemma_spec_find(cs.drop_first(), t);
        assert(forall|j: int|
            1 <= j < cs.len() ==> #[trigger] cs[j].rec().ty == cs.drop_first()[j - 1].rec().ty);
    }
}

/// An ordered PNG file: the fixed signature, then the chunk sequence in
/// on-disk order.
#[derive(Debug)]
pub struct Png {
    chunks: Vec<Chunk>,
}

impl Png {
    /// The chunk sequence, in order.
    pub closed spec fn spec_chunks(&self) -> Seq<Chunk> {
        self.chunks@
    }

    /// The chunk records, in order.
    pub open spec fn recs(&self) -> Seq<ChunkRec> {
        chunk_recs(self.spec_chunks())
    }

    /// The fixed 8-byte signature every PNG starts with.
    pub fn signature() -> (r: [u8; 8])
        ensures
            r@ == spec_signature(),
    {
        let r = [137u8, 80u8, 78u8, 71u8, 13u8, 10u8, 26u8, 10u8];
        proof {
            assert(r@ =~= spec_signature());
        }
        r
    }

    /// Pairs the signature with the given chunk sequence, preserving order.
    pub fn from_chunks(chunks: Vec<Chunk>) -> (r: Png)
        ensures
            r.spec_chunks() == chunks@,
    {
        Png { chunks }
    }

    /// The full chunk sequence, in order.
    pub fn chunks(&self) -> (r: &[Chunk])
        ensures
            r@ == self.spec_chunks(),
    {
        self.chunks.as_slice()
    }

    /// Inserts a chunk at the end of the sequence; no uniqueness or
    /// terminator rule is enforced here.
    pub fn append_chunk(&mut self, chunk: Chunk)
        ensures
            final(self).spec_chunks() == old(self).spec_chunks().push(chunk),
    {
        self.chunks.push(chunk);
    }

    /// Decodes a whole PNG buffer: the signature, then chunks back-to-back
    /// until the buffer is exhausted.
    pub fn parse(bytes: &[u8]) -> (r: Result<Png, PngError>)
        ensures
            match r {
                Ok(png) => spec_parse_png(bytes@) == Ok::<Seq<ChunkRec>, PngError>(png.recs()),
                Err(e) => spec_parse_png(bytes@) == Err::<Seq<ChunkRec>, PngError>(e),
            },
    {
        if bytes.len() < 8 {
            return Err(PngError::InvalidSignature);
        }
        let sig = Png::signature();
        let mut k: usize = 0;
        while k < 8
            invariant
                0 <= k <= 8,
                bytes@.len() >= 8,
                sig@ == spec_signature(),
                forall|j: int| 0 <= j < k ==> bytes@[j] == spec_signature()[j],
            decreases 8 - k,
        {
            if bytes[k] != sig[k] {
                proof {
                    assert(bytes@.subrange(0, 8)[k as int] != spec_signature()[k as int]);
                }
                return Err(PngError::InvalidSignature);
            }
            k += 1;
        }
        proof {
            assert(bytes@.subrange(0, 8) =~= spec_signature());
        }
        let ghost tail = bytes@.skip(8);
        let mut offset: usize = 8;
        let mut chunks: Vec<Chunk> = Vec::new();
        while offset < bytes.len()
            invariant
                8 <= offset <= bytes@.len(),
                tail == bytes@.skip(8),
                bytes@.subrange(0, 8) == spec_signature(),
                spec_parse_chunks(tail) == with_prefix(
                    chunk_recs(chunks@),
                    spec_parse_chunks(bytes@.skip(offset as int)),
                ),
            decreases bytes@.len() - offset,
        {
            let suffix = &bytes[offset..bytes.len()];
            proof {
                assert(suffix@ =~= bytes@.skip(offset as int));
            }
            match Chunk::parse(suffix) {
                Err(e) => {
                    proof {
                        assert(bytes@.skip(offset as int).len() > 0);
                        assert(spec_parse_chunks(bytes@.skip(offset as int)) == Err::<
                            Seq<ChunkRec>,
                            PngError,
                        >(e));
                    }
                    return Err(e);
                },
                Ok(c) => {
                    proof {
                        use_type_invariant(&c);
                    }
                    let dlen = c.length() as usize;
                    proof {
                        assert(suffix@.len() >= 12 + dlen) by {
                            assert(spec_parse_chunk(suffix@) matches Ok(r) && r.data.len()
                                == dlen);
                        }
                        lemma_parse_chunks_step(bytes@.skip(offset as int), c.rec());
                        assert(bytes@.skip(offset as int).skip(12 + dlen as int) =~= bytes@.skip(
                            offset as int + 12 + dlen as int,
                        ));
                        lemma_with_prefix_assoc(
                            chunk_recs(chunks@),
                            seq![c.rec()],
                            spec_parse_chunks(bytes@.skip(offset as int + 12 + dlen as int)),
                        );
                        assert(chunk_recs(chunks@.push(c)) =~= chunk_recs(chunks@) + seq![
                            c.rec(),
                        ]);
                    }
                    offset = offset + 12 + dlen;
                    chunks.push(c);
                },
            }
        }
        proof {
            assert(bytes@.skip(offset as int).len() == 0);
            assert(chunk_recs(chunks@) + Seq::<ChunkRec>::empty() =~= chunk_recs(chunks@));
        }
        Ok(Png { chunks })
    }

    /// Encodes the whole PNG: the signature, then every chunk's encoding in
    /// order.
    pub fn as_bytes(&self) -> (r: Vec<u8>)
        ensures
            r@ == spec_png_bytes(self.recs()),
    {
        let mut out: Vec<u8> = Vec::new();
        let sig = Png::signature();
        out.extend_from_slice(sig.as_slice());
        proof {
            assert(out@ =~= spec_signature());
            assert(self.recs().take(0) =~= Seq::<ChunkRec>::empty());
        }
        let mut k: usize = 0;
        while k < self.chunks.len()
            invariant
                0 <= k <= self.chunks@.len(),
                out@ == spec_signature() + spec_chunks_bytes(self.recs().take(k as int)),
            decreases self.chunks@.len() - k,
        {
            let cb = self.chunks[k].as_bytes();
            out.extend_from_slice(cb.as_slice());
            proof {
                lemma_chunks_bytes_snoc(self.recs().take(k as int), self.recs()[k as int]);
                assert(self.recs().take(k as int).push(self.recs()[k as int]) =~= self.recs()
                    .take(k as int + 1));
                assert(out@ =~= spec_signature() + spec_chunks_bytes(
                    self.recs().take(k as int + 1),
                ));
            }
            k += 1;
        }
        proof {
            assert(self.recs().take(self.chunks@.len() as int) =~= self.recs());
        }
        out
    }

    /// A view of the first chunk whose tag renders as the given text, or
    /// nothing when none matches; the container is unchanged.
    pub fn chunk_by_type(&self, tag: &str) -> (r: Option<&Chunk>)
        ensures
            match r {
                Some(c) => spec_find(self.spec_chunks(), tag.spec_bytes()) matches Some(i) && *c
                    == self.spec_chunks()[i],
                None => spec_find(self.spec_chunks(), tag.spec_bytes()) is None,
            },
    {
        let t = tag.as_bytes();
        match self.find_index(t) {
            Some(k) => Some(&self.chunks[k]),
            None => None,
        }
    }

    /// The position of the first chunk whose tag equals the given bytes.
    fn find_index(&self, t: &[u8]) -> (r: Option<usize>)
        ensures
            match r {
                Some(k) => k < self.spec_chunks().len() && spec_find(self.spec_chunks(), t@)
                    == Some(k as int),
                None => spec_find(self.spec_chunks(), t@) is None,
            },
    {
        let mut k: usize = 0;
        while k < self.chunks.len()
            invariant
                0 <= k <= self.chunks@.len(),
                forall|j: int| 0 <= j < k ==> #[trigger] self.chunks@[j].rec().ty != t@,
            decreases self.chunks@.len() - k,
        {
            let tb = self.chunks[k].chunk_type().bytes();
            if bytes_eq(tb.as_slice(), t) {
                proof {
                    lemma_spec_find(self.spec_chunks(), t@);
                    if spec_find(self.spec_chunks(), t@) is None {
                        assert(self.spec_chunks()[k as int].rec().ty != t@);
                    }
                }
                return Some(k);
            }
            k += 1;
        }
        proof {
            lemma_spec_find(self.spec_chunks(), t@);
            match spec_find(self.spec_chunks(), t@) {
                Some(i) => {
                    assert(self.spec_chunks()[i].rec().ty != t@);
                },
                None => {},
            }
        }
        None
    }

    /// Removes and returns the first chunk whose tag renders as the given
    /// text; fails, leaving the container unchanged, when none matches.
    pub fn remove_chunk(&mut self, tag: &str) -> (r: Result<Chunk, PngError>)
        ensures
            match r {
                Ok(c) => spec_find(old(self).spec_chunks(), tag.spec_bytes()) matches Some(i) && c
                    == old(self).spec_chunks()[i] && final(self).spec_chunks() == old(
                    self,
                ).spec_chunks().remove(i),
                Err(e) => e == PngError::ChunkNotFound && spec_find(
                    old(self).spec_chunks(),
                    tag.spec_bytes(),
                ) is None && final(self).spec_chunks() == old(self).spec_chunks(),
            },
    {
        let t = tag.as_bytes();
        match self.find_index(t) {
            Some(k) => Ok(self.chunks.remove(k)),
            None => Err(PngError::ChunkNotFound),
        }
    }

    /// Embeds a chunk while keeping the terminator convention: the first
    /// `IEND` chunk, if any, is taken out, the new chunk appended, and the
    /// terminator put back at the end. A terminator that was last stays last.
    pub fn embed_chunk(&mut self, chunk: Chunk)
        ensures
            match spec_find(old(self).spec_chunks(), iend_tag()) {
                Some(i) => final(self).spec_chunks() == old(self).spec_chunks().remove(i).push(
                    chunk,
                ).push(old(self).spec_chunks()[i]),
                None => final(self).spec_chunks() == old(self).spec_chunks().push(chunk),
            },
            old(self).spec_chunks().len() > 0 && old(self).spec_chunks().last().rec().ty
                == iend_tag() ==> final(self).spec_chunks().last().rec().ty == iend_tag(),
    {
        proof {
            lemma_iend_text();
            lemma_spec_find(old(self).spec_chunks(), iend_tag());
            if old(self).spec_chunks().len() > 0 && old(self).spec_chunks().last().rec().ty
                == iend_tag() {
                if spec_find(old(self).spec_chunks(), iend_tag()) is None {
                    assert(old(self).spec_chunks()[old(self).spec_chunks().len() - 1].rec().ty
                        != iend_tag());
                }
            }
        }
        match self.remove_chunk("IEND") {
            Ok(end) => {
                self.append_chunk(chunk);
                self.append_chunk(end);
            },
            Err(_) => {
                self.append_chunk(chunk);
            },
        }
    }
}

/// The text `"IEND"` encodes to the terminator tag bytes.
proof fn lemma_iend_text()
    ensures
        "IEND"@.len() == 4,
        "IEND".spec_bytes() == iend_tag(),
{
    reveal_strlit("IEND");
    let chars = "IEND"@;
    assert(vstd::utf8::is_ascii_chars(chars)) by {
        assert forall|i: int| 0 <= i < chars.len() implies '\0' <= #[trigger] chars[i]
            <= '\u{7f}' by {
            if i == 0 {
            } else if i == 1 {
            } else if i == 2 {
            } else {
                assert(i == 3);
            }
        }
    }
    vstd::utf8::is_ascii_chars_encode_utf8(chars);
    assert("IEND".spec_bytes() =~= iend_tag());
}

/// Whether two byte slices hold the same bytes.
fn bytes_eq(a: &[u8], b: &[u8]) -> (r: bool)
    ensures
        r == (a@ == b@),
{
    if a.len() != b.len() {
        return false;
    }
    let mut k: usize = 0;
    while k < a.len()
        invariant
            0 <= k <= a@.len(),
            a@.len() == b@.len(),
            forall|j: int| 0 <= j < k ==> a@[j] == b@[j],
        decreases a@.len() - k,
    {
        if a[k] != b[k] {
            return false;
        }
        k += 1;
    }
    proof {
        assert(a@ =~= b@);
    }
    true
}

/// Appending one record appends its encoding.
proof fn lemma_chunks_bytes_snoc(recs: Seq<ChunkRec>, r: ChunkRec)
    ensures
        spec_chunks_bytes(recs.push(r)) == spec_chunks_bytes(recs) + spec_chunk_bytes(r),
    decreases recs.len(),
{
    let s = recs.push(r);
    if recs.len() == 0 {
        assert(s[0] == r);
        assert(s.drop_first() =~= Seq::<ChunkRec>::empty());
        assert(spec_chunks_bytes(s) == spec_chunk_bytes(r) + spec_chunks_bytes(
            Seq::<ChunkRec>::empty(),
        ));
        assert(spec_chunk_bytes(r) + Seq::<u8>::empty() =~= Seq::<u8>::empty() + spec_chunk_bytes(
            r,
        ));
        assert(spec_chunks_bytes(recs) == Seq::<u8>::empty());
    } else {
        assert(s[0] == recs[0]);
        assert(s.drop_first() =~= recs.drop_first().push(r));
        lemma_chunks_bytes_snoc(recs.drop_first(), r);
        assert(spec_chunks_bytes(s) == spec_chunk_bytes(recs[0]) + (spec_chunks_bytes(
            recs.drop_first(),
        ) + spec_chunk_bytes(r)));
        assert(spec_chunk_bytes(recs[0]) + (spec_chunks_bytes(recs.drop_first())
            + spec_chunk_bytes(r)) =~= (spec_chunk_bytes(recs[0]) + spec_chunks_bytes(
            recs.drop_first(),
        )) + spec_chunk_bytes(r));
        assert(spec_chunks_bytes(recs) == spec_chunk_bytes(recs[0]) + spec_chunks_bytes(
            recs.drop_first(),
        ));
    }
}

/// Decoding the concatenated encodings of well-formed chunk records yields
/// exactly those records, in order.
#[verifier::rlimit(50)]
proof fn lemma_chunks_round_trip(recs: Seq<ChunkRec>)
    requires
        forall|i: int| 0 <= i < recs.len() ==> wf_rec(#[trigger] recs[i]),
    ensures
        spec_parse_chunks(spec_chunks_bytes(recs)) == Ok::<Seq<ChunkRec>, PngError>(recs),
    decreases recs.len(),
{
    if recs.len() > 0 {
        let r = recs[0];
        let rest = recs.drop_first();
        let rest_bytes = spec_chunks_bytes(rest);
        let bytes = spec_chunk_bytes(r) + rest_bytes;
        let dlen = r.data.len() as int;
        assert(spec_chunks_bytes(recs) == bytes);
        lemma_chunk_round_trip_prefix(r, rest_bytes);
        assert(bytes.skip(12 + dlen) =~= rest_bytes) by {
            assert(spec_chunk_bytes(r).len() == 12 + dlen);
        }
        assert(forall|i: int| 0 <= i < rest.len() ==> wf_rec(#[trigger] rest[i])) by {
            assert forall|i: int| 0 <= i < rest.len() implies wf_rec(#[trigger] rest[i]) by {
                assert(rest[i] == recs[i + 1]);
            }
        }
        lemma_chunks_round_trip(rest);
        assert(spec_parse_chunks(bytes) == Ok::<Seq<ChunkRec>, PngError>(recs)) by {
            assert(spec_parse_chunk(bytes) == Ok::<ChunkRec, PngError>(r));
            assert(spec_parse_chunks(bytes.skip(12 + dlen)) == Ok::<Seq<ChunkRec>, PngError>(
                rest,
            ));
            assert(seq![r] + rest =~= recs);
        }
    } else {
        assert(recs =~= Seq::<ChunkRec>::empty());
    }
}

/// Law: for any PNG built from the signature plus a sequence of valid chunk
/// records, parsing the encoding reproduces an equal record sequence in the
/// same order: `parse(as_bytes(png))` gives back exactly the records of
/// `png`. Every chunk held by a `Png` satisfies `wf_rec` by construction.
pub proof fn lemma_png_round_trip(recs: Seq<ChunkRec>)
    requires
        forall|i: int| 0 <= i < recs.len() ==> wf_rec(#[trigger] recs[i]),
    ensures
        spec_parse_png(spec_png_bytes(recs)) == Ok::<Seq<ChunkRec>, PngError>(recs),
{
    let bytes = spec_png_bytes(recs);
    assert(bytes.subrange(0, 8) =~= spec_signature());
    assert(bytes.skip(8) =~= spec_chunks_bytes(recs));
    lemma_chunks_round_trip(recs);
}

/// Unfolds one step of `spec_parse_chunks` when the front chunk decodes.
proof fn lemma_parse_chunks_step(bytes: Seq<u8>, r: ChunkRec)
    requires
        bytes.len() > 0,
        spec_parse_chunk(bytes) == Ok::<ChunkRec, PngError>(r),
    ensures
        spec_parse_chunks(bytes) == with_prefix(
            seq![r],
            spec_parse_chunks(bytes.skip(12 + r.data.len() as int)),
        ),
{
}

/// Prefixing twice is prefixing with the concatenation.
proof fn lemma_with_prefix_assoc(a: Seq<ChunkRec>, b: Seq<ChunkRec>, r: Result<
    Seq<ChunkRec>,
    PngError,
>)
    ensures
        with_prefix(a, with_prefix(b, r)) == with_prefix(a + b, r),
{
    match r {
        Ok(s) => {
            assert(a + (b + s) =~= (a + b) + s);
        },
        Err(_) => {},
    }
}

} // verus!

