//! The whole-file container: an ordered sequence of records bracketed by
//! the fixed 8-byte file signature, with structural edit operations.

use crate::chunk::{
    chunk_parse_result, chunk_wf, lemma_chunk_parse_serialized, lemma_serialize_chunk_len,
    spec_render_chunk, spec_serialize_chunk, Chunk, ChunkModel,
};
use vstd::string::StringExecFns;
use crate::chunk_type::{is_valid_code, ChunkType};
use crate::codec::push_all;
use crate::error::PngError;
use vstd::prelude::*;
use vstd::slice::slice_subrange;
use vstd::utf8::encode_utf8;

verus! {

/// The fixed 8-byte file signature that every serialized container
/// begins with.
pub open spec fn spec_signature() -> Seq<u8> {
    seq![137u8, 80u8, 78u8, 71u8, 13u8, 10u8, 26u8, 10u8]
}

/// The file signature as bytes.
pub fn signature() -> (r: [u8; 8])
    ensures
        r@ == spec_signature(),
{
    let r: [u8; 8] = [137u8, 80u8, 78u8, 71u8, 13u8, 10u8, 26u8, 10u8];
    proof {
        assert(r@ =~= spec_signature());
    }
    r
}

/// What parsing a record sequence from `bytes` yields: records in
/// encounter order, each advancing the cursor by its exact serialized
/// size, until the buffer is consumed exactly; the first record failure
/// aborts the whole parse.
pub open spec fn spec_parse_chunks(bytes: Seq<u8>) -> Result<Seq<ChunkModel>, PngError>
    decreases bytes.len(),
{
    if bytes.len() == 0 {
        Ok(Seq::empty())
    } else {
        match chunk_parse_result(bytes) {
            Err(e) => Err(e),
            Ok(m) => {
                if 12 + m.length <= bytes.len() {
                    match spec_parse_chunks(bytes.skip(12 + m.length as int)) {
                        Err(e) => Err(e),
                        Ok(rest) => Ok(seq![m] + rest),
                    }
                } else {
                    // never reached: a parsed record lies within its buffer
                    Err(PngError::Truncated)
                }
            },
        }
    }
}

/// What parsing a whole buffer as a container yields: the signature check
/// first, then the record sequence read from the remainder.
pub open spec fn png_parse_result(bytes: Seq<u8>) -> Result<Seq<ChunkModel>, PngError> {
    if bytes.len() < 8 || bytes.subrange(0, 8) != spec_signature() {
        Err(PngError::BadSignature)
    } else {
        spec_parse_chunks(bytes.skip(8))
    }
}

/// The concatenation of the wire forms of a record sequence, in order.
pub open spec fn spec_serialize_chunks(ms: Seq<ChunkModel>) -> Seq<u8>
    decreases ms.len(),
{
    if ms.len() == 0 {
        Seq::empty()
    } else {
        spec_serialize_chunk(ms[0]) + spec_serialize_chunks(ms.drop_first())
    }
}

/// The wire form of a whole container: the signature, then every record.
pub open spec fn spec_serialize_png(ms: Seq<ChunkModel>) -> Seq<u8> {
    spec_signature() + spec_serialize_chunks(ms)
}

/// The index of the first record in `ms` whose type code is `code`.
pub open spec fn spec_find(ms: Seq<ChunkModel>, code: Seq<u8>) -> Option<int>
    decreases ms.len(),
{
    if ms.len() == 0 {
        None
    } else if ms[0].type_code == code {
        Some(0)
    } else {
        match spec_find(ms.drop_first(), code) {
            None => None,
            Some(i) => Some(i + 1),
        }
    }
}

/// When a record at `i` has type `code` and no earlier record does, `i`
/// is the index the lookup yields.
pub proof fn lemma_find_first(ms: Seq<ChunkModel>, code: Seq<u8>, i: int)
    requires
        0 <= i < ms.len(),
        ms[i].type_code == code,
        forall|j: int| 0 <= j < i ==> (#[trigger] ms[j]).type_code != code,
    ensures
        spec_find(ms, code) == Some(i),
    decreases ms.len(),
{
    if i > 0 {
        lemma_find_first(ms.drop_first(), code, i - 1);
    }
}

/// When no record has type `code`, the lookup yields nothing.
pub proof fn lemma_find_none(ms: Seq<ChunkModel>, code: Seq<u8>)
    requires
        forall|j: int| 0 <= j < ms.len() ==> (#[trigger] ms[j]).type_code != code,
    ensures
        spec_find(ms, code) is None,
    decreases ms.len(),
{
    if ms.len() > 0 {
        lemma_find_none(ms.drop_first(), code);
    }
}

/// A found index lies in range, names a record of the sought type, and is
/// the first such.
pub proof fn lemma_find_props(ms: Seq<ChunkModel>, code: Seq<u8>)
    ensures
        spec_find(ms, code) matches Some(i) ==> 0 <= i < ms.len() && ms[i].type_code == code && (
        forall|j: int| 0 <= j < i ==> (#[trigger] ms[j]).type_code != code),
        spec_find(ms, code) is None ==> forall|j: int|
            0 <= j < ms.len() ==> (#[trigger] ms[j]).type_code != code,
    decreases ms.len(),
{
    if ms.len() > 0 {
        let rest = ms.drop_first();
        lemma_find_props(rest, code);
        if ms[0].type_code != code {
            match spec_find(rest, code) {
                None => {
                    assert forall|j: int| 0 <= j < ms.len() implies (#[trigger] ms[j]).type_code
                        != code by {
                        if j > 0 {
                            assert(ms[j] == rest[j - 1]);
                        }
                    }
                },
                Some(i2) => {
                    assert(ms[i2 + 1] == rest[i2]);
                    assert forall|j: int| 0 <= j < i2 + 1 implies (#[trigger] ms[j]).type_code
                        != code by {
                        if j > 0 {
                            assert(ms[j] == rest[j - 1]);
                        }
                    }
                },
            }
        }
    }
}

/// The in-memory container: the ordered record sequence of one file.
/// Its view is the sequence of record models, in stored order.
#[derive(Debug)]
pub struct Png {
    chunks: Vec<Chunk>,
}

impl View for Png {
    type V = Seq<ChunkModel>;

    closed spec fn view(&self) -> Seq<ChunkModel> {
        self.chunks@.map_values(|c: Chunk| c@)
    }
}

impl Png {
    /// Parses a complete buffer: the 8-byte signature, then records until
    /// the buffer is consumed exactly.
    pub fn parse(bytes: &[u8]) -> (r: Result<Png, PngError>)
        ensures
            r matches Ok(p) ==> png_parse_result(bytes@) == Ok::<Seq<ChunkModel>, PngError>(p@),
            r matches Err(e) ==> png_parse_result(bytes@) == Err::<Seq<ChunkModel>, PngError>(e),
    {
        if bytes.len() < 8 {
            return Err(PngError::BadSignature);
        }
        let sig = signature();
        let mut i: usize = 0;
        while i < 8
            invariant
                i <= 8,
                bytes@.len() >= 8,
                sig@ == spec_signature(),
                forall|j: int| 0 <= j < i ==> bytes@[j] == spec_signature()[j],
            decreases 8 - i,
        {
            if bytes[i] != sig[i] {
                proof {
                    assert(bytes@.subrange(0, 8)[i as int] != spec_signature()[i as int]);
                }
                return Err(PngError::BadSignature);
            }
            i = i + 1;
        }
        proof {
            assert(bytes@.subrange(0, 8) =~= spec_signature());
        }
        let mut chunks: Vec<Chunk> = Vec::new();
        let mut cursor: usize = 8;
        while cursor < bytes.len()
            invariant
                8 <= cursor <= bytes@.len(),
                bytes@.subrange(0, 8) == spec_signature(),
                spec_parse_chunks(bytes@.skip(8)) == (match spec_parse_chunks(
                    bytes@.skip(cursor as int),
                ) {
                    Ok(rest) => Ok::<Seq<ChunkModel>, PngError>(
                        chunks@.map_values(|c: Chunk| c@) + rest,
                    ),
                    Err(e) => Err::<Seq<ChunkModel>, PngError>(e),
                }),
            decreases bytes@.len() - cursor,
        {
            let ghost remaining = bytes@.skip(cursor as int);
            let tail = slice_subrange(bytes, cursor, bytes.len());
            match Chunk::parse(tail) {
                Err(e) => {
                    proof {
                        assert(chunk_parse_result(remaining) == Err::<ChunkModel, PngError>(e));
                        assert(spec_parse_chunks(remaining) == Err::<Seq<ChunkModel>, PngError>(e));
                    }
                    return Err(e);
                },
                Ok(c) => {
                    proof {
                        assert(chunk_parse_result(remaining) == Ok::<ChunkModel, PngError>(c@));
                        use_type_invariant(&c);
                    }
                    let step = 12 + c.length() as usize;
                    proof {
                        assert(remaining.len() >= 12 + c@.length);
                        assert(remaining.skip(12 + c@.length as int) =~= bytes@.skip(
                            cursor as int + step as int,
                        ));
                    }
                    let ghost old_chunks = chunks@;
                    chunks.push(c);
                    proof {
                        assert(chunks@.map_values(|ch: Chunk| ch@) =~= old_chunks.map_values(
                            |ch: Chunk| ch@,
                        ).push(c@));
                        assert(forall|rest: Seq<ChunkModel>|
                            old_chunks.map_values(|ch: Chunk| ch@) + (seq![c@] + rest)
                                =~= old_chunks.map_values(|ch: Chunk| ch@).push(c@) + rest);
                    }
                    cursor = cursor + step;
                },
            }
        }
        proof {
            assert(bytes@.skip(cursor as int) =~= Seq::<u8>::empty());
            assert(chunks@.map_values(|c: Chunk| c@) + Seq::<ChunkModel>::empty() =~= chunks@
                .map_values(|c: Chunk| c@));
        }
        Ok(Png { chunks })
    }

    /// Serializes the container: the signature, then every record's wire
    /// form, in stored order. Every record of a container is well-formed,
    /// and the result says so.
    pub fn as_bytes(&self) -> (r: Vec<u8>)
        ensures
            r@ == spec_serialize_png(self@),
            forall|i: int| 0 <= i < self@.len() ==> chunk_wf(#[trigger] self@[i]),
    {
        let mut out: Vec<u8> = Vec::new();
        let sig = signature();
        push_all(&mut out, sig.as_slice());
        let mut i: usize = 0;
        while i < self.chunks.len()
            invariant
                i <= self.chunks@.len(),
                self@.len() == self.chunks@.len(),
                out@ == spec_signature() + spec_serialize_chunks(self@.take(i as int)),
                forall|j: int| 0 <= j < i ==> chunk_wf(#[trigger] self@[j]),
            decreases self.chunks@.len() - i,
        {
            let c = &self.chunks[i];
            proof {
                use_type_invariant(c);
                assert(c@ == self@[i as int]);
            }
            let cb = c.as_bytes();
            push_all(&mut out, cb.as_slice());
            proof {
                lemma_serialize_chunks_push(self@.take(i as int), c@);
                assert(self@.take(i as int + 1) =~= self@.take(i as int).push(c@));
            }
            i = i + 1;
        }
        proof {
            assert(self@.take(self.chunks@.len() as int) =~= self@);
        }
        out
    }

    /// Renders the container as text: one line for each record, in
    /// stored order.
    pub fn render(&self) -> (r: String)
        ensures
            r@ == spec_render_png(self@),
    {
        let mut s = String::new();
        let mut i: usize = 0;
        while i < self.chunks.len()
            invariant
                i <= self.chunks@.len(),
                self@.len() == self.chunks@.len(),
                s@ == spec_render_png(self@.take(i as int)),
            decreases self.chunks@.len() - i,
        {
            let c = &self.chunks[i];
            proof {
                assert(c@ == self@[i as int]);
            }
            let line = c.render();
            s.append(line.as_str());
            s.append("\n");
            proof {
                lemma_render_png_push(self@.take(i as int), c@);
                assert(self@.take(i as int + 1) =~= self@.take(i as int).push(c@));
                assert(s@ =~= spec_render_png(self@.take(i as int)) + spec_render_chunk(c@)
                    + "\n"@);
            }
            i = i + 1;
        }
        proof {
            assert(self@.take(self.chunks@.len() as int) =~= self@);
        }
        s
    }

    /// Appends a record at the end of the stored order.
    pub fn append_chunk(&mut self, chunk: Chunk)
        ensures
            final(self)@ == old(self)@.push(chunk@),
    {
        self.chunks.push(chunk);
        proof {
            assert(self@ =~= old(self)@.push(chunk@));
        }
    }

    /// The first record, in stored order, whose type code renders as
    /// `type_text`; absent when no record matches or when `type_text` is
    /// not itself a valid type code.
    pub fn chunk_by_type(&self, type_text: &str) -> (r: Option<&Chunk>)
        ensures
            ({
                let target = encode_utf8(type_text@);
                if !is_valid_code(target) {
                    r is None
                } else {
                    match spec_find(self@, target) {
                        None => r is None,
                        Some(i) => r matches Some(c) && c@ == self@[i],
                    }
                }
            }),
    {
        let target = match ChunkType::from_str(type_text) {
            Ok(t) => t,
            Err(_) => {
                return None;
            },
        };
        let mut i: usize = 0;
        while i < self.chunks.len()
            invariant
                i <= self.chunks@.len(),
                self@.len() == self.chunks@.len(),
                target@ == encode_utf8(type_text@),
                is_valid_code(target@),
                forall|j: int| 0 <= j < i ==> (#[trigger] self@[j]).type_code != target@,
            decreases self.chunks@.len() - i,
        {
            let c = &self.chunks[i];
            proof {
                assert(c@ == self@[i as int]);
            }
            if c.chunk_type().same_code(&target) {
                proof {
                    lemma_find_first(self@, target@, i as int);
                }
                return Some(c);
            }
            i = i + 1;
        }
        proof {
            lemma_find_none(self@, target@);
        }
        None
    }

    /// Removes the first record whose type code renders as `type_text`;
    /// fails, leaving the container unchanged, when no record matches or
    /// when `type_text` is not a valid type code. The remaining records
    /// keep their relative order.
    pub fn remove_chunk(&mut self, type_text: &str) -> (r: Result<(), PngError>)
        ensures
            ({
                let target = encode_utf8(type_text@);
                if !is_valid_code(target) {
                    r == Err::<(), PngError>(PngError::NotFound) && final(self)@ == old(self)@
                } else {
                    match spec_find(old(self)@, target) {
                        None => r == Err::<(), PngError>(PngError::NotFound) && final(self)@ == old(
                            self,
                        )@,
                        Some(i) => r == Ok::<(), PngError>(()) && final(self)@ == old(self)@.remove(
                            i,
                        ),
                    }
                }
            }),
    {
        let target = match ChunkType::from_str(type_text) {
            Ok(t) => t,
            Err(_) => {
                return Err(PngError::NotFound);
            },
        };
        let mut i: usize = 0;
        while i < self.chunks.len()
            invariant
                i <= self.chunks@.len(),
                self@.len() == self.chunks@.len(),
                self@ == old(self)@,
                target@ == encode_utf8(type_text@),
                is_valid_code(target@),
                forall|j: int| 0 <= j < i ==> (#[trigger] self@[j]).type_code != target@,
            decreases self.chunks@.len() - i,
        {
            let matches_here = {
                let c = &self.chunks[i];
                proof {
                    assert(c@ == self@[i as int]);
                }
                c.chunk_type().same_code(&target)
            };
            if matches_here {
                proof {
                    lemma_find_first(self@, target@, i as int);
                }
                self.chunks.remove(i);
                proof {
                    assert(self@ =~= old(self)@.remove(i as int));
                }
                return Ok(());
            }
            i = i + 1;
        }
        proof {
            lemma_find_none(self@, target@);
        }
        Err(PngError::NotFound)
    }
}

/// The text listing of a container: each record's line, in stored order,
/// each followed by a line break.
pub open spec fn spec_render_png(ms: Seq<ChunkModel>) -> Seq<char>
    decreases ms.len(),
{
    if ms.len() == 0 {
        Seq::empty()
    } else {
        spec_render_chunk(ms[0]) + "\n"@ + spec_render_png(ms.drop_first())
    }
}

/// Rendering one more record appends its line at the end of the listing.
pub proof fn lemma_render_png_push(ms: Seq<ChunkModel>, m: ChunkModel)
    ensures
        spec_render_png(ms.push(m)) == spec_render_png(ms) + spec_render_chunk(m) + "\n"@,
    decreases ms.len(),
{
    if ms.len() == 0 {
        assert(ms.push(m)[0] == m);
        assert(ms.push(m).drop_first() =~= Seq::<ChunkModel>::empty());
        assert(spec_render_png(ms.push(m)) =~= spec_render_png(ms) + spec_render_chunk(m)
            + "\n"@);
    } else {
        assert(ms.push(m)[0] == ms[0]);
        assert(ms.push(m).drop_first() =~= ms.drop_first().push(m));
        lemma_render_png_push(ms.drop_first(), m);
        let head = spec_render_chunk(ms[0]) + "\n"@;
        let mid = spec_render_png(ms.drop_first());
        let tail = spec_render_chunk(m) + "\n"@;
        assert(spec_render_png(ms.push(m)) == head + spec_render_png(ms.push(m).drop_first()));
        assert(spec_render_png(ms.push(m).drop_first()) == (mid + spec_render_chunk(m)) + "\n"@);
        assert((mid + spec_render_chunk(m)) + "\n"@ =~= mid + tail);
        assert(spec_render_png(ms) == head + mid);
        assert(head + (mid + tail) =~= ((head + mid) + spec_render_chunk(m)) + "\n"@);
    }
}

/// Serializing one more record appends its wire form at the end.
pub proof fn lemma_serialize_chunks_push(ms: Seq<ChunkModel>, m: ChunkModel)
    ensures
        spec_serialize_chunks(ms.push(m)) == spec_serialize_chunks(ms) + spec_serialize_chunk(m),
    decreases ms.len(),
{
    if ms.len() == 0 {
        assert(ms.push(m)[0] == m);
        assert(ms.push(m).drop_first() =~= Seq::<ChunkModel>::empty());
        assert(spec_serialize_chunks(ms.push(m)) =~= spec_serialize_chunks(ms)
            + spec_serialize_chunk(m));
    } else {
        assert(ms.push(m)[0] == ms[0]);
        assert(ms.push(m).drop_first() =~= ms.drop_first().push(m));
        lemma_serialize_chunks_push(ms.drop_first(), m);
        let a = spec_serialize_chunk(ms[0]);
        let mid = spec_serialize_chunks(ms.drop_first());
        let tail = spec_serialize_chunk(m);
        assert(spec_serialize_chunks(ms.push(m)) == a + spec_serialize_chunks(
            ms.push(m).drop_first(),
        ));
        assert(spec_serialize_chunks(ms.push(m).drop_first()) == mid + tail);
        assert(spec_serialize_chunks(ms) == a + mid);
        assert(a + (mid + tail) =~= (a + mid) + tail);
    }
}

/// Round trip for record sequences: serializing well-formed records and
/// parsing the result back yields the same records.
#[verifier::rlimit(100)]
pub proof fn lemma_chunks_round_trip(ms: Seq<ChunkModel>)
    requires
        forall|i: int| 0 <= i < ms.len() ==> chunk_wf(#[trigger] ms[i]),
    ensures
        spec_parse_chunks(spec_serialize_chunks(ms)) == Ok::<Seq<ChunkModel>, PngError>(ms),
    decreases ms.len(),
{
    if ms.len() == 0 {
        assert(ms =~= Seq::<ChunkModel>::empty());
        assert(spec_serialize_chunks(ms) =~= Seq::<u8>::empty());
    } else {
        let m = ms[0];
        let rest = ms.drop_first();
        let b = spec_serialize_chunks(ms);
        assert(b == spec_serialize_chunk(m) + spec_serialize_chunks(rest));
        lemma_serialize_chunk_len(m);
        lemma_chunk_parse_serialized(m, spec_serialize_chunks(rest));
        assert(chunk_parse_result(b) == Ok::<ChunkModel, PngError>(m));
        assert(b.len() >= 12 + m.length);
        assert(b.skip(12 + m.length as int) =~= spec_serialize_chunks(rest));
        assert(forall|i: int| 0 <= i < rest.len() ==> chunk_wf(#[trigger] rest[i]));
        lemma_chunks_round_trip(rest);
        assert(seq![m] + rest =~= ms);
        assert(spec_parse_chunks(b) == Ok::<Seq<ChunkModel>, PngError>(ms));
    }
}

/// Round trip: for any container of well-formed records, parsing its
/// serialized form yields the same ordered record sequence.
pub proof fn lemma_png_round_trip(ms: Seq<ChunkModel>)
    requires
        forall|i: int| 0 <= i < ms.len() ==> chunk_wf(#[trigger] ms[i]),
    ensures
        png_parse_result(spec_serialize_png(ms)) == Ok::<Seq<ChunkModel>, PngError>(ms),
{
    let b = spec_serialize_png(ms);
    assert(b.subrange(0, 8) =~= spec_signature());
    assert(b.skip(8) =~= spec_serialize_chunks(ms));
    lemma_chunks_round_trip(ms);
}

/// A buffer whose first 8 bytes are not the signature fails container
/// parsing with a signature failure, whatever the remainder holds.
pub proof fn lemma_bad_signature(bytes: Seq<u8>)
    requires
        bytes.len() < 8 || bytes.subrange(0, 8) != spec_signature(),
    ensures
        png_parse_result(bytes) == Err::<Seq<ChunkModel>, PngError>(PngError::BadSignature),
{
}

/// Appending a record and then looking up its type finds a record of that
/// type; when no earlier record had the type, the one found is the
/// appended record itself, at the end.
pub proof fn lemma_append_then_lookup(ms: Seq<ChunkModel>, m: ChunkModel)
    ensures
        spec_find(ms.push(m), m.type_code) is Some,
        ms.push(m)[spec_find(ms.push(m), m.type_code)->0].type_code == m.type_code,
        spec_find(ms, m.type_code) is None ==> spec_find(ms.push(m), m.type_code) == Some(
            ms.len() as int,
        ),
    decreases ms.len(),
{
    lemma_find_props(ms, m.type_code);
    match spec_find(ms, m.type_code) {
        Some(i) => {
            lemma_find_first(ms.push(m), m.type_code, i);
        },
        None => {
            lemma_find_first(ms.push(m), m.type_code, ms.len() as int);
        },
    }
    lemma_find_props(ms.push(m), m.type_code);
}

/// Appending a record whose type no other record has and then removing
/// that type restores the container exactly, every other record in its
/// original relative order, and a further lookup of the type is absent.
pub proof fn lemma_append_then_remove(ms: Seq<ChunkModel>, m: ChunkModel)
    requires
        spec_find(ms, m.type_code) is None,
    ensures
        spec_find(ms.push(m), m.type_code) == Some(ms.len() as int),
        ms.push(m).remove(ms.len() as int) == ms,
        spec_find(ms, m.type_code) is None,
{
    lemma_append_then_lookup(ms, m);
    assert(ms.push(m).remove(ms.len() as int) =~= ms);
}

} // verus!
