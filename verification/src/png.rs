//! The container: a fixed eight-byte magic header followed by an ordered
//! sequence of chunks, with lookup, append, first-match removal, and a
//! full-buffer round trip between structure and bytes.

use vstd::prelude::*;
use vstd::slice::slice_index_get;
use vstd::slice::slice_subrange;

use crate::chunk::Chunk;
use crate::chunk::ChunkError;
use crate::chunk::ChunkModel;
use crate::chunk::lemma_parse_chunk_wire;
use crate::chunk::spec_chunk_wire;
use crate::chunk::spec_parse_chunk;
use crate::chunk_type::ChunkType;
use crate::chunk_type::ChunkTypeError;
use crate::chunk_type::spec_str_is_tag;
use crate::chunk_type::spec_str_tag_error;
use crate::chunk_type::spec_tag_of_str;
use crate::crc32::spec_crc32;
use crate::wire::spec_u32_to_be;

verus! {

/// Why a container operation failed.
#[derive(Debug, Clone, PartialEq, Eq)]
pub enum PngError {
    /// The first eight bytes are not the magic header.
    WrongHeader,
    /// No chunk of the requested type is in the container.
    NoChunkType,
    /// The requested type string names no tag.
    InvalidType(ChunkTypeError),
    /// A chunk of the stream failed to parse.
    InvalidChunk(ChunkError),
}

/// The fixed eight-byte magic header that opens every stream.
pub open spec fn spec_header() -> Seq<u8> {
    seq![137u8, 80u8, 78u8, 71u8, 13u8, 10u8, 26u8, 10u8]
}

/// The wire form of a chunk sequence: each chunk's wire form, in order.
pub open spec fn spec_chunks_wire(ms: Seq<ChunkModel>) -> Seq<u8>
    decreases ms.len(),
{
    if ms.len() == 0 {
        Seq::empty()
    } else {
        spec_chunk_wire(ms[0]) + spec_chunks_wire(ms.drop_first())
    }
}

/// The wire form of a whole container: header, then its chunks.
pub open spec fn spec_png_wire(ms: Seq<ChunkModel>) -> Seq<u8> {
    spec_header() + spec_chunks_wire(ms)
}

/// What parsing a buffer as a chunk sequence yields: chunk after chunk,
/// each consuming exactly its span, until nothing remains — or the first
/// chunk-level failure. Leftover bytes shorter than a chunk are such a
/// failure, never silently dropped.
pub open spec fn spec_parse_chunks(bs: Seq<u8>) -> Result<Seq<ChunkModel>, ChunkError>
    decreases bs.len(),
{
    if bs.len() == 0 {
        Ok(Seq::empty())
    } else {
        match spec_parse_chunk(bs) {
            Err(e) => Err(e),
            Ok(m) => {
                let span = 12 + m.data.len() as int;
                match spec_parse_chunks(bs.subrange(span, bs.len() as int)) {
                    Err(e) => Err(e),
                    Ok(ms) => Ok(seq![m] + ms),
                }
            },
        }
    }
}

/// Appending one chunk to a sequence appends its wire form to the
/// sequence's wire form.
pub proof fn lemma_chunks_wire_push(ms: Seq<ChunkModel>, m: ChunkModel)
    ensures
        spec_chunks_wire(ms.push(m)) =~= spec_chunks_wire(ms) + spec_chunk_wire(m),
    decreases ms.len(),
{
    if ms.len() == 0 {
        assert(ms.push(m)[0] == m);
        assert(ms.push(m).drop_first() =~= Seq::<ChunkModel>::empty());
        assert(spec_chunk_wire(m) + spec_chunks_wire(Seq::<ChunkModel>::empty())
            =~= spec_chunks_wire(ms) + spec_chunk_wire(m));
    } else {
        assert(ms.push(m)[0] == ms[0]);
        assert(ms.push(m).drop_first() =~= ms.drop_first().push(m));
        lemma_chunks_wire_push(ms.drop_first(), m);
        assert(spec_chunk_wire(ms[0]) + (spec_chunks_wire(ms.drop_first()) + spec_chunk_wire(m))
            =~= (spec_chunk_wire(ms[0]) + spec_chunks_wire(ms.drop_first())) + spec_chunk_wire(m));
    }
}

/// One step of the sequence round trip: a stream-valid chunk's wire form
/// in front of bytes that parse to some sequence parses to that chunk in
/// front of the sequence.
/// Unfolds the chunk-sequence parse one step on a buffer whose first
/// chunk parses and whose remainder parses to a known sequence.
proof fn lemma_parse_chunks_unfold_ok(bs: Seq<u8>, m: ChunkModel, rest: Seq<ChunkModel>)
    requires
        bs.len() != 0,
        spec_parse_chunk(bs) == Ok::<ChunkModel, ChunkError>(m),
        spec_parse_chunks(bs.subrange(12 + m.data.len() as int, bs.len() as int)) == Ok::<
            Seq<ChunkModel>,
            ChunkError,
        >(rest),
    ensures
        spec_parse_chunks(bs) == Ok::<Seq<ChunkModel>, ChunkError>(seq![m] + rest),
{
}

/// The bytes after a stream-valid chunk's wire form in a buffer that
/// opens with it are exactly the trailing bytes, and the buffer's first
/// chunk parses to that chunk.
proof fn lemma_chunk_wire_span(m: ChunkModel, tail: Seq<u8>)
    requires
        m.wf(),
        m.tag_ok(),
    ensures
        (spec_chunk_wire(m) + tail).len() != 0,
        spec_parse_chunk(spec_chunk_wire(m) + tail) == Ok::<ChunkModel, ChunkError>(m),
        (spec_chunk_wire(m) + tail).subrange(
            12 + m.data.len() as int,
            (spec_chunk_wire(m) + tail).len() as int,
        ) == tail,
{
    let w = spec_chunk_wire(m) + tail;
    let span = 12 + m.data.len() as int;
    assert(spec_chunk_wire(m).len() == span) by {
        assert(spec_u32_to_be(m.data.len() as u32).len() == 4);
        assert(spec_u32_to_be(spec_crc32(m.ty + m.data)).len() == 4);
    }
    crate::chunk::lemma_chunk_wire_parses(m, tail);
    assert(w.subrange(span, w.len() as int) =~= tail);
}

/// The wire form of a sequence of stream-valid chunks parses back to
/// exactly that sequence, chunk for chunk and in order.
pub proof fn lemma_chunks_wire_parses(ms: Seq<ChunkModel>)
    requires
        forall|i: int| 0 <= i < ms.len() ==> (#[trigger] ms[i]).wf() && ms[i].tag_ok(),
    ensures
        spec_parse_chunks(spec_chunks_wire(ms)) == Ok::<Seq<ChunkModel>, ChunkError>(ms),
    decreases ms.len(),
{
    if ms.len() == 0 {
        assert(ms =~= Seq::<ChunkModel>::empty());
    } else {
        lemma_chunks_wire_parses(ms.drop_first());
        lemma_chunk_wire_span(ms[0], spec_chunks_wire(ms.drop_first()));
        lemma_parse_chunks_unfold_ok(spec_chunks_wire(ms), ms[0], ms.drop_first());
        assert(seq![ms[0]] + ms.drop_first() =~= ms);
    }
}

/// Round trip for a container: serializing any container of stream-valid
/// chunks and parsing the bytes yields the same chunk sequence, equal in
/// order and content.
pub proof fn lemma_png_round_trip(ms: Seq<ChunkModel>)
    requires
        forall|i: int| 0 <= i < ms.len() ==> (#[trigger] ms[i]).wf() && ms[i].tag_ok(),
    ensures
        spec_png_wire(ms).len() >= 8,
        spec_png_wire(ms).subrange(0, 8) == spec_header(),
        spec_parse_chunks(spec_png_wire(ms).skip(8)) == Ok::<Seq<ChunkModel>, ChunkError>(ms),
{
    assert(spec_png_wire(ms).subrange(0, 8) =~= spec_header());
    assert(spec_png_wire(ms).skip(8) =~= spec_chunks_wire(ms));
    lemma_chunks_wire_parses(ms);
}

/// Corrupting any one byte of the magic header leaves bytes whose first
/// eight are no longer the header, so parsing them fails the header
/// check.
pub proof fn lemma_header_corruption(ms: Seq<ChunkModel>, i: int, b: u8)
    requires
        0 <= i < 8,
        b != spec_png_wire(ms)[i],
    ensures
        spec_png_wire(ms).update(i, b).subrange(0, 8) != spec_header(),
{
    let w = spec_png_wire(ms).update(i, b);
    assert(w.subrange(0, 8)[i] == b);
    assert(spec_header()[i] == spec_png_wire(ms)[i]);
}

/// Appending a chunk whose type no present chunk carries and then
/// removing that type takes the sequence back to its old value: the
/// appended chunk is the first and only match, and removing it restores
/// the sequence.
pub proof fn lemma_append_remove(ms: Seq<ChunkModel>, m: ChunkModel)
    requires
        forall|j: int| 0 <= j < ms.len() ==> (#[trigger] ms[j]).ty != m.ty,
    ensures
        spec_has_type(ms.push(m), m.ty),
        forall|i: int|
            0 <= i < ms.push(m).len() && (#[trigger] ms.push(m)[i]).ty == m.ty ==> i == ms.len(),
        ms.push(m).remove(ms.len() as int) == ms,
{
    assert(ms.push(m)[ms.len() as int] == m);
    assert(ms.push(m).remove(ms.len() as int) =~= ms);
}

/// The result of parsing a suffix of the stream, seen after chunks that
/// were already parsed: those chunks in front of a success, a failure
/// unchanged.
spec fn spec_prepend_chunks(
    ms: Seq<ChunkModel>,
    r: Result<Seq<ChunkModel>, ChunkError>,
) -> Result<Seq<ChunkModel>, ChunkError> {
    match r {
        Ok(rest) => Ok(ms + rest),
        Err(e) => Err(e),
    }
}

/// Some chunk of the sequence carries the given tag bytes.
pub open spec fn spec_has_type(ms: Seq<ChunkModel>, ty: Seq<u8>) -> bool {
    exists|i: int| 0 <= i < ms.len() && (#[trigger] ms[i]).ty == ty
}

/// The container model of a PNG stream.
#[derive(Debug)]
pub struct Png {
    pub chunks: Vec<Chunk>,
}

impl View for Png {
    type V = Seq<ChunkModel>;

    open spec fn view(&self) -> Seq<ChunkModel> {
        Seq::new(self.chunks@.len(), |i: int| self.chunks@[i]@)
    }
}

impl Png {
    /// Every chunk's payload length fits the wire's length field.
    pub open spec fn wf(self) -> bool {
        forall|i: int| 0 <= i < self@.len() ==> (#[trigger] self@[i]).wf()
    }

    /// The fixed magic header as bytes.
    pub fn standard_header() -> (r: [u8; 8])
        ensures
            r@ == spec_header(),
    {
        let r = [137u8, 80u8, 78u8, 71u8, 13u8, 10u8, 26u8, 10u8];
        proof {
            assert(r@ =~= spec_header());
        }
        r
    }

    /// Builds a container around an explicit chunk sequence, taken as
    /// given.
    pub fn from_chunks(chunks: Vec<Chunk>) -> (r: Png)
        ensures
            r.chunks == chunks,
    {
        Png { chunks }
    }

    /// Appends a chunk at the end of the sequence.
    pub fn append_chunk(&mut self, chunk: Chunk)
        ensures
            final(self).chunks@ == old(self).chunks@.push(chunk),
            final(self)@ =~= old(self)@.push(chunk@),
    {
        self.chunks.push(chunk);
    }

    /// The chunk sequence, in order.
    pub fn chunks(&self) -> (r: &[Chunk])
        ensures
            r@ == self.chunks@,
    {
        self.chunks.as_slice()
    }

    /// Finds the first chunk whose tag the given string names. A string
    /// that names no tag, like a type nothing carries, is a miss, not an
    /// error.
    pub fn chunk_by_type<'a>(&'a self, chunk_type: &str) -> (r: Option<&'a Chunk>)
        ensures
            r matches Some(c) ==> exists|i: int|
                {
                    &&& 0 <= i < self@.len()
                    &&& (#[trigger] self@[i]).ty == spec_tag_of_str(chunk_type@)
                    &&& forall|j: int|
                        0 <= j < i ==> (#[trigger] self@[j]).ty != spec_tag_of_str(chunk_type@)
                    &&& *c == self.chunks@[i]
                },
            (r matches Some(_)) <==> (spec_str_is_tag(chunk_type@) && spec_has_type(
                self@,
                spec_tag_of_str(chunk_type@),
            )),
    {
        let ct = match ChunkType::from_str(chunk_type) {
            Ok(ct) => ct,
            Err(_) => {
                return None;
            },
        };
        let n = self.chunks.len();
        let mut i: usize = 0;
        while i < n
            invariant
                i <= n,
                n == self.chunks@.len(),
                spec_str_is_tag(chunk_type@),
                ct@ == spec_tag_of_str(chunk_type@),
                forall|j: int| 0 <= j < i ==> (#[trigger] self@[j]).ty != ct@,
            decreases n - i,
        {
            let c = slice_index_get(self.chunks.as_slice(), i);
            if c.chunk_type().same_tag(&ct) {
                proof {
                    assert(self@[i as int].ty == ct@);
                    assert(spec_has_type(self@, ct@));
                }
                return Some(c);
            }
            i = i + 1;
        }
        None
    }

    /// Serializes the container: the magic header, then every chunk's
    /// wire form in sequence order.
    pub fn as_bytes(&self) -> (r: Vec<u8>)
        requires
            self.wf(),
        ensures
            r@ == spec_png_wire(self@),
    {
        let mut out: Vec<u8> = Vec::new();
        let header = Self::standard_header();
        let mut k: usize = 0;
        while k < 8
            invariant
                k <= 8,
                header@ == spec_header(),
                out@ =~= spec_header().subrange(0, k as int),
            decreases 8 - k,
        {
            out.push(header[k]);
            k = k + 1;
        }
        proof {
            assert(out@ =~= spec_header() + spec_chunks_wire(self@.subrange(0, 0)));
        }
        let n = self.chunks.len();
        let mut i: usize = 0;
        while i < n
            invariant
                i <= n,
                n == self.chunks@.len(),
                self.wf(),
                out@ =~= spec_header() + spec_chunks_wire(self@.subrange(0, i as int)),
            decreases n - i,
        {
            let c = slice_index_get(self.chunks.as_slice(), i);
            proof {
                assert(self@[i as int] == self.chunks@[i as int]@);
            }
            let mut cb = c.as_bytes();
            out.append(&mut cb);
            proof {
                lemma_chunks_wire_push(self@.subrange(0, i as int), self@[i as int]);
                assert(self@.subrange(0, i as int).push(self@[i as int]) =~= self@.subrange(
                    0,
                    i as int + 1,
                ));
                assert(out@ =~= spec_header() + spec_chunks_wire(self@.subrange(0, i as int + 1)));
            }
            i = i + 1;
        }
        proof {
            assert(self@.subrange(0, n as int) =~= self@);
        }
        out
    }

    /// Removes and returns the first chunk whose tag the given string
    /// names; later chunks shift down, their order kept. A string that
    /// names no tag, or a type nothing carries, is an error, and the
    /// container stands unchanged.
    pub fn remove_chunk(&mut self, chunk_type: &str) -> (r: Result<Chunk, PngError>)
        ensures
            r matches Ok(c) ==> exists|i: int|
                {
                    &&& 0 <= i < old(self)@.len()
                    &&& (#[trigger] old(self)@[i]).ty == spec_tag_of_str(chunk_type@)
                    &&& forall|j: int|
                        0 <= j < i ==> (#[trigger] old(self)@[j]).ty != spec_tag_of_str(
                            chunk_type@,
                        )
                    &&& c == old(self).chunks@[i]
                    &&& final(self).chunks@ == old(self).chunks@.remove(i)
                },
            (r matches Ok(_)) <==> (spec_str_is_tag(chunk_type@) && spec_has_type(
                old(self)@,
                spec_tag_of_str(chunk_type@),
            )),
            !spec_str_is_tag(chunk_type@) ==> r == Err::<Chunk, _>(
                PngError::InvalidType(spec_str_tag_error(chunk_type@)),
            ),
            spec_str_is_tag(chunk_type@) && !spec_has_type(
                old(self)@,
                spec_tag_of_str(chunk_type@),
            ) ==> r == Err::<Chunk, _>(PngError::NoChunkType),
            r matches Err(_) ==> final(self).chunks@ == old(self).chunks@,
    {
        let ct = match ChunkType::from_str(chunk_type) {
            Ok(ct) => ct,
            Err(e) => {
                return Err(PngError::InvalidType(e));
            },
        };
        let n = self.chunks.len();
        let mut i: usize = 0;
        while i < n
            invariant
                i <= n,
                n == self.chunks@.len(),
                self.chunks@ == old(self).chunks@,
                spec_str_is_tag(chunk_type@),
                ct@ == spec_tag_of_str(chunk_type@),
                forall|j: int| 0 <= j < i ==> (#[trigger] self@[j]).ty != ct@,
            decreases n - i,
        {
            let found = {
                let c = slice_index_get(self.chunks.as_slice(), i);
                c.chunk_type().same_tag(&ct)
            };
            if found {
                proof {
                    assert(self@ =~= old(self)@);
                    assert(old(self)@[i as int].ty == ct@);
                    assert(spec_has_type(old(self)@, ct@));
                }
                let c = self.chunks.remove(i);
                return Ok(c);
            }
            i = i + 1;
        }
        proof {
            assert(self@ =~= old(self)@);
        }
        Err(PngError::NoChunkType)
    }

    /// Parses a whole buffer: the magic header byte for byte, then chunk
    /// after chunk until the buffer ends. Any chunk-level failure, and
    /// any leftover shorter than a chunk, aborts the parse; a success
    /// returns a container whose serialization is the input itself.
    pub fn try_from(value: &[u8]) -> (r: Result<Png, PngError>)
        ensures
            r matches Ok(p) ==> {
                &&& spec_parse_chunks(value@.skip(8)) == Ok::<Seq<ChunkModel>, ChunkError>(p@)
                &&& p.wf()
                &&& forall|i: int| 0 <= i < p@.len() ==> (#[trigger] p@[i]).tag_ok()
                &&& value@ == spec_png_wire(p@)
            },
            (r matches Ok(_)) <==> (value@.len() >= 8 && value@.subrange(0, 8) == spec_header()
                && spec_parse_chunks(value@.skip(8)) is Ok),
            (r == Err::<Png, _>(PngError::WrongHeader)) <==> (value@.len() < 8 || value@.subrange(
                0,
                8,
            ) != spec_header()),
            r matches Err(PngError::InvalidChunk(e)) ==> value@.len() >= 8 && value@.subrange(
                0,
                8,
            ) == spec_header() && spec_parse_chunks(value@.skip(8)) == Err::<
                Seq<ChunkModel>,
                ChunkError,
            >(e),
            r matches Err(e) ==> e is WrongHeader || e is InvalidChunk,
    {
        let n = value.len();
        if n < 8 {
            return Err(PngError::WrongHeader);
        }
        let header = Self::standard_header();
        let mut k: usize = 0;
        while k < 8
            invariant
                k <= 8,
                n == value@.len(),
                n >= 8,
                header@ == spec_header(),
                forall|j: int| 0 <= j < k ==> value@[j] == spec_header()[j],
            decreases 8 - k,
        {
            if *slice_index_get(value, k) != header[k] {
                proof {
                    assert(value@.subrange(0, 8)[k as int] != spec_header()[k as int]);
                }
                return Err(PngError::WrongHeader);
            }
            k = k + 1;
        }
        proof {
            assert(value@.subrange(0, 8) =~= spec_header());
            assert(value@.subrange(8, n as int) =~= value@.skip(8));
        }
        let mut chunks: Vec<Chunk> = Vec::new();
        let ghost mut models: Seq<ChunkModel> = Seq::empty();
        let mut pos: usize = 8;
        proof {
            if spec_parse_chunks(value@.skip(8)) is Ok {
                assert(models + spec_parse_chunks(value@.skip(8))->Ok_0 =~= spec_parse_chunks(
                    value@.skip(8),
                )->Ok_0);
            }
            assert(value@.subrange(0, 8) =~= spec_header() + spec_chunks_wire(models));
        }
        while pos < n
            invariant
                8 <= pos <= n,
                n == value@.len(),
                value@.subrange(0, 8) == spec_header(),
                models.len() == chunks@.len(),
                forall|i: int| 0 <= i < models.len() ==> models[i] == (#[trigger] chunks@[i])@,
                forall|i: int| 0 <= i < models.len() ==> (#[trigger] models[i]).wf()
                    && models[i].tag_ok(),
                value@.subrange(0, pos as int) =~= spec_header() + spec_chunks_wire(models),
                spec_prepend_chunks(
                    models,
                    spec_parse_chunks(value@.subrange(pos as int, n as int)),
                ) == spec_parse_chunks(value@.skip(8)),
            decreases n - pos,
        {
            let tail = slice_subrange(value, pos, n);
            let ghost sub = value@.subrange(pos as int, n as int);
            match Chunk::try_from(tail) {
                Err(e) => {
                    proof {
                        assert(sub.len() > 0);
                        assert(spec_parse_chunks(sub) == Err::<Seq<ChunkModel>, ChunkError>(e));
                    }
                    return Err(PngError::InvalidChunk(e));
                },
                Ok(c) => {
                    proof {
                        lemma_parse_chunk_wire(sub);
                        assert(12 + c@.data.len() <= sub.len());
                    }
                    let dlen = c.data.len();
                    let span = 12 + dlen;
                    proof {
                        let m = c@;
                        let span_i = 12 + m.data.len() as int;
                        let rest = sub.subrange(span_i, sub.len() as int);
                        assert(rest =~= value@.subrange(pos + span_i, n as int));
                        let x = spec_parse_chunks(rest);
                        if x is Ok {
                            assert(spec_parse_chunks(sub) == Ok::<Seq<ChunkModel>, ChunkError>(
                                seq![m] + x->Ok_0,
                            ));
                            assert(models + (seq![m] + x->Ok_0) =~= models.push(m) + x->Ok_0);
                        } else {
                            assert(spec_parse_chunks(sub) == x);
                        }
                        lemma_chunks_wire_push(models, m);
                        assert(value@.subrange(0, pos + span_i) =~= value@.subrange(0, pos as int)
                            + sub.subrange(0, span_i));
                        assert(sub.subrange(0, span_i) =~= spec_chunk_wire(m));
                        assert(value@.subrange(0, pos + span_i) =~= spec_header()
                            + spec_chunks_wire(models.push(m)));
                        models = models.push(m);
                    }
                    chunks.push(c);
                    pos = pos + span;
                },
            }
        }
        let p = Png::from_chunks(chunks);
        proof {
            assert(value@.subrange(pos as int, n as int) =~= Seq::<u8>::empty());
            assert(spec_parse_chunks(value@.subrange(pos as int, n as int)) == Ok::<
                Seq<ChunkModel>,
                ChunkError,
            >(Seq::empty()));
            assert(models + Seq::<ChunkModel>::empty() =~= models);
            assert(spec_parse_chunks(value@.skip(8)) == Ok::<Seq<ChunkModel>, ChunkError>(models));
            assert(p@ =~= models);
            assert(value@.subrange(0, n as int) =~= value@);
        }
        Ok(p)
    }
}

} // verus!
