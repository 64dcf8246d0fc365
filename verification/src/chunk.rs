//! One chunk of the container: a four-byte tag and an opaque payload,
//! serialized as `[length:4][type:4][payload][crc:4]`, all multi-byte
//! fields big-endian, the checksum taken over tag and payload.

use vstd::prelude::*;
use vstd::slice::slice_index_get;

use crate::chunk_type::ChunkType;
use crate::chunk_type::spec_is_alpha;
use crate::chunk_type::spec_is_upper;
use crate::crc32::crc32;
use crate::crc32::spec_crc32;
use crate::wire::lemma_u32_be_round_trip;
use crate::wire::lemma_u32_be_round_trip_bytes;
use crate::wire::lemma_u32_from_be_injective;
use crate::wire::spec_u32_from_be;
use crate::wire::spec_u32_to_be;
use crate::wire::u32_from_be;
use crate::wire::u32_to_be;

verus! {

/// Why a chunk could not be parsed, or its payload not shown as text.
#[derive(Debug, Clone, PartialEq, Eq)]
pub enum ChunkError {
    /// Fewer than the twelve bytes that length, tag and checksum take.
    InputValueTooSmall,
    /// A tag byte outside the ASCII letters, or a tag failing the
    /// reserved-bit gate.
    InvalidChunkType,
    /// The declared payload length runs past the end of the buffer.
    Truncated,
    /// The stored checksum differs from the one recomputed over tag and
    /// payload: recomputed first, stored second.
    InvalidCrc(u32, u32),
    /// A payload byte that is neither graphic ASCII nor ASCII whitespace.
    NotReadable,
}

/// The mathematical content of a chunk: its tag bytes and payload bytes.
#[verifier::ext_equal]
pub ghost struct ChunkModel {
    pub ty: Seq<u8>,
    pub data: Seq<u8>,
}

impl ChunkModel {
    /// A model the wire format can carry: a four-byte tag and a payload
    /// whose length fits the 32-bit length field.
    pub open spec fn wf(self) -> bool {
        self.ty.len() == 4 && self.data.len() <= u32::MAX
    }

    /// A tag fit for a stream: ASCII letters with the reserved bit set.
    pub open spec fn tag_ok(self) -> bool {
        &&& self.ty.len() == 4
        &&& forall|i: int| 0 <= i < 4 ==> spec_is_alpha(#[trigger] self.ty[i])
        &&& spec_is_upper(self.ty[2])
    }
}

/// The exact wire form of a chunk: big-endian payload length, tag,
/// payload, and big-endian CRC-32 over tag and payload.
pub open spec fn spec_chunk_wire(m: ChunkModel) -> Seq<u8> {
    spec_u32_to_be(m.data.len() as u32) + m.ty + m.data + spec_u32_to_be(
        spec_crc32(m.ty + m.data),
    )
}

/// What parsing a buffer as one chunk yields: the model read from the
/// leading `12 + length` bytes (trailing bytes ignored), or the first
/// failure in the order the wire is read: too short, then the declared
/// length against the buffer, then the tag, then the checksum.
pub open spec fn spec_parse_chunk(bs: Seq<u8>) -> Result<ChunkModel, ChunkError> {
    if bs.len() < 12 {
        Err(ChunkError::InputValueTooSmall)
    } else {
        let len = spec_u32_from_be(bs[0], bs[1], bs[2], bs[3]) as int;
        let m = ChunkModel { ty: bs.subrange(4, 8), data: bs.subrange(8, 8 + len) };
        if bs.len() < 12 + len {
            Err(ChunkError::Truncated)
        } else if !m.tag_ok() {
            Err(ChunkError::InvalidChunkType)
        } else {
            let computed = spec_crc32(m.ty + m.data);
            let stored = spec_u32_from_be(
                bs[8 + len],
                bs[9 + len],
                bs[10 + len],
                bs[11 + len],
            );
            if computed != stored {
                Err(ChunkError::InvalidCrc(computed, stored))
            } else {
                Ok(m)
            }
        }
    }
}

/// A chunk parsed from a buffer is the chunk whose canonical wire form
/// opens that buffer: a successful parse consumes exactly the encoding
/// that serialization would emit, stored checksum included.
pub proof fn lemma_parse_chunk_wire(bs: Seq<u8>)
    requires
        spec_parse_chunk(bs) is Ok,
    ensures
        ({
            let m = spec_parse_chunk(bs)->Ok_0;
            &&& m.wf()
            &&& m.tag_ok()
            &&& 12 + m.data.len() <= bs.len()
            &&& bs.subrange(0, 12 + m.data.len() as int) =~= spec_chunk_wire(m)
        }),
{
    let m = spec_parse_chunk(bs)->Ok_0;
    let len = spec_u32_from_be(bs[0], bs[1], bs[2], bs[3]) as int;
    assert(m.data.len() == len);
    lemma_u32_be_round_trip_bytes(bs[0], bs[1], bs[2], bs[3]);
    assert(spec_u32_to_be(m.data.len() as u32) =~= seq![bs[0], bs[1], bs[2], bs[3]]);
    lemma_u32_be_round_trip_bytes(bs[8 + len], bs[9 + len], bs[10 + len], bs[11 + len]);
    assert(spec_u32_from_be(bs[8 + len], bs[9 + len], bs[10 + len], bs[11 + len]) == spec_crc32(
        m.ty + m.data,
    ));
    assert(spec_u32_to_be(spec_crc32(m.ty + m.data)) =~= seq![
        bs[8 + len],
        bs[9 + len],
        bs[10 + len],
        bs[11 + len],
    ]);
    assert(bs.subrange(0, 12 + m.data.len() as int) =~= spec_chunk_wire(m));
}

/// The wire form of any stream-valid chunk parses back to that same
/// chunk, whatever bytes follow it in the buffer.
pub proof fn lemma_chunk_wire_parses(m: ChunkModel, tail: Seq<u8>)
    requires
        m.wf(),
        m.tag_ok(),
    ensures
        spec_parse_chunk(spec_chunk_wire(m) + tail) == Ok::<ChunkModel, ChunkError>(m),
{
    let w = spec_chunk_wire(m) + tail;
    let len32 = m.data.len() as u32;
    lemma_u32_be_round_trip(len32);
    assert(w[0] == spec_u32_to_be(len32)[0] && w[1] == spec_u32_to_be(len32)[1] && w[2]
        == spec_u32_to_be(len32)[2] && w[3] == spec_u32_to_be(len32)[3]);
    assert(spec_u32_from_be(w[0], w[1], w[2], w[3]) == len32);
    let len = len32 as int;
    assert(len == m.data.len());
    assert(w.subrange(4, 8) =~= m.ty);
    assert(w.subrange(8, 8 + len) =~= m.data);
    let crc = spec_crc32(m.ty + m.data);
    lemma_u32_be_round_trip(crc);
    assert(w[8 + len] == spec_u32_to_be(crc)[0] && w[9 + len] == spec_u32_to_be(crc)[1] && w[10
        + len] == spec_u32_to_be(crc)[2] && w[11 + len] == spec_u32_to_be(crc)[3]);
    assert(spec_u32_from_be(w[8 + len], w[9 + len], w[10 + len], w[11 + len]) == crc);
    let parsed = ChunkModel { ty: w.subrange(4, 8), data: w.subrange(8, 8 + len) };
    assert(parsed =~= m);
}

/// Round trip for one chunk: the serialized form of any stream-valid
/// chunk parses back to a chunk with the same tag and the same payload.
pub proof fn lemma_chunk_round_trip(m: ChunkModel)
    requires
        m.wf(),
        m.tag_ok(),
    ensures
        spec_parse_chunk(spec_chunk_wire(m)) == Ok::<ChunkModel, ChunkError>(m),
{
    assert(spec_chunk_wire(m) + Seq::<u8>::empty() =~= spec_chunk_wire(m));
    lemma_chunk_wire_parses(m, Seq::empty());
}

/// Corrupting any single byte of a serialized chunk's checksum field
/// makes the parse fail with an integrity error that pairs the checksum
/// recomputed over tag and payload with the corrupted stored one.
pub proof fn lemma_crc_corruption(m: ChunkModel, i: int, b: u8)
    requires
        m.wf(),
        m.tag_ok(),
        spec_chunk_wire(m).len() - 4 <= i < spec_chunk_wire(m).len(),
        b != spec_chunk_wire(m)[i],
    ensures
        ({
            let w = spec_chunk_wire(m).update(i, b);
            spec_parse_chunk(w) == Err::<ChunkModel, ChunkError>(
                ChunkError::InvalidCrc(
                    spec_crc32(m.ty + m.data),
                    spec_u32_from_be(
                        w[w.len() - 4],
                        w[w.len() - 3],
                        w[w.len() - 2],
                        w[w.len() - 1],
                    ),
                ),
            )
        }),
{
    let w0 = spec_chunk_wire(m);
    let w = w0.update(i, b);
    let len = m.data.len() as int;
    assert(w0.len() == 12 + len);
    let len32 = m.data.len() as u32;
    lemma_u32_be_round_trip(len32);
    assert(w[0] == spec_u32_to_be(len32)[0] && w[1] == spec_u32_to_be(len32)[1] && w[2]
        == spec_u32_to_be(len32)[2] && w[3] == spec_u32_to_be(len32)[3]);
    assert(spec_u32_from_be(w[0], w[1], w[2], w[3]) == len32);
    assert(w.subrange(4, 8) =~= m.ty);
    assert(w.subrange(8, 8 + len) =~= m.data);
    let crc = spec_crc32(m.ty + m.data);
    lemma_u32_be_round_trip(crc);
    assert(w0[8 + len] == spec_u32_to_be(crc)[0] && w0[9 + len] == spec_u32_to_be(crc)[1] && w0[10
        + len] == spec_u32_to_be(crc)[2] && w0[11 + len] == spec_u32_to_be(crc)[3]);
    assert(spec_u32_from_be(w0[8 + len], w0[9 + len], w0[10 + len], w0[11 + len]) == crc);
    lemma_u32_from_be_injective(
        w[8 + len],
        w[9 + len],
        w[10 + len],
        w[11 + len],
        w0[8 + len],
        w0[9 + len],
        w0[10 + len],
        w0[11 + len],
    );
    assert(!(w[8 + len] == w0[8 + len] && w[9 + len] == w0[9 + len] && w[10 + len] == w0[10 + len]
        && w[11 + len] == w0[11 + len]));
    assert(spec_u32_from_be(w[8 + len], w[9 + len], w[10 + len], w[11 + len]) != crc);
}

/// Bytes that the strict text view accepts: graphic ASCII or ASCII
/// whitespace.
pub open spec fn spec_is_text(b: u8) -> bool {
    (33 <= b <= 126) || b == 32 || b == 9 || b == 10 || b == 12 || b == 13
}

/// One typed, checksummed record of the container.
#[derive(Debug, Clone, PartialEq, Eq)]
pub struct Chunk {
    pub chunk_type: ChunkType,
    pub data: Vec<u8>,
}

impl View for Chunk {
    type V = ChunkModel;

    open spec fn view(&self) -> ChunkModel {
        ChunkModel { ty: self.chunk_type@, data: self.data@ }
    }
}

impl Chunk {
    /// The payload length fits the 32-bit length field of the wire form.
    pub open spec fn wf(self) -> bool {
        self@.wf()
    }

    /// Builds a chunk from a tag and a payload, both taken as given: the
    /// reserved-bit gate is a policy of stream parsing, not of this
    /// constructor.
    pub fn new(chunk_type: ChunkType, data: Vec<u8>) -> (r: Chunk)
        requires
            data@.len() <= u32::MAX,
        ensures
            r@ == (ChunkModel { ty: chunk_type@, data: data@ }),
            r.wf(),
    {
        Chunk { chunk_type, data }
    }

    /// The payload length, as the wire's 32-bit length field holds it.
    pub fn length(&self) -> (r: u32)
        requires
            self.wf(),
        ensures
            r == self@.data.len(),
    {
        self.data.len() as u32
    }

    /// The chunk's tag.
    pub fn chunk_type(&self) -> (r: &ChunkType)
        ensures
            r@ == self@.ty,
    {
        &self.chunk_type
    }

    /// The payload bytes.
    pub fn data(&self) -> (r: &[u8])
        ensures
            r@ == self@.data,
    {
        self.data.as_slice()
    }

    /// The checksum over tag and payload, recomputed from the current
    /// state on every call.
    pub fn crc(&self) -> (r: u32)
        ensures
            r == spec_crc32(self@.ty + self@.data),
    {
        let tag = self.chunk_type.bytes();
        let mut buf: Vec<u8> = Vec::new();
        buf.push(tag[0]);
        buf.push(tag[1]);
        buf.push(tag[2]);
        buf.push(tag[3]);
        let mut i: usize = 0;
        while i < self.data.len()
            invariant
                i <= self.data@.len(),
                buf@ =~= self@.ty + self@.data.subrange(0, i as int),
            decreases self.data@.len() - i,
        {
            buf.push(self.data[i]);
            i = i + 1;
        }
        proof {
            assert(buf@ =~= self@.ty + self@.data);
        }
        crc32(buf.as_slice())
    }

    /// The payload as text, accepted only when every byte is graphic
    /// ASCII or ASCII whitespace; any other byte makes the payload
    /// unreadable rather than silently coerced.
    pub fn data_as_string(&self) -> (r: Result<String, ChunkError>)
        ensures
            r matches Ok(s) ==> {
                &&& s@.len() == self@.data.len()
                &&& forall|i: int| 0 <= i < self@.data.len() ==> #[trigger] s@[i] == self@.data[i] as char
            },
            (r matches Ok(_)) <==> (forall|i: int|
                0 <= i < self@.data.len() ==> spec_is_text(#[trigger] self@.data[i])),
            r matches Err(e) ==> e == ChunkError::NotReadable,
    {
        let mut s = String::new();
        let mut i: usize = 0;
        while i < self.data.len()
            invariant
                i <= self.data@.len(),
                s@.len() == i,
                forall|j: int| 0 <= j < i ==> #[trigger] s@[j] == self@.data[j] as char,
                forall|j: int| 0 <= j < i ==> spec_is_text(#[trigger] self@.data[j]),
            decreases self.data@.len() - i,
        {
            let b = self.data[i];
            if !(33 <= b && b <= 126 || b == 32 || b == 9 || b == 10 || b == 12 || b == 13) {
                proof {
                    assert(!spec_is_text(self@.data[i as int]));
                }
                return Err(ChunkError::NotReadable);
            }
            s.push(b as char);
            i = i + 1;
        }
        Ok(s)
    }

    /// Serializes the chunk into its exact wire form.
    pub fn as_bytes(&self) -> (r: Vec<u8>)
        requires
            self.wf(),
        ensures
            r@ == spec_chunk_wire(self@),
    {
        let mut out: Vec<u8> = Vec::new();
        let len_be = u32_to_be(self.length());
        out.push(len_be[0]);
        out.push(len_be[1]);
        out.push(len_be[2]);
        out.push(len_be[3]);
        let tag = self.chunk_type.bytes();
        out.push(tag[0]);
        out.push(tag[1]);
        out.push(tag[2]);
        out.push(tag[3]);
        let mut i: usize = 0;
        while i < self.data.len()
            invariant
                i <= self.data@.len(),
                self.wf(),
                out@ =~= spec_u32_to_be(self@.data.len() as u32) + self@.ty
                    + self@.data.subrange(0, i as int),
            decreases self.data@.len() - i,
        {
            out.push(self.data[i]);
            i = i + 1;
        }
        let crc_be = u32_to_be(self.crc());
        out.push(crc_be[0]);
        out.push(crc_be[1]);
        out.push(crc_be[2]);
        out.push(crc_be[3]);
        proof {
            assert(out@ =~= spec_chunk_wire(self@));
        }
        out
    }

    /// Parses one chunk from the front of a buffer. Exactly the declared
    /// `12 + length` bytes are read; trailing bytes are the caller's.
    pub fn try_from(value: &[u8]) -> (r: Result<Chunk, ChunkError>)
        ensures
            r matches Ok(c) ==> spec_parse_chunk(value@) == Ok::<ChunkModel, ChunkError>(c@)
                && c.wf() && c.chunk_type.spec_alpha() && c.chunk_type.spec_is_valid(),
            r matches Err(e) ==> spec_parse_chunk(value@) == Err::<ChunkModel, ChunkError>(e),
    {
        let n = value.len();
        if n < 12 {
            return Err(ChunkError::InputValueTooSmall);
        }
        let len32 = u32_from_be(
            *slice_index_get(value, 0),
            *slice_index_get(value, 1),
            *slice_index_get(value, 2),
            *slice_index_get(value, 3),
        );
        let len = len32 as usize;
        if len > n - 12 {
            return Err(ChunkError::Truncated);
        }
        let tag = [
            *slice_index_get(value, 4),
            *slice_index_get(value, 5),
            *slice_index_get(value, 6),
            *slice_index_get(value, 7),
        ];
        proof {
            assert(tag@ =~= value@.subrange(4, 8));
        }
        let chunk_type = match ChunkType::try_from(tag) {
            Ok(ct) => ct,
            Err(_) => {
                return Err(ChunkError::InvalidChunkType);
            },
        };
        if !chunk_type.is_valid() {
            return Err(ChunkError::InvalidChunkType);
        }
        let mut data: Vec<u8> = Vec::new();
        let mut i: usize = 0;
        while i < len
            invariant
                i <= len,
                8 + len <= n,
                n == value@.len(),
                data@ =~= value@.subrange(8, 8 + i as int),
            decreases len - i,
        {
            data.push(*slice_index_get(value, 8 + i));
            i = i + 1;
        }
        let chunk = Chunk::new(chunk_type, data);
        let computed = chunk.crc();
        let stored = u32_from_be(
            *slice_index_get(value, 8 + len),
            *slice_index_get(value, 9 + len),
            *slice_index_get(value, 10 + len),
            *slice_index_get(value, 11 + len),
        );
        proof {
            assert(chunk@.ty =~= value@.subrange(4, 8));
            assert(chunk@.data =~= value@.subrange(8, 8 + len32 as int));
        }
        if computed != stored {
            return Err(ChunkError::InvalidCrc(computed, stored));
        }
        proof {
            let m = spec_parse_chunk(value@).unwrap();
            assert(chunk@ =~= m);
        }
        Ok(chunk)
    }
}

} // verus!
