use crate::error::{Error, ValidationError};
use crate::ids::{ChunkId, EntityId, EntityKind, ObservationId};
use crate::observation::Observation;
use vstd::prelude::*;
use vstd::string::StringSliceAdditionalSpecFns;
use vstd::utf8::*;

verus! {

/// What a chunk holds, as mathematical values.
pub struct ChunkView {
    pub id: ChunkId,
    pub observation_id: ObservationId,
    pub index: int,
    pub text: Seq<char>,
    pub start: int,
    pub end: int,
    pub token_estimate: nat,
}

/// A contiguous slice of an observation's content: the bytes
/// `[start_offset, end_offset)` of its UTF-8 encoding, and their text.
#[derive(Debug, Clone)]
pub struct Chunk {
    id: ChunkId,
    observation_id: ObservationId,
    index: i32,
    text: String,
    start_offset: usize,
    end_offset: usize,
    token_estimate: u32,
}

impl View for Chunk {
    type V = ChunkView;

    closed spec fn view(&self) -> ChunkView {
        ChunkView {
            id: self.id,
            observation_id: self.observation_id,
            index: self.index as int,
            text: self.text@,
            start: self.start_offset as int,
            end: self.end_offset as int,
            token_estimate: self.token_estimate as nat,
        }
    }
}

/// The placeholder size of every chunk: a constant, not a count of tokens.
pub const TOKEN_ESTIMATE: u32 = 1;

/// The largest content, in bytes, that can be chunked: every chunk index
/// must fit in an `i32`.
pub const MAX_CONTENT_BYTES: usize = 2147483647;

/// The end of the chunk that starts at byte `start`, for a chunk size of
/// `size`: the last character boundary after `start` and no further than
/// `size` bytes from it (or than the end of the text); where there is none
/// (the character at `start` is longer than `size` bytes), the first boundary
/// after `start`.
pub open spec fn is_chunk_end(bytes: Seq<u8>, start: int, size: int, end: int) -> bool {
    let limit = if start + size <= bytes.len() {
        start + size
    } else {
        bytes.len() as int
    };
    &&& 0 <= start < end <= bytes.len()
    &&& is_char_boundary(bytes, end)
    &&& if end <= limit {
        forall|k: int| end < k <= limit ==> !is_char_boundary(bytes, k)
    } else {
        forall|k: int| start < k < end ==> !is_char_boundary(bytes, k)
    }
}

/// The `i`-th of `chunks` is made as the chunking algorithm makes it: it
/// starts where the one before it ended (the first at byte 0), ends at
/// `is_chunk_end`, and holds exactly the text of its bytes.
pub open spec fn chunk_at(
    bytes: Seq<u8>,
    size: int,
    owner: ObservationId,
    chunks: Seq<ChunkView>,
    i: int,
) -> bool {
    let c = chunks[i];
    &&& c.index == i
    &&& c.start == (if i == 0 {
        0
    } else {
        chunks[i - 1].end
    })
    &&& is_chunk_end(bytes, c.start, size, c.end)
    &&& encode_utf8(c.text) == bytes.subrange(c.start, c.end)
    &&& c.observation_id == owner
    &&& c.id.entity == EntityKind::Chunk
    &&& c.token_estimate == TOKEN_ESTIMATE
}

/// `chunks` is the division of `content` into chunks of at most `size`
/// bytes: each is made as `chunk_at` says, and the last ends at the end of
/// the text.
pub open spec fn is_chunking(
    content: Seq<char>,
    size: int,
    owner: ObservationId,
    chunks: Seq<ChunkView>,
) -> bool {
    let bytes = encode_utf8(content);
    &&& forall|i: int| 0 <= i < chunks.len() ==> #[trigger] chunk_at(bytes, size, owner, chunks, i)
    &&& chunks.len() == 0 ==> bytes.len() == 0
    &&& chunks.len() > 0 ==> chunks.last().end == bytes.len()
}

/// The chunks' texts, one after the other.
pub open spec fn joined(chunks: Seq<ChunkView>) -> Seq<char>
    decreases chunks.len(),
{
    if chunks.len() == 0 {
        Seq::empty()
    } else {
        joined(chunks.drop_last()) + chunks.last().text
    }
}

/// The views of a sequence of chunks.
pub open spec fn views(chunks: Seq<Chunk>) -> Seq<ChunkView> {
    chunks.map_values(|c: Chunk| c@)
}

/// Encoding two texts one after the other gives the two encodings one after
/// the other.
pub proof fn lemma_encode_concat(a: Seq<char>, b: Seq<char>)
    ensures
        encode_utf8(a + b) == encode_utf8(a) + encode_utf8(b),
    decreases a.len(),
{
    if a.len() == 0 {
        assert(a + b =~= b);
        assert(encode_utf8(a) + encode_utf8(b) =~= encode_utf8(b));
    } else {
        lemma_encode_concat(a.drop_first(), b);
        assert((a + b).drop_first() =~= a.drop_first() + b);
        assert(encode_utf8(a + b) =~= encode_utf8(a) + encode_utf8(b));
    }
}

/// A character boundary of a text, at or after another, is a boundary of the
/// text that starts at the other.
proof fn lemma_boundary_in_suffix(bytes: Seq<u8>, start: int, end: int)
    requires
        valid_utf8(bytes),
        0 <= start <= end <= bytes.len(),
        is_char_boundary(bytes, start),
        is_char_boundary(bytes, end),
    ensures
        valid_utf8(bytes.subrange(start, bytes.len() as int)),
        is_char_boundary(bytes.subrange(start, bytes.len() as int), end - start),
{
    let rest = bytes.subrange(start, bytes.len() as int);
    valid_utf8_split(bytes, start);
    if end < bytes.len() {
        is_char_boundary_iff_not_is_continuation_byte(bytes, end);
        is_char_boundary_iff_not_is_continuation_byte(rest, end - start);
    } else {
        is_char_boundary_start_end_of_seq(rest);
    }
}

/// The smaller of `start + size` and `len`, without overflow.
fn window_end(start: usize, size: usize, len: usize) -> (r: usize)
    requires
        start <= len,
    ensures
        r == (if start + size <= len {
            start + size
        } else {
            len as int
        }),
{
    if size <= len - start {
        start + size
    } else {
        len
    }
}

/// The end of the chunk that starts at `start` (see `is_chunk_end`).
fn chunk_end(text: &str, start: usize, size: usize) -> (end: usize)
    requires
        size > 0,
        start < text.spec_bytes().len(),
        is_char_boundary(text.spec_bytes(), start as int),
    ensures
        is_chunk_end(text.spec_bytes(), start as int, size as int, end as int),
{
    let ghost bytes = text.spec_bytes();
    let len = text.as_bytes().len();
    let limit = window_end(start, size, len);
    let mut end = limit;
    while end > start && !text.is_char_boundary(end)
        invariant
            start <= end <= limit <= len,
            len == bytes.len(),
            bytes == text.spec_bytes(),
            forall|k: int| end < k <= limit ==> !is_char_boundary(bytes, k),
        decreases end,
    {
        end = end - 1;
    }
    if end == start {
        end = limit;
        while end < len && !text.is_char_boundary(end)
            invariant
                start < limit <= end <= len,
                len == bytes.len(),
                bytes == text.spec_bytes(),
                forall|k: int| start < k <= limit ==> !is_char_boundary(bytes, k),
                forall|k: int| limit <= k < end ==> !is_char_boundary(bytes, k),
            decreases len - end,
        {
            end = end + 1;
        }
        proof {
            encode_utf8_valid_utf8(text@);
            is_char_boundary_start_end_of_seq(bytes);
        }
    }
    end
}

/// The text of the bytes `[start, end)`, both of them character boundaries.
fn slice_text(text: &str, start: usize, end: usize) -> (r: String)
    requires
        start <= end <= text.spec_bytes().len(),
        is_char_boundary(text.spec_bytes(), start as int),
        is_char_boundary(text.spec_bytes(), end as int),
    ensures
        encode_utf8(r@) == text.spec_bytes().subrange(start as int, end as int),
{
    let ghost bytes = text.spec_bytes();
    proof {
        encode_utf8_valid_utf8(text@);
        lemma_boundary_in_suffix(bytes, start as int, end as int);
    }
    let (_, rest) = text.split_at(start);
    let (piece, _) = rest.split_at(end - start);
    assert(piece.spec_bytes() =~= bytes.subrange(start as int, end as int));
    piece.to_owned()
}

impl Chunk {
    /// A chunk as it was stored.
    pub fn reconstruct(
        id: ChunkId,
        observation_id: ObservationId,
        index: i32,
        text: String,
        start_offset: usize,
        end_offset: usize,
        token_estimate: u32,
    ) -> (r: Self)
        ensures
            r@ == (ChunkView {
                id,
                observation_id,
                index: index as int,
                text: text@,
                start: start_offset as int,
                end: end_offset as int,
                token_estimate: token_estimate as nat,
            }),
    {
        Chunk { id, observation_id, index, text, start_offset, end_offset, token_estimate }
    }

    /// A new chunk of an observation, with a fresh identifier.
    pub fn new(observation: &Observation, index: i32, text: String, start: usize, end: usize) -> (r: Self)
        ensures
            r@.id.entity == EntityKind::Chunk,
            r@.observation_id == observation@.id,
            r@.index == index,
            r@.text == text@,
            r@.start == start,
            r@.end == end,
            r@.token_estimate == TOKEN_ESTIMATE,
    {
        Chunk {
            id: EntityId::new_chunk(),
            observation_id: observation.id(),
            index,
            text,
            start_offset: start,
            end_offset: end,
            token_estimate: TOKEN_ESTIMATE,
        }
    }

    /// A copy of the chunk.
    pub fn duplicate(&self) -> (r: Self)
        ensures
            r@ == self@,
    {
        Chunk {
            id: self.id,
            observation_id: self.observation_id,
            index: self.index,
            text: self.text.clone(),
            start_offset: self.start_offset,
            end_offset: self.end_offset,
            token_estimate: self.token_estimate,
        }
    }

    pub fn id(&self) -> (r: ChunkId)
        ensures
            r == self@.id,
    {
        self.id
    }

    pub fn observation_id(&self) -> (r: ObservationId)
        ensures
            r == self@.observation_id,
    {
        self.observation_id
    }

    pub fn index(&self) -> (r: i32)
        ensures
            r == self@.index,
    {
        self.index
    }

    pub fn text(&self) -> (r: &str)
        ensures
            r@ == self@.text,
    {
        self.text.as_str()
    }

    pub fn start_offset(&self) -> (r: usize)
        ensures
            r == self@.start,
    {
        self.start_offset
    }

    pub fn end_offset(&self) -> (r: usize)
        ensures
            r == self@.end,
    {
        self.end_offset
    }

    /// A placeholder size; see `TOKEN_ESTIMATE`.
    pub fn token_estimate(&self) -> (r: u32)
        ensures
            r == self@.token_estimate,
    {
        self.token_estimate
    }
}

impl Observation {
    /// Divides the content into chunks of at most `chunk_size` bytes that
    /// never split a character (a character longer than `chunk_size` bytes
    /// makes a chunk of its own). A chunk size of zero is refused, and so is
    /// content too long for every chunk index to fit in an `i32`.
    pub fn chunk(&self, chunk_size: usize) -> (r: Result<Vec<Chunk>, Error>)
        ensures
            match r {
                Ok(chunks) => {
                    &&& chunk_size > 0
                    &&& encode_utf8(self@.content).len() <= MAX_CONTENT_BYTES
                    &&& is_chunking(self@.content, chunk_size as int, self@.id, views(chunks@))
                },
                Err(e) => if chunk_size == 0 {
                    e == Error::Validation(ValidationError::InvalidChunkSize)
                } else {
                    &&& encode_utf8(self@.content).len() > MAX_CONTENT_BYTES
                    &&& e == Error::Validation(
                        ValidationError::ContentTooLarge {
                            size: encode_utf8(self@.content).len() as usize,
                            max: MAX_CONTENT_BYTES,
                        },
                    )
                },
            },
    {
        if chunk_size == 0 {
            return Err(Error::Validation(ValidationError::InvalidChunkSize));
        }
        let text = self.content();
        let len = text.as_bytes().len();
        if len > MAX_CONTENT_BYTES {
            return Err(
                Error::Validation(
                    ValidationError::ContentTooLarge { size: len, max: MAX_CONTENT_BYTES },
                ),
            );
        }
        let ghost bytes = text.spec_bytes();
        let ghost owner = self@.id;
        let mut chunks: Vec<Chunk> = Vec::new();
        let mut start: usize = 0;
        let mut index: i32 = 0;
        proof {
            encode_utf8_valid_utf8(self@.content);
            is_char_boundary_start_end_of_seq(bytes);
            assert(views(chunks@) =~= Seq::<ChunkView>::empty());
        }
        while start < len
            invariant
                bytes == text.spec_bytes(),
                bytes == encode_utf8(self@.content),
                valid_utf8(bytes),
                len == bytes.len(),
                len <= MAX_CONTENT_BYTES,
                chunk_size > 0,
                owner == self@.id,
                start <= len,
                index as int == chunks@.len(),
                index as int <= start,
                is_char_boundary(bytes, start as int),
                chunks@.len() == 0 ==> start == 0,
                chunks@.len() > 0 ==> views(chunks@).last().end == start,
                forall|i: int|
                    0 <= i < chunks@.len() ==> #[trigger] chunk_at(
                        bytes,
                        chunk_size as int,
                        owner,
                        views(chunks@),
                        i,
                    ),
            decreases len - start,
        {
            let end = chunk_end(text, start, chunk_size);
            let piece = slice_text(text, start, end);
            let chunk = Chunk::new(self, index, piece, start, end);
            let ghost before = views(chunks@);
            chunks.push(chunk);
            proof {
                assert(views(chunks@) =~= before.push(chunk@));
                lemma_chunk_pushed(bytes, chunk_size as int, owner, before, chunk@, views(chunks@));
            }
            start = end;
            index = index + 1;
        }
        Ok(chunks)
    }
}

/// No chunk starts or ends inside the encoding of a character.
pub proof fn lemma_chunk_boundaries(
    content: Seq<char>,
    size: int,
    owner: ObservationId,
    chunks: Seq<ChunkView>,
)
    requires
        is_chunking(content, size, owner, chunks),
    ensures
        forall|i: int|
            0 <= i < chunks.len() ==> is_char_boundary(encode_utf8(content), #[trigger] chunks[i].start)
                && is_char_boundary(encode_utf8(content), chunks[i].end),
{
    let bytes = encode_utf8(content);
    encode_utf8_valid_utf8(content);
    is_char_boundary_start_end_of_seq(bytes);
    assert forall|i: int| 0 <= i < chunks.len() implies is_char_boundary(bytes, #[trigger] chunks[i].start)
        && is_char_boundary(bytes, chunks[i].end) by {
        assert(chunk_at(bytes, size, owner, chunks, i));
        if i > 0 {
            assert(chunk_at(bytes, size, owner, chunks, i - 1));
        }
    }
}

/// Adding a chunk made as `chunk_at` says keeps every earlier one so.
proof fn lemma_chunk_pushed(
    bytes: Seq<u8>,
    size: int,
    owner: ObservationId,
    before: Seq<ChunkView>,
    c: ChunkView,
    after: Seq<ChunkView>,
)
    requires
        after == before.push(c),
        forall|i: int| 0 <= i < before.len() ==> #[trigger] chunk_at(bytes, size, owner, before, i),
        c.index == before.len(),
        c.start == (if before.len() == 0 {
            0
        } else {
            before.last().end
        }),
        is_chunk_end(bytes, c.start, size, c.end),
        encode_utf8(c.text) == bytes.subrange(c.start, c.end),
        c.observation_id == owner,
        c.id.entity == EntityKind::Chunk,
        c.token_estimate == TOKEN_ESTIMATE,
    ensures
        forall|i: int| 0 <= i < after.len() ==> #[trigger] chunk_at(bytes, size, owner, after, i),
{
    assert forall|i: int| 0 <= i < after.len() implies #[trigger] chunk_at(
        bytes,
        size,
        owner,
        after,
        i,
    ) by {
        if i < before.len() {
            assert(chunk_at(bytes, size, owner, before, i));
            assert(after[i] == before[i]);
            if i > 0 {
                assert(after[i - 1] == before[i - 1]);
            }
        } else {
            assert(after[i] == c);
            if i > 0 {
                assert(after[i - 1] == before.last());
            }
        }
    }
}

/// Joining the chunks' texts in the order of their indices gives back the
/// content exactly; the first chunk starts at byte 0, each next one where the
/// one before it ended, and the last ends at the end of the content.
pub proof fn lemma_chunks_rebuild_content(
    content: Seq<char>,
    size: int,
    owner: ObservationId,
    chunks: Seq<ChunkView>,
)
    requires
        is_chunking(content, size, owner, chunks),
    ensures
        joined(chunks) == content,
        chunks.len() > 0 ==> chunks[0].start == 0,
        chunks.len() > 0 ==> chunks.last().end == encode_utf8(content).len(),
        forall|i: int| 0 <= i < chunks.len() - 1 ==> chunks[i + 1].start == #[trigger] chunks[i].end,
{
    assert forall|i: int| 0 <= i < chunks.len() - 1 implies chunks[i + 1].start == #[trigger] chunks[i].end by {
        assert(chunk_at(encode_utf8(content), size, owner, chunks, i + 1));
    }
    if chunks.len() > 0 {
        assert(chunk_at(encode_utf8(content), size, owner, chunks, 0));
    }
    let bytes = encode_utf8(content);
    lemma_joined_prefix(content, size, owner, chunks, chunks.len() as int);
    assert(chunks.subrange(0, chunks.len() as int) =~= chunks);
    if chunks.len() == 0 {
        assert(bytes.subrange(0, 0) =~= bytes);
    } else {
        assert(bytes.subrange(0, bytes.len() as int) =~= bytes);
    }
    assert(encode_utf8(joined(chunks)) == encode_utf8(content));
    encode_utf8_decode_utf8(joined(chunks));
    encode_utf8_decode_utf8(content);
}

/// The first `n` chunks encode the bytes up to where the `n`-th one ends.
proof fn lemma_joined_prefix(
    content: Seq<char>,
    size: int,
    owner: ObservationId,
    chunks: Seq<ChunkView>,
    n: int,
)
    requires
        is_chunking(content, size, owner, chunks),
        0 <= n <= chunks.len(),
    ensures
        encode_utf8(joined(chunks.subrange(0, n))) == encode_utf8(content).subrange(
            0,
            if n == 0 {
                0
            } else {
                chunks[n - 1].end
            },
        ),
    decreases n,
{
    let bytes = encode_utf8(content);
    if n == 0 {
        assert(joined(chunks.subrange(0, 0)) =~= Seq::<char>::empty());
        assert(bytes.subrange(0, 0) =~= Seq::<u8>::empty());
    } else {
        lemma_joined_prefix(content, size, owner, chunks, n - 1);
        let prev = chunks.subrange(0, n - 1);
        let cur = chunks.subrange(0, n);
        assert(cur.drop_last() =~= prev);
        let c = chunks[n - 1];
        assert(chunk_at(bytes, size, owner, chunks, n - 1));
        if n >= 2 {
            assert(chunk_at(bytes, size, owner, chunks, n - 2));
        }
        assert(cur.last() == c);
        lemma_encode_concat(joined(prev), c.text);
        let mid = if n - 1 == 0 {
            0
        } else {
            chunks[n - 2].end
        };
        assert(c.start == mid);
        assert(bytes.subrange(0, mid) + bytes.subrange(mid, c.end) =~= bytes.subrange(0, c.end));
    }
}

} // verus!
