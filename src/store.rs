use crate::chunk::{Chunk, ChunkView};
use crate::error::{Error, ValidationError};
use crate::ids::{hex_of, EntityId, EntityKind};
use crate::observation::{
    kind_name, opt_view, parsed_kind, valid_content, Observation, ObservationBuilder, SourceKind,
    Timestamp,
};
use vstd::prelude::*;

verus! {

/// A failure of the store.
#[derive(Debug, Clone)]
pub enum StoreError {
    /// A stored row does not make a valid domain value.
    Domain(Error),
    /// A number does not fit in its storage column; names the field.
    OutOfRange(&'static str),
    /// Another observation already has this identifier.
    DuplicateId,
    /// Two chunks of one batch have the same observation and index.
    DuplicateChunkIndex,
}

/// An observation as the `observations` table holds it.
#[derive(Debug, Clone)]
pub struct ObservationRow {
    pub id: u128,
    pub content_hash: String,
    pub content: String,
    pub title: Option<String>,
    pub source_url: Option<String>,
    pub source_kind: String,
    pub created_at: Timestamp,
    pub published_at: Option<Timestamp>,
}

/// A chunk as the `chunks` table holds it.
#[derive(Debug, Clone)]
pub struct ChunkRow {
    pub id: u128,
    pub observation_id: u128,
    pub chunk_index: i32,
    pub text: String,
    pub start_offset: i64,
    pub end_offset: i64,
    pub token_estimate: i32,
}

/// Whether a chunk's numbers fit the columns that store them: both offsets
/// in an `i64`, the token estimate in an `i32`.
pub open spec fn fits_columns(c: ChunkView) -> bool {
    &&& c.start <= i64::MAX
    &&& c.end <= i64::MAX
    &&& c.token_estimate <= i32::MAX
}

/// The first column that a chunk's numbers do not fit.
pub open spec fn first_unfit_column(c: ChunkView) -> Seq<char> {
    if c.start > i64::MAX {
        "start_offset"@
    } else if c.end > i64::MAX {
        "end_offset"@
    } else {
        "token_estimate"@
    }
}

impl ObservationRow {
    /// The row that stores an observation: its digest in hexadecimal and its
    /// source kind by name.
    pub fn from_observation(o: &Observation) -> (r: Self)
        ensures
            r.id == o@.id.raw,
            r.content_hash@ == hex_of(o@.content_hash),
            r.content@ == o@.content,
            opt_view(r.title) == o@.title,
            opt_view(r.source_url) == o@.source_url,
            r.source_kind@ == kind_name(o@.source_kind),
            r.created_at == o@.created_at,
            r.published_at == o@.published_at,
    {
        let title = match o.title() {
            Some(t) => Some(t.to_owned()),
            None => None,
        };
        let source_url = match o.source_url() {
            Some(u) => Some(u.to_owned()),
            None => None,
        };
        ObservationRow {
            id: o.id().into_inner(),
            content_hash: o.content_hash().to_hex(),
            content: o.content().to_owned(),
            title,
            source_url,
            source_kind: o.source_kind().as_str().to_owned(),
            created_at: o.created_at(),
            published_at: o.published_at(),
        }
    }

    /// Rebuilds the stored observation: its identifier and creation time are
    /// kept, its source kind is read leniently, and its digest is computed
    /// anew from the content. A row whose content is blank is refused.
    pub fn into_observation(self) -> (r: Result<Observation, StoreError>)
        ensures
            match r {
                Ok(o) => {
                    &&& valid_content(self.content@)
                    &&& o@.valid()
                    &&& o@.id == (EntityId { entity: EntityKind::Observation, raw: self.id })
                    &&& o@.content == self.content@
                    &&& o@.title == opt_view(self.title)
                    &&& o@.source_url == opt_view(self.source_url)
                    &&& o@.source_kind == parsed_kind(self.source_kind@)
                    &&& o@.created_at == self.created_at
                    &&& o@.published_at == self.published_at
                },
                Err(e) => !valid_content(self.content@) && e == StoreError::Domain(
                    Error::Validation(ValidationError::EmptyContent),
                ),
            },
    {
        let kind = SourceKind::parse(self.source_kind.as_str());
        let builder = ObservationBuilder {
            content: Some(self.content),
            title: self.title,
            source_url: self.source_url,
            source_kind: kind,
            published_at: self.published_at,
            id: Some(EntityId::observation(self.id)),
            created_at: Some(self.created_at),
        };
        match builder.build() {
            Ok(o) => Ok(o),
            Err(e) => Err(StoreError::Domain(e)),
        }
    }
}

impl ChunkRow {
    /// The row that stores a chunk; a number that does not fit its column
    /// is refused, naming the first such field.
    pub fn from_chunk(c: &Chunk) -> (r: Result<Self, StoreError>)
        ensures
            match r {
                Ok(row) => {
                    &&& fits_columns(c@)
                    &&& row.id == c@.id.raw
                    &&& row.observation_id == c@.observation_id.raw
                    &&& row.chunk_index == c@.index
                    &&& row.text@ == c@.text
                    &&& row.start_offset == c@.start
                    &&& row.end_offset == c@.end
                    &&& row.token_estimate == c@.token_estimate
                },
                Err(e) => {
                    &&& !fits_columns(c@)
                    &&& e is OutOfRange
                    &&& e->OutOfRange_0@ == first_unfit_column(c@)
                },
            },
    {
        let start = c.start_offset();
        let end = c.end_offset();
        let tokens = c.token_estimate();
        if start as u64 > i64::MAX as u64 {
            return Err(StoreError::OutOfRange("start_offset"));
        }
        if end as u64 > i64::MAX as u64 {
            return Err(StoreError::OutOfRange("end_offset"));
        }
        if tokens > i32::MAX as u32 {
            return Err(StoreError::OutOfRange("token_estimate"));
        }
        Ok(
            ChunkRow {
                id: c.id().into_inner(),
                observation_id: c.observation_id().into_inner(),
                chunk_index: c.index(),
                text: c.text().to_owned(),
                start_offset: start as i64,
                end_offset: end as i64,
                token_estimate: tokens as i32,
            },
        )
    }

    /// Rebuilds the stored chunk; a negative number, or an offset too large
    /// for a `usize`, is refused, naming the first such field.
    pub fn into_chunk(self) -> (r: Result<Chunk, StoreError>)
        ensures
            match r {
                Ok(c) => {
                    &&& 0 <= self.start_offset <= usize::MAX
                    &&& 0 <= self.end_offset <= usize::MAX
                    &&& 0 <= self.token_estimate
                    &&& c@ == (ChunkView {
                        id: EntityId { entity: EntityKind::Chunk, raw: self.id },
                        observation_id: EntityId { entity: EntityKind::Observation, raw: self.observation_id },
                        index: self.chunk_index as int,
                        text: self.text@,
                        start: self.start_offset as int,
                        end: self.end_offset as int,
                        token_estimate: self.token_estimate as nat,
                    })
                },
                Err(e) => {
                    &&& e is OutOfRange
                    &&& if !(0 <= self.start_offset <= usize::MAX) {
                        e->OutOfRange_0@ == "start_offset"@
                    } else if !(0 <= self.end_offset <= usize::MAX) {
                        e->OutOfRange_0@ == "end_offset"@
                    } else {
                        self.token_estimate < 0 && e->OutOfRange_0@ == "token_estimate"@
                    }
                },
            },
    {
        if self.start_offset < 0 || self.start_offset as u64 > usize::MAX as u64 {
            return Err(StoreError::OutOfRange("start_offset"));
        }
        if self.end_offset < 0 || self.end_offset as u64 > usize::MAX as u64 {
            return Err(StoreError::OutOfRange("end_offset"));
        }
        if self.token_estimate < 0 {
            return Err(StoreError::OutOfRange("token_estimate"));
        }
        Ok(
            Chunk::reconstruct(
                EntityId::chunk(self.id),
                EntityId::observation(self.observation_id),
                self.chunk_index,
                self.text,
                self.start_offset as usize,
                self.end_offset as usize,
                self.token_estimate as u32,
            ),
        )
    }
}

/// The rows that store a batch of chunks, all of them or none: the first
/// chunk whose numbers do not fit its columns fails the whole batch.
pub fn chunk_rows(chunks: &[Chunk]) -> (r: Result<Vec<ChunkRow>, StoreError>)
    ensures
        match r {
            Ok(rows) => {
                &&& rows@.len() == chunks@.len()
                &&& forall|i: int|
                    0 <= i < chunks@.len() ==> {
                        let c = #[trigger] chunks@[i]@;
                        let row = rows@[i];
                        &&& fits_columns(c)
                        &&& row.id == c.id.raw
                        &&& row.observation_id == c.observation_id.raw
                        &&& row.chunk_index == c.index
                        &&& row.text@ == c.text
                        &&& row.start_offset == c.start
                        &&& row.end_offset == c.end
                        &&& row.token_estimate == c.token_estimate
                    }
            },
            Err(e) => exists|i: int|
                0 <= i < chunks@.len() && !fits_columns(#[trigger] chunks@[i]@) && (forall|j: int|
                    0 <= j < i ==> fits_columns(#[trigger] chunks@[j]@)) && e is OutOfRange
                    && e->OutOfRange_0@ == first_unfit_column(chunks@[i]@),
        },
{
    let mut rows: Vec<ChunkRow> = Vec::new();
    let mut i: usize = 0;
    while i < chunks.len()
        invariant
            i <= chunks@.len(),
            rows@.len() == i,
            forall|k: int|
                0 <= k < i ==> {
                    let c = #[trigger] chunks@[k]@;
                    let row = rows@[k];
                    &&& fits_columns(c)
                    &&& row.id == c.id.raw
                    &&& row.observation_id == c.observation_id.raw
                    &&& row.chunk_index == c.index
                    &&& row.text@ == c.text
                    &&& row.start_offset == c.start
                    &&& row.end_offset == c.end
                    &&& row.token_estimate == c.token_estimate
                },
        decreases chunks@.len() - i,
    {
        match ChunkRow::from_chunk(&chunks[i]) {
            Ok(row) => rows.push(row),
            Err(e) => {
                assert(forall|j: int| 0 <= j < i ==> fits_columns(#[trigger] chunks@[j]@));
                return Err(e);
            },
        }
        i = i + 1;
    }
    Ok(rows)
}

} // verus!
