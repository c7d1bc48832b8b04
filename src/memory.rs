use crate::chunk::{chunk_at, is_chunking, views, Chunk, ChunkView, MAX_CONTENT_BYTES};
use crate::error::{Error, ValidationError};
use crate::ids::{EntityKind, ObservationId};
use crate::observation::{
    opt_view, valid_content, Observation, ObservationBuilder, ObservationView, SourceKind,
};
use crate::store::{chunk_rows, fits_columns, StoreError};
use vstd::prelude::*;
use vstd::utf8::encode_utf8;

verus! {

/// What a store holds, as mathematical values.
pub struct StoreView {
    pub observations: Seq<ObservationView>,
    pub chunks: Seq<ChunkView>,
}

/// Whether an observation with digest `h` is stored.
pub open spec fn has_hash(obs: Seq<ObservationView>, h: Seq<u8>) -> bool {
    exists|i: int| 0 <= i < obs.len() && (#[trigger] obs[i]).content_hash == h
}

/// The position of the observation with digest `h`.
pub open spec fn hash_index(obs: Seq<ObservationView>, h: Seq<u8>) -> int {
    choose|i: int| 0 <= i < obs.len() && (#[trigger] obs[i]).content_hash == h
}

/// Whether an observation with identifier `id` is stored.
pub open spec fn has_id(obs: Seq<ObservationView>, id: ObservationId) -> bool {
    exists|i: int| 0 <= i < obs.len() && (#[trigger] obs[i]).id == id
}

/// The position of the observation with identifier `id`.
pub open spec fn id_index(obs: Seq<ObservationView>, id: ObservationId) -> int {
    choose|i: int| 0 <= i < obs.len() && (#[trigger] obs[i]).id == id
}

/// Whether some chunk of `batch` belongs to observation `id`.
pub open spec fn in_batch(batch: Seq<ChunkView>, id: ObservationId) -> bool {
    exists|j: int| 0 <= j < batch.len() && (#[trigger] batch[j]).observation_id == id
}

/// Whether two chunks of `cs` share an observation and an index.
pub open spec fn has_duplicate_key(cs: Seq<ChunkView>) -> bool {
    exists|i: int, j: int|
        0 <= i < j < cs.len() && (#[trigger] cs[i]).observation_id == (#[trigger] cs[j]).observation_id
            && cs[i].index == cs[j].index
}

/// What storing observation `o` returns, given the stored `obs`.
pub open spec fn upsert_result(obs: Seq<ObservationView>, o: ObservationView) -> Result<
    (ObservationId, bool),
    StoreError,
> {
    if has_hash(obs, o.content_hash) {
        Ok((obs[hash_index(obs, o.content_hash)].id, false))
    } else if has_id(obs, o.id) {
        Err(StoreError::DuplicateId)
    } else {
        Ok((o.id, true))
    }
}

/// The stored observations after storing `o`.
pub open spec fn upserted(obs: Seq<ObservationView>, o: ObservationView) -> Seq<ObservationView> {
    if !has_hash(obs, o.content_hash) && !has_id(obs, o.id) {
        obs.push(o)
    } else {
        obs
    }
}

/// The stored chunks after a batch is written: every chunk of an
/// observation that the batch speaks of is replaced by the batch's.
pub open spec fn replaced(chunks: Seq<ChunkView>, batch: Seq<ChunkView>) -> Seq<ChunkView> {
    chunks.filter(|c: ChunkView| !in_batch(batch, c.observation_id)) + batch
}

/// The chunks of `cs` that belong to observation `id`, in their order.
pub open spec fn owned_by(cs: Seq<ChunkView>, id: ObservationId) -> Seq<ChunkView> {
    cs.filter(|c: ChunkView| c.observation_id == id)
}

/// Whether `cs` is in strictly ascending order of index.
pub open spec fn ascending(cs: Seq<ChunkView>) -> bool {
    forall|i: int, j: int| 0 <= i < j < cs.len() ==> (#[trigger] cs[i]).index < (#[trigger] cs[j]).index
}

impl StoreView {
    /// The store's own rules: no two observations share a digest or an
    /// identifier, and no two chunks share an observation and an index.
    pub open spec fn wf(&self) -> bool {
        &&& forall|i: int, j: int|
            0 <= i < j < self.observations.len() ==> (#[trigger] self.observations[i]).content_hash
                != (#[trigger] self.observations[j]).content_hash
        &&& forall|i: int, j: int|
            0 <= i < j < self.observations.len() ==> (#[trigger] self.observations[i]).id
                != (#[trigger] self.observations[j]).id
        &&& !has_duplicate_key(self.chunks)
    }

    /// The chunks of observation `id`.
    pub open spec fn chunks_of(&self, id: ObservationId) -> Seq<ChunkView> {
        owned_by(self.chunks, id)
    }
}

/// The observations and chunks that a store holds, kept in memory. It keeps
/// the same contract as a database that holds them.
pub struct MemoryStore {
    observations: Vec<Observation>,
    chunks: Vec<Chunk>,
}

impl View for MemoryStore {
    type V = StoreView;

    closed spec fn view(&self) -> StoreView {
        StoreView {
            observations: self.observations@.map_values(|o: Observation| o@),
            chunks: self.chunks@.map_values(|c: Chunk| c@),
        }
    }
}

impl MemoryStore {
    /// An empty store.
    pub fn new() -> (r: Self)
        ensures
            r@.wf(),
            r@.observations.len() == 0,
            r@.chunks.len() == 0,
    {
        let r = MemoryStore { observations: Vec::new(), chunks: Vec::new() };
        assert(r@.chunks =~= Seq::<ChunkView>::empty());
        r
    }

    /// Stores an observation unless one with the same digest is stored: then
    /// nothing changes and the stored one's identifier comes back with
    /// `false`. Otherwise the observation is added and its identifier comes
    /// back with `true`; an identifier that is already taken is refused.
    pub fn upsert_observation(&mut self, o: &Observation) -> (r: Result<
        (ObservationId, bool),
        StoreError,
    >)
        requires
            old(self)@.wf(),
        ensures
            final(self)@.wf(),
            final(self)@.chunks == old(self)@.chunks,
            final(self)@.observations == upserted(old(self)@.observations, o@),
            r == upsert_result(old(self)@.observations, o@),
    {
        let ghost obs = self@.observations;
        let mut i: usize = 0;
        while i < self.observations.len()
            invariant
                obs == self@.observations,
                self@ == old(self)@,
                self@.wf(),
                i <= self.observations@.len(),
                forall|k: int| 0 <= k < i ==> (#[trigger] obs[k]).content_hash != o@.content_hash,
            decreases self.observations@.len() - i,
        {
            if self.observations[i].content_hash().same(o.content_hash()) {
                assert(obs[i as int].content_hash == o@.content_hash);
                assert(has_hash(obs, o@.content_hash));
                let ghost k = hash_index(obs, o@.content_hash);
                assert(k == i);
                return Ok((self.observations[i].id(), false));
            }
            i = i + 1;
        }
        let mut j: usize = 0;
        while j < self.observations.len()
            invariant
                obs == self@.observations,
                self@ == old(self)@,
                self@.wf(),
                j <= self.observations@.len(),
                forall|k: int| 0 <= k < obs.len() ==> (#[trigger] obs[k]).content_hash != o@.content_hash,
                forall|k: int| 0 <= k < j ==> (#[trigger] obs[k]).id != o@.id,
            decreases self.observations@.len() - j,
        {
            if self.observations[j].id() == o.id() {
                assert(obs[j as int].id == o@.id);
                return Err(StoreError::DuplicateId);
            }
            j = j + 1;
        }
        self.observations.push(o.duplicate());
        assert(self@.observations =~= obs.push(o@));
        Ok((o.id(), true))
    }

    /// Writes a batch of chunks as one transaction: either all of it or
    /// nothing. A chunk whose numbers do not fit their columns fails the
    /// batch, and so do two chunks of the batch with the same observation
    /// and index. Otherwise the stored chunks of every observation that the
    /// batch speaks of are replaced by the batch's (no stale chunk of an
    /// earlier, longer division is left), and the number of rows written
    /// comes back.
    pub fn upsert_chunks(&mut self, batch: &[Chunk]) -> (r: Result<u64, StoreError>)
        requires
            old(self)@.wf(),
        ensures
            final(self)@.wf(),
            final(self)@.observations == old(self)@.observations,
            match r {
                Ok(n) => {
                    &&& forall|i: int| 0 <= i < batch@.len() ==> fits_columns(#[trigger] batch@[i]@)
                    &&& !has_duplicate_key(views(batch@))
                    &&& n == batch@.len()
                    &&& final(self)@.chunks == replaced(old(self)@.chunks, views(batch@))
                },
                Err(e) => {
                    &&& final(self)@ == old(self)@
                    &&& if exists|i: int| 0 <= i < batch@.len() && !fits_columns(#[trigger] batch@[i]@) {
                        e is OutOfRange
                    } else {
                        has_duplicate_key(views(batch@)) && e == StoreError::DuplicateChunkIndex
                    }
                },
            },
    {
        let ghost bv = views(batch@);
        let ghost old_chunks = self@.chunks;
        match chunk_rows(batch) {
            Ok(_) => {},
            Err(e) => {
                return Err(e);
            },
        }
        let mut i: usize = 0;
        while i < batch.len()
            invariant
                bv == views(batch@),
                self@ == old(self)@,
                self@.wf(),
                forall|q: int| 0 <= q < batch@.len() ==> fits_columns(#[trigger] batch@[q]@),
                i <= batch@.len(),
                forall|a: int, b: int|
                    0 <= a < b < batch@.len() && a < i ==> !((#[trigger] bv[a]).observation_id
                        == (#[trigger] bv[b]).observation_id && bv[a].index == bv[b].index),
            decreases batch@.len() - i,
        {
            let mut j: usize = i + 1;
            while j < batch.len()
                invariant
                    bv == views(batch@),
                    self@ == old(self)@,
                    self@.wf(),
                    forall|q: int| 0 <= q < batch@.len() ==> fits_columns(#[trigger] batch@[q]@),
                    i < batch@.len(),
                    i + 1 <= j <= batch@.len(),
                    forall|a: int, b: int|
                        0 <= a < b < batch@.len() && a < i ==> !((#[trigger] bv[a]).observation_id
                            == (#[trigger] bv[b]).observation_id && bv[a].index == bv[b].index),
                    forall|b: int|
                        i < b < j ==> !((#[trigger] bv[b]).observation_id == bv[i as int].observation_id
                            && bv[b].index == bv[i as int].index),
                decreases batch@.len() - j,
            {
                if batch[i].observation_id() == batch[j].observation_id() && batch[i].index()
                    == batch[j].index() {
                    assert(bv[i as int].observation_id == bv[j as int].observation_id);
                    assert(has_duplicate_key(bv));
                    return Err(StoreError::DuplicateChunkIndex);
                }
                j = j + 1;
            }
            i = i + 1;
        }
        let ghost pred = |c: ChunkView| !in_batch(bv, c.observation_id);
        let mut kept: Vec<Chunk> = Vec::new();
        let mut k: usize = 0;
        while k < self.chunks.len()
            invariant
                bv == views(batch@),
                old_chunks == self@.chunks,
                self@ == old(self)@,
                pred == (|c: ChunkView| !in_batch(bv, c.observation_id)),
                k <= self.chunks@.len(),
                views(kept@) == old_chunks.subrange(0, k as int).filter(pred),
            decreases self.chunks@.len() - k,
        {
            let c = &self.chunks[k];
            let mut found = false;
            let mut m: usize = 0;
            while m < batch.len()
                invariant
                    bv == views(batch@),
                    m <= batch@.len(),
                    found <==> exists|q: int| 0 <= q < m && (#[trigger] bv[q]).observation_id == c@.observation_id,
                decreases batch@.len() - m,
            {
                assert(bv[m as int] == batch@[m as int]@);
                if batch[m].observation_id() == c.observation_id() {
                    found = true;
                }
                m = m + 1;
            }
            let ghost before = views(kept@);
            if !found {
                kept.push(c.duplicate());
            }
            proof {
                let s = old_chunks.subrange(0, k as int + 1);
                assert(s.drop_last() =~= old_chunks.subrange(0, k as int));
                assert(s.last() == old_chunks[k as int]);
                reveal(Seq::filter);
                assert(views(kept@) =~= s.filter(pred));
            }
            k = k + 1;
        }
        assert(old_chunks.subrange(0, old_chunks.len() as int) =~= old_chunks);
        assert(old_chunks.filter(pred) + bv.subrange(0, 0) =~= old_chunks.filter(pred));
        let mut b: usize = 0;
        while b < batch.len()
            invariant
                bv == views(batch@),
                b <= batch@.len(),
                views(kept@) == old_chunks.filter(pred) + bv.subrange(0, b as int),
            decreases batch@.len() - b,
        {
            let ghost before = views(kept@);
            kept.push(batch[b].duplicate());
            assert(views(kept@) =~= before.push(batch@[b as int]@));
            assert(bv.subrange(0, b as int + 1) =~= bv.subrange(0, b as int).push(bv[b as int]));
            assert(views(kept@) =~= old_chunks.filter(pred) + bv.subrange(0, b as int + 1));
            b = b + 1;
        }
        assert(bv.subrange(0, bv.len() as int) =~= bv);
        self.chunks = kept;
        proof {
            lemma_replaced_wf(old_chunks, bv);
        }
        Ok(batch.len() as u64)
    }

    /// The chunks of observation `id`, in ascending order of index,
    /// whatever the order in which they were written.
    pub fn list_chunks(&self, id: ObservationId) -> (r: Vec<Chunk>)
        requires
            self@.wf(),
        ensures
            ascending(views(r@)),
            views(r@).len() == self@.chunks_of(id).len(),
            forall|c: ChunkView|
                views(r@).contains(c) <==> (self@.chunks.contains(c) && c.observation_id == id),
    {
        let ghost all = self@.chunks;
        let ghost pred = |c: ChunkView| c.observation_id == id;
        let mut out: Vec<Chunk> = Vec::new();
        let mut i: usize = 0;
        while i < self.chunks.len()
            invariant
                all == self@.chunks,
                self@.wf(),
                pred == (|c: ChunkView| c.observation_id == id),
                i <= all.len(),
                ascending(views(out@)),
                views(out@).len() == all.subrange(0, i as int).filter(pred).len(),
                forall|c: ChunkView|
                    views(out@).contains(c) <==> (exists|k: int|
                        0 <= k < i && all[k] == c && c.observation_id == id),
            decreases all.len() - i,
        {
            let ghost before = views(out@);
            proof {
                let s = all.subrange(0, i as int + 1);
                assert(s.drop_last() =~= all.subrange(0, i as int));
                assert(s.last() == all[i as int]);
                reveal(Seq::filter);
            }
            if self.chunks[i].observation_id() == id {
                let c = &self.chunks[i];
                let ghost cv = c@;
                assert(cv == all[i as int]);
                let mut p: usize = 0;
                while p < out.len() && out[p].index() < c.index()
                    invariant
                        before == views(out@),
                        cv == c@,
                        p <= out@.len(),
                        forall|q: int| 0 <= q < p ==> (#[trigger] before[q]).index < cv.index,
                    decreases out@.len() - p,
                {
                    assert(before[p as int] == out@[p as int]@);
                    p = p + 1;
                }
                proof {
                    assert forall|q: int| p <= q < before.len() implies cv.index < (
                    #[trigger] before[q]).index by {
                        assert(before.contains(before[q]));
                        let k = choose|k: int|
                            0 <= k < i && all[k] == before[q] && before[q].observation_id == id;
                        assert(all[k].observation_id == all[i as int].observation_id);
                        assert(all[k].index != all[i as int].index);
                        if q > p {
                            assert(before[p as int].index < before[q].index);
                        }
                    }
                }
                out.insert(p, c.duplicate());
                proof {
                    let after = views(out@);
                    assert(after =~= before.insert(p as int, cv));
                    assert forall|a: int, b: int| 0 <= a < b < after.len() implies (
                    #[trigger] after[a]).index < (#[trigger] after[b]).index by {
                        if b < p {
                            assert(after[a] == before[a] && after[b] == before[b]);
                        } else if b == p {
                            assert(after[a] == before[a]);
                        } else if a < p {
                            assert(after[a] == before[a] && after[b] == before[b - 1]);
                        } else if a == p {
                            assert(after[b] == before[b - 1]);
                        } else {
                            assert(after[a] == before[a - 1] && after[b] == before[b - 1]);
                        }
                    }
                    assert forall|x: ChunkView| after.contains(x) <==> (exists|k: int|
                        0 <= k < i + 1 && all[k] == x && x.observation_id == id) by {
                        if after.contains(x) {
                            let j = choose|j: int| 0 <= j < after.len() && after[j] == x;
                            if j < p {
                                assert(before[j] == x);
                                assert(before.contains(x));
                            } else if j > p {
                                assert(before[j - 1] == x);
                                assert(before.contains(x));
                            }
                        }
                        if exists|k: int| 0 <= k < i + 1 && all[k] == x && x.observation_id == id {
                            let k = choose|k: int| 0 <= k < i + 1 && all[k] == x && x.observation_id == id;
                            if k < i {
                                assert(before.contains(x));
                                let j = choose|j: int| 0 <= j < before.len() && before[j] == x;
                                if j < p {
                                    assert(after[j] == x);
                                } else {
                                    assert(after[j + 1] == x);
                                }
                            } else {
                                assert(after[p as int] == x);
                            }
                        }
                    }
                }
            } else {
                proof {
                    assert forall|x: ChunkView| before.contains(x) <==> (exists|k: int|
                        0 <= k < i + 1 && all[k] == x && x.observation_id == id) by {
                        if exists|k: int| 0 <= k < i + 1 && all[k] == x && x.observation_id == id {
                            let k = choose|k: int| 0 <= k < i + 1 && all[k] == x && x.observation_id == id;
                            assert(k != i);
                        }
                    }
                }
            }
            i = i + 1;
        }
        proof {
            assert(all.subrange(0, all.len() as int) =~= all);
            assert forall|c: ChunkView| views(out@).contains(c) <==> (all.contains(c) && c.observation_id == id) by {
                if all.contains(c) && c.observation_id == id {
                    let k = choose|k: int| 0 <= k < all.len() && all[k] == c;
                }
            }
        }
        out
    }

    /// Ingests a text typed or read by a user: it becomes an observation of
    /// source kind `Text`, stored unless its content is already stored (see
    /// `upsert_observation`). Blank text is refused before anything is
    /// stored.
    pub fn ingest_text(
        &mut self,
        content: String,
        title: Option<String>,
        source_url: Option<String>,
    ) -> (r: Result<(ObservationId, bool), StoreError>)
        requires
            old(self)@.wf(),
        ensures
            final(self)@.wf(),
            final(self)@.chunks == old(self)@.chunks,
            if valid_content(content@) {
                exists|o: ObservationView|
                    {
                        &&& o.valid()
                        &&& o.content == content@
                        &&& o.title == opt_view(title)
                        &&& o.source_url == opt_view(source_url)
                        &&& o.source_kind == SourceKind::Text
                        &&& o.published_at.is_none()
                        &&& o.id.entity == EntityKind::Observation
                        &&& r == upsert_result(old(self)@.observations, o)
                        &&& final(self)@.observations == #[trigger] upserted(
                            old(self)@.observations,
                            o,
                        )
                    }
            } else {
                &&& r == Err::<(ObservationId, bool), StoreError>(
                    StoreError::Domain(Error::Validation(ValidationError::EmptyContent)),
                )
                &&& final(self)@ == old(self)@
            },
    {
        let builder = ObservationBuilder {
            content: Some(content),
            title,
            source_url,
            source_kind: SourceKind::Text,
            published_at: None,
            id: None,
            created_at: None,
        };
        match builder.build() {
            Ok(o) => self.upsert_observation(&o),
            Err(e) => Err(StoreError::Domain(e)),
        }
    }

    /// Divides the stored observation `id` into chunks of at most
    /// `chunk_size` bytes and writes them in place of its earlier ones; the
    /// number of chunks comes back. `None` when no such observation is
    /// stored; a chunk size of zero is refused.
    pub fn chunk_observation(&mut self, id: ObservationId, chunk_size: usize) -> (r: Result<
        Option<usize>,
        StoreError,
    >)
        requires
            old(self)@.wf(),
        ensures
            final(self)@.wf(),
            final(self)@.observations == old(self)@.observations,
            !has_id(old(self)@.observations, id) ==> r == Ok::<Option<usize>, StoreError>(None)
                && final(self)@ == old(self)@,
            has_id(old(self)@.observations, id) ==> {
                let o = old(self)@.observations[id_index(old(self)@.observations, id)];
                if chunk_size == 0 {
                    &&& r == Err::<Option<usize>, StoreError>(
                        StoreError::Domain(Error::Validation(ValidationError::InvalidChunkSize)),
                    )
                    &&& final(self)@ == old(self)@
                } else if encode_utf8(o.content).len() > MAX_CONTENT_BYTES {
                    &&& r == Err::<Option<usize>, StoreError>(
                        StoreError::Domain(
                            Error::Validation(
                                ValidationError::ContentTooLarge {
                                    size: encode_utf8(o.content).len() as usize,
                                    max: MAX_CONTENT_BYTES,
                                },
                            ),
                        ),
                    )
                    &&& final(self)@ == old(self)@
                } else {
                    exists|cs: Seq<ChunkView>|
                        {
                            &&& is_chunking(o.content, chunk_size as int, id, cs)
                            &&& r == Ok::<Option<usize>, StoreError>(Some(cs.len() as usize))
                            &&& final(self)@.chunks == #[trigger] replaced(old(self)@.chunks, cs)
                        }
                }
            },
    {
        let o = match self.get_observation(id) {
            Some(o) => o,
            None => {
                return Ok(None);
            },
        };
        let chunks = match o.chunk(chunk_size) {
            Ok(c) => c,
            Err(e) => {
                return Err(StoreError::Domain(e));
            },
        };
        let ghost cs = views(chunks@);
        proof {
            let bytes = encode_utf8(o@.content);
            assert forall|i: int| 0 <= i < chunks@.len() implies fits_columns(
                #[trigger] chunks@[i]@,
            ) by {
                assert(cs[i] == chunks@[i]@);
                assert(chunk_at(bytes, chunk_size as int, o@.id, cs, i));
            }
            assert forall|a: int, b: int|
                0 <= a < b < cs.len() && (#[trigger] cs[a]).observation_id == (
                #[trigger] cs[b]).observation_id implies cs[a].index != cs[b].index by {
                assert(chunk_at(bytes, chunk_size as int, o@.id, cs, a));
                assert(chunk_at(bytes, chunk_size as int, o@.id, cs, b));
            }
        }
        let n = chunks.len();
        match self.upsert_chunks(chunks.as_slice()) {
            Ok(_) => Ok(Some(n)),
            Err(e) => Err(e),
        }
    }

    /// The stored observation with identifier `id`, if there is one.
    pub fn get_observation(&self, id: ObservationId) -> (r: Option<Observation>)
        requires
            self@.wf(),
        ensures
            match r {
                Some(o) => has_id(self@.observations, id) && o@ == self@.observations[id_index(
                    self@.observations,
                    id,
                )],
                None => !has_id(self@.observations, id),
            },
    {
        let ghost obs = self@.observations;
        let mut i: usize = 0;
        while i < self.observations.len()
            invariant
                obs == self@.observations,
                self@.wf(),
                i <= self.observations@.len(),
                forall|k: int| 0 <= k < i ==> (#[trigger] obs[k]).id != id,
            decreases self.observations@.len() - i,
        {
            if self.observations[i].id() == id {
                assert(obs[i as int].id == id);
                let ghost k = id_index(obs, id);
                assert(k == i);
                return Some(self.observations[i].duplicate());
            }
            i = i + 1;
        }
        None
    }
}

/// Storing the same content twice gives the same identifier both times, and
/// the second time nothing is added and `false` comes back; where the
/// content was not stored before, the first time stores it and gives `true`.
pub proof fn lemma_ingest_idempotent(s: StoreView, o1: ObservationView, o2: ObservationView)
    requires
        s.wf(),
        o1.valid(),
        o2.valid(),
        o1.content == o2.content,
        upsert_result(s.observations, o1) is Ok,
    ensures
        upsert_result(upserted(s.observations, o1), o2) == Ok::<(ObservationId, bool), StoreError>(
            (upsert_result(s.observations, o1)->Ok_0.0, false),
        ),
        upserted(upserted(s.observations, o1), o2) == upserted(s.observations, o1),
        !has_hash(s.observations, o1.content_hash) ==> upsert_result(s.observations, o1) == Ok::<
            (ObservationId, bool),
            StoreError,
        >((o1.id, true)),
{
    let obs = s.observations;
    let h = o1.content_hash;
    assert(o2.content_hash == h);
    if !has_hash(obs, h) {
        let obs1 = obs.push(o1);
        assert(obs1[obs.len() as int].content_hash == h);
        assert(has_hash(obs1, h));
        let k = hash_index(obs1, h);
        if k < obs.len() {
            assert(obs[k] == obs1[k]);
            assert(has_hash(obs, h));
        }
        assert(k == obs.len());
    }
}

/// Writing a new division of an observation replaces its chunks: afterwards
/// its chunks are exactly the new ones, at every index, whatever was stored
/// before; the chunks of every other observation stay as they were.
pub proof fn lemma_rechunk_replaces(chunks: Seq<ChunkView>, batch: Seq<ChunkView>, id: ObservationId)
    requires
        batch.len() > 0,
        forall|i: int| 0 <= i < batch.len() ==> (#[trigger] batch[i]).observation_id == id,
    ensures
        owned_by(replaced(chunks, batch), id) == batch,
        forall|other: ObservationId|
            other != id ==> #[trigger] owned_by(replaced(chunks, batch), other) == owned_by(
                chunks,
                other,
            ),
{
    let keep = |c: ChunkView| !in_batch(batch, c.observation_id);
    let kept = chunks.filter(keep);
    broadcast use vstd::seq_lib::group_filter_ensures;

    assert(batch[0].observation_id == id);
    assert(in_batch(batch, id));
    Seq::filter_distributes_over_add(kept, batch, |c: ChunkView| c.observation_id == id);
    lemma_filter_none(kept, |c: ChunkView| c.observation_id == id);
    lemma_filter_all(batch, |c: ChunkView| c.observation_id == id);
    assert(owned_by(replaced(chunks, batch), id) =~= batch);
    assert forall|other: ObservationId|
        other != id implies #[trigger] owned_by(replaced(chunks, batch), other) == owned_by(
            chunks,
            other,
        ) by {
        let mine = |c: ChunkView| c.observation_id == other;
        Seq::filter_distributes_over_add(kept, batch, mine);
        lemma_filter_none(batch, mine);
        assert forall|c: ChunkView| #[trigger] mine(c) implies keep(c) by {
            if in_batch(batch, c.observation_id) {
                let j = choose|j: int| 0 <= j < batch.len() && (#[trigger] batch[j]).observation_id == c.observation_id;
            }
        }
        lemma_filter_narrower(chunks, keep, mine);
        assert(owned_by(replaced(chunks, batch), other) =~= owned_by(chunks, other));
    }
}

/// A filter that no element passes leaves nothing.
proof fn lemma_filter_none(s: Seq<ChunkView>, p: spec_fn(ChunkView) -> bool)
    requires
        forall|i: int| 0 <= i < s.len() ==> !p(#[trigger] s[i]),
    ensures
        s.filter(p) =~= Seq::<ChunkView>::empty(),
    decreases s.len(),
{
    reveal(Seq::filter);
    if s.len() > 0 {
        assert(!p(s[s.len() - 1]));
        lemma_filter_none(s.drop_last(), p);
    }
}

/// A filter that every element passes keeps everything.
proof fn lemma_filter_all(s: Seq<ChunkView>, p: spec_fn(ChunkView) -> bool)
    requires
        forall|i: int| 0 <= i < s.len() ==> p(#[trigger] s[i]),
    ensures
        s.filter(p) == s,
    decreases s.len(),
{
    reveal(Seq::filter);
    if s.len() > 0 {
        assert(p(s[s.len() - 1]));
        lemma_filter_all(s.drop_last(), p);
        assert(s.drop_last().push(s.last()) =~= s);
    }
}

/// Filtering by a weaker condition first changes nothing.
proof fn lemma_filter_narrower(
    s: Seq<ChunkView>,
    wide: spec_fn(ChunkView) -> bool,
    narrow: spec_fn(ChunkView) -> bool,
)
    requires
        forall|c: ChunkView| #[trigger] narrow(c) ==> wide(c),
    ensures
        s.filter(wide).filter(narrow) == s.filter(narrow),
    decreases s.len(),
{
    reveal(Seq::filter);
    if s.len() > 0 {
        lemma_filter_narrower(s.drop_last(), wide, narrow);
        let w = s.drop_last().filter(wide);
        if wide(s.last()) {
            assert(w.push(s.last()).drop_last() =~= w);
        }
    }
}

/// Replacing the chunks of the batch's observations by a batch without two
/// chunks of one observation and index keeps that rule of the store.
proof fn lemma_replaced_wf(chunks: Seq<ChunkView>, batch: Seq<ChunkView>)
    requires
        !has_duplicate_key(chunks),
        !has_duplicate_key(batch),
    ensures
        !has_duplicate_key(replaced(chunks, batch)),
{
    let pred = |c: ChunkView| !in_batch(batch, c.observation_id);
    let kept = chunks.filter(pred);
    let all = replaced(chunks, batch);
    broadcast use vstd::seq_lib::group_filter_ensures;

    assert forall|i: int, j: int|
        0 <= i < j < all.len() && (#[trigger] all[i]).observation_id == (#[trigger] all[j]).observation_id
            implies all[i].index != all[j].index by {
        if j < kept.len() {
            lemma_filter_no_duplicate(chunks, pred, i, j);
        } else if i >= kept.len() {
            assert(all[i] == batch[i - kept.len()]);
            assert(all[j] == batch[j - kept.len()]);
        } else {
            assert(pred(kept[i]));
            assert(all[j] == batch[j - kept.len()]);
            assert(in_batch(batch, all[j].observation_id));
        }
    }
}

/// What a filter keeps comes from the sequence filtered.
proof fn lemma_filter_member(s: Seq<ChunkView>, pred: spec_fn(ChunkView) -> bool, i: int)
    requires
        0 <= i < s.filter(pred).len(),
    ensures
        exists|k: int| 0 <= k < s.len() && s[k] == s.filter(pred)[i],
    decreases s.len(),
{
    reveal(Seq::filter);
    let f = s.drop_last().filter(pred);
    if pred(s.last()) && i == f.len() {
        assert(s[s.len() - 1] == s.filter(pred)[i]);
    } else {
        lemma_filter_member(s.drop_last(), pred, i);
        let k = choose|k: int| 0 <= k < s.drop_last().len() && s.drop_last()[k] == f[i];
        assert(s[k] == s.drop_last()[k]);
    }
}

/// Two chunks that a filter keeps do not share an observation and index
/// when no two chunks before it did.
proof fn lemma_filter_no_duplicate(
    chunks: Seq<ChunkView>,
    pred: spec_fn(ChunkView) -> bool,
    i: int,
    j: int,
)
    requires
        !has_duplicate_key(chunks),
        0 <= i < j < chunks.filter(pred).len(),
    ensures
        !((#[trigger] chunks.filter(pred)[i]).observation_id == (#[trigger] chunks.filter(
            pred,
        )[j]).observation_id && chunks.filter(pred)[i].index == chunks.filter(pred)[j].index),
    decreases chunks.len(),
{
    reveal(Seq::filter);
    let rest = chunks.drop_last();
    assert(!has_duplicate_key(rest)) by {
        assert forall|a: int, b: int|
            0 <= a < b < rest.len() && (#[trigger] rest[a]).observation_id == (#[trigger] rest[b]).observation_id
                implies rest[a].index != rest[b].index by {
            assert(rest[a] == chunks[a]);
            assert(rest[b] == chunks[b]);
        }
    }
    let f = rest.filter(pred);
    broadcast use vstd::seq_lib::group_filter_ensures;

    if pred(chunks.last()) && j == f.len() {
        let x = chunks.filter(pred)[i];
        assert(x == f[i]);
        lemma_filter_member(rest, pred, i);
        let a = choose|a: int| 0 <= a < rest.len() && rest[a] == x;
        assert(rest[a] == chunks[a]);
        let l = chunks.len() - 1;
        assert(chunks.last() == chunks[l]);
        assert(chunks.filter(pred)[j] == chunks[l]);
        if x.observation_id == chunks[l].observation_id && x.index == chunks[l].index {
            assert(chunks[a].observation_id == chunks[l].observation_id);
            assert(has_duplicate_key(chunks));
        }
    } else {
        lemma_filter_no_duplicate(rest, pred, i, j);
    }
}

} // verus!
