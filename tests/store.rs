use crabtrap::chunk::Chunk;
use crabtrap::error::{Error, ValidationError};
use crabtrap::ids::{ContentHash, EntityId};
use crabtrap::memory::MemoryStore;
use crabtrap::observation::{Observation, SourceKind, Timestamp};
use crabtrap::store::{chunk_rows, ChunkRow, ObservationRow, StoreError};

fn chunk(obs: u128, index: i32, text: &str, start: usize, end: usize) -> Chunk {
    Chunk::reconstruct(
        EntityId::chunk(1000 + index as u128),
        EntityId::observation(obs),
        index,
        text.to_string(),
        start,
        end,
        1,
    )
}

#[test]
fn ingest_same_text_twice_returns_same_id() {
    let mut store = MemoryStore::new();
    let (id1, inserted1) = store.ingest_text("same text".to_string(), None, None).unwrap();
    let (id2, inserted2) = store.ingest_text("same text".to_string(), None, None).unwrap();
    assert!(inserted1);
    assert!(!inserted2);
    assert_eq!(id1, id2);
    let o = store.get_observation(id1).unwrap();
    assert_eq!(o.content(), "same text");
    assert_eq!(o.source_kind(), SourceKind::Text);
}

#[test]
fn ingest_keeps_first_metadata() {
    let mut store = MemoryStore::new();
    let (id, _) = store
        .ingest_text("doc".to_string(), Some("first".to_string()), None)
        .unwrap();
    let (again, inserted) = store
        .ingest_text("doc".to_string(), Some("second".to_string()), None)
        .unwrap();
    assert!(!inserted);
    assert_eq!(again, id);
    assert_eq!(store.get_observation(id).unwrap().title(), Some("first"));
}

#[test]
fn ingest_empty_text_fails_and_stores_nothing() {
    let mut store = MemoryStore::new();
    let r = store.ingest_text(String::new(), None, None);
    assert!(matches!(
        r,
        Err(StoreError::Domain(Error::Validation(ValidationError::EmptyContent)))
    ));
    let (_, inserted) = store.ingest_text("x".to_string(), None, None).unwrap();
    assert!(inserted);
}

#[test]
fn upsert_observation_refuses_taken_id() {
    let mut store = MemoryStore::new();
    let a = Observation::builder()
        .content("a".to_string())
        .with_id(EntityId::observation(5))
        .build()
        .unwrap();
    let b = Observation::builder()
        .content("b".to_string())
        .with_id(EntityId::observation(5))
        .build()
        .unwrap();
    assert_eq!(store.upsert_observation(&a).unwrap(), (EntityId::observation(5), true));
    assert!(matches!(store.upsert_observation(&b), Err(StoreError::DuplicateId)));
}

#[test]
fn chunk_unknown_observation_is_not_found() {
    let mut store = MemoryStore::new();
    let r = store.chunk_observation(EntityId::observation(99), 5).unwrap();
    assert_eq!(r, None);
    assert!(store.list_chunks(EntityId::observation(99)).is_empty());
}

#[test]
fn chunk_observation_stores_ordered_chunks() {
    let mut store = MemoryStore::new();
    let (id, _) = store.ingest_text("hello world".to_string(), None, None).unwrap();
    assert_eq!(store.chunk_observation(id, 5).unwrap(), Some(3));
    let listed = store.list_chunks(id);
    let texts: Vec<&str> = listed.iter().map(|c| c.text()).collect();
    assert_eq!(texts, vec!["hello", " worl", "d"]);
    assert!(matches!(
        store.chunk_observation(id, 0),
        Err(StoreError::Domain(Error::Validation(ValidationError::InvalidChunkSize)))
    ));
    assert_eq!(store.list_chunks(id).len(), 3);
}

#[test]
fn rechunk_overwrites_and_drops_stale_rows() {
    let mut store = MemoryStore::new();
    let (id, _) = store.ingest_text("hello world".to_string(), None, None).unwrap();
    let (other, _) = store.ingest_text("other doc".to_string(), None, None).unwrap();
    store.chunk_observation(id, 2).unwrap();
    store.chunk_observation(other, 4).unwrap();
    assert_eq!(store.list_chunks(id).len(), 6);
    assert_eq!(store.chunk_observation(id, 5).unwrap(), Some(3));
    let listed = store.list_chunks(id);
    let rows: Vec<(i32, &str, usize, usize)> = listed
        .iter()
        .map(|c| (c.index(), c.text(), c.start_offset(), c.end_offset()))
        .collect();
    assert_eq!(rows, vec![(0, "hello", 0, 5), (1, " worl", 5, 10), (2, "d", 10, 11)]);
    assert_eq!(store.list_chunks(other).len(), 3);
}

#[test]
fn list_chunks_orders_by_index_whatever_the_insertion_order() {
    let mut store = MemoryStore::new();
    let batch = vec![
        chunk(1, 2, "c", 2, 3),
        chunk(2, 0, "z", 0, 1),
        chunk(1, 0, "a", 0, 1),
        chunk(1, 1, "b", 1, 2),
    ];
    assert_eq!(store.upsert_chunks(&batch).unwrap(), 4);
    let listed = store.list_chunks(EntityId::observation(1));
    let indices: Vec<i32> = listed.iter().map(|c| c.index()).collect();
    assert_eq!(indices, vec![0, 1, 2]);
    let texts: Vec<&str> = listed.iter().map(|c| c.text()).collect();
    assert_eq!(texts, vec!["a", "b", "c"]);
}

#[test]
fn upsert_chunks_is_all_or_nothing() {
    let mut store = MemoryStore::new();
    store.upsert_chunks(&[chunk(1, 0, "a", 0, 1)]).unwrap();
    let too_far = chunk(1, 1, "b", 1, (i64::MAX as usize) + 1);
    let r = store.upsert_chunks(&[chunk(1, 0, "x", 0, 1), too_far]);
    assert!(matches!(r, Err(StoreError::OutOfRange("end_offset"))));
    let dup = store.upsert_chunks(&[chunk(1, 0, "x", 0, 1), chunk(1, 0, "y", 0, 1)]);
    assert!(matches!(dup, Err(StoreError::DuplicateChunkIndex)));
    let listed = store.list_chunks(EntityId::observation(1));
    assert_eq!(listed.len(), 1);
    assert_eq!(listed[0].text(), "a");
}

#[test]
fn chunk_row_range_checks() {
    let ok = ChunkRow::from_chunk(&chunk(3, 4, "t", 7, 8)).unwrap();
    assert_eq!((ok.observation_id, ok.chunk_index, ok.start_offset, ok.end_offset), (3, 4, 7, 8));
    assert_eq!(ok.token_estimate, 1);
    let bad_start = chunk(3, 0, "t", (i64::MAX as usize) + 1, (i64::MAX as usize) + 2);
    assert!(matches!(
        ChunkRow::from_chunk(&bad_start),
        Err(StoreError::OutOfRange("start_offset"))
    ));
    let big_tokens = Chunk::reconstruct(
        EntityId::chunk(1),
        EntityId::observation(1),
        0,
        "t".to_string(),
        0,
        1,
        u32::MAX,
    );
    assert!(matches!(
        ChunkRow::from_chunk(&big_tokens),
        Err(StoreError::OutOfRange("token_estimate"))
    ));
    assert!(matches!(chunk_rows(&[chunk(1, 0, "a", 0, 1), bad_start]), Err(StoreError::OutOfRange("start_offset"))));
    assert_eq!(chunk_rows(&[chunk(1, 0, "a", 0, 1)]).unwrap().len(), 1);
}

#[test]
fn chunk_row_back_to_chunk() {
    let row = ChunkRow {
        id: 9,
        observation_id: 8,
        chunk_index: 2,
        text: "xy".to_string(),
        start_offset: 4,
        end_offset: 6,
        token_estimate: 1,
    };
    let c = row.clone().into_chunk().unwrap();
    assert_eq!(c.id(), EntityId::chunk(9));
    assert_eq!(c.observation_id(), EntityId::observation(8));
    assert_eq!((c.index(), c.text(), c.start_offset(), c.end_offset()), (2, "xy", 4, 6));
    let negative = ChunkRow { start_offset: -1, ..row.clone() };
    assert!(matches!(negative.into_chunk(), Err(StoreError::OutOfRange("start_offset"))));
    let negative_tokens = ChunkRow { token_estimate: -1, ..row };
    assert!(matches!(negative_tokens.into_chunk(), Err(StoreError::OutOfRange("token_estimate"))));
}

#[test]
fn observation_row_round_trip() {
    let o = Observation::builder()
        .content("stored body".to_string())
        .title("T".to_string())
        .source_kind(SourceKind::Pdf)
        .with_created_at(Timestamp { micros: 5 })
        .build()
        .unwrap();
    let row = ObservationRow::from_observation(&o);
    assert_eq!(row.content_hash, ContentHash::from_content("stored body").to_hex());
    assert_eq!(row.source_kind, "pdf");
    assert_eq!(row.id, o.id().into_inner());
    let back = row.into_observation().unwrap();
    assert_eq!(back.id(), o.id());
    assert_eq!(back.content(), "stored body");
    assert_eq!(back.title(), Some("T"));
    assert_eq!(back.source_kind(), SourceKind::Pdf);
    assert_eq!(back.created_at(), Timestamp { micros: 5 });
    assert_eq!(back.content_hash(), o.content_hash());
}

#[test]
fn observation_row_lenient_kind_and_blank_content() {
    let row = ObservationRow {
        id: 1,
        content_hash: String::new(),
        content: "body".to_string(),
        title: None,
        source_url: None,
        source_kind: "fax".to_string(),
        created_at: Timestamp { micros: 0 },
        published_at: None,
    };
    assert_eq!(row.clone().into_observation().unwrap().source_kind(), SourceKind::Unknown);
    let blank = ObservationRow { content: "  ".to_string(), ..row };
    assert!(matches!(
        blank.into_observation(),
        Err(StoreError::Domain(Error::Validation(ValidationError::EmptyContent)))
    ));
}
