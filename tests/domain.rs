use crabtrap::chunk::Chunk;
use crabtrap::error::{Error, ValidationError};
use crabtrap::ids::{ContentHash, EntityId, EntityKind};
use crabtrap::observation::{Observation, SourceKind, Timestamp};

fn observation(content: &str) -> Observation {
    Observation::from_content(content.to_string()).unwrap()
}

fn spans(chunks: &[Chunk]) -> Vec<(i32, String, usize, usize)> {
    chunks
        .iter()
        .map(|c| (c.index(), c.text().to_string(), c.start_offset(), c.end_offset()))
        .collect()
}

#[test]
fn content_hash_is_deterministic() {
    let content = "test content for hashing";
    let hash1 = ContentHash::from_content(content);
    let hash2 = ContentHash::from_content(content);
    assert_eq!(hash1, hash2);
}

#[test]
fn content_hash_differs_for_different_content() {
    let hash1 = ContentHash::from_content("content a");
    let hash2 = ContentHash::from_content("content b");
    assert_ne!(hash1, hash2);
}

#[test]
fn content_hash_hex_is_sha256() {
    let hash = ContentHash::from_content("abc");
    assert_eq!(
        hash.to_hex(),
        "ba7816bf8f01cfea414140de5dae2223b00361a396177a9cb410ff61f20015ad"
    );
    let empty = ContentHash::from_bytes(b"");
    assert_eq!(
        empty.to_hex(),
        "e3b0c44298fc1c149afbf4c8996fb92427ae41e4649b934ca495991b7852b855"
    );
}

#[test]
fn content_hash_matches_bytes_of_text() {
    assert_eq!(
        ContentHash::from_content("héllo"),
        ContentHash::from_bytes("héllo".as_bytes())
    );
}

#[test]
fn observation_ids_are_unique_and_tagged() {
    let a = EntityId::new_observation();
    let b = EntityId::new_observation();
    assert_ne!(a, b);
    assert_eq!(a.entity(), EntityKind::Observation);
    assert_eq!(EntityId::new_chunk().entity(), EntityKind::Chunk);
    assert_eq!(EntityId::observation(7).into_inner(), 7);
    assert_eq!(EntityKind::Chunk.name(), "chunk");
}

#[test]
fn build_requires_content() {
    let r = Observation::builder().title("t".to_string()).build();
    assert!(matches!(
        r,
        Err(Error::Validation(ValidationError::MissingField { field: "content" }))
    ));
}

#[test]
fn build_rejects_empty_and_blank_content() {
    for content in ["", "   ", "\t\n "] {
        let r = Observation::from_content(content.to_string());
        assert!(matches!(r, Err(Error::Validation(ValidationError::EmptyContent))));
    }
}

#[test]
fn build_keeps_fields_and_hashes_untrimmed_content() {
    let id = EntityId::observation(42);
    let created = Timestamp { micros: 1_700_000_000_000_000 };
    let published = Timestamp { micros: 1_600_000_000_000_000 };
    let o = Observation::builder()
        .content("  body  ".to_string())
        .title("Title".to_string())
        .source_url("https://example.org/a".to_string())
        .source_kind(SourceKind::Web)
        .published_at(published)
        .with_id(id)
        .with_created_at(created)
        .build()
        .unwrap();
    assert_eq!(o.id(), id);
    assert_eq!(o.content(), "  body  ");
    assert_eq!(o.title(), Some("Title"));
    assert_eq!(o.source_url(), Some("https://example.org/a"));
    assert_eq!(o.source_kind(), SourceKind::Web);
    assert_eq!(o.created_at(), created);
    assert_eq!(o.published_at(), Some(published));
    assert_eq!(o.content_hash(), &ContentHash::from_content("  body  "));
    assert_ne!(o.content_hash(), &ContentHash::from_content("body"));
}

#[test]
fn from_content_defaults() {
    let o = observation("text");
    assert_eq!(o.title(), None);
    assert_eq!(o.source_url(), None);
    assert_eq!(o.source_kind(), SourceKind::Unknown);
    assert_eq!(o.published_at(), None);
    assert_eq!(o.id().entity(), EntityKind::Observation);
}

#[test]
fn source_kind_names_round_trip() {
    for kind in [
        SourceKind::Rss,
        SourceKind::Pdf,
        SourceKind::Web,
        SourceKind::Text,
        SourceKind::Manual,
        SourceKind::Unknown,
    ] {
        assert_eq!(SourceKind::parse(kind.as_str()), kind);
    }
    assert_eq!(SourceKind::Manual.as_str(), "manual");
}

#[test]
fn source_kind_parse_is_lenient() {
    assert_eq!(SourceKind::parse("  RSS "), SourceKind::Rss);
    assert_eq!(SourceKind::parse("Pdf"), SourceKind::Pdf);
    assert_eq!(SourceKind::parse("podcast"), SourceKind::Unknown);
    assert_eq!(SourceKind::parse(""), SourceKind::Unknown);
    assert_eq!(SourceKind::default(), SourceKind::Unknown);
}

#[test]
fn missing_field_names_the_field() {
    assert!(matches!(
        ValidationError::missing_field("title"),
        ValidationError::MissingField { field: "title" }
    ));
}

#[test]
fn chunk_hello_world_by_five() {
    let o = observation("hello world");
    let chunks = o.chunk(5).unwrap();
    assert_eq!(
        spans(&chunks),
        vec![
            (0, "hello".to_string(), 0, 5),
            (1, " worl".to_string(), 5, 10),
            (2, "d".to_string(), 10, 11),
        ]
    );
    for c in &chunks {
        assert_eq!(c.observation_id(), o.id());
        assert_eq!(c.token_estimate(), 1);
        assert_eq!(c.id().entity(), EntityKind::Chunk);
    }
}

#[test]
fn chunk_snaps_back_to_character_boundary() {
    let o = observation("héllo");
    assert_eq!(o.content().len(), 6);
    let chunks = o.chunk(2).unwrap();
    assert_eq!(
        spans(&chunks),
        vec![
            (0, "h".to_string(), 0, 1),
            (1, "é".to_string(), 1, 3),
            (2, "ll".to_string(), 3, 5),
            (3, "o".to_string(), 5, 6),
        ]
    );
}

#[test]
fn chunk_wide_character_gets_its_own_chunk() {
    let o = observation("a😀b");
    let chunks = o.chunk(1).unwrap();
    assert_eq!(
        spans(&chunks),
        vec![
            (0, "a".to_string(), 0, 1),
            (1, "😀".to_string(), 1, 5),
            (2, "b".to_string(), 5, 6),
        ]
    );
}

#[test]
fn chunk_size_larger_than_content() {
    let o = observation("short");
    assert_eq!(spans(&o.chunk(usize::MAX).unwrap()), vec![(0, "short".to_string(), 0, 5)]);
}

#[test]
fn chunk_size_zero_is_refused() {
    for content in ["x", "hello world", "héllo"] {
        let o = observation(content);
        assert!(matches!(
            o.chunk(0),
            Err(Error::Validation(ValidationError::InvalidChunkSize))
        ));
    }
}

#[test]
fn chunks_cover_content_on_boundaries() {
    let content = "Grüße aus Köln — ✓ naïve café 日本語 😀 end";
    let o = observation(content);
    for size in 1..12 {
        let chunks = o.chunk(size).unwrap();
        let joined: String = chunks.iter().map(|c| c.text()).collect();
        assert_eq!(joined, content);
        assert_eq!(chunks[0].start_offset(), 0);
        assert_eq!(chunks.last().unwrap().end_offset(), content.len());
        for (i, c) in chunks.iter().enumerate() {
            assert_eq!(c.index() as usize, i);
            assert!(content.is_char_boundary(c.start_offset()));
            assert!(content.is_char_boundary(c.end_offset()));
            assert_eq!(&content[c.start_offset()..c.end_offset()], c.text());
            assert!(c.end_offset() > c.start_offset());
            if i + 1 < chunks.len() {
                assert_eq!(chunks[i + 1].start_offset(), c.end_offset());
            }
        }
    }
}

#[test]
fn chunk_reconstruct_keeps_fields() {
    let c = Chunk::reconstruct(
        EntityId::chunk(1),
        EntityId::observation(2),
        3,
        "abc".to_string(),
        10,
        13,
        1,
    );
    assert_eq!(c.id(), EntityId::chunk(1));
    assert_eq!(c.observation_id(), EntityId::observation(2));
    assert_eq!(c.index(), 3);
    assert_eq!(c.text(), "abc");
    assert_eq!((c.start_offset(), c.end_offset(), c.token_estimate()), (10, 13, 1));
}

#[test]
fn source_kind_from_trimmed_ignores_ascii_case_only() {
    assert_eq!(SourceKind::from_trimmed("MaNuAl"), SourceKind::Manual);
    assert_eq!(SourceKind::from_trimmed(" web"), SourceKind::Unknown);
    assert_eq!(SourceKind::from_trimmed("TEXT"), SourceKind::Text);
}
