use sha2::Digest;
use vstd::prelude::*;
use vstd::utf8::encode_utf8;

verus! {

/// The kind of entity that an identifier belongs to.
#[derive(Debug, Clone, Copy, PartialEq, Eq, Structural, Hash)]
pub enum EntityKind {
    Observation,
    Chunk,
}

impl EntityKind {
    /// The entity's name, as it appears in messages.
    pub fn name(&self) -> (r: &'static str)
        ensures
            r@ == entity_name(*self),
    {
        match self {
            EntityKind::Observation => "observation",
            EntityKind::Chunk => "chunk",
        }
    }
}

pub open spec fn entity_name(k: EntityKind) -> Seq<char> {
    match k {
        EntityKind::Observation => "observation"@,
        EntityKind::Chunk => "chunk"@,
    }
}

/// A unique, creation-time-ordered identifier (the 128 bits of a version 7
/// UUID), tagged with the kind of entity that it names.
#[derive(Debug, Clone, Copy, PartialEq, Eq, Structural, Hash)]
pub struct EntityId {
    pub entity: EntityKind,
    pub raw: u128,
}

/// The identifier of an observation.
pub type ObservationId = EntityId;

/// The identifier of a chunk.
pub type ChunkId = EntityId;

/// Relies on uuid::Uuid::now_v7: a fresh identifier, of which nothing is
/// known here (it depends on the clock and on chance).
#[verifier::external_body]
fn fresh_uuid() -> (r: u128) {
    uuid::Uuid::now_v7().as_u128()
}

impl EntityId {
    /// The identifier of an observation with the given 128 bits.
    pub fn observation(raw: u128) -> (r: Self)
        ensures
            r.entity == EntityKind::Observation,
            r.raw == raw,
    {
        EntityId { entity: EntityKind::Observation, raw }
    }

    /// The identifier of a chunk with the given 128 bits.
    pub fn chunk(raw: u128) -> (r: Self)
        ensures
            r.entity == EntityKind::Chunk,
            r.raw == raw,
    {
        EntityId { entity: EntityKind::Chunk, raw }
    }

    /// A fresh identifier for a new observation.
    pub fn new_observation() -> (r: Self)
        ensures
            r.entity == EntityKind::Observation,
    {
        EntityId::observation(fresh_uuid())
    }

    /// A fresh identifier for a new chunk.
    pub fn new_chunk() -> (r: Self)
        ensures
            r.entity == EntityKind::Chunk,
    {
        EntityId::chunk(fresh_uuid())
    }

    pub fn entity(&self) -> (r: EntityKind)
        ensures
            r == self.entity,
    {
        self.entity
    }

    /// The identifier's 128 bits.
    pub fn into_inner(self) -> (r: u128)
        ensures
            r == self.raw,
    {
        self.raw
    }
}

/// The SHA-256 digest of a byte sequence.
pub uninterp spec fn sha256_of(data: Seq<u8>) -> Seq<u8>;

/// Relies on sha2::Sha256::digest: the 32-byte SHA-256 digest of the input,
/// which depends on the input alone.
#[verifier::external_body]
fn sha256(data: &[u8]) -> (r: [u8; 32])
    ensures
        r@ == sha256_of(data@),
{
    sha2::Sha256::digest(data).into()
}

/// The lower-case hexadecimal digit for a value below 16.
pub open spec fn hex_digit(v: u8) -> char {
    if v < 10 {
        (('0' as u8) + v) as char
    } else {
        (('a' as u8) + (v - 10)) as char
    }
}

/// Two lower-case hexadecimal digits per byte, high half first.
pub open spec fn hex_of(bytes: Seq<u8>) -> Seq<char>
    decreases bytes.len(),
{
    if bytes.len() == 0 {
        Seq::empty()
    } else {
        seq![hex_digit(bytes[0] / 16), hex_digit(bytes[0] % 16)] + hex_of(bytes.drop_first())
    }
}

/// Relies on hex::encode: two lower-case digits for each byte, high half first.
#[verifier::external_body]
fn encode_hex(bytes: &[u8]) -> (r: String)
    ensures
        r@ == hex_of(bytes@),
{
    hex::encode(bytes)
}

/// The digest that identifies a text: SHA-256 of its UTF-8 bytes.
pub open spec fn content_hash_of(content: Seq<char>) -> Seq<u8> {
    sha256_of(encode_utf8(content))
}

/// A 32-byte digest of a document's content, its key for deduplication.
#[derive(Debug, Clone, Eq, Hash)]
pub struct ContentHash([u8; 32]);

impl PartialEq for ContentHash {
    fn eq(&self, other: &ContentHash) -> (r: bool) {
        self.same(other)
    }
}

impl vstd::std_specs::cmp::PartialEqSpecImpl for ContentHash {
    open spec fn obeys_eq_spec() -> bool {
        true
    }

    open spec fn eq_spec(&self, other: &ContentHash) -> bool {
        self@ == other@
    }
}

impl View for ContentHash {
    type V = Seq<u8>;

    closed spec fn view(&self) -> Seq<u8> {
        self.0@
    }
}

impl ContentHash {
    /// The digest of raw bytes.
    pub fn from_bytes(content: &[u8]) -> (r: Self)
        ensures
            r@ == sha256_of(content@),
    {
        ContentHash(sha256(content))
    }

    /// The digest of a text's UTF-8 bytes.
    pub fn from_content(content: &str) -> (r: Self)
        ensures
            r@ == content_hash_of(content@),
    {
        ContentHash::from_bytes(content.as_bytes())
    }

    /// A copy of the digest.
    pub fn duplicate(&self) -> (r: Self)
        ensures
            r@ == self@,
    {
        ContentHash(self.0)
    }

    /// Whether two digests are equal.
    pub fn same(&self, other: &ContentHash) -> (r: bool)
        ensures
            r == (self@ == other@),
    {
        let mut i: usize = 0;
        while i < 32
            invariant
                i <= 32,
                forall|k: int| 0 <= k < i ==> self.0@[k] == other.0@[k],
            decreases 32 - i,
        {
            if self.0[i] != other.0[i] {
                return false;
            }
            i = i + 1;
        }
        assert(self.0@ =~= other.0@);
        true
    }

    /// The digest as 64 lower-case hexadecimal digits.
    pub fn to_hex(&self) -> (r: String)
        ensures
            r@ == hex_of(self@),
    {
        encode_hex(self.0.as_slice())
    }
}

/// The same text always has the same digest.
pub proof fn lemma_hash_deterministic(c1: Seq<char>, c2: Seq<char>)
    requires
        c1 == c2,
    ensures
        content_hash_of(c1) == content_hash_of(c2),
{
}

} // verus!
