use crate::error::{Error, ValidationError};
use crate::ids::{content_hash_of, ContentHash, EntityId, EntityKind, ObservationId};
use vstd::prelude::*;

verus! {

/// Where a document came from.
#[derive(Debug, Clone, Copy, PartialEq, Eq, Structural, Hash)]
pub enum SourceKind {
    Rss,
    Pdf,
    Web,
    Text,
    Manual,
    Unknown,
}

/// The textual name of each kind of source.
pub open spec fn kind_name(k: SourceKind) -> Seq<char> {
    match k {
        SourceKind::Rss => "rss"@,
        SourceKind::Pdf => "pdf"@,
        SourceKind::Web => "web"@,
        SourceKind::Text => "text"@,
        SourceKind::Manual => "manual"@,
        SourceKind::Unknown => "unknown"@,
    }
}

/// The kind whose name is exactly `name`; any other text is `Unknown`.
pub open spec fn kind_named(name: Seq<char>) -> SourceKind {
    if name == "rss"@ {
        SourceKind::Rss
    } else if name == "pdf"@ {
        SourceKind::Pdf
    } else if name == "web"@ {
        SourceKind::Web
    } else if name == "text"@ {
        SourceKind::Text
    } else if name == "manual"@ {
        SourceKind::Manual
    } else {
        SourceKind::Unknown
    }
}

/// What `str::trim` leaves of a text.
pub uninterp spec fn trim_of(s: Seq<char>) -> Seq<char>;

/// Relies on str::trim: the text without its leading and trailing white space
/// (as Unicode defines it); the result depends on the text alone.
#[verifier::external_body]
fn trim(s: &str) -> (r: &str)
    ensures
        r@ == trim_of(s@),
{
    s.trim()
}

/// A character with the ASCII letters 'A' to 'Z' turned into lower case.
pub open spec fn ascii_lower_char(c: char) -> char {
    if 65 <= (c as u32) <= 90 {
        ((c as u32) + 32) as char
    } else {
        c
    }
}

/// A text with its ASCII upper-case letters turned into lower case.
pub open spec fn ascii_lower(s: Seq<char>) -> Seq<char> {
    s.map_values(|c: char| ascii_lower_char(c))
}

/// Relies on str::to_ascii_lowercase: each ASCII upper-case letter is
/// replaced by its lower-case form, every other character is kept.
#[verifier::external_body]
fn to_ascii_lowercase(s: &str) -> (r: String)
    ensures
        r@ == ascii_lower(s@),
{
    s.to_ascii_lowercase()
}

/// What a stored or typed-in source name stands for: trimmed, compared
/// without regard to ASCII case, and `Unknown` when it names no kind.
pub open spec fn parsed_kind(value: Seq<char>) -> SourceKind {
    kind_named(ascii_lower(trim_of(value)))
}

impl SourceKind {
    /// The kind's name.
    pub fn as_str(&self) -> (r: &'static str)
        ensures
            r@ == kind_name(*self),
    {
        match self {
            SourceKind::Rss => "rss",
            SourceKind::Pdf => "pdf",
            SourceKind::Web => "web",
            SourceKind::Text => "text",
            SourceKind::Manual => "manual",
            SourceKind::Unknown => "unknown",
        }
    }

    /// Reads a kind leniently: text that names no kind gives `Unknown`.
    pub fn parse(value: &str) -> (r: Self)
        ensures
            r == parsed_kind(value@),
    {
        SourceKind::from_trimmed(trim(value))
    }

    /// The kind that already trimmed text names, compared without regard to
    /// ASCII case; `Unknown` when it names none.
    pub fn from_trimmed(value: &str) -> (r: Self)
        ensures
            r == kind_named(ascii_lower(value@)),
    {
        let lowered = to_ascii_lowercase(value);
        if lowered == "rss".to_owned() {
            SourceKind::Rss
        } else if lowered == "pdf".to_owned() {
            SourceKind::Pdf
        } else if lowered == "web".to_owned() {
            SourceKind::Web
        } else if lowered == "text".to_owned() {
            SourceKind::Text
        } else if lowered == "manual".to_owned() {
            SourceKind::Manual
        } else {
            SourceKind::Unknown
        }
    }
}

impl Default for SourceKind {
    fn default() -> (r: Self)
        ensures
            r == SourceKind::Unknown,
    {
        SourceKind::Unknown
    }
}

/// An instant, in microseconds since 1970-01-01T00:00:00Z.
#[derive(Debug, Clone, Copy, PartialEq, Eq, Structural, Hash)]
pub struct Timestamp {
    pub micros: i64,
}

/// Relies on chrono::Utc::now: the current time; nothing is known of its
/// value.
#[verifier::external_body]
fn now() -> (r: Timestamp) {
    Timestamp { micros: chrono::Utc::now().timestamp_micros() }
}

/// The view of an optional value.
pub open spec fn opt_view<T: View>(o: Option<T>) -> Option<T::V> {
    match o {
        Some(v) => Some(v@),
        None => None,
    }
}

/// A copy of optional text.
fn clone_text(o: &Option<String>) -> (r: Option<String>)
    ensures
        opt_view(r) == opt_view(*o),
{
    match o {
        Some(s) => Some(s.clone()),
        None => None,
    }
}

/// What an observation holds, as mathematical values.
pub struct ObservationView {
    pub id: ObservationId,
    pub content_hash: Seq<u8>,
    pub content: Seq<char>,
    pub title: Option<Seq<char>>,
    pub source_url: Option<Seq<char>>,
    pub source_kind: SourceKind,
    pub created_at: Timestamp,
    pub published_at: Option<Timestamp>,
}

/// An ingested document. It is only made by `ObservationBuilder::build`, and
/// nothing changes it afterwards.
#[derive(Debug, Clone)]
pub struct Observation {
    id: ObservationId,
    content_hash: ContentHash,
    content: String,
    title: Option<String>,
    source_url: Option<String>,
    source_kind: SourceKind,
    created_at: Timestamp,
    published_at: Option<Timestamp>,
}

impl View for Observation {
    type V = ObservationView;

    closed spec fn view(&self) -> ObservationView {
        ObservationView {
            id: self.id,
            content_hash: self.content_hash@,
            content: self.content@,
            title: opt_view(self.title),
            source_url: opt_view(self.source_url),
            source_kind: self.source_kind,
            created_at: self.created_at,
            published_at: self.published_at,
        }
    }
}

/// The content of a document that can be ingested: something other than
/// white space.
pub open spec fn valid_content(content: Seq<char>) -> bool {
    trim_of(content).len() > 0
}

impl ObservationView {
    /// What every built observation satisfies: its digest is that of its
    /// content, and its content is not blank.
    pub open spec fn valid(&self) -> bool {
        &&& self.content_hash == content_hash_of(self.content)
        &&& valid_content(self.content)
    }
}

impl Observation {
    pub fn builder() -> (r: ObservationBuilder)
        ensures
            r.content.is_none(),
            r.title.is_none(),
            r.source_url.is_none(),
            r.source_kind == SourceKind::Unknown,
            r.published_at.is_none(),
            r.id.is_none(),
            r.created_at.is_none(),
    {
        ObservationBuilder::new()
    }

    /// An observation of the given text with no other metadata.
    pub fn from_content(content: String) -> (r: Result<Observation, Error>)
        ensures
            match r {
                Ok(o) => {
                    &&& valid_content(content@)
                    &&& o@.valid()
                    &&& o@.content == content@
                    &&& o@.title.is_none()
                    &&& o@.source_url.is_none()
                    &&& o@.source_kind == SourceKind::Unknown
                    &&& o@.published_at.is_none()
                    &&& o@.id.entity == EntityKind::Observation
                },
                Err(e) => !valid_content(content@) && e == Error::Validation(
                    ValidationError::EmptyContent,
                ),
            },
    {
        Observation::builder().content(content).build()
    }

    /// A copy of the observation.
    pub fn duplicate(&self) -> (r: Self)
        ensures
            r@ == self@,
    {
        Observation {
            id: self.id,
            content_hash: ContentHash::duplicate(&self.content_hash),
            content: self.content.clone(),
            title: clone_text(&self.title),
            source_url: clone_text(&self.source_url),
            source_kind: self.source_kind,
            created_at: self.created_at,
            published_at: self.published_at,
        }
    }

    pub fn id(&self) -> (r: ObservationId)
        ensures
            r == self@.id,
    {
        self.id
    }

    pub fn created_at(&self) -> (r: Timestamp)
        ensures
            r == self@.created_at,
    {
        self.created_at
    }

    pub fn published_at(&self) -> (r: Option<Timestamp>)
        ensures
            r == self@.published_at,
    {
        self.published_at
    }

    pub fn source_kind(&self) -> (r: SourceKind)
        ensures
            r == self@.source_kind,
    {
        self.source_kind
    }

    pub fn title(&self) -> (r: Option<&str>)
        ensures
            opt_view(r) == self@.title,
    {
        match &self.title {
            Some(t) => Some(t.as_str()),
            None => None,
        }
    }

    pub fn source_url(&self) -> (r: Option<&str>)
        ensures
            opt_view(r) == self@.source_url,
    {
        match &self.source_url {
            Some(u) => Some(u.as_str()),
            None => None,
        }
    }

    pub fn content_hash(&self) -> (r: &ContentHash)
        ensures
            r@ == self@.content_hash,
    {
        &self.content_hash
    }

    pub fn content(&self) -> (r: &str)
        ensures
            r@ == self@.content,
    {
        self.content.as_str()
    }
}

/// The fields from which an observation is built. Only `content` is
/// required; `id` and `created_at` are set only when a stored observation is
/// rebuilt.
#[derive(Debug, Clone)]
pub struct ObservationBuilder {
    pub content: Option<String>,
    pub title: Option<String>,
    pub source_url: Option<String>,
    pub source_kind: SourceKind,
    pub published_at: Option<Timestamp>,
    pub id: Option<ObservationId>,
    pub created_at: Option<Timestamp>,
}

impl ObservationBuilder {
    /// A builder with every field unset and the source kind `Unknown`.
    pub fn new() -> (r: Self)
        ensures
            r.content.is_none(),
            r.title.is_none(),
            r.source_url.is_none(),
            r.source_kind == SourceKind::Unknown,
            r.published_at.is_none(),
            r.id.is_none(),
            r.created_at.is_none(),
    {
        ObservationBuilder {
            content: None,
            title: None,
            source_url: None,
            source_kind: SourceKind::Unknown,
            published_at: None,
            id: None,
            created_at: None,
        }
    }

    /// Sets the document's text.
    pub fn content(self, content: String) -> (r: Self)
        ensures
            r == (ObservationBuilder { content: Some(content), ..self }),
    {
        ObservationBuilder { content: Some(content), ..self }
    }

    /// Sets the title.
    pub fn title(self, title: String) -> (r: Self)
        ensures
            r == (ObservationBuilder { title: Some(title), ..self }),
    {
        ObservationBuilder { title: Some(title), ..self }
    }

    /// Sets where the document was found.
    pub fn source_url(self, source_url: String) -> (r: Self)
        ensures
            r == (ObservationBuilder { source_url: Some(source_url), ..self }),
    {
        ObservationBuilder { source_url: Some(source_url), ..self }
    }

    /// Sets the kind of source.
    pub fn source_kind(self, source_kind: SourceKind) -> (r: Self)
        ensures
            r == (ObservationBuilder { source_kind: source_kind, ..self }),
    {
        ObservationBuilder { source_kind: source_kind, ..self }
    }

    /// Sets when the source published the document.
    pub fn published_at(self, published_at: Timestamp) -> (r: Self)
        ensures
            r == (ObservationBuilder { published_at: Some(published_at), ..self }),
    {
        ObservationBuilder { published_at: Some(published_at), ..self }
    }

    /// Keeps a stored observation's identifier instead of a fresh one.
    pub fn with_id(self, id: ObservationId) -> (r: Self)
        ensures
            r == (ObservationBuilder { id: Some(id), ..self }),
    {
        ObservationBuilder { id: Some(id), ..self }
    }

    /// Keeps a stored observation's creation time instead of the current one.
    pub fn with_created_at(self, created_at: Timestamp) -> (r: Self)
        ensures
            r == (ObservationBuilder { created_at: Some(created_at), ..self }),
    {
        ObservationBuilder { created_at: Some(created_at), ..self }
    }

    /// Checks the fields and makes the observation: the content must be
    /// given, and must not be blank. The digest is that of the untrimmed
    /// content; a fresh identifier and the current time stand in for an
    /// unset `id` and `created_at`.
    pub fn build(self) -> (r: Result<Observation, Error>)
        ensures
            match r {
                Ok(o) => {
                    &&& self.content is Some
                    &&& valid_content(self.content->0@)
                    &&& o@.valid()
                    &&& o@.content == self.content->0@
                    &&& o@.title == opt_view(self.title)
                    &&& o@.source_url == opt_view(self.source_url)
                    &&& o@.source_kind == self.source_kind
                    &&& o@.published_at == self.published_at
                    &&& match self.id {
                        Some(id) => o@.id == id,
                        None => o@.id.entity == EntityKind::Observation,
                    }
                    &&& match self.created_at {
                        Some(t) => o@.created_at == t,
                        None => true,
                    }
                },
                Err(e) => match self.content {
                    None => e == Error::Validation(ValidationError::MissingField { field: "content" }),
                    Some(c) => !valid_content(c@) && e == Error::Validation(
                        ValidationError::EmptyContent,
                    ),
                },
            },
    {
        let content = match self.content {
            Some(c) => c,
            None => {
                return Err(Error::Validation(ValidationError::missing_field("content")));
            },
        };
        if trim(content.as_str()).is_empty() {
            return Err(Error::Validation(ValidationError::EmptyContent));
        }
        let content_hash = ContentHash::from_content(content.as_str());
        let id = match self.id {
            Some(id) => id,
            None => EntityId::new_observation(),
        };
        let created_at = match self.created_at {
            Some(t) => t,
            None => now(),
        };
        Ok(
            Observation {
                id,
                content_hash,
                content,
                title: self.title,
                source_url: self.source_url,
                source_kind: self.source_kind,
                created_at,
                published_at: self.published_at,
            },
        )
    }
}

} // verus!
