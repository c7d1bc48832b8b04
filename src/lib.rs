//! Ingestion of text documents ("observations"), deduplicated by a digest of
//! their content, and their division into byte-addressed chunks that never
//! split a character.

pub mod chunk;
pub mod error;
pub mod ids;
pub mod memory;
pub mod observation;
pub mod store;
