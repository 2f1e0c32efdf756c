//! Map instances: their identities, edits, chunk streaming and transitions between them.
pub mod broadcasts;
pub mod chunk_entities;
pub mod client;
pub mod edits;
pub mod persistence;
pub mod prediction;
pub mod rooms;
pub mod saving;
pub mod streaming;
pub mod terrain;
pub mod transition;
pub mod types;
