//! A verified core for a local music-library and lyrics manager.
//!
//! The library models the relational store as plain data, and verifies the
//! schema migrations, the normalized ingestion and deduplication of scanned
//! tracks, the lyrics-provider response handling, the proof-of-work challenge
//! solver, and the sidecar persistence rules.

pub mod db;
pub mod fs_track;
pub mod library;
pub mod lrclib;
pub mod lyrics;
pub mod persistent_entities;
pub mod text;
