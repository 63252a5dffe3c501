//! Multi-tier deduplication index and match engine for collections of
//! music-module files.
//!
//! A file is identified by the digest of its bytes and, where its format
//! can be analysed, by a digest of its pattern data and the digests of its
//! sample payloads. Records of these signals are collected in an index;
//! a query track is matched against the index tier by tier, and the index
//! can be asked for its clusters of duplicates. Candidate groups pass
//! through a filter pipeline that keeps or discards a group as a whole.
//!
//! Every item of the library is verified; the few calls into other crates
//! and into unspecified parts of the standard library stand behind small
//! functions whose contracts are taken on trust and say so.

pub mod builder;
pub mod cache;
pub mod digest;
pub mod dupes;
pub mod files;
pub mod filter;
pub mod index;
pub mod matching;
pub mod order;
pub mod outline;
pub mod pattern;
pub mod sample_match;
pub mod seq_lemmas;
pub mod snapshot;
pub mod text;
pub mod track;
pub mod writer;
