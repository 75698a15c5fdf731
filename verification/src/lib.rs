//! Reconciles a human-editable text manifest describing an album (title,
//! artist, release date, cover art, per-disc track listing) against a folder
//! of audio files: a manifest can be derived from existing file tags, or
//! manifest data can be written into file tags and files renamed accordingly.
//!
//! The library owns the normalized tag record, the album domain model, the
//! manifest grammar, the positional reconciliation of tracks onto files, and
//! the rename-target computation.  Reading and writing actual files is left
//! to the surrounding program.

pub mod audio_file;
pub mod model;
pub mod tags;
pub mod tags_file;
pub mod text;
