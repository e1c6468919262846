//! Extraction and reinjection engine for event-scripted game data files.
//!
//! The library walks documents of three schema families (map scene graphs,
//! entity collections and the system vocabulary), collects translatable text
//! into insertion-ordered pools, builds a translation lookup from paired
//! original/translated line files, and writes translated text back into
//! freshly loaded copies of the original documents without changing their
//! shape.

pub mod classify;
pub mod extract;
pub mod inject;
pub mod laws;
pub mod merge;
pub mod model;
pub mod pool;
pub mod romanize;
pub mod runs;
pub mod shuffle;
pub mod text;
pub mod tmap;

pub use romanize::romanize_string;
pub use shuffle::shuffle_words;
