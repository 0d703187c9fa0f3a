//! The asset pipeline: source files in, cached artifacts out.
//!
//! Sources live in `assets/`. Import settings live in a sibling `.meta`, which
//! is TOML and therefore hand- and agent-editable. Imported artifacts are
//! cached in `.import/`, keyed by the content hash of the source they came
//! from.
//!
//! Two things happen at import rather than at runtime, both because
//! determinism depends on it: frame durations become whole ticks
//! ([`clip::ms_to_ticks`]), and atlases are packed.
pub mod aseprite;
pub mod builtin_font;
pub mod cache;
pub mod clip;
pub mod font;
pub mod image;
pub mod ldtk;
pub mod meta;
pub mod sheet;

pub use aseprite::{clip_from_range, Aseprite, Playback};
pub use cache::{import, Artifact, Catalog, Entry, Imported, ASSETS_DIR, MAX_SHEET_WIDTH};
pub use clip::{ms_to_ticks, Clip, Frame};
pub use image::{Image, ImageError};
pub use meta::{content_hash, ImportSettings, MetaError, SourceKind, IMPORT_DIR, META_EXTENSION};
pub use sheet::{pack, Placement, Sheet};
