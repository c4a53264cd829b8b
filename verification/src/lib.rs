//! Source-location tracking with byte-range provenance.
//!
//! A [`SourceInfo`] records where a piece of text came from: a range of a
//! registered file, a range of another `SourceInfo`, or a concatenation of
//! such pieces. [`ProvenanceBuilder`] tiles a decoded string against the
//! source bytes it was decoded from and emits the matching `SourceInfo`.
//! [`FileOrigin`] records where the content of a virtual file really comes
//! from.

pub mod file_origin;
pub mod provenance_builder;
pub mod provenance_laws;
pub mod source_info;
pub mod types;

pub use file_origin::FileOrigin;
pub use provenance_builder::{Piece, ProvenanceBuilder, Root};
pub use source_info::{SourceInfo, SourcePiece};
pub use types::FileId;
