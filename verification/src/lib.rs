//! Builds installer packages: one canonical tar-format byte stream for a
//! directory tree, persisted simultaneously under several compression
//! formats, with deterministic member ordering and metadata fidelity.

use vstd::prelude::*;

mod error;
pub mod archive;
pub mod combiner;
pub mod compression;
pub mod generator;
pub mod reader;
pub mod scripter;
pub mod sort;
pub mod tarballer;
pub mod util;

pub use archive::ArchiveMember;
pub use archive::MemberKind;
pub use combiner::Combiner;
pub use compression::CompressionFormat;
pub use compression::CompressionFormats;
pub use error::Error;
pub use generator::Generator;
pub use scripter::Scripter;
pub use tarballer::Tarballer;

verus! {

/// The installer version, recorded in every generated package so that the
/// combiner can refuse inputs produced by an incompatible layout.
pub const RUST_INSTALLER_VERSION: u32 = 3;

} // verus!
