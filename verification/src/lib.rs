//! A library to help read zstd:chunked files.
//!
//! A zstd:chunked file is a zstandard-compressed tar archive that carries,
//! out of band, a manifest and a tarsplit. Together they say how to rebuild
//! the uncompressed archive from literal bytes and from compressed ranges of
//! the file. `MetadataReferences` finds the two, in the file's footer or in
//! the annotations of an OCI layer descriptor; `Stream` is the plan that they
//! describe.

pub mod codec;
pub mod driver;
pub mod error;
pub mod footer;
pub mod format;
pub mod json;
pub mod laws;
pub mod lines;
pub mod metadata;
pub mod position;
pub mod reference;
pub mod stream;
pub mod walk;

pub use error::CorruptMetadata;
pub use footer::{Footer, FooterReference};
pub use format::{Manifest, ManifestEntry, TarSplitEntry};
pub use metadata::{MetadataReference, MetadataReferences};
pub use position::to_vec_u64;
pub use reference::ContentReference;
pub use stream::{Chunk, Stream};
pub use walk::{Cursor, Step};
