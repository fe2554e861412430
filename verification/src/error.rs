//! What is wrong with metadata that cannot be turned into a stream.

use vstd::prelude::*;
use vstd::string::StringExecFns;

verus! {

/// The ways in which the metadata of a layer can be corrupt.
#[derive(Debug)]
pub enum CorruptMetadata {
    /// A blob is not in the zstandard frame format.
    Decompress,
    /// A document is not JSON, or not JSON of the shape that is expected.
    Json,
    /// The tarsplit is not UTF-8.
    NotUtf8,
    /// The manifest is of a version other than the supported one.
    Version,
    /// A tarsplit record names a file that the manifest does not list.
    MissingFile(String),
    /// A tarsplit record and the manifest disagree about the size of a file.
    SizeMismatch,
}

/// A `CorruptMetadata` as a mathematical value.
pub enum CorruptMetadataView {
    Decompress,
    Json,
    NotUtf8,
    Version,
    MissingFile(Seq<char>),
    SizeMismatch,
}

impl View for CorruptMetadata {
    type V = CorruptMetadataView;

    open spec fn view(&self) -> CorruptMetadataView {
        match self {
            CorruptMetadata::Decompress => CorruptMetadataView::Decompress,
            CorruptMetadata::Json => CorruptMetadataView::Json,
            CorruptMetadata::NotUtf8 => CorruptMetadataView::NotUtf8,
            CorruptMetadata::Version => CorruptMetadataView::Version,
            CorruptMetadata::MissingFile(name) => CorruptMetadataView::MissingFile(name@),
            CorruptMetadata::SizeMismatch => CorruptMetadataView::SizeMismatch,
        }
    }
}

impl CorruptMetadataView {
    /// The text that describes the error.
    pub open spec fn message(self) -> Seq<char> {
        match self {
            CorruptMetadataView::Decompress => "Metadata is not in the zstd frame format"@,
            CorruptMetadataView::Json => "Metadata is not JSON of the expected shape"@,
            CorruptMetadataView::NotUtf8 => "Tarsplit is not valid UTF-8"@,
            CorruptMetadataView::Version => "Incorrect zstd:chunked CRFS manifest version"@,
            CorruptMetadataView::MissingFile(name) => "Filename "@ + name
                + " in zstd:chunked tarsplit missing from manifest"@,
            CorruptMetadataView::SizeMismatch => "size mismatch"@,
        }
    }
}

impl CorruptMetadata {
    /// A human-readable description of the error.
    pub fn message(&self) -> (r: String)
        ensures
            r@ == self@.message(),
    {
        match self {
            CorruptMetadata::Decompress => String::from_str(
                "Metadata is not in the zstd frame format",
            ),
            CorruptMetadata::Json => String::from_str("Metadata is not JSON of the expected shape"),
            CorruptMetadata::NotUtf8 => String::from_str("Tarsplit is not valid UTF-8"),
            CorruptMetadata::Version => String::from_str(
                "Incorrect zstd:chunked CRFS manifest version",
            ),
            CorruptMetadata::MissingFile(name) => {
                let mut text = String::from_str("Filename ");
                text.append(name.as_str());
                text.append(" in zstd:chunked tarsplit missing from manifest");
                text
            },
            CorruptMetadata::SizeMismatch => String::from_str("size mismatch"),
        }
    }
}

} // verus!
