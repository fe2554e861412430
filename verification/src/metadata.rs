//! Where the manifest and the tarsplit lie in a layer, as the file's footer
//! or the annotations of its OCI descriptor say.

use crate::footer::{Footer, FooterReference};
use crate::format::text_of;
use crate::position::{numbers_of, to_vec_u64};
use core::ops::Range;
use vstd::prelude::*;

verus! {

/// The annotation that holds the position of the manifest.
pub const MANIFEST_POSITION: &'static str = "io.github.containers.zstd-chunked.manifest-position";

/// The annotation that holds the checksum of the manifest.
pub const MANIFEST_CHECKSUM: &'static str = "io.github.containers.zstd-chunked.manifest-checksum";

/// The annotation that holds the position of the tarsplit.
pub const TARSPLIT_POSITION: &'static str = "io.github.containers.zstd-chunked.tarsplit-position";

/// The annotation that holds the checksum of the tarsplit.
pub const TARSPLIT_CHECKSUM: &'static str = "io.github.containers.zstd-chunked.tarsplit-checksum";

/// The type tag that ends the position of the manifest.
pub const MANIFEST_TYPE: u64 = 1;

/// A reference to file metadata, either the manifest or the tarsplit.
#[derive(Debug)]
pub struct MetadataReference {
    /// The range itself, in bytes, in the compressed file.
    pub range: Range<u64>,
    /// The digest of the data at the range, *before* decompression. This is
    /// missing if the reference was read from the file footer, or if the
    /// OCI annotations didn't provide it.
    pub digest: Option<String>,
    /// The size of the data at the range, after decompression.
    pub uncompressed_size: u64,
}

/// A `MetadataReference` as a mathematical value.
pub struct MetadataReferenceView {
    pub range: Range<u64>,
    pub digest: Option<Seq<char>>,
    pub uncompressed_size: u64,
}

impl View for MetadataReference {
    type V = MetadataReferenceView;

    open spec fn view(&self) -> MetadataReferenceView {
        MetadataReferenceView {
            range: self.range,
            digest: text_of(self.digest),
            uncompressed_size: self.uncompressed_size,
        }
    }
}

/// References to the manifest and tarsplit metadata. They can be read from
/// the file footer or from the annotations on the OCI layer descriptor.
#[derive(Debug)]
pub struct MetadataReferences {
    /// The location of the manifest data.
    pub manifest: MetadataReference,
    /// The location of the tarsplit data.
    pub tarsplit: MetadataReference,
}

/// A `MetadataReferences` as a mathematical value.
pub struct MetadataReferencesView {
    pub manifest: MetadataReferenceView,
    pub tarsplit: MetadataReferenceView,
}

impl View for MetadataReferences {
    type V = MetadataReferencesView;

    open spec fn view(&self) -> MetadataReferencesView {
        MetadataReferencesView { manifest: self.manifest@, tarsplit: self.tarsplit@ }
    }
}

/// The views of an optional pair of references.
pub open spec fn references_view(references: Option<MetadataReferences>) -> Option<
    MetadataReferencesView,
> {
    match references {
        Some(r) => Some(r@),
        None => None,
    }
}

/// The characters of an optional string slice.
pub open spec fn str_view(text: Option<&str>) -> Option<Seq<char>> {
    match text {
        Some(s) => Some(s@),
        None => None,
    }
}

/// The reference to `length` bytes from `start` on, which exists where the
/// end of the range fits 64 bits.
pub open spec fn reference_to(
    start: u64,
    length: u64,
    uncompressed_size: u64,
    digest: Option<Seq<char>>,
) -> Option<MetadataReferenceView> {
    if start + length <= u64::MAX {
        Some(
            MetadataReferenceView {
                range: Range { start, end: (start + length) as u64 },
                digest,
                uncompressed_size,
            },
        )
    } else {
        None
    }
}

/// Both references, where both exist.
pub open spec fn both(
    manifest: Option<MetadataReferenceView>,
    tarsplit: Option<MetadataReferenceView>,
) -> Option<MetadataReferencesView> {
    match (manifest, tarsplit) {
        (Some(manifest), Some(tarsplit)) => Some(MetadataReferencesView { manifest, tarsplit }),
        _ => None,
    }
}

impl FooterReference {
    /// The reference that a descriptor of the footer stands for. It has no
    /// digest.
    pub open spec fn reference(self) -> Option<MetadataReferenceView> {
        reference_to(self.offset, self.length_compressed, self.length_uncompressed, None)
    }
}

/// The references that the footer at the end of `suffix` holds.
pub open spec fn references_of_footer(suffix: Seq<u8>) -> Option<MetadataReferencesView> {
    match Footer::spec_from_suffix(suffix) {
        Some(footer) => both(footer.manifest.reference(), footer.tarsplit.reference()),
        None => None,
    }
}

/// The reference that the position of the manifest stands for: start, length
/// and uncompressed size, and then the type tag.
pub open spec fn manifest_reference(
    position: Option<Seq<char>>,
    checksum: Option<Seq<char>>,
) -> Option<MetadataReferenceView> {
    match position {
        Some(text) => match numbers_of(text) {
            Some(numbers) => if numbers.len() == 4 && numbers[3] == MANIFEST_TYPE {
                reference_to(numbers[0], numbers[1], numbers[2], checksum)
            } else {
                None
            },
            None => None,
        },
        None => None,
    }
}

/// The reference that the position of the tarsplit stands for: start, length
/// and uncompressed size.
pub open spec fn tarsplit_reference(
    position: Option<Seq<char>>,
    checksum: Option<Seq<char>>,
) -> Option<MetadataReferenceView> {
    match position {
        Some(text) => match numbers_of(text) {
            Some(numbers) => if numbers.len() == 3 {
                reference_to(numbers[0], numbers[1], numbers[2], checksum)
            } else {
                None
            },
            None => None,
        },
        None => None,
    }
}

/// The references that the four annotations stand for.
pub open spec fn references_of_annotations(
    manifest_position: Option<Seq<char>>,
    manifest_checksum: Option<Seq<char>>,
    tarsplit_position: Option<Seq<char>>,
    tarsplit_checksum: Option<Seq<char>>,
) -> Option<MetadataReferencesView> {
    both(
        manifest_reference(manifest_position, manifest_checksum),
        tarsplit_reference(tarsplit_position, tarsplit_checksum),
    )
}

impl MetadataReference {
    /// The reference to `length` bytes from `start` on, or `None` where the
    /// end of the range does not fit 64 bits.
    fn new(start: u64, length: u64, uncompressed_size: u64, digest: Option<&str>) -> (r: Option<
        MetadataReference,
    >)
        ensures
            match r {
                Some(reference) => reference_to(start, length, uncompressed_size, str_view(digest))
                    == Some(reference@),
                None => reference_to(start, length, uncompressed_size, str_view(digest)) is None,
            },
    {
        match start.checked_add(length) {
            Some(end) => Some(
                MetadataReference {
                    range: Range { start, end },
                    digest: match digest {
                        Some(text) => Some(text.to_owned()),
                        None => None,
                    },
                    uncompressed_size,
                },
            ),
            None => None,
        }
    }

    /// The reference that a descriptor of the footer stands for.
    fn from_footer(value: &FooterReference) -> (r: Option<MetadataReference>)
        ensures
            match r {
                Some(reference) => value.reference() == Some(reference@),
                None => value.reference() is None,
            },
    {
        MetadataReference::new(value.offset, value.length_compressed, value.length_uncompressed, None)
    }
}

impl MetadataReferences {
    /// Reads the metadata references from the file footer. The provided data
    /// can be any suffix of the file that holds the whole footer, which is 72
    /// bytes long. Returns `None` if this doesn't appear to be a zstd:chunked
    /// file.
    #[must_use]
    pub fn from_footer(suffix: &[u8]) -> (r: Option<MetadataReferences>)
        ensures
            references_view(r) == references_of_footer(suffix@),
    {
        let footer = match Footer::from_suffix(suffix) {
            Some(footer) => footer,
            None => { return None; },
        };
        let manifest = match MetadataReference::from_footer(&footer.manifest) {
            Some(manifest) => manifest,
            None => { return None; },
        };
        let tarsplit = match MetadataReference::from_footer(&footer.tarsplit) {
            Some(tarsplit) => tarsplit,
            None => { return None; },
        };
        Some(MetadataReferences { manifest, tarsplit })
    }

    /// Parses the metadata references from the values of the four
    /// annotations of an OCI layer descriptor, each `None` where the
    /// descriptor lacks it. Returns `None` if this doesn't appear to be a
    /// zstd:chunked layer descriptor.
    pub fn from_annotations(
        manifest_position: Option<&str>,
        manifest_checksum: Option<&str>,
        tarsplit_position: Option<&str>,
        tarsplit_checksum: Option<&str>,
    ) -> (r: Option<MetadataReferences>)
        ensures
            references_view(r) == references_of_annotations(
                str_view(manifest_position),
                str_view(manifest_checksum),
                str_view(tarsplit_position),
                str_view(tarsplit_checksum),
            ),
    {
        let manifest_position = match manifest_position {
            Some(position) => position,
            None => { return None; },
        };
        let tarsplit_position = match tarsplit_position {
            Some(position) => position,
            None => { return None; },
        };
        let manifest = match to_vec_u64(manifest_position) {
            Some(numbers) => {
                if numbers.len() == 4 && numbers[3] == MANIFEST_TYPE {
                    match MetadataReference::new(
                        numbers[0],
                        numbers[1],
                        numbers[2],
                        manifest_checksum,
                    ) {
                        Some(manifest) => manifest,
                        None => { return None; },
                    }
                } else {
                    return None;
                }
            },
            None => { return None; },
        };
        let tarsplit = match to_vec_u64(tarsplit_position) {
            Some(numbers) => {
                if numbers.len() == 3 {
                    match MetadataReference::new(
                        numbers[0],
                        numbers[1],
                        numbers[2],
                        tarsplit_checksum,
                    ) {
                        Some(tarsplit) => tarsplit,
                        None => { return None; },
                    }
                } else {
                    return None;
                }
            },
            None => { return None; },
        };
        Some(MetadataReferences { manifest, tarsplit })
    }

    /// Parses the metadata references from OCI layer descriptor annotations.
    /// `get` returns the requested annotation, or `None` if it doesn't exist.
    /// Returns `None` if this doesn't appear to be a zstd:chunked layer
    /// descriptor.
    ///
    /// `get` is asked for each of the four annotations once, and the result
    /// is what `from_annotations` makes of its answers.
    pub fn from_oci<'a, F: Fn(&str) -> Option<&'a str>>(get: F) -> (r: Option<MetadataReferences>)
        requires
            call_requires(get, (MANIFEST_CHECKSUM,)),
            call_requires(get, (MANIFEST_POSITION,)),
            call_requires(get, (TARSPLIT_CHECKSUM,)),
            call_requires(get, (TARSPLIT_POSITION,)),
        ensures
            exists|
                manifest_position: Option<&'a str>,
                manifest_checksum: Option<&'a str>,
                tarsplit_position: Option<&'a str>,
                tarsplit_checksum: Option<&'a str>,
            |
                {
                    &&& call_ensures(get, (MANIFEST_POSITION,), manifest_position)
                    &&& call_ensures(get, (MANIFEST_CHECKSUM,), manifest_checksum)
                    &&& call_ensures(get, (TARSPLIT_POSITION,), tarsplit_position)
                    &&& call_ensures(get, (TARSPLIT_CHECKSUM,), tarsplit_checksum)
                    &&& references_view(r) == references_of_annotations(
                        str_view(manifest_position),
                        str_view(manifest_checksum),
                        str_view(tarsplit_position),
                        str_view(tarsplit_checksum),
                    )
                },
    {
        let manifest_checksum = get(MANIFEST_CHECKSUM);
        let manifest_position = get(MANIFEST_POSITION);
        let tarsplit_checksum = get(TARSPLIT_CHECKSUM);
        let tarsplit_position = get(TARSPLIT_POSITION);
        MetadataReferences::from_annotations(
            manifest_position,
            manifest_checksum,
            tarsplit_position,
            tarsplit_checksum,
        )
    }
}

} // verus!
