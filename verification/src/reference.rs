//! References to byte ranges of a layer.

use core::ops::Range;
use vstd::prelude::*;

verus! {

/// A reference to a compressed range in a zstd:chunked file, along with size
/// and checksum information about the uncompressed data at that range.
#[derive(Debug)]
pub struct ContentReference {
    /// The range itself, in bytes, in the compressed file.
    pub range: Range<u64>,
    /// The digest of the data at the range, after decompression.
    pub digest: String,
    /// The size of the data at the range, after decompression.
    pub size: u64,
}

/// A `ContentReference` as a mathematical value.
pub struct ContentReferenceView {
    pub range: Range<u64>,
    pub digest: Seq<char>,
    pub size: u64,
}

impl View for ContentReference {
    type V = ContentReferenceView;

    open spec fn view(&self) -> ContentReferenceView {
        ContentReferenceView { range: self.range, digest: self.digest@, size: self.size }
    }
}

impl Clone for ContentReference {
    fn clone(&self) -> (r: Self)
        ensures
            r == *self,
    {
        ContentReference {
            range: Range { start: self.range.start, end: self.range.end },
            digest: self.digest.clone(),
            size: self.size,
        }
    }
}

} // verus!
