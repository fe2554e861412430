//! The footer of a zstd:chunked file: a skippable zstandard frame that points
//! at the manifest and the tarsplit, with the format's magic after it.
//!
//! | offset | size | field                       | must be      |
//! |--------|------|-----------------------------|--------------|
//! | 0      | 4    | skippable magic             | `50 2A 4D 18`|
//! | 4      | 4    | skippable size              | 56           |
//! | 8      | 24   | manifest reference          |              |
//! | 32     | 8    | manifest type               | 1            |
//! | 40     | 24   | tarsplit reference          |              |
//! | 64     | 8    | zstd:chunked magic          | `GNUlInUx`   |
//!
//! A reference is an offset, a compressed length and an uncompressed length.
//! All integers are little-endian.

use vstd::prelude::*;

verus! {

/// The length of the footer, the magic after the frame included.
pub const FOOTER_SIZE: usize = 72;

/// The magic of a skippable zstandard frame.
pub const ZSTD_SKIPPABLE_MAGIC: [u8; 4] = [0x50, 0x2a, 0x4d, 0x18];

/// The length that the skippable frame declares for its body.
pub const ZSTD_SKIPPABLE_SIZE: u32 = 56;

/// The one type of manifest that is understood.
pub const ZSTD_CHUNKED_MANIFEST_TYPE: u64 = 1;

/// The magic of the format: `GNUlInUx`, in exactly this case.
pub const ZSTD_CHUNKED_MAGIC: [u8; 8] = [0x47, 0x4e, 0x55, 0x6c, 0x49, 0x6e, 0x55, 0x78];

/// The number that four bytes hold, least significant byte first.
pub open spec fn le_u32(bytes: Seq<u8>) -> u32
    recommends
        bytes.len() == 4,
{
    (bytes[0] + 0x100 * bytes[1] + 0x1_0000 * bytes[2] + 0x100_0000 * bytes[3]) as u32
}

/// The number that eight bytes hold, least significant byte first.
pub open spec fn le_u64(bytes: Seq<u8>) -> u64
    recommends
        bytes.len() == 8,
{
    (bytes[0] + 0x100 * bytes[1] + 0x1_0000 * bytes[2] + 0x100_0000 * bytes[3] + 0x1_0000_0000
        * bytes[4] + 0x100_0000_0000 * bytes[5] + 0x1_0000_0000_0000 * bytes[6]
        + 0x100_0000_0000_0000 * bytes[7]) as u64
}

/// Reads the little-endian number in the four bytes at `at`.
fn read_le_u32(data: &[u8], at: usize) -> (r: u32)
    requires
        at + 4 <= data.len(),
    ensures
        r == le_u32(data@.subrange(at as int, at + 4)),
{
    let b0 = data[at] as u32;
    let b1 = data[at + 1] as u32;
    let b2 = data[at + 2] as u32;
    let b3 = data[at + 3] as u32;
    b0 + 0x100 * b1 + 0x1_0000 * b2 + 0x100_0000 * b3
}

/// Reads the little-endian number in the eight bytes at `at`.
fn read_le_u64(data: &[u8], at: usize) -> (r: u64)
    requires
        at + 8 <= data.len(),
    ensures
        r == le_u64(data@.subrange(at as int, at + 8)),
{
    let b0 = data[at] as u64;
    let b1 = data[at + 1] as u64;
    let b2 = data[at + 2] as u64;
    let b3 = data[at + 3] as u64;
    let b4 = data[at + 4] as u64;
    let b5 = data[at + 5] as u64;
    let b6 = data[at + 6] as u64;
    let b7 = data[at + 7] as u64;
    b0 + 0x100 * b1 + 0x1_0000 * b2 + 0x100_0000 * b3 + 0x1_0000_0000 * b4 + 0x100_0000_0000 * b5
        + 0x1_0000_0000_0000 * b6 + 0x100_0000_0000_0000 * b7
}

/// A descriptor of a compressed byte range, as the footer holds it.
#[derive(Debug, Clone, Copy)]
pub struct FooterReference {
    pub offset: u64,
    pub length_compressed: u64,
    pub length_uncompressed: u64,
}

/// The footer, field by field.
#[derive(Debug, Clone, Copy)]
pub struct Footer {
    pub skippable_magic: [u8; 4],
    pub skippable_size: u32,
    pub manifest: FooterReference,
    pub manifest_type: u64,
    pub tarsplit: FooterReference,
    pub zstd_chunked_magic: [u8; 8],
}

impl FooterReference {
    /// The reference that 24 bytes hold.
    pub open spec fn decode(bytes: Seq<u8>) -> FooterReference
        recommends
            bytes.len() == 24,
    {
        FooterReference {
            offset: le_u64(bytes.subrange(0, 8)),
            length_compressed: le_u64(bytes.subrange(8, 16)),
            length_uncompressed: le_u64(bytes.subrange(16, 24)),
        }
    }

    /// Reads the reference in the 24 bytes at `at`.
    fn read(data: &[u8], at: usize) -> (r: FooterReference)
        requires
            at + 24 <= data.len(),
        ensures
            r == FooterReference::decode(data@.subrange(at as int, at + 24)),
    {
        let ghost bytes = data@.subrange(at as int, at + 24);
        assert(bytes.subrange(0, 8) =~= data@.subrange(at as int, at + 8));
        assert(bytes.subrange(8, 16) =~= data@.subrange(at + 8, at + 16));
        assert(bytes.subrange(16, 24) =~= data@.subrange(at + 16, at + 24));
        FooterReference {
            offset: read_le_u64(data, at),
            length_compressed: read_le_u64(data, at + 8),
            length_uncompressed: read_le_u64(data, at + 16),
        }
    }
}

impl Footer {
    /// The footer that 72 bytes hold, whatever its fields are.
    pub open spec fn decode(bytes: Seq<u8>) -> Footer
        recommends
            bytes.len() == FOOTER_SIZE,
    {
        Footer {
            skippable_magic: [bytes[0], bytes[1], bytes[2], bytes[3]],
            skippable_size: le_u32(bytes.subrange(4, 8)),
            manifest: FooterReference::decode(bytes.subrange(8, 32)),
            manifest_type: le_u64(bytes.subrange(32, 40)),
            tarsplit: FooterReference::decode(bytes.subrange(40, 64)),
            zstd_chunked_magic: [
                bytes[64],
                bytes[65],
                bytes[66],
                bytes[67],
                bytes[68],
                bytes[69],
                bytes[70],
                bytes[71],
            ],
        }
    }

    /// Whether the two magics, the frame size and the manifest type are the
    /// ones of the format.
    pub open spec fn spec_valid(&self) -> bool {
        &&& self.skippable_magic == ZSTD_SKIPPABLE_MAGIC
        &&& self.skippable_size == ZSTD_SKIPPABLE_SIZE
        &&& self.manifest_type == ZSTD_CHUNKED_MANIFEST_TYPE
        &&& self.zstd_chunked_magic == ZSTD_CHUNKED_MAGIC
    }

    /// The footer at the end of `data`: its last 72 bytes, where there are as
    /// many and they hold a valid footer.
    pub open spec fn spec_from_suffix(data: Seq<u8>) -> Option<Footer> {
        if data.len() < FOOTER_SIZE {
            None
        } else {
            let footer = Footer::decode(data.skip(data.len() - FOOTER_SIZE));
            if footer.spec_valid() {
                Some(footer)
            } else {
                None
            }
        }
    }

    /// Whether the two magics, the frame size and the manifest type are the
    /// ones of the format.
    #[verifier::when_used_as_spec(spec_valid)]
    pub fn valid(&self) -> (r: bool)
        ensures
            r == self.spec_valid(),
    {
        let skippable = self.skippable_magic[0] == ZSTD_SKIPPABLE_MAGIC[0]
            && self.skippable_magic[1] == ZSTD_SKIPPABLE_MAGIC[1]
            && self.skippable_magic[2] == ZSTD_SKIPPABLE_MAGIC[2]
            && self.skippable_magic[3] == ZSTD_SKIPPABLE_MAGIC[3];
        let chunked = self.zstd_chunked_magic[0] == ZSTD_CHUNKED_MAGIC[0]
            && self.zstd_chunked_magic[1] == ZSTD_CHUNKED_MAGIC[1]
            && self.zstd_chunked_magic[2] == ZSTD_CHUNKED_MAGIC[2]
            && self.zstd_chunked_magic[3] == ZSTD_CHUNKED_MAGIC[3]
            && self.zstd_chunked_magic[4] == ZSTD_CHUNKED_MAGIC[4]
            && self.zstd_chunked_magic[5] == ZSTD_CHUNKED_MAGIC[5]
            && self.zstd_chunked_magic[6] == ZSTD_CHUNKED_MAGIC[6]
            && self.zstd_chunked_magic[7] == ZSTD_CHUNKED_MAGIC[7];
        assert(skippable == (self.skippable_magic =~= ZSTD_SKIPPABLE_MAGIC));
        assert(chunked == (self.zstd_chunked_magic =~= ZSTD_CHUNKED_MAGIC));
        skippable && self.skippable_size == ZSTD_SKIPPABLE_SIZE && self.manifest_type
            == ZSTD_CHUNKED_MANIFEST_TYPE && chunked
    }

    /// Tries to extract a zstd:chunked footer from the passed slice. The
    /// slice can be the entire file or some portion of the end of it, of at
    /// least 72 bytes.
    pub fn from_suffix(data: &[u8]) -> (r: Option<Footer>)
        ensures
            r == Footer::spec_from_suffix(data@),
    {
        if data.len() < FOOTER_SIZE {
            return None;
        }
        let at: usize = data.len() - FOOTER_SIZE;
        let ghost bytes = data@.skip(at as int);
        assert(bytes.subrange(4, 8) =~= data@.subrange(at + 4, at + 8));
        assert(bytes.subrange(8, 32) =~= data@.subrange(at + 8, at + 32));
        assert(bytes.subrange(32, 40) =~= data@.subrange(at + 32, at + 40));
        assert(bytes.subrange(40, 64) =~= data@.subrange(at + 40, at + 64));
        let footer = Footer {
            skippable_magic: [data[at], data[at + 1], data[at + 2], data[at + 3]],
            skippable_size: read_le_u32(data, at + 4),
            manifest: FooterReference::read(data, at + 8),
            manifest_type: read_le_u64(data, at + 32),
            tarsplit: FooterReference::read(data, at + 40),
            zstd_chunked_magic: [
                data[at + 64],
                data[at + 65],
                data[at + 66],
                data[at + 67],
                data[at + 68],
                data[at + 69],
                data[at + 70],
                data[at + 71],
            ],
        };
        assert(footer.skippable_magic =~= Footer::decode(bytes).skippable_magic);
        assert(footer.zstd_chunked_magic =~= Footer::decode(bytes).zstd_chunked_magic);
        if footer.valid() {
            Some(footer)
        } else {
            None
        }
    }
}

} // verus!
