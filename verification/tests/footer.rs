use zstd_chunked::footer::{Footer, FOOTER_SIZE};
use zstd_chunked::MetadataReferences;

fn footer_bytes(
    manifest: (u64, u64, u64),
    manifest_type: u64,
    tarsplit: (u64, u64, u64),
    magic: &[u8; 8],
) -> Vec<u8> {
    let mut bytes = vec![0x50, 0x2a, 0x4d, 0x18];
    bytes.extend_from_slice(&56u32.to_le_bytes());
    for field in [manifest.0, manifest.1, manifest.2, manifest_type, tarsplit.0, tarsplit.1, tarsplit.2] {
        bytes.extend_from_slice(&field.to_le_bytes());
    }
    bytes.extend_from_slice(magic);
    bytes
}

#[test]
fn minimal_footer() {
    let mut blob = vec![0u8; 64];
    blob.extend(footer_bytes((0, 0, 0), 1, (0, 0, 0), b"GNUlInUx"));
    let references = MetadataReferences::from_footer(&blob).unwrap();
    assert_eq!(references.manifest.range, 0..0);
    assert_eq!(references.tarsplit.range, 0..0);
    assert_eq!(references.manifest.uncompressed_size, 0);
    assert_eq!(references.tarsplit.uncompressed_size, 0);
    assert!(references.manifest.digest.is_none());
    assert!(references.tarsplit.digest.is_none());
}

#[test]
fn footer_alone_is_enough() {
    let blob = footer_bytes((0, 0, 0), 1, (0, 0, 0), b"GNUlInUx");
    assert_eq!(blob.len(), FOOTER_SIZE);
    assert_eq!(blob.len(), 72);
    let references = MetadataReferences::from_footer(&blob).unwrap();
    assert_eq!(references.manifest.range, 0..0);
    assert_eq!(references.tarsplit.range, 0..0);
}

#[test]
fn wrong_trailing_magic() {
    let mut blob = vec![0u8; 64];
    blob.extend(footer_bytes((0, 0, 0), 1, (0, 0, 0), b"GNUlinux"));
    assert!(MetadataReferences::from_footer(&blob).is_none());
}

#[test]
fn short_suffix_is_no_footer() {
    let blob = footer_bytes((0, 0, 0), 1, (0, 0, 0), b"GNUlInUx");
    assert!(MetadataReferences::from_footer(&blob[1..]).is_none());
    assert!(MetadataReferences::from_footer(&blob[8..]).is_none());
    assert!(MetadataReferences::from_footer(&[]).is_none());
    assert!(Footer::from_suffix(&blob[1..]).is_none());
}

#[test]
fn footer_fields_are_little_endian() {
    let blob = footer_bytes(
        (0x0102_0304_0506_0708, 0x10, 0x1122_3344_5566_7788),
        1,
        (1000, 24, 0xffff_ffff_ffff_ffff),
        b"GNUlInUx",
    );
    let footer = Footer::from_suffix(&blob).unwrap();
    assert_eq!(footer.skippable_magic, [0x50, 0x2a, 0x4d, 0x18]);
    assert_eq!(footer.skippable_size, 56);
    assert_eq!(footer.manifest.offset, 0x0102_0304_0506_0708);
    assert_eq!(footer.manifest.length_compressed, 0x10);
    assert_eq!(footer.manifest.length_uncompressed, 0x1122_3344_5566_7788);
    assert_eq!(footer.manifest_type, 1);
    assert_eq!(footer.tarsplit.offset, 1000);
    assert_eq!(footer.tarsplit.length_compressed, 24);
    assert_eq!(footer.tarsplit.length_uncompressed, 0xffff_ffff_ffff_ffff);
    assert_eq!(&footer.zstd_chunked_magic, b"GNUlInUx");
    assert!(footer.valid());

    let references = MetadataReferences::from_footer(&blob).unwrap();
    assert_eq!(references.manifest.range, 0x0102_0304_0506_0708..0x0102_0304_0506_0718);
    assert_eq!(references.manifest.uncompressed_size, 0x1122_3344_5566_7788);
    assert_eq!(references.tarsplit.range, 1000..1024);
    assert_eq!(references.tarsplit.uncompressed_size, 0xffff_ffff_ffff_ffff);
}

#[test]
fn footer_is_read_from_the_end() {
    let mut blob = vec![0xabu8; 1000];
    blob.extend(footer_bytes((10, 20, 30), 1, (40, 50, 60), b"GNUlInUx"));
    let references = MetadataReferences::from_footer(&blob).unwrap();
    assert_eq!(references.manifest.range, 10..30);
    assert_eq!(references.tarsplit.range, 40..90);
    let shorter = MetadataReferences::from_footer(&blob[500..]).unwrap();
    assert_eq!(shorter.manifest.range, 10..30);
    assert_eq!(shorter.tarsplit.range, 40..90);
    blob.push(0);
    assert!(MetadataReferences::from_footer(&blob).is_none());
}

#[test]
fn wrong_manifest_type() {
    let blob = footer_bytes((0, 0, 0), 2, (0, 0, 0), b"GNUlInUx");
    assert!(MetadataReferences::from_footer(&blob).is_none());
    let blob = footer_bytes((0, 0, 0), 0, (0, 0, 0), b"GNUlInUx");
    assert!(MetadataReferences::from_footer(&blob).is_none());
}

#[test]
fn wrong_skippable_size() {
    let mut blob = footer_bytes((0, 0, 0), 1, (0, 0, 0), b"GNUlInUx");
    blob[4] = 64;
    assert!(MetadataReferences::from_footer(&blob).is_none());
    assert!(Footer::from_suffix(&blob).is_none());
}

#[test]
fn any_flipped_bit_of_a_constant_is_no_footer() {
    let blob = footer_bytes((10, 20, 30), 1, (40, 50, 60), b"GNUlInUx");
    assert!(MetadataReferences::from_footer(&blob).is_some());
    for offset in (0..8).chain(32..40).chain(64..72) {
        for bit in 0..8 {
            let mut flipped = blob.clone();
            flipped[offset] ^= 1 << bit;
            assert!(MetadataReferences::from_footer(&flipped).is_none());
            assert!(Footer::from_suffix(&flipped).is_none());
        }
    }
}

#[test]
fn flipped_bit_of_a_reference_is_still_a_footer() {
    let blob = footer_bytes((10, 20, 30), 1, (40, 50, 60), b"GNUlInUx");
    for offset in (8..32).chain(40..64) {
        let mut flipped = blob.clone();
        flipped[offset] ^= 1;
        assert!(Footer::from_suffix(&flipped).is_some());
    }
}

#[test]
fn footer_range_that_overflows() {
    let blob = footer_bytes((u64::MAX, 1, 0), 1, (0, 0, 0), b"GNUlInUx");
    assert!(Footer::from_suffix(&blob).is_some());
    assert!(MetadataReferences::from_footer(&blob).is_none());
    let blob = footer_bytes((0, 0, 0), 1, (1, u64::MAX, 0), b"GNUlInUx");
    assert!(MetadataReferences::from_footer(&blob).is_none());
    let blob = footer_bytes((u64::MAX, 0, 0), 1, (1, u64::MAX - 1, 0), b"GNUlInUx");
    let references = MetadataReferences::from_footer(&blob).unwrap();
    assert_eq!(references.manifest.range, u64::MAX..u64::MAX);
    assert_eq!(references.tarsplit.range, 1..u64::MAX);
}
