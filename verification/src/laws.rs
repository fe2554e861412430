//! What holds of every input: of the footer and the annotations, of the
//! way the builder makes a stream, and of the order in which a walk writes
//! it.

use crate::codec::zstd_decoded;
use crate::driver::{
    content_of, lemma_content_of_enough, lemma_content_step, lemma_references_step, references_of,
};
use crate::error::CorruptMetadataView;
use crate::footer::{
    le_u32, le_u64, Footer, FOOTER_SIZE, ZSTD_CHUNKED_MAGIC, ZSTD_CHUNKED_MANIFEST_TYPE,
    ZSTD_SKIPPABLE_MAGIC, ZSTD_SKIPPABLE_SIZE,
};
use crate::format::{manifest_of, ManifestEntryView, ManifestView, TarSplitEntryView};
use crate::json::json_document;
use crate::metadata::{references_of_annotations, references_of_footer, MANIFEST_TYPE};
use crate::position::numbers_of;
use crate::reference::ContentReferenceView;
use crate::stream::{
    manifest_in, plan, plan_of, plan_of_lines, record_of, reference_table, resolve, resolve_line,
    stream_of, stream_of_frames, tarsplit_in, ChunkView, MANIFEST_VERSION,
};
use vstd::prelude::*;

verus! {

/// A plan succeeds exactly where each of its steps does, and a plan that
/// fails has the error of its first failing step.
pub proof fn lemma_plan_first_error(steps: Seq<Result<Option<ChunkView>, CorruptMetadataView>>)
    ensures
        match plan(steps) {
            Ok(_) => forall|i: int| 0 <= i < steps.len() ==> (#[trigger] steps[i]) is Ok,
            Err(e) => exists|i: int|
                0 <= i < steps.len() && #[trigger] steps[i] == Err::<
                    Option<ChunkView>,
                    CorruptMetadataView,
                >(e) && forall|j: int| 0 <= j < i ==> (#[trigger] steps[j]) is Ok,
        },
    decreases steps.len(),
{
    if steps.len() > 0 {
        let earlier = steps.drop_last();
        lemma_plan_first_error(earlier);
        match plan(earlier) {
            Ok(_) => {
                assert forall|j: int| 0 <= j < steps.len() - 1 implies (#[trigger] steps[j]) is Ok by {
                    assert(steps[j] == earlier[j]);
                }
                match steps.last() {
                    Ok(_) => {},
                    Err(e) => {
                        assert(steps[steps.len() - 1] == Err::<
                            Option<ChunkView>,
                            CorruptMetadataView,
                        >(e));
                    },
                }
            },
            Err(e) => {
                let i = choose|i: int|
                    0 <= i < earlier.len() && #[trigger] earlier[i] == Err::<
                        Option<ChunkView>,
                        CorruptMetadataView,
                    >(e) && forall|j: int| 0 <= j < i ==> (#[trigger] earlier[j]) is Ok;
                assert(steps[i] == earlier[i]);
                assert forall|j: int| 0 <= j < i implies (#[trigger] steps[j]) is Ok by {
                    assert(steps[j] == earlier[j]);
                }
            },
        }
    }
}

/// Each chunk of a plan comes from one of its steps.
pub proof fn lemma_plan_chunks_come_from_steps(
    steps: Seq<Result<Option<ChunkView>, CorruptMetadataView>>,
    chunks: Seq<ChunkView>,
    c: int,
)
    requires
        plan(steps) == Ok::<Seq<ChunkView>, CorruptMetadataView>(chunks),
        0 <= c < chunks.len(),
    ensures
        exists|i: int|
            0 <= i < steps.len() && #[trigger] steps[i] == Ok::<
                Option<ChunkView>,
                CorruptMetadataView,
            >(Some(chunks[c])),
    decreases steps.len(),
{
    if steps.len() > 0 {
        let earlier = steps.drop_last();
        let before = plan(earlier)->Ok_0;
        if c < before.len() {
            assert(chunks[c] == before[c]);
            lemma_plan_chunks_come_from_steps(earlier, before, c);
            let i = choose|i: int|
                0 <= i < earlier.len() && #[trigger] earlier[i] == Ok::<
                    Option<ChunkView>,
                    CorruptMetadataView,
                >(Some(before[c]));
            assert(steps[i] == earlier[i]);
        } else {
            assert(steps[steps.len() - 1] == Ok::<Option<ChunkView>, CorruptMetadataView>(
                Some(chunks[c]),
            ));
        }
    }
}

/// Every file of the table is a file of the manifest: an entry of that
/// name, with all four of its optional fields, stands for it.
pub proof fn lemma_table_comes_from_manifest(entries: Seq<ManifestEntryView>, name: Seq<char>)
    requires
        reference_table(entries).contains_key(name),
    ensures
        exists|e: int|
            0 <= e < entries.len() && (#[trigger] entries[e]).name == name && entries[e].reference()
                == Some(reference_table(entries)[name]),
    decreases entries.len(),
{
    if entries.len() > 0 {
        let earlier = entries.drop_last();
        let last = entries.last();
        if last.reference() is Some && last.name == name {
            assert(entries[entries.len() - 1] == last);
        } else {
            lemma_table_comes_from_manifest(earlier, name);
            let e = choose|e: int|
                0 <= e < earlier.len() && (#[trigger] earlier[e]).name == name
                    && earlier[e].reference() == Some(reference_table(earlier)[name]);
            assert(entries[e] == earlier[e]);
        }
    }
}

/// A manifest of another version than the supported one is rejected, with
/// the error that says so, whatever the tarsplit holds.
pub proof fn law_wrong_version_is_rejected(
    manifest: Seq<u8>,
    tarsplit: Seq<u8>,
    decoded: ManifestView,
)
    requires
        zstd_decoded(manifest) matches Some(text) && json_document(text) matches Some(document)
            && manifest_of(document) == Some(decoded),
        decoded.version != MANIFEST_VERSION,
    ensures
        stream_of_frames(manifest, tarsplit) == Err::<Seq<ChunkView>, CorruptMetadataView>(
            CorruptMetadataView::Version,
        ),
{
}

/// A tarsplit with a record that names a file which the manifest lacks is
/// rejected. Where no line before that record fails, the error names the
/// file.
pub proof fn law_missing_file_is_rejected(
    manifest: Seq<u8>,
    tarsplit: Seq<u8>,
    decoded: ManifestView,
    lines: Seq<Seq<u8>>,
    line: int,
    name: Seq<char>,
    size: u64,
)
    requires
        manifest_in(manifest) == Ok::<ManifestView, CorruptMetadataView>(decoded),
        tarsplit_in(tarsplit) == Ok::<Seq<Seq<u8>>, CorruptMetadataView>(lines),
        0 <= line < lines.len(),
        lines[line].len() > 0,
        record_of(lines[line]) matches Some(record) && record.name == Some(name) && record.size
            == Some(size),
        !reference_table(decoded.entries).contains_key(name),
    ensures
        stream_of_frames(manifest, tarsplit) is Err,
        (forall|j: int|
            0 <= j < line ==> resolve_line(reference_table(decoded.entries), #[trigger] lines[j])
                is Ok) ==> stream_of_frames(manifest, tarsplit) == Err::<
            Seq<ChunkView>,
            CorruptMetadataView,
        >(CorruptMetadataView::MissingFile(name)),
{
    let table = reference_table(decoded.entries);
    let steps = lines.map_values(|l: Seq<u8>| resolve_line(table, l));
    lemma_plan_first_error(steps);
    assert(steps[line] == Err::<Option<ChunkView>, CorruptMetadataView>(
        CorruptMetadataView::MissingFile(name),
    ));
    if forall|j: int| 0 <= j < line ==> resolve_line(table, #[trigger] lines[j]) is Ok {
        assert forall|j: int| 0 <= j < line implies (#[trigger] steps[j]) is Ok by {
            assert(steps[j] == resolve_line(table, lines[j]));
        }
    }
}

/// A tarsplit with a record whose size is not the one that the manifest
/// gives for the file is rejected. Where no line before that record fails,
/// the error is the mismatch.
pub proof fn law_size_mismatch_is_rejected(
    manifest: Seq<u8>,
    tarsplit: Seq<u8>,
    decoded: ManifestView,
    lines: Seq<Seq<u8>>,
    line: int,
    name: Seq<char>,
    size: u64,
)
    requires
        manifest_in(manifest) == Ok::<ManifestView, CorruptMetadataView>(decoded),
        tarsplit_in(tarsplit) == Ok::<Seq<Seq<u8>>, CorruptMetadataView>(lines),
        0 <= line < lines.len(),
        lines[line].len() > 0,
        record_of(lines[line]) matches Some(record) && record.name == Some(name) && record.size
            == Some(size),
        reference_table(decoded.entries).contains_key(name),
        reference_table(decoded.entries)[name].size != size,
    ensures
        stream_of_frames(manifest, tarsplit) is Err,
        (forall|j: int|
            0 <= j < line ==> resolve_line(reference_table(decoded.entries), #[trigger] lines[j])
                is Ok) ==> stream_of_frames(manifest, tarsplit) == Err::<
            Seq<ChunkView>,
            CorruptMetadataView,
        >(CorruptMetadataView::SizeMismatch),
{
    let table = reference_table(decoded.entries);
    let steps = lines.map_values(|l: Seq<u8>| resolve_line(table, l));
    lemma_plan_first_error(steps);
    assert(steps[line] == Err::<Option<ChunkView>, CorruptMetadataView>(
        CorruptMetadataView::SizeMismatch,
    ));
    if forall|j: int| 0 <= j < line ==> resolve_line(table, #[trigger] lines[j]) is Ok {
        assert forall|j: int| 0 <= j < line implies (#[trigger] steps[j]) is Ok by {
            assert(steps[j] == resolve_line(table, lines[j]));
        }
    }
}

/// A step that adds nothing can be left out of a plan.
pub proof fn lemma_plan_without_idle_step(
    steps: Seq<Result<Option<ChunkView>, CorruptMetadataView>>,
    k: int,
)
    requires
        0 <= k < steps.len(),
        steps[k] == Ok::<Option<ChunkView>, CorruptMetadataView>(None),
    ensures
        plan(steps) == plan(steps.remove(k)),
    decreases steps.len(),
{
    if k == steps.len() - 1 {
        assert(steps.remove(k) =~= steps.drop_last());
    } else {
        assert(steps.remove(k).drop_last() =~= steps.drop_last().remove(k));
        assert(steps.remove(k).last() == steps.last());
        lemma_plan_without_idle_step(steps.drop_last(), k);
    }
}

/// Only the non-empty lines of a tarsplit are records: a tarsplit stands for
/// the same stream with and without an empty line.
pub proof fn law_empty_line_adds_nothing(
    table: Map<Seq<char>, ContentReferenceView>,
    lines: Seq<Seq<u8>>,
    k: int,
)
    requires
        0 <= k < lines.len(),
        lines[k].len() == 0,
    ensures
        plan_of_lines(table, lines) == plan_of_lines(table, lines.remove(k)),
{
    let steps = lines.map_values(|l: Seq<u8>| resolve_line(table, l));
    assert(lines.remove(k).map_values(|l: Seq<u8>| resolve_line(table, l)) =~= steps.remove(k));
    lemma_plan_without_idle_step(steps, k);
}

/// Where every line of the tarsplit holds a record, the lines stand for what
/// the records stand for.
pub proof fn law_lines_stand_for_their_records(
    table: Map<Seq<char>, ContentReferenceView>,
    lines: Seq<Seq<u8>>,
    records: Seq<TarSplitEntryView>,
)
    requires
        lines.len() == records.len(),
        forall|i: int|
            0 <= i < lines.len() ==> (#[trigger] lines[i]).len() > 0 && record_of(lines[i]) == Some(
                records[i],
            ),
    ensures
        plan_of_lines(table, lines) == plan_of(table, records),
{
    assert(lines.map_values(|l: Seq<u8>| resolve_line(table, l)) =~= records.map_values(
        |r: TarSplitEntryView| resolve(table, r),
    ));
}

/// Every reference of a stream is carried over from the manifest as it is:
/// an external chunk holds one reference, and an entry of the manifest with
/// size, digest, offset and end offset stands for exactly that reference.
pub proof fn law_references_come_from_manifest(
    manifest: ManifestView,
    records: Seq<TarSplitEntryView>,
    chunks: Seq<ChunkView>,
    c: int,
)
    requires
        stream_of(manifest, records) == Ok::<Seq<ChunkView>, CorruptMetadataView>(chunks),
        0 <= c < chunks.len(),
        chunks[c] is External,
    ensures
        chunks[c]->External_0.len() == 1,
        exists|e: int|
            0 <= e < manifest.entries.len() && (#[trigger] manifest.entries[e]).reference() == Some(
                chunks[c]->External_0[0],
            ),
        exists|r: int|
            0 <= r < records.len() && (#[trigger] records[r]).size == Some(
                chunks[c]->External_0[0].size,
            ),
{
    let table = reference_table(manifest.entries);
    let steps = records.map_values(|r: TarSplitEntryView| resolve(table, r));
    lemma_plan_chunks_come_from_steps(steps, chunks, c);
    let i = choose|i: int|
        0 <= i < steps.len() && #[trigger] steps[i] == Ok::<Option<ChunkView>, CorruptMetadataView>(
            Some(chunks[c]),
        );
    assert(steps[i] == resolve(table, records[i]));
    let name = records[i].name.unwrap();
    lemma_table_comes_from_manifest(manifest.entries, name);
    assert(chunks[c]->External_0 =~= seq![table[name]]);
    assert(records[i].size == Some(chunks[c]->External_0[0].size));
}

/// Where every file of the manifest lies within the first `file_size` bytes
/// of the layer, so does every reference of the stream.
pub proof fn law_references_within_file(
    manifest: ManifestView,
    records: Seq<TarSplitEntryView>,
    chunks: Seq<ChunkView>,
    file_size: u64,
    c: int,
)
    requires
        stream_of(manifest, records) == Ok::<Seq<ChunkView>, CorruptMetadataView>(chunks),
        forall|e: int|
            0 <= e < manifest.entries.len() ==> ((
            #[trigger] manifest.entries[e]).reference() matches Some(reference)
                ==> reference.range.start <= reference.range.end <= file_size),
        0 <= c < chunks.len(),
        chunks[c] is External,
    ensures
        chunks[c]->External_0.len() == 1,
        chunks[c]->External_0[0].range.start <= chunks[c]->External_0[0].range.end <= file_size,
{
    law_references_come_from_manifest(manifest, records, chunks, c);
}

/// One more resolved reference adds its contents right after what was
/// written before it.
pub proof fn lemma_content_of_push(chunks: Seq<ChunkView>, data: Seq<Seq<u8>>, next: Seq<u8>)
    requires
        data.len() < references_of(chunks).len(),
    ensures
        (content_of(chunks, data) + next).is_prefix_of(content_of(chunks, data.push(next))),
    decreases chunks.len(),
{
    let more = data.push(next);
    if chunks.len() > 0 {
        let n = chunks.len() - 1;
        let earlier = chunks.drop_last();
        let used = references_of(earlier).len() as int;
        assert(chunks.take(n + 1) =~= chunks);
        assert(chunks.take(n) =~= earlier);
        lemma_references_step(chunks, n);
        lemma_content_step(chunks, data, n);
        lemma_content_step(chunks, more, n);
        if data.len() < used {
            lemma_content_of_push(earlier, data, next);
        } else {
            lemma_content_of_enough(earlier, data);
            lemma_content_of_enough(earlier, more);
            assert(more.take(used) =~= data.take(used));
            assert(more.skip(used) =~= data.skip(used).push(next));
            data.skip(used).lemma_flatten_push(next);
            let references = chunks[n].references();
            assert(references_of(chunks).len() == used + references.len());
            assert(more.skip(used).len() == more.len() - used);
            if more.skip(used).len() == references.len() {
                assert(more.skip(used).take(references.len() as int) =~= more.skip(used));
            }
            assert(content_of(chunks, more) =~= content_of(chunks, data) + next);
        }
    } else {
        assert(chunks.map_values(|chunk: ChunkView| chunk.references()) =~= Seq::empty());
    }
}

/// The contents of the references appear in the output in the order of the
/// references: the output up to a reference, and then the contents of that
/// reference, begin the output up to the next one, which begins the whole
/// output.
pub proof fn law_contents_follow_reference_order(
    chunks: Seq<ChunkView>,
    data: Seq<Seq<u8>>,
    i: int,
)
    requires
        data.len() <= references_of(chunks).len(),
        0 <= i < data.len(),
    ensures
        (content_of(chunks, data.take(i)) + data[i]).is_prefix_of(
            content_of(chunks, data.take(i + 1)),
        ),
        content_of(chunks, data.take(i + 1)).is_prefix_of(content_of(chunks, data)),
    decreases data.len() - i,
{
    assert(data.take(i + 1) =~= data.take(i).push(data[i]));
    lemma_content_of_push(chunks, data.take(i), data[i]);
    if i + 1 < data.len() {
        law_contents_follow_reference_order(chunks, data, i + 1);
        let a = content_of(chunks, data.take(i + 1));
        let b = content_of(chunks, data.take(i + 2));
        let c = content_of(chunks, data);
        assert((a + data[i + 1]).is_prefix_of(b));
        assert(b.is_prefix_of(c));
        assert(a =~= (a + data[i + 1]).subrange(0, a.len() as int));
        assert(a =~= c.subrange(0, a.len() as int));
    } else {
        assert(data.take(i + 1) =~= data);
    }
}

/// Whether the byte at `offset` of a footer belongs to one of its constant
/// fields: the two magics, the frame size and the manifest type.
pub open spec fn in_constant_field(offset: int) -> bool {
    0 <= offset < 8 || 32 <= offset < 40 || 64 <= offset < 72
}

/// The bytes that a valid footer has in its constant fields.
pub open spec fn constant_bytes(offset: int) -> u8 {
    if offset < 4 {
        ZSTD_SKIPPABLE_MAGIC[offset]
    } else if offset == 4 {
        56
    } else if offset < 8 {
        0
    } else if offset == 32 {
        1
    } else if offset < 40 {
        0
    } else {
        ZSTD_CHUNKED_MAGIC[offset - 64]
    }
}

/// Whether each byte of the constant fields of a footer is the one that the
/// format gives it.
pub open spec fn constants_match(bytes: Seq<u8>) -> bool {
    forall|offset: int|
        in_constant_field(offset) ==> #[trigger] bytes[offset] == constant_bytes(offset)
}

/// A footer is valid exactly where each byte of its constant fields is the
/// one that the format gives it.
pub proof fn law_valid_footer_bytes(bytes: Seq<u8>)
    requires
        bytes.len() == FOOTER_SIZE,
    ensures
        Footer::decode(bytes).spec_valid() <==> constants_match(bytes),
{
    let footer = Footer::decode(bytes);
    let size = bytes.subrange(4, 8);
    let kind = bytes.subrange(32, 40);
    assert(size[0] == bytes[4] && size[1] == bytes[5] && size[2] == bytes[6] && size[3]
        == bytes[7]);
    assert(kind[0] == bytes[32] && kind[1] == bytes[33] && kind[2] == bytes[34] && kind[3]
        == bytes[35] && kind[4] == bytes[36] && kind[5] == bytes[37] && kind[6] == bytes[38]
        && kind[7] == bytes[39]);
    assert(le_u32(size) == ZSTD_SKIPPABLE_SIZE <==> bytes[4] == 56 && bytes[5] == 0 && bytes[6]
        == 0 && bytes[7] == 0);
    assert(le_u64(kind) == ZSTD_CHUNKED_MANIFEST_TYPE <==> bytes[32] == 1 && bytes[33] == 0
        && bytes[34] == 0 && bytes[35] == 0 && bytes[36] == 0 && bytes[37] == 0 && bytes[38] == 0
        && bytes[39] == 0);
    assert(footer.skippable_magic == ZSTD_SKIPPABLE_MAGIC <==> bytes[0] == 0x50 && bytes[1] == 0x2a
        && bytes[2] == 0x4d && bytes[3] == 0x18) by {
        assert(footer.skippable_magic[0] == bytes[0]);
        assert(footer.skippable_magic[1] == bytes[1]);
        assert(footer.skippable_magic[2] == bytes[2]);
        assert(footer.skippable_magic[3] == bytes[3]);
        assert(ZSTD_SKIPPABLE_MAGIC[0] == 0x50 && ZSTD_SKIPPABLE_MAGIC[1] == 0x2a
            && ZSTD_SKIPPABLE_MAGIC[2] == 0x4d && ZSTD_SKIPPABLE_MAGIC[3] == 0x18);
        assert(footer.skippable_magic == ZSTD_SKIPPABLE_MAGIC <==> footer.skippable_magic
            =~= ZSTD_SKIPPABLE_MAGIC);
    }
    assert(footer.zstd_chunked_magic == ZSTD_CHUNKED_MAGIC <==> bytes[64] == 0x47 && bytes[65]
        == 0x4e && bytes[66] == 0x55 && bytes[67] == 0x6c && bytes[68] == 0x49 && bytes[69] == 0x6e
        && bytes[70] == 0x55 && bytes[71] == 0x78) by {
        assert(footer.zstd_chunked_magic[0] == bytes[64]);
        assert(footer.zstd_chunked_magic[1] == bytes[65]);
        assert(footer.zstd_chunked_magic[2] == bytes[66]);
        assert(footer.zstd_chunked_magic[3] == bytes[67]);
        assert(footer.zstd_chunked_magic[4] == bytes[68]);
        assert(footer.zstd_chunked_magic[5] == bytes[69]);
        assert(footer.zstd_chunked_magic[6] == bytes[70]);
        assert(footer.zstd_chunked_magic[7] == bytes[71]);
        assert(ZSTD_CHUNKED_MAGIC[0] == 0x47 && ZSTD_CHUNKED_MAGIC[1] == 0x4e
            && ZSTD_CHUNKED_MAGIC[2] == 0x55 && ZSTD_CHUNKED_MAGIC[3] == 0x6c
            && ZSTD_CHUNKED_MAGIC[4] == 0x49 && ZSTD_CHUNKED_MAGIC[5] == 0x6e
            && ZSTD_CHUNKED_MAGIC[6] == 0x55 && ZSTD_CHUNKED_MAGIC[7] == 0x78);
        assert(footer.zstd_chunked_magic == ZSTD_CHUNKED_MAGIC <==> footer.zstd_chunked_magic
            =~= ZSTD_CHUNKED_MAGIC);
    }
    if footer.spec_valid() {
        assert forall|offset: int| in_constant_field(offset) implies #[trigger] bytes[offset]
            == constant_bytes(offset) by {}
    }
    if forall|offset: int|
        in_constant_field(offset) ==> #[trigger] bytes[offset] == constant_bytes(offset) {
        assert(in_constant_field(0) && in_constant_field(1) && in_constant_field(2)
            && in_constant_field(3) && in_constant_field(4) && in_constant_field(5)
            && in_constant_field(6) && in_constant_field(7));
        assert(in_constant_field(32) && in_constant_field(33) && in_constant_field(34)
            && in_constant_field(35) && in_constant_field(36) && in_constant_field(37)
            && in_constant_field(38) && in_constant_field(39));
        assert(in_constant_field(64) && in_constant_field(65) && in_constant_field(66)
            && in_constant_field(67) && in_constant_field(68) && in_constant_field(69)
            && in_constant_field(70) && in_constant_field(71));
        assert(bytes[0] == constant_bytes(0) && bytes[1] == constant_bytes(1) && bytes[2]
            == constant_bytes(2) && bytes[3] == constant_bytes(3));
        assert(bytes[4] == constant_bytes(4) && bytes[5] == constant_bytes(5) && bytes[6]
            == constant_bytes(6) && bytes[7] == constant_bytes(7));
        assert(bytes[32] == constant_bytes(32) && bytes[33] == constant_bytes(33) && bytes[34]
            == constant_bytes(34) && bytes[35] == constant_bytes(35) && bytes[36]
            == constant_bytes(36) && bytes[37] == constant_bytes(37) && bytes[38]
            == constant_bytes(38) && bytes[39] == constant_bytes(39));
        assert(bytes[64] == constant_bytes(64) && bytes[65] == constant_bytes(65) && bytes[66]
            == constant_bytes(66) && bytes[67] == constant_bytes(67) && bytes[68]
            == constant_bytes(68) && bytes[69] == constant_bytes(69) && bytes[70]
            == constant_bytes(70) && bytes[71] == constant_bytes(71));
    }
}

/// The footer of a file is found in every suffix of the file that holds it
/// whole, and is the same in each; a suffix that is too short holds none.
pub proof fn law_footer_of_any_suffix(file: Seq<u8>, skipped: int)
    requires
        0 <= skipped <= file.len(),
    ensures
        file.len() - skipped >= FOOTER_SIZE ==> Footer::spec_from_suffix(file.skip(skipped))
            == Footer::spec_from_suffix(file),
        file.len() - skipped < FOOTER_SIZE ==> Footer::spec_from_suffix(file.skip(skipped))
            is None,
        references_of_footer(file) is Some <==> file.len() >= FOOTER_SIZE && Footer::decode(
            file.skip(file.len() - FOOTER_SIZE),
        ).spec_valid() && {
            let footer = Footer::decode(file.skip(file.len() - FOOTER_SIZE));
            &&& footer.manifest.offset + footer.manifest.length_compressed <= u64::MAX
            &&& footer.tarsplit.offset + footer.tarsplit.length_compressed <= u64::MAX
        },
{
    if file.len() - skipped >= FOOTER_SIZE {
        let suffix = file.skip(skipped);
        assert(suffix.skip(suffix.len() - FOOTER_SIZE) =~= file.skip(file.len() - FOOTER_SIZE));
    }
}

/// A valid footer with one bit flipped in one of its constant fields is no
/// footer.
pub proof fn law_flipped_constant_is_no_footer(suffix: Seq<u8>, offset: int, bit: u8)
    requires
        Footer::spec_from_suffix(suffix) is Some,
        in_constant_field(offset),
        bit < 8,
    ensures
        ({
            let at = suffix.len() - FOOTER_SIZE + offset;
            let flipped = suffix.update(at, suffix[at] ^ (1u8 << bit));
            Footer::spec_from_suffix(flipped) is None && references_of_footer(flipped) is None
        }),
{
    let start = suffix.len() - FOOTER_SIZE;
    let at = start + offset;
    let byte = suffix[at];
    let other = byte ^ (1u8 << bit);
    let flipped = suffix.update(at, other);
    assert(other != byte) by (bit_vector)
        requires
            bit < 8,
            other == byte ^ (1u8 << bit),
    ;
    let before = suffix.skip(start);
    let after = flipped.skip(start);
    assert(before.len() == FOOTER_SIZE && after.len() == FOOTER_SIZE);
    assert(before[offset] == byte);
    assert(after[offset] == other);
    assert(constants_match(before)) by {
        law_valid_footer_bytes(before);
    }
    assert(!constants_match(after)) by {
        assert(before[offset] == constant_bytes(offset));
    }
    assert(!Footer::decode(after).spec_valid()) by {
        law_valid_footer_bytes(after);
    }
}

/// Annotations and a footer that describe the same two blobs give the
/// same references: the footer gives some exactly where the annotations do,
/// with the same ranges and uncompressed sizes. The digests are those of the
/// annotations; the footer gives none.
pub proof fn law_annotations_agree_with_footer(
    suffix: Seq<u8>,
    footer: Footer,
    manifest_position: Seq<char>,
    manifest_checksum: Option<Seq<char>>,
    tarsplit_position: Seq<char>,
    tarsplit_checksum: Option<Seq<char>>,
)
    requires
        Footer::spec_from_suffix(suffix) == Some(footer),
        numbers_of(manifest_position) == Some(
            seq![
                footer.manifest.offset,
                footer.manifest.length_compressed,
                footer.manifest.length_uncompressed,
                MANIFEST_TYPE,
            ],
        ),
        numbers_of(tarsplit_position) == Some(
            seq![
                footer.tarsplit.offset,
                footer.tarsplit.length_compressed,
                footer.tarsplit.length_uncompressed,
            ],
        ),
    ensures
        ({
            let from_footer = references_of_footer(suffix);
            let from_annotations = references_of_annotations(
                Some(manifest_position),
                manifest_checksum,
                Some(tarsplit_position),
                tarsplit_checksum,
            );
            &&& from_footer is Some <==> from_annotations is Some
            &&& from_footer is Some ==> {
                let f = from_footer->0;
                let a = from_annotations->0;
                &&& a.manifest.range == f.manifest.range
                &&& a.tarsplit.range == f.tarsplit.range
                &&& a.manifest.uncompressed_size == f.manifest.uncompressed_size
                &&& a.tarsplit.uncompressed_size == f.tarsplit.uncompressed_size
                &&& f.manifest.digest is None
                &&& f.tarsplit.digest is None
                &&& a.manifest.digest == manifest_checksum
                &&& a.tarsplit.digest == tarsplit_checksum
            }
        }),
{
}

} // verus!
