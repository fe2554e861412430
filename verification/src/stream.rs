//! The layout of a zstd:chunked file: the chunks that, one after the other,
//! give back the uncompressed archive.

use crate::codec::{zstd_decode, zstd_decoded};
use crate::error::{CorruptMetadata, CorruptMetadataView};
use crate::format::{
    manifest_of, tarsplit_entry_of, Manifest, ManifestEntryView, ManifestView, TarSplitEntry,
    TarSplitEntryView,
};
use crate::json::{json_document, parse_value};
use crate::lines::{line_bytes, lines_of, split_lines};
use crate::reference::{ContentReference, ContentReferenceView};
use core::ops::Range;
use vstd::hash_map::StringHashMap;
use vstd::prelude::*;
use vstd::utf8::valid_utf8;

verus! {

/// The one version of the manifest that is understood.
pub const MANIFEST_VERSION: u32 = 1;

/// A chunk of data in a zstd:chunked stream. Either contains inline data or
/// references to compressed ranges.
#[derive(Debug, Clone)]
pub enum Chunk {
    /// The literal data appears directly.
    Inline(Vec<u8>),
    /// The data appears at the referenced ranges, which may need to be fetched
    /// and decompressed.
    External(Vec<ContentReference>),
}

/// A `Chunk` as a mathematical value.
pub enum ChunkView {
    Inline(Seq<u8>),
    External(Seq<ContentReferenceView>),
}

impl View for Chunk {
    type V = ChunkView;

    open spec fn view(&self) -> ChunkView {
        match self {
            Chunk::Inline(data) => ChunkView::Inline(data@),
            Chunk::External(references) => ChunkView::External(
                references@.map_values(|reference: ContentReference| reference@),
            ),
        }
    }
}

/// Represents the layout of a zstd:chunked file. The uncompressed archive is
/// what the chunks stand for, one after the other.
#[derive(Debug)]
pub struct Stream {
    /// The chunks in the file.
    pub chunks: Vec<Chunk>,
}

impl View for Stream {
    type V = Seq<ChunkView>;

    open spec fn view(&self) -> Seq<ChunkView> {
        self.chunks@.map_values(|chunk: Chunk| chunk@)
    }
}

/// The files of a manifest by name. Only entries with all of size, digest,
/// offset and end offset count, and of two such entries with one name the
/// later one.
pub open spec fn reference_table(entries: Seq<ManifestEntryView>) -> Map<
    Seq<char>,
    ContentReferenceView,
>
    decreases entries.len(),
{
    if entries.len() == 0 {
        Map::empty()
    } else {
        let earlier = reference_table(entries.drop_last());
        match entries.last().reference() {
            Some(reference) => earlier.insert(entries.last().name, reference),
            None => earlier,
        }
    }
}

/// What one tarsplit record adds to the plan. A record with a name and a
/// size stands for the file of that name, which the table must hold with
/// that size. Any other record with a payload stands for the payload. The
/// rest adds nothing.
pub open spec fn resolve(
    table: Map<Seq<char>, ContentReferenceView>,
    record: TarSplitEntryView,
) -> Result<Option<ChunkView>, CorruptMetadataView> {
    match (record.name, record.size) {
        (Some(name), Some(size)) => {
            if !table.contains_key(name) {
                Err(CorruptMetadataView::MissingFile(name))
            } else if table[name].size != size {
                Err(CorruptMetadataView::SizeMismatch)
            } else {
                Ok(Some(ChunkView::External(seq![table[name]])))
            }
        },
        _ => match record.payload {
            Some(data) => Ok(Some(ChunkView::Inline(data))),
            None => Ok(None),
        },
    }
}

/// The plan after one more step: an error stays, the first failing step
/// becomes the error, and a chunk goes to the end.
pub open spec fn extend(
    plan: Result<Seq<ChunkView>, CorruptMetadataView>,
    step: Result<Option<ChunkView>, CorruptMetadataView>,
) -> Result<Seq<ChunkView>, CorruptMetadataView> {
    match plan {
        Err(e) => Err(e),
        Ok(chunks) => match step {
            Err(e) => Err(e),
            Ok(Some(chunk)) => Ok(chunks.push(chunk)),
            Ok(None) => Ok(chunks),
        },
    }
}

/// The plan that a sequence of steps builds: the chunks in the order of the
/// steps, or the error of the first step that fails.
pub open spec fn plan(steps: Seq<Result<Option<ChunkView>, CorruptMetadataView>>) -> Result<
    Seq<ChunkView>,
    CorruptMetadataView,
>
    decreases steps.len(),
{
    if steps.len() == 0 {
        Ok(Seq::empty())
    } else {
        extend(plan(steps.drop_last()), steps.last())
    }
}

/// The chunks that a sequence of tarsplit records stands for, in the order of
/// the records, or the error of the first record that fails.
pub open spec fn plan_of(
    table: Map<Seq<char>, ContentReferenceView>,
    records: Seq<TarSplitEntryView>,
) -> Result<Seq<ChunkView>, CorruptMetadataView> {
    plan(records.map_values(|record: TarSplitEntryView| resolve(table, record)))
}

/// The stream that a decoded manifest and decoded tarsplit records describe.
pub open spec fn stream_of(manifest: ManifestView, records: Seq<TarSplitEntryView>) -> Result<
    Seq<ChunkView>,
    CorruptMetadataView,
> {
    if manifest.version != MANIFEST_VERSION {
        Err(CorruptMetadataView::Version)
    } else {
        plan_of(reference_table(manifest.entries), records)
    }
}

/// The tarsplit record on one line of the tarsplit.
pub open spec fn record_of(line: Seq<u8>) -> Option<TarSplitEntryView> {
    match json_document(line) {
        Some(document) => tarsplit_entry_of(document),
        None => None,
    }
}

/// What one line of the tarsplit adds to the plan. An empty line is no
/// record and adds nothing; any other line must hold a record.
pub open spec fn resolve_line(table: Map<Seq<char>, ContentReferenceView>, line: Seq<u8>) -> Result<
    Option<ChunkView>,
    CorruptMetadataView,
> {
    if line.len() == 0 {
        Ok(None)
    } else {
        match record_of(line) {
            Some(record) => resolve(table, record),
            None => Err(CorruptMetadataView::Json),
        }
    }
}

/// The chunks that the lines of a tarsplit stand for, or the error of the
/// first line that fails.
pub open spec fn plan_of_lines(
    table: Map<Seq<char>, ContentReferenceView>,
    lines: Seq<Seq<u8>>,
) -> Result<Seq<ChunkView>, CorruptMetadataView> {
    plan(lines.map_values(|line: Seq<u8>| resolve_line(table, line)))
}

/// The manifest in a compressed frame.
pub open spec fn manifest_in(frame: Seq<u8>) -> Result<ManifestView, CorruptMetadataView> {
    match zstd_decoded(frame) {
        None => Err(CorruptMetadataView::Decompress),
        Some(text) => match json_document(text) {
            None => Err(CorruptMetadataView::Json),
            Some(document) => match manifest_of(document) {
                None => Err(CorruptMetadataView::Json),
                Some(manifest) => if manifest.version != MANIFEST_VERSION {
                    Err(CorruptMetadataView::Version)
                } else {
                    Ok(manifest)
                },
            },
        },
    }
}

/// The lines of the tarsplit in a compressed frame.
pub open spec fn tarsplit_in(frame: Seq<u8>) -> Result<Seq<Seq<u8>>, CorruptMetadataView> {
    match zstd_decoded(frame) {
        None => Err(CorruptMetadataView::Decompress),
        Some(text) => if valid_utf8(text) {
            Ok(lines_of(text))
        } else {
            Err(CorruptMetadataView::NotUtf8)
        },
    }
}

/// The stream that the two compressed metadata frames describe. The manifest
/// is read first, so its errors come before those of the tarsplit.
pub open spec fn stream_of_frames(manifest: Seq<u8>, tarsplit: Seq<u8>) -> Result<
    Seq<ChunkView>,
    CorruptMetadataView,
> {
    match manifest_in(manifest) {
        Err(e) => Err(e),
        Ok(manifest) => match tarsplit_in(tarsplit) {
            Err(e) => Err(e),
            Ok(lines) => plan_of_lines(reference_table(manifest.entries), lines),
        },
    }
}

/// The references of a table as mathematical values.
pub open spec fn table_view(table: Map<Seq<char>, ContentReference>) -> Map<
    Seq<char>,
    ContentReferenceView,
> {
    table.map_values(|reference: ContentReference| reference@)
}

/// The views of tarsplit records.
pub open spec fn record_views(records: Seq<TarSplitEntry>) -> Seq<TarSplitEntryView> {
    records.map_values(|record: TarSplitEntry| record@)
}

/// The views of chunks.
pub open spec fn chunk_views(chunks: Seq<Chunk>) -> Seq<ChunkView> {
    chunks.map_values(|chunk: Chunk| chunk@)
}

/// A step as a mathematical value.
pub open spec fn step_view(step: Result<Option<Chunk>, CorruptMetadata>) -> Result<
    Option<ChunkView>,
    CorruptMetadataView,
> {
    match step {
        Ok(Some(chunk)) => Ok(Some(chunk@)),
        Ok(None) => Ok(None),
        Err(e) => Err(e@),
    }
}

/// A plan that has failed after some of its steps fails with the same error
/// after all of them.
pub proof fn lemma_plan_fails_after(
    steps: Seq<Result<Option<ChunkView>, CorruptMetadataView>>,
    n: int,
)
    requires
        0 <= n <= steps.len(),
        plan(steps.take(n)) is Err,
    ensures
        plan(steps) == plan(steps.take(n)),
    decreases steps.len() - n,
{
    if n < steps.len() {
        assert(steps.take(n + 1).drop_last() =~= steps.take(n));
        lemma_plan_fails_after(steps, n + 1);
    } else {
        assert(steps.take(n) =~= steps);
    }
}

/// Reads the manifest entries into a table by filename, taking only the ones
/// that have the digest, size, offset and end offset filled in.
fn build_table(manifest: &Manifest) -> (table: StringHashMap<ContentReference>)
    ensures
        table_view(table@) == reference_table(manifest@.entries),
{
    let mut table: StringHashMap<ContentReference> = StringHashMap::new();
    let ghost entries = manifest@.entries;
    let mut i: usize = 0;
    assert(entries.take(0) =~= Seq::empty());
    assert(table_view(table@) =~= Map::empty());
    while i < manifest.entries.len()
        invariant
            i <= manifest.entries.len(),
            entries == manifest@.entries,
            table_view(table@) == reference_table(entries.take(i as int)),
        decreases manifest.entries.len() - i,
    {
        let entry = &manifest.entries[i];
        assert(entries.take(i + 1).drop_last() =~= entries.take(i as int));
        assert(entries.take(i + 1).last() == entry@);
        let ghost before = table@;
        match (entry.size, &entry.digest, entry.offset, entry.end_offset) {
            (Some(size), Some(digest), Some(offset), Some(end_offset)) => {
                let reference = ContentReference {
                    range: Range { start: offset, end: end_offset },
                    digest: digest.clone(),
                    size,
                };
                table.insert(entry.name.clone(), reference);
                assert(table_view(table@) =~= table_view(before).insert(entry.name@, reference@));
            },
            _ => {},
        }
        i += 1;
    }
    assert(entries.take(i as int) =~= entries);
    table
}

/// Finds what one tarsplit record adds to the plan.
fn resolve_record(table: &StringHashMap<ContentReference>, record: TarSplitEntry) -> (r: Result<
    Option<Chunk>,
    CorruptMetadata,
>)
    ensures
        step_view(r) == resolve(table_view(table@), record@),
{
    match (record.name, record.size) {
        (Some(name), Some(size)) => {
            match table.get(name.as_str()) {
                None => Err(CorruptMetadata::MissingFile(name)),
                Some(reference) => {
                    if size != reference.size {
                        Err(CorruptMetadata::SizeMismatch)
                    } else {
                        let mut references: Vec<ContentReference> = Vec::new();
                        references.push(reference.clone());
                        let chunk = Chunk::External(references);
                        assert(references@.map_values(|reference: ContentReference| reference@)
                            =~= seq![reference@]);
                        Ok(Some(chunk))
                    }
                },
            }
        },
        _ => match record.payload {
            Some(payload) => Ok(Some(Chunk::Inline(payload))),
            None => Ok(None),
        },
    }
}

/// Decompresses and decodes the manifest, and checks its version.
fn read_manifest(frame: &[u8]) -> (r: Result<Manifest, CorruptMetadata>)
    ensures
        match r {
            Ok(manifest) => manifest_in(frame@) == Ok::<ManifestView, CorruptMetadataView>(
                manifest@,
            ),
            Err(e) => manifest_in(frame@) == Err::<ManifestView, CorruptMetadataView>(e@),
        },
{
    let text = match zstd_decode(frame) {
        Ok(text) => text,
        Err(_) => { return Err(CorruptMetadata::Decompress); },
    };
    let document = match parse_value(text.as_slice()) {
        Ok(document) => document,
        Err(_) => { return Err(CorruptMetadata::Json); },
    };
    let manifest = match Manifest::from_value(&document) {
        Some(manifest) => manifest,
        None => { return Err(CorruptMetadata::Json); },
    };
    if manifest.version != MANIFEST_VERSION {
        return Err(CorruptMetadata::Version);
    }
    Ok(manifest)
}

/// Decodes the tarsplit record on one line.
fn read_record(line: &[u8]) -> (r: Option<TarSplitEntry>)
    ensures
        match r {
            Some(record) => record_of(line@) == Some(record@),
            None => record_of(line@) is None,
        },
{
    match parse_value(line) {
        Ok(document) => TarSplitEntry::from_value(&document),
        Err(_) => None,
    }
}

/// Finds what one line of the tarsplit adds to the plan.
fn resolve_text_line(table: &StringHashMap<ContentReference>, line: &[u8]) -> (r: Result<
    Option<Chunk>,
    CorruptMetadata,
>)
    ensures
        step_view(r) == resolve_line(table_view(table@), line@),
{
    if line.len() == 0 {
        Ok(None)
    } else {
        match read_record(line) {
            Some(record) => resolve_record(table, record),
            None => Err(CorruptMetadata::Json),
        }
    }
}

/// Takes the next step of a plan that has not failed: a chunk goes to the
/// end of `chunks`, and an error is handed on.
fn take_step(
    chunks: &mut Vec<Chunk>,
    step: Result<Option<Chunk>, CorruptMetadata>,
    Ghost(steps): Ghost<Seq<Result<Option<ChunkView>, CorruptMetadataView>>>,
    Ghost(taken): Ghost<int>,
) -> (r: Result<(), CorruptMetadata>)
    requires
        0 <= taken < steps.len(),
        steps[taken] == step_view(step),
        plan(steps.take(taken)) == Ok::<Seq<ChunkView>, CorruptMetadataView>(
            chunk_views(old(chunks)@),
        ),
    ensures
        match r {
            Ok(_) => plan(steps.take(taken + 1)) == Ok::<Seq<ChunkView>, CorruptMetadataView>(
                chunk_views(final(chunks)@),
            ),
            Err(e) => plan(steps) == Err::<Seq<ChunkView>, CorruptMetadataView>(e@),
        },
{
    proof {
        assert(steps.take(taken + 1).drop_last() =~= steps.take(taken));
        assert(steps.take(taken + 1).last() == steps[taken]);
    }
    match step {
        Ok(Some(chunk)) => {
            let ghost before = chunks@;
            chunks.push(chunk);
            assert(chunk_views(chunks@) =~= chunk_views(before).push(chunk@));
            Ok(())
        },
        Ok(None) => Ok(()),
        Err(e) => {
            proof {
                lemma_plan_fails_after(steps, taken + 1);
            }
            Err(e)
        },
    }
}

impl Stream {
    /// Creates the layout from the compressed frames referred to by the
    /// ranges in the OCI layer descriptor annotations or the file footer.
    ///
    /// Fails if any of the metadata isn't in the expected format
    /// (zstd-compressed JSON), or if there are missing mandatory fields or
    /// internal inconsistencies. In all cases, that indicates a corrupt
    /// zstd:chunked file.
    pub fn new_from_frames(manifest: &[u8], tarsplit: &[u8]) -> (r: Result<Stream, CorruptMetadata>)
        ensures
            match r {
                Ok(stream) => stream_of_frames(manifest@, tarsplit@) == Ok::<
                    Seq<ChunkView>,
                    CorruptMetadataView,
                >(stream@),
                Err(e) => stream_of_frames(manifest@, tarsplit@) == Err::<
                    Seq<ChunkView>,
                    CorruptMetadataView,
                >(e@),
            },
    {
        let manifest_entries = match read_manifest(manifest) {
            Ok(manifest) => build_table(&manifest),
            Err(e) => { return Err(e); },
        };
        let text = match zstd_decode(tarsplit) {
            Ok(text) => text,
            Err(_) => { return Err(CorruptMetadata::Decompress); },
        };
        if core::str::from_utf8(text.as_slice()).is_err() {
            return Err(CorruptMetadata::NotUtf8);
        }
        let lines = split_lines(text.as_slice());
        let ghost table = table_view(manifest_entries@);
        let ghost steps = lines_of(text@).map_values(|line: Seq<u8>| resolve_line(table, line));
        let mut chunks: Vec<Chunk> = Vec::new();
        let mut i: usize = 0;
        assert(steps.take(0) =~= Seq::empty());
        assert(chunk_views(chunks@) =~= Seq::empty());
        while i < lines.len()
            invariant
                i <= lines.len(),
                line_bytes(lines@) == lines_of(text@),
                table == table_view(manifest_entries@),
                steps == lines_of(text@).map_values(|line: Seq<u8>| resolve_line(table, line)),
                stream_of_frames(manifest@, tarsplit@) == plan(steps),
                plan(steps.take(i as int)) == Ok::<Seq<ChunkView>, CorruptMetadataView>(
                    chunk_views(chunks@),
                ),
            decreases lines.len() - i,
        {
            let line = lines[i];
            assert(line@ == line_bytes(lines@)[i as int]);
            let step = resolve_text_line(&manifest_entries, line);
            match take_step(&mut chunks, step, Ghost(steps), Ghost(i as int)) {
                Ok(_) => {},
                Err(e) => {
                    return Err(e);
                },
            }
            i += 1;
        }
        assert(steps.take(i as int) =~= steps);
        Ok(Stream { chunks })
    }

    /// Creates the layout from the decoded metadata: each tarsplit record, in
    /// order, either stands for a file of the manifest, or carries literal
    /// data, or is passed over.
    ///
    /// Fails where the manifest is of the wrong version, and at the first
    /// record that names a file which the manifest lacks or lists with
    /// another size.
    pub fn new(manifest: &Manifest, records: Vec<TarSplitEntry>) -> (r: Result<
        Stream,
        CorruptMetadata,
    >)
        ensures
            match r {
                Ok(stream) => stream_of(manifest@, record_views(records@)) == Ok::<
                    Seq<ChunkView>,
                    CorruptMetadataView,
                >(stream@),
                Err(e) => stream_of(manifest@, record_views(records@)) == Err::<
                    Seq<ChunkView>,
                    CorruptMetadataView,
                >(e@),
            },
    {
        if manifest.version != MANIFEST_VERSION {
            return Err(CorruptMetadata::Version);
        }
        let table = build_table(manifest);
        let ghost steps = record_views(records@).map_values(
            |record: TarSplitEntryView| resolve(table_view(table@), record),
        );
        let mut chunks: Vec<Chunk> = Vec::new();
        assert(steps.take(0) =~= Seq::empty());
        assert(chunk_views(chunks@) =~= Seq::empty());
        for record in iter: records
            invariant
                iter.seq() == records@,
                manifest@.version == MANIFEST_VERSION,
                table_view(table@) == reference_table(manifest@.entries),
                steps == record_views(records@).map_values(
                    |record: TarSplitEntryView| resolve(table_view(table@), record),
                ),
                plan(steps.take(iter.index())) == Ok::<Seq<ChunkView>, CorruptMetadataView>(
                    chunk_views(chunks@),
                ),
        {
            let ghost i = iter.index();
            assert(record_views(records@)[i] == record@);
            let step = resolve_record(&table, record);
            match take_step(&mut chunks, step, Ghost(steps), Ghost(i)) {
                Ok(_) => {},
                Err(e) => {
                    return Err(e);
                },
            }
        }
        assert(steps.take(steps.len() as int) =~= steps);
        Ok(Stream { chunks })
    }
}

} // verus!
