//! A walk over a stream, one step at a time, for a caller that does the
//! resolving and the writing itself: the stream says what comes next, and
//! the caller does it.
//!
//! The laws at the end tie the steps to the rest of the library: they ask
//! for the references in order, they write what `write_to` writes, and for
//! a file that is laid out as its stream says that is the file decoded.

use crate::codec::zstd_decoded;
use crate::driver::{
    chunk_references, content_of, lemma_flatten_take_prefix, lemma_flatten_take_step,
    lemma_references_view, references_of,
};
use crate::reference::ContentReference;
use crate::stream::{chunk_views, Chunk, Stream};
use vstd::prelude::*;

verus! {

/// What a walk over a stream does next.
#[derive(Debug)]
pub enum Step<'a> {
    /// Write these bytes.
    Write(&'a [u8]),
    /// Resolve this reference, and write what it stands for.
    Resolve(&'a ContentReference),
}

/// A `Step` as a mathematical value.
pub enum StepView {
    Write(Seq<u8>),
    Resolve(ContentReference),
}

impl<'a> View for Step<'a> {
    type V = StepView;

    open spec fn view(&self) -> StepView {
        match self {
            Step::Write(bytes) => StepView::Write(bytes@),
            Step::Resolve(reference) => StepView::Resolve(**reference),
        }
    }
}

impl Chunk {
    /// The steps of the chunk: one write for an inline chunk, one resolve
    /// for each reference of an external one.
    pub open spec fn steps(self) -> Seq<StepView> {
        match self {
            Chunk::Inline(bytes) => seq![StepView::Write(bytes@)],
            Chunk::External(references) => references@.map_values(
                |reference: ContentReference| StepView::Resolve(reference),
            ),
        }
    }
}

/// The steps of some chunks: those of each chunk, in the order of the
/// chunks.
pub open spec fn walk_of(chunks: Seq<Chunk>) -> Seq<StepView> {
    chunks.map_values(|chunk: Chunk| chunk.steps()).flatten()
}

/// How far a walk has come: the chunk it is in, and the steps of that chunk
/// that it has taken.
#[derive(Debug, Clone, Copy)]
pub struct Cursor {
    chunk: usize,
    step: usize,
}

impl Cursor {
    /// Whether the cursor stands in `stream`: at a chunk of it, with no more
    /// steps taken than the chunk has, or behind the last chunk.
    pub closed spec fn wf(self, stream: &Stream) -> bool {
        if self.chunk < stream.chunks@.len() {
            self.step <= stream.chunks@[self.chunk as int].steps().len()
        } else {
            self.chunk == stream.chunks@.len() && self.step == 0
        }
    }

    /// The number of steps that the walk has taken.
    pub closed spec fn taken(self, stream: &Stream) -> int {
        walk_of(stream.chunks@.take(self.chunk as int)).len() + self.step
    }
}

impl Stream {
    /// The steps of a walk over the stream, in order.
    pub open spec fn walk(&self) -> Seq<StepView> {
        walk_of(self.chunks@)
    }

    /// The cursor of a walk that has taken no step yet.
    pub fn start(&self) -> (cursor: Cursor)
        ensures
            cursor.wf(self),
            cursor.taken(self) == 0,
    {
        proof {
            assert(self.chunks@.take(0) =~= Seq::empty());
            assert(self.chunks@.take(0).map_values(|chunk: Chunk| chunk.steps()) =~= Seq::empty());
        }
        Cursor { chunk: 0, step: 0 }
    }

    /// The next step of a walk, and the cursor after it; `None` where the
    /// walk is at its end.
    pub fn step(&self, cursor: Cursor) -> (r: Option<(Step<'_>, Cursor)>)
        ensures
            cursor.wf(self) ==> match r {
                Some((step, next)) => {
                    &&& 0 <= cursor.taken(self) < self.walk().len()
                    &&& step@ == self.walk()[cursor.taken(self)]
                    &&& next.wf(self)
                    &&& next.taken(self) == cursor.taken(self) + 1
                },
                None => cursor.taken(self) == self.walk().len(),
            },
    {
        let mut chunk = cursor.chunk;
        let mut taken = cursor.step;
        let ghost parts = self.chunks@.map_values(|chunk: Chunk| chunk.steps());
        while chunk < self.chunks.len()
            invariant
                parts == self.chunks@.map_values(|chunk: Chunk| chunk.steps()),
                cursor.wf(self) ==> (Cursor { chunk, step: taken }).wf(self) && (Cursor {
                    chunk,
                    step: taken,
                }).taken(self) == cursor.taken(self),
            decreases self.chunks.len() - chunk,
        {
            proof {
                assert(self.chunks@.take(chunk as int).map_values(|chunk: Chunk| chunk.steps())
                    =~= parts.take(chunk as int));
                assert(self.chunks@.take(chunk + 1).map_values(|chunk: Chunk| chunk.steps())
                    =~= parts.take(chunk + 1));
                lemma_flatten_take_step(parts, chunk as int);
                lemma_flatten_take_prefix(parts, chunk + 1);
            }
            let ghost at = parts.take(chunk as int).flatten().len() + taken;
            match &self.chunks[chunk] {
                Chunk::Inline(bytes) => {
                    if taken == 0 {
                        proof {
                            if cursor.wf(self) {
                                assert(parts.take(chunk + 1).flatten()[at] == parts[chunk as int][0]);
                                assert(parts.flatten().take(
                                    parts.take(chunk + 1).flatten().len() as int,
                                )[at] == parts.flatten()[at]);
                            }
                        }
                        return Some((Step::Write(bytes.as_slice()), Cursor { chunk, step: 1 }));
                    }
                },
                Chunk::External(references) => {
                    if taken < references.len() {
                        proof {
                            if cursor.wf(self) {
                                assert(parts.take(chunk + 1).flatten()[at]
                                    == parts[chunk as int][taken as int]);
                                assert(parts.flatten().take(
                                    parts.take(chunk + 1).flatten().len() as int,
                                )[at] == parts.flatten()[at]);
                            }
                        }
                        return Some(
                            (Step::Resolve(&references[taken]), Cursor { chunk, step: taken + 1 }),
                        );
                    }
                },
            }
            chunk += 1;
            taken = 0;
        }
        proof {
            if cursor.wf(self) {
                assert(self.chunks@.take(chunk as int) =~= self.chunks@);
            }
        }
        None
    }
}

/// The number of resolve steps among some steps.
pub open spec fn resolves(steps: Seq<StepView>) -> nat
    decreases steps.len(),
{
    if steps.len() == 0 {
        0
    } else if steps.last() is Resolve {
        resolves(steps.drop_last()) + 1
    } else {
        resolves(steps.drop_last())
    }
}

/// The bytes that taking some steps writes, where `data` holds, in order,
/// what the resolve steps stand for.
pub open spec fn written(steps: Seq<StepView>, data: Seq<Seq<u8>>) -> Seq<u8>
    decreases steps.len(),
{
    if steps.len() == 0 {
        Seq::empty()
    } else {
        let earlier = steps.drop_last();
        written(earlier, data) + match steps.last() {
            StepView::Write(bytes) => bytes,
            StepView::Resolve(_) => if resolves(earlier) < data.len() {
                data[resolves(earlier) as int]
            } else {
                Seq::empty()
            },
        }
    }
}

/// Steps taken one run after another resolve as much, and write as much, as
/// the two runs do.
pub proof fn lemma_written_add(first: Seq<StepView>, second: Seq<StepView>, data: Seq<Seq<u8>>)
    requires
        resolves(first) <= data.len(),
    ensures
        resolves(first + second) == resolves(first) + resolves(second),
        written(first + second, data) == written(first, data) + written(
            second,
            data.skip(resolves(first) as int),
        ),
    decreases second.len(),
{
    if second.len() == 0 {
        assert(first + second =~= first);
        assert(written(first + second, data) =~= written(first, data) + written(
            second,
            data.skip(resolves(first) as int),
        ));
    } else {
        let all = first + second;
        assert(all.drop_last() =~= first + second.drop_last());
        assert(all.last() == second.last());
        lemma_written_add(first, second.drop_last(), data);
        assert(written(all, data) =~= written(first, data) + written(
            second,
            data.skip(resolves(first) as int),
        ));
    }
}

/// The steps of a chunk resolve its references, and write what the chunk
/// stands for.
pub proof fn lemma_written_chunk(chunk: Chunk, data: Seq<Seq<u8>>, n: int)
    requires
        0 <= n <= chunk.spec_references().len(),
        n <= data.len(),
        chunk is External,
    ensures
        resolves(chunk.steps().take(n)) == n,
        written(chunk.steps().take(n), data) == data.take(n).flatten(),
    decreases n,
{
    let steps = chunk.steps();
    if n == 0 {
        assert(steps.take(0) =~= Seq::empty());
        assert(data.take(0) =~= Seq::empty());
    } else {
        lemma_written_chunk(chunk, data, n - 1);
        assert(steps.take(n).drop_last() =~= steps.take(n - 1));
        assert(steps.take(n).last() == steps[n - 1]);
        assert(data.take(n) =~= data.take(n - 1).push(data[n - 1]));
        data.take(n - 1).lemma_flatten_push(data[n - 1]);
    }
}

/// A walk taken step by step asks for the references of the stream in
/// their order: its resolve steps are the references, the first for the
/// first and so on.
pub proof fn law_walk_resolves_the_references(chunks: Seq<Chunk>, i: int)
    requires
        0 <= i < walk_of(chunks).len(),
        walk_of(chunks)[i] is Resolve,
    ensures
        resolves(walk_of(chunks).take(i)) < chunk_references(chunks).len(),
        walk_of(chunks)[i]->Resolve_0 == chunk_references(chunks)[resolves(
            walk_of(chunks).take(i),
        ) as int],
    decreases chunks.len(),
{
    let parts = chunks.map_values(|chunk: Chunk| chunk.steps());
    let references = chunks.map_values(|chunk: Chunk| chunk.spec_references());
    if chunks.len() == 0 {
        assert(parts =~= Seq::empty());
    } else {
        let n = chunks.len() - 1;
        let earlier = chunks.drop_last();
        let last = chunks.last();
        let walk = walk_of(chunks);
        let before = walk_of(earlier);
        assert(parts.take(n) =~= earlier.map_values(|chunk: Chunk| chunk.steps()));
        assert(parts.take(n + 1) =~= parts);
        assert(references.take(n) =~= earlier.map_values(|chunk: Chunk| chunk.spec_references()));
        assert(references.take(n + 1) =~= references);
        lemma_flatten_take_step(parts, n);
        lemma_flatten_take_step(references, n);
        if i < before.len() {
            assert(walk.take(i) =~= before.take(i));
            assert(walk[i] == before[i]);
            law_walk_resolves_the_references(earlier, i);
        } else {
            let j = i - before.len();
            let data = Seq::new(
                chunk_references(chunks).len() + walk.len(),
                |k: int| Seq::<u8>::empty(),
            );
            law_walk_writes_the_content(earlier, data);
            assert(walk[i] == last.steps()[j]);
            assert(last is External);
            assert(walk.take(i) =~= before + last.steps().take(j));
            lemma_written_add(before, last.steps().take(j), data);
            lemma_written_chunk(last, data, j);
        }
    }
}

/// A walk taken step by step asks for each reference of the stream once,
/// and writes what `write_to` writes: with `data` for what the
/// references stand for, in order, the steps write the content of the
/// stream.
pub proof fn law_walk_writes_the_content(chunks: Seq<Chunk>, data: Seq<Seq<u8>>)
    requires
        chunk_references(chunks).len() <= data.len(),
    ensures
        resolves(walk_of(chunks)) == chunk_references(chunks).len(),
        written(walk_of(chunks), data) == content_of(chunk_views(chunks), data),
    decreases chunks.len(),
{
    let parts = chunks.map_values(|chunk: Chunk| chunk.steps());
    let references = chunks.map_values(|chunk: Chunk| chunk.spec_references());
    if chunks.len() == 0 {
        assert(parts =~= Seq::empty());
        assert(references =~= Seq::empty());
        assert(chunk_views(chunks) =~= Seq::empty());
    } else {
        let n = chunks.len() - 1;
        let earlier = chunks.drop_last();
        let last = chunks.last();
        assert(chunks.take(n) =~= earlier);
        assert(parts.take(n) =~= earlier.map_values(|chunk: Chunk| chunk.steps()));
        assert(parts.take(n + 1) =~= parts);
        assert(references.take(n) =~= earlier.map_values(|chunk: Chunk| chunk.spec_references()));
        assert(references.take(n + 1) =~= references);
        lemma_flatten_take_step(parts, n);
        lemma_flatten_take_step(references, n);
        let used = chunk_references(earlier).len() as int;
        law_walk_writes_the_content(earlier, data);
        lemma_written_add(walk_of(earlier), last.steps(), data);
        lemma_references_view(earlier);
        assert(chunk_views(chunks).drop_last() =~= chunk_views(earlier));
        assert(chunk_views(chunks).last() == last@);
        assert(references_of(chunk_views(earlier)).len() == used);
        let rest = data.skip(used);
        match last {
            Chunk::Inline(bytes) => {
                let none = last.steps().drop_last();
                assert(none =~= Seq::<StepView>::empty());
                assert(resolves(none) == 0);
                assert(written(none, rest) =~= Seq::<u8>::empty());
                assert(last.steps().last() == StepView::Write(bytes@));
                assert(resolves(last.steps()) == 0);
                assert(written(last.steps(), rest) =~= bytes@);
            },
            Chunk::External(list) => {
                let count = list@.len() as int;
                lemma_written_chunk(last, rest, count);
                assert(last.steps().take(count) =~= last.steps());
                assert(last@.references().len() == count);
                assert(last@.content(rest) == rest.take(count).flatten());
            },
        }
    }
}

/// The part of a file that a reference points at.
pub open spec fn range_of(file: Seq<u8>, reference: ContentReference) -> Seq<u8> {
    file.subrange(reference.range.start as int, reference.range.end as int)
}

/// What a zstandard decoder emits for each of some parts.
pub open spec fn decoded_parts(parts: Seq<Seq<u8>>) -> Seq<Seq<u8>> {
    parts.map_values(|part: Seq<u8>| zstd_decoded(part).unwrap())
}

/// Whether `file` is laid out as the walk over `chunks` says. The file is
/// made of parts, each of which a zstandard decoder accepts. The first
/// parts are those of the steps, in order: for a write, a part that decodes
/// to the bytes to write; for a resolve, the range of the reference. The
/// parts after them, which hold the metadata, decode to nothing.
pub open spec fn laid_out(file: Seq<u8>, parts: Seq<Seq<u8>>, chunks: Seq<Chunk>) -> bool {
    let walk = walk_of(chunks);
    &&& file == parts.flatten()
    &&& walk.len() <= parts.len()
    &&& forall|k: int| 0 <= k < parts.len() ==> (#[trigger] zstd_decoded(parts[k])) is Some
    &&& forall|k: int|
        0 <= k < walk.len() ==> match #[trigger] walk[k] {
            StepView::Write(bytes) => zstd_decoded(parts[k]) == Some(bytes),
            StepView::Resolve(reference) => {
                &&& reference.range.start <= reference.range.end <= file.len()
                &&& parts[k] == range_of(file, reference)
            },
        }
    &&& forall|k: int|
        walk.len() <= k < parts.len() ==> #[trigger] zstd_decoded(parts[k]) == Some(
            Seq::<u8>::empty(),
        )
}

/// Whether `data` holds, for each reference, what a zstandard decoder emits
/// for its range of the file.
pub open spec fn decoded_from(
    file: Seq<u8>,
    references: Seq<ContentReference>,
    data: Seq<Seq<u8>>,
) -> bool {
    &&& data.len() == references.len()
    &&& forall|i: int|
        0 <= i < data.len() ==> zstd_decoded(range_of(file, #[trigger] references[i])) == Some(
            data[i],
        )
}

/// In a file that is laid out as the walk says, the first parts decode to
/// what the first steps write.
proof fn lemma_parts_decode_to_steps(
    file: Seq<u8>,
    parts: Seq<Seq<u8>>,
    chunks: Seq<Chunk>,
    data: Seq<Seq<u8>>,
    n: int,
)
    requires
        laid_out(file, parts, chunks),
        decoded_from(file, chunk_references(chunks), data),
        0 <= n <= walk_of(chunks).len(),
    ensures
        decoded_parts(parts).take(n).flatten() == written(walk_of(chunks).take(n), data),
    decreases n,
{
    let walk = walk_of(chunks);
    let decoded = decoded_parts(parts);
    if n == 0 {
        assert(decoded.take(0) =~= Seq::empty());
        assert(walk.take(0) =~= Seq::empty());
    } else {
        let k = n - 1;
        lemma_parts_decode_to_steps(file, parts, chunks, data, k);
        lemma_flatten_take_step(decoded, k);
        assert(walk.take(n).drop_last() =~= walk.take(k));
        assert(walk.take(n).last() == walk[k]);
        match walk[k] {
            StepView::Write(bytes) => {
                assert(zstd_decoded(parts[k]) == Some(bytes));
            },
            StepView::Resolve(reference) => {
                law_walk_resolves_the_references(chunks, k);
                let i = resolves(walk.take(k)) as int;
                assert(chunk_references(chunks)[i] == reference);
                assert(zstd_decoded(range_of(file, chunk_references(chunks)[i])) == Some(data[i]));
            },
        }
    }
}

/// Parts that decode to nothing add nothing.
proof fn lemma_parts_without_content(
    file: Seq<u8>,
    parts: Seq<Seq<u8>>,
    chunks: Seq<Chunk>,
    n: int,
)
    requires
        laid_out(file, parts, chunks),
        walk_of(chunks).len() <= n <= parts.len(),
    ensures
        decoded_parts(parts).take(n).flatten() == decoded_parts(parts).take(
            walk_of(chunks).len() as int,
        ).flatten(),
    decreases n,
{
    if n > walk_of(chunks).len() {
        let k = n - 1;
        lemma_parts_without_content(file, parts, chunks, k);
        lemma_flatten_take_step(decoded_parts(parts), k);
        assert(zstd_decoded(parts[k]) == Some(Seq::<u8>::empty()));
        assert(decoded_parts(parts).take(n).flatten() =~= decoded_parts(parts).take(k).flatten());
    }
}

/// Where a zstandard decoder emits for a file what it emits for its parts,
/// one after the other, a file that is laid out as its stream says comes
/// back whole: with a resolver that decodes the range of each reference,
/// `write_to` writes what the decoder emits for the whole file.
///
/// That the decoder takes a file part by part is a premise here: of the
/// decoder only its name is known.
pub proof fn law_round_trip(
    file: Seq<u8>,
    parts: Seq<Seq<u8>>,
    chunks: Seq<Chunk>,
    data: Seq<Seq<u8>>,
)
    requires
        laid_out(file, parts, chunks),
        decoded_from(file, chunk_references(chunks), data),
        zstd_decoded(file) == Some(decoded_parts(parts).flatten()),
    ensures
        zstd_decoded(file) == Some(content_of(chunk_views(chunks), data)),
{
    let walk = walk_of(chunks);
    let decoded = decoded_parts(parts);
    lemma_parts_decode_to_steps(file, parts, chunks, data, walk.len() as int);
    lemma_parts_without_content(file, parts, chunks, parts.len() as int);
    law_walk_writes_the_content(chunks, data);
    assert(decoded.take(parts.len() as int) =~= decoded);
    assert(walk.take(walk.len() as int) =~= walk);
}

} // verus!
