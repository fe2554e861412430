//! Walking a stream: the references that it needs, and the archive that it
//! stands for once they are resolved.

use crate::reference::{ContentReference, ContentReferenceView};
use crate::stream::{Chunk, ChunkView, Stream};
use vstd::prelude::*;
use vstd::seq_lib::lemma_flatten_concat;

verus! {

impl ChunkView {
    /// The references of the chunk, in order.
    pub open spec fn references(self) -> Seq<ContentReferenceView> {
        match self {
            ChunkView::Inline(_) => Seq::empty(),
            ChunkView::External(references) => references,
        }
    }

    /// The bytes that the chunk stands for, where `data` holds the contents
    /// of its references in order. Where `data` is too short, the chunk
    /// stands for the contents that are there.
    pub open spec fn content(self, data: Seq<Seq<u8>>) -> Seq<u8> {
        match self {
            ChunkView::Inline(bytes) => bytes,
            ChunkView::External(references) => if data.len() < references.len() {
                data.flatten()
            } else {
                data.take(references.len() as int).flatten()
            },
        }
    }
}

impl Chunk {
    /// The references of the chunk, in order.
    pub open spec fn spec_references(self) -> Seq<ContentReference> {
        match self {
            Chunk::Inline(_) => Seq::empty(),
            Chunk::External(references) => references@,
        }
    }
}

/// The references of some chunks: those of each chunk, in the order of the
/// chunks.
pub open spec fn references_of(chunks: Seq<ChunkView>) -> Seq<ContentReferenceView> {
    chunks.map_values(|chunk: ChunkView| chunk.references()).flatten()
}

/// The references of some chunks: those of each chunk, in the order of the
/// chunks.
pub open spec fn chunk_references(chunks: Seq<Chunk>) -> Seq<ContentReference> {
    chunks.map_values(|chunk: Chunk| chunk.spec_references()).flatten()
}

/// The bytes that some chunks stand for, where `data` holds the contents of
/// their references in order.
///
/// Where `data` is shorter than the references, these are the bytes up to
/// the first reference that `data` does not cover: the chunks before that
/// reference, and the contents of the references before it in its own chunk.
pub open spec fn content_of(chunks: Seq<ChunkView>, data: Seq<Seq<u8>>) -> Seq<u8>
    decreases chunks.len(),
{
    if chunks.len() == 0 {
        Seq::empty()
    } else {
        let earlier = chunks.drop_last();
        let used = references_of(earlier).len();
        if data.len() < used {
            content_of(earlier, data)
        } else {
            content_of(earlier, data) + chunks.last().content(data.skip(used as int))
        }
    }
}

/// The bytes of each buffer.
pub open spec fn buffers(data: Seq<Vec<u8>>) -> Seq<Seq<u8>> {
    data.map_values(|buffer: Vec<u8>| buffer@)
}

/// The references that are pointed at.
pub open spec fn pointees(references: Seq<&ContentReference>) -> Seq<ContentReference> {
    references.map_values(|reference: &ContentReference| *reference)
}

impl Stream {
    /// All of the references that need to be satisfied for this stream to be
    /// reconstructed, chunk by chunk.
    pub open spec fn spec_references(&self) -> Seq<ContentReference> {
        chunk_references(self.chunks@)
    }
}

/// Whether `data` holds what `resolve` has returned for the first of some
/// references, one buffer for each, in order.
pub open spec fn resolved_by<E, F: Fn(&ContentReference) -> Result<Vec<u8>, E>>(
    references: Seq<ContentReference>,
    resolve: F,
    data: Seq<Vec<u8>>,
) -> bool {
    &&& data.len() <= references.len()
    &&& forall|i: int|
        0 <= i < data.len() ==> call_ensures(
            resolve,
            (&references[i],),
            Ok::<Vec<u8>, E>(#[trigger] data[i]),
        )
}

/// Whether `result` is how a walk over some references ends that has
/// resolved `data`: well where `data` covers every reference, and else with
/// the error that `resolve` has returned for the next one.
pub open spec fn ends_with<E, F: Fn(&ContentReference) -> Result<Vec<u8>, E>>(
    references: Seq<ContentReference>,
    resolve: F,
    data: Seq<Vec<u8>>,
    result: Result<(), E>,
) -> bool {
    match result {
        Ok(_) => data.len() == references.len(),
        Err(e) => data.len() < references.len() && call_ensures(
            resolve,
            (&references[data.len() as int],),
            Err::<Vec<u8>, E>(e),
        ),
    }
}

/// The first `n + 1` parts, joined, are the first `n` joined and then the
/// next part.
pub proof fn lemma_flatten_take_step<T>(parts: Seq<Seq<T>>, n: int)
    requires
        0 <= n < parts.len(),
    ensures
        parts.take(n + 1).flatten() == parts.take(n).flatten() + parts[n],
{
    assert(parts.take(n + 1) =~= parts.take(n).push(parts[n]));
    parts.take(n).lemma_flatten_push(parts[n]);
}

/// The first `n` parts, joined, begin all the parts joined.
pub proof fn lemma_flatten_take_prefix<T>(parts: Seq<Seq<T>>, n: int)
    requires
        0 <= n <= parts.len(),
    ensures
        parts.take(n).flatten().len() <= parts.flatten().len(),
        parts.take(n).flatten() == parts.flatten().take(parts.take(n).flatten().len() as int),
{
    assert(parts =~= parts.take(n) + parts.skip(n));
    lemma_flatten_concat(parts.take(n), parts.skip(n));
    assert(parts.flatten() =~= parts.take(n).flatten() + parts.skip(n).flatten());
    assert(parts.take(n).flatten() =~= parts.flatten().take(
        parts.take(n).flatten().len() as int,
    ));
}

/// The bytes of the first `n + 1` chunks are those of the first `n`, and
/// then those of the next chunk where `data` reaches it.
pub proof fn lemma_content_step(chunks: Seq<ChunkView>, data: Seq<Seq<u8>>, n: int)
    requires
        0 <= n < chunks.len(),
    ensures
        content_of(chunks.take(n + 1), data) == if data.len() < references_of(
            chunks.take(n),
        ).len() {
            content_of(chunks.take(n), data)
        } else {
            content_of(chunks.take(n), data) + chunks[n].content(
                data.skip(references_of(chunks.take(n)).len() as int),
            )
        },
{
    assert(chunks.take(n + 1).drop_last() =~= chunks.take(n));
}

/// The references of the first `n + 1` chunks are those of the first `n`
/// and then those of the next chunk.
pub proof fn lemma_references_step(chunks: Seq<ChunkView>, n: int)
    requires
        0 <= n < chunks.len(),
    ensures
        references_of(chunks.take(n + 1)) == references_of(chunks.take(n))
            + chunks[n].references(),
{
    let parts = chunks.map_values(|chunk: ChunkView| chunk.references());
    assert(chunks.take(n).map_values(|chunk: ChunkView| chunk.references()) =~= parts.take(n));
    assert(chunks.take(n + 1).map_values(|chunk: ChunkView| chunk.references()) =~= parts.take(
        n + 1,
    ));
    lemma_flatten_take_step(parts, n);
}

/// The bytes of some chunks depend only on the contents of their own
/// references: more data than that changes nothing.
pub proof fn lemma_content_of_enough(chunks: Seq<ChunkView>, data: Seq<Seq<u8>>)
    requires
        references_of(chunks).len() <= data.len(),
    ensures
        content_of(chunks, data) == content_of(
            chunks,
            data.take(references_of(chunks).len() as int),
        ),
    decreases chunks.len(),
{
    if chunks.len() > 0 {
        let n = chunks.len() - 1;
        let earlier = chunks.drop_last();
        let total = references_of(chunks).len() as int;
        let used = references_of(earlier).len() as int;
        lemma_references_step(chunks, n);
        assert(chunks.take(n + 1) =~= chunks);
        assert(chunks.take(n) =~= earlier);
        assert(total == used + chunks.last().references().len());
        lemma_content_of_enough(earlier, data);
        lemma_content_of_enough(earlier, data.take(total));
        assert(data.take(total).take(used) =~= data.take(used));
        match chunks.last() {
            ChunkView::Inline(_) => {},
            ChunkView::External(references) => {
                assert(data.skip(used).take(references.len() as int) =~= data.take(total).skip(
                    used,
                ).take(references.len() as int));
            },
        }
    }
}

/// Where `data` does not cover the references of the first `n` chunks, the
/// chunks after them add nothing.
pub proof fn lemma_content_of_starved(chunks: Seq<ChunkView>, data: Seq<Seq<u8>>, n: int)
    requires
        0 <= n <= chunks.len(),
        data.len() < references_of(chunks.take(n)).len(),
    ensures
        content_of(chunks, data) == content_of(chunks.take(n), data),
    decreases chunks.len() - n,
{
    if n < chunks.len() {
        lemma_references_step(chunks, n);
        lemma_content_step(chunks, data, n);
        lemma_content_of_starved(chunks, data, n + 1);
    } else {
        assert(chunks.take(n) =~= chunks);
    }
}

/// The references of the first `n + 1` chunks are those of the first `n`
/// and then those of the next chunk.
pub proof fn lemma_chunk_references_step(chunks: Seq<Chunk>, n: int)
    requires
        0 <= n < chunks.len(),
    ensures
        chunk_references(chunks.take(n + 1)) == chunk_references(chunks.take(n))
            + chunks[n].spec_references(),
{
    let parts = chunks.map_values(|chunk: Chunk| chunk.spec_references());
    assert(chunks.take(n).map_values(|chunk: Chunk| chunk.spec_references()) =~= parts.take(n));
    assert(chunks.take(n + 1).map_values(|chunk: Chunk| chunk.spec_references()) =~= parts.take(
        n + 1,
    ));
    lemma_flatten_take_step(parts, n);
}

/// The references of the first `n` chunks begin the references of all.
pub proof fn lemma_chunk_references_prefix(chunks: Seq<Chunk>, n: int)
    requires
        0 <= n <= chunks.len(),
    ensures
        chunk_references(chunks.take(n)).len() <= chunk_references(chunks).len(),
        chunk_references(chunks.take(n)) == chunk_references(chunks).take(
            chunk_references(chunks.take(n)).len() as int,
        ),
{
    let parts = chunks.map_values(|chunk: Chunk| chunk.spec_references());
    assert(chunks.take(n).map_values(|chunk: Chunk| chunk.spec_references()) =~= parts.take(n));
    lemma_flatten_take_prefix(parts, n);
}

/// The references of chunks as mathematical values are the mathematical
/// values of their references.
pub proof fn lemma_references_view(chunks: Seq<Chunk>)
    ensures
        references_of(chunks.map_values(|chunk: Chunk| chunk@)) == chunk_references(
            chunks,
        ).map_values(|reference: ContentReference| reference@),
    decreases chunks.len(),
{
    let views = chunks.map_values(|chunk: Chunk| chunk@);
    if chunks.len() == 0 {
        assert(views.map_values(|chunk: ChunkView| chunk.references()) =~= Seq::empty());
        assert(chunks.map_values(|chunk: Chunk| chunk.spec_references()) =~= Seq::empty());
        assert(references_of(views) =~= chunk_references(chunks).map_values(
            |reference: ContentReference| reference@,
        ));
    } else {
        let n = chunks.len() - 1;
        lemma_references_view(chunks.drop_last());
        lemma_chunk_references_step(chunks, n);
        assert(chunks.take(n + 1) =~= chunks);
        assert(chunks.take(n) =~= chunks.drop_last());
        let parts = views.drop_last().map_values(|chunk: ChunkView| chunk.references());
        assert(views.map_values(|chunk: ChunkView| chunk.references()) =~= parts.push(
            views.last().references(),
        ));
        parts.lemma_flatten_push(views.last().references());
        assert(views.drop_last() =~= chunks.drop_last().map_values(|chunk: Chunk| chunk@));
        assert(views.last().references() =~= chunks.last().spec_references().map_values(
            |reference: ContentReference| reference@,
        ));
        assert(references_of(views) =~= chunk_references(chunks).map_values(
            |reference: ContentReference| reference@,
        ));
    }
}

impl Stream {
    /// All of the references that need to be satisfied for this stream to be
    /// reconstructed, in the order in which `write_to` asks for them. This
    /// might be useful to help prefetch the required items.
    pub fn references(&self) -> (r: Vec<&ContentReference>)
        ensures
            pointees(r@) == self.spec_references(),
    {
        let mut all: Vec<&ContentReference> = Vec::new();
        let mut c: usize = 0;
        assert(self.chunks@.take(0) =~= Seq::empty());
        assert(self.chunks@.take(0).map_values(|chunk: Chunk| chunk.spec_references())
            =~= Seq::empty());
        assert(pointees(all@) =~= chunk_references(self.chunks@.take(0)));
        while c < self.chunks.len()
            invariant
                c <= self.chunks.len(),
                pointees(all@) == chunk_references(self.chunks@.take(c as int)),
            decreases self.chunks.len() - c,
        {
            proof {
                lemma_chunk_references_step(self.chunks@, c as int);
            }
            match &self.chunks[c] {
                Chunk::Inline(_) => {
                    assert(chunk_references(self.chunks@.take(c + 1)) =~= chunk_references(
                        self.chunks@.take(c as int),
                    ));
                },
                Chunk::External(references) => {
                    let ghost before = pointees(all@);
                    let mut j: usize = 0;
                    while j < references.len()
                        invariant
                            j <= references.len(),
                            pointees(all@) == before + references@.take(j as int),
                        decreases references.len() - j,
                    {
                        let ghost earlier = all@;
                        all.push(&references[j]);
                        assert(pointees(all@) =~= pointees(earlier).push(references@[j as int]));
                        assert(references@.take(j + 1) =~= references@.take(j as int).push(
                            references@[j as int],
                        ));
                        j += 1;
                    }
                    assert(references@.take(j as int) =~= references@);
                },
            }
            c += 1;
        }
        assert(self.chunks@.take(c as int) =~= self.chunks@);
        all
    }

    /// Writes the content of the stream to `write`: the chunks in order, an
    /// inline chunk as it is, and for each reference of an external chunk
    /// what `resolve_reference` returns for it, which should be the
    /// *decompressed* data that the reference stands for.
    ///
    /// Fails only where `resolve_reference` fails, with its error; what was
    /// written up to then stays written.
    pub fn write_to<E, F: Fn(&ContentReference) -> Result<Vec<u8>, E>>(
        &self,
        write: &mut Vec<u8>,
        resolve_reference: F,
    ) -> (r: Result<(), E>)
        requires
            forall|i: int|
                0 <= i < self.spec_references().len() ==> call_requires(
                    resolve_reference,
                    (&#[trigger] self.spec_references()[i],),
                ),
        ensures
            exists|data: Seq<Vec<u8>>|
                {
                    &&& #[trigger] resolved_by(self.spec_references(), resolve_reference, data)
                    &&& ends_with(self.spec_references(), resolve_reference, data, r)
                    &&& final(write)@ == old(write)@ + content_of(self@, buffers(data))
                },
    {
        let ghost mut data: Seq<Vec<u8>> = Seq::empty();
        let mut c: usize = 0;
        proof {
            assert(self.chunks@.take(0) =~= Seq::empty());
            assert(self.chunks@.take(0).map_values(|chunk: Chunk| chunk.spec_references())
                =~= Seq::empty());
            assert(self@.take(0) =~= Seq::empty());
            assert(write@ =~= old(write)@ + content_of(self@.take(0), buffers(data)));
        }
        while c < self.chunks.len()
            invariant
                c <= self.chunks.len(),
                forall|i: int|
                    0 <= i < self.spec_references().len() ==> call_requires(
                        resolve_reference,
                        (&#[trigger] self.spec_references()[i],),
                    ),
                data.len() == chunk_references(self.chunks@.take(c as int)).len(),
                resolved_by(self.spec_references(), resolve_reference, data),
                write@ == old(write)@ + content_of(self@.take(c as int), buffers(data)),
            decreases self.chunks.len() - c,
        {
            let chunk = &self.chunks[c];
            let ghost used = data.len() as int;
            let ghost before = write@;
            let ghost references = chunk.spec_references();
            proof {
                lemma_chunk_references_step(self.chunks@, c as int);
                lemma_chunk_references_prefix(self.chunks@, c + 1);
                lemma_references_view(self.chunks@.take(c as int));
                assert(self@.take(c as int) =~= self.chunks@.take(c as int).map_values(
                    |chunk: Chunk| chunk@,
                ));
                assert(references_of(self@.take(c as int)).len() == used);
                assert forall|j: int| 0 <= j < references.len() implies #[trigger] references[j]
                    == self.spec_references()[used + j] by {
                    let upto = chunk_references(self.chunks@.take(c + 1));
                    assert(upto[used + j] == references[j]);
                    assert(self.spec_references().take(upto.len() as int)[used + j]
                        == self.spec_references()[used + j]);
                }
                assert forall|j: int| 0 <= j < chunk.spec_references().len() implies call_requires(
                    resolve_reference,
                    (&#[trigger] chunk.spec_references()[j],),
                ) by {
                    assert(references[j] == self.spec_references()[used + j]);
                }
            }
            let result = chunk.write_to(write, &resolve_reference);
            proof {
                let part = choose|part: Seq<Vec<u8>>|
                    {
                        &&& #[trigger] resolved_by(chunk.spec_references(), resolve_reference, part)
                        &&& ends_with(chunk.spec_references(), resolve_reference, part, result)
                        &&& write@ == before + chunk@.content(buffers(part))
                    };
                let settled = content_of(self@.take(c as int), buffers(data));
                let earlier = data;
                data = data + part;
                let contents = buffers(data);
                assert(contents =~= buffers(earlier) + buffers(part));
                assert(contents.take(used) =~= buffers(earlier));
                assert(contents.skip(used) =~= buffers(part));
                assert(resolved_by(self.spec_references(), resolve_reference, data)) by {
                    assert forall|i: int| 0 <= i < data.len() implies call_ensures(
                        resolve_reference,
                        (&self.spec_references()[i],),
                        Ok::<Vec<u8>, E>(#[trigger] data[i]),
                    ) by {
                        if i < used {
                            assert(data[i] == earlier[i]);
                        } else {
                            assert(data[i] == part[i - used]);
                            assert(references[i - used] == self.spec_references()[i]);
                        }
                    }
                }
                assert(self@[c as int] == chunk@);
                assert(chunk@.references().len() == references.len());
                lemma_references_step(self@, c as int);
                lemma_content_step(self@, contents, c as int);
                lemma_content_of_enough(self@.take(c as int), contents);
                assert(write@ =~= old(write)@ + content_of(self@.take(c + 1), contents));
                if result is Err {
                    lemma_content_of_starved(self@, contents, c + 1);
                    assert(references[part.len() as int] == self.spec_references()[used
                        + part.len()]);
                    assert(ends_with(self.spec_references(), resolve_reference, data, result));
                }
            }
            match result {
                Ok(_) => {},
                Err(e) => {
                    return Err(e);
                },
            }
            c += 1;
        }
        proof {
            assert(self.chunks@.take(c as int) =~= self.chunks@);
            assert(self@.take(c as int) =~= self@);
            assert(ends_with(self.spec_references(), resolve_reference, data, Ok::<(), E>(())));
        }
        Ok(())
    }
}

impl Chunk {
    /// Writes the content of the chunk to `write`: an inline chunk as it is,
    /// and for each reference of an external chunk what `resolve_reference`
    /// returns for it.
    ///
    /// Fails only where `resolve_reference` fails, with its error; what was
    /// written up to then stays written.
    pub fn write_to<E, F: Fn(&ContentReference) -> Result<Vec<u8>, E>>(
        &self,
        write: &mut Vec<u8>,
        resolve_reference: &F,
    ) -> (r: Result<(), E>)
        requires
            forall|i: int|
                0 <= i < self.spec_references().len() ==> call_requires(
                    *resolve_reference,
                    (&#[trigger] self.spec_references()[i],),
                ),
        ensures
            exists|data: Seq<Vec<u8>>|
                {
                    &&& #[trigger] resolved_by(self.spec_references(), *resolve_reference, data)
                    &&& ends_with(self.spec_references(), *resolve_reference, data, r)
                    &&& final(write)@ == old(write)@ + self@.content(buffers(data))
                },
    {
        let ghost mut data: Seq<Vec<u8>> = Seq::empty();
        match self {
            Chunk::Inline(bytes) => {
                write.extend_from_slice(bytes.as_slice());
                proof {
                    assert(write@ =~= old(write)@ + bytes@);
                    assert(resolved_by(self.spec_references(), *resolve_reference, data));
                }
                Ok(())
            },
            Chunk::External(references) => {
                let mut j: usize = 0;
                proof {
                    assert(buffers(data) =~= Seq::empty());
                    assert(write@ =~= old(write)@ + buffers(data).flatten());
                }
                while j < references.len()
                    invariant
                        j <= references.len(),
                        *self == Chunk::External(*references),
                        self.spec_references() == references@,
                        forall|i: int|
                            0 <= i < self.spec_references().len() ==> call_requires(
                                *resolve_reference,
                                (&#[trigger] self.spec_references()[i],),
                            ),
                        data.len() == j,
                        resolved_by(self.spec_references(), *resolve_reference, data),
                        write@ == old(write)@ + buffers(data).flatten(),
                    decreases references.len() - j,
                {
                    match resolve_reference(&references[j]) {
                        Ok(bytes) => {
                            let ghost earlier = data;
                            let mut bytes = bytes;
                            proof {
                                data = data.push(bytes);
                            }
                            write.append(&mut bytes);
                            proof {
                                assert(buffers(data) =~= buffers(earlier).push(data[j as int]@));
                                buffers(earlier).lemma_flatten_push(data[j as int]@);
                                assert(write@ =~= old(write)@ + buffers(data).flatten());
                            }
                        },
                        Err(e) => {
                            proof {
                                assert(self@.references().len() == references@.len());
                                assert(ends_with(self.spec_references(), *resolve_reference, data, Err::<(), E>(e)));
                            }
                            return Err(e);
                        },
                    }
                    j += 1;
                }
                proof {
                    assert(self@.references().len() == references@.len());
                    assert(buffers(data).take(references@.len() as int) =~= buffers(data));
                    assert(ends_with(self.spec_references(), *resolve_reference, data, Ok::<(), E>(())));
                }
                Ok(())
            },
        }
    }
}

} // verus!
