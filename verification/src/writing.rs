//! Writing chunks into a file under their new numbers.

use pdf_writer::{Chunk, Pdf};
use std::collections::HashMap;
use vstd::prelude::*;

use crate::deferred::Deferred;
use crate::embedded_pdf::EmbeddedPdfChunk;
use crate::error::{KrillaError, KrillaResult};
use crate::model::{all_objects, renumbered, Content, Document, Object};
use crate::numbering::covers_all;
use crate::outside::chunk::{as_numbers, chunk_content, covers};
use crate::outside::pdf::{chunk_renumber_into, pdf_document};
use crate::reference::Ref;
use crate::serialize::SerializeContext;
use crate::visit::{
    error_of, lemma_chained_first, lemma_outcome_of_first, outcome_of_all, Chain,
    ChunkSink, Visit,
};

verus! {

/// Objects are renumbered one by one.
pub proof fn lemma_renumbered_concat(
    a: Seq<Object>,
    b: Seq<Object>,
    map: Map<i32, i32>,
    pretty: bool,
)
    ensures
        renumbered(a + b, map, pretty) == renumbered(a, map, pretty) + renumbered(b, map, pretty),
    decreases b.len(),
{
    if b.len() == 0 {
        assert(a + b =~= a);
        assert(renumbered(a, map, pretty) + Seq::<Object>::empty() =~= renumbered(a, map, pretty));
    } else {
        lemma_renumbered_concat(a, b.drop_last(), map, pretty);
        assert((a + b).drop_last() =~= a + b.drop_last());
        assert(renumbered(a + b, map, pretty) =~= renumbered(a, map, pretty) + renumbered(
            b,
            map,
            pretty,
        ));
    }
}

/// The document after all contents were written to it, under the numbers that
/// `map` gives.
pub open spec fn written(
    document: Document,
    contents: Seq<Content>,
    map: Map<i32, i32>,
) -> Document {
    Document {
        objects: document.objects + renumbered(all_objects(contents), map, document.pretty),
        ..document
    }
}

/// Writes the chunks that it takes into a file.
pub struct ChunkWriter {
    /// The file.
    pub pdf: Pdf,
    /// The new reference for each number.
    pub remapper: HashMap<i32, Ref>,
    /// What the file held before the first chunk.
    pub start: Ghost<Document>,
    /// What the chunks hold.
    pub taken: Ghost<Seq<Content>>,
}

impl ChunkWriter {
    /// Has written nothing yet.
    pub fn new(pdf: Pdf, remapper: HashMap<i32, Ref>) -> (writer: ChunkWriter)
        ensures
            writer.wf(),
            writer.origin() == (pdf_document(pdf), remapper@),
            writer.seen() == Seq::<Content>::empty(),
    {
        let writer = ChunkWriter {
            pdf,
            remapper,
            start: Ghost(pdf_document(pdf)),
            taken: Ghost(Seq::empty()),
        };
        assert(pdf_document(pdf).objects + Seq::<Object>::empty() =~= pdf_document(pdf).objects);
        writer
    }
}

impl ChunkSink for ChunkWriter {
    type Origin = (Document, Map<i32, Ref>);

    open spec fn origin(&self) -> (Document, Map<i32, Ref>) {
        (self.start@, self.remapper@)
    }

    open spec fn seen(&self) -> Seq<Content> {
        self.taken@
    }

    open spec fn wf(&self) -> bool {
        pdf_document(self.pdf) == written(self.start@, self.taken@, as_numbers(self.remapper@))
    }

    open spec fn ready(origin: (Document, Map<i32, Ref>), content: Content) -> bool {
        covers(origin.1, content)
    }

    fn take(&mut self, chunk: &Chunk) {
        let ghost contents = self.taken@;
        let ghost content = chunk_content(*chunk);
        chunk_renumber_into(chunk, &mut self.pdf, &self.remapper);
        proof {
            let map = as_numbers(self.remapper@);
            let pretty = self.start@.pretty;
            lemma_renumbered_concat(all_objects(contents), content.objects, map, pretty);
            assert(contents.push(content).drop_last() =~= contents);
            assert(self.start@.objects + renumbered(all_objects(contents), map, pretty)
                + renumbered(content.objects, map, pretty) =~= self.start@.objects + (renumbered(
                all_objects(contents),
                map,
                pretty,
            ) + renumbered(content.objects, map, pretty)));
            self.taken@ = contents.push(content);
        }
    }
}

/// Consuming visit: writes the chunks into the file and drops them.
pub(crate) trait VisitConsuming: Visit {
    /// Writes every chunk, in the order in which a visit meets them.
    fn visit_consuming(self, sc: &mut SerializeContext, writer: &mut ChunkWriter) -> (result:
        KrillaResult<()>)
        requires
            old(writer).wf(),
            covers_all(
                old(writer).remapper@,
                self.outcome(old(sc).cur_ref@ as int).contents,
            ),
        ensures
            final(writer).wf(),
            final(writer).origin() == old(writer).origin(),
            final(writer).seen() == old(writer).seen() + self.outcome(
                old(sc).cur_ref@ as int,
            ).contents,
            error_of(result) == self.outcome(old(sc).cur_ref@ as int).error,
            final(sc).cur_ref@ == self.outcome(old(sc).cur_ref@ as int).next,
            *final(sc) == (SerializeContext { cur_ref: final(sc).cur_ref, ..*old(sc) }),
    ;
}

impl VisitConsuming for Chunk {
    fn visit_consuming(self, sc: &mut SerializeContext, writer: &mut ChunkWriter) -> (result:
        KrillaResult<()>) {
        assert(covers(writer.remapper@, self.outcome(sc.cur_ref@ as int).contents[0]));
        writer.take(&self);
        assert(writer.seen() =~= old(writer).seen() + self.outcome(
            old(sc).cur_ref@ as int,
        ).contents);
        Ok(())
    }
}

impl VisitConsuming for Option<(Ref, Chunk)> {
    fn visit_consuming(self, sc: &mut SerializeContext, writer: &mut ChunkWriter) -> (result:
        KrillaResult<()>) {
        if let Some((_, chunk)) = self {
            chunk.visit_consuming(sc, writer)
        } else {
            assert(writer.seen() =~= old(writer).seen() + Seq::<Content>::empty());
            Ok(())
        }
    }
}

/// A deferred value may be shared, so it is visited where it is, and dropped
/// afterwards.
impl<T: Visit> VisitConsuming for Deferred<T> {
    fn visit_consuming(self, sc: &mut SerializeContext, writer: &mut ChunkWriter) -> (result:
        KrillaResult<()>) {
        let mut deferred = self;
        deferred.wait().visit(sc, writer)
    }
}

impl<T: VisitConsuming> VisitConsuming for KrillaResult<T> {
    fn visit_consuming(self, sc: &mut SerializeContext, writer: &mut ChunkWriter) -> (result:
        KrillaResult<()>) {
        match self {
            Ok(value) => value.visit_consuming(sc, writer),
            Err(error) => {
                assert(writer.seen() =~= old(writer).seen() + Seq::<Content>::empty());
                Err(error)
            },
        }
    }
}

impl<T: VisitConsuming> VisitConsuming for Vec<T> {
    fn visit_consuming(self, sc: &mut SerializeContext, writer: &mut ChunkWriter) -> (result:
        KrillaResult<()>) {
        let ghost items = self@;
        let ghost first = sc.cur_ref@ as int;
        let ghost context = *sc;
        let ghost seen = writer.seen();
        assert(items.take(0) =~= Seq::<T>::empty());
        assert(seen + Seq::<Content>::empty() =~= seen);
        for field in iter: self.into_iter()
            invariant
                iter.seq() == items,
                items == self@,
                first == old(sc).cur_ref@,
                context == *old(sc),
                seen == old(writer).seen(),
                writer.wf(),
                writer.origin() == old(writer).origin(),
                covers_all(writer.remapper@, outcome_of_all(items, first).contents),
                writer.seen() == seen + outcome_of_all(items.take(iter.index()), first).contents,
                outcome_of_all(items.take(iter.index()), first).error is None,
                sc.cur_ref@ == outcome_of_all(items.take(iter.index()), first).next,
                *sc == (SerializeContext { cur_ref: sc.cur_ref, ..context }),
        {
            let ghost i = iter.index();
            let ghost so_far = outcome_of_all(items.take(i), first);
            let ghost here = items[i].outcome(so_far.next);
            let ghost after = outcome_of_all(items.take(i + 1), first);
            proof {
                assert(field == items[i]);
                assert(items.take(i + 1).drop_last() =~= items.take(i));
                assert(after.contents == so_far.contents + here.contents);
                lemma_outcome_of_first(items, i + 1, first);
                assert forall|k: int| 0 <= k < here.contents.len() implies covers(
                    writer.remapper@,
                    #[trigger] here.contents[k],
                ) by {
                    let at = so_far.contents.len() + k;
                    assert(after.contents[at] == here.contents[k]);
                    assert(outcome_of_all(items, first).contents[at] == after.contents[at]);
                }
            }
            let result = field.visit_consuming(sc, writer);
            proof {
                assert(seen + so_far.contents + here.contents =~= seen + after.contents);
            }
            match result {
                Ok(()) => {},
                Err(error) => {
                    return Err(error);
                },
            }
        }
        assert(items.take(items.len() as int) =~= items);
        Ok(())
    }
}

impl VisitConsuming for EmbeddedPdfChunk {
    fn visit_consuming(self, sc: &mut SerializeContext, writer: &mut ChunkWriter) -> (result:
        KrillaResult<()>) {
        // Use the remembered chunk if there is one, otherwise renumber now.
        let renumbered = match self.new_chunk {
            Some(chunk) => chunk,
            None => match self.renumber(sc.cur_ref) {
                Some((chunk, free)) => {
                    sc.cur_ref = free;
                    chunk
                },
                None => {
                    assert(writer.seen() =~= old(writer).seen() + Seq::<Content>::empty());
                    return Err(KrillaError::RefsExhausted);
                },
            },
        };
        renumbered.visit_consuming(sc, writer)
    }
}

/// Writes one of several parts, after those before it.
pub(crate) fn consume_part<T: VisitConsuming>(
    part: T,
    sc: &mut SerializeContext,
    writer: &mut ChunkWriter,
    Ghost(chain): Ghost<Chain>,
    Ghost(i): Ghost<int>,
) -> (result: KrillaResult<()>)
    requires
        0 <= i < chain.parts.len(),
        forall|n: int| #[trigger] chain.parts[i](n) == part.outcome(n),
        old(writer).wf(),
        covers_all(old(writer).remapper@, chain.whole().contents),
        old(writer).seen() == chain.seen + chain.before(i).contents,
        chain.before(i).error is None,
        old(sc).cur_ref@ == chain.before(i).next,
    ensures
        final(writer).wf(),
        final(writer).origin() == old(writer).origin(),
        *final(sc) == (SerializeContext { cur_ref: final(sc).cur_ref, ..*old(sc) }),
        match result {
            Ok(_) => {
                &&& final(writer).seen() == chain.seen + chain.before(i + 1).contents
                &&& chain.before(i + 1).error is None
                &&& final(sc).cur_ref@ == chain.before(i + 1).next
            },
            Err(error) => {
                &&& final(writer).seen() == chain.seen + chain.whole().contents
                &&& chain.whole().error == Some(error)
                &&& final(sc).cur_ref@ == chain.whole().next
            },
        },
{
    let ghost so_far = chain.before(i);
    let ghost here = chain.parts[i](so_far.next);
    let ghost after = chain.before(i + 1);
    proof {
        assert(chain.parts.take(i + 1).drop_last() =~= chain.parts.take(i));
        assert(after.contents == so_far.contents + here.contents);
        lemma_chained_first(chain.parts, i + 1, chain.first);
        assert forall|k: int| 0 <= k < here.contents.len() implies covers(
            writer.remapper@,
            #[trigger] here.contents[k],
        ) by {
            let at = so_far.contents.len() + k;
            assert(after.contents[at] == here.contents[k]);
            assert(chain.whole().contents[at] == after.contents[at]);
        }
        assert(chain.seen + so_far.contents + here.contents =~= chain.seen + after.contents);
    }
    part.visit_consuming(sc, writer)
}

} // verus!
