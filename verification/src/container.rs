//! The chunks that a document is made of.

use pdf_writer::Chunk;
use vstd::prelude::*;

use crate::deferred::Deferred;
use crate::embedded_pdf::EmbeddedPdfChunk;
use crate::error::{KrillaError, KrillaResult};
use crate::metadata::Metadata;
use crate::model::Content;
use crate::numbering::covers_all;
use crate::reference::Ref;
use crate::serialize::SerializeContext;
use crate::visit::{
    all_ready, chained, error_of, lemma_chained_first, lemma_chained_settled, part_settled,
    visit_part, Chain, ChunkSink, Outcome, Visit,
};
use crate::writing::{consume_part, ChunkWriter};

verus! {

/// A chunk that is computed away from the document.
pub type DChunk = Deferred<Chunk>;

/// Collects all chunks that are created while a document is built, and then
/// writes them out in an orderly manner.
pub struct ChunkContainer {
    /// The page tree, and the number of its root.
    pub page_tree: Option<(Ref, Chunk)>,
    /// The outline, and the number of its root.
    pub outline: Option<(Ref, Chunk)>,
    /// The page label tree, and the number of its root.
    pub page_label_tree: Option<(Ref, Chunk)>,
    /// The destination profiles, and the number of their array.
    pub destination_profiles: Option<(Ref, Chunk)>,
    /// The root of the structure tree, and its number.
    pub struct_tree_root: Option<(Ref, Chunk)>,
    /// The elements of the structure tree.
    pub struct_elements: Vec<Chunk>,
    /// The page labels.
    pub page_labels: Vec<Chunk>,
    /// The annotations.
    pub annotations: Vec<Chunk>,
    /// The fonts.
    pub fonts: Vec<Chunk>,
    /// The color spaces.
    pub color_spaces: Vec<DChunk>,
    /// The ICC profiles.
    pub icc_profiles: Vec<DChunk>,
    /// The destinations.
    pub destinations: Vec<Chunk>,
    /// The graphics states.
    pub ext_g_states: Vec<DChunk>,
    /// The masks.
    pub masks: Vec<DChunk>,
    /// The external objects.
    pub x_objects: Vec<DChunk>,
    /// The shading functions.
    pub shading_functions: Vec<DChunk>,
    /// The patterns.
    pub patterns: Vec<DChunk>,
    /// The pages.
    pub pages: Vec<DChunk>,
    /// The images.
    pub images: Vec<Deferred<KrillaResult<Chunk>>>,
    /// The embedded files.
    pub embedded_files: Vec<DChunk>,
    /// The embedded PDF files.
    pub embedded_pdfs: Vec<Deferred<KrillaResult<EmbeddedPdfChunk>>>,
    /// The metadata.
    pub metadata: Option<Metadata>,
}

impl ChunkContainer {
    /// What visits to the parts come to, in the order in which the parts are
    /// written.
    pub open spec fn parts(&self) -> Seq<spec_fn(int) -> Outcome> {
        seq![
            |n: int| self.page_tree.outcome(n),
            |n: int| self.outline.outcome(n),
            |n: int| self.page_label_tree.outcome(n),
            |n: int| self.destination_profiles.outcome(n),
            |n: int| self.struct_tree_root.outcome(n),
            |n: int| self.struct_elements.outcome(n),
            |n: int| self.page_labels.outcome(n),
            |n: int| self.annotations.outcome(n),
            |n: int| self.fonts.outcome(n),
            |n: int| self.color_spaces.outcome(n),
            |n: int| self.icc_profiles.outcome(n),
            |n: int| self.destinations.outcome(n),
            |n: int| self.ext_g_states.outcome(n),
            |n: int| self.masks.outcome(n),
            |n: int| self.x_objects.outcome(n),
            |n: int| self.shading_functions.outcome(n),
            |n: int| self.patterns.outcome(n),
            |n: int| self.pages.outcome(n),
            |n: int| self.images.outcome(n),
            |n: int| self.embedded_files.outcome(n),
            |n: int| self.embedded_pdfs.outcome(n),
        ]
    }

    /// Whether there are no chunks, and no metadata.
    pub open spec fn is_empty(self) -> bool {
        &&& self.page_tree is None
        &&& self.outline is None
        &&& self.page_label_tree is None
        &&& self.destination_profiles is None
        &&& self.struct_tree_root is None
        &&& self.struct_elements@.len() == 0
        &&& self.page_labels@.len() == 0
        &&& self.annotations@.len() == 0
        &&& self.fonts@.len() == 0
        &&& self.color_spaces@.len() == 0
        &&& self.icc_profiles@.len() == 0
        &&& self.destinations@.len() == 0
        &&& self.ext_g_states@.len() == 0
        &&& self.masks@.len() == 0
        &&& self.x_objects@.len() == 0
        &&& self.shading_functions@.len() == 0
        &&& self.patterns@.len() == 0
        &&& self.pages@.len() == 0
        &&& self.images@.len() == 0
        &&& self.embedded_files@.len() == 0
        &&& self.embedded_pdfs@.len() == 0
        &&& self.metadata is None
    }

    /// A container without chunks.
    pub fn new() -> (container: Self)
        ensures
            container.is_empty(),
    {
        Self::default()
    }

    /// Writes every chunk into the file, and drops it right away. So large
    /// chunks are freed before the file grows to its full size.
    #[verifier::rlimit(40)]
    pub(crate) fn visit_consuming(
        self,
        sc: &mut SerializeContext,
        writer: &mut ChunkWriter,
    ) -> (result: KrillaResult<()>)
        requires
            old(writer).wf(),
            covers_all(
                old(writer).remapper@,
                self.outcome(old(sc).cur_ref@ as int).contents,
            ),
        ensures
            final(writer).wf(),
            final(writer).origin() == old(writer).origin(),
            final(writer).seen() == old(writer).seen() + self.outcome(
                old(sc).cur_ref@ as int,
            ).contents,
            error_of(result) == self.outcome(old(sc).cur_ref@ as int).error,
            final(sc).cur_ref@ == self.outcome(old(sc).cur_ref@ as int).next,
            *final(sc) == (SerializeContext { cur_ref: final(sc).cur_ref, ..*old(sc) }),
    {
        let ghost chain = Chain {
            parts: self.parts(),
            first: sc.cur_ref@ as int,
            seen: writer.seen(),
        };
        proof {
            assert(chain.parts.take(0) =~= Seq::<spec_fn(int) -> Outcome>::empty());
            assert(chain.seen + Seq::<Content>::empty() =~= chain.seen);
        }
        consume_part(self.page_tree, sc, writer, Ghost(chain), Ghost(0))?;
        consume_part(self.outline, sc, writer, Ghost(chain), Ghost(1))?;
        consume_part(self.page_label_tree, sc, writer, Ghost(chain), Ghost(2))?;
        consume_part(self.destination_profiles, sc, writer, Ghost(chain), Ghost(3))?;
        consume_part(self.struct_tree_root, sc, writer, Ghost(chain), Ghost(4))?;
        consume_part(self.struct_elements, sc, writer, Ghost(chain), Ghost(5))?;
        consume_part(self.page_labels, sc, writer, Ghost(chain), Ghost(6))?;
        consume_part(self.annotations, sc, writer, Ghost(chain), Ghost(7))?;
        consume_part(self.fonts, sc, writer, Ghost(chain), Ghost(8))?;
        consume_part(self.color_spaces, sc, writer, Ghost(chain), Ghost(9))?;
        consume_part(self.icc_profiles, sc, writer, Ghost(chain), Ghost(10))?;
        consume_part(self.destinations, sc, writer, Ghost(chain), Ghost(11))?;
        consume_part(self.ext_g_states, sc, writer, Ghost(chain), Ghost(12))?;
        consume_part(self.masks, sc, writer, Ghost(chain), Ghost(13))?;
        consume_part(self.x_objects, sc, writer, Ghost(chain), Ghost(14))?;
        consume_part(self.shading_functions, sc, writer, Ghost(chain), Ghost(15))?;
        consume_part(self.patterns, sc, writer, Ghost(chain), Ghost(16))?;
        consume_part(self.pages, sc, writer, Ghost(chain), Ghost(17))?;
        consume_part(self.images, sc, writer, Ghost(chain), Ghost(18))?;
        consume_part(self.embedded_files, sc, writer, Ghost(chain), Ghost(19))?;
        consume_part(self.embedded_pdfs, sc, writer, Ghost(chain), Ghost(20))?;
        assert(chain.parts.take(21) =~= chain.parts);
        Ok(())
    }
}

impl Default for ChunkContainer {
    fn default() -> (container: Self)
        ensures
            container.is_empty(),
    {
        ChunkContainer {
            page_tree: None,
            outline: None,
            page_label_tree: None,
            destination_profiles: None,
            struct_tree_root: None,
            struct_elements: Vec::new(),
            page_labels: Vec::new(),
            annotations: Vec::new(),
            fonts: Vec::new(),
            color_spaces: Vec::new(),
            icc_profiles: Vec::new(),
            destinations: Vec::new(),
            ext_g_states: Vec::new(),
            masks: Vec::new(),
            x_objects: Vec::new(),
            shading_functions: Vec::new(),
            patterns: Vec::new(),
            pages: Vec::new(),
            images: Vec::new(),
            embedded_files: Vec::new(),
            embedded_pdfs: Vec::new(),
            metadata: None,
        }
    }
}

/// Where every part of the container that was visited was settled, so was the
/// container. The visits went on up to part number `last`.
proof fn lemma_settled(before: ChunkContainer, after: ChunkContainer, first: int, last: int)
    requires
        0 <= last < 21,
        chained(before.parts().take(last), first).error is None,
        last < 20 ==> chained(before.parts().take(last + 1), first).error is Some,
        0 <= last ==> part_settled(before.parts(), 0, first, after.page_tree),
        1 <= last ==> part_settled(before.parts(), 1, first, after.outline),
        2 <= last ==> part_settled(before.parts(), 2, first, after.page_label_tree),
        3 <= last ==> part_settled(before.parts(), 3, first, after.destination_profiles),
        4 <= last ==> part_settled(before.parts(), 4, first, after.struct_tree_root),
        5 <= last ==> part_settled(before.parts(), 5, first, after.struct_elements),
        6 <= last ==> part_settled(before.parts(), 6, first, after.page_labels),
        7 <= last ==> part_settled(before.parts(), 7, first, after.annotations),
        8 <= last ==> part_settled(before.parts(), 8, first, after.fonts),
        9 <= last ==> part_settled(before.parts(), 9, first, after.color_spaces),
        10 <= last ==> part_settled(before.parts(), 10, first, after.icc_profiles),
        11 <= last ==> part_settled(before.parts(), 11, first, after.destinations),
        12 <= last ==> part_settled(before.parts(), 12, first, after.ext_g_states),
        13 <= last ==> part_settled(before.parts(), 13, first, after.masks),
        14 <= last ==> part_settled(before.parts(), 14, first, after.x_objects),
        15 <= last ==> part_settled(before.parts(), 15, first, after.shading_functions),
        16 <= last ==> part_settled(before.parts(), 16, first, after.patterns),
        17 <= last ==> part_settled(before.parts(), 17, first, after.pages),
        18 <= last ==> part_settled(before.parts(), 18, first, after.images),
        19 <= last ==> part_settled(before.parts(), 19, first, after.embedded_files),
        20 <= last ==> part_settled(before.parts(), 20, first, after.embedded_pdfs),
    ensures
        forall|n: int| #[trigger] after.outcome(n) == before.outcome(first).settled(n),
{
    let parts = before.parts().take(last + 1);
    let later = after.parts().take(last + 1);
    assert(parts.drop_last() =~= before.parts().take(last));
    assert forall|i: int, n: int| 0 <= i < parts.len() implies #[trigger] later[i](n) == parts[i](
        chained(parts.take(i), first).next,
    ).settled(n) by {
        assert(parts.take(i) =~= before.parts().take(i));
        lemma_part_settled(before, after, first, last, i, n);
    }
    assert forall|n: int| #[trigger] after.outcome(n) == before.outcome(first).settled(n) by {
        lemma_chained_settled(parts, later, first, n);
        lemma_chained_first(before.parts(), last + 1, first);
        lemma_chained_first(after.parts(), last + 1, n);
        if last == 20 {
            assert(parts =~= before.parts());
            assert(later =~= after.parts());
        }
    }
}

/// What is known of the parts one by one, of the part number `i`.
proof fn lemma_part_settled(
    before: ChunkContainer,
    after: ChunkContainer,
    first: int,
    last: int,
    i: int,
    n: int,
)
    requires
        0 <= i <= last < 21,
        0 <= last ==> part_settled(before.parts(), 0, first, after.page_tree),
        1 <= last ==> part_settled(before.parts(), 1, first, after.outline),
        2 <= last ==> part_settled(before.parts(), 2, first, after.page_label_tree),
        3 <= last ==> part_settled(before.parts(), 3, first, after.destination_profiles),
        4 <= last ==> part_settled(before.parts(), 4, first, after.struct_tree_root),
        5 <= last ==> part_settled(before.parts(), 5, first, after.struct_elements),
        6 <= last ==> part_settled(before.parts(), 6, first, after.page_labels),
        7 <= last ==> part_settled(before.parts(), 7, first, after.annotations),
        8 <= last ==> part_settled(before.parts(), 8, first, after.fonts),
        9 <= last ==> part_settled(before.parts(), 9, first, after.color_spaces),
        10 <= last ==> part_settled(before.parts(), 10, first, after.icc_profiles),
        11 <= last ==> part_settled(before.parts(), 11, first, after.destinations),
        12 <= last ==> part_settled(before.parts(), 12, first, after.ext_g_states),
        13 <= last ==> part_settled(before.parts(), 13, first, after.masks),
        14 <= last ==> part_settled(before.parts(), 14, first, after.x_objects),
        15 <= last ==> part_settled(before.parts(), 15, first, after.shading_functions),
        16 <= last ==> part_settled(before.parts(), 16, first, after.patterns),
        17 <= last ==> part_settled(before.parts(), 17, first, after.pages),
        18 <= last ==> part_settled(before.parts(), 18, first, after.images),
        19 <= last ==> part_settled(before.parts(), 19, first, after.embedded_files),
        20 <= last ==> part_settled(before.parts(), 20, first, after.embedded_pdfs),
    ensures
        after.parts()[i](n) == before.parts()[i](
            chained(before.parts().take(i), first).next,
        ).settled(n),
{
}

impl ChunkContainer {
    /// Visits the parts in order. Says at which of them the visits ended, too.
    #[verifier::rlimit(60)]
    fn visit_parts<S: ChunkSink>(
        &mut self,
        sc: &mut SerializeContext,
        sink: &mut S,
        Ghost(chain): Ghost<Chain>,
    ) -> (result: (KrillaResult<()>, Ghost<int>))
        requires
            chain.parts == old(self).parts(),
            chain.first == old(sc).cur_ref@,
            chain.seen == old(sink).seen(),
            old(sink).wf(),
            all_ready::<S>(old(sink).origin(), chain.whole().contents),
        ensures
            final(sink).wf(),
            final(sink).origin() == old(sink).origin(),
            final(sink).seen() == chain.seen + chain.whole().contents,
            error_of(result.0) == chain.whole().error,
            final(sc).cur_ref@ == chain.whole().next,
            *final(sc) == (SerializeContext { cur_ref: final(sc).cur_ref, ..*old(sc) }),
            final(self).kept(old(self)),
            0 <= result.1@ < 21,
            chain.before(result.1@).error is None,
            result.1@ < 20 ==> chain.before(result.1@ + 1).error is Some,
            chain.whole().error != Some(KrillaError::RefsExhausted) && 0 <= result.1@
                ==> part_settled(chain.parts, 0, chain.first, final(self).page_tree),
            chain.whole().error != Some(KrillaError::RefsExhausted) && 1 <= result.1@
                ==> part_settled(chain.parts, 1, chain.first, final(self).outline),
            chain.whole().error != Some(KrillaError::RefsExhausted) && 2 <= result.1@
                ==> part_settled(chain.parts, 2, chain.first, final(self).page_label_tree),
            chain.whole().error != Some(KrillaError::RefsExhausted) && 3 <= result.1@
                ==> part_settled(chain.parts, 3, chain.first, final(self).destination_profiles),
            chain.whole().error != Some(KrillaError::RefsExhausted) && 4 <= result.1@
                ==> part_settled(chain.parts, 4, chain.first, final(self).struct_tree_root),
            chain.whole().error != Some(KrillaError::RefsExhausted) && 5 <= result.1@
                ==> part_settled(chain.parts, 5, chain.first, final(self).struct_elements),
            chain.whole().error != Some(KrillaError::RefsExhausted) && 6 <= result.1@
                ==> part_settled(chain.parts, 6, chain.first, final(self).page_labels),
            chain.whole().error != Some(KrillaError::RefsExhausted) && 7 <= result.1@
                ==> part_settled(chain.parts, 7, chain.first, final(self).annotations),
            chain.whole().error != Some(KrillaError::RefsExhausted) && 8 <= result.1@
                ==> part_settled(chain.parts, 8, chain.first, final(self).fonts),
            chain.whole().error != Some(KrillaError::RefsExhausted) && 9 <= result.1@
                ==> part_settled(chain.parts, 9, chain.first, final(self).color_spaces),
            chain.whole().error != Some(KrillaError::RefsExhausted) && 10 <= result.1@
                ==> part_settled(chain.parts, 10, chain.first, final(self).icc_profiles),
            chain.whole().error != Some(KrillaError::RefsExhausted) && 11 <= result.1@
                ==> part_settled(chain.parts, 11, chain.first, final(self).destinations),
            chain.whole().error != Some(KrillaError::RefsExhausted) && 12 <= result.1@
                ==> part_settled(chain.parts, 12, chain.first, final(self).ext_g_states),
            chain.whole().error != Some(KrillaError::RefsExhausted) && 13 <= result.1@
                ==> part_settled(chain.parts, 13, chain.first, final(self).masks),
            chain.whole().error != Some(KrillaError::RefsExhausted) && 14 <= result.1@
                ==> part_settled(chain.parts, 14, chain.first, final(self).x_objects),
            chain.whole().error != Some(KrillaError::RefsExhausted) && 15 <= result.1@
                ==> part_settled(chain.parts, 15, chain.first, final(self).shading_functions),
            chain.whole().error != Some(KrillaError::RefsExhausted) && 16 <= result.1@
                ==> part_settled(chain.parts, 16, chain.first, final(self).patterns),
            chain.whole().error != Some(KrillaError::RefsExhausted) && 17 <= result.1@
                ==> part_settled(chain.parts, 17, chain.first, final(self).pages),
            chain.whole().error != Some(KrillaError::RefsExhausted) && 18 <= result.1@
                ==> part_settled(chain.parts, 18, chain.first, final(self).images),
            chain.whole().error != Some(KrillaError::RefsExhausted) && 19 <= result.1@
                ==> part_settled(chain.parts, 19, chain.first, final(self).embedded_files),
            chain.whole().error != Some(KrillaError::RefsExhausted) && 20 <= result.1@
                ==> part_settled(chain.parts, 20, chain.first, final(self).embedded_pdfs),
    {
        proof {
            assert(chain.parts.take(0) =~= Seq::<spec_fn(int) -> Outcome>::empty());
            assert(chain.seen + Seq::<Content>::empty() =~= chain.seen);
            self.lemma_kept_unvisited();
        }
        if let Err(error) = visit_part(&mut self.page_tree, sc, sink, Ghost(chain), Ghost(0)) {
            return (Err(error), Ghost(0));
        }
        if let Err(error) = visit_part(&mut self.outline, sc, sink, Ghost(chain), Ghost(1)) {
            return (Err(error), Ghost(1));
        }
        if let Err(error) = visit_part(
            &mut self.page_label_tree,
            sc,
            sink,
            Ghost(chain),
            Ghost(2),
        ) {
            return (Err(error), Ghost(2));
        }
        if let Err(error) = visit_part(
            &mut self.destination_profiles,
            sc,
            sink,
            Ghost(chain),
            Ghost(3),
        ) {
            return (Err(error), Ghost(3));
        }
        if let Err(error) = visit_part(
            &mut self.struct_tree_root,
            sc,
            sink,
            Ghost(chain),
            Ghost(4),
        ) {
            return (Err(error), Ghost(4));
        }
        if let Err(error) = visit_part(
            &mut self.struct_elements,
            sc,
            sink,
            Ghost(chain),
            Ghost(5),
        ) {
            return (Err(error), Ghost(5));
        }
        if let Err(error) = visit_part(&mut self.page_labels, sc, sink, Ghost(chain), Ghost(6)) {
            return (Err(error), Ghost(6));
        }
        if let Err(error) = visit_part(&mut self.annotations, sc, sink, Ghost(chain), Ghost(7)) {
            return (Err(error), Ghost(7));
        }
        if let Err(error) = visit_part(&mut self.fonts, sc, sink, Ghost(chain), Ghost(8)) {
            return (Err(error), Ghost(8));
        }
        if let Err(error) = visit_part(&mut self.color_spaces, sc, sink, Ghost(chain), Ghost(9)) {
            return (Err(error), Ghost(9));
        }
        if let Err(error) = visit_part(&mut self.icc_profiles, sc, sink, Ghost(chain), Ghost(10)) {
            return (Err(error), Ghost(10));
        }
        if let Err(error) = visit_part(&mut self.destinations, sc, sink, Ghost(chain), Ghost(11)) {
            return (Err(error), Ghost(11));
        }
        if let Err(error) = visit_part(&mut self.ext_g_states, sc, sink, Ghost(chain), Ghost(12)) {
            return (Err(error), Ghost(12));
        }
        if let Err(error) = visit_part(&mut self.masks, sc, sink, Ghost(chain), Ghost(13)) {
            return (Err(error), Ghost(13));
        }
        if let Err(error) = visit_part(&mut self.x_objects, sc, sink, Ghost(chain), Ghost(14)) {
            return (Err(error), Ghost(14));
        }
        if let Err(error) = visit_part(
            &mut self.shading_functions,
            sc,
            sink,
            Ghost(chain),
            Ghost(15),
        ) {
            return (Err(error), Ghost(15));
        }
        if let Err(error) = visit_part(&mut self.patterns, sc, sink, Ghost(chain), Ghost(16)) {
            return (Err(error), Ghost(16));
        }
        if let Err(error) = visit_part(&mut self.pages, sc, sink, Ghost(chain), Ghost(17)) {
            return (Err(error), Ghost(17));
        }
        if let Err(error) = visit_part(&mut self.images, sc, sink, Ghost(chain), Ghost(18)) {
            return (Err(error), Ghost(18));
        }
        if let Err(error) = visit_part(
            &mut self.embedded_files,
            sc,
            sink,
            Ghost(chain),
            Ghost(19),
        ) {
            return (Err(error), Ghost(19));
        }
        if let Err(error) = visit_part(&mut self.embedded_pdfs, sc, sink, Ghost(chain), Ghost(20)) {
            return (Err(error), Ghost(20));
        }
        assert(chain.parts.take(21) =~= chain.parts);
        (Ok(()), Ghost(20))
    }
}

impl Visit for ChunkContainer {
    open spec fn outcome(&self, next: int) -> Outcome {
        chained(self.parts(), next)
    }

    open spec fn kept(&self, before: &Self) -> bool {
        &&& self.page_tree.kept(&before.page_tree)
        &&& self.outline.kept(&before.outline)
        &&& self.page_label_tree.kept(&before.page_label_tree)
        &&& self.destination_profiles.kept(&before.destination_profiles)
        &&& self.struct_tree_root.kept(&before.struct_tree_root)
        &&& self.struct_elements.kept(&before.struct_elements)
        &&& self.page_labels.kept(&before.page_labels)
        &&& self.annotations.kept(&before.annotations)
        &&& self.fonts.kept(&before.fonts)
        &&& self.color_spaces.kept(&before.color_spaces)
        &&& self.icc_profiles.kept(&before.icc_profiles)
        &&& self.destinations.kept(&before.destinations)
        &&& self.ext_g_states.kept(&before.ext_g_states)
        &&& self.masks.kept(&before.masks)
        &&& self.x_objects.kept(&before.x_objects)
        &&& self.shading_functions.kept(&before.shading_functions)
        &&& self.patterns.kept(&before.patterns)
        &&& self.pages.kept(&before.pages)
        &&& self.images.kept(&before.images)
        &&& self.embedded_files.kept(&before.embedded_files)
        &&& self.embedded_pdfs.kept(&before.embedded_pdfs)
        &&& self.metadata == before.metadata
    }

    proof fn lemma_kept_unvisited(&self) {
        self.page_tree.lemma_kept_unvisited();
        self.outline.lemma_kept_unvisited();
        self.page_label_tree.lemma_kept_unvisited();
        self.destination_profiles.lemma_kept_unvisited();
        self.struct_tree_root.lemma_kept_unvisited();
        self.struct_elements.lemma_kept_unvisited();
        self.page_labels.lemma_kept_unvisited();
        self.annotations.lemma_kept_unvisited();
        self.fonts.lemma_kept_unvisited();
        self.color_spaces.lemma_kept_unvisited();
        self.icc_profiles.lemma_kept_unvisited();
        self.destinations.lemma_kept_unvisited();
        self.ext_g_states.lemma_kept_unvisited();
        self.masks.lemma_kept_unvisited();
        self.x_objects.lemma_kept_unvisited();
        self.shading_functions.lemma_kept_unvisited();
        self.patterns.lemma_kept_unvisited();
        self.pages.lemma_kept_unvisited();
        self.images.lemma_kept_unvisited();
        self.embedded_files.lemma_kept_unvisited();
        self.embedded_pdfs.lemma_kept_unvisited();
    }

    fn visit<S: ChunkSink>(&mut self, sc: &mut SerializeContext, sink: &mut S) -> (result:
        KrillaResult<()>) {
        let ghost chain = Chain {
            parts: self.parts(),
            first: sc.cur_ref@ as int,
            seen: sink.seen(),
        };
        let (result, Ghost(last)) = self.visit_parts(sc, sink, Ghost(chain));
        proof {
            if chain.whole().error != Some(KrillaError::RefsExhausted) {
                lemma_settled(*old(self), *self, chain.first, last);
            }
        }
        result
    }
}

} // verus!
