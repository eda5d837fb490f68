//! What holds of the visits to the chunks of a document.

use pdf_writer::Chunk;
use vstd::prelude::*;

use crate::container::{ChunkContainer, DChunk};
use crate::deferred::Deferred;
use crate::embedded_pdf::EmbeddedPdfChunk;
use crate::error::{KrillaError, KrillaResult};
use crate::model::{
    all_objects, mentions, numbers, renumbered, texts, total_len, Content, Object,
};
use crate::outside::chunk::{chunk_content, object_references, renumbered_object};
use crate::reference::Ref;
use crate::visit::{
    chained, error_of, lemma_chained_first, lemma_outcome_of_first, outcome_of_all, Outcome, Visit,
};

verus! {

/// The objects of contents that are put together are those of the one, followed
/// by those of the other. So are their bytes counted.
pub proof fn law_contents_add_up(a: Seq<Content>, b: Seq<Content>)
    ensures
        all_objects(a + b) == all_objects(a) + all_objects(b),
        total_len(a + b) == total_len(a) + total_len(b),
    decreases b.len(),
{
    if b.len() == 0 {
        assert(a + b =~= a);
        assert(all_objects(a) + all_objects(b) =~= all_objects(a));
    } else {
        law_contents_add_up(a, b.drop_last());
        assert((a + b).drop_last() =~= a + b.drop_last());
        assert(all_objects(a + b) =~= all_objects(a) + all_objects(b));
    }
}

/// The objects of one content are its objects, all of them and in order, and its
/// bytes are its bytes.
pub proof fn law_one_content(content: Content)
    ensures
        all_objects(seq![content]) == content.objects,
        total_len(seq![content]) == content.len,
        all_objects(Seq::<Content>::empty()) == Seq::<Object>::empty(),
        total_len(Seq::<Content>::empty()) == 0,
{
    let one = seq![content];
    assert(one.drop_last() =~= Seq::<Content>::empty());
    assert(total_len(Seq::<Content>::empty()) == 0);
    assert(all_objects(one.drop_last()) + content.objects =~= content.objects);
}

/// What is met in objects that are put together is what is met in the one,
/// followed by what is met in the other; and so with their numbers, their texts
/// and their renumbering.
pub proof fn law_objects_add_up(
    a: Seq<Object>,
    b: Seq<Object>,
    map: Map<i32, i32>,
    pretty: bool,
)
    ensures
        mentions(a + b) == mentions(a) + mentions(b),
        numbers(a + b) == numbers(a) + numbers(b),
        texts(a + b) == texts(a) + texts(b),
        renumbered(a + b, map, pretty) == renumbered(a, map, pretty) + renumbered(b, map, pretty),
    decreases b.len(),
{
    assert(numbers(a + b) =~= numbers(a) + numbers(b));
    if b.len() == 0 {
        assert(a + b =~= a);
        assert(mentions(a) + mentions(b) =~= mentions(a));
        assert(texts(a) + texts(b) =~= texts(a));
        assert(renumbered(a, map, pretty) + renumbered(b, map, pretty) =~= renumbered(
            a,
            map,
            pretty,
        ));
    } else {
        law_objects_add_up(a, b.drop_last(), map, pretty);
        assert((a + b).drop_last() =~= a + b.drop_last());
        assert(mentions(a + b) =~= mentions(a) + mentions(b));
        assert(texts(a + b) =~= texts(a) + texts(b));
        assert(renumbered(a + b, map, pretty) =~= renumbered(a, map, pretty) + renumbered(
            b,
            map,
            pretty,
        ));
    }
}

/// Of one object, its number is met first and after it the references in it. It
/// is renumbered by the map, if it is complete, and left out, if it is not.
pub proof fn law_one_object(object: Object, map: Map<i32, i32>, pretty: bool)
    ensures
        mentions(seq![object]) == seq![object.0] + object_references(object.1),
        numbers(seq![object]) == seq![object.0],
        texts(seq![object]) == object.1,
        match renumbered_object(object.1, map[object.0], map, pretty) {
            Some(text) => renumbered(seq![object], map, pretty) == seq![(map[object.0], text)],
            None => renumbered(seq![object], map, pretty).len() == 0,
        },
{
    let one = seq![object];
    let none = Seq::<Object>::empty();
    assert(one.drop_last() =~= none);
    assert(mentions(none) + seq![object.0] =~= seq![object.0]);
    assert(numbers(one) =~= seq![object.0]);
    assert(texts(none) + object.1 =~= object.1);
    assert(renumbered(none, map, pretty) =~= none);
    if let Some(text) = renumbered_object(object.1, map[object.0], map, pretty) {
        assert(renumbered(one, map, pretty) =~= seq![(map[object.0], text)]);
    }
}

/// What a part that may be missing holds.
pub open spec fn part_contents(part: Option<(Ref, Chunk)>) -> Seq<Content> {
    match part {
        Some((_, chunk)) => seq![chunk_content(chunk)],
        None => Seq::empty(),
    }
}

/// What chunks hold.
pub open spec fn chunk_contents(chunks: Seq<Chunk>) -> Seq<Content> {
    chunks.map_values(|chunk: Chunk| chunk_content(chunk))
}

/// What chunks hold that are computed elsewhere.
pub open spec fn deferred_contents(chunks: Seq<DChunk>) -> Seq<Content> {
    chunks.map_values(|chunk: DChunk| chunk_content(chunk.value()))
}

/// What images hold that could be converted.
pub open spec fn image_contents(images: Seq<Deferred<KrillaResult<Chunk>>>) -> Seq<Content> {
    images.map_values(
        |image: Deferred<KrillaResult<Chunk>>| chunk_content(image.value()->Ok_0),
    )
}

/// Visits to several values, each of which comes to one content.
proof fn lemma_plain_all<T: Visit>(items: Seq<T>, contents: Seq<Content>, next: int)
    requires
        items.len() == contents.len(),
        forall|i: int, n: int|
            #![trigger items[i].outcome(n)]
            0 <= i < items.len() ==> items[i].outcome(n) == (Outcome {
                contents: seq![contents[i]],
                error: None,
                next: n,
            }),
    ensures
        outcome_of_all(items, next) == (Outcome { contents, error: None, next }),
    decreases items.len(),
{
    if items.len() == 0 {
        assert(contents =~= Seq::<Content>::empty());
    } else {
        let last = items.len() - 1;
        let before = items.drop_last();
        assert forall|i: int, n: int|
            #![trigger before[i].outcome(n)]
            0 <= i < before.len() implies before[i].outcome(n) == (Outcome {
            contents: seq![contents.drop_last()[i]],
            error: None,
            next: n,
        }) by {
            assert(items[i].outcome(n).error is None);
        }
        lemma_plain_all(before, contents.drop_last(), next);
        assert(items[last].outcome(next).contents == seq![contents[last]]);
        assert(outcome_of_all(items, next).contents =~= contents);
    }
}

/// Visits to several parts, none of which fails or takes numbers.
proof fn lemma_plain_chained(
    parts: Seq<spec_fn(int) -> Outcome>,
    lists: Seq<Seq<Content>>,
    next: int,
)
    requires
        parts.len() == lists.len(),
        forall|i: int, n: int|
            #![trigger parts[i](n)]
            0 <= i < parts.len() ==> parts[i](n) == (Outcome {
                contents: lists[i],
                error: None,
                next: n,
            }),
    ensures
        chained(parts, next) == (Outcome { contents: lists.flatten(), error: None, next }),
    decreases parts.len(),
{
    lists.lemma_flatten_and_flatten_alt_are_equivalent();
    if parts.len() > 0 {
        let last = parts.len() - 1;
        let before = parts.drop_last();
        assert forall|i: int, n: int|
            #![trigger before[i](n)]
            0 <= i < before.len() implies before[i](n) == (Outcome {
            contents: lists.drop_last()[i],
            error: None,
            next: n,
        }) by {
            assert(parts[i](n).error is None);
        }
        lemma_plain_chained(before, lists.drop_last(), next);
        lists.drop_last().lemma_flatten_and_flatten_alt_are_equivalent();
        assert(parts[last](next).contents == lists[last]);
    }
}

/// What the parts hold that come before the images, in the order in which they
/// are written.
pub open spec fn lists_before_images(container: ChunkContainer) -> Seq<Seq<Content>> {
    seq![
        part_contents(container.page_tree),
        part_contents(container.outline),
        part_contents(container.page_label_tree),
        part_contents(container.destination_profiles),
        part_contents(container.struct_tree_root),
        chunk_contents(container.struct_elements@),
        chunk_contents(container.page_labels@),
        chunk_contents(container.annotations@),
        chunk_contents(container.fonts@),
        deferred_contents(container.color_spaces@),
        deferred_contents(container.icc_profiles@),
        chunk_contents(container.destinations@),
        deferred_contents(container.ext_g_states@),
        deferred_contents(container.masks@),
        deferred_contents(container.x_objects@),
        deferred_contents(container.shading_functions@),
        deferred_contents(container.patterns@),
        deferred_contents(container.pages@),
    ]
}

proof fn lemma_before_images(container: ChunkContainer, next: int)
    ensures
        chained(container.parts().take(18), next) == (Outcome {
            contents: lists_before_images(container).flatten(),
            error: None,
            next,
        }),
{
    let parts = container.parts().take(18);
    let lists = lists_before_images(container);
    assert forall|i: int, n: int|
        #![trigger parts[i](n)]
        0 <= i < parts.len() implies parts[i](n) == (Outcome {
        contents: lists[i],
        error: None,
        next: n,
    }) by {
        lemma_plain_all(container.struct_elements@, lists[5], n);
        lemma_plain_all(container.page_labels@, lists[6], n);
        lemma_plain_all(container.annotations@, lists[7], n);
        lemma_plain_all(container.fonts@, lists[8], n);
        lemma_plain_all(container.color_spaces@, lists[9], n);
        lemma_plain_all(container.icc_profiles@, lists[10], n);
        lemma_plain_all(container.destinations@, lists[11], n);
        lemma_plain_all(container.ext_g_states@, lists[12], n);
        lemma_plain_all(container.masks@, lists[13], n);
        lemma_plain_all(container.x_objects@, lists[14], n);
        lemma_plain_all(container.shading_functions@, lists[15], n);
        lemma_plain_all(container.patterns@, lists[16], n);
        lemma_plain_all(container.pages@, lists[17], n);
    }
    lemma_plain_chained(parts, lists, next);
}

/// Where all images could be converted, all chunks are visited, in this order:
/// those of the five parts, the elements of the structure tree, the page labels,
/// the annotations, the fonts, the color spaces, the ICC profiles, the
/// destinations, the graphics states, the masks, the external objects, the
/// shading functions, the patterns, the pages, the images, the embedded files,
/// and last the embedded PDF files. Only these take numbers or fail.
pub proof fn law_chunks_are_visited_in_order(container: ChunkContainer, next: int)
    requires
        forall|i: int|
            0 <= i < container.images@.len() ==> (#[trigger] container.images@[i]).value() is Ok,
    ensures
        container.outcome(next).contents == lists_before_images(container).flatten()
            + image_contents(container.images@) + deferred_contents(container.embedded_files@)
            + outcome_of_all(container.embedded_pdfs@, next).contents,
        container.outcome(next).error == outcome_of_all(container.embedded_pdfs@, next).error,
        container.outcome(next).next == outcome_of_all(container.embedded_pdfs@, next).next,
{
    let parts = container.parts();
    lemma_before_images(container, next);
    lemma_plain_all(container.images@, image_contents(container.images@), next);
    lemma_plain_all(container.embedded_files@, deferred_contents(container.embedded_files@), next);
    assert(parts.take(19).drop_last() =~= parts.take(18));
    assert(parts.take(20).drop_last() =~= parts.take(19));
    assert(parts.take(21) =~= parts);
    assert(parts.take(21).drop_last() =~= parts.take(20));
    assert(parts.take(19).last()(next) == container.images.outcome(next));
    assert(parts.take(20).last()(next) == container.embedded_files.outcome(next));
    assert(parts.last()(next) == container.embedded_pdfs.outcome(next));
    assert(chained(parts.take(19), next).error is None);
    assert(chained(parts.take(20), next).error is None);
}

/// The first image that could not be converted ends the visit with its error.
/// The chunks before it were visited, and no numbers were taken.
pub proof fn law_failed_image_ends_the_visit(container: ChunkContainer, next: int, i: int)
    requires
        0 <= i < container.images@.len(),
        container.images@[i].value() is Err,
        forall|j: int| 0 <= j < i ==> (#[trigger] container.images@[j]).value() is Ok,
    ensures
        container.outcome(next).error == Some(container.images@[i].value()->Err_0),
        container.outcome(next).contents == lists_before_images(container).flatten()
            + image_contents(container.images@.take(i)),
        container.outcome(next).next == next,
{
    let parts = container.parts();
    let images = container.images@;
    lemma_before_images(container, next);
    lemma_plain_all(images.take(i), image_contents(images.take(i)), next);
    assert(images.take(i + 1).drop_last() =~= images.take(i));
    lemma_outcome_of_first(images, i + 1, next);
    let ended = outcome_of_all(images.take(i + 1), next);
    assert(ended.contents =~= image_contents(images.take(i)));
    assert(ended.error == Some(images[i].value()->Err_0));
    assert(parts.take(19).drop_last() =~= parts.take(18));
    assert(parts.take(19).last()(next) == container.images.outcome(next));
    lemma_chained_first(parts, 19, next);
}

/// The first embedded PDF that could not be read ends the visit with its error,
/// where those before it could be visited and all images could be converted.
pub proof fn law_failed_pdf_ends_the_visit(container: ChunkContainer, next: int, i: int)
    requires
        forall|j: int|
            0 <= j < container.images@.len() ==> (#[trigger] container.images@[j]).value() is Ok,
        0 <= i < container.embedded_pdfs@.len(),
        container.embedded_pdfs@[i].value() is Err,
        outcome_of_all(container.embedded_pdfs@.take(i), next).error is None,
    ensures
        container.outcome(next).error == Some(container.embedded_pdfs@[i].value()->Err_0),
{
    let pdfs = container.embedded_pdfs@;
    law_chunks_are_visited_in_order(container, next);
    assert(pdfs.take(i + 1).drop_last() =~= pdfs.take(i));
    lemma_outcome_of_first(pdfs, i + 1, next);
}

/// Values are visited one after the other: the visit to the last of them follows
/// those to the others, with the numbers that they left, unless one of them
/// failed.
pub proof fn law_visits_follow_each_other<T: Visit>(items: Seq<T>, last: T, next: int)
    ensures
        outcome_of_all(Seq::<T>::empty(), next).contents.len() == 0,
        outcome_of_all(Seq::<T>::empty(), next).error is None,
        outcome_of_all(Seq::<T>::empty(), next).next == next,
        outcome_of_all(items, next).error is Some ==> outcome_of_all(items.push(last), next)
            == outcome_of_all(items, next),
        outcome_of_all(items, next).error is None ==> {
            let before = outcome_of_all(items, next);
            let all = outcome_of_all(items.push(last), next);
            &&& all.contents == before.contents + last.outcome(before.next).contents
            &&& all.error == last.outcome(before.next).error
            &&& all.next == last.outcome(before.next).next
        },
{
    assert(items.push(last).drop_last() =~= items);
}

/// A chunk is visited as what it holds, a value that is computed elsewhere as
/// that value, and a result as what it holds or as its error.
pub proof fn law_single_visits<T: Visit>(
    chunk: Chunk,
    list: Vec<T>,
    deferred: Deferred<T>,
    good: T,
    error: KrillaError,
    next: int,
)
    ensures
        chunk.outcome(next).contents == seq![chunk_content(chunk)],
        chunk.outcome(next).error is None,
        chunk.outcome(next).next == next,
        list.outcome(next) == outcome_of_all(list@, next),
        deferred.outcome(next) == deferred.value().outcome(next),
        KrillaResult::<T>::Ok(good).outcome(next) == good.outcome(next),
        KrillaResult::<T>::Err(error).outcome(next).contents.len() == 0,
        KrillaResult::<T>::Err(error).outcome(next).error == Some(error),
        KrillaResult::<T>::Err(error).outcome(next).next == next,
{
}

/// A visit that is settled comes to the same contents and to the same error, and
/// takes no numbers. The result of a visit tells its error.
pub proof fn law_settled_visits(outcome: Outcome, next: int, result: KrillaResult<()>)
    ensures
        outcome.settled(next).contents == outcome.contents,
        outcome.settled(next).error == outcome.error,
        outcome.settled(next).next == next,
        error_of(result) is None <==> result is Ok,
        result is Err ==> error_of(result) == Some(result->Err_0),
{
}

/// A visit changes nothing of a container but what its embedded PDF files
/// remember. These remember at most once, and keep what they were made from.
pub proof fn law_visits_keep_the_container(after: ChunkContainer, before: ChunkContainer)
    requires
        after.kept(&before),
    ensures
        after.page_tree == before.page_tree,
        after.outline == before.outline,
        after.page_label_tree == before.page_label_tree,
        after.destination_profiles == before.destination_profiles,
        after.struct_tree_root == before.struct_tree_root,
        after.struct_elements@ == before.struct_elements@,
        after.page_labels@ == before.page_labels@,
        after.annotations@ == before.annotations@,
        after.fonts@ == before.fonts@,
        after.destinations@ == before.destinations@,
        deferred_values(after.color_spaces@) == deferred_values(before.color_spaces@),
        deferred_values(after.icc_profiles@) == deferred_values(before.icc_profiles@),
        deferred_values(after.ext_g_states@) == deferred_values(before.ext_g_states@),
        deferred_values(after.masks@) == deferred_values(before.masks@),
        deferred_values(after.x_objects@) == deferred_values(before.x_objects@),
        deferred_values(after.shading_functions@) == deferred_values(before.shading_functions@),
        deferred_values(after.patterns@) == deferred_values(before.patterns@),
        deferred_values(after.pages@) == deferred_values(before.pages@),
        deferred_values(after.images@) == deferred_values(before.images@),
        deferred_values(after.embedded_files@) == deferred_values(before.embedded_files@),
        after.metadata == before.metadata,
        after.embedded_pdfs@.len() == before.embedded_pdfs@.len(),
        forall|i: int|
            0 <= i < before.embedded_pdfs@.len() ==> same_pdf(
                (#[trigger] after.embedded_pdfs@[i]).value(),
                before.embedded_pdfs@[i].value(),
            ),
{
    assert(after.struct_elements@ =~= before.struct_elements@);
    assert(after.page_labels@ =~= before.page_labels@);
    assert(after.annotations@ =~= before.annotations@);
    assert(after.fonts@ =~= before.fonts@);
    assert(after.destinations@ =~= before.destinations@);
    lemma_kept_values(after.color_spaces, before.color_spaces);
    lemma_kept_values(after.icc_profiles, before.icc_profiles);
    lemma_kept_values(after.ext_g_states, before.ext_g_states);
    lemma_kept_values(after.masks, before.masks);
    lemma_kept_values(after.x_objects, before.x_objects);
    lemma_kept_values(after.shading_functions, before.shading_functions);
    lemma_kept_values(after.patterns, before.patterns);
    lemma_kept_values(after.pages, before.pages);
    lemma_kept_values(after.embedded_files, before.embedded_files);
    assert(deferred_values(after.images@) =~= deferred_values(before.images@)) by {
        assert forall|i: int| 0 <= i < before.images@.len() implies (
        #[trigger] after.images@[i]).value() == before.images@[i].value() by {
            assert(after.images@[i].kept(&before.images@[i]));
        }
    }
}

/// The values that arrived.
pub open spec fn deferred_values<T>(items: Seq<Deferred<T>>) -> Seq<T> {
    items.map_values(|item: Deferred<T>| item.value())
}

proof fn lemma_kept_values(after: Vec<DChunk>, before: Vec<DChunk>)
    requires
        after.kept(&before),
    ensures
        deferred_values(after@) == deferred_values(before@),
{
    assert forall|i: int| 0 <= i < before@.len() implies (#[trigger] after@[i]).value()
        == before@[i].value() by {
        assert(after@[i].kept(&before@[i]));
    }
    assert(deferred_values(after@) =~= deferred_values(before@));
}

/// Whether an embedded PDF is the same, but for what it remembers.
pub open spec fn same_pdf(
    after: KrillaResult<EmbeddedPdfChunk>,
    before: KrillaResult<EmbeddedPdfChunk>,
) -> bool {
    match before {
        Ok(pdf) => {
            &&& after is Ok
            &&& after->Ok_0.original_chunk == pdf.original_chunk
            &&& after->Ok_0.root_ref_mappings == pdf.root_ref_mappings
            &&& pdf.new_chunk is Some ==> after->Ok_0.new_chunk == pdf.new_chunk
        },
        Err(error) => after is Err && after->Err_0 == error,
    }
}

/// A container that is empty has no parts, no chunks and no metadata.
pub proof fn law_empty_container_has_nothing(container: ChunkContainer)
    ensures
        container.is_empty() <==> {
            &&& container.page_tree is None
            &&& container.outline is None
            &&& container.page_label_tree is None
            &&& container.destination_profiles is None
            &&& container.struct_tree_root is None
            &&& container.struct_elements@.len() == 0
            &&& container.page_labels@.len() == 0
            &&& container.annotations@.len() == 0
            &&& container.fonts@.len() == 0
            &&& container.color_spaces@.len() == 0
            &&& container.icc_profiles@.len() == 0
            &&& container.destinations@.len() == 0
            &&& container.ext_g_states@.len() == 0
            &&& container.masks@.len() == 0
            &&& container.x_objects@.len() == 0
            &&& container.shading_functions@.len() == 0
            &&& container.patterns@.len() == 0
            &&& container.pages@.len() == 0
            &&& container.images@.len() == 0
            &&& container.embedded_files@.len() == 0
            &&& container.embedded_pdfs@.len() == 0
            &&& container.metadata is None
        },
{
}

} // verus!
