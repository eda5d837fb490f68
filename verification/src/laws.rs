//! What holds of every document that is written.

use pdf_writer::Pdf;
use vstd::prelude::*;
use vstd::relations::total_ordering;
use vstd::utf8::encode_utf8;

use crate::body::{body_document, opened, renumbering, Frame};
use crate::catalog::{
    direction_of, language_of, language_pairs, layout_of, layout_pairs, ref_pairs,
    structure_pairs, viewer_pairs,
};
use crate::completion::{catalog_data, is_completed, metadata_text, numbers_at_end, Ids};
use crate::configure::{Configuration, ValidationError};
use crate::container::ChunkContainer;
use crate::destinations::{arranged, ascending, named, NameEntry};
use crate::embedded_pdf::allotted;
use crate::finish::{finished, Steps};
use crate::identity::{spec_document_id_source, spec_missing_title, IdSource};
use crate::metadata::Metadata;
use crate::model::{all_objects, renumbered, Content, Document, Object, Value};
use crate::names::{
    lemma_lexical_antisymmetric, lemma_lexical_prefix, lemma_lexical_total,
    lemma_lexical_transitive, lexical_leq,
};
use crate::numbering::{all_numbers, numberable};
use crate::outside::chunk::renumbered_object;
use crate::outside::pdf::pdf_document;
use crate::parts::DocumentParts;
use crate::reference::{lemma_ref_is_its_number, Ref};
use crate::serialize::{SerializeContext, SerializeSettings};
use crate::visit::{chained, Outcome, Visit};

verus! {

/// Whether the numbers of the objects grow from object to object.
pub open spec fn growing(objects: Seq<Object>) -> bool {
    forall|i: int, j: int| 0 <= i < j < objects.len() ==> objects[i].0 < objects[j].0
}

/// Whether all objects have numbers from 1 up to `last`.
pub open spec fn within(objects: Seq<Object>, last: int) -> bool {
    forall|i: int| 0 <= i < objects.len() ==> 1 <= (#[trigger] objects[i]).0 <= last
}

/// Whether all objects are complete, so that each of them is renumbered.
pub open spec fn all_complete(objects: Seq<Object>, map: Map<i32, i32>, pretty: bool) -> bool {
    forall|i: int|
        0 <= i < objects.len() ==> renumbered_object(
            (#[trigger] objects[i]).1,
            map[objects[i].0],
            map,
            pretty,
        ) is Some
}

/// The objects get the numbers from 1 on: the first of them 1, the second 2,
/// and so on. No two of them get the same number.
pub proof fn law_renumbering_is_consecutive(contents: Seq<Content>)
    requires
        numberable(contents),
    ensures
        forall|i: int|
            0 <= i < all_numbers(contents).len() ==> renumbering(
                contents,
            )[#[trigger] all_numbers(contents)[i]] == i + 1,
        forall|a: i32, b: i32|
            renumbering(contents).contains_key(a) && renumbering(contents).contains_key(b) && a != b
                ==> #[trigger] renumbering(contents)[a] != #[trigger] renumbering(contents)[b],
{
    let refs = all_numbers(contents);
    assert forall|i: int| 0 <= i < refs.len() implies renumbering(contents)[#[trigger] refs[i]] == i
        + 1 by {
        assert(refs.contains(refs[i]));
        assert(refs[refs.index_of(refs[i])] == refs[i]);
    }
    assert forall|a: i32, b: i32|
        renumbering(contents).contains_key(a) && renumbering(contents).contains_key(b) && a
            != b implies #[trigger] renumbering(contents)[a] != #[trigger] renumbering(
        contents,
    )[b] by {
        assert(refs[refs.index_of(a)] == a);
        assert(refs[refs.index_of(b)] == b);
    }
}

/// Objects whose new numbers are 1, 2 and so on are written with numbers that
/// grow. Where all of them are complete, the numbers have no gaps.
proof fn lemma_renumbered_grow(objects: Seq<Object>, map: Map<i32, i32>, pretty: bool)
    requires
        forall|i: int| 0 <= i < objects.len() ==> map[(#[trigger] objects[i]).0] == i + 1,
        objects.len() < i32::MAX,
    ensures
        growing(renumbered(objects, map, pretty)),
        within(renumbered(objects, map, pretty), objects.len() as int),
        all_complete(objects, map, pretty) ==> {
            &&& renumbered(objects, map, pretty).len() == objects.len()
            &&& forall|i: int|
                0 <= i < objects.len() ==> (#[trigger] renumbered(objects, map, pretty)[i]).0 == i
                    + 1
        },
    decreases objects.len(),
{
    if objects.len() > 0 {
        let before = objects.drop_last();
        assert forall|i: int| 0 <= i < before.len() implies map[(#[trigger] before[i]).0] == i
            + 1 by {
            assert(objects[i] == before[i]);
        }
        lemma_renumbered_grow(before, map, pretty);
        assert(map[objects[objects.len() - 1].0] == objects.len());
        if all_complete(objects, map, pretty) {
            assert forall|i: int| 0 <= i < before.len() implies renumbered_object(
                (#[trigger] before[i]).1,
                map[before[i].0],
                map,
                pretty,
            ) is Some by {
                assert(objects[i] == before[i]);
            }
            assert(renumbered_object(
                objects[objects.len() - 1].1,
                map[objects[objects.len() - 1].0],
                map,
                pretty,
            ) is Some);
        }
    }
}

/// The numbers of the objects in the file grow from object to object. Where all
/// objects of the chunks are complete, the file has the numbers from 1 on
/// without gaps.
pub proof fn law_numbers_in_the_file_grow(settings: SerializeSettings, contents: Seq<Content>)
    requires
        numberable(contents),
    ensures
        growing(body_document(settings, contents).objects),
        within(body_document(settings, contents).objects, all_numbers(contents).len() as int),
        all_complete(all_objects(contents), renumbering(contents), true) ==> {
            &&& body_document(settings, contents).objects.len() == all_numbers(contents).len()
            &&& forall|i: int|
                0 <= i < all_numbers(contents).len() ==> (#[trigger] body_document(
                    settings,
                    contents,
                ).objects[i]).0 == i + 1
        },
{
    let objects = all_objects(contents);
    let map = renumbering(contents);
    law_renumbering_is_consecutive(contents);
    assert forall|i: int| 0 <= i < objects.len() implies map[(#[trigger] objects[i]).0] == i
        + 1 by {
        assert(all_numbers(contents)[i] == objects[i].0);
    }
    lemma_renumbered_grow(objects, map, true);
    assert(body_document(settings, contents).objects =~= renumbered(objects, map, true));
}

/// The end of a file does not break the order of its numbers: where they grow
/// up to the next number, they still grow afterwards.
pub proof fn law_numbers_at_the_end_grow(
    after: Document,
    document: Document,
    frame: Frame,
    settings: SerializeSettings,
    next: Ref,
    ids: Ids,
    packet: Option<String>,
    destinations: Seq<NameEntry>,
    files: Seq<NameEntry>,
)
    requires
        is_completed(
            after,
            document,
            frame,
            settings,
            next,
            ids,
            packet,
            destinations,
            files,
        ),
        next@ + numbers_at_end(frame.refs.spec_any(), packet is Some) <= i32::MAX,
        growing(document.objects),
        within(document.objects, next@ - 1),
        0 < next@,
    ensures
        growing(after.objects),
        within(after.objects, next@ - 1 + numbers_at_end(frame.refs.spec_any(), packet is Some)),
{
}

/// There is a catalog if and only if the document has one of the parts that it
/// refers to. The catalog is the last object, and the trailer names it. The
/// rest of the file does not change, but for the metadata stream before it.
pub proof fn law_catalog_where_it_has_a_part(
    after: Document,
    document: Document,
    frame: Frame,
    settings: SerializeSettings,
    next: Ref,
    ids: Ids,
    packet: Option<String>,
    destinations: Seq<NameEntry>,
    files: Seq<NameEntry>,
)
    requires
        is_completed(
            after,
            document,
            frame,
            settings,
            next,
            ids,
            packet,
            destinations,
            files,
        ),
        next@ + numbers_at_end(frame.refs.spec_any(), packet is Some) <= i32::MAX,
    ensures
        after.header == document.header,
        after.objects.len() == document.objects.len() + numbers_at_end(
            frame.refs.spec_any(),
            packet is Some,
        ),
        document.objects.is_prefix_of(after.objects),
        frame.refs.spec_any() ==> after.catalog == Some(after.objects.last().0),
        frame.refs.spec_any() ==> after.objects.last().0 == next@ + numbers_at_end(
            frame.refs.spec_any(),
            packet is Some,
        ) - 1,
        !frame.refs.spec_any() ==> after.catalog == document.catalog,
{
}

/// The catalog refers to the page tree, the outline, the page labels, the
/// output intents and the structure tree under their new numbers.
pub proof fn law_catalog_refers_to_the_parts(
    container: ChunkContainer,
    map: Map<i32, i32>,
    frame: Frame,
    settings: SerializeSettings,
    next: Ref,
    stream: bool,
    destinations: Seq<NameEntry>,
    files: Seq<NameEntry>,
)
    requires
        frame.of(container, map),
    ensures
        container.page_tree matches Some((r, _)) ==> catalog_data(
            frame,
            settings,
            next,
            stream,
        ).pairs(destinations, files, map).contains(("Pages"@, Value::Ref(map[r@]))),
        container.outline matches Some((r, _)) ==> catalog_data(
            frame,
            settings,
            next,
            stream,
        ).pairs(destinations, files, map).contains(("Outlines"@, Value::Ref(map[r@]))),
        container.page_label_tree matches Some((r, _)) ==> catalog_data(
            frame,
            settings,
            next,
            stream,
        ).pairs(destinations, files, map).contains(("PageLabels"@, Value::Ref(map[r@]))),
        container.destination_profiles matches Some((r, _)) ==> catalog_data(
            frame,
            settings,
            next,
            stream,
        ).pairs(destinations, files, map).contains(("OutputIntents"@, Value::Ref(map[r@]))),
        container.struct_tree_root matches Some((r, _)) ==> catalog_data(
            frame,
            settings,
            next,
            stream,
        ).pairs(destinations, files, map).contains(("StructTreeRoot"@, Value::Ref(map[r@]))),
{
    let data = catalog_data(frame, settings, next, stream);
    let version = settings.configuration.version;
    let validator = settings.configuration.validator;
    let pairs = data.pairs(destinations, files, map);
    let start = seq![("Type"@, Value::Name("Catalog"@))];
    let a = start + ref_pairs("Pages"@, frame.refs.page_tree);
    let b = a + ref_pairs("Metadata"@, data.metadata_ref);
    let c = b + ref_pairs("PageLabels"@, frame.refs.page_label_tree);
    let d = c + ref_pairs("OutputIntents"@, frame.refs.destination_profiles);
    let e = d + language_pairs(language_of(frame.metadata));
    let f = e + structure_pairs(frame.refs.struct_tree_root, version);
    let g = f + viewer_pairs(
        validator.display_doc_title,
        direction_of(frame.metadata),
    );
    let h = g + layout_pairs(layout_of(frame.metadata), version);
    let k = h + ref_pairs("Outlines"@, frame.refs.outline);
    if let Some((r, _)) = container.page_tree {
        assert(pairs[start.len() as int] == ("Pages"@, Value::Ref(map[r@])));
    }
    if let Some((r, _)) = container.page_label_tree {
        assert(pairs[b.len() as int] == ("PageLabels"@, Value::Ref(map[r@])));
    }
    if let Some((r, _)) = container.destination_profiles {
        assert(pairs[c.len() as int] == ("OutputIntents"@, Value::Ref(map[r@])));
    }
    if let Some((r, _)) = container.struct_tree_root {
        assert(pairs[e.len() as int] == ("StructTreeRoot"@, Value::Ref(map[r@])));
    }
    if let Some((r, _)) = container.outline {
        assert(pairs[h.len() as int] == ("Outlines"@, Value::Ref(map[r@])));
    }
}

/// Whether the document information is written in order: where the numbers in
/// the file grow up to the next number, they do so afterwards, too.
pub open spec fn info_keeps_order<P: DocumentParts>(parts: &P) -> bool {
    forall|
        metadata: &Metadata,
        configuration: Configuration,
        next: Ref,
        pdf: Pdf,
        reply: (Ref, Pdf),
    | #[trigger]
        call_ensures(
            P::serialize_document_info,
            (parts, metadata, configuration, next, pdf),
            reply,
        ) && 0 < next@ && growing(pdf_document(pdf).objects) && within(
            pdf_document(pdf).objects,
            next@ - 1,
        ) ==> growing(pdf_document(reply.1).objects) && within(
            pdf_document(reply.1).objects,
            reply.0@ - 1,
        ) && 0 < reply.0@
}

/// In a finished document the numbers grow from the first object to the last,
/// if the document information is written in order.
pub proof fn law_finished_numbers_grow<P: DocumentParts>(
    parts: &P,
    container: ChunkContainer,
    before: SerializeContext,
    after: SerializeContext,
    pdf: Pdf,
)
    requires
        container.finishable(before),
        finished(parts, container, before, after, pdf),
        container.outcome(before.cur_ref@ as int).error is None,
        container.metadata is Some ==> info_keeps_order(parts),
    ensures
        growing(pdf_document(pdf).objects),
{
    let steps = choose|steps: Steps| #[trigger]
        steps.of(parts, container, before) && steps.lead_to(
            before,
            pdf,
            after.validation_errors@,
        );
    let contents = container.outcome(before.cur_ref@ as int).contents;
    law_numbers_in_the_file_grow(before.settings, contents);
    law_numbers_at_the_end_grow(
        pdf_document(pdf),
        pdf_document(steps.informed.1),
        steps.body.frame,
        before.settings,
        steps.informed.0,
        steps.ids,
        steps.packet,
        named(before.global_objects.named_destinations@),
        before.global_objects.embedded_files@,
    );
}

/// Whether the document information is only appended: the file keeps all that
/// it held, and the new objects take growing numbers from the next one on.
pub open spec fn info_appends<P: DocumentParts>(parts: &P) -> bool {
    forall|
        metadata: &Metadata,
        configuration: Configuration,
        next: Ref,
        pdf: Pdf,
        reply: (Ref, Pdf),
    | #[trigger]
        call_ensures(
            P::serialize_document_info,
            (parts, metadata, configuration, next, pdf),
            reply,
        ) ==> is_appended(pdf_document(pdf), next@ as int, pdf_document(reply.1), reply.0@ as int)
}

/// Whether `after` is the document with objects appended that have growing
/// numbers, from `next` on and before `free`.
pub open spec fn is_appended(document: Document, next: int, after: Document, free: int) -> bool {
    &&& after.pretty == document.pretty
    &&& after.header == document.header
    &&& document.objects.is_prefix_of(after.objects)
    &&& growing(after.objects.skip(document.objects.len() as int))
    &&& next <= free
    &&& forall|i: int|
        document.objects.len() <= i < after.objects.len() ==> next <= (
        #[trigger] after.objects[i]).0 < free
}

/// Objects with growing numbers that are appended keep the order of the file.
proof fn lemma_appended_keeps_order(document: Document, next: int, after: Document, free: int)
    requires
        is_appended(document, next, after, free),
        growing(document.objects),
        within(document.objects, next - 1),
        0 < next,
    ensures
        growing(after.objects),
        within(after.objects, free - 1),
{
    let old_len = document.objects.len() as int;
    let added = after.objects.skip(old_len);
    assert forall|i: int| 0 <= i < old_len implies after.objects[i] == document.objects[i] by {}
    assert forall|i: int, j: int| 0 <= i < j < after.objects.len() implies after.objects[i].0
        < after.objects[j].0 by {
        if j >= old_len && i >= old_len {
            assert(added[i - old_len].0 < added[j - old_len].0);
        } else if j >= old_len {
            assert(1 <= document.objects[i].0 <= next - 1);
        } else {
            assert(document.objects[i].0 < document.objects[j].0);
        }
    }
    assert forall|i: int| 0 <= i < after.objects.len() implies 1 <= (#[trigger] after.objects[i]).0
        <= free - 1 by {
        if i < old_len {
            assert(1 <= document.objects[i].0 <= next - 1);
        }
    }
}

/// Document information that is only appended is written in order.
pub proof fn law_appended_information_keeps_order<P: DocumentParts>(parts: &P)
    requires
        info_appends(parts),
    ensures
        info_keeps_order(parts),
{
    assert forall|
        metadata: &Metadata,
        configuration: Configuration,
        next: Ref,
        pdf: Pdf,
        reply: (Ref, Pdf),
    | #[trigger]
        call_ensures(
            P::serialize_document_info,
            (parts, metadata, configuration, next, pdf),
            reply,
        ) && 0 < next@ && growing(pdf_document(pdf).objects) && within(
            pdf_document(pdf).objects,
            next@ - 1,
        ) implies growing(pdf_document(reply.1).objects) && within(
        pdf_document(reply.1).objects,
        reply.0@ - 1,
    ) && 0 < reply.0@ by {
        lemma_appended_keeps_order(
            pdf_document(pdf),
            next@ as int,
            pdf_document(reply.1),
            reply.0@ as int,
        );
    }
}

/// What a file holds, where it was made in these steps and the document
/// information is only appended: first the objects of the chunks, after them
/// those of the document information, after them the metadata stream and last
/// the catalog, where there are such. The numbers grow over the whole file, and
/// those behind the chunks are greater than the number of objects in them.
pub proof fn law_steps_stand_in_order<P: DocumentParts>(
    parts: &P,
    container: ChunkContainer,
    sc: SerializeContext,
    steps: Steps,
    pdf: Pdf,
    errors: Seq<ValidationError>,
)
    requires
        steps.of(parts, container, sc),
        steps.lead_to(sc, pdf, errors),
        numberable(container.outcome(sc.cur_ref@ as int).contents),
        container.metadata is Some ==> info_appends(parts),
    ensures
        ({
            let contents = container.outcome(sc.cur_ref@ as int).contents;
            let body = body_document(sc.settings, contents);
            let info = pdf_document(steps.informed.1);
            let file = pdf_document(pdf);
            let any = container.has_catalog();
            &&& file.header == opened(sc.settings).header
            &&& body.objects.is_prefix_of(info.objects)
            &&& container.metadata is None ==> info.objects == body.objects
            &&& info.objects.is_prefix_of(file.objects)
            &&& file.objects.len() == info.objects.len() + numbers_at_end(
                any,
                sc.settings.xmp_metadata,
            )
            &&& growing(file.objects)
            &&& forall|i: int|
                body.objects.len() <= i < file.objects.len() ==> all_numbers(contents).len() < (
                #[trigger] file.objects[i]).0
            &&& any && sc.settings.xmp_metadata ==> {
                let stream = file.objects[file.objects.len() - 2];
                steps.packet is Some && stream.1 == metadata_text(
                    stream.0,
                    encode_utf8(steps.packet->0@),
                    true,
                )
            }
            &&& any ==> file.catalog == Some(file.objects.last().0)
        }),
{
    let contents = container.outcome(sc.cur_ref@ as int).contents;
    let body = body_document(sc.settings, contents);
    let info = pdf_document(steps.informed.1);
    let file = pdf_document(pdf);
    let count = all_numbers(contents).len() as int;
    law_numbers_in_the_file_grow(sc.settings, contents);
    assert(is_appended(body, count + 1, info, steps.informed.0@ as int)) by {
        if container.metadata is None {
            assert(info.objects.skip(body.objects.len() as int) =~= Seq::<Object>::empty());
        }
    }
    lemma_appended_keeps_order(body, count + 1, info, steps.informed.0@ as int);
    law_numbers_at_the_end_grow(
        file,
        info,
        steps.body.frame,
        sc.settings,
        steps.informed.0,
        steps.ids,
        steps.packet,
        named(sc.global_objects.named_destinations@),
        sc.global_objects.embedded_files@,
    );
    law_catalog_where_it_has_a_part(
        file,
        info,
        steps.body.frame,
        sc.settings,
        steps.informed.0,
        steps.ids,
        steps.packet,
        named(sc.global_objects.named_destinations@),
        sc.global_objects.embedded_files@,
    );
    assert forall|i: int| body.objects.len() <= i < file.objects.len() implies count < (
    #[trigger] file.objects[i]).0 by {
        if i < info.objects.len() {
            assert(file.objects[i] == info.objects[i]);
        }
    }
}

/// A finished file holds the chunks: every object of every chunk once, in the
/// order of the visit, under the number that one map gives for its number, with
/// every reference in it renumbered by the same map, which gives different
/// numbers to different objects. Nothing else stands between them. Where all
/// objects are complete, the file has the numbers from 1 on without gaps as far
/// as the chunks reach. What follows has greater numbers, and the catalog, if
/// there is one, has the greatest.
pub proof fn law_finished_file_holds_the_chunks<P: DocumentParts>(
    parts: &P,
    container: ChunkContainer,
    before: SerializeContext,
    after: SerializeContext,
    pdf: Pdf,
)
    requires
        container.finishable(before),
        finished(parts, container, before, after, pdf),
        container.outcome(before.cur_ref@ as int).error is None,
        container.metadata is Some ==> info_appends(parts),
    ensures
        ({
            let contents = container.outcome(before.cur_ref@ as int).contents;
            let objects = all_objects(contents);
            let map = renumbering(contents);
            let body = body_document(before.settings, contents);
            let file = pdf_document(pdf);
            &&& body.objects == renumbered(objects, map, true)
            &&& body.objects.is_prefix_of(file.objects)
            &&& forall|a: i32, b: i32|
                map.contains_key(a) && map.contains_key(b) && a != b ==> #[trigger] map[a]
                    != #[trigger] map[b]
            &&& forall|i: int| 0 <= i < objects.len() ==> map[(#[trigger] objects[i]).0] == i + 1
            &&& all_complete(objects, map, true) ==> {
                &&& body.objects.len() == objects.len()
                &&& forall|i: int|
                    0 <= i < objects.len() ==> (#[trigger] file.objects[i]).0 == i + 1 && Some(
                        file.objects[i].1,
                    ) == renumbered_object(objects[i].1, (i + 1) as i32, map, true)
            }
            &&& growing(file.objects)
            &&& forall|i: int|
                body.objects.len() <= i < file.objects.len() ==> objects.len() < (
                #[trigger] file.objects[i]).0
            &&& container.has_catalog() ==> file.catalog == Some(file.objects.last().0)
        }),
{
    let steps = choose|steps: Steps| #[trigger]
        steps.of(parts, container, before) && steps.lead_to(
            before,
            pdf,
            after.validation_errors@,
        );
    let contents = container.outcome(before.cur_ref@ as int).contents;
    let objects = all_objects(contents);
    let map = renumbering(contents);
    let body = body_document(before.settings, contents);
    let file = pdf_document(pdf);
    law_steps_stand_in_order(parts, container, before, steps, pdf, after.validation_errors@);
    law_renumbering_is_consecutive(contents);
    law_numbers_in_the_file_grow(before.settings, contents);
    assert(body.objects =~= renumbered(objects, map, true));
    assert(body.objects.is_prefix_of(file.objects)) by {
        assert forall|i: int| 0 <= i < body.objects.len() implies body.objects[i]
            == file.objects[i] by {
            assert(body.objects[i] == pdf_document(steps.informed.1).objects[i]);
        }
        assert(body.objects =~= file.objects.subrange(0, body.objects.len() as int));
    }
    assert(objects.len() == all_numbers(contents).len());
    assert forall|i: int| body.objects.len() <= i < file.objects.len() implies objects.len() < (
    #[trigger] file.objects[i]).0 by {}
    assert forall|i: int| 0 <= i < objects.len() implies map[(#[trigger] objects[i]).0] == i
        + 1 by {
        assert(all_numbers(contents)[i] == objects[i].0);
    }
    if all_complete(objects, map, true) {
        lemma_renumbered_texts(objects, map, true);
        assert forall|i: int| 0 <= i < objects.len() implies (#[trigger] file.objects[i]).0 == i + 1
            && Some(file.objects[i].1) == renumbered_object(
            objects[i].1,
            (i + 1) as i32,
            map,
            true,
        ) by {
            assert(map[objects[i].0] == i + 1);
            assert(file.objects[i] == body.objects[i]);
        }
    }
}

/// Complete objects are renumbered one for one.
proof fn lemma_renumbered_texts(objects: Seq<Object>, map: Map<i32, i32>, pretty: bool)
    requires
        all_complete(objects, map, pretty),
    ensures
        renumbered(objects, map, pretty).len() == objects.len(),
        forall|i: int|
            0 <= i < objects.len() ==> Some((#[trigger] renumbered(objects, map, pretty)[i]).1)
                == renumbered_object(objects[i].1, map[objects[i].0], map, pretty),
    decreases objects.len(),
{
    if objects.len() > 0 {
        let before = objects.drop_last();
        assert forall|i: int| 0 <= i < before.len() implies renumbered_object(
            (#[trigger] before[i]).1,
            map[before[i].0],
            map,
            pretty,
        ) is Some by {
            assert(objects[i] == before[i]);
        }
        lemma_renumbered_texts(before, map, pretty);
        let last = objects[objects.len() - 1];
        assert(renumbered_object(last.1, map[last.0], map, pretty) is Some);
    }
}

/// The order of the entries by their names, and by their references where the
/// names are the same.
spec fn entry_leq(a: NameEntry, b: NameEntry) -> bool {
    if a.0 == b.0 {
        a.1@ <= b.1@
    } else {
        lexical_leq(a.0, b.0)
    }
}

proof fn lemma_entry_leq_is_total_ordering()
    ensures
        total_ordering(|a: NameEntry, b: NameEntry| entry_leq(a, b)),
{
    let leq = |a: NameEntry, b: NameEntry| entry_leq(a, b);
    assert forall|a: NameEntry, b: NameEntry| #[trigger] leq(a, b) && #[trigger] leq(b, a) implies a
        == b by {
        if a.0 != b.0 {
            lemma_lexical_antisymmetric(a.0, b.0);
        } else {
            lemma_ref_is_its_number(a.1, b.1);
        }
    }
    assert forall|a: NameEntry, b: NameEntry, c: NameEntry| #[trigger]
        leq(a, b) && #[trigger] leq(b, c) implies leq(a, c) by {
        if a.0 == b.0 || b.0 == c.0 {
        } else {
            lemma_lexical_transitive(a.0, b.0, c.0);
            if a.0 == c.0 {
                lemma_lexical_antisymmetric(a.0, b.0);
            }
        }
    }
    assert forall|a: NameEntry, b: NameEntry| #[trigger] leq(a, b) || #[trigger] leq(b, a) by {
        lemma_lexical_total(a.0, b.0);
    }
}

/// Whether no name occurs twice.
pub open spec fn names_distinct(entries: Seq<NameEntry>) -> bool {
    forall|i: int, j: int|
        0 <= i < entries.len() && 0 <= j < entries.len() && i != j ==> entries[i].0 != entries[j].0
}

/// An arrangement of entries has their names.
proof fn lemma_arranged_names_distinct(sorted: Seq<NameEntry>, entries: Seq<NameEntry>)
    requires
        arranged(sorted, entries),
        names_distinct(entries),
    ensures
        names_distinct(sorted),
{
    broadcast use vstd::seq_lib::group_to_multiset_ensures;

    assert(entries.no_duplicates());
    entries.lemma_multiset_has_no_duplicates();
    sorted.lemma_multiset_has_no_duplicates_conv();
    assert forall|i: int, j: int|
        0 <= i < sorted.len() && 0 <= j < sorted.len() && i != j implies sorted[i].0
        != sorted[j].0 by {
        assert(sorted.to_multiset().contains(sorted[i]));
        assert(sorted.to_multiset().contains(sorted[j]));
        assert(entries.contains(sorted[i]));
        assert(entries.contains(sorted[j]));
        let a = entries.index_of(sorted[i]);
        let b = entries.index_of(sorted[j]);
        assert(entries[a] == sorted[i] && entries[b] == sorted[j]);
        assert(sorted[i] != sorted[j]);
        assert(a != b);
    }
}

/// Where no name occurs twice, there is only one order in which the catalog can
/// list the named destinations. So the file does not depend on the order in
/// which they were collected.
pub proof fn law_one_arrangement(a: Seq<NameEntry>, b: Seq<NameEntry>, entries: Seq<NameEntry>)
    requires
        arranged(a, entries),
        arranged(b, entries),
        names_distinct(entries),
    ensures
        a == b,
{
    lemma_arranged_names_distinct(a, entries);
    lemma_arranged_names_distinct(b, entries);
    let leq = |x: NameEntry, y: NameEntry| entry_leq(x, y);
    lemma_entry_leq_is_total_ordering();
    assert forall|i: int, j: int| 0 <= i < j < a.len() implies #[trigger] leq(a[i], a[j]) by {
        assert(lexical_leq(a[i].0, a[j].0));
    }
    assert forall|i: int, j: int| 0 <= i < j < b.len() implies #[trigger] leq(b[i], b[j]) by {
        assert(lexical_leq(b[i].0, b[j].0));
    }
    vstd::seq_lib::lemma_sorted_unique(a, b, leq);
}

/// A shorter name is listed before a longer one that begins with it.
pub proof fn law_shorter_names_first(sorted: Seq<NameEntry>, i: int, j: int)
    requires
        ascending(sorted),
        0 <= i < sorted.len(),
        0 <= j < sorted.len(),
        sorted[i].0.len() < sorted[j].0.len(),
        sorted[i].0.is_prefix_of(sorted[j].0),
    ensures
        i < j,
{
    let short = sorted[i].0;
    let long = sorted[j].0;
    assert(long =~= short + long.skip(short.len() as int));
    lemma_lexical_prefix(short, long.skip(short.len() as int));
    if j <= i {
        assert(lexical_leq(sorted[j].0, sorted[i].0));
        lemma_lexical_antisymmetric(short, long);
    }
}

/// A document with a title and a language has no shortcomings but those that
/// were found before, or by what describes its metadata.
pub proof fn law_no_shortcomings_of_a_described_document(
    steps: Steps,
    sc: SerializeContext,
    pdf: Pdf,
    errors: Seq<ValidationError>,
)
    requires
        steps.lead_to(sc, pdf, errors),
        !spec_missing_title(steps.body.frame.metadata),
        language_of(steps.body.frame.metadata) is Some,
    ensures
        errors == sc.validation_errors@ + steps.description.errors@,
{
    assert(errors =~= sc.validation_errors@ + steps.description.errors@);
}

/// A missing title is always noted down. A missing language is noted down where
/// there is a catalog.
pub proof fn law_shortcomings_are_noted(
    steps: Steps,
    sc: SerializeContext,
    pdf: Pdf,
    errors: Seq<ValidationError>,
)
    requires
        steps.lead_to(sc, pdf, errors),
    ensures
        spec_missing_title(steps.body.frame.metadata) ==> errors.contains(
            ValidationError::NoDocumentTitle,
        ),
        language_of(steps.body.frame.metadata) is None && steps.body.frame.refs.spec_any()
            ==> errors.contains(ValidationError::NoDocumentLanguage),
{
    if spec_missing_title(steps.body.frame.metadata) {
        assert(errors[sc.validation_errors@.len() as int] == ValidationError::NoDocumentTitle);
    }
    if language_of(steps.body.frame.metadata) is None && steps.body.frame.refs.spec_any() {
        assert(errors[errors.len() - 1] == ValidationError::NoDocumentLanguage);
    }
}

/// Two versions of a document share their identifier, however much their
/// chunks differ: where the metadata gives an identifier, or a title and
/// authors, the identifier is made from these and from the version of the
/// format alone, and is the same if equal sources have equal identifiers.
pub proof fn law_versions_share_their_identifier<P: DocumentParts>(
    parts: &P,
    a: Steps,
    first: ChunkContainer,
    first_sc: SerializeContext,
    b: Steps,
    second: ChunkContainer,
    second_sc: SerializeContext,
)
    requires
        a.of(parts, first, first_sc),
        b.of(parts, second, second_sc),
        first.metadata == second.metadata,
        first_sc.settings.configuration.version == second_sc.settings.configuration.version,
        spec_document_id_source(
            &first.metadata,
            first_sc.settings.configuration.version,
        ) is Some,
        forall|source: IdSource, x: String, y: String|
            #[trigger] call_ensures(P::stable_hash_base64, (parts, source), x)
                && #[trigger] call_ensures(P::stable_hash_base64, (parts, source), y) ==> x == y,
    ensures
        a.ids.document == b.ids.document,
{
}

/// Where the metadata gives neither an identifier nor a title and authors, the
/// identifier of the document is that of this version of it.
pub proof fn law_identifier_of_an_unnamed_document<P: DocumentParts>(
    parts: &P,
    steps: Steps,
    container: ChunkContainer,
    sc: SerializeContext,
)
    requires
        steps.of(parts, container, sc),
        container.metadata matches Some(meta) ==> meta.document_id is None && (meta.title is None
            || meta.authors is None),
    ensures
        steps.ids.document == steps.ids.instance,
{
}

/// The objects of an embedded PDF that were given references before keep them.
/// All others that are met get new ones, from `next` on, and no two of them the
/// same.
pub proof fn law_embedded_objects_get_new_numbers(met: Seq<i32>, roots: Map<i32, i32>, next: int)
    requires
        0 < next,
        allotted(met, roots, next).1 <= i32::MAX,
    ensures
        next <= allotted(met, roots, next).1,
        forall|k: i32| #[trigger]
            roots.contains_key(k) ==> allotted(met, roots, next).0.contains_key(k) && allotted(
                met,
                roots,
                next,
            ).0[k] == roots[k],
        forall|k: i32|
            !roots.contains_key(k) ==> (#[trigger] allotted(met, roots, next).0.contains_key(k)
                <==> met.contains(k)),
        forall|k: i32|
            !roots.contains_key(k) && met.contains(k) ==> next <= #[trigger] allotted(
                met,
                roots,
                next,
            ).0[k] < allotted(met, roots, next).1,
        forall|k: i32, l: i32|
            !roots.contains_key(k) && met.contains(k) && !roots.contains_key(l) && met.contains(l)
                && k != l ==> #[trigger] allotted(met, roots, next).0[k] != #[trigger] allotted(
                met,
                roots,
                next,
            ).0[l],
    decreases met.len(),
{
    if met.len() > 0 {
        let before = met.drop_last();
        assert forall|k: i32| met.contains(k) implies before.contains(k) || k == met.last() by {
            let i = met.index_of(k);
            if i < before.len() {
                assert(before[i] == k);
            }
        }
        assert forall|k: i32| before.contains(k) implies met.contains(k) by {
            assert(met[before.index_of(k)] == k);
        }
        assert(met.contains(met.last())) by {
            assert(met[met.len() - 1] == met.last());
        }
        law_embedded_objects_get_new_numbers(before, roots, next);
    }
}

/// The header is as long as ever, and has the two digits of the version.
pub proof fn law_header_has_the_version(settings: SerializeSettings)
    ensures
        opened(settings).header.len() == 16,
        opened(settings).header[5] == 0x30 + settings.configuration.version.spec_numbers().0,
        opened(settings).header[6] == 0x2E,
        opened(settings).header[7] == 0x30 + settings.configuration.version.spec_numbers().1,
{
}

/// The header has ASCII characters only if and only if that was asked for and
/// the standard does not require the file to be marked as binary.
pub proof fn law_ascii_header(settings: SerializeSettings)
    ensures
        (forall|i: int|
            0 <= i < opened(settings).header.len() ==> (#[trigger] opened(settings).header[i])
                < 0x80) <==> settings.ascii_compatible
            && !settings.configuration.validator.binary_header,
{
    let header = opened(settings).header;
    if !(settings.ascii_compatible && !settings.configuration.validator.binary_header) {
        assert(header[10] == 0x80);
    }
}

/// Visits that come to nothing come to nothing together.
proof fn lemma_nothing_chained(parts: Seq<spec_fn(int) -> Outcome>, next: int)
    requires
        forall|i: int, n: int|
            0 <= i < parts.len() ==> #[trigger] parts[i](n) == Outcome::nothing(n),
    ensures
        chained(parts, next) == Outcome::nothing(next),
    decreases parts.len(),
{
    if parts.len() > 0 {
        let before = parts.drop_last();
        assert forall|i: int, n: int| 0 <= i < before.len() implies #[trigger] before[i](n)
            == Outcome::nothing(n) by {
            assert(parts[i](n) == Outcome::nothing(n));
        }
        lemma_nothing_chained(before, next);
        assert(parts[parts.len() - 1](next) == Outcome::nothing(next));
        assert(chained(parts, next).contents =~= Seq::<Content>::empty());
    }
}

/// A container without chunks can always be written, and gives no references
/// away.
pub proof fn law_empty_container(container: ChunkContainer, sc: SerializeContext)
    requires
        container.is_empty(),
    ensures
        container.outcome(sc.cur_ref@ as int) == Outcome::nothing(sc.cur_ref@ as int),
        container.finishable(sc),
{
    lemma_nothing_chained(container.parts(), sc.cur_ref@ as int);
    assert(all_numbers(Seq::<Content>::empty()) =~= Seq::<i32>::empty());
}

} // verus!
