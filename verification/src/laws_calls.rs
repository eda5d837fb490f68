//! What every call of the library's functions comes to, told by what is handed
//! to it and what it returns.

use pdf_writer::{Chunk, Pdf};
use std::collections::HashMap;
use vstd::prelude::*;
use vstd::utf8::encode_utf8;
use xmp_writer::XmpWriter;

use crate::body::open_file;
use crate::catalog::{with_catalog, write_catalog, CatalogData, CatalogRefs};
use crate::completion::overflow;
use crate::configure::{PdfVersion, ValidationError, Validator};
use crate::container::ChunkContainer;
use crate::deferred::Deferred;
use crate::description::add_common_properties;
use crate::destinations::{arranged, named, sorted_by_name, NameEntry, NamedDestination};
use crate::embedded_files::EmbeddedFiles;
use crate::embedded_pdf::EmbeddedPdfChunk;
use crate::error::{KrillaError, KrillaResult};
use crate::finish::{failed, finished, Steps};
use crate::identity::{document_id_source, missing_title, IdSource};
use crate::laws_catalog::{law_catalog_says_all, layout_name, says_all};
use crate::laws_files::{
    age, end_fits, has_a_part, law_body_of_a_file, law_common_properties, law_end_of_a_file_fits,
    law_finished_document_is_identified, law_finished_document_is_used_up, law_opened_file,
    law_success_is_owed_where_the_end_fits, leads_to, version_digits,
};
use crate::laws_names::{
    law_destinations_are_listed_by_their_bytes, law_files_are_listed_by_their_bytes,
    law_order_is_that_of_the_bytes, stands_before,
};
use crate::metadata::{Metadata, PageLayout, TextDirection};
use crate::model::{decimal, Document, Pair};
use crate::names::bytes_leq;
use crate::numbering::Numbering;
use crate::outside::chunk::as_numbers;
use crate::outside::pdf::pdf_document;
use crate::outside::writer::dictionary_text;
use crate::outside::xmp::{escaped, property, xmp_namespaces, xmp_text};
use crate::parts::DocumentParts;
use crate::reference::Ref;
use crate::serialize::{GlobalObjects, SerializeContext, SerializeSettings};
use crate::visit::{ChunkSink, Visit};

verus! {

/// A new container has no parts, no chunks and no metadata.
pub proof fn law_new_container(container: ChunkContainer)
    requires
        call_ensures(ChunkContainer::new, (), container),
    ensures
        container.page_tree is None,
        container.outline is None,
        container.page_label_tree is None,
        container.destination_profiles is None,
        container.struct_tree_root is None,
        container.struct_elements@.len() == 0,
        container.page_labels@.len() == 0,
        container.annotations@.len() == 0,
        container.fonts@.len() == 0,
        container.color_spaces@.len() == 0,
        container.icc_profiles@.len() == 0,
        container.destinations@.len() == 0,
        container.ext_g_states@.len() == 0,
        container.masks@.len() == 0,
        container.x_objects@.len() == 0,
        container.shading_functions@.len() == 0,
        container.patterns@.len() == 0,
        container.pages@.len() == 0,
        container.images@.len() == 0,
        container.embedded_files@.len() == 0,
        container.embedded_pdfs@.len() == 0,
        container.metadata is None,
{
}

/// A new context has the settings that it was made with, nothing noted down, and
/// gives the number 1 away first.
pub proof fn law_new_context(settings: SerializeSettings, sc: SerializeContext)
    requires
        call_ensures(SerializeContext::new, (settings,), sc),
    ensures
        sc.settings == settings,
        sc.global_objects.named_destinations@.len() == 0,
        sc.global_objects.embedded_files@.len() == 0,
        sc.validation_errors@.len() == 0,
        sc.cur_ref@ == 1,
{
}

/// A new embedded PDF has what it was made with, and remembers nothing.
pub proof fn law_new_embedded_pdf(
    chunk: Chunk,
    roots: HashMap<i32, Ref>,
    embedded: EmbeddedPdfChunk,
)
    requires
        call_ensures(EmbeddedPdfChunk::new, (chunk, roots), embedded),
    ensures
        embedded.original_chunk == chunk,
        embedded.root_ref_mappings == roots,
        embedded.new_chunk is None,
{
}

/// A value that was computed elsewhere is handed out as it arrived, and what is
/// done to it stays.
pub proof fn law_deferred_value<T>(
    value: T,
    made: Deferred<T>,
    asked: &mut Deferred<T>,
    got: &mut T,
)
    requires
        call_ensures(Deferred::<T>::new, (value,), made),
        call_ensures(Deferred::<T>::wait, (asked,), got),
    ensures
        made.value() == value,
        *old(got) == old(asked).value(),
        final(asked).value() == *final(got),
{
}

/// A reference has the number that it was made with, and is moved on by one.
pub proof fn law_references(id: i32, r: Ref, got: i32, moved: &mut Ref, previous: Ref)
    requires
        call_ensures(Ref::new, (id,), r),
        call_ensures(Ref::get, (r,), got),
        call_ensures(Ref::bump, (moved,), previous),
    ensures
        r@ == id,
        got == id,
        previous@ == old(moved)@,
        final(moved)@ == old(moved)@ + 1,
{
}

/// A context gives away the number that is next, and moves on by one. Nothing
/// else is changed.
pub proof fn law_new_reference(sc: &mut SerializeContext, r: Ref)
    requires
        call_ensures(SerializeContext::new_ref, (sc,), r),
    ensures
        r@ == old(sc).cur_ref@,
        final(sc).cur_ref@ == old(sc).cur_ref@ + 1,
        final(sc).settings == old(sc).settings,
        final(sc).global_objects == old(sc).global_objects,
        final(sc).validation_errors == old(sc).validation_errors,
{
}

/// A shortcoming is noted down behind those from before. Nothing else is
/// changed.
pub proof fn law_shortcoming_is_noted(sc: &mut SerializeContext, error: ValidationError)
    requires
        call_ensures(SerializeContext::register_validation_error, (sc, error), ()),
    ensures
        final(sc).validation_errors@ == old(sc).validation_errors@ + seq![error],
        final(sc).settings == old(sc).settings,
        final(sc).global_objects == old(sc).global_objects,
        final(sc).cur_ref == old(sc).cur_ref,
{
    assert(old(sc).validation_errors@.push(error) =~= old(sc).validation_errors@ + seq![error]);
}

/// Shortcomings are noted down behind those from before, all of them and in
/// their order. Nothing else is changed.
pub proof fn law_shortcomings_are_registered(
    sc: &mut SerializeContext,
    errors: Vec<ValidationError>,
)
    requires
        call_ensures(SerializeContext::register_validation_errors, (sc, errors), ()),
    ensures
        final(sc).validation_errors@ == old(sc).validation_errors@ + errors@,
        final(sc).settings == old(sc).settings,
        final(sc).global_objects == old(sc).global_objects,
        final(sc).cur_ref == old(sc).cur_ref,
{
}

/// The named destinations and the embedded files are handed out as they are, and
/// none are left. The one leaves the other alone.
pub proof fn law_global_objects_are_taken(
    one: &mut GlobalObjects,
    destinations: Vec<(NamedDestination, Ref)>,
    other: &mut GlobalObjects,
    files: EmbeddedFiles,
)
    requires
        call_ensures(GlobalObjects::take_named_destinations, (one,), destinations),
        call_ensures(GlobalObjects::take_embedded_files, (other,), files),
    ensures
        destinations == old(one).named_destinations,
        final(one).named_destinations@.len() == 0,
        final(one).embedded_files == old(one).embedded_files,
        files == old(other).embedded_files,
        final(other).embedded_files@.len() == 0,
        final(other).named_destinations == old(other).named_destinations,
{
}

/// The embedded files start out as none, are counted as many as they are, and
/// are handed out with none left. Each is found under its place, by the bytes of
/// its name.
pub proof fn law_embedded_files_are_kept(
    made: EmbeddedFiles,
    files: &EmbeddedFiles,
    len: usize,
    i: usize,
    entry: &(String, Ref),
    from: &mut EmbeddedFiles,
    taken: EmbeddedFiles,
)
    requires
        call_ensures(EmbeddedFiles::new, (), made),
        call_ensures(EmbeddedFiles::len, (files,), len),
        call_ensures(EmbeddedFiles::get, (files, i), entry),
        call_ensures(EmbeddedFiles::take, (from,), taken),
    ensures
        made@.len() == 0,
        len == files@.len(),
        encode_utf8(entry.0@) == files@[i as int].0,
        entry.1 == files@[i as int].1,
        taken == *old(from),
        final(from)@.len() == 0,
{
}

/// A file that is added is there afterwards, under the bytes of its name and with
/// its reference. One of the same name is gone, and all others are still there.
/// The files stand in the order of the bytes of their names, and no name occurs
/// twice.
pub proof fn law_file_is_added(files: &mut EmbeddedFiles, name: String, r: Ref)
    requires
        call_ensures(EmbeddedFiles::insert, (files, name, r), ()),
    ensures
        final(files)@.contains((encode_utf8(name@), r)),
        forall|other: NameEntry| #[trigger]
            final(files)@.contains(other) && other != (encode_utf8(name@), r) ==> other.0
                != encode_utf8(name@) && old(files)@.contains(other),
        forall|other: NameEntry| #[trigger]
            old(files)@.contains(other) && other.0 != encode_utf8(name@)
                ==> final(files)@.contains(other),
        forall|i: int, j: int|
            0 <= i < j < final(files)@.len() ==> #[trigger] stands_before(
                final(files)@[i].0,
                final(files)@[j].0,
            ) && final(files)@[i].0 != final(files)@[j].0,
{
    law_files_are_listed_by_their_bytes(final(files)@);
}

/// Two strings are told to be in order exactly where the first has the smaller
/// byte where they first differ, or is the beginning of the second.
pub proof fn law_names_are_compared(a: &[u8], b: &[u8], leq: bool)
    requires
        call_ensures(bytes_leq, (a, b), leq),
    ensures
        leq <==> stands_before(a@, b@),
{
    law_order_is_that_of_the_bytes(a@, b@);
}

/// The places of the destinations are told in the order of the bytes of their
/// names, each of them once.
pub proof fn law_destinations_are_sorted(
    destinations: &Vec<(NamedDestination, Ref)>,
    order: Vec<usize>,
)
    requires
        call_ensures(sorted_by_name, (destinations,), order),
    ensures
        order@.len() == destinations@.len(),
        forall|i: int| 0 <= i < order@.len() ==> #[trigger] order@[i] < destinations@.len(),
        forall|i: int, j: int|
            0 <= i < j < order@.len() ==> stands_before(
                encode_utf8(destinations@[(#[trigger] order@[i]) as int].0.name@),
                encode_utf8(destinations@[(#[trigger] order@[j]) as int].0.name@),
            ),
        order@.map_values(
            |i: usize|
                (encode_utf8(destinations@[i as int].0.name@), destinations@[i as int].1),
        ).to_multiset() == destinations@.map_values(
            |d: (NamedDestination, Ref)| (encode_utf8(d.0.name@), d.1),
        ).to_multiset(),
{
    let sorted = order@.map_values(|i: usize| named(destinations@)[i as int]);
    law_destinations_are_listed_by_their_bytes(sorted, destinations@);
    assert(sorted =~= order@.map_values(
        |i: usize| (encode_utf8(destinations@[i as int].0.name@), destinations@[i as int].1),
    ));
    assert forall|i: int, j: int| 0 <= i < j < order@.len() implies stands_before(
        encode_utf8(destinations@[(#[trigger] order@[i]) as int].0.name@),
        encode_utf8(destinations@[(#[trigger] order@[j]) as int].0.name@),
    ) by {
        assert(stands_before(sorted[i].0, sorted[j].0));
    }
}

/// A version tells its numbers, and whether another one is not newer.
pub proof fn law_versions(a: PdfVersion, b: PdfVersion, numbers: (u8, u8), at_least: bool)
    requires
        call_ensures(PdfVersion::numbers, (a,), numbers),
        call_ensures(PdfVersion::at_least, (a, b), at_least),
    ensures
        (0x30 + numbers.0, 0x30 + numbers.1) == (
            version_digits(a).0 as int,
            version_digits(a).1 as int,
        ),
        at_least <==> age(a) >= age(b),
{
}

/// What a standard asks for is what it says.
pub proof fn law_standards(
    validator: Validator,
    marked: bool,
    titled: bool,
    absent: bool,
    present: bool,
    associated: bool,
)
    requires
        call_ensures(Validator::requires_binary_header, (validator,), marked),
        call_ensures(Validator::requires_display_doc_title, (validator,), titled),
        call_ensures(Validator::write_embedded_files, (validator, true), absent),
        call_ensures(Validator::write_embedded_files, (validator, false), present),
        call_ensures(Validator::allows_associated_files, (validator,), associated),
    ensures
        marked == validator.binary_header,
        titled == validator.display_doc_title,
        absent == validator.list_no_files,
        present == validator.list_files,
        associated == validator.associated_files,
{
}

/// The settings tell their version and their standard, and a context tells its
/// settings.
pub proof fn law_settings(
    sc: &SerializeContext,
    settings: SerializeSettings,
    version: PdfVersion,
    validator: Validator,
)
    requires
        call_ensures(SerializeContext::serialize_settings, (sc,), settings),
        call_ensures(SerializeSettings::pdf_version, (settings,), version),
        call_ensures(SerializeSettings::validator, (settings,), validator),
    ensures
        settings == sc.settings,
        version == sc.settings.configuration.version,
        validator == sc.settings.configuration.validator,
{
}

/// The names of the directions and of the layouts.
pub proof fn law_names_in_the_format(
    direction: TextDirection,
    way: &'static str,
    layout: PageLayout,
    name: &'static str,
)
    requires
        call_ensures(TextDirection::to_pdf, (direction,), way),
        call_ensures(PageLayout::to_pdf, (layout,), name),
    ensures
        way@ == (if direction == TextDirection::LeftToRight {
            "L2R"@
        } else {
            "R2L"@
        }),
        name@ == layout_name(layout),
{
}

/// A title is missing where there is no metadata, or none in it.
pub proof fn law_missing_title(metadata: &Option<Metadata>, missing: bool)
    requires
        call_ensures(missing_title, (metadata,), missing),
    ensures
        missing <==> !(*metadata is Some && metadata->0.title is Some),
{
}

/// What the identifier of a document is made from.
pub proof fn law_identifier_is_made_from<'a>(
    metadata: &'a Option<Metadata>,
    version: PdfVersion,
    source: Option<IdSource<'a>>,
)
    requires
        call_ensures(document_id_source, (metadata, version), source),
    ensures
        *metadata is None ==> source is None,
        *metadata is Some ==> {
            let meta = metadata->0;
            &&& meta.document_id is Some ==> source == Some(
                IdSource::DocumentId(version, &meta.document_id->0),
            )
            &&& meta.document_id is None && meta.title is Some && meta.authors is Some ==> source
                == Some(IdSource::TitleAndAuthors(version, &meta.title, &meta.authors))
            &&& meta.document_id is None && !(meta.title is Some && meta.authors is Some)
                ==> source is None
        },
{
}

/// Whether one of the five parts is there.
pub proof fn law_any_part(refs: CatalogRefs, any: bool)
    requires
        call_ensures(CatalogRefs::any, (refs,), any),
    ensures
        any <==> !(refs.page_tree is None && refs.outline is None && refs.page_label_tree is None
            && refs.destination_profiles is None && refs.struct_tree_root is None),
{
}

/// What keeps the end of a file from being written: first that there are not
/// enough numbers, and then that the metadata is too long.
pub proof fn law_overflow(
    any: bool,
    next: Ref,
    text: &Option<String>,
    error: Option<KrillaError>,
)
    requires
        call_ensures(overflow, (any, next, text), error),
    ensures
        ({
            let wanted = if any && *text is Some {
                2int
            } else if any {
                1
            } else {
                0
            };
            let long = *text is Some && encode_utf8(text->0@).len() > i32::MAX;
            &&& error == Some(KrillaError::RefsExhausted) <==> next@ + wanted > i32::MAX
            &&& error == Some(KrillaError::MetadataTooLong) <==> next@ + wanted <= i32::MAX && long
            &&& error is None <==> next@ + wanted <= i32::MAX && !long
        }),
{
}

/// A file that is opened has its header and nothing else, however much memory is
/// reserved for it.
pub proof fn law_file_is_opened(capacity: usize, settings: SerializeSettings, pdf: Pdf)
    requires
        call_ensures(open_file, (capacity, settings), pdf),
    ensures
        ({
            let file = pdf_document(pdf);
            let (major, minor) = version_digits(settings.configuration.version);
            let mark: u8 = if settings.ascii_compatible
                && !settings.configuration.validator.binary_header {
                0x41
            } else {
                0x80
            };
            &&& file.header == seq![
                0x25u8, 0x50u8, 0x44u8, 0x46u8, 0x2Du8, major, 0x2Eu8, minor, 0x0Au8,
                0x25u8, mark, mark, mark, mark, 0x0Au8, 0x0Au8,
            ]
            &&& file.pretty
            &&& file.objects.len() == 0
            &&& file.catalog is None
            &&& file.info is None
            &&& file.file_id is None
        }),
{
    law_opened_file(settings);
}

/// The version is put into the header of a file, and nothing else is changed.
pub proof fn law_version_is_set(version: PdfVersion, pdf: &mut Pdf)
    requires
        call_ensures(PdfVersion::set_version, (version, pdf), ()),
        8 <= pdf_document(*old(pdf)).header.len(),
    ensures
        ({
            let before = pdf_document(*old(pdf));
            let after = pdf_document(*final(pdf));
            &&& after.header.len() == before.header.len()
            &&& after.header[5] == version_digits(version).0
            &&& after.header[7] == version_digits(version).1
            &&& forall|i: int|
                0 <= i < before.header.len() && i != 5 && i != 7 ==> #[trigger] after.header[i]
                    == before.header[i]
            &&& after.pretty == before.pretty
            &&& after.objects == before.objects
            &&& after.catalog == before.catalog
            &&& after.info == before.info
            &&& after.file_id == before.file_id
        }),
{
}

/// The properties that every document has come behind those from before, and
/// their three namespaces join those from before.
pub proof fn law_common_properties_are_added(
    xmp: XmpWriter<'static>,
    num_pages: u32,
    instance: &String,
    document: &String,
    result: XmpWriter<'static>,
)
    requires
        call_ensures(add_common_properties, (xmp, num_pages, instance, document), result),
    ensures
        xmp_text(result) == xmp_text(xmp) + seq![
            property("xmpTPg:NPages"@, decimal(num_pages as nat)),
            property("dc:format"@, escaped("application/pdf"@)),
            property("xmpMM:InstanceID"@, escaped(instance@)),
            property("xmpMM:DocumentID"@, escaped(document@)),
            property("xmpMM:RenditionClass"@, "proof"@),
        ].flatten(),
        forall|n: (Seq<char>, Seq<char>)| #[trigger]
            xmp_namespaces(result).contains(n) <==> xmp_namespaces(xmp).contains(n) || n == (
                "xmpTPg"@,
                "http://ns.adobe.com/xap/1.0/t/pg/"@,
            ) || n == ("dc"@, "http://purl.org/dc/elements/1.1/"@) || n == (
                "xmpMM"@,
                "http://ns.adobe.com/xap/1.0/mm/"@,
            ),
{
    law_common_properties(num_pages, instance@, document@);
}

/// The chunks of a container are numbered in the order in which they are visited.
/// The error that ends the visits ends the numbering. Nothing of the context is
/// changed but the next number. The next visits come to the same, and take no
/// numbers.
pub proof fn law_container_is_numbered(
    container: &mut ChunkContainer,
    sc: &mut SerializeContext,
    result: KrillaResult<Numbering>,
)
    requires
        call_ensures(ChunkContainer::number, (container, sc), result),
    ensures
        ({
            let outcome = old(container).outcome(old(sc).cur_ref@ as int);
            let again = *final(container);
            &&& result is Ok <==> outcome.error is None
            &&& result is Err ==> outcome.error == Some(result->Err_0)
            &&& result is Ok ==> result->Ok_0.wf() && result->Ok_0.seen() == outcome.contents
            &&& final(sc).cur_ref@ == outcome.next
            &&& final(sc).settings == old(sc).settings
            &&& final(sc).global_objects == old(sc).global_objects
            &&& final(sc).validation_errors == old(sc).validation_errors
            &&& again.kept(&*old(container))
            &&& result is Ok ==> forall|n: int|
                {
                    &&& (#[trigger] again.outcome(n)).contents == outcome.contents
                    &&& again.outcome(n).error is None
                    &&& again.outcome(n).next == n
                }
        }),
{
}

/// A document is written in the steps that lead to its file, unless a chunk
/// fails or the end of the file does not fit. A written document has given its
/// named destinations and its embedded files away. One that could not be written
/// still has them.
pub proof fn law_document_is_written<P: DocumentParts>(
    container: ChunkContainer,
    sc: &mut SerializeContext,
    parts: &P,
    result: KrillaResult<Pdf>,
)
    requires
        call_ensures(ChunkContainer::finish::<P>, (container, sc, parts), result),
    ensures
        is_end(container, *old(sc), *final(sc), parts, result),
{
    lemma_is_end(container, *old(sc), *final(sc), parts, result);
}

/// Whether this is what the writing of the document comes to.
pub open spec fn is_end<P: DocumentParts>(
    container: ChunkContainer,
    before: SerializeContext,
    after: SerializeContext,
    parts: &P,
    result: KrillaResult<Pdf>,
) -> bool {
    let outcome = container.outcome(before.cur_ref@ as int);
    &&& after.cur_ref@ == outcome.next
    &&& after.settings == before.settings
    &&& outcome.error is Some ==> result is Err && result->Err_0 == outcome.error->0
        && after.validation_errors == before.validation_errors
    &&& result is Ok ==> {
        &&& after.global_objects.named_destinations@.len() == 0
        &&& after.global_objects.embedded_files@.len() == 0
        &&& exists|steps: Steps| #[trigger]
            steps.of(parts, container, before) && steps.lead_to(
                before,
                result->Ok_0,
                after.validation_errors@,
            ) && end_fits(container, steps) && pdf_document(result->Ok_0).file_id == Some(
                (encode_utf8(steps.ids.document@), encode_utf8(steps.ids.instance@)),
            )
    }
    &&& result is Err ==> after.global_objects == before.global_objects
    &&& result is Err && outcome.error is None ==> exists|steps: Steps| #[trigger]
        steps.of(parts, container, before) && !end_fits(container, steps)
}

proof fn lemma_is_end<P: DocumentParts>(
    container: ChunkContainer,
    before: SerializeContext,
    after: SerializeContext,
    parts: &P,
    result: KrillaResult<Pdf>,
)
    requires
        after.cur_ref@ == container.outcome(before.cur_ref@ as int).next,
        match result {
            Ok(pdf) => {
                &&& container.outcome(before.cur_ref@ as int).error is None
                &&& finished(parts, container, before, after, pdf)
            },
            Err(error) => failed(parts, container, before, after, error),
        },
    ensures
        is_end(container, before, after, parts, result),
{
    match result {
        Ok(pdf) => {
            law_finished_document_is_used_up(parts, container, before, after, pdf);
            law_finished_document_is_identified(parts, container, before, after, pdf);
            let steps = choose|steps: Steps| #[trigger]
                steps.of(parts, container, before) && steps.lead_to(
                    before,
                    pdf,
                    after.validation_errors@,
                ) && pdf_document(pdf).file_id == Some(
                    (encode_utf8(steps.ids.document@), encode_utf8(steps.ids.instance@)),
                );
            law_body_of_a_file(parts, container, before, steps);
            law_end_of_a_file_fits(has_a_part(container), steps.informed.0, steps.packet);
            assert(end_fits(container, steps));
        },
        Err(error) => {
            law_success_is_owed_where_the_end_fits(parts, container, before, after, error);
        },
    }
}

/// A document is written exactly where it can be. Where it cannot, nothing is
/// changed but for the numbers that were taken.
pub proof fn law_document_is_written_where_it_can_be<P: DocumentParts>(
    container: ChunkContainer,
    sc: &mut SerializeContext,
    parts: &P,
    result: Option<KrillaResult<Pdf>>,
)
    requires
        call_ensures(ChunkContainer::try_finish::<P>, (container, sc, parts), result),
    ensures
        result is Some <==> container.finishable(*old(sc)),
        result is Some ==> is_end(container, *old(sc), *final(sc), parts, result->0),
        result is None ==> final(sc).settings == old(sc).settings,
        result is None ==> final(sc).global_objects == old(sc).global_objects,
        result is None ==> final(sc).validation_errors == old(sc).validation_errors,
        final(sc).cur_ref@ == container.outcome(old(sc).cur_ref@ as int).next,
{
    if let Some(result) = result {
        lemma_is_end(container, *old(sc), *final(sc), parts, result);
    }
}

/// Whether `after` is the file `before` with a catalog of these pairs behind its
/// objects, which the trailer names, and with nothing else changed.
pub open spec fn gains_catalog(
    after: Document,
    before: Document,
    number: i32,
    pairs: Seq<Pair>,
) -> bool {
    &&& after.objects == before.objects + seq![
        (number, dictionary_text(number, pairs, before.pretty)),
    ]
    &&& after.catalog == Some(number)
    &&& after.header == before.header
    &&& after.pretty == before.pretty
    &&& after.info == before.info
    &&& after.file_id == before.file_id
}

/// Whether these are the named destinations, by the bytes of their names.
pub open spec fn are_listed(
    sorted: Seq<NameEntry>,
    destinations: Seq<(NamedDestination, Ref)>,
) -> bool {
    &&& sorted.to_multiset() == destinations.map_values(
        |d: (NamedDestination, Ref)| (encode_utf8(d.0.name@), d.1),
    ).to_multiset()
    &&& forall|i: int, j: int|
        0 <= i < j < sorted.len() ==> #[trigger] stands_before(sorted[i].0, sorted[j].0)
}

/// The catalog is written behind the objects of the file, and says all that it
/// has to say of the document in the container, and nothing else. Where there is
/// no language, this is noted down.
pub proof fn law_catalog_is_written(
    pdf: &mut Pdf,
    sc: &mut SerializeContext,
    id: Ref,
    data: &CatalogData,
    destinations: &Vec<(NamedDestination, Ref)>,
    files: &EmbeddedFiles,
    remapper: &HashMap<i32, Ref>,
    container: ChunkContainer,
    stream: Option<i32>,
)
    requires
        call_ensures(
            write_catalog,
            (pdf, sc, id, data, destinations, files, remapper),
            (),
        ),
        leads_to(data.refs.page_tree, container.page_tree, as_numbers(remapper@)),
        leads_to(data.refs.outline, container.outline, as_numbers(remapper@)),
        leads_to(data.refs.page_label_tree, container.page_label_tree, as_numbers(remapper@)),
        leads_to(
            data.refs.destination_profiles,
            container.destination_profiles,
            as_numbers(remapper@),
        ),
        leads_to(data.refs.struct_tree_root, container.struct_tree_root, as_numbers(remapper@)),
        data.metadata == container.metadata,
        data.no_files == (container.embedded_files@.len() == 0),
        stream is Some <==> data.metadata_ref is Some,
        stream is Some ==> data.metadata_ref->0@ == stream->0,
    ensures
        exists|pairs: Seq<Pair>, sorted: Seq<NameEntry>|
            {
                &&& #[trigger] are_listed(sorted, destinations@)
                &&& #[trigger] gains_catalog(
                    pdf_document(*final(pdf)),
                    pdf_document(*old(pdf)),
                    id@,
                    pairs,
                )
                &&& says_all(
                    pairs,
                    container,
                    data.settings,
                    as_numbers(remapper@),
                    stream,
                    sorted,
                    files@,
                )
            },
        final(sc).validation_errors@ == old(sc).validation_errors@ + (if container.metadata is Some
            && container.metadata->0.language is Some {
            Seq::empty()
        } else {
            seq![ValidationError::NoDocumentLanguage]
        }),
        final(sc).settings == old(sc).settings,
        final(sc).global_objects == old(sc).global_objects,
        final(sc).cur_ref == old(sc).cur_ref,
{
    let map = as_numbers(remapper@);
    let sorted = choose|sorted: Seq<NameEntry>|
        arranged(sorted, named(destinations@)) && pdf_document(*final(pdf)) == with_catalog(
            pdf_document(*old(pdf)),
            id@,
            #[trigger] data.pairs(sorted, files@, map),
        );
    let pairs = data.pairs(sorted, files@, map);
    law_destinations_are_listed_by_their_bytes(sorted, destinations@);
    law_catalog_says_all(*data, container, map, stream, sorted, files@);
    assert(are_listed(sorted, destinations@));
    let before = pdf_document(*old(pdf));
    let object = (id@, dictionary_text(id@, pairs, before.pretty));
    assert(before.objects.push(object) =~= before.objects + seq![object]);
    assert(gains_catalog(pdf_document(*final(pdf)), before, id@, pairs));
}

} // verus!
