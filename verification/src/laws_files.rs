//! What holds of the steps from the chunks to a file.

use pdf_writer::{Chunk, Pdf};
use vstd::prelude::*;
use vstd::utf8::encode_utf8;

use crate::body::{opened, renumbering};
use crate::catalog::entries_covered;
use crate::completion::spec_overflow;
use crate::configure::{PdfVersion, ValidationError, Validator};
use crate::container::ChunkContainer;
use crate::description::common_properties;
use crate::destinations::named;
use crate::error::KrillaError;
use crate::finish::{failed, finished, Steps};
use crate::identity::{spec_document_id_source, spec_missing_title, IdSource};
use crate::laws::law_renumbering_is_consecutive;
use crate::metadata::{Metadata, PageLayout, TextDirection};
use crate::model::{
    all_objects, decimal, mentions, renumbered, texts, total_len, Content, Object,
};
use crate::numbering::{all_numbers, covers_all, numberable, Coverage, Numbering};
use crate::outside::chunk::{as_numbers, covers};
use crate::outside::pdf::{pdf_document, stream_text};
use crate::outside::xmp::{
    declarations, escaped, is_packet, packet, property, rdf_namespace, xmp_attributes,
    xmp_namespaces, xmp_text,
};
use crate::parts::DocumentParts;
use crate::reference::Ref;
use crate::serialize::{SerializeContext, SerializeSettings};
use crate::visit::{ChunkSink, Visit};
use crate::writing::ChunkWriter;

verus! {

/// Whether two of the objects have the same number.
pub open spec fn a_number_is_repeated(objects: Seq<Object>) -> bool {
    exists|i: int, j: int|
        0 <= i < j < objects.len() && (#[trigger] objects[i]).0 == (#[trigger] objects[j]).0
}

/// Whether one of the objects has this number.
pub open spec fn has_number(objects: Seq<Object>, number: i32) -> bool {
    exists|i: int| 0 <= i < objects.len() && (#[trigger] objects[i]).0 == number
}

proof fn lemma_numbers_of(contents: Seq<Content>)
    ensures
        all_numbers(contents).len() == all_objects(contents).len(),
        forall|i: int|
            #![trigger all_objects(contents)[i]]
            #![trigger all_numbers(contents)[i]]
            0 <= i < all_objects(contents).len() ==> all_numbers(contents)[i] == all_objects(
                contents,
            )[i].0,
        forall|k: i32| #[trigger]
            all_numbers(contents).contains(k) <==> has_number(all_objects(contents), k),
        all_numbers(contents).no_duplicates() <==> !a_number_is_repeated(all_objects(contents)),
{
    let objects = all_objects(contents);
    let refs = all_numbers(contents);
    assert forall|k: i32| #[trigger] refs.contains(k) <==> has_number(objects, k) by {
        if refs.contains(k) {
            assert(objects[refs.index_of(k)].0 == k);
        }
        if has_number(objects, k) {
            let i = choose|i: int| 0 <= i < objects.len() && (#[trigger] objects[i]).0 == k;
            assert(refs[i] == k);
        }
    }
    if a_number_is_repeated(objects) {
        let (i, j) = choose|i: int, j: int|
            0 <= i < j < objects.len() && (#[trigger] objects[i]).0 == (#[trigger] objects[j]).0;
        assert(refs[i] == refs[j]);
    } else {
        assert forall|i: int, j: int|
            0 <= i < refs.len() && 0 <= j < refs.len() && i != j implies refs[i] != refs[j] by {
            if i < j {
                assert(objects[i].0 != objects[j].0);
            } else {
                assert(objects[j].0 != objects[i].0);
            }
        }
    }
}

/// Contents can be numbered unless a number is repeated, or there are not enough
/// numbers or bytes.
pub proof fn law_what_can_be_numbered(contents: Seq<Content>)
    ensures
        numberable(contents) <==> {
            &&& !a_number_is_repeated(all_objects(contents))
            &&& all_objects(contents).len() < i32::MAX
            &&& total_len(contents) <= usize::MAX
        },
{
    lemma_numbers_of(contents);
}

/// The renumbering gives a number to the numbers of the objects, and to no
/// others: to that of the first object 1, to that of the second 2, and so on.
pub proof fn law_renumbering_counts_the_objects(contents: Seq<Content>)
    requires
        numberable(contents),
    ensures
        forall|i: int|
            0 <= i < all_objects(contents).len() ==> renumbering(
                contents,
            )[(#[trigger] all_objects(contents)[i]).0] == i + 1,
        forall|k: i32| #[trigger]
            renumbering(contents).contains_key(k) <==> has_number(all_objects(contents), k),
{
    lemma_numbers_of(contents);
    law_renumbering_is_consecutive(contents);
    assert forall|i: int| 0 <= i < all_objects(contents).len() implies renumbering(
        contents,
    )[(#[trigger] all_objects(contents)[i]).0] == i + 1 by {
        assert(all_numbers(contents)[i] == all_objects(contents)[i].0);
    }
    assert forall|k: i32| #[trigger] renumbering(contents).contains_key(k) <==> has_number(
        all_objects(contents),
        k,
    ) by {
        assert(renumbering(contents).contains_key(k) <==> all_numbers(contents).contains(k));
    }
}

/// Whoever numbers chunks gives 1 to their first object, 2 to the second and so
/// on, counts their bytes, and finds a fault exactly where a number is repeated
/// or there are not enough numbers or bytes.
pub proof fn law_numbering_counts(numbering: Numbering)
    requires
        numbering.wf(),
    ensures
        numbering.seen() == numbering.taken@,
        numbering.fault <==> a_number_is_repeated(all_objects(numbering.taken@)) || all_objects(
            numbering.taken@,
        ).len() >= i32::MAX || total_len(numbering.taken@) > usize::MAX,
        !numbering.fault ==> {
            let objects = all_objects(numbering.taken@);
            &&& forall|i: int|
                0 <= i < objects.len() ==> numbering.remapper@.contains_key(
                    (#[trigger] objects[i]).0,
                ) && numbering.remapper@[objects[i].0]@ == i + 1
            &&& forall|k: i32| #[trigger]
                numbering.remapper@.contains_key(k) ==> has_number(objects, k)
            &&& numbering.next_ref@ == objects.len() + 1
            &&& numbering.byte_len == total_len(numbering.taken@)
        },
{
    let contents = numbering.taken@;
    let objects = all_objects(contents);
    law_what_can_be_numbered(contents);
    if !numbering.fault {
        law_renumbering_counts_the_objects(contents);
        lemma_numbers_of(contents);
        let map = as_numbers(numbering.remapper@);
        assert(map == renumbering(contents));
        assert forall|i: int| 0 <= i < objects.len() implies numbering.remapper@.contains_key(
            (#[trigger] objects[i]).0,
        ) && numbering.remapper@[objects[i].0]@ == i + 1 by {
            assert(map.contains_key(objects[i].0));
        }
        assert forall|k: i32| #[trigger] numbering.remapper@.contains_key(k) implies has_number(
            objects,
            k,
        ) by {
            assert(map.contains_key(k));
        }
    }
}

/// Whoever checks chunks against a map finds them complete exactly where the map
/// gives a reference for every number that is met in them.
pub proof fn law_coverage_is_complete(coverage: Coverage)
    requires
        coverage.wf(),
    ensures
        coverage.seen() == coverage.taken@,
        coverage.origin() == coverage.remapper@,
        coverage.complete <==> forall|i: int, k: int|
            0 <= i < coverage.taken@.len() && 0 <= k < mentions(coverage.taken@[i].objects).len()
                ==> coverage.remapper@.contains_key(
                #[trigger] mentions(coverage.taken@[i].objects)[k],
            ),
{
    let map = coverage.remapper@;
    let contents = coverage.taken@;
    if coverage.complete {
        assert forall|i: int, k: int|
            0 <= i < contents.len() && 0 <= k < mentions(contents[i].objects).len() implies
            map.contains_key(#[trigger] mentions(contents[i].objects)[k]) by {
            assert(covers(map, contents[i]));
        }
    }
    if forall|i: int, k: int|
        0 <= i < contents.len() && 0 <= k < mentions(contents[i].objects).len()
            ==> map.contains_key(#[trigger] mentions(contents[i].objects)[k]) {
        assert forall|i: int| 0 <= i < contents.len() implies covers(
            map,
            #[trigger] contents[i],
        ) by {
            assert forall|k: int| 0 <= k < mentions(contents[i].objects).len() implies
                #[trigger] map.contains_key(mentions(contents[i].objects)[k]) by {}
        }
    }
}

/// Whoever writes chunks appends their objects, renumbered by the map, to the
/// file, and changes nothing else of it.
pub proof fn law_writer_appends(writer: ChunkWriter)
    requires
        writer.wf(),
    ensures
        writer.seen() == writer.taken@,
        pdf_document(writer.pdf).objects == writer.start@.objects + renumbered(
            all_objects(writer.taken@),
            writer.remapper@.map_values(|r: Ref| r@),
            writer.start@.pretty,
        ),
        pdf_document(writer.pdf).header == writer.start@.header,
        pdf_document(writer.pdf).pretty == writer.start@.pretty,
        pdf_document(writer.pdf).catalog == writer.start@.catalog,
        pdf_document(writer.pdf).info == writer.start@.info,
        pdf_document(writer.pdf).file_id == writer.start@.file_id,
{
    assert(as_numbers(writer.remapper@) =~= writer.remapper@.map_values(|r: Ref| r@));
}

/// Whether the part is missing, or one of the objects has its number.
pub open spec fn part_is_there(part: Option<(Ref, Chunk)>, objects: Seq<Object>) -> bool {
    part is Some ==> has_number(objects, (part->0).0@)
}

/// A document can be written exactly where its chunks can be visited only up to
/// an error, or where no number is repeated, there are enough numbers and bytes,
/// every number that is met belongs to an object, the five parts are among the
/// objects, and so is what the catalog lists, if there is a catalog and it lists
/// it; and what it lists fits into an array.
pub proof fn law_what_can_be_written(container: ChunkContainer, sc: SerializeContext)
    ensures
        container.finishable(sc) <==> {
            let outcome = container.outcome(sc.cur_ref@ as int);
            let contents = outcome.contents;
            let objects = all_objects(contents);
            let validator = sc.settings.configuration.validator;
            let destinations = sc.global_objects.named_destinations@;
            let files = sc.global_objects.embedded_files@;
            let no_files = container.embedded_files@.len() == 0;
            outcome.error is None ==> {
                &&& !a_number_is_repeated(objects)
                &&& objects.len() < i32::MAX
                &&& total_len(contents) <= usize::MAX
                &&& forall|i: int, k: int|
                    0 <= i < contents.len() && 0 <= k < mentions(contents[i].objects).len()
                        ==> has_number(objects, #[trigger] mentions(contents[i].objects)[k])
                &&& part_is_there(container.page_tree, objects)
                &&& part_is_there(container.outline, objects)
                &&& part_is_there(container.page_label_tree, objects)
                &&& part_is_there(container.destination_profiles, objects)
                &&& part_is_there(container.struct_tree_root, objects)
                &&& has_a_part(container) ==> {
                    &&& 2 * destinations.len() <= i32::MAX
                    &&& forall|i: int|
                        0 <= i < destinations.len() ==> has_number(
                            objects,
                            (#[trigger] destinations[i]).1@,
                        )
                    &&& (if no_files {
                        validator.list_no_files
                    } else {
                        validator.list_files
                    }) ==> 2 * files.len() <= i32::MAX && files_are_there(files, objects)
                    &&& validator.associated_files ==> files.len() <= i32::MAX
                        && files_are_there(files, objects)
                }
            }
        },
{
    let outcome = container.outcome(sc.cur_ref@ as int);
    let contents = outcome.contents;
    let objects = all_objects(contents);
    let map = renumbering(contents);
    let destinations = sc.global_objects.named_destinations@;
    let entries = named(destinations);
    let files = sc.global_objects.embedded_files@;
    law_what_can_be_numbered(contents);
    lemma_numbers_of(contents);
    assert forall|k: i32| #[trigger] map.contains_key(k) <==> has_number(objects, k) by {
        assert(map.contains_key(k) <==> all_numbers(contents).contains(k));
    }
    assert(covers_all(map, contents) <==> forall|i: int, k: int|
        0 <= i < contents.len() && 0 <= k < mentions(contents[i].objects).len() ==> has_number(
            objects,
            #[trigger] mentions(contents[i].objects)[k],
        )) by {
        if covers_all(map, contents) {
            assert forall|i: int, k: int|
                0 <= i < contents.len() && 0 <= k < mentions(contents[i].objects).len() implies
                has_number(objects, #[trigger] mentions(contents[i].objects)[k]) by {
                assert(covers(map, contents[i]));
                assert(map.contains_key(mentions(contents[i].objects)[k]));
            }
        }
        if forall|i: int, k: int|
            0 <= i < contents.len() && 0 <= k < mentions(contents[i].objects).len()
                ==> has_number(objects, #[trigger] mentions(contents[i].objects)[k]) {
            assert forall|i: int| 0 <= i < contents.len() implies covers(
                map,
                #[trigger] contents[i],
            ) by {
                assert forall|k: int| 0 <= k < mentions(contents[i].objects).len() implies
                    #[trigger] map.contains_key(mentions(contents[i].objects)[k]) by {
                    assert(has_number(objects, mentions(contents[i].objects)[k]));
                }
            }
        }
    }
    assert(entries_covered(entries, map) <==> forall|i: int|
        0 <= i < destinations.len() ==> has_number(objects, (#[trigger] destinations[i]).1@)) by {
        if entries_covered(entries, map) {
            assert forall|i: int| 0 <= i < destinations.len() implies has_number(
                objects,
                (#[trigger] destinations[i]).1@,
            ) by {
                assert(entries[i].1 == destinations[i].1);
                assert(map.contains_key(entries[i].1@));
            }
        }
        if forall|i: int|
            0 <= i < destinations.len() ==> has_number(objects, (#[trigger] destinations[i]).1@) {
            assert forall|i: int| 0 <= i < entries.len() implies map.contains_key(
                #[trigger] entries[i].1@,
            ) by {
                assert(entries[i].1 == destinations[i].1);
            }
        }
    }
    assert(entries_covered(files, map) <==> files_are_there(files, objects)) by {
        if files_are_there(files, objects) {
            assert forall|i: int| 0 <= i < files.len() implies map.contains_key(
                #[trigger] files[i].1@,
            ) by {
                assert(has_number(objects, files[i].1@));
            }
        }
        if entries_covered(files, map) {
            assert forall|i: int| 0 <= i < files.len() implies has_number(
                objects,
                (#[trigger] files[i]).1@,
            ) by {
                assert(map.contains_key(files[i].1@));
            }
        }
    }
}

/// Whether every file is among the objects.
pub open spec fn files_are_there(files: Seq<(Seq<u8>, Ref)>, objects: Seq<Object>) -> bool {
    forall|i: int| 0 <= i < files.len() ==> has_number(objects, (#[trigger] files[i]).1@)
}

/// Whether the document has a page tree, an outline, page labels, destination
/// profiles or a structure tree.
pub open spec fn has_a_part(container: ChunkContainer) -> bool {
    !(container.page_tree is None && container.outline is None && container.page_label_tree is None
        && container.destination_profiles is None && container.struct_tree_root is None)
}

/// The digits of the version, as the header has them.
pub open spec fn version_digits(version: PdfVersion) -> (u8, u8) {
    match version {
        PdfVersion::Pdf14 => (0x31, 0x34),
        PdfVersion::Pdf15 => (0x31, 0x35),
        PdfVersion::Pdf16 => (0x31, 0x36),
        PdfVersion::Pdf17 => (0x31, 0x37),
        PdfVersion::Pdf20 => (0x32, 0x30),
    }
}

/// A file is opened with the line `%PDF-`, followed by the version, and with a
/// comment of four bytes: those of `AAAA`, where ASCII is asked for and no
/// binary header is required, and else four bytes beyond ASCII. It holds nothing
/// else.
pub proof fn law_opened_file(settings: SerializeSettings)
    ensures
        ({
            let (major, minor) = version_digits(settings.configuration.version);
            let mark: u8 = if settings.ascii_compatible
                && !settings.configuration.validator.binary_header {
                0x41
            } else {
                0x80
            };
            opened(settings).header == seq![
                0x25u8, 0x50u8, 0x44u8, 0x46u8, 0x2Du8, major, 0x2Eu8, minor, 0x0Au8,
                0x25u8, mark, mark, mark, mark, 0x0Au8, 0x0Au8,
            ]
        }),
        opened(settings).pretty,
        opened(settings).objects.len() == 0,
        opened(settings).catalog is None,
        opened(settings).info is None,
        opened(settings).file_id is None,
{
    let (major, minor) = version_digits(settings.configuration.version);
    let mark: u8 = if settings.ascii_compatible
        && !settings.configuration.validator.binary_header {
        0x41
    } else {
        0x80
    };
    assert(opened(settings).header =~= seq![
        0x25u8, 0x50u8, 0x44u8, 0x46u8, 0x2Du8, major, 0x2Eu8, minor, 0x0Au8,
        0x25u8, mark, mark, mark, mark, 0x0Au8, 0x0Au8,
    ]);
}

/// The embedded files are listed as the standard has it for their absence where
/// there are none, and as it has it for their presence where there are some.
pub proof fn law_listing_of_files(validator: Validator)
    ensures
        validator.spec_write_embedded_files(true) == validator.list_no_files,
        validator.spec_write_embedded_files(false) == validator.list_files,
{
}

/// Whether `r` is the reference to the part under its new number.
pub open spec fn leads_to(
    r: Option<Ref>,
    part: Option<(Ref, Chunk)>,
    map: Map<i32, i32>,
) -> bool {
    &&& r is Some <==> part is Some
    &&& part is Some ==> r->0@ == map[(part->0).0@]
}

/// What is known once the chunks are written: the file holds their renumbered
/// objects behind the header and nothing else, the next number is free, and the
/// rest is as the container has it.
pub proof fn law_body_of_a_file<P: DocumentParts>(
    parts: &P,
    container: ChunkContainer,
    sc: SerializeContext,
    steps: Steps,
)
    requires
        steps.of(parts, container, sc),
    ensures
        ({
            let contents = container.outcome(sc.cur_ref@ as int).contents;
            let map = renumbering(contents);
            let file = pdf_document(steps.body.pdf);
            let frame = steps.body.frame;
            &&& file.header == opened(sc.settings).header
            &&& file.pretty
            &&& file.objects == renumbered(all_objects(contents), map, true)
            &&& file.catalog is None
            &&& file.info is None
            &&& file.file_id is None
            &&& steps.body.next_ref@ == all_objects(contents).len() + 1
            &&& leads_to(frame.refs.page_tree, container.page_tree, map)
            &&& leads_to(frame.refs.outline, container.outline, map)
            &&& leads_to(frame.refs.page_label_tree, container.page_label_tree, map)
            &&& leads_to(frame.refs.destination_profiles, container.destination_profiles, map)
            &&& leads_to(frame.refs.struct_tree_root, container.struct_tree_root, map)
            &&& frame.refs.spec_any() == has_a_part(container)
            &&& container.has_catalog() == has_a_part(container)
            &&& frame.num_pages == container.pages@.len() as u32
            &&& frame.metadata == container.metadata
            &&& frame.no_files == (container.embedded_files@.len() == 0)
        }),
{
    let contents = container.outcome(sc.cur_ref@ as int).contents;
    lemma_numbers_of(contents);
    law_opened_file(sc.settings);
    assert(pdf_document(steps.body.pdf).objects =~= renumbered(
        all_objects(contents),
        renumbering(contents),
        true,
    ));
}

/// Where there is metadata, the document information is asked for with it, with
/// the configuration, and with the file and the next number as the chunks left
/// them. Where there is none, nothing happens to the file.
pub proof fn law_information_is_asked_for<P: DocumentParts>(
    parts: &P,
    container: ChunkContainer,
    sc: SerializeContext,
    steps: Steps,
)
    requires
        steps.of(parts, container, sc),
    ensures
        match container.metadata {
            Some(meta) => call_ensures(
                P::serialize_document_info,
                (parts, &meta, sc.settings.configuration, steps.body.next_ref, steps.body.pdf),
                steps.informed,
            ),
            None => steps.informed.0 == steps.body.next_ref && steps.informed.1 == steps.body.pdf,
        },
{
}

/// The identifier of this version is made from all bytes of the file. That of
/// the document is made from the version of the format and the identifier in the
/// metadata; without one, from the version, the title and the authors; and
/// without a title or without authors it is that of this version.
pub proof fn law_identifiers_of_a_document<P: DocumentParts>(
    parts: &P,
    container: ChunkContainer,
    sc: SerializeContext,
    steps: Steps,
)
    requires
        steps.of(parts, container, sc),
    ensures
        exists|bytes: &[u8]|
            bytes@ == pdf_document(steps.informed.1).header + texts(
                pdf_document(steps.informed.1).objects,
            ) && #[trigger] call_ensures(
                P::stable_hash_base64,
                (parts, IdSource::File(bytes)),
                steps.ids.instance,
            ),
        ({
            let version = sc.settings.configuration.version;
            let meta = container.metadata->0;
            if container.metadata is Some && meta.document_id is Some {
                call_ensures(
                    P::stable_hash_base64,
                    (parts, IdSource::DocumentId(version, &meta.document_id->0)),
                    steps.ids.document,
                )
            } else if container.metadata is Some && meta.title is Some && meta.authors is Some {
                call_ensures(
                    P::stable_hash_base64,
                    (parts, IdSource::TitleAndAuthors(version, &meta.title, &meta.authors)),
                    steps.ids.document,
                )
            } else {
                steps.ids.document == steps.ids.instance
            }
        }),
{
}

/// What the identifier of the document is made from, told by the metadata alone.
pub proof fn law_source_of_the_identifier(metadata: Option<Metadata>, version: PdfVersion)
    ensures
        metadata is None ==> spec_document_id_source(&metadata, version) is None,
        metadata is Some ==> {
            let meta = metadata->0;
            let source = spec_document_id_source(&metadata, version);
            &&& meta.document_id is Some ==> source == Some(
                IdSource::DocumentId(version, &meta.document_id->0),
            )
            &&& meta.document_id is None && meta.title is Some && meta.authors is Some ==> source
                == Some(IdSource::TitleAndAuthors(version, &meta.title, &meta.authors))
            &&& meta.document_id is None && !(meta.title is Some && meta.authors is Some)
                ==> source is None
        },
        spec_missing_title(metadata) <==> !(metadata is Some && metadata->0.title is Some),
{
}

/// The trailer of every finished file has the identifiers, that of the document
/// first, whether there is a catalog or not. The rest of the file before its end
/// is untouched.
pub proof fn law_trailer_has_the_identifiers(
    steps: Steps,
    sc: SerializeContext,
    pdf: Pdf,
    errors: Seq<ValidationError>,
)
    requires
        steps.lead_to(sc, pdf, errors),
    ensures
        pdf_document(pdf).file_id == Some(
            (encode_utf8(steps.ids.document@), encode_utf8(steps.ids.instance@)),
        ),
        pdf_document(pdf).header == pdf_document(steps.informed.1).header,
        pdf_document(pdf).pretty == pdf_document(steps.informed.1).pretty,
        pdf_document(pdf).info == pdf_document(steps.informed.1).info,
{
}

/// Every finished document has identifiers in its trailer, and these are made as
/// the identifiers of a document are.
pub proof fn law_finished_document_is_identified<P: DocumentParts>(
    parts: &P,
    container: ChunkContainer,
    before: SerializeContext,
    after: SerializeContext,
    pdf: Pdf,
)
    requires
        finished(parts, container, before, after, pdf),
    ensures
        exists|steps: Steps| #[trigger]
            steps.of(parts, container, before) && steps.lead_to(
                before,
                pdf,
                after.validation_errors@,
            ) && pdf_document(pdf).file_id == Some(
                (encode_utf8(steps.ids.document@), encode_utf8(steps.ids.instance@)),
            ),
{
    let steps = choose|steps: Steps| #[trigger]
        steps.of(parts, container, before) && steps.lead_to(
            before,
            pdf,
            after.validation_errors@,
        );
    law_trailer_has_the_identifiers(steps, before, pdf, after.validation_errors@);
}

/// The properties that every document has: the number of its pages, its format,
/// its two identifiers, and that it is a proof copy; each with its name and its
/// value, in this order, and nothing else.
pub proof fn law_common_properties(num_pages: u32, instance: Seq<char>, document: Seq<char>)
    ensures
        common_properties(num_pages, instance, document) == seq![
            property("xmpTPg:NPages"@, decimal(num_pages as nat)),
            property("dc:format"@, escaped("application/pdf"@)),
            property("xmpMM:InstanceID"@, escaped(instance)),
            property("xmpMM:DocumentID"@, escaped(document)),
            property("xmpMM:RenditionClass"@, "proof"@),
        ].flatten(),
{
    let list = seq![
        property("xmpTPg:NPages"@, decimal(num_pages as nat)),
        property("dc:format"@, escaped("application/pdf"@)),
        property("xmpMM:InstanceID"@, escaped(instance)),
        property("xmpMM:DocumentID"@, escaped(document)),
        property("xmpMM:RenditionClass"@, "proof"@),
    ];
    reveal_with_fuel(Seq::<_>::flatten, 7);
    let rest1 = list.drop_first();
    let rest2 = rest1.drop_first();
    let rest3 = rest2.drop_first();
    let rest4 = rest3.drop_first();
    assert(rest4.drop_first() =~= Seq::<Seq<char>>::empty());
    assert(list.flatten() =~= common_properties(num_pages, instance, document));
}

/// Whether the packet holds this text and declares these namespaces, in some
/// order, and no others but that of the packet itself.
pub open spec fn declares(
    whole: Seq<char>,
    namespaces: Set<(Seq<char>, Seq<char>)>,
    text: Seq<char>,
) -> bool {
    exists|order: Seq<(Seq<char>, Seq<char>)>|
        {
            &&& whole == packet(#[trigger] declarations(order), text)
            &&& forall|n: (Seq<char>, Seq<char>)| #[trigger]
                order.contains(n) || n == ("rdf"@, "http://www.w3.org/1999/02/22-rdf-syntax-ns#"@)
                    <==> namespaces.contains(n) || n == (
                    "rdf"@,
                    "http://www.w3.org/1999/02/22-rdf-syntax-ns#"@,
                )
        }
}

/// What is known of a packet says which namespaces it declares.
proof fn lemma_declares(
    whole: Seq<char>,
    namespaces: Set<(Seq<char>, Seq<char>)>,
    text: Seq<char>,
)
    requires
        is_packet(whole, namespaces, text),
    ensures
        declares(whole, namespaces, text),
{
    let order = choose|order: Seq<(Seq<char>, Seq<char>)>|
        #![trigger declarations(order)]
        order.to_set().insert(rdf_namespace()) == namespaces.insert(rdf_namespace()) && whole
            == packet(declarations(order), text);
    assert forall|n: (Seq<char>, Seq<char>)| #[trigger] order.contains(n) || n == (
        "rdf"@,
        "http://www.w3.org/1999/02/22-rdf-syntax-ns#"@,
    ) <==> namespaces.contains(n) || n == (
        "rdf"@,
        "http://www.w3.org/1999/02/22-rdf-syntax-ns#"@,
    ) by {
        assert(order.to_set().contains(n) <==> order.contains(n));
        assert(order.to_set().insert(rdf_namespace()).contains(n) <==> namespaces.insert(
            rdf_namespace(),
        ).contains(n));
    }
}

/// The XMP properties of a document are built up from none: those of the
/// metadata, where there is some, those that name the standard, those that every
/// document has, with the number of its pages and with its identifiers, and
/// those that name the version. They are written into a packet where there is a
/// part for the catalog and XMP metadata is asked for, and only there. The packet
/// declares the namespaces that they use.
pub proof fn law_description_of_a_document<P: DocumentParts>(
    parts: &P,
    container: ChunkContainer,
    sc: SerializeContext,
    steps: Steps,
)
    requires
        steps.of(parts, container, sc),
    ensures
        ({
            let d = steps.description;
            let settings = sc.settings;
            &&& xmp_text(d.fresh).len() == 0
            &&& xmp_namespaces(d.fresh).is_empty()
            &&& container.metadata matches Some(meta) ==> call_ensures(
                P::serialize_xmp_metadata,
                (parts, &meta, d.fresh, settings, &steps.ids.instance),
                (d.described, d.errors),
            )
            &&& container.metadata is None ==> d.described == d.fresh && d.errors@.len() == 0
            &&& call_ensures(
                P::write_validator_xmp,
                (parts, settings.configuration.validator, d.described),
                d.validated,
            )
            &&& xmp_text(d.common) == xmp_text(d.validated) + seq![
                property("xmpTPg:NPages"@, decimal((container.pages@.len() as u32) as nat)),
                property("dc:format"@, escaped("application/pdf"@)),
                property("xmpMM:InstanceID"@, escaped(steps.ids.instance@)),
                property("xmpMM:DocumentID"@, escaped(steps.ids.document@)),
                property("xmpMM:RenditionClass"@, "proof"@),
            ].flatten()
            &&& forall|n: (Seq<char>, Seq<char>)| #[trigger]
                xmp_namespaces(d.common).contains(n) <==> xmp_namespaces(d.validated).contains(n)
                    || n == ("xmpTPg"@, "http://ns.adobe.com/xap/1.0/t/pg/"@) || n == (
                    "dc"@,
                    "http://purl.org/dc/elements/1.1/"@,
                ) || n == ("xmpMM"@, "http://ns.adobe.com/xap/1.0/mm/"@)
            &&& call_ensures(
                P::write_version_xmp,
                (parts, settings.configuration.version, d.common),
                d.versioned,
            )
            &&& steps.packet is Some <==> has_a_part(container) && settings.xmp_metadata
            &&& steps.packet is Some ==> steps.packet->0@ == packet(
                xmp_attributes(d.versioned),
                xmp_text(d.versioned),
            )
            &&& steps.packet is Some ==> declares(
                steps.packet->0@,
                xmp_namespaces(d.versioned),
                xmp_text(d.versioned),
            )
        }),
{
    let d = steps.description;
    law_body_of_a_file(parts, container, sc, steps);
    if steps.packet is Some {
        lemma_declares(steps.packet->0@, xmp_namespaces(d.versioned), xmp_text(d.versioned));
    }
    law_common_properties(
        container.pages@.len() as u32,
        steps.ids.instance@,
        steps.ids.document@,
    );
}

/// The shortcomings after the writing are those from before; after them that
/// there is no title, where there is none; after it those that the metadata was
/// found to have; and last that there is no language, where there is none and
/// there is a part for the catalog.
pub proof fn law_shortcomings_of_a_document<P: DocumentParts>(
    parts: &P,
    container: ChunkContainer,
    sc: SerializeContext,
    steps: Steps,
    pdf: Pdf,
    errors: Seq<ValidationError>,
)
    requires
        steps.of(parts, container, sc),
        steps.lead_to(sc, pdf, errors),
    ensures
        ({
            let titled = container.metadata is Some && container.metadata->0.title is Some;
            let spoken = container.metadata is Some && container.metadata->0.language is Some;
            let no_title = if titled {
                Seq::empty()
            } else {
                seq![ValidationError::NoDocumentTitle]
            };
            let no_language = if spoken || !has_a_part(container) {
                Seq::empty()
            } else {
                seq![ValidationError::NoDocumentLanguage]
            };
            errors == sc.validation_errors@ + no_title + steps.description.errors@ + no_language
        }),
{
    law_body_of_a_file(parts, container, sc, steps);
}

/// The end of a file can be written unless it takes numbers beyond the greatest
/// one, or the metadata has more bytes than a stream can have: one number for
/// the catalog, and one for the metadata, where there are such.
pub proof fn law_end_of_a_file_fits(any: bool, next: Ref, packet: Option<String>)
    ensures
        spec_overflow(any, next, packet) is None <==> {
            &&& next@ <= i32::MAX
            &&& any ==> next@ + 1 <= i32::MAX
            &&& any && packet is Some ==> next@ + 2 <= i32::MAX
            &&& packet is Some ==> encode_utf8(packet->0@).len() <= i32::MAX
        },
        spec_overflow(any, next, packet) is Some ==> spec_overflow(any, next, packet) == Some(
            KrillaError::RefsExhausted,
        ) || spec_overflow(any, next, packet) == Some(KrillaError::MetadataTooLong),
        spec_overflow(any, next, packet) == Some(KrillaError::MetadataTooLong) ==> packet is Some
            && encode_utf8(packet->0@).len() > i32::MAX,
{
}

/// Whether there are numbers left for the catalog, and for the metadata, where
/// there are such.
pub open spec fn numbers_suffice(container: ChunkContainer, steps: Steps) -> bool {
    &&& has_a_part(container) ==> steps.informed.0@ + 1 <= i32::MAX
    &&& has_a_part(container) && steps.packet is Some ==> steps.informed.0@ + 2 <= i32::MAX
}

/// Whether the end of the file fits behind what the steps came to.
pub open spec fn end_fits(container: ChunkContainer, steps: Steps) -> bool {
    &&& numbers_suffice(container, steps)
    &&& steps.packet is Some ==> encode_utf8(steps.packet->0@).len() <= i32::MAX
}

/// The writing fails with the error of the first chunk that fails, and has then
/// left everything alone but for the numbers it took. Behind the chunks it fails
/// only where the end of the file does not fit: there are not enough numbers
/// left, or else the metadata is too long. It has then noted down the
/// shortcomings that it found, and left everything else alone.
pub proof fn law_success_is_owed_where_the_end_fits<P: DocumentParts>(
    parts: &P,
    container: ChunkContainer,
    before: SerializeContext,
    after: SerializeContext,
    error: KrillaError,
)
    requires
        failed(parts, container, before, after, error),
    ensures
        after.global_objects == before.global_objects,
        after.settings == before.settings,
        container.outcome(before.cur_ref@ as int).error matches Some(first) ==> error == first
            && after.validation_errors == before.validation_errors,
        container.outcome(before.cur_ref@ as int).error is None ==> exists|steps: Steps|
            {
                &&& #[trigger] steps.of(parts, container, before)
                &&& !end_fits(container, steps)
                &&& error == (if numbers_suffice(container, steps) {
                    KrillaError::MetadataTooLong
                } else {
                    KrillaError::RefsExhausted
                })
                &&& after.validation_errors@ == before.validation_errors@ + (if container.metadata
                    is Some && container.metadata->0.title is Some {
                    Seq::empty()
                } else {
                    seq![ValidationError::NoDocumentTitle]
                }) + steps.description.errors@
            },
{
    if container.outcome(before.cur_ref@ as int).error is None {
        let steps = choose|steps: Steps| #[trigger]
            steps.of(parts, container, before) && steps.overflow() == Some(error)
                && after.validation_errors@ == steps.errors_before_end(before);
        law_body_of_a_file(parts, container, before, steps);
        law_end_of_a_file_fits(has_a_part(container), steps.informed.0, steps.packet);
        assert(!end_fits(container, steps));
    }
}

/// What the finished file has at its end: nothing new, where there is no part
/// for a catalog; and else the metadata stream, under the next number, where
/// there is a packet, and the catalog, under the number after it. The trailer
/// names the catalog.
pub proof fn law_end_of_a_file<P: DocumentParts>(
    parts: &P,
    container: ChunkContainer,
    sc: SerializeContext,
    steps: Steps,
    pdf: Pdf,
    errors: Seq<ValidationError>,
)
    requires
        steps.of(parts, container, sc),
        steps.lead_to(sc, pdf, errors),
    ensures
        end_fits(container, steps),
        ({
            let info = pdf_document(steps.informed.1);
            let file = pdf_document(pdf);
            let next = steps.informed.0@;
            let count = info.objects.len() as int;
            &&& file.objects.take(count) == info.objects
            &&& !has_a_part(container) ==> file.objects == info.objects && file.catalog
                == info.catalog
            &&& has_a_part(container) && steps.packet is None ==> {
                &&& file.objects.len() == count + 1
                &&& file.objects[count].0 == next
                &&& file.catalog == Some(next)
            }
            &&& has_a_part(container) && steps.packet is Some ==> {
                &&& file.objects.len() == count + 2
                &&& file.objects[count] == (
                    next,
                    stream_text(
                        next as nat,
                        encode_utf8(steps.packet->0@),
                        ("Type"@, "Metadata"@),
                        ("Subtype"@, "XML"@),
                        info.pretty,
                    ),
                )
                &&& file.objects[count + 1].0 == next + 1
                &&& file.catalog == Some((next + 1) as i32)
            }
        }),
{
    law_body_of_a_file(parts, container, sc, steps);
    let info = pdf_document(steps.informed.1);
    let file = pdf_document(pdf);
    assert(file.objects.take(info.objects.len() as int) =~= info.objects);
}

/// A finished document has given its named destinations and its embedded files
/// away, and has left the settings alone.
pub proof fn law_finished_document_is_used_up<P: DocumentParts>(
    parts: &P,
    container: ChunkContainer,
    before: SerializeContext,
    after: SerializeContext,
    pdf: Pdf,
)
    requires
        finished(parts, container, before, after, pdf),
    ensures
        after.global_objects.named_destinations@.len() == 0,
        after.global_objects.embedded_files@.len() == 0,
        after.settings == before.settings,
{
}

/// The place of a version among all versions, from the oldest on.
pub open spec fn age(version: PdfVersion) -> int {
    match version {
        PdfVersion::Pdf14 => 0,
        PdfVersion::Pdf15 => 1,
        PdfVersion::Pdf16 => 2,
        PdfVersion::Pdf17 => 3,
        PdfVersion::Pdf20 => 4,
    }
}

/// The memory to reserve for the file is estimated from how many bytes all chunks
/// have together.
pub proof fn law_memory_is_estimated_from_all_chunks<P: DocumentParts>(
    parts: &P,
    container: ChunkContainer,
    sc: SerializeContext,
    steps: Steps,
)
    requires
        steps.of(parts, container, sc),
    ensures
        exists|capacity: usize| #[trigger]
            call_ensures(
                P::estimate_capacity,
                (parts, total_len(container.outcome(sc.cur_ref@ as int).contents) as usize),
                capacity,
            ),
{
}

/// One version is at least another one if and only if it is not the older one of
/// them.
pub proof fn law_versions_are_ordered(a: PdfVersion, b: PdfVersion)
    ensures
        a.spec_at_least(b) <==> age(a) >= age(b),
{
}

/// The names under which the format knows the directions and the layouts.
pub proof fn law_names_of_directions_and_layouts()
    ensures
        TextDirection::LeftToRight.spec_to_pdf() == "L2R"@,
        TextDirection::RightToLeft.spec_to_pdf() == "R2L"@,
        PageLayout::SinglePage.spec_to_pdf() == "SinglePage"@,
        PageLayout::OneColumn.spec_to_pdf() == "OneColumn"@,
        PageLayout::TwoColumnLeft.spec_to_pdf() == "TwoColumnLeft"@,
        PageLayout::TwoColumnRight.spec_to_pdf() == "TwoColumnRight"@,
        PageLayout::TwoPageLeft.spec_to_pdf() == "TwoPageLeft"@,
        PageLayout::TwoPageRight.spec_to_pdf() == "TwoPageRight"@,
{
}

} // verus!
