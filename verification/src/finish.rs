//! Writing the whole document.

use pdf_writer::Pdf;
use vstd::prelude::*;
use xmp_writer::XmpWriter;

use crate::body::{body_document, renumbering, Body};
use crate::catalog::listable;
use crate::completion::{
    complete, errors_at_end, is_completed, overflow, spec_overflow, Ids,
};
use crate::configure::{Configuration, PdfVersion, ValidationError};
use crate::container::ChunkContainer;
use crate::description::{add_common_properties, common_properties};
use crate::destinations::{named, NameEntry, NamedDestination};
use crate::embedded_files::strictly_ascending;
use crate::error::{KrillaError, KrillaResult};
use crate::identity::{
    document_id_source, missing_title, spec_document_id_source, spec_missing_title, IdSource,
};
use crate::metadata::Metadata;
use crate::model::{texts, total_len, Document};
use crate::numbering::{all_numbers, covers_all, lemma_covers_by_number, numberable};
use crate::outside::pdf::{pdf_as_bytes, pdf_document};
use crate::outside::xmp::{
    dublin_core_namespace, is_packet, media_namespace, paged_namespace, xmp_attributes, xmp_finish,
    xmp_namespaces, xmp_new, xmp_text,
};
use crate::parts::DocumentParts;
use crate::reference::Ref;
use crate::serialize::{SerializeContext, SerializeSettings};
use crate::visit::{ChunkSink, Visit};

verus! {

/// Whether it was estimated how much memory to reserve for chunks of this many
/// bytes.
pub open spec fn is_estimated<P: DocumentParts>(parts: &P, byte_len: usize) -> bool {
    exists|capacity: usize| #[trigger]
        call_ensures(P::estimate_capacity, (parts, byte_len), capacity)
}

/// Whether `id` is an identifier made from these bytes.
pub open spec fn is_hash_of_file<P: DocumentParts>(parts: &P, bytes: Seq<u8>, id: String) -> bool {
    exists|slice: &[u8]|
        slice@ == bytes && #[trigger] call_ensures(
            P::stable_hash_base64,
            (parts, IdSource::File(slice)),
            id,
        )
}

/// Whether these are the identifiers of a document with this file and this
/// metadata.
pub open spec fn are_ids<P: DocumentParts>(
    parts: &P,
    metadata: Option<Metadata>,
    version: PdfVersion,
    file: Document,
    ids: Ids,
) -> bool {
    &&& is_hash_of_file(parts, file.header + texts(file.objects), ids.instance)
    &&& match spec_document_id_source(&metadata, version) {
        Some(source) => call_ensures(P::stable_hash_base64, (parts, source), ids.document),
        None => ids.document == ids.instance,
    }
}

/// The steps to the XMP properties of a document, with what the parts that are
/// written elsewhere returned.
pub struct Description {
    /// A writer without properties.
    pub fresh: XmpWriter<'static>,
    /// The properties that the metadata gives.
    pub described: XmpWriter<'static>,
    /// The shortcomings that were found on the way.
    pub errors: Vec<ValidationError>,
    /// The properties, with those that name the standard.
    pub validated: XmpWriter<'static>,
    /// The properties, with those that every document has.
    pub common: XmpWriter<'static>,
    /// The properties, with those that name the version.
    pub versioned: XmpWriter<'static>,
}

impl Description {
    /// Whether these are the steps for a document with this metadata.
    pub open spec fn of<P: DocumentParts>(
        self,
        parts: &P,
        metadata: Option<Metadata>,
        settings: SerializeSettings,
        num_pages: u32,
        ids: Ids,
    ) -> bool {
        let configuration = settings.configuration;
        &&& xmp_text(self.fresh) == Seq::<char>::empty()
        &&& xmp_namespaces(self.fresh) == Set::<(Seq<char>, Seq<char>)>::empty()
        &&& match metadata {
            Some(meta) => call_ensures(
                P::serialize_xmp_metadata,
                (parts, &meta, self.fresh, settings, &ids.instance),
                (self.described, self.errors),
            ),
            None => self.described == self.fresh && self.errors@.len() == 0,
        }
        &&& call_ensures(
            P::write_validator_xmp,
            (parts, configuration.validator, self.described),
            self.validated,
        )
        &&& xmp_text(self.common) == xmp_text(self.validated) + common_properties(
            num_pages,
            ids.instance@,
            ids.document@,
        )
        &&& xmp_namespaces(self.common) == xmp_namespaces(self.validated).insert(
            paged_namespace(),
        ).insert(dublin_core_namespace()).insert(media_namespace())
        &&& call_ensures(
            P::write_version_xmp,
            (parts, configuration.version, self.common),
            self.versioned,
        )
    }

    /// Whether this is the packet with the properties, where it is written. It
    /// declares the namespaces that they use.
    pub open spec fn has_packet(self, write: bool, packet: Option<String>) -> bool {
        if write {
            &&& packet is Some
            &&& packet->0@ == crate::outside::xmp::packet(
                xmp_attributes(self.versioned),
                xmp_text(self.versioned),
            )
            &&& is_packet(
                packet->0@,
                xmp_namespaces(self.versioned),
                xmp_text(self.versioned),
            )
        } else {
            packet is None
        }
    }
}

/// Whether this is a file with all chunks of the container written to it.
pub open spec fn is_body(body: Body, container: ChunkContainer, sc: SerializeContext) -> bool {
    let contents = container.outcome(sc.cur_ref@ as int).contents;
    &&& pdf_document(body.pdf) == body_document(sc.settings, contents)
    &&& body.next_ref@ == all_numbers(contents).len() + 1
    &&& body.frame.of(container, renumbering(contents))
}

/// Whether this is the next reference and the file, once the document
/// information was written.
pub open spec fn is_informed<P: DocumentParts>(
    parts: &P,
    body: Body,
    configuration: Configuration,
    informed: (Ref, Pdf),
) -> bool {
    match body.frame.metadata {
        Some(meta) => call_ensures(
            P::serialize_document_info,
            (parts, &meta, configuration, body.next_ref, body.pdf),
            informed,
        ),
        None => informed == (body.next_ref, body.pdf),
    }
}

/// The steps from the chunks to a complete file, with what the parts that are
/// written elsewhere returned.
pub struct Steps {
    /// The file with all chunks written to it.
    pub body: Body,
    /// The next reference and the file, with the document information.
    pub informed: (Ref, Pdf),
    /// The identifiers.
    pub ids: Ids,
    /// The XMP properties.
    pub description: Description,
    /// The XMP packet, where it is written.
    pub packet: Option<String>,
}

impl Steps {
    /// Whether these are the steps for the document in the container.
    pub open spec fn of<P: DocumentParts>(
        self,
        parts: &P,
        container: ChunkContainer,
        sc: SerializeContext,
    ) -> bool {
        let configuration = sc.settings.configuration;
        let frame = self.body.frame;
        &&& is_estimated(
            parts,
            total_len(container.outcome(sc.cur_ref@ as int).contents) as usize,
        )
        &&& is_body(self.body, container, sc)
        &&& is_informed(parts, self.body, configuration, self.informed)
        &&& are_ids(
            parts,
            frame.metadata,
            configuration.version,
            pdf_document(self.informed.1),
            self.ids,
        )
        &&& self.description.of(parts, frame.metadata, sc.settings, frame.num_pages, self.ids)
        &&& self.description.has_packet(
            frame.refs.spec_any() && sc.settings.xmp_metadata,
            self.packet,
        )
    }

    /// What keeps the steps from leading to a file.
    pub open spec fn overflow(self) -> Option<KrillaError> {
        spec_overflow(self.body.frame.refs.spec_any(), self.informed.0, self.packet)
    }

    /// The shortcomings that were found before the end of the file.
    pub open spec fn errors_before_end(self, sc: SerializeContext) -> Seq<ValidationError> {
        sc.validation_errors@ + title_errors(self.body.frame.metadata) + self.description.errors@
    }

    /// Whether the steps lead to this file, and to these shortcomings.
    pub open spec fn lead_to(
        self,
        sc: SerializeContext,
        pdf: Pdf,
        errors: Seq<ValidationError>,
    ) -> bool {
        &&& self.overflow() is None
        &&& is_completed(
            pdf_document(pdf),
            pdf_document(self.informed.1),
            self.body.frame,
            sc.settings,
            self.informed.0,
            self.ids,
            self.packet,
            named(sc.global_objects.named_destinations@),
            sc.global_objects.embedded_files@,
        )
        &&& errors == self.errors_before_end(sc) + errors_at_end(self.body.frame)
    }
}

/// Makes the identifiers of a document.
fn identify<P: DocumentParts>(
    parts: &P,
    metadata: &Option<Metadata>,
    version: PdfVersion,
    pdf: &Pdf,
) -> (ids: Ids)
    ensures
        are_ids(parts, *metadata, version, pdf_document(*pdf), ids),
{
    let bytes = pdf_as_bytes(pdf);
    let instance = parts.stable_hash_base64(IdSource::File(bytes));
    let document = match document_id_source(metadata, version) {
        Some(source) => parts.stable_hash_base64(source),
        None => instance.clone(),
    };
    Ids { document, instance }
}

/// Collects the XMP properties of a document, and writes them into a packet
/// where it is asked for. Returns the shortcomings that are found, too.
fn describe<P: DocumentParts>(
    parts: &P,
    metadata: &Option<Metadata>,
    settings: SerializeSettings,
    num_pages: u32,
    ids: &Ids,
    write: bool,
) -> (result: (Option<String>, Vec<ValidationError>, Ghost<Description>))
    ensures
        result.2@.of(parts, *metadata, settings, num_pages, *ids),
        result.2@.has_packet(write, result.0),
        result.2@.errors == result.1,
{
    let fresh = xmp_new();
    let ghost start = fresh;
    let (described, errors) = match metadata {
        Some(meta) => parts.serialize_xmp_metadata(meta, fresh, settings, &ids.instance),
        None => (fresh, Vec::new()),
    };
    let validated = parts.write_validator_xmp(settings.validator(), described);
    let common = add_common_properties(validated, num_pages, &ids.instance, &ids.document);
    let versioned = parts.write_version_xmp(settings.pdf_version(), common);
    let ghost description = Description {
        fresh: start,
        described,
        errors,
        validated,
        common,
        versioned,
    };
    let packet: Option<String> = if write {
        Some(xmp_finish(versioned))
    } else {
        None
    };
    (packet, errors, Ghost(description))
}

/// The shortcomings of a document with this metadata that concern its title.
pub open spec fn title_errors(metadata: Option<Metadata>) -> Seq<ValidationError> {
    if spec_missing_title(metadata) {
        seq![ValidationError::NoDocumentTitle]
    } else {
        Seq::empty()
    }
}

/// Whether the document was written completely.
pub open spec fn finished<P: DocumentParts>(
    parts: &P,
    container: ChunkContainer,
    before: SerializeContext,
    after: SerializeContext,
    pdf: Pdf,
) -> bool {
    &&& exists|steps: Steps| #[trigger]
        steps.of(parts, container, before) && steps.lead_to(
            before,
            pdf,
            after.validation_errors@,
        )
    &&& strictly_ascending(before.global_objects.embedded_files@)
    &&& after.global_objects.named_destinations@ == Seq::<(NamedDestination, Ref)>::empty()
    &&& after.global_objects.embedded_files@ == Seq::<NameEntry>::empty()
    &&& after == (SerializeContext {
        global_objects: after.global_objects,
        validation_errors: after.validation_errors,
        cur_ref: after.cur_ref,
        ..before
    })
}

/// Whether the writing ended with an error: with that of a chunk, or because
/// the end of the file could not be written.
pub open spec fn failed<P: DocumentParts>(
    parts: &P,
    container: ChunkContainer,
    before: SerializeContext,
    after: SerializeContext,
    error: KrillaError,
) -> bool {
    match container.outcome(before.cur_ref@ as int).error {
        Some(first) => error == first && after == (SerializeContext {
            cur_ref: after.cur_ref,
            ..before
        }),
        None => {
            &&& exists|steps: Steps| #[trigger]
                steps.of(parts, container, before) && steps.overflow() == Some(error)
                    && after.validation_errors@ == steps.errors_before_end(before)
            &&& after == (SerializeContext {
                validation_errors: after.validation_errors,
                cur_ref: after.cur_ref,
                ..before
            })
        },
    }
}

/// Steps that lead to a file finish the document.
proof fn lemma_finished<P: DocumentParts>(
    parts: &P,
    container: ChunkContainer,
    before: SerializeContext,
    after: SerializeContext,
    pdf: Pdf,
    steps: Steps,
)
    requires
        steps.of(parts, container, before),
        steps.overflow() is None,
        is_completed(
            pdf_document(pdf),
            pdf_document(steps.informed.1),
            steps.body.frame,
            before.settings,
            steps.informed.0,
            steps.ids,
            steps.packet,
            named(before.global_objects.named_destinations@),
            before.global_objects.embedded_files@,
        ),
        after.validation_errors@ == steps.errors_before_end(before) + errors_at_end(
            steps.body.frame,
        ),
        strictly_ascending(before.global_objects.embedded_files@),
        after.global_objects.named_destinations@ == Seq::<(NamedDestination, Ref)>::empty(),
        after.global_objects.embedded_files@ == Seq::<NameEntry>::empty(),
        after == (SerializeContext {
            global_objects: after.global_objects,
            validation_errors: after.validation_errors,
            cur_ref: after.cur_ref,
            ..before
        }),
    ensures
        finished(parts, container, before, after, pdf),
{
    assert(steps.lead_to(before, pdf, after.validation_errors@));
}

impl ChunkContainer {
    /// Whether the document can be written: no two objects have the same
    /// number, there are enough numbers for all of them, every number that
    /// occurs belongs to an object, and what the catalog lists fits into it.
    /// Where an error ends the visits to the chunks, nothing of this matters.
    pub open spec fn finishable(self, sc: SerializeContext) -> bool {
        let outcome = self.outcome(sc.cur_ref@ as int);
        let map = renumbering(outcome.contents);
        outcome.error is None ==> {
            &&& numberable(outcome.contents)
            &&& covers_all(map, outcome.contents)
            &&& self.roots_numbered(map)
            &&& self.has_catalog() ==> listable(
                named(sc.global_objects.named_destinations@),
                sc.global_objects.embedded_files@,
                self.embedded_files@.len() == 0,
                sc.settings.configuration.validator,
                map,
            )
        }
    }

    /// Numbers the chunks, and writes them into a new file. The numbers follow
    /// the order of the file, so they grow from object to object.
    fn write_numbered<P: DocumentParts>(self, sc: &mut SerializeContext, parts: &P) -> (result:
        KrillaResult<Body>)
        requires
            self.finishable(*old(sc)),
        ensures
            final(sc).cur_ref@ == self.outcome(old(sc).cur_ref@ as int).next,
            *final(sc) == (SerializeContext { cur_ref: final(sc).cur_ref, ..*old(sc) }),
            match result {
                Ok(body) => {
                    &&& self.outcome(old(sc).cur_ref@ as int).error is None
                    &&& is_estimated(
                        parts,
                        total_len(self.outcome(old(sc).cur_ref@ as int).contents) as usize,
                    )
                    &&& is_body(body, self, *old(sc))
                },
                Err(error) => self.outcome(old(sc).cur_ref@ as int).error == Some(error),
            },
    {
        let mut container = self;
        let numbering = container.number(sc)?;
        let capacity = parts.estimate_capacity(numbering.byte_len);
        proof {
            lemma_covers_by_number(numbering.remapper@, numbering.seen());
        }
        container.write_body(sc, numbering, capacity)
    }

    /// Writes the document. An error of one of the chunks ends the writing. So
    /// does an end of the file that takes too many numbers, or too many bytes.
    #[verifier::rlimit(30)]
    pub fn finish<P: DocumentParts>(self, sc: &mut SerializeContext, parts: &P) -> (result:
        KrillaResult<Pdf>)
        requires
            self.finishable(*old(sc)),
        ensures
            final(sc).cur_ref@ == self.outcome(old(sc).cur_ref@ as int).next,
            match result {
                Ok(pdf) => {
                    &&& self.outcome(old(sc).cur_ref@ as int).error is None
                    &&& finished(parts, self, *old(sc), *final(sc), pdf)
                },
                Err(error) => failed(parts, self, *old(sc), *final(sc), error),
            },
    {
        let settings = sc.serialize_settings();
        let body = self.write_numbered(sc, parts)?;
        let ghost whole = body;
        let Body { pdf, next_ref, frame } = body;
        if missing_title(&frame.metadata) {
            sc.register_validation_error(ValidationError::NoDocumentTitle);
        }
        let informed: (Ref, Pdf) = match &frame.metadata {
            Some(meta) => parts.serialize_document_info(
                meta,
                settings.configuration,
                next_ref,
                pdf,
            ),
            None => (next_ref, pdf),
        };
        let (next, pdf) = informed;
        let ids = identify(parts, &frame.metadata, settings.pdf_version(), &pdf);
        let any = frame.refs.any();
        let (packet, errors, Ghost(description)) = describe(
            parts,
            &frame.metadata,
            settings,
            frame.num_pages,
            &ids,
            any && settings.xmp_metadata,
        );
        sc.register_validation_errors(errors);
        let ghost steps = Steps { body: whole, informed, ids, description, packet };
        proof {
            assert(steps.of(parts, self, *old(sc)));
            assert(sc.validation_errors@ =~= steps.errors_before_end(*old(sc)));
        }
        if let Some(error) = overflow(any, next, &packet) {
            return Err(error);
        }
        let result = complete(pdf, frame, sc, next, ids, packet);
        proof {
            lemma_finished(parts, self, *old(sc), *sc, result, steps);
        }
        Ok(result)
    }
}

} // verus!
