//! The end of a file: its identifiers, the metadata stream and the catalog.

use pdf_writer::Pdf;
use vstd::prelude::*;
use vstd::slice::slice_to_vec;
use vstd::utf8::encode_utf8;

use crate::body::Frame;
use crate::catalog::{
    language_errors, language_of, listable, with_catalog, write_catalog, CatalogData,
};
use crate::configure::ValidationError;
use crate::destinations::{arranged, named, NameEntry, NamedDestination};
use crate::embedded_files::strictly_ascending;
use crate::error::KrillaError;
use crate::model::Document;
use crate::outside::chunk::as_numbers;
use crate::outside::pdf::{pdf_document, pdf_set_file_id, pdf_stream, stream_text};
use crate::reference::Ref;
use crate::serialize::{SerializeContext, SerializeSettings};

verus! {

/// The identifiers of a document.
pub struct Ids {
    /// The identifier that all versions of the document share.
    pub document: String,
    /// The identifier of this version.
    pub instance: String,
}

/// The text of a metadata stream.
pub open spec fn metadata_text(number: i32, data: Seq<u8>, pretty: bool) -> Seq<u8> {
    stream_text(number as nat, data, ("Type"@, "Metadata"@), ("Subtype"@, "XML"@), pretty)
}

/// The document with its identifiers in the trailer.
pub open spec fn with_ids(document: Document, ids: Ids) -> Document {
    Document {
        file_id: Some((encode_utf8(ids.document@), encode_utf8(ids.instance@))),
        ..document
    }
}

/// The document with the metadata stream as its last object.
pub open spec fn with_metadata(document: Document, number: i32, data: Seq<u8>) -> Document {
    Document {
        objects: document.objects.push(
            (number, metadata_text(number, data, document.pretty)),
        ),
        ..document
    }
}

/// How many numbers the end of a file takes, where there is a catalog, and where
/// there is a metadata stream.
pub open spec fn numbers_at_end(any: bool, stream: bool) -> int {
    if !any {
        0
    } else if stream {
        2
    } else {
        1
    }
}

/// What keeps the end of a file from being written: it takes more numbers than
/// there are from `next` on, or the metadata does not fit into a stream.
pub open spec fn spec_overflow(
    any: bool,
    next: Ref,
    packet: Option<String>,
) -> Option<KrillaError> {
    if next@ + numbers_at_end(any, packet is Some) > i32::MAX {
        Some(KrillaError::RefsExhausted)
    } else if packet is Some && encode_utf8(packet->0@).len() > i32::MAX {
        Some(KrillaError::MetadataTooLong)
    } else {
        None
    }
}

/// What keeps the end of a file from being written.
pub fn overflow(any: bool, next: Ref, packet: &Option<String>) -> (error: Option<KrillaError>)
    ensures
        error == spec_overflow(any, next, *packet),
{
    let numbers: i32 = if !any {
        0
    } else if packet.is_some() {
        2
    } else {
        1
    };
    if next.get() > i32::MAX - numbers {
        return Some(KrillaError::RefsExhausted);
    }
    match packet {
        Some(text) => if text.as_str().as_bytes().len() > 0x7FFF_FFFF {
            Some(KrillaError::MetadataTooLong)
        } else {
            None
        },
        None => None,
    }
}

/// What the catalog is made from, where the metadata stream, if there is one,
/// gets the reference `next`.
pub open spec fn catalog_data(
    frame: Frame,
    settings: SerializeSettings,
    next: Ref,
    stream: bool,
) -> CatalogData {
    CatalogData {
        refs: frame.refs,
        metadata_ref: if stream {
            Some(next)
        } else {
            None
        },
        metadata: frame.metadata,
        settings,
        no_files: frame.no_files,
    }
}

/// The complete document, where the catalog has a part to refer to. The catalog
/// comes last, and the metadata stream, if there is one, before it. The destinations are given in
/// the order in which the catalog lists them.
pub open spec fn completed(
    document: Document,
    frame: Frame,
    settings: SerializeSettings,
    next: Ref,
    ids: Ids,
    packet: Option<String>,
    destinations: Seq<NameEntry>,
    files: Seq<NameEntry>,
) -> Document {
    let identified = with_ids(document, ids);
    let pairs = catalog_data(frame, settings, next, packet is Some).pairs(
        destinations,
        files,
        as_numbers(frame.remapper@),
    );
    match packet {
        Some(text) => with_catalog(
            with_metadata(identified, next@, encode_utf8(text@)),
            (next@ + 1) as i32,
            pairs,
        ),
        None => with_catalog(identified, next@, pairs),
    }
}

/// Whether `after` is the document with its end written. Where the catalog has
/// no part to refer to, there is none, and no metadata stream either.
pub open spec fn is_completed(
    after: Document,
    document: Document,
    frame: Frame,
    settings: SerializeSettings,
    next: Ref,
    ids: Ids,
    packet: Option<String>,
    destinations: Seq<NameEntry>,
    files: Seq<NameEntry>,
) -> bool {
    if frame.refs.spec_any() {
        exists|sorted: Seq<NameEntry>| #[trigger]
            arranged(sorted, destinations) && after == completed(
                document,
                frame,
                settings,
                next,
                ids,
                packet,
                sorted,
                files,
            )
    } else {
        after == with_ids(document, ids)
    }
}

/// The shortcomings that are found at the end of a file.
pub open spec fn errors_at_end(frame: Frame) -> Seq<ValidationError> {
    if frame.refs.spec_any() {
        language_errors(language_of(frame.metadata))
    } else {
        Seq::empty()
    }
}

/// Writes the end of a file. Takes the named destinations and the embedded
/// files out of the context.
pub fn complete(
    pdf: Pdf,
    frame: Frame,
    sc: &mut SerializeContext,
    next: Ref,
    ids: Ids,
    packet: Option<String>,
) -> (result: Pdf)
    requires
        spec_overflow(frame.refs.spec_any(), next, packet) is None,
        frame.refs.spec_any() ==> listable(
            named(old(sc).global_objects.named_destinations@),
            old(sc).global_objects.embedded_files@,
            frame.no_files,
            old(sc).settings.configuration.validator,
            frame.remapper@,
        ),
    ensures
        is_completed(
            pdf_document(result),
            pdf_document(pdf),
            frame,
            old(sc).settings,
            next,
            ids,
            packet,
            named(old(sc).global_objects.named_destinations@),
            old(sc).global_objects.embedded_files@,
        ),
        strictly_ascending(old(sc).global_objects.embedded_files@),
        final(sc).validation_errors@ == old(sc).validation_errors@ + errors_at_end(frame),
        final(sc).global_objects.named_destinations@ == Seq::<(NamedDestination, Ref)>::empty(),
        final(sc).global_objects.embedded_files@ == Seq::<NameEntry>::empty(),
        *final(sc) == (SerializeContext {
            global_objects: final(sc).global_objects,
            validation_errors: final(sc).validation_errors,
            ..*old(sc)
        }),
{
    let mut pdf = pdf;
    let mut next_ref: Ref = next;
    let settings = sc.serialize_settings();
    pdf_set_file_id(
        &mut pdf,
        slice_to_vec(ids.document.as_str().as_bytes()),
        slice_to_vec(ids.instance.as_str().as_bytes()),
    );
    let named_destinations = sc.global_objects.take_named_destinations();
    let embedded_files = sc.global_objects.take_embedded_files();
    if frame.refs.any() {
        let metadata_ref: Option<Ref> = match &packet {
            Some(text) => {
                let metadata_ref: Ref = next_ref.bump();
                proof {
                    reveal_strlit("Type");
                    reveal_strlit("Metadata");
                    reveal_strlit("Subtype");
                    reveal_strlit("XML");
                }
                pdf_stream(
                    &mut pdf,
                    metadata_ref,
                    text.as_str().as_bytes(),
                    ("Type", "Metadata"),
                    ("Subtype", "XML"),
                );
                Some(metadata_ref)
            },
            None => None,
        };
        let catalog_ref: Ref = next_ref.bump();
        let data = CatalogData {
            refs: frame.refs,
            metadata_ref,
            metadata: frame.metadata,
            settings,
            no_files: frame.no_files,
        };
        write_catalog(
            &mut pdf,
            sc,
            catalog_ref,
            &data,
            &named_destinations,
            &embedded_files,
            &frame.remapper,
        );
    } else {
        assert(sc.validation_errors@ =~= old(sc).validation_errors@ + errors_at_end(frame));
    }
    pdf
}

} // verus!
