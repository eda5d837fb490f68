//! The parts of a document that are written elsewhere.

use pdf_writer::Pdf;
use vstd::prelude::*;
use xmp_writer::XmpWriter;

use crate::configure::{Configuration, PdfVersion, ValidationError, Validator};
use crate::identity::IdSource;
use crate::metadata::Metadata;
use crate::reference::Ref;
use crate::serialize::SerializeSettings;

verus! {

/// Writes the parts of a document that the container does not know. Nothing is
/// promised of what the methods return.
pub trait DocumentParts: Sized {
    /// How much memory to reserve for the file, where the chunks have this many
    /// bytes.
    fn estimate_capacity(&self, byte_len: usize) -> usize;

    /// Makes an identifier, which is the same for the same source.
    fn stable_hash_base64(&self, source: IdSource<'_>) -> String;

    /// Writes the document information to the file. Takes references from
    /// `next` on, and returns the next one that was not taken.
    fn serialize_document_info(
        &self,
        metadata: &Metadata,
        configuration: Configuration,
        next: Ref,
        pdf: Pdf,
    ) -> (Ref, Pdf);

    /// Adds what the metadata says to the XMP properties. Returns the
    /// shortcomings that it finds, too.
    fn serialize_xmp_metadata(
        &self,
        metadata: &Metadata,
        xmp: XmpWriter<'static>,
        settings: SerializeSettings,
        instance_id: &String,
    ) -> (XmpWriter<'static>, Vec<ValidationError>);

    /// Adds the XMP properties that name the standard the document conforms to.
    fn write_validator_xmp(&self, validator: Validator, xmp: XmpWriter<'static>) -> XmpWriter<
        'static,
    >;

    /// Adds the XMP properties that name the version of the format.
    fn write_version_xmp(&self, version: PdfVersion, xmp: XmpWriter<'static>) -> XmpWriter<
        'static,
    >;
}

} // verus!
