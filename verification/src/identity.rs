//! What the identifiers of a document are made from.

use vstd::prelude::*;

use crate::configure::PdfVersion;
use crate::metadata::Metadata;

verus! {

/// What an identifier is made from.
pub enum IdSource<'a> {
    /// The bytes of the file.
    File(&'a [u8]),
    /// The version of the format, and an identifier from the metadata.
    DocumentId(PdfVersion, &'a String),
    /// The version of the format, the title and the authors.
    TitleAndAuthors(PdfVersion, &'a Option<String>, &'a Option<Vec<String>>),
}

/// Whether the metadata gives no title.
pub open spec fn spec_missing_title(metadata: Option<Metadata>) -> bool {
    match metadata {
        Some(meta) => meta.title is None,
        None => true,
    }
}

/// Whether the metadata gives no title.
pub fn missing_title(metadata: &Option<Metadata>) -> (missing: bool)
    ensures
        missing == spec_missing_title(*metadata),
{
    match metadata {
        Some(meta) => meta.title.is_none(),
        None => true,
    }
}

/// What the identifier that all versions of the document share is made from:
/// the identifier from the metadata, or else the title and the authors, if
/// there are both. `None` where it is the identifier of this version.
pub open spec fn spec_document_id_source<'a>(
    metadata: &'a Option<Metadata>,
    version: PdfVersion,
) -> Option<IdSource<'a>> {
    match metadata {
        Some(meta) => match meta.document_id {
            Some(document_id) => Some(IdSource::DocumentId(version, &document_id)),
            None => if meta.title is Some && meta.authors is Some {
                Some(IdSource::TitleAndAuthors(version, &meta.title, &meta.authors))
            } else {
                None
            },
        },
        None => None,
    }
}

/// What the identifier that all versions of the document share is made from.
pub fn document_id_source<'a>(metadata: &'a Option<Metadata>, version: PdfVersion) -> (source:
    Option<IdSource<'a>>)
    ensures
        source == spec_document_id_source(metadata, version),
{
    match metadata {
        Some(meta) => {
            if let Some(document_id) = &meta.document_id {
                Some(IdSource::DocumentId(version, document_id))
            } else if meta.title.is_some() && meta.authors.is_some() {
                Some(IdSource::TitleAndAuthors(version, &meta.title, &meta.authors))
            } else {
                None
            }
        },
        None => None,
    }
}

} // verus!
