//! Which version of the PDF format is written, and what it has to conform to.

use pdf_writer::Pdf;
use vstd::prelude::*;

use crate::model::Document;
use crate::outside::pdf::{pdf_document, pdf_set_version};

verus! {

/// A version of the PDF format.
#[derive(Clone, Copy, PartialEq, Eq, Structural, Debug)]
pub enum PdfVersion {
    /// PDF 1.4.
    Pdf14,
    /// PDF 1.5.
    Pdf15,
    /// PDF 1.6.
    Pdf16,
    /// PDF 1.7.
    Pdf17,
    /// PDF 2.0.
    Pdf20,
}

/// The header with the digits of the given version in it.
pub open spec fn header_of_version(header: Seq<u8>, version: PdfVersion) -> Seq<u8> {
    header.update(5, (0x30 + version.spec_numbers().0) as u8).update(
        7,
        (0x30 + version.spec_numbers().1) as u8,
    )
}

impl PdfVersion {
    /// The two numbers of the version.
    pub open spec fn spec_numbers(self) -> (u8, u8) {
        match self {
            PdfVersion::Pdf14 => (1, 4),
            PdfVersion::Pdf15 => (1, 5),
            PdfVersion::Pdf16 => (1, 6),
            PdfVersion::Pdf17 => (1, 7),
            PdfVersion::Pdf20 => (2, 0),
        }
    }

    /// Whether this version is `other` or a later one.
    pub open spec fn spec_at_least(self, other: PdfVersion) -> bool {
        let a = self.spec_numbers();
        let b = other.spec_numbers();
        a.0 > b.0 || (a.0 == b.0 && a.1 >= b.1)
    }

    /// The two numbers of the version.
    pub fn numbers(self) -> (numbers: (u8, u8))
        ensures
            numbers == self.spec_numbers(),
    {
        match self {
            PdfVersion::Pdf14 => (1, 4),
            PdfVersion::Pdf15 => (1, 5),
            PdfVersion::Pdf16 => (1, 6),
            PdfVersion::Pdf17 => (1, 7),
            PdfVersion::Pdf20 => (2, 0),
        }
    }

    /// Whether this version is `other` or a later one.
    pub fn at_least(self, other: PdfVersion) -> (at_least: bool)
        ensures
            at_least == self.spec_at_least(other),
    {
        let a = self.numbers();
        let b = other.numbers();
        a.0 > b.0 || (a.0 == b.0 && a.1 >= b.1)
    }

    /// Puts the version into the header of a file.
    pub fn set_version(self, pdf: &mut Pdf)
        requires
            8 <= pdf_document(*old(pdf)).header.len(),
        ensures
            pdf_document(*final(pdf)) == (Document {
                header: header_of_version(pdf_document(*old(pdf)).header, self),
                ..pdf_document(*old(pdf))
            }),
    {
        let numbers = self.numbers();
        pdf_set_version(pdf, numbers.0, numbers.1);
    }
}

/// What a standard that the document has to conform to asks of its catalog and
/// of its header.
#[derive(Clone, Copy, PartialEq, Eq, Structural, Debug)]
pub struct Validator {
    /// The number under which the application knows the standard.
    pub standard: u32,
    /// Whether the header has to mark the file as binary.
    pub binary_header: bool,
    /// Whether viewers have to show the title of the document.
    pub display_doc_title: bool,
    /// Whether the catalog lists the embedded files where there are none.
    pub list_no_files: bool,
    /// Whether the catalog lists the embedded files where there are some.
    pub list_files: bool,
    /// Whether the document may have associated files.
    pub associated_files: bool,
}

impl Validator {
    /// Whether the catalog lists the embedded files.
    pub open spec fn spec_write_embedded_files(self, is_empty: bool) -> bool {
        if is_empty {
            self.list_no_files
        } else {
            self.list_files
        }
    }

    /// Whether the header has to mark the file as binary.
    pub fn requires_binary_header(self) -> (required: bool)
        ensures
            required == self.binary_header,
    {
        self.binary_header
    }

    /// Whether viewers have to show the title of the document.
    pub fn requires_display_doc_title(self) -> (required: bool)
        ensures
            required == self.display_doc_title,
    {
        self.display_doc_title
    }

    /// Whether the catalog lists the embedded files, given whether there are
    /// none.
    pub fn write_embedded_files(self, is_empty: bool) -> (write: bool)
        ensures
            write == self.spec_write_embedded_files(is_empty),
    {
        if is_empty {
            self.list_no_files
        } else {
            self.list_files
        }
    }

    /// Whether the document may have associated files.
    pub fn allows_associated_files(self) -> (allowed: bool)
        ensures
            allowed == self.associated_files,
    {
        self.associated_files
    }
}

/// A version of the format, and a standard to conform to.
#[derive(Clone, Copy, PartialEq, Eq, Structural, Debug)]
pub struct Configuration {
    /// The version of the format.
    pub version: PdfVersion,
    /// What the standard asks for.
    pub validator: Validator,
}

/// A shortcoming of the document that a standard may not allow.
#[derive(Clone, Copy, PartialEq, Eq, Structural, Debug)]
pub enum ValidationError {
    /// The document has no title.
    NoDocumentTitle,
    /// The document has no language.
    NoDocumentLanguage,
    /// A shortcoming that was found outside of the container, under the number
    /// that it has there.
    Other(u32),
}

} // verus!
