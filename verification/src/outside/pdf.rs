//! PDF files that are being written, as `pdf_writer` keeps them.

use pdf_writer::{Chunk, Pdf};
use std::collections::HashMap;
use vstd::prelude::*;
use vstd::utf8::encode_utf8;

use crate::model::{blank_document, decimal, renumbered, texts, Document};
use crate::outside::chunk::{as_numbers, chunk_content, covers, mapped};
use crate::reference::Ref;

verus! {

/// `pdf_writer::Pdf`, a PDF file that is being written.
#[verifier::external_type_specification]
#[verifier::external_body]
pub struct ExPdf(pdf_writer::Pdf);

/// What a PDF file holds: its header, the number and the text of each of its
/// objects, and what its trailer will name.
pub uninterp spec fn pdf_document(pdf: Pdf) -> Document;

/// Whether a name is made of letters of the alphabet alone, which are written as
/// they are.
pub open spec fn plain_name(name: Seq<char>) -> bool {
    forall|i: int|
        0 <= i < name.len() ==> ('A' <= #[trigger] name[i] <= 'Z' || 'a' <= name[i] <= 'z')
}

/// The text of an indirect stream with the given data. Its dictionary has the
/// length, and after it two pairs of plain names.
pub open spec fn stream_text(
    number: nat,
    data: Seq<u8>,
    first: (Seq<char>, Seq<char>),
    second: (Seq<char>, Seq<char>),
    pretty: bool,
) -> Seq<u8> {
    let (indent, space, line) = if pretty {
        ("\n  "@, " "@, "\n"@)
    } else {
        (Seq::empty(), Seq::empty(), Seq::empty())
    };
    let head = decimal(number) + " 0 obj\n<<"@ + indent + "/Length "@ + decimal(data.len())
        + indent + "/"@ + first.0 + space + "/"@ + first.1 + indent + "/"@ + second.0 + space
        + "/"@ + second.1 + line + ">>\nstream\n"@;
    encode_utf8(head) + data + encode_utf8("\nendstream\nendobj\n"@ + line)
}

/// Calls `pdf_writer::Pdf::with_capacity`: a file with the default settings
/// that holds the default header and nothing else. How much memory it reserves
/// is left unsaid.
#[verifier::external_body]
pub(crate) fn pdf_with_capacity(capacity: usize) -> (pdf: Pdf)
    requires
        capacity <= isize::MAX,
    ensures
        pdf_document(pdf) == blank_document(),
{
    Pdf::with_capacity(capacity)
}

/// Calls `pdf_writer::Pdf::set_version`: puts the two digits of the version
/// into the header.
#[verifier::external_body]
pub(crate) fn pdf_set_version(pdf: &mut Pdf, major: u8, minor: u8)
    requires
        8 <= pdf_document(*old(pdf)).header.len(),
        major < 10,
        minor < 10,
    ensures
        pdf_document(*final(pdf)) == (Document {
            header: pdf_document(*old(pdf)).header.update(5, (0x30 + major) as u8).update(
                7,
                (0x30 + minor) as u8,
            ),
            ..pdf_document(*old(pdf))
        }),
{
    pdf.set_version(major, minor);
}

/// Calls `pdf_writer::Pdf::set_binary_marker`: replaces the four bytes in the
/// header that mark the file as binary.
#[verifier::external_body]
pub(crate) fn pdf_set_binary_marker(pdf: &mut Pdf, marker: &[u8; 4])
    requires
        14 <= pdf_document(*old(pdf)).header.len(),
    ensures
        pdf_document(*final(pdf)) == (Document {
            header: pdf_document(*old(pdf)).header.take(10) + marker@ + pdf_document(
                *old(pdf),
            ).header.skip(14),
            ..pdf_document(*old(pdf))
        }),
{
    pdf.set_binary_marker(marker);
}

/// Calls `pdf_writer::Chunk::renumber_into`: appends the renumbered objects of
/// the chunk to the file, and changes nothing else.
#[verifier::external_body]
pub(crate) fn chunk_renumber_into(chunk: &Chunk, pdf: &mut Pdf, map: &HashMap<i32, Ref>)
    requires
        covers(map@, chunk_content(*chunk)),
    ensures
        pdf_document(*final(pdf)) == (Document {
            objects: pdf_document(*old(pdf)).objects + renumbered(
                chunk_content(*chunk).objects,
                as_numbers(map@),
                pdf_document(*old(pdf)).pretty,
            ),
            ..pdf_document(*old(pdf))
        }),
{
    chunk.renumber_into(pdf, |r| pdf_writer::Ref::new(mapped(map, r.get()).get()));
}

/// Calls `pdf_writer::Chunk::as_bytes` on the file: the bytes that were
/// written so far, which are the header and the texts of the objects.
#[verifier::external_body]
pub(crate) fn pdf_as_bytes(pdf: &Pdf) -> (bytes: &[u8])
    ensures
        bytes@ == pdf_document(*pdf).header + texts(pdf_document(*pdf).objects),
{
    pdf.as_bytes()
}

/// Calls `pdf_writer::Pdf::set_file_id`: sets the two byte strings of the file
/// identifier in the trailer.
#[verifier::external_body]
pub(crate) fn pdf_set_file_id(pdf: &mut Pdf, document: Vec<u8>, instance: Vec<u8>)
    ensures
        pdf_document(*final(pdf)) == (Document {
            file_id: Some((document@, instance@)),
            ..pdf_document(*old(pdf))
        }),
{
    pdf.set_file_id((document, instance));
}

/// Calls `pdf_writer::Chunk::stream` on the file, and `pdf_writer::Dict::pair`
/// twice on the stream: appends an indirect stream whose dictionary gets two
/// plain names besides the length.
#[verifier::external_body]
pub(crate) fn pdf_stream(
    pdf: &mut Pdf,
    id: Ref,
    data: &[u8],
    first: (&str, &str),
    second: (&str, &str),
)
    requires
        data@.len() <= i32::MAX,
        plain_name(first.0@),
        plain_name(first.1@),
        plain_name(second.0@),
        plain_name(second.1@),
    ensures
        pdf_document(*final(pdf)) == (Document {
            objects: pdf_document(*old(pdf)).objects.push(
                (
                    id@,
                    stream_text(
                        id@ as nat,
                        data@,
                        (first.0@, first.1@),
                        (second.0@, second.1@),
                        pdf_document(*old(pdf)).pretty,
                    ),
                ),
            ),
            ..pdf_document(*old(pdf))
        }),
{
    pdf.stream(pdf_writer::Ref::new(id.get()), data)
        .pair(pdf_writer::Name(first.0.as_bytes()), pdf_writer::Name(first.1.as_bytes()))
        .pair(pdf_writer::Name(second.0.as_bytes()), pdf_writer::Name(second.1.as_bytes()));
}

} // verus!
