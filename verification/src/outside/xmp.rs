//! XMP metadata, as `xmp_writer` writes it.

use vstd::prelude::*;
use xmp_writer::XmpWriter;

use crate::model::decimal;

verus! {

/// `xmp_writer::XmpWriter`, a collection of metadata properties.
#[verifier::external_type_specification]
#[verifier::external_body]
pub struct ExXmpWriter<'a>(xmp_writer::XmpWriter<'a>);

/// The text of the properties that were written so far.
pub uninterp spec fn xmp_text(xmp: XmpWriter) -> Seq<char>;

/// The prefix and the address of each namespace that the properties use.
pub uninterp spec fn xmp_namespaces(xmp: XmpWriter) -> Set<(Seq<char>, Seq<char>)>;

/// The attributes that declare the namespaces, in the order in which the
/// packet has them.
pub uninterp spec fn xmp_attributes(xmp: XmpWriter) -> Seq<char>;

/// A property: an element of the given name that holds `value`.
pub open spec fn property(name: Seq<char>, value: Seq<char>) -> Seq<char> {
    "<"@ + name + ">"@ + value + "</"@ + name + ">"@
}

/// The text with the characters that have a meaning in XML escaped.
pub open spec fn escaped(text: Seq<char>) -> Seq<char> {
    text.flat_map(
        |c: char|
            if c == '<' {
                "&lt;"@
            } else if c == '>' {
                "&gt;"@
            } else if c == '&' {
                "&amp;"@
            } else if c == '\'' {
                "&apos;"@
            } else if c == '"' {
                "&quot;"@
            } else {
                seq![c]
            },
    )
}

/// The namespace of the paged-text properties.
pub open spec fn paged_namespace() -> (Seq<char>, Seq<char>) {
    ("xmpTPg"@, "http://ns.adobe.com/xap/1.0/t/pg/"@)
}

/// The namespace of the Dublin Core properties.
pub open spec fn dublin_core_namespace() -> (Seq<char>, Seq<char>) {
    ("dc"@, "http://purl.org/dc/elements/1.1/"@)
}

/// The namespace of the media management properties.
pub open spec fn media_namespace() -> (Seq<char>, Seq<char>) {
    ("xmpMM"@, "http://ns.adobe.com/xap/1.0/mm/"@)
}

/// The namespace of the packet itself, which is always declared.
pub open spec fn rdf_namespace() -> (Seq<char>, Seq<char>) {
    ("rdf"@, "http://www.w3.org/1999/02/22-rdf-syntax-ns#"@)
}

/// The attributes that declare the given namespaces.
pub open spec fn declarations(namespaces: Seq<(Seq<char>, Seq<char>)>) -> Seq<char> {
    namespaces.flat_map(
        |n: (Seq<char>, Seq<char>)| " xmlns:"@ + n.0 + "=\""@ + n.1 + "\" "@,
    )
}

/// The packet for properties with the text `text`, which use the namespaces
/// that `attributes` declares.
pub open spec fn packet(attributes: Seq<char>, text: Seq<char>) -> Seq<char> {
    "<?xpacket begin=\"\u{feff}\" id=\"W5M0MpCehiHzreSzNTczkc9d\"?>"@
        + "<x:xmpmeta xmlns:x=\"adobe:ns:meta/\" x:xmptk=\"xmp-writer\">"@
        + "<rdf:RDF xmlns:rdf=\"http://www.w3.org/1999/02/22-rdf-syntax-ns#\">"@
        + "<rdf:Description rdf:about=\"\""@ + attributes + ">"@ + text
        + "</rdf:Description></rdf:RDF></x:xmpmeta><?xpacket end=\"r\"?>"@
}

/// Whether `whole` is a packet for properties with the text `text`, and
/// declares the given namespaces in some order.
pub open spec fn is_packet(
    whole: Seq<char>,
    namespaces: Set<(Seq<char>, Seq<char>)>,
    text: Seq<char>,
) -> bool {
    exists|order: Seq<(Seq<char>, Seq<char>)>|
        #![trigger declarations(order)]
        order.to_set().insert(rdf_namespace()) == namespaces.insert(rdf_namespace()) && whole
            == packet(declarations(order), text)
}

/// Calls `xmp_writer::XmpWriter::new`: a writer without properties.
#[verifier::external_body]
pub(crate) fn xmp_new() -> (xmp: XmpWriter<'static>)
    ensures
        xmp_text(xmp) == Seq::<char>::empty(),
        xmp_namespaces(xmp) == Set::<(Seq<char>, Seq<char>)>::empty(),
{
    XmpWriter::new()
}

/// Calls `xmp_writer::XmpWriter::num_pages`: adds the number of pages.
#[verifier::external_body]
pub(crate) fn xmp_num_pages(xmp: &mut XmpWriter<'static>, pages: u32)
    ensures
        xmp_text(*final(xmp)) == xmp_text(*old(xmp)) + property(
            "xmpTPg:NPages"@,
            decimal(pages as nat),
        ),
        xmp_namespaces(*final(xmp)) == xmp_namespaces(*old(xmp)).insert(paged_namespace()),
{
    xmp.num_pages(pages);
}

/// Calls `xmp_writer::XmpWriter::format`: adds the type of the document.
#[verifier::external_body]
pub(crate) fn xmp_format(xmp: &mut XmpWriter<'static>, mime: &str)
    ensures
        xmp_text(*final(xmp)) == xmp_text(*old(xmp)) + property("dc:format"@, escaped(mime@)),
        xmp_namespaces(*final(xmp)) == xmp_namespaces(*old(xmp)).insert(dublin_core_namespace()),
{
    xmp.format(mime);
}

/// Calls `xmp_writer::XmpWriter::instance_id`: adds the identifier of this
/// version of the document.
#[verifier::external_body]
pub(crate) fn xmp_instance_id(xmp: &mut XmpWriter<'static>, id: &str)
    ensures
        xmp_text(*final(xmp)) == xmp_text(*old(xmp)) + property("xmpMM:InstanceID"@, escaped(id@)),
        xmp_namespaces(*final(xmp)) == xmp_namespaces(*old(xmp)).insert(media_namespace()),
{
    xmp.instance_id(id);
}

/// Calls `xmp_writer::XmpWriter::document_id`: adds the identifier that all
/// versions of the document share.
#[verifier::external_body]
pub(crate) fn xmp_document_id(xmp: &mut XmpWriter<'static>, id: &str)
    ensures
        xmp_text(*final(xmp)) == xmp_text(*old(xmp)) + property("xmpMM:DocumentID"@, escaped(id@)),
        xmp_namespaces(*final(xmp)) == xmp_namespaces(*old(xmp)).insert(media_namespace()),
{
    xmp.document_id(id);
}

/// Calls `xmp_writer::XmpWriter::rendition_class` for a proof copy.
#[verifier::external_body]
pub(crate) fn xmp_rendition_class_proof(xmp: &mut XmpWriter<'static>)
    ensures
        xmp_text(*final(xmp)) == xmp_text(*old(xmp)) + property(
            "xmpMM:RenditionClass"@,
            "proof"@,
        ),
        xmp_namespaces(*final(xmp)) == xmp_namespaces(*old(xmp)).insert(media_namespace()),
{
    xmp.rendition_class(xmp_writer::RenditionClass::Proof);
}

/// Calls `xmp_writer::XmpWriter::finish` for the document itself: the packet
/// with all properties, and with the declarations of their namespaces, in an
/// order that depends on the namespaces alone.
#[verifier::external_body]
pub(crate) fn xmp_finish(xmp: XmpWriter<'static>) -> (text: String)
    ensures
        text@ == packet(xmp_attributes(xmp), xmp_text(xmp)),
        is_packet(text@, xmp_namespaces(xmp), xmp_text(xmp)),
{
    xmp.finish(None)
}

} // verus!
