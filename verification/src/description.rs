//! The XMP properties that every document has.

use vstd::prelude::*;
use xmp_writer::XmpWriter;

use crate::model::decimal;
use crate::outside::xmp::{
    dublin_core_namespace, escaped, media_namespace, paged_namespace, property,
    xmp_document_id, xmp_format, xmp_instance_id, xmp_namespaces, xmp_num_pages,
    xmp_rendition_class_proof, xmp_text,
};

verus! {

/// The text of the properties that every document has: the number of its
/// pages, its format, its identifiers, and that it is a proof copy.
pub open spec fn common_properties(
    num_pages: u32,
    instance_id: Seq<char>,
    document_id: Seq<char>,
) -> Seq<char> {
    property("xmpTPg:NPages"@, decimal(num_pages as nat)) + property(
        "dc:format"@,
        escaped("application/pdf"@),
    ) + property("xmpMM:InstanceID"@, escaped(instance_id)) + property(
        "xmpMM:DocumentID"@,
        escaped(document_id),
    ) + property("xmpMM:RenditionClass"@, "proof"@)
}

/// Adds the properties that every document has.
pub fn add_common_properties(
    xmp: XmpWriter<'static>,
    num_pages: u32,
    instance_id: &String,
    document_id: &String,
) -> (result: XmpWriter<'static>)
    ensures
        xmp_text(result) == xmp_text(xmp) + common_properties(
            num_pages,
            instance_id@,
            document_id@,
        ),
        xmp_namespaces(result) == xmp_namespaces(xmp).insert(paged_namespace()).insert(
            dublin_core_namespace(),
        ).insert(media_namespace()),
{
    let mut result = xmp;
    xmp_num_pages(&mut result, num_pages);
    xmp_format(&mut result, "application/pdf");
    xmp_instance_id(&mut result, instance_id.as_str());
    xmp_document_id(&mut result, document_id.as_str());
    xmp_rendition_class_proof(&mut result);
    proof {
        assert(xmp_text(result) =~= xmp_text(xmp) + common_properties(
            num_pages,
            instance_id@,
            document_id@,
        ));
        assert(xmp_namespaces(result) =~= xmp_namespaces(xmp).insert(paged_namespace()).insert(
            dublin_core_namespace(),
        ).insert(media_namespace()));
    }
    result
}

} // verus!
