//! The writers that `pdf_writer` lends out for the document catalog and for
//! the dictionaries and arrays in it.
//!
//! While a writer is out, what it borrows from cannot be read. So of each
//! writer two things are named: what was written through it so far, and what
//! it will have written when it is finished. The wrapper that lends the writer
//! speaks of the second; the one that finishes it says that the two agree.

use pdf_writer::writers::Catalog;
use pdf_writer::{Array, Dict, Finish, Pdf};
use vstd::prelude::*;

use crate::model::{Document, Pair, Value};
use crate::outside::pdf::pdf_document;
use crate::reference::Ref;

verus! {

/// `pdf_writer::writers::Catalog`, which writes the document catalog.
#[verifier::external_type_specification]
#[verifier::external_body]
pub struct ExCatalog<'a>(pdf_writer::writers::Catalog<'a>);

/// `pdf_writer::Dict`, which writes a dictionary.
#[verifier::external_type_specification]
#[verifier::external_body]
pub struct ExDict<'a>(pdf_writer::Dict<'a>);

/// `pdf_writer::Array`, which writes an array.
#[verifier::external_type_specification]
#[verifier::external_body]
pub struct ExArray<'a>(pdf_writer::Array<'a>);

/// The pairs that were written to the catalog so far.
pub uninterp spec fn catalog_pairs(catalog: Catalog) -> Seq<Pair>;

/// The pairs that the catalog has when it is finished.
pub uninterp spec fn catalog_written(catalog: Catalog) -> Seq<Pair>;

/// The pairs that were written to the dictionary so far.
pub uninterp spec fn dict_pairs(dict: Dict) -> Seq<Pair>;

/// The pairs that the dictionary has when it is finished.
pub uninterp spec fn dict_written(dict: Dict) -> Seq<Pair>;

/// The items that were written to the array so far.
pub uninterp spec fn array_items(array: Array) -> Seq<Value>;

/// The items that the array has when it is finished.
pub uninterp spec fn array_written(array: Array) -> Seq<Value>;

/// The text of the indirect dictionary that `pdf_writer` writes under the
/// number `number`, for the given pairs.
pub uninterp spec fn dictionary_text(number: i32, pairs: Seq<Pair>, pretty: bool) -> Seq<u8>;

/// Calls `pdf_writer::Pdf::catalog`: starts the document catalog, with its
/// type as the first pair, and makes the trailer name it. Once the catalog is
/// finished, its dictionary is the last object of the file.
#[verifier::external_body]
pub(crate) fn begin_catalog<'a>(pdf: &'a mut Pdf, id: Ref) -> (catalog: Catalog<'a>)
    ensures
        catalog_pairs(catalog) == seq![("Type"@, Value::Name("Catalog"@))],
        pdf_document(*final(pdf)) == (Document {
            objects: pdf_document(*old(pdf)).objects.push(
                (
                    id@,
                    dictionary_text(
                        id@,
                        catalog_written(catalog),
                        pdf_document(*old(pdf)).pretty,
                    ),
                ),
            ),
            catalog: Some(id@),
            ..pdf_document(*old(pdf))
        }),
{
    pdf.catalog(pdf_writer::Ref::new(id.get()))
}

/// Calls `DerefMut::deref_mut` of `pdf_writer::writers::Catalog`: the
/// dictionary that the catalog writes to.
#[verifier::external_body]
pub(crate) fn catalog_dict<'b, 'a>(catalog: &'b mut Catalog<'a>) -> (dict: &'b mut Dict<'a>)
    ensures
        dict_pairs(*dict) == catalog_pairs(*old(catalog)),
        dict_written(*dict) == catalog_written(*old(catalog)),
        catalog_pairs(*final(catalog)) == dict_pairs(*final(dict)),
        catalog_written(*final(catalog)) == dict_written(*final(dict)),
{
    catalog
}

/// Calls `pdf_writer::Finish::finish` on the catalog, which completes it.
#[verifier::external_body]
pub(crate) fn finish_catalog(catalog: Catalog<'_>) -> (written: Ghost<Seq<Pair>>)
    ensures
        written@ == catalog_pairs(catalog),
        written@ == catalog_written(catalog),
{
    let written = Ghost(catalog_pairs(catalog));
    catalog.finish();
    written
}

/// Calls `pdf_writer::Dict::pair` with a reference.
#[verifier::external_body]
pub(crate) fn pair_ref(dict: &mut Dict<'_>, key: &str, value: Ref)
    requires
        dict_pairs(*old(dict)).len() < i32::MAX,
    ensures
        dict_pairs(*final(dict)) == dict_pairs(*old(dict)).push((key@, Value::Ref(value@))),
        dict_written(*final(dict)) == dict_written(*old(dict)),
{
    dict.pair(pdf_writer::Name(key.as_bytes()), pdf_writer::Ref::new(value.get()));
}

/// Calls `pdf_writer::Dict::pair` with a truth value.
#[verifier::external_body]
pub(crate) fn pair_bool(dict: &mut Dict<'_>, key: &str, value: bool)
    requires
        dict_pairs(*old(dict)).len() < i32::MAX,
    ensures
        dict_pairs(*final(dict)) == dict_pairs(*old(dict)).push((key@, Value::Bool(value))),
        dict_written(*final(dict)) == dict_written(*old(dict)),
{
    dict.pair(pdf_writer::Name(key.as_bytes()), value);
}

/// Calls `pdf_writer::Dict::pair` with a name.
#[verifier::external_body]
pub(crate) fn pair_name(dict: &mut Dict<'_>, key: &str, value: &str)
    requires
        dict_pairs(*old(dict)).len() < i32::MAX,
    ensures
        dict_pairs(*final(dict)) == dict_pairs(*old(dict)).push((key@, Value::Name(value@))),
        dict_written(*final(dict)) == dict_written(*old(dict)),
{
    dict.pair(pdf_writer::Name(key.as_bytes()), pdf_writer::Name(value.as_bytes()));
}

/// Calls `pdf_writer::Dict::pair` with a text string.
#[verifier::external_body]
pub(crate) fn pair_text(dict: &mut Dict<'_>, key: &str, value: &str)
    requires
        dict_pairs(*old(dict)).len() < i32::MAX,
    ensures
        dict_pairs(*final(dict)) == dict_pairs(*old(dict)).push((key@, Value::Text(value@))),
        dict_written(*final(dict)) == dict_written(*old(dict)),
{
    dict.pair(pdf_writer::Name(key.as_bytes()), pdf_writer::TextStr(value));
}

/// Calls `pdf_writer::Dict::insert` and `pdf_writer::Obj::dict`: starts a
/// dictionary as the value of a pair.
#[verifier::external_body]
pub(crate) fn insert_dict<'b, 'a>(dict: &'b mut Dict<'a>, key: &str) -> (inner: Dict<'b>)
    requires
        dict_pairs(*old(dict)).len() < i32::MAX,
    ensures
        dict_pairs(inner) == Seq::<Pair>::empty(),
        dict_pairs(*final(dict)) == dict_pairs(*old(dict)).push(
            (key@, Value::Dict(dict_written(inner))),
        ),
        dict_written(*final(dict)) == dict_written(*old(dict)),
{
    dict.insert(pdf_writer::Name(key.as_bytes())).dict()
}

/// Calls `pdf_writer::Finish::finish` on a dictionary, which completes it.
#[verifier::external_body]
pub(crate) fn finish_dict(dict: Dict<'_>) -> (written: Ghost<Seq<Pair>>)
    ensures
        written@ == dict_pairs(dict),
        written@ == dict_written(dict),
{
    let written = Ghost(dict_pairs(dict));
    dict.finish();
    written
}

/// Calls `pdf_writer::Dict::insert` and `pdf_writer::Obj::array`: starts an
/// array as the value of a pair.
#[verifier::external_body]
pub(crate) fn insert_array<'b, 'a>(dict: &'b mut Dict<'a>, key: &str) -> (inner: Array<'b>)
    requires
        dict_pairs(*old(dict)).len() < i32::MAX,
    ensures
        array_items(inner) == Seq::<Value>::empty(),
        dict_pairs(*final(dict)) == dict_pairs(*old(dict)).push(
            (key@, Value::Array(array_written(inner))),
        ),
        dict_written(*final(dict)) == dict_written(*old(dict)),
{
    dict.insert(pdf_writer::Name(key.as_bytes())).array()
}

/// Calls `pdf_writer::Array::item` with a reference.
#[verifier::external_body]
pub(crate) fn item_ref(array: &mut Array<'_>, value: Ref)
    requires
        array_items(*old(array)).len() < i32::MAX,
    ensures
        array_items(*final(array)) == array_items(*old(array)).push(Value::Ref(value@)),
        array_written(*final(array)) == array_written(*old(array)),
{
    array.item(pdf_writer::Ref::new(value.get()));
}

/// Calls `pdf_writer::Array::item` with a string of bytes.
#[verifier::external_body]
pub(crate) fn item_bytes(array: &mut Array<'_>, value: &[u8])
    requires
        array_items(*old(array)).len() < i32::MAX,
    ensures
        array_items(*final(array)) == array_items(*old(array)).push(Value::Bytes(value@)),
        array_written(*final(array)) == array_written(*old(array)),
{
    array.item(pdf_writer::Str(value));
}

/// Calls `pdf_writer::Finish::finish` on an array, which completes it.
#[verifier::external_body]
pub(crate) fn finish_array(array: Array<'_>) -> (written: Ghost<Seq<Value>>)
    ensures
        written@ == array_items(array),
        written@ == array_written(array),
{
    let written = Ghost(array_items(array));
    array.finish();
    written
}

} // verus!
