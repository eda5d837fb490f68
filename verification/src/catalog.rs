//! The document catalog.

use pdf_writer::{Array, Dict, Pdf};
use std::collections::HashMap;
use vstd::prelude::*;
use vstd::utf8::encode_utf8;

use crate::configure::{PdfVersion, ValidationError, Validator};
use crate::destinations::{arranged, named, sorted_by_name, NameEntry, NamedDestination};
use crate::embedded_files::EmbeddedFiles;
use crate::metadata::{Metadata, PageLayout, TextDirection};
use crate::model::{Document, Pair, Value};
use crate::outside::chunk::{as_numbers, mapped};
use crate::outside::pdf::pdf_document;
use crate::outside::writer::{
    array_items, array_written, begin_catalog, catalog_dict, dict_pairs, dict_written,
    dictionary_text, finish_array, finish_catalog, finish_dict, insert_array, insert_dict,
    item_bytes, item_ref, pair_bool, pair_name, pair_ref, pair_text,
};
use crate::reference::Ref;
use crate::serialize::{SerializeContext, SerializeSettings};

verus! {

broadcast use vstd::std_specs::hash::group_hash_axioms;

/// The references that the catalog gives to the parts of the document, as far
/// as the document has these parts.
#[derive(Clone, Copy, PartialEq, Eq, Structural, Debug)]
pub struct CatalogRefs {
    /// The page tree.
    pub page_tree: Option<Ref>,
    /// The outline.
    pub outline: Option<Ref>,
    /// The page label tree.
    pub page_label_tree: Option<Ref>,
    /// The destination profiles.
    pub destination_profiles: Option<Ref>,
    /// The root of the structure tree.
    pub struct_tree_root: Option<Ref>,
}

impl CatalogRefs {
    /// Whether the document has one of the parts.
    pub open spec fn spec_any(self) -> bool {
        self.page_tree is Some || self.outline is Some || self.page_label_tree is Some
            || self.destination_profiles is Some || self.struct_tree_root is Some
    }

    /// Whether the document has one of the parts.
    pub fn any(self) -> (any: bool)
        ensures
            any == self.spec_any(),
    {
        self.page_tree.is_some() || self.outline.is_some() || self.page_label_tree.is_some()
            || self.destination_profiles.is_some() || self.struct_tree_root.is_some()
    }
}

/// A pair with a reference, where there is one.
pub open spec fn ref_pairs(key: Seq<char>, r: Option<Ref>) -> Seq<Pair> {
    match r {
        Some(r) => seq![(key, Value::Ref(r@))],
        None => Seq::empty(),
    }
}

/// The language that the metadata gives.
pub open spec fn language_of(metadata: Option<Metadata>) -> Option<Seq<char>> {
    match metadata {
        Some(meta) => match meta.language {
            Some(language) => Some(language@),
            None => None,
        },
        None => None,
    }
}

/// The direction of the text that the metadata gives.
pub open spec fn direction_of(metadata: Option<Metadata>) -> Option<TextDirection> {
    match metadata {
        Some(meta) => meta.text_direction,
        None => None,
    }
}

/// The layout of the pages that the metadata gives.
pub open spec fn layout_of(metadata: Option<Metadata>) -> Option<PageLayout> {
    match metadata {
        Some(meta) => meta.page_layout,
        None => None,
    }
}

/// The pair for the language.
pub open spec fn language_pairs(language: Option<Seq<char>>) -> Seq<Pair> {
    match language {
        Some(language) => seq![("Lang"@, Value::Text(language))],
        None => Seq::empty(),
    }
}

/// The shortcomings of a catalog with this language.
pub open spec fn language_errors(language: Option<Seq<char>>) -> Seq<ValidationError> {
    match language {
        Some(_) => Seq::empty(),
        None => seq![ValidationError::NoDocumentLanguage],
    }
}

/// The pairs for the structure tree: the reference to its root, and that the
/// document is marked. From PDF 1.6 on and before PDF 2.0 it also says that
/// there are no suspects.
pub open spec fn structure_pairs(root: Option<Ref>, version: PdfVersion) -> Seq<Pair> {
    match root {
        Some(root) => {
            let marked = seq![("Marked"@, Value::Bool(true))];
            let suspects = if version.spec_at_least(PdfVersion::Pdf16) && !version.spec_at_least(
                PdfVersion::Pdf20,
            ) {
                seq![("Suspects"@, Value::Bool(false))]
            } else {
                Seq::empty()
            };
            seq![
                ("StructTreeRoot"@, Value::Ref(root@)),
                ("MarkInfo"@, Value::Dict(marked + suspects)),
            ]
        },
        None => Seq::empty(),
    }
}

/// The pair for the preferences of the viewer, where there are any.
pub open spec fn viewer_pairs(display_title: bool, direction: Option<TextDirection>) -> Seq<Pair> {
    let title = if display_title {
        seq![("DisplayDocTitle"@, Value::Bool(true))]
    } else {
        Seq::empty()
    };
    let reading = match direction {
        Some(direction) => seq![("Direction"@, Value::Name(direction.spec_to_pdf()))],
        None => Seq::empty(),
    };
    if display_title || direction is Some {
        seq![("ViewerPreferences"@, Value::Dict(title + reading))]
    } else {
        Seq::empty()
    }
}

/// The pair for the layout of the pages. The layouts with two pages at a time
/// came with PDF 1.5.
pub open spec fn layout_pairs(layout: Option<PageLayout>, version: PdfVersion) -> Seq<Pair> {
    match layout {
        Some(layout) => {
            if version.spec_at_least(PdfVersion::Pdf15) || !(layout == PageLayout::TwoPageLeft
                || layout == PageLayout::TwoPageRight) {
                seq![("PageLayout"@, Value::Name(layout.spec_to_pdf()))]
            } else {
                Seq::empty()
            }
        },
        None => Seq::empty(),
    }
}

/// The items of a name tree: each name, followed by the reference under its
/// new number.
pub open spec fn name_items(entries: Seq<NameEntry>, map: Map<i32, i32>) -> Seq<Value>
    decreases entries.len(),
{
    if entries.len() == 0 {
        Seq::empty()
    } else {
        name_items(entries.drop_last(), map).push(Value::Bytes(entries.last().0)).push(
            Value::Ref(map[entries.last().1@]),
        )
    }
}

/// The references of the entries under their new numbers.
pub open spec fn ref_items(entries: Seq<NameEntry>, map: Map<i32, i32>) -> Seq<Value> {
    entries.map_values(|entry: NameEntry| Value::Ref(map[entry.1@]))
}

/// A name tree of one node.
pub open spec fn name_tree(entries: Seq<NameEntry>, map: Map<i32, i32>) -> Value {
    Value::Dict(seq![("Names"@, Value::Array(name_items(entries, map)))])
}

/// The pair for the name trees: that of the destinations, where there are any,
/// and that of the embedded files, where they are listed.
pub open spec fn names_pairs(
    destinations: Seq<NameEntry>,
    files: Seq<NameEntry>,
    list_files: bool,
    map: Map<i32, i32>,
) -> Seq<Pair> {
    let of_destinations = if destinations.len() > 0 {
        seq![("Dests"@, name_tree(destinations, map))]
    } else {
        Seq::empty()
    };
    let of_files = if list_files {
        seq![("EmbeddedFiles"@, name_tree(files, map))]
    } else {
        Seq::empty()
    };
    if destinations.len() > 0 || list_files {
        seq![("Names"@, Value::Dict(of_destinations + of_files))]
    } else {
        Seq::empty()
    }
}

/// The pair for the associated files, where there are any and they are allowed.
pub open spec fn associated_pairs(
    files: Seq<NameEntry>,
    allowed: bool,
    map: Map<i32, i32>,
) -> Seq<Pair> {
    if files.len() > 0 && allowed {
        seq![("AF"@, Value::Array(ref_items(files, map)))]
    } else {
        Seq::empty()
    }
}

/// What the catalog of a document is made from.
pub struct CatalogData {
    /// The references to the parts of the document.
    pub refs: CatalogRefs,
    /// The reference to the metadata stream.
    pub metadata_ref: Option<Ref>,
    /// The metadata.
    pub metadata: Option<Metadata>,
    /// How the document is written.
    pub settings: SerializeSettings,
    /// Whether no embedded files were written.
    pub no_files: bool,
}

impl CatalogData {
    /// The pairs of the catalog, in the order in which they are written.
    pub open spec fn pairs(
        self,
        destinations: Seq<NameEntry>,
        files: Seq<NameEntry>,
        map: Map<i32, i32>,
    ) -> Seq<Pair> {
        let version = self.settings.configuration.version;
        let validator = self.settings.configuration.validator;
        seq![("Type"@, Value::Name("Catalog"@))] + ref_pairs("Pages"@, self.refs.page_tree)
            + ref_pairs("Metadata"@, self.metadata_ref) + ref_pairs(
            "PageLabels"@,
            self.refs.page_label_tree,
        ) + ref_pairs("OutputIntents"@, self.refs.destination_profiles) + language_pairs(
            language_of(self.metadata),
        ) + structure_pairs(self.refs.struct_tree_root, version) + viewer_pairs(
            validator.display_doc_title,
            direction_of(self.metadata),
        ) + layout_pairs(layout_of(self.metadata), version) + ref_pairs(
            "Outlines"@,
            self.refs.outline,
        ) + names_pairs(
            destinations,
            files,
            validator.spec_write_embedded_files(self.no_files),
            map,
        ) + associated_pairs(files, validator.associated_files, map)
    }
}

/// Whether all entries that the catalog lists can be written: the map gives
/// something for their references, and the entries fit into an array.
pub open spec fn listable<V>(
    destinations: Seq<NameEntry>,
    files: Seq<NameEntry>,
    no_files: bool,
    validator: Validator,
    map: Map<i32, V>,
) -> bool {
    &&& 2 * destinations.len() <= i32::MAX
    &&& entries_covered(destinations, map)
    &&& validator.spec_write_embedded_files(no_files) ==> 2 * files.len() <= i32::MAX
        && entries_covered(files, map)
    &&& validator.associated_files ==> files.len() <= i32::MAX && entries_covered(files, map)
}

/// The document with a catalog of these pairs as its last object.
pub open spec fn with_catalog(document: Document, number: i32, pairs: Seq<Pair>) -> Document {
    Document {
        objects: document.objects.push((number, dictionary_text(number, pairs, document.pretty))),
        catalog: Some(number),
        ..document
    }
}

/// Whether the map gives something for the reference of every entry.
pub open spec fn entries_covered<V>(entries: Seq<NameEntry>, map: Map<i32, V>) -> bool {
    forall|i: int| 0 <= i < entries.len() ==> map.contains_key(#[trigger] entries[i].1@)
}

/// Writes a pair with a reference, where there is one.
fn write_ref(dict: &mut Dict<'_>, key: &str, r: Option<Ref>)
    requires
        dict_pairs(*old(dict)).len() < i32::MAX,
    ensures
        dict_pairs(*final(dict)) == dict_pairs(*old(dict)) + ref_pairs(key@, r),
        dict_written(*final(dict)) == dict_written(*old(dict)),
{
    if let Some(r) = r {
        pair_ref(dict, key, r);
    }
    assert(dict_pairs(*dict) =~= dict_pairs(*old(dict)) + ref_pairs(key@, r));
}

/// Writes the language, or notes down that there is none.
fn write_language(dict: &mut Dict<'_>, metadata: &Option<Metadata>, sc: &mut SerializeContext)
    requires
        dict_pairs(*old(dict)).len() < i32::MAX,
    ensures
        dict_pairs(*final(dict)) == dict_pairs(*old(dict)) + language_pairs(
            language_of(*metadata),
        ),
        dict_written(*final(dict)) == dict_written(*old(dict)),
        final(sc).validation_errors@ == old(sc).validation_errors@ + language_errors(
            language_of(*metadata),
        ),
        *final(sc) == (SerializeContext {
            validation_errors: final(sc).validation_errors,
            ..*old(sc)
        }),
{
    let language: Option<&String> = match metadata {
        Some(meta) => match &meta.language {
            Some(language) => Some(language),
            None => None,
        },
        None => None,
    };
    if let Some(language) = language {
        pair_text(dict, "Lang", language.as_str());
    } else {
        sc.register_validation_error(ValidationError::NoDocumentLanguage);
    }
    assert(dict_pairs(*dict) =~= dict_pairs(*old(dict)) + language_pairs(language_of(*metadata)));
    assert(sc.validation_errors@ =~= old(sc).validation_errors@ + language_errors(
        language_of(*metadata),
    ));
}

/// Writes what the catalog says about the structure of the document.
fn write_structure(dict: &mut Dict<'_>, root: Option<Ref>, version: PdfVersion)
    requires
        dict_pairs(*old(dict)).len() + 1 < i32::MAX,
    ensures
        dict_pairs(*final(dict)) == dict_pairs(*old(dict)) + structure_pairs(root, version),
        dict_written(*final(dict)) == dict_written(*old(dict)),
{
    if let Some(root) = root {
        pair_ref(dict, "StructTreeRoot", root);
        let mut mark_info = insert_dict(dict, "MarkInfo");
        pair_bool(&mut mark_info, "Marked", true);
        if version.at_least(PdfVersion::Pdf16) && !version.at_least(PdfVersion::Pdf20) {
            // There are never any suspects. PDF/UA asks for this to be said.
            pair_bool(&mut mark_info, "Suspects", false);
        }
        let Ghost(written) = finish_dict(mark_info);
        proof {
            let suspects = if version.spec_at_least(PdfVersion::Pdf16) && !version.spec_at_least(
                PdfVersion::Pdf20,
            ) {
                seq![("Suspects"@, Value::Bool(false))]
            } else {
                Seq::empty()
            };
            assert(written =~= seq![("Marked"@, Value::Bool(true))] + suspects);
        }
    }
    assert(dict_pairs(*dict) =~= dict_pairs(*old(dict)) + structure_pairs(root, version));
}

/// Writes the preferences of the viewer.
fn write_viewer_preferences(
    dict: &mut Dict<'_>,
    display_title: bool,
    direction: Option<TextDirection>,
)
    requires
        dict_pairs(*old(dict)).len() < i32::MAX,
    ensures
        dict_pairs(*final(dict)) == dict_pairs(*old(dict)) + viewer_pairs(display_title, direction),
        dict_written(*final(dict)) == dict_written(*old(dict)),
{
    if display_title || direction.is_some() {
        let mut preferences = insert_dict(dict, "ViewerPreferences");
        if display_title {
            pair_bool(&mut preferences, "DisplayDocTitle", true);
        }
        if let Some(direction) = direction {
            pair_name(&mut preferences, "Direction", direction.to_pdf());
        }
        let Ghost(written) = finish_dict(preferences);
        proof {
            let title = if display_title {
                seq![("DisplayDocTitle"@, Value::Bool(true))]
            } else {
                Seq::empty()
            };
            let reading = match direction {
                Some(direction) => seq![("Direction"@, Value::Name(direction.spec_to_pdf()))],
                None => Seq::empty(),
            };
            assert(written =~= title + reading);
        }
    }
    assert(dict_pairs(*dict) =~= dict_pairs(*old(dict)) + viewer_pairs(display_title, direction));
}

/// Writes the layout of the pages.
fn write_layout(dict: &mut Dict<'_>, layout: Option<PageLayout>, version: PdfVersion)
    requires
        dict_pairs(*old(dict)).len() < i32::MAX,
    ensures
        dict_pairs(*final(dict)) == dict_pairs(*old(dict)) + layout_pairs(layout, version),
        dict_written(*final(dict)) == dict_written(*old(dict)),
{
    if let Some(layout) = layout {
        if version.at_least(PdfVersion::Pdf15) || !(layout == PageLayout::TwoPageLeft || layout
            == PageLayout::TwoPageRight) {
            pair_name(dict, "PageLayout", layout.to_pdf());
        }
    }
    assert(dict_pairs(*dict) =~= dict_pairs(*old(dict)) + layout_pairs(layout, version));
}

/// An entry has two items in a name tree.
proof fn lemma_name_items_len(entries: Seq<NameEntry>, map: Map<i32, i32>)
    ensures
        name_items(entries, map).len() == 2 * entries.len(),
    decreases entries.len(),
{
    if entries.len() > 0 {
        lemma_name_items_len(entries.drop_last(), map);
    }
}

/// Writes an entry of a name tree.
fn write_entry(
    array: &mut Array<'_>,
    name: &str,
    r: Ref,
    remapper: &HashMap<i32, Ref>,
    Ghost(before): Ghost<Seq<NameEntry>>,
)
    requires
        remapper@.contains_key(r@),
        2 * before.len() + 1 < i32::MAX,
        array_items(*old(array)) == name_items(before, as_numbers(remapper@)),
    ensures
        array_items(*final(array)) == name_items(
            before.push((encode_utf8(name@), r)),
            as_numbers(remapper@),
        ),
        array_written(*final(array)) == array_written(*old(array)),
{
    proof {
        lemma_name_items_len(before, as_numbers(remapper@));
        assert(before.push((encode_utf8(name@), r)).drop_last() =~= before);
    }
    item_bytes(array, name.as_bytes());
    item_ref(array, mapped(remapper, r.get()));
}

/// Writes the name tree of the destinations, in ascending order of their names.
fn write_destinations(
    names: &mut Dict<'_>,
    destinations: &Vec<(NamedDestination, Ref)>,
    remapper: &HashMap<i32, Ref>,
) -> (sorted: Ghost<Seq<NameEntry>>)
    requires
        dict_pairs(*old(names)).len() < i32::MAX,
        2 * destinations@.len() <= i32::MAX,
        entries_covered(named(destinations@), remapper@),
    ensures
        arranged(sorted@, named(destinations@)),
        dict_pairs(*final(names)) == dict_pairs(*old(names)).push(
            ("Dests"@, name_tree(sorted@, as_numbers(remapper@))),
        ),
        dict_written(*final(names)) == dict_written(*old(names)),
{
    let order = sorted_by_name(destinations);
    let ghost map = as_numbers(remapper@);
    let ghost entries = named(destinations@);
    let ghost sorted = order@.map_values(|i: usize| named(destinations@)[i as int]);
    let mut tree = insert_dict(names, "Dests");
    let mut array = insert_array(&mut tree, "Names");
    let ghost end = array_written(array);
    let mut i: usize = 0;
    assert(sorted.take(0) =~= Seq::<NameEntry>::empty());
    while i < order.len()
        invariant
            i <= order@.len(),
            order@.len() == destinations@.len(),
            2 * destinations@.len() <= i32::MAX,
            forall|k: int| 0 <= k < order@.len() ==> #[trigger] order@[k] < destinations@.len(),
            entries == named(destinations@),
            entries_covered(entries, remapper@),
            sorted == order@.map_values(|i: usize| named(destinations@)[i as int]),
            map == as_numbers(remapper@),
            array_items(array) == name_items(sorted.take(i as int), map),
            array_written(array) == end,
        decreases order@.len() - i,
    {
        let at: usize = order[i];
        let (name, r) = (&destinations[at].0.name, destinations[at].1);
        proof {
            assert(entries[at as int].1 == r);
            assert(sorted.take(i + 1) =~= sorted.take(i as int).push(entries[at as int]));
        }
        write_entry(&mut array, name.as_str(), r, remapper, Ghost(sorted.take(i as int)));
        i += 1;
    }
    assert(sorted.take(i as int) =~= sorted);
    let Ghost(items) = finish_array(array);
    let Ghost(written) = finish_dict(tree);
    proof {
        assert(written =~= seq![("Names"@, Value::Array(items))]);
    }
    Ghost(sorted)
}

/// Writes the name tree of the embedded files.
fn write_files(names: &mut Dict<'_>, files: &EmbeddedFiles, remapper: &HashMap<i32, Ref>)
    requires
        dict_pairs(*old(names)).len() < i32::MAX,
        2 * files@.len() <= i32::MAX,
        entries_covered(files@, remapper@),
    ensures
        dict_pairs(*final(names)) == dict_pairs(*old(names)).push(
            ("EmbeddedFiles"@, name_tree(files@, as_numbers(remapper@))),
        ),
        dict_written(*final(names)) == dict_written(*old(names)),
{
    let ghost map = as_numbers(remapper@);
    let mut tree = insert_dict(names, "EmbeddedFiles");
    let mut array = insert_array(&mut tree, "Names");
    let ghost end = array_written(array);
    let mut i: usize = 0;
    assert(files@.take(0) =~= Seq::<NameEntry>::empty());
    while i < files.len()
        invariant
            i <= files@.len(),
            2 * files@.len() <= i32::MAX,
            entries_covered(files@, remapper@),
            map == as_numbers(remapper@),
            array_items(array) == name_items(files@.take(i as int), map),
            array_written(array) == end,
        decreases files@.len() - i,
    {
        let entry = files.get(i);
        proof {
            assert(files@[i as int].1 == entry.1);
            assert(files@.take(i + 1) =~= files@.take(i as int).push(files@[i as int]));
        }
        write_entry(&mut array, entry.0.as_str(), entry.1, remapper, Ghost(files@.take(i as int)));
        i += 1;
    }
    assert(files@.take(i as int) =~= files@);
    let Ghost(items) = finish_array(array);
    let Ghost(written) = finish_dict(tree);
    proof {
        assert(written =~= seq![("Names"@, Value::Array(items))]);
    }
}

/// Writes the name trees.
fn write_names(
    dict: &mut Dict<'_>,
    destinations: &Vec<(NamedDestination, Ref)>,
    files: &EmbeddedFiles,
    list_files: bool,
    remapper: &HashMap<i32, Ref>,
) -> (sorted: Ghost<Seq<NameEntry>>)
    requires
        dict_pairs(*old(dict)).len() < i32::MAX,
        2 * destinations@.len() <= i32::MAX,
        entries_covered(named(destinations@), remapper@),
        list_files ==> 2 * files@.len() <= i32::MAX && entries_covered(files@, remapper@),
    ensures
        arranged(sorted@, named(destinations@)),
        dict_pairs(*final(dict)) == dict_pairs(*old(dict)) + names_pairs(
            sorted@,
            files@,
            list_files,
            as_numbers(remapper@),
        ),
        dict_written(*final(dict)) == dict_written(*old(dict)),
{
    let ghost mut sorted: Seq<NameEntry> = named(destinations@);
    let ghost map = as_numbers(remapper@);
    if destinations.len() > 0 || list_files {
        let mut names = insert_dict(dict, "Names");
        if destinations.len() > 0 {
            let Ghost(order) = write_destinations(&mut names, destinations, remapper);
            proof {
                sorted = order;
                assert(sorted.to_multiset().len() == named(destinations@).to_multiset().len());
                broadcast use vstd::seq_lib::group_to_multiset_ensures;

                assert(sorted.len() == destinations@.len());
            }
        }
        if list_files {
            write_files(&mut names, files, remapper);
        }
        let Ghost(written) = finish_dict(names);
        proof {
            let of_destinations = if sorted.len() > 0 {
                seq![("Dests"@, name_tree(sorted, map))]
            } else {
                Seq::empty()
            };
            let of_files = if list_files {
                seq![("EmbeddedFiles"@, name_tree(files@, map))]
            } else {
                Seq::empty()
            };
            assert(written =~= of_destinations + of_files);
        }
    }
    assert(dict_pairs(*dict) =~= dict_pairs(*old(dict)) + names_pairs(
        sorted,
        files@,
        list_files,
        map,
    ));
    Ghost(sorted)
}

/// Writes the references to the associated files.
fn write_associated_files(
    dict: &mut Dict<'_>,
    files: &EmbeddedFiles,
    allowed: bool,
    remapper: &HashMap<i32, Ref>,
)
    requires
        dict_pairs(*old(dict)).len() < i32::MAX,
        allowed ==> files@.len() <= i32::MAX && entries_covered(files@, remapper@),
    ensures
        dict_pairs(*final(dict)) == dict_pairs(*old(dict)) + associated_pairs(
            files@,
            allowed,
            as_numbers(remapper@),
        ),
        dict_written(*final(dict)) == dict_written(*old(dict)),
{
    let ghost map = as_numbers(remapper@);
    if files.len() > 0 && allowed {
        let mut array = insert_array(dict, "AF");
        let ghost end = array_written(array);
        let mut i: usize = 0;
        assert(ref_items(files@.take(0), map) =~= Seq::<Value>::empty());
        while i < files.len()
            invariant
                i <= files@.len(),
                files@.len() <= i32::MAX,
                entries_covered(files@, remapper@),
                map == as_numbers(remapper@),
                array_items(array) == ref_items(files@.take(i as int), map),
                array_written(array) == end,
            decreases files@.len() - i,
        {
            let entry = files.get(i);
            assert(files@[i as int].1 == entry.1);
            item_ref(&mut array, mapped(remapper, entry.1.get()));
            assert(ref_items(files@.take(i + 1), map) =~= array_items(array));
            i += 1;
        }
        assert(files@.take(i as int) =~= files@);
        let Ghost(items) = finish_array(array);
    }
    assert(dict_pairs(*dict) =~= dict_pairs(*old(dict)) + associated_pairs(files@, allowed, map));
}

/// Writes the catalog as the last object of the file, under the number `id`.
/// Notes down where the document has no language.
pub fn write_catalog(
    pdf: &mut Pdf,
    sc: &mut SerializeContext,
    id: Ref,
    data: &CatalogData,
    destinations: &Vec<(NamedDestination, Ref)>,
    files: &EmbeddedFiles,
    remapper: &HashMap<i32, Ref>,
)
    requires
        listable(
            named(destinations@),
            files@,
            data.no_files,
            data.settings.configuration.validator,
            remapper@,
        ),
    ensures
        exists|sorted: Seq<NameEntry>|
            arranged(sorted, named(destinations@)) && pdf_document(*final(pdf)) == with_catalog(
                pdf_document(*old(pdf)),
                id@,
                #[trigger] data.pairs(sorted, files@, as_numbers(remapper@)),
            ),
        final(sc).validation_errors@ == old(sc).validation_errors@ + language_errors(
            language_of(data.metadata),
        ),
        *final(sc) == (SerializeContext {
            validation_errors: final(sc).validation_errors,
            ..*old(sc)
        }),
{
    let version = data.settings.pdf_version();
    let validator = data.settings.validator();
    let mut catalog = begin_catalog(pdf, id);
    let dict = catalog_dict(&mut catalog);
    write_ref(dict, "Pages", data.refs.page_tree);
    write_ref(dict, "Metadata", data.metadata_ref);
    write_ref(dict, "PageLabels", data.refs.page_label_tree);
    write_ref(dict, "OutputIntents", data.refs.destination_profiles);
    write_language(dict, &data.metadata, sc);
    write_structure(dict, data.refs.struct_tree_root, version);
    let direction: Option<TextDirection> = match &data.metadata {
        Some(meta) => meta.text_direction,
        None => None,
    };
    write_viewer_preferences(dict, validator.requires_display_doc_title(), direction);
    let layout: Option<PageLayout> = match &data.metadata {
        Some(meta) => meta.page_layout,
        None => None,
    };
    write_layout(dict, layout, version);
    write_ref(dict, "Outlines", data.refs.outline);
    let list_files = validator.write_embedded_files(data.no_files);
    let Ghost(sorted) = write_names(dict, destinations, files, list_files, remapper);
    write_associated_files(dict, files, validator.allows_associated_files(), remapper);
    let Ghost(written) = finish_catalog(catalog);
    assert(written == data.pairs(sorted, files@, as_numbers(remapper@)));
}

} // verus!
