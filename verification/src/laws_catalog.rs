//! What holds of the catalog of every document that is written.

use pdf_writer::{Chunk, Pdf};
use vstd::prelude::*;
use vstd::utf8::encode_utf8;

use crate::body::renumbering;
use crate::catalog::{
    associated_pairs, direction_of, language_of, language_pairs, layout_of, layout_pairs,
    name_items, name_tree, names_pairs, ref_items, ref_pairs, structure_pairs, viewer_pairs,
    CatalogData,
};
use crate::completion::{catalog_data, completed};
use crate::configure::{PdfVersion, ValidationError};
use crate::container::ChunkContainer;
use crate::destinations::{arranged, named, NameEntry, NamedDestination};
use crate::finish::Steps;
use crate::laws_files::{has_a_part, law_body_of_a_file, law_end_of_a_file, leads_to};
use crate::laws_names::{law_destinations_are_listed_by_their_bytes, stands_before};
use crate::metadata::{PageLayout, TextDirection};
use crate::model::{Pair, Value};
use crate::outside::chunk::as_numbers;
use crate::outside::pdf::pdf_document;
use crate::outside::writer::dictionary_text;
use crate::parts::DocumentParts;
use crate::reference::Ref;
use crate::serialize::{SerializeContext, SerializeSettings};
use crate::visit::Visit;

verus! {

/// The place of a key among the keys of a catalog.
pub open spec fn place(key: Seq<char>) -> int {
    if key == "Type"@ {
        0
    } else if key == "Pages"@ {
        1
    } else if key == "Metadata"@ {
        2
    } else if key == "PageLabels"@ {
        3
    } else if key == "OutputIntents"@ {
        4
    } else if key == "Lang"@ {
        5
    } else if key == "StructTreeRoot"@ {
        6
    } else if key == "MarkInfo"@ {
        7
    } else if key == "ViewerPreferences"@ {
        8
    } else if key == "PageLayout"@ {
        9
    } else if key == "Outlines"@ {
        10
    } else if key == "Names"@ {
        11
    } else if key == "AF"@ {
        12
    } else {
        13
    }
}

/// A number that tells the keys apart: by their lengths, and by their first and
/// last characters.
spec fn code(key: Seq<char>) -> int {
    key.len() * 100_000 + (key[0] as int) * 300 + (key[key.len() - 1] as int)
}

proof fn lemma_places()
    ensures
        place("Type"@) == 0,
        place("Pages"@) == 1,
        place("Metadata"@) == 2,
        place("PageLabels"@) == 3,
        place("OutputIntents"@) == 4,
        place("Lang"@) == 5,
        place("StructTreeRoot"@) == 6,
        place("MarkInfo"@) == 7,
        place("ViewerPreferences"@) == 8,
        place("PageLayout"@) == 9,
        place("Outlines"@) == 10,
        place("Names"@) == 11,
        place("AF"@) == 12,
{
    reveal_strlit("Type");
    reveal_strlit("Pages");
    reveal_strlit("Metadata");
    reveal_strlit("PageLabels");
    reveal_strlit("OutputIntents");
    reveal_strlit("Lang");
    reveal_strlit("StructTreeRoot");
    reveal_strlit("MarkInfo");
    reveal_strlit("ViewerPreferences");
    reveal_strlit("PageLayout");
    reveal_strlit("Outlines");
    reveal_strlit("Names");
    reveal_strlit("AF");
    assert(code("Type"@) == 400_000 + 84 * 300 + 101);
    assert(code("Pages"@) == 500_000 + 80 * 300 + 115);
    assert(code("Metadata"@) == 800_000 + 77 * 300 + 97);
    assert(code("PageLabels"@) == 1_000_000 + 80 * 300 + 115);
    assert(code("OutputIntents"@) == 1_300_000 + 79 * 300 + 115);
    assert(code("Lang"@) == 400_000 + 76 * 300 + 103);
    assert(code("StructTreeRoot"@) == 1_400_000 + 83 * 300 + 116);
    assert(code("MarkInfo"@) == 800_000 + 77 * 300 + 111);
    assert(code("ViewerPreferences"@) == 1_700_000 + 86 * 300 + 115);
    assert(code("PageLayout"@) == 1_000_000 + 80 * 300 + 116);
    assert(code("Outlines"@) == 800_000 + 79 * 300 + 115);
    assert(code("Names"@) == 500_000 + 78 * 300 + 115);
    assert(code("AF"@) == 200_000 + 65 * 300 + 70);
}

/// Whether the pairs have keys of a catalog only, and these in their order, so
/// that no key occurs twice.
pub open spec fn in_place(pairs: Seq<Pair>) -> bool {
    &&& forall|i: int| 0 <= i < pairs.len() ==> 0 <= place((#[trigger] pairs[i]).0) < 13
    &&& forall|i: int, j: int|
        0 <= i < j < pairs.len() ==> place((#[trigger] pairs[i]).0) < place(
            (#[trigger] pairs[j]).0,
        )
}

/// Whether all keys have places from `low` up to `high`, and stand in order.
spec fn between(pairs: Seq<Pair>, low: int, high: int) -> bool {
    &&& forall|i: int| 0 <= i < pairs.len() ==> low <= place((#[trigger] pairs[i]).0) < high
    &&& forall|i: int, j: int|
        0 <= i < j < pairs.len() ==> place((#[trigger] pairs[i]).0) < place(
            (#[trigger] pairs[j]).0,
        )
}

proof fn lemma_joined(a: Seq<Pair>, b: Seq<Pair>, middle: int, high: int)
    requires
        between(a, 0, middle),
        between(b, middle, high),
        middle <= high,
        0 <= middle,
    ensures
        between(a + b, 0, high),
        forall|pair: Pair| #[trigger]
            (a + b).contains(pair) <==> a.contains(pair) || b.contains(pair),
{
    let all = a + b;
    assert forall|i: int| 0 <= i < all.len() implies 0 <= place((#[trigger] all[i]).0) < high by {
        if i < a.len() {
            assert(all[i] == a[i]);
        } else {
            assert(all[i] == b[i - a.len()]);
        }
    }
    assert forall|i: int, j: int| 0 <= i < j < all.len() implies place((#[trigger] all[i]).0)
        < place((#[trigger] all[j]).0) by {
        if j < a.len() {
            assert(all[i] == a[i] && all[j] == a[j]);
        } else if i < a.len() {
            assert(all[i] == a[i] && all[j] == b[j - a.len()]);
        } else {
            assert(all[i] == b[i - a.len()] && all[j] == b[j - a.len()]);
        }
    }
    assert forall|pair: Pair| #[trigger] all.contains(pair) <==> a.contains(pair) || b.contains(
        pair,
    ) by {
        if all.contains(pair) {
            let i = all.index_of(pair);
            if i < a.len() {
                assert(a[i] == pair);
            } else {
                assert(b[i - a.len()] == pair);
            }
        }
        if a.contains(pair) {
            assert(all[a.index_of(pair)] == pair);
        }
        if b.contains(pair) {
            assert(all[a.len() + b.index_of(pair)] == pair);
        }
    }
}

/// The number of a part behind its renumbering.
pub open spec fn new_number(part: Option<(Ref, Chunk)>, map: Map<i32, i32>) -> Option<i32> {
    match part {
        Some((r, _)) => Some(map[r@]),
        None => None,
    }
}

/// Whether the pairs have this key exactly where there is a number, and with a
/// reference to it.
pub open spec fn refers_to(pairs: Seq<Pair>, key: Seq<char>, number: Option<i32>) -> bool {
    forall|value: Value| #[trigger]
        pairs.contains((key, value)) <==> number is Some && value == Value::Ref(number->0)
}

/// Whether the pairs have this key exactly where `there` holds, and with this
/// value.
pub open spec fn has_entry(pairs: Seq<Pair>, key: Seq<char>, there: bool, entry: Value) -> bool {
    forall|value: Value| #[trigger] pairs.contains((key, value)) <==> there && value == entry
}

/// Whether the value is a name tree of one node that lists the entries: each
/// name, and behind it the reference under its new number.
pub open spec fn lists_names(value: Value, entries: Seq<NameEntry>, map: Map<i32, i32>) -> bool {
    exists|items: Seq<Value>|
        {
            &&& #[trigger] value_of_tree(items) == value
            &&& items.len() == 2 * entries.len()
            &&& forall|i: int|
                #![trigger entries[i]]
                0 <= i < entries.len() ==> items[2 * i] == Value::Bytes(entries[i].0) && items[2 * i
                    + 1] == Value::Ref(map[entries[i].1@])
        }
}

/// A name tree of one node with these items.
pub open spec fn value_of_tree(items: Seq<Value>) -> Value {
    Value::Dict(seq![("Names"@, Value::Array(items))])
}

/// Whether the items are the references of the files under their new numbers,
/// one for each file and in their order.
pub open spec fn lists_files(items: Seq<Value>, files: Seq<NameEntry>, map: Map<i32, i32>) -> bool {
    &&& items.len() == files.len()
    &&& forall|i: int|
        0 <= i < files.len() ==> items[i] == Value::Ref(map[(#[trigger] files[i]).1@])
}

/// The name that the format has for a layout.
pub open spec fn layout_name(layout: PageLayout) -> Seq<char> {
    match layout {
        PageLayout::SinglePage => "SinglePage"@,
        PageLayout::OneColumn => "OneColumn"@,
        PageLayout::TwoColumnLeft => "TwoColumnLeft"@,
        PageLayout::TwoColumnRight => "TwoColumnRight"@,
        PageLayout::TwoPageLeft => "TwoPageLeft"@,
        PageLayout::TwoPageRight => "TwoPageRight"@,
    }
}

/// The preferences of a viewer: that it shows the title, where it has to, and
/// the direction of the text, where there is one.
pub open spec fn preferences(show_title: bool, direction: Option<TextDirection>) -> Seq<Pair> {
    match (show_title, direction) {
        (true, Some(TextDirection::LeftToRight)) => seq![
            ("DisplayDocTitle"@, Value::Bool(true)),
            ("Direction"@, Value::Name("L2R"@)),
        ],
        (true, Some(TextDirection::RightToLeft)) => seq![
            ("DisplayDocTitle"@, Value::Bool(true)),
            ("Direction"@, Value::Name("R2L"@)),
        ],
        (true, None) => seq![("DisplayDocTitle"@, Value::Bool(true))],
        (false, Some(TextDirection::LeftToRight)) => seq![("Direction"@, Value::Name("L2R"@))],
        (false, Some(TextDirection::RightToLeft)) => seq![("Direction"@, Value::Name("R2L"@))],
        (false, None) => Seq::empty(),
    }
}

/// Whether the pairs say all that the catalog of this document has to say, and
/// nothing else.
pub open spec fn says_all(
    pairs: Seq<Pair>,
    container: ChunkContainer,
    settings: SerializeSettings,
    map: Map<i32, i32>,
    stream: Option<i32>,
    sorted: Seq<NameEntry>,
    files: Seq<NameEntry>,
) -> bool {
    let meta = container.metadata->0;
    let known = container.metadata is Some;
    let version = settings.configuration.version;
    let validator = settings.configuration.validator;
    let listed = if container.embedded_files@.len() == 0 {
        validator.list_no_files
    } else {
        validator.list_files
    };
    &&& in_place(pairs)
    &&& has_entry(pairs, "Type"@, true, Value::Name("Catalog"@))
    &&& refers_to(pairs, "Pages"@, new_number(container.page_tree, map))
    &&& refers_to(pairs, "Metadata"@, stream)
    &&& refers_to(pairs, "PageLabels"@, new_number(container.page_label_tree, map))
    &&& refers_to(pairs, "OutputIntents"@, new_number(container.destination_profiles, map))
    &&& has_entry(
        pairs,
        "Lang"@,
        known && meta.language is Some,
        Value::Text(meta.language->0@),
    )
    &&& refers_to(pairs, "StructTreeRoot"@, new_number(container.struct_tree_root, map))
    &&& has_entry(
        pairs,
        "MarkInfo"@,
        container.struct_tree_root is Some,
        if version == PdfVersion::Pdf16 || version == PdfVersion::Pdf17 {
            Value::Dict(
                seq![("Marked"@, Value::Bool(true)), ("Suspects"@, Value::Bool(false))],
            )
        } else {
            Value::Dict(seq![("Marked"@, Value::Bool(true))])
        },
    )
    &&& has_entry(
        pairs,
        "ViewerPreferences"@,
        validator.display_doc_title || (known && meta.text_direction is Some),
        Value::Dict(
            preferences(
                validator.display_doc_title,
                if known {
                    meta.text_direction
                } else {
                    None
                },
            ),
        ),
    )
    &&& has_entry(
        pairs,
        "PageLayout"@,
        known && meta.page_layout is Some && !(version == PdfVersion::Pdf14 && (
        meta.page_layout->0 == PageLayout::TwoPageLeft || meta.page_layout->0
            == PageLayout::TwoPageRight)),
        Value::Name(layout_name(meta.page_layout->0)),
    )
    &&& refers_to(pairs, "Outlines"@, new_number(container.outline, map))
    &&& (exists|value: Value| #[trigger] pairs.contains(("Names"@, value))) <==> sorted.len() > 0
        || listed
    &&& forall|value: Value| #[trigger]
        pairs.contains(("Names"@, value)) ==> {
            &&& value is Dict
            &&& value->Dict_0.len() == (if sorted.len() > 0 {
                1int
            } else {
                0
            }) + (if listed {
                1int
            } else {
                0
            })
            &&& sorted.len() > 0 ==> value->Dict_0[0].0 == "Dests"@ && lists_names(
                value->Dict_0[0].1,
                sorted,
                map,
            )
            &&& listed ==> value->Dict_0.last().0 == "EmbeddedFiles"@ && lists_names(
                value->Dict_0.last().1,
                files,
                map,
            )
        }
    &&& (exists|value: Value| #[trigger] pairs.contains(("AF"@, value))) <==> files.len() > 0
        && validator.associated_files
    &&& forall|value: Value| #[trigger]
        pairs.contains(("AF"@, value)) ==> value is Array && lists_files(
            value->Array_0,
            files,
            map,
        )
}

proof fn lemma_name_items(entries: Seq<NameEntry>, map: Map<i32, i32>)
    ensures
        name_items(entries, map).len() == 2 * entries.len(),
        forall|i: int|
            #![trigger entries[i]]
            0 <= i < entries.len() ==> name_items(entries, map)[2 * i] == Value::Bytes(
                entries[i].0,
            ) && name_items(entries, map)[2 * i + 1] == Value::Ref(map[entries[i].1@]),
    decreases entries.len(),
{
    if entries.len() > 0 {
        let before = entries.drop_last();
        lemma_name_items(before, map);
        assert forall|i: int|
            #![trigger entries[i]]
            0 <= i < entries.len() implies name_items(entries, map)[2 * i] == Value::Bytes(
            entries[i].0,
        ) && name_items(entries, map)[2 * i + 1] == Value::Ref(map[entries[i].1@]) by {
            if i < before.len() {
                assert(before[i] == entries[i]);
            }
        }
    }
}

proof fn lemma_name_tree_lists(entries: Seq<NameEntry>, map: Map<i32, i32>)
    ensures
        lists_names(name_tree(entries, map), entries, map),
{
    lemma_name_items(entries, map);
    assert(value_of_tree(name_items(entries, map)) == name_tree(entries, map));
}

/// What a list of at most one pair holds.
proof fn lemma_short_list(pairs: Seq<Pair>, low: int)
    requires
        pairs.len() <= 1,
        pairs.len() == 1 ==> place(pairs[0].0) == low,
    ensures
        between(pairs, low, low + 1),
        forall|pair: Pair| #[trigger]
            pairs.contains(pair) <==> pairs.len() == 1 && pair == pairs[0],
{
    assert forall|pair: Pair| #[trigger] pairs.contains(pair) <==> pairs.len() == 1 && pair
        == pairs[0] by {
        if pairs.len() == 1 {
            assert(pairs.contains(pairs[0]));
        }
    }
}

/// The pairs that are joined to a catalog say what each of the lists says.
#[verifier::rlimit(60)]
proof fn lemma_pairs_joined(
    data: CatalogData,
    destinations: Seq<NameEntry>,
    files: Seq<NameEntry>,
    map: Map<i32, i32>,
)
    ensures
        in_place(data.pairs(destinations, files, map)),
        ({
            let version = data.settings.configuration.version;
            let validator = data.settings.configuration.validator;
            let listed = validator.spec_write_embedded_files(data.no_files);
            forall|pair: Pair| #[trigger]
                data.pairs(destinations, files, map).contains(pair) <==> {
                    ||| pair == ("Type"@, Value::Name("Catalog"@))
                    ||| ref_pairs("Pages"@, data.refs.page_tree).contains(pair)
                    ||| ref_pairs("Metadata"@, data.metadata_ref).contains(pair)
                    ||| ref_pairs("PageLabels"@, data.refs.page_label_tree).contains(pair)
                    ||| ref_pairs("OutputIntents"@, data.refs.destination_profiles).contains(pair)
                    ||| language_pairs(language_of(data.metadata)).contains(pair)
                    ||| structure_pairs(data.refs.struct_tree_root, version).contains(pair)
                    ||| viewer_pairs(
                        validator.display_doc_title,
                        direction_of(data.metadata),
                    ).contains(pair)
                    ||| layout_pairs(
                        layout_of(data.metadata),
                        version,
                    ).contains(pair)
                    ||| ref_pairs("Outlines"@, data.refs.outline).contains(pair)
                    ||| names_pairs(destinations, files, listed, map).contains(pair)
                    ||| associated_pairs(files, validator.associated_files, map).contains(pair)
                }
        }),
{
    let version = data.settings.configuration.version;
    let validator = data.settings.configuration.validator;
    let listed = validator.spec_write_embedded_files(data.no_files);
    lemma_places();
    let p0 = seq![("Type"@, Value::Name("Catalog"@))];
    let p1 = ref_pairs("Pages"@, data.refs.page_tree);
    let p2 = ref_pairs("Metadata"@, data.metadata_ref);
    let p3 = ref_pairs("PageLabels"@, data.refs.page_label_tree);
    let p4 = ref_pairs("OutputIntents"@, data.refs.destination_profiles);
    let p5 = language_pairs(language_of(data.metadata));
    let p6 = structure_pairs(data.refs.struct_tree_root, version);
    let p8 = viewer_pairs(
        validator.display_doc_title,
        direction_of(data.metadata),
    );
    let p9 = layout_pairs(layout_of(data.metadata), version);
    let p10 = ref_pairs("Outlines"@, data.refs.outline);
    let p11 = names_pairs(destinations, files, listed, map);
    let p12 = associated_pairs(files, validator.associated_files, map);
    lemma_short_list(p0, 0);
    lemma_short_list(p1, 1);
    lemma_short_list(p2, 2);
    lemma_short_list(p3, 3);
    lemma_short_list(p4, 4);
    lemma_short_list(p5, 5);
    assert(between(p6, 6, 8));
    lemma_short_list(p8, 8);
    lemma_short_list(p9, 9);
    lemma_short_list(p10, 10);
    lemma_short_list(p11, 11);
    lemma_short_list(p12, 12);
    lemma_joined(p0, p1, 1, 2);
    lemma_joined(p0 + p1, p2, 2, 3);
    lemma_joined(p0 + p1 + p2, p3, 3, 4);
    lemma_joined(p0 + p1 + p2 + p3, p4, 4, 5);
    lemma_joined(p0 + p1 + p2 + p3 + p4, p5, 5, 6);
    lemma_joined(p0 + p1 + p2 + p3 + p4 + p5, p6, 6, 8);
    lemma_joined(p0 + p1 + p2 + p3 + p4 + p5 + p6, p8, 8, 9);
    lemma_joined(p0 + p1 + p2 + p3 + p4 + p5 + p6 + p8, p9, 9, 10);
    lemma_joined(p0 + p1 + p2 + p3 + p4 + p5 + p6 + p8 + p9, p10, 10, 11);
    lemma_joined(p0 + p1 + p2 + p3 + p4 + p5 + p6 + p8 + p9 + p10, p11, 11, 12);
    lemma_joined(p0 + p1 + p2 + p3 + p4 + p5 + p6 + p8 + p9 + p10 + p11, p12, 12, 13);
}

/// A list with a reference holds the pair with it, where there is one.
proof fn lemma_ref_list(key: Seq<char>, r: Option<Ref>)
    ensures
        forall|pair: Pair| #[trigger]
            ref_pairs(key, r).contains(pair) <==> r is Some && pair == (key, Value::Ref(r->0@)),
{
    if let Some(r) = r {
        assert(ref_pairs(key, Some(r))[0] == (key, Value::Ref(r@)));
    }
}

/// The other lists hold these pairs.
proof fn lemma_other_lists(
    data: CatalogData,
    destinations: Seq<NameEntry>,
    files: Seq<NameEntry>,
    map: Map<i32, i32>,
)
    ensures
        ({
            let meta = data.metadata->0;
            let known = data.metadata is Some;
            let version = data.settings.configuration.version;
            let validator = data.settings.configuration.validator;
            let listed = if data.no_files {
                validator.list_no_files
            } else {
                validator.list_files
            };
            &&& forall|pair: Pair| #[trigger]
                language_pairs(language_of(data.metadata)).contains(pair) <==> known
                    && meta.language is Some && pair == ("Lang"@, Value::Text(meta.language->0@))
            &&& forall|pair: Pair| #[trigger]
                structure_pairs(data.refs.struct_tree_root, version).contains(pair)
                    <==> data.refs.struct_tree_root is Some && (pair == (
                    "StructTreeRoot"@,
                    Value::Ref(data.refs.struct_tree_root->0@),
                ) || pair == (
                    "MarkInfo"@,
                    if version == PdfVersion::Pdf16 || version == PdfVersion::Pdf17 {
                        Value::Dict(
                            seq![
                                ("Marked"@, Value::Bool(true)),
                                ("Suspects"@, Value::Bool(false)),
                            ],
                        )
                    } else {
                        Value::Dict(seq![("Marked"@, Value::Bool(true))])
                    },
                ))
            &&& forall|pair: Pair| #[trigger]
                viewer_pairs(
                    validator.display_doc_title,
                    direction_of(data.metadata),
                ).contains(pair) <==> (validator.display_doc_title || (known
                    && meta.text_direction is Some)) && pair == (
                    "ViewerPreferences"@,
                    Value::Dict(
                        preferences(
                            validator.display_doc_title,
                            if known {
                                meta.text_direction
                            } else {
                                None
                            },
                        ),
                    ),
                )
            &&& forall|pair: Pair| #[trigger]
                layout_pairs(layout_of(data.metadata), version).contains(pair)
                    <==> known && meta.page_layout is Some && !(version == PdfVersion::Pdf14 && (
                meta.page_layout->0 == PageLayout::TwoPageLeft || meta.page_layout->0
                    == PageLayout::TwoPageRight)) && pair == (
                    "PageLayout"@,
                    Value::Name(layout_name(meta.page_layout->0)),
                )
            &&& listed == validator.spec_write_embedded_files(data.no_files)
            &&& forall|pair: Pair| #[trigger]
                names_pairs(destinations, files, listed, map).contains(pair) <==> (
                destinations.len() > 0 || listed) && pair == names_pairs(
                    destinations,
                    files,
                    listed,
                    map,
                )[0]
            &&& destinations.len() > 0 || listed ==> names_pairs(
                destinations,
                files,
                listed,
                map,
            )[0].0 == "Names"@
            &&& forall|pair: Pair| #[trigger]
                associated_pairs(files, validator.associated_files, map).contains(pair)
                    <==> files.len() > 0 && validator.associated_files && pair == (
                    "AF"@,
                    Value::Array(ref_items(files, map)),
                )
        }),
{
    let meta = data.metadata->0;
    let known = data.metadata is Some;
    let version = data.settings.configuration.version;
    let validator = data.settings.configuration.validator;
    let listed = validator.spec_write_embedded_files(data.no_files);
    let direction = direction_of(data.metadata);
    let language = language_pairs(language_of(data.metadata));
    let structure = structure_pairs(data.refs.struct_tree_root, version);
    let viewer = viewer_pairs(validator.display_doc_title, direction);
    let layout = layout_pairs(layout_of(data.metadata), version);
    let names = names_pairs(destinations, files, listed, map);
    let associated = associated_pairs(files, validator.associated_files, map);
    if language.len() > 0 {
        assert(language.contains(language[0]));
    }
    if structure.len() > 0 {
        assert(structure.contains(structure[0]));
        assert(structure.contains(structure[1]));
        assert(seq![("Marked"@, Value::Bool(true))] + seq![("Suspects"@, Value::Bool(false))]
            =~= seq![("Marked"@, Value::Bool(true)), ("Suspects"@, Value::Bool(false))]);
        assert(seq![("Marked"@, Value::Bool(true))] + Seq::<Pair>::empty() =~= seq![
            ("Marked"@, Value::Bool(true)),
        ]);
        assert forall|pair: Pair| #[trigger] structure.contains(pair) implies pair == structure[0]
            || pair == structure[1] by {
            let i = structure.index_of(pair);
            assert(i == 0 || i == 1);
        }
    }
    if viewer.len() > 0 {
        assert(viewer.contains(viewer[0]));
        assert(viewer[0].1->Dict_0 =~= preferences(
            validator.display_doc_title,
            if known {
                meta.text_direction
            } else {
                None
            },
        ));
    }
    if layout.len() > 0 {
        assert(layout.contains(layout[0]));
    }
    if names.len() > 0 {
        assert(names.contains(names[0]));
    }
    if associated.len() > 0 {
        assert(associated.contains(associated[0]));
    }
}

/// What the tree of names in the catalog holds.
proof fn lemma_names_value(
    destinations: Seq<NameEntry>,
    files: Seq<NameEntry>,
    listed: bool,
    map: Map<i32, i32>,
)
    requires
        destinations.len() > 0 || listed,
    ensures
        ({
            let value = names_pairs(destinations, files, listed, map)[0].1;
            &&& value is Dict
            &&& value->Dict_0.len() == (if destinations.len() > 0 {
                1int
            } else {
                0
            }) + (if listed {
                1int
            } else {
                0
            })
            &&& destinations.len() > 0 ==> value->Dict_0[0].0 == "Dests"@ && lists_names(
                value->Dict_0[0].1,
                destinations,
                map,
            )
            &&& listed ==> value->Dict_0.last().0 == "EmbeddedFiles"@ && lists_names(
                value->Dict_0.last().1,
                files,
                map,
            )
        }),
{
    lemma_name_tree_lists(destinations, map);
    lemma_name_tree_lists(files, map);
}

/// Whether the pair is one of those that a catalog of this document has to have,
/// where `names` is its tree of names and `items` are its associated files.
spec fn is_said(
    pair: Pair,
    container: ChunkContainer,
    settings: SerializeSettings,
    map: Map<i32, i32>,
    stream: Option<i32>,
    names: Option<Value>,
    items: Option<Seq<Value>>,
) -> bool {
    let meta = container.metadata->0;
    let known = container.metadata is Some;
    let version = settings.configuration.version;
    let validator = settings.configuration.validator;
    ||| pair == ("Type"@, Value::Name("Catalog"@))
    ||| is_reference(pair, "Pages"@, new_number(container.page_tree, map))
    ||| is_reference(pair, "Metadata"@, stream)
    ||| is_reference(pair, "PageLabels"@, new_number(container.page_label_tree, map))
    ||| is_reference(pair, "OutputIntents"@, new_number(container.destination_profiles, map))
    ||| known && meta.language is Some && pair == ("Lang"@, Value::Text(meta.language->0@))
    ||| is_reference(pair, "StructTreeRoot"@, new_number(container.struct_tree_root, map))
    ||| container.struct_tree_root is Some && pair == (
        "MarkInfo"@,
        if version == PdfVersion::Pdf16 || version == PdfVersion::Pdf17 {
            Value::Dict(
                seq![("Marked"@, Value::Bool(true)), ("Suspects"@, Value::Bool(false))],
            )
        } else {
            Value::Dict(seq![("Marked"@, Value::Bool(true))])
        },
    )
    ||| (validator.display_doc_title || (known && meta.text_direction is Some)) && pair == (
        "ViewerPreferences"@,
        Value::Dict(
            preferences(
                validator.display_doc_title,
                if known {
                    meta.text_direction
                } else {
                    None
                },
            ),
        ),
    )
    ||| known && meta.page_layout is Some && !(version == PdfVersion::Pdf14 && (
    meta.page_layout->0 == PageLayout::TwoPageLeft || meta.page_layout->0
        == PageLayout::TwoPageRight)) && pair == (
        "PageLayout"@,
        Value::Name(layout_name(meta.page_layout->0)),
    )
    ||| is_reference(pair, "Outlines"@, new_number(container.outline, map))
    ||| names is Some && pair == ("Names"@, names->0)
    ||| items is Some && pair == ("AF"@, Value::Array(items->0))
}

/// Whether there is a number, and the pair is the key with a reference to it.
spec fn is_reference(pair: Pair, key: Seq<char>, number: Option<i32>) -> bool {
    number is Some && pair == (key, Value::Ref(number->0))
}

/// Pairs that are exactly those of `is_said` say all.
proof fn lemma_says_all(
    pairs: Seq<Pair>,
    container: ChunkContainer,
    settings: SerializeSettings,
    map: Map<i32, i32>,
    stream: Option<i32>,
    names: Option<Value>,
    items: Option<Seq<Value>>,
    sorted: Seq<NameEntry>,
    files: Seq<NameEntry>,
)
    requires
        in_place(pairs),
        forall|pair: Pair| #[trigger]
            pairs.contains(pair) <==> is_said(
                pair,
                container,
                settings,
                map,
                stream,
                names,
                items,
            ),
        ({
            let validator = settings.configuration.validator;
            let listed = if container.embedded_files@.len() == 0 {
                validator.list_no_files
            } else {
                validator.list_files
            };
            &&& names is Some <==> sorted.len() > 0 || listed
            &&& names is Some ==> {
                &&& names->0 is Dict
                &&& names->0->Dict_0.len() == (if sorted.len() > 0 {
                    1int
                } else {
                    0
                }) + (if listed {
                    1int
                } else {
                    0
                })
                &&& sorted.len() > 0 ==> names->0->Dict_0[0].0 == "Dests"@ && lists_names(
                    names->0->Dict_0[0].1,
                    sorted,
                    map,
                )
                &&& listed ==> names->0->Dict_0.last().0 == "EmbeddedFiles"@ && lists_names(
                    names->0->Dict_0.last().1,
                    files,
                    map,
                )
            }
            &&& items is Some <==> files.len() > 0 && validator.associated_files
            &&& items is Some ==> lists_files(items->0, files, map)
        }),
    ensures
        says_all(pairs, container, settings, map, stream, sorted, files),
{
    lemma_places();
    if names is Some {
        assert(pairs.contains(("Names"@, names->0)));
    }
    if items is Some {
        assert(pairs.contains(("AF"@, Value::Array(items->0))));
    }
}

/// The catalog that is made from what is known of a document says all that it
/// has to say, and nothing else.
pub proof fn law_catalog_says_all(
    data: CatalogData,
    container: ChunkContainer,
    map: Map<i32, i32>,
    stream: Option<i32>,
    sorted: Seq<NameEntry>,
    files: Seq<NameEntry>,
)
    requires
        leads_to(data.refs.page_tree, container.page_tree, map),
        leads_to(data.refs.outline, container.outline, map),
        leads_to(data.refs.page_label_tree, container.page_label_tree, map),
        leads_to(data.refs.destination_profiles, container.destination_profiles, map),
        leads_to(data.refs.struct_tree_root, container.struct_tree_root, map),
        data.metadata == container.metadata,
        data.no_files == (container.embedded_files@.len() == 0),
        stream is Some <==> data.metadata_ref is Some,
        stream is Some ==> data.metadata_ref->0@ == stream->0,
    ensures
        says_all(
            data.pairs(sorted, files, map),
            container,
            data.settings,
            map,
            stream,
            sorted,
            files,
        ),
{
    let pairs = data.pairs(sorted, files, map);
    let validator = data.settings.configuration.validator;
    let listed = validator.spec_write_embedded_files(data.no_files);
    let names = if sorted.len() > 0 || listed {
        Some(names_pairs(sorted, files, listed, map)[0].1)
    } else {
        None
    };
    let items = if files.len() > 0 && validator.associated_files {
        Some(ref_items(files, map))
    } else {
        None
    };
    assert forall|pair: Pair| #[trigger] pairs.contains(pair) <==> is_said(
        pair,
        container,
        data.settings,
        map,
        stream,
        names,
        items,
    ) by {
        lemma_pairs_joined(data, sorted, files, map);
        lemma_ref_list("Pages"@, data.refs.page_tree);
        lemma_ref_list("Metadata"@, data.metadata_ref);
        lemma_ref_list("PageLabels"@, data.refs.page_label_tree);
        lemma_ref_list("OutputIntents"@, data.refs.destination_profiles);
        lemma_ref_list("Outlines"@, data.refs.outline);
        lemma_other_lists(data, sorted, files, map);
    }
    assert(in_place(pairs)) by {
        lemma_pairs_joined(data, sorted, files, map);
    }
    assert(lists_files(ref_items(files, map), files, map));
    if sorted.len() > 0 || listed {
        lemma_names_value(sorted, files, listed, map);
    }
    lemma_says_all(
        pairs,
        container,
        data.settings,
        map,
        stream,
        names,
        items,
        sorted,
        files,
    );
}

/// Whether the last object of the file is a catalog of these pairs, which say
/// all that they have to say, and list the named destinations in this order: by
/// the bytes of their names.
pub open spec fn ends_with_catalog(
    container: ChunkContainer,
    sc: SerializeContext,
    steps: Steps,
    pdf: Pdf,
    pairs: Seq<Pair>,
    sorted: Seq<NameEntry>,
) -> bool {
    let file = pdf_document(pdf);
    let number = file.objects.last().0;
    &&& file.catalog == Some(number)
    &&& file.objects.last().1 == dictionary_text(number, pairs, file.pretty)
    &&& says_all(
        pairs,
        container,
        sc.settings,
        renumbering(container.outcome(sc.cur_ref@ as int).contents),
        if steps.packet is Some {
            Some(steps.informed.0@)
        } else {
            None
        },
        sorted,
        sc.global_objects.embedded_files@,
    )
    &&& sorted.to_multiset() == sc.global_objects.named_destinations@.map_values(
        |d: (NamedDestination, Ref)| (encode_utf8(d.0.name@), d.1),
    ).to_multiset()
    &&& forall|i: int, j: int|
        0 <= i < j < sorted.len() ==> #[trigger] stands_before(sorted[i].0, sorted[j].0)
}

/// The last object of a finished file with a part for the catalog is the
/// catalog, and its dictionary says all that it has to say, and nothing else.
/// The named destinations in it are those that were collected, by the bytes of
/// their names.
pub proof fn law_catalog_of_a_finished_file<P: DocumentParts>(
    parts: &P,
    container: ChunkContainer,
    sc: SerializeContext,
    steps: Steps,
    pdf: Pdf,
    errors: Seq<ValidationError>,
)
    requires
        steps.of(parts, container, sc),
        steps.lead_to(sc, pdf, errors),
        has_a_part(container),
    ensures
        exists|pairs: Seq<Pair>, sorted: Seq<NameEntry>| #[trigger]
            ends_with_catalog(container, sc, steps, pdf, pairs, sorted),
{
    let file = pdf_document(pdf);
    let frame = steps.body.frame;
    let map = renumbering(container.outcome(sc.cur_ref@ as int).contents);
    let files = sc.global_objects.embedded_files@;
    let destinations = sc.global_objects.named_destinations@;
    law_body_of_a_file(parts, container, sc, steps);
    law_end_of_a_file(parts, container, sc, steps, pdf, errors);
    let sorted = choose|sorted: Seq<NameEntry>| #[trigger]
        arranged(sorted, named(destinations)) && file == completed(
            pdf_document(steps.informed.1),
            frame,
            sc.settings,
            steps.informed.0,
            steps.ids,
            steps.packet,
            sorted,
            files,
        );
    let data = catalog_data(frame, sc.settings, steps.informed.0, steps.packet is Some);
    let stream = if steps.packet is Some {
        Some(steps.informed.0@)
    } else {
        None
    };
    let pairs = data.pairs(sorted, files, as_numbers(frame.remapper@));
    assert(as_numbers(frame.remapper@) == map);
    law_destinations_are_listed_by_their_bytes(sorted, destinations);
    law_catalog_says_all(data, container, map, stream, sorted, files);
    assert(ends_with_catalog(container, sc, steps, pdf, pairs, sorted));
}

/// Where the standard allows associated files and there is at least one embedded
/// file, the catalog has one reference for each of them, under its new number.
/// Else it has none.
pub proof fn law_associated_files(
    pairs: Seq<Pair>,
    container: ChunkContainer,
    settings: SerializeSettings,
    map: Map<i32, i32>,
    stream: Option<i32>,
    sorted: Seq<NameEntry>,
    files: Seq<NameEntry>,
)
    requires
        says_all(pairs, container, settings, map, stream, sorted, files),
    ensures
        settings.configuration.validator.associated_files && files.len() > 0 ==> exists|
            items: Seq<Value>,
        |
            {
                &&& #[trigger] pairs.contains(("AF"@, Value::Array(items)))
                &&& items.len() == files.len()
                &&& forall|i: int|
                    0 <= i < files.len() ==> items[i] == Value::Ref(
                        map[(#[trigger] files[i]).1@],
                    )
            },
{
    if settings.configuration.validator.associated_files && files.len() > 0 {
        let value = choose|value: Value| #[trigger] pairs.contains(("AF"@, value));
        assert(pairs.contains(("AF"@, Value::Array(value->Array_0))));
    }
}

} // verus!
