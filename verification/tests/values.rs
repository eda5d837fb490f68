use chunk_container::catalog::CatalogRefs;
use chunk_container::configure::{Configuration, PdfVersion, ValidationError, Validator};
use chunk_container::deferred::Deferred;
use chunk_container::destinations::{sorted_by_name, NamedDestination};
use chunk_container::embedded_files::EmbeddedFiles;
use chunk_container::identity::{document_id_source, missing_title, IdSource};
use chunk_container::metadata::{Metadata, PageLayout, TextDirection};
use chunk_container::names::bytes_leq;
use chunk_container::reference::Ref;
use chunk_container::serialize::{GlobalObjects, SerializeContext, SerializeSettings};

fn validator() -> Validator {
    Validator {
        standard: 6,
        binary_header: true,
        display_doc_title: false,
        list_no_files: false,
        list_files: true,
        associated_files: false,
    }
}

fn settings() -> SerializeSettings {
    SerializeSettings {
        ascii_compatible: false,
        xmp_metadata: true,
        configuration: Configuration { version: PdfVersion::Pdf17, validator: validator() },
    }
}

fn metadata() -> Metadata {
    Metadata {
        title: None,
        authors: None,
        language: None,
        document_id: None,
        text_direction: None,
        page_layout: None,
    }
}

fn destination(name: &str, id: i32) -> (NamedDestination, Ref) {
    (NamedDestination { name: name.to_string() }, Ref::new(id))
}

fn names_in_order(destinations: &Vec<(NamedDestination, Ref)>) -> Vec<String> {
    sorted_by_name(destinations).iter().map(|i| destinations[*i].0.name.clone()).collect()
}

#[test]
fn ref_counts_up() {
    let mut r = Ref::new(41);
    assert_eq!(r.bump().get(), 41);
    assert_eq!(r.get(), 42);
    assert_eq!(r, Ref::new(42));
}

#[test]
fn deferred_value_arrives() {
    let mut deferred = Deferred::new(7);
    assert_eq!(*deferred.wait(), 7);
}

#[test]
fn bytes_are_compared_one_by_one() {
    assert!(bytes_leq(b"", b""));
    assert!(bytes_leq(b"", b"a"));
    assert!(!bytes_leq(b"a", b""));
    assert!(bytes_leq(b"ab", b"abc"));
    assert!(!bytes_leq(b"abc", b"ab"));
    assert!(bytes_leq(b"Z", b"a"));
    assert!(!bytes_leq(b"b", b"ab"));
    assert!(bytes_leq(b"\x7f", b"\xc3"));
}

#[test]
fn destinations_are_sorted_by_bytes() {
    let destinations = vec![
        destination("b", 1),
        destination("a", 2),
        destination("B", 3),
        destination("\u{e4}", 4),
        destination("z", 5),
    ];
    assert_eq!(names_in_order(&destinations), vec!["B", "a", "b", "z", "\u{e4}"]);
}

#[test]
fn shorter_destination_names_come_first() {
    let destinations =
        vec![destination("abc", 1), destination("ab", 2), destination("a", 3), destination("", 4)];
    assert_eq!(names_in_order(&destinations), vec!["", "a", "ab", "abc"]);
}

#[test]
fn order_of_destinations_does_not_depend_on_collection() {
    let one = vec![destination("x", 1), destination("m", 2), destination("q", 3)];
    let other = vec![destination("q", 3), destination("x", 1), destination("m", 2)];
    assert_eq!(names_in_order(&one), names_in_order(&other));
    assert_eq!(names_in_order(&one), vec!["m", "q", "x"]);
}

#[test]
fn no_destinations_are_sorted() {
    assert_eq!(sorted_by_name(&Vec::new()), Vec::<usize>::new());
}

#[test]
fn embedded_files_are_kept_in_order() {
    let mut files = EmbeddedFiles::new();
    assert_eq!(files.len(), 0);
    files.insert("b.txt".to_string(), Ref::new(1));
    files.insert("a.txt".to_string(), Ref::new(2));
    files.insert("c.txt".to_string(), Ref::new(3));
    assert_eq!(files.len(), 3);
    assert_eq!(*files.get(0), ("a.txt".to_string(), Ref::new(2)));
    assert_eq!(*files.get(1), ("b.txt".to_string(), Ref::new(1)));
    assert_eq!(*files.get(2), ("c.txt".to_string(), Ref::new(3)));
}

#[test]
fn embedded_file_replaces_its_namesake() {
    let mut files = EmbeddedFiles::new();
    files.insert("a".to_string(), Ref::new(1));
    files.insert("b".to_string(), Ref::new(2));
    files.insert("a".to_string(), Ref::new(3));
    assert_eq!(files.len(), 2);
    assert_eq!(*files.get(0), ("a".to_string(), Ref::new(3)));
    assert_eq!(*files.get(1), ("b".to_string(), Ref::new(2)));
}

#[test]
fn embedded_files_are_taken() {
    let mut files = EmbeddedFiles::new();
    files.insert("a".to_string(), Ref::new(1));
    let taken = files.take();
    assert_eq!(taken.len(), 1);
    assert_eq!(files.len(), 0);
}

#[test]
fn versions_are_ordered() {
    let all = [
        PdfVersion::Pdf14,
        PdfVersion::Pdf15,
        PdfVersion::Pdf16,
        PdfVersion::Pdf17,
        PdfVersion::Pdf20,
    ];
    for i in 0..all.len() {
        for j in 0..all.len() {
            assert_eq!(all[i].at_least(all[j]), i >= j);
        }
    }
    assert_eq!(PdfVersion::Pdf14.numbers(), (1, 4));
    assert_eq!(PdfVersion::Pdf20.numbers(), (2, 0));
}

#[test]
fn validator_answers() {
    let v = validator();
    assert!(v.requires_binary_header());
    assert!(!v.requires_display_doc_title());
    assert!(!v.write_embedded_files(true));
    assert!(v.write_embedded_files(false));
    assert!(!v.allows_associated_files());
}

#[test]
fn names_of_directions_and_layouts() {
    assert_eq!(TextDirection::LeftToRight.to_pdf(), "L2R");
    assert_eq!(TextDirection::RightToLeft.to_pdf(), "R2L");
    assert_eq!(PageLayout::SinglePage.to_pdf(), "SinglePage");
    assert_eq!(PageLayout::OneColumn.to_pdf(), "OneColumn");
    assert_eq!(PageLayout::TwoColumnLeft.to_pdf(), "TwoColumnLeft");
    assert_eq!(PageLayout::TwoColumnRight.to_pdf(), "TwoColumnRight");
    assert_eq!(PageLayout::TwoPageLeft.to_pdf(), "TwoPageLeft");
    assert_eq!(PageLayout::TwoPageRight.to_pdf(), "TwoPageRight");
}

#[test]
fn title_is_missing_without_metadata() {
    assert!(missing_title(&None));
    assert!(missing_title(&Some(metadata())));
    let mut meta = metadata();
    meta.title = Some("T".to_string());
    assert!(!missing_title(&Some(meta)));
}

#[test]
fn document_id_comes_from_the_metadata_first() {
    let mut meta = metadata();
    meta.document_id = Some("id".to_string());
    meta.title = Some("T".to_string());
    meta.authors = Some(vec!["A".to_string()]);
    match document_id_source(&Some(meta), PdfVersion::Pdf17) {
        Some(IdSource::DocumentId(version, id)) => {
            assert_eq!(version, PdfVersion::Pdf17);
            assert_eq!(id, "id");
        }
        _ => panic!("expected the identifier"),
    }
}

#[test]
fn document_id_comes_from_title_and_authors_next() {
    let mut meta = metadata();
    meta.title = Some("T".to_string());
    meta.authors = Some(vec!["A".to_string(), "B".to_string()]);
    match document_id_source(&Some(meta), PdfVersion::Pdf14) {
        Some(IdSource::TitleAndAuthors(version, title, authors)) => {
            assert_eq!(version, PdfVersion::Pdf14);
            assert_eq!(*title, Some("T".to_string()));
            assert_eq!(*authors, Some(vec!["A".to_string(), "B".to_string()]));
        }
        _ => panic!("expected title and authors"),
    }
}

#[test]
fn document_id_is_that_of_the_instance_otherwise() {
    assert!(document_id_source(&None, PdfVersion::Pdf17).is_none());
    assert!(document_id_source(&Some(metadata()), PdfVersion::Pdf17).is_none());
    let mut title_only = metadata();
    title_only.title = Some("T".to_string());
    assert!(document_id_source(&Some(title_only), PdfVersion::Pdf17).is_none());
    let mut authors_only = metadata();
    authors_only.authors = Some(vec!["A".to_string()]);
    assert!(document_id_source(&Some(authors_only), PdfVersion::Pdf17).is_none());
}

#[test]
fn context_gives_new_references_away() {
    let mut sc = SerializeContext::new(settings());
    assert_eq!(sc.new_ref().get(), 1);
    assert_eq!(sc.new_ref().get(), 2);
    assert_eq!(sc.cur_ref.get(), 3);
    assert_eq!(sc.serialize_settings(), settings());
    assert_eq!(settings().pdf_version(), PdfVersion::Pdf17);
    assert_eq!(settings().validator(), validator());
}

#[test]
fn context_notes_shortcomings_down() {
    let mut sc = SerializeContext::new(settings());
    sc.register_validation_error(ValidationError::Other(5));
    sc.register_validation_errors(vec![
        ValidationError::NoDocumentTitle,
        ValidationError::NoDocumentLanguage,
    ]);
    assert_eq!(
        sc.validation_errors,
        vec![
            ValidationError::Other(5),
            ValidationError::NoDocumentTitle,
            ValidationError::NoDocumentLanguage
        ]
    );
}

#[test]
fn global_objects_are_taken() {
    let mut files = EmbeddedFiles::new();
    files.insert("a".to_string(), Ref::new(1));
    let mut globals =
        GlobalObjects { named_destinations: vec![destination("d", 2)], embedded_files: files };
    assert_eq!(globals.take_named_destinations().len(), 1);
    assert_eq!(globals.take_named_destinations().len(), 0);
    assert_eq!(globals.take_embedded_files().len(), 1);
    assert_eq!(globals.take_embedded_files().len(), 0);
}

#[test]
fn catalog_refs_know_whether_there_is_one() {
    let none = CatalogRefs {
        page_tree: None,
        outline: None,
        page_label_tree: None,
        destination_profiles: None,
        struct_tree_root: None,
    };
    assert!(!none.any());
    let r = Some(Ref::new(1));
    assert!(CatalogRefs { page_tree: r, ..none }.any());
    assert!(CatalogRefs { outline: r, ..none }.any());
    assert!(CatalogRefs { page_label_tree: r, ..none }.any());
    assert!(CatalogRefs { destination_profiles: r, ..none }.any());
    assert!(CatalogRefs { struct_tree_root: r, ..none }.any());
}
