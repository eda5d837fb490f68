use chunk_container::configure::{Configuration, PdfVersion, ValidationError, Validator};
use chunk_container::container::ChunkContainer;
use chunk_container::deferred::Deferred;
use chunk_container::destinations::NamedDestination;
use chunk_container::embedded_pdf::EmbeddedPdfChunk;
use chunk_container::error::KrillaError;
use chunk_container::identity::IdSource;
use chunk_container::metadata::{Metadata, PageLayout, TextDirection};
use chunk_container::parts::DocumentParts;
use chunk_container::reference::Ref;
use chunk_container::serialize::{SerializeContext, SerializeSettings};
use pdf_writer::{Chunk, Pdf, TextStr};
use std::collections::HashMap;
use xmp_writer::XmpWriter;

struct Parts {}

impl DocumentParts for Parts {
    fn estimate_capacity(&self, byte_len: usize) -> usize {
        byte_len
    }

    fn stable_hash_base64(&self, source: IdSource<'_>) -> String {
        match source {
            IdSource::File(bytes) => format!("file-{}", bytes.len()),
            IdSource::DocumentId(_, id) => format!("id-{}", id),
            IdSource::TitleAndAuthors(_, title, authors) => {
                format!("title-{:?}-{:?}", title, authors)
            }
        }
    }

    fn serialize_document_info(
        &self,
        metadata: &Metadata,
        _configuration: Configuration,
        next: Ref,
        pdf: Pdf,
    ) -> (Ref, Pdf) {
        let mut pdf = pdf;
        let mut next = next;
        let id = pdf_writer::Ref::new(next.bump().get());
        let title = metadata.title.clone().unwrap_or_default();
        pdf.document_info(id).title(TextStr(&title));
        (next, pdf)
    }

    fn serialize_xmp_metadata(
        &self,
        _metadata: &Metadata,
        xmp: XmpWriter<'static>,
        settings: SerializeSettings,
        instance_id: &String,
    ) -> (XmpWriter<'static>, Vec<ValidationError>) {
        let mut xmp = xmp;
        xmp.pdf_keywords(instance_id);
        (xmp, vec![ValidationError::Other(settings.validator().standard + 2)])
    }

    fn write_validator_xmp(
        &self,
        validator: Validator,
        xmp: XmpWriter<'static>,
    ) -> XmpWriter<'static> {
        let mut xmp = xmp;
        if validator.requires_binary_header() {
            xmp.producer("binary");
        }
        xmp
    }

    fn write_version_xmp(
        &self,
        version: PdfVersion,
        xmp: XmpWriter<'static>,
    ) -> XmpWriter<'static> {
        let mut xmp = xmp;
        if version == PdfVersion::Pdf20 {
            xmp.pdf_version("2.0");
        }
        xmp
    }
}

fn validator() -> Validator {
    Validator {
        standard: 6,
        binary_header: false,
        display_doc_title: false,
        list_no_files: false,
        list_files: true,
        associated_files: false,
    }
}

fn settings(version: PdfVersion) -> SerializeSettings {
    SerializeSettings {
        ascii_compatible: false,
        xmp_metadata: false,
        configuration: Configuration { version, validator: validator() },
    }
}

fn context() -> SerializeContext {
    SerializeContext::new(settings(PdfVersion::Pdf17))
}

fn metadata() -> Metadata {
    Metadata {
        title: None,
        authors: None,
        language: None,
        document_id: None,
        text_direction: None,
        page_layout: None,
    }
}

fn number_object(id: i32, value: i32) -> Chunk {
    let mut chunk = Chunk::new();
    chunk.indirect(pdf_writer::Ref::new(id)).primitive(value);
    chunk
}

fn ref_object(id: i32, target: i32) -> Chunk {
    let mut chunk = Chunk::new();
    chunk.indirect(pdf_writer::Ref::new(id)).primitive(pdf_writer::Ref::new(target));
    chunk
}

fn part(id: i32) -> Option<(Ref, Chunk)> {
    Some((Ref::new(id), number_object(id, id)))
}

fn later(chunk: Chunk) -> Deferred<Chunk> {
    Deferred::new(chunk)
}

fn destination(name: &str, id: i32) -> (NamedDestination, Ref) {
    (NamedDestination { name: name.to_string() }, Ref::new(id))
}

fn written(container: ChunkContainer, sc: &mut SerializeContext) -> Pdf {
    match container.try_finish(sc, &Parts {}) {
        Some(Ok(pdf)) => pdf,
        Some(Err(error)) => panic!("error: {:?}", error),
        None => panic!("not writable"),
    }
}

fn body_of(pdf: &Pdf) -> String {
    String::from_utf8_lossy(&pdf.as_bytes()[16..]).to_string()
}

fn whole(pdf: Pdf) -> String {
    String::from_utf8_lossy(&pdf.finish()).to_string()
}

fn catalog_only(body: &str) -> String {
    body[body.find("/Catalog").unwrap() + 9..body.rfind(">>").unwrap()].to_string()
}

fn with_pages() -> ChunkContainer {
    let mut container = ChunkContainer::new();
    container.page_tree = part(10);
    container
}

#[test]
fn empty_document_has_a_header_only() {
    let mut sc = context();
    let pdf = written(ChunkContainer::new(), &mut sc);
    assert_eq!(pdf.as_bytes(), b"%PDF-1.7\n%\x80\x80\x80\x80\n\n");
    assert_eq!(sc.validation_errors, vec![ValidationError::NoDocumentTitle]);
    assert!(whole(pdf).contains("/ID [(file-16) (file-16)]"));
}

#[test]
fn header_has_the_version() {
    let mut sc = SerializeContext::new(settings(PdfVersion::Pdf20));
    let pdf = written(ChunkContainer::new(), &mut sc);
    assert_eq!(pdf.as_bytes(), b"%PDF-2.0\n%\x80\x80\x80\x80\n\n");
    let mut sc = SerializeContext::new(settings(PdfVersion::Pdf14));
    let pdf = written(ChunkContainer::new(), &mut sc);
    assert_eq!(&pdf.as_bytes()[..8], b"%PDF-1.4");
}

#[test]
fn header_is_ascii_where_that_is_asked_for() {
    let mut s = settings(PdfVersion::Pdf17);
    s.ascii_compatible = true;
    let pdf = written(ChunkContainer::new(), &mut SerializeContext::new(s));
    assert_eq!(pdf.as_bytes(), b"%PDF-1.7\n%AAAA\n\n");
}

#[test]
fn header_stays_binary_where_the_standard_asks_for_it() {
    let mut s = settings(PdfVersion::Pdf17);
    s.ascii_compatible = true;
    s.configuration.validator.binary_header = true;
    let pdf = written(ChunkContainer::new(), &mut SerializeContext::new(s));
    assert_eq!(pdf.as_bytes(), b"%PDF-1.7\n%\x80\x80\x80\x80\n\n");
}

#[test]
fn objects_are_numbered_in_the_order_in_which_they_are_written() {
    let mut container = ChunkContainer::new();
    container.fonts = vec![number_object(30, 3), number_object(2, 4)];
    container.pages = vec![later(ref_object(5, 2))];
    container.struct_elements = vec![number_object(17, 1), ref_object(4, 5)];
    let pdf = written(container, &mut context());
    assert_eq!(
        body_of(&pdf),
        "1 0 obj\n1\nendobj\n\n2 0 obj\n5 0 R\nendobj\n\n3 0 obj\n3\nendobj\n\n\
         4 0 obj\n4\nendobj\n\n5 0 obj\n4 0 R\nendobj\n\n"
    );
}

#[test]
fn parts_are_written_in_order() {
    let mut container = ChunkContainer::new();
    container.embedded_files = vec![later(number_object(120, 20))];
    container.images = vec![Deferred::new(Ok(number_object(119, 19)))];
    container.pages = vec![later(number_object(118, 18))];
    container.patterns = vec![later(number_object(117, 17))];
    container.shading_functions = vec![later(number_object(116, 16))];
    container.x_objects = vec![later(number_object(115, 15))];
    container.masks = vec![later(number_object(114, 14))];
    container.ext_g_states = vec![later(number_object(113, 13))];
    container.destinations = vec![number_object(112, 12)];
    container.icc_profiles = vec![later(number_object(111, 11))];
    container.color_spaces = vec![later(number_object(110, 10))];
    container.fonts = vec![number_object(109, 9)];
    container.annotations = vec![number_object(108, 8)];
    container.page_labels = vec![number_object(107, 7)];
    container.struct_elements = vec![number_object(106, 6)];
    container.embedded_pdfs = vec![Deferred::new(Ok(EmbeddedPdfChunk::new(
        number_object(121, 21),
        HashMap::new(),
    )))];
    container.struct_tree_root = Some((Ref::new(105), number_object(105, 5)));
    container.destination_profiles = Some((Ref::new(104), number_object(104, 4)));
    container.page_label_tree = Some((Ref::new(103), number_object(103, 3)));
    container.outline = Some((Ref::new(102), number_object(102, 2)));
    container.page_tree = Some((Ref::new(101), number_object(101, 1)));
    let pdf = written(container, &mut context());
    let mut expected = String::new();
    for i in 1..22 {
        expected.push_str(&format!("{} 0 obj\n{}\nendobj\n\n", i, i));
    }
    let body = body_of(&pdf);
    assert_eq!(&body[..expected.len()], expected);
    assert!(body[expected.len()..].starts_with("22 0 obj\n<<\n  /Type /Catalog\n"));
    assert!(catalog_only(&body).contains("/Pages 1 0 R"));
    assert!(catalog_only(&body).contains("/PageLabels 3 0 R"));
    assert!(catalog_only(&body).contains("/OutputIntents 4 0 R"));
    assert!(catalog_only(&body).contains("/StructTreeRoot 5 0 R"));
    assert!(catalog_only(&body).contains("/Outlines 2 0 R"));
}

#[test]
fn every_object_of_a_chunk_is_numbered() {
    let mut chunk = number_object(8, 80);
    chunk.indirect(pdf_writer::Ref::new(3)).primitive(pdf_writer::Ref::new(8));
    let mut container = ChunkContainer::new();
    container.annotations = vec![chunk, number_object(4, 40)];
    let pdf = written(container, &mut context());
    assert_eq!(
        body_of(&pdf),
        "1 0 obj\n80\nendobj\n\n2 0 obj\n1 0 R\nendobj\n\n3 0 obj\n40\nendobj\n\n"
    );
}

#[test]
fn image_error_ends_the_writing() {
    let mut container = with_pages();
    container.images = vec![
        Deferred::new(Ok(number_object(20, 1))),
        Deferred::new(Err(KrillaError::Image(3))),
        Deferred::new(Err(KrillaError::Image(4))),
    ];
    container.embedded_pdfs = vec![Deferred::new(Err(KrillaError::Pdf(1)))];
    let mut sc = context();
    match container.try_finish(&mut sc, &Parts {}) {
        Some(Err(error)) => assert_eq!(error, KrillaError::Image(3)),
        _ => panic!("expected an error"),
    }
    assert_eq!(sc.validation_errors, vec![]);
}

#[test]
fn embedded_pdf_error_ends_the_writing() {
    let mut container = with_pages();
    container.embedded_pdfs = vec![Deferred::new(Err(KrillaError::Pdf(1)))];
    match container.try_finish(&mut context(), &Parts {}) {
        Some(Err(error)) => assert_eq!(error, KrillaError::Pdf(1)),
        _ => panic!("expected an error"),
    }
}

#[test]
fn embedded_pdf_is_renumbered_twice() {
    let mut sc = context();
    let root = sc.new_ref();
    assert_eq!(root.get(), 1);
    let mut original = Chunk::new();
    original.indirect(pdf_writer::Ref::new(1)).primitive(pdf_writer::Ref::new(2));
    original.indirect(pdf_writer::Ref::new(2)).primitive(5);
    let mut roots = HashMap::new();
    roots.insert(1, root);
    let mut container = ChunkContainer::new();
    container.pages = vec![later(ref_object(40, 1))];
    container.embedded_pdfs =
        vec![Deferred::new(Ok(EmbeddedPdfChunk::new(original, roots)))];
    let pdf = written(container, &mut sc);
    assert_eq!(
        body_of(&pdf),
        "1 0 obj\n2 0 R\nendobj\n\n2 0 obj\n3 0 R\nendobj\n\n3 0 obj\n5\nendobj\n\n"
    );
    assert_eq!(sc.cur_ref.get(), 3);
}

#[test]
fn embedded_pdf_without_numbers_left_ends_the_writing() {
    let mut sc = context();
    sc.cur_ref = Ref::new(i32::MAX);
    let mut container = ChunkContainer::new();
    container.embedded_pdfs = vec![Deferred::new(Ok(EmbeddedPdfChunk::new(
        number_object(1, 1),
        HashMap::new(),
    )))];
    match container.try_finish(&mut sc, &Parts {}) {
        Some(Err(error)) => assert_eq!(error, KrillaError::RefsExhausted),
        _ => panic!("expected an error"),
    }
}

#[test]
fn dangling_reference_is_not_written() {
    let mut container = ChunkContainer::new();
    container.fonts = vec![ref_object(1, 2)];
    assert!(container.try_finish(&mut context(), &Parts {}).is_none());
}

#[test]
fn repeated_number_is_not_written() {
    let mut container = ChunkContainer::new();
    container.fonts = vec![number_object(1, 2)];
    container.pages = vec![later(number_object(1, 3))];
    assert!(container.try_finish(&mut context(), &Parts {}).is_none());
}

#[test]
fn part_without_a_number_is_not_written() {
    let mut container = ChunkContainer::new();
    container.outline = Some((Ref::new(7), number_object(8, 1)));
    assert!(container.try_finish(&mut context(), &Parts {}).is_none());
}

#[test]
fn destination_without_a_number_is_not_written_into_a_catalog() {
    let mut sc = context();
    sc.global_objects.named_destinations = vec![destination("a", 99)];
    assert!(with_pages().try_finish(&mut sc, &Parts {}).is_none());
    let mut sc = context();
    sc.global_objects.named_destinations = vec![destination("a", 99)];
    assert_eq!(written(ChunkContainer::new(), &mut sc).as_bytes().len(), 16);
    assert_eq!(sc.global_objects.named_destinations.len(), 0);
}

#[test]
fn file_without_a_number_is_not_written_where_it_is_listed() {
    let mut sc = context();
    sc.global_objects.embedded_files.insert("f".to_string(), Ref::new(99));
    let mut container = with_pages();
    container.embedded_files = vec![later(number_object(20, 1))];
    assert!(container.try_finish(&mut sc, &Parts {}).is_none());
    let mut sc = context();
    sc.global_objects.embedded_files.insert("f".to_string(), Ref::new(99));
    assert!(with_pages().try_finish(&mut sc, &Parts {}).is_some());
}

#[test]
fn finish_writes_what_try_finish_writes() {
    let mut sc = context();
    let pdf = with_pages().finish(&mut sc, &Parts {}).unwrap();
    assert_eq!(pdf.as_bytes(), written(with_pages(), &mut context()).as_bytes());
}

struct Greedy {}

impl DocumentParts for Greedy {
    fn estimate_capacity(&self, _byte_len: usize) -> usize {
        usize::MAX
    }

    fn stable_hash_base64(&self, source: IdSource<'_>) -> String {
        Parts {}.stable_hash_base64(source)
    }

    fn serialize_document_info(
        &self,
        metadata: &Metadata,
        _configuration: Configuration,
        _next: Ref,
        pdf: Pdf,
    ) -> (Ref, Pdf) {
        let left = if metadata.title.is_some() { 1 } else { 0 };
        (Ref::new(i32::MAX - left), pdf)
    }

    fn serialize_xmp_metadata(
        &self,
        metadata: &Metadata,
        xmp: XmpWriter<'static>,
        settings: SerializeSettings,
        instance_id: &String,
    ) -> (XmpWriter<'static>, Vec<ValidationError>) {
        Parts {}.serialize_xmp_metadata(metadata, xmp, settings, instance_id)
    }

    fn write_validator_xmp(
        &self,
        _validator: Validator,
        xmp: XmpWriter<'static>,
    ) -> XmpWriter<'static> {
        xmp
    }

    fn write_version_xmp(
        &self,
        _version: PdfVersion,
        xmp: XmpWriter<'static>,
    ) -> XmpWriter<'static> {
        xmp
    }
}

#[test]
fn information_that_takes_all_numbers_ends_the_writing() {
    let mut container = with_pages();
    container.metadata = Some(metadata());
    let mut sc = context();
    sc.global_objects.named_destinations = vec![destination("a", 10)];
    match container.finish(&mut sc, &Greedy {}) {
        Err(error) => assert_eq!(error, KrillaError::RefsExhausted),
        Ok(_) => panic!("expected an error"),
    }
    assert_eq!(
        sc.validation_errors,
        vec![ValidationError::NoDocumentTitle, ValidationError::Other(8)]
    );
    assert_eq!(sc.global_objects.named_destinations.len(), 1);
}

#[test]
fn information_may_leave_the_last_number_to_the_catalog() {
    let mut container = with_pages();
    let mut meta = metadata();
    meta.title = Some("T".to_string());
    container.metadata = Some(meta);
    let pdf = container.finish(&mut context(), &Greedy {}).unwrap();
    let numbers: Vec<i32> = pdf.refs().map(|r| r.get()).collect();
    assert_eq!(numbers, vec![1, i32::MAX - 1]);
}

#[test]
fn capacity_that_cannot_be_had_is_no_hint() {
    let pdf = ChunkContainer::new().finish(&mut context(), &Greedy {}).unwrap();
    assert_eq!(pdf.as_bytes().len(), 16);
}

#[test]
fn finish_returns_the_error() {
    let mut container = with_pages();
    container.images = vec![Deferred::new(Err(KrillaError::Image(3)))];
    match container.finish(&mut context(), &Parts {}) {
        Err(error) => assert_eq!(error, KrillaError::Image(3)),
        Ok(_) => panic!("expected an error"),
    }
}

#[test]
fn catalog_is_written_where_there_is_a_part() {
    let mut sc = context();
    let pdf = written(with_pages(), &mut sc);
    assert_eq!(
        body_of(&pdf),
        "1 0 obj\n10\nendobj\n\n\
         2 0 obj\n<<\n  /Type /Catalog\n  /Pages 1 0 R\n>>\nendobj\n\n"
    );
    assert_eq!(
        sc.validation_errors,
        vec![ValidationError::NoDocumentTitle, ValidationError::NoDocumentLanguage]
    );
    assert!(whole(pdf).contains("/Root 2 0 R"));
}

#[test]
fn no_catalog_is_written_without_a_part() {
    let mut container = ChunkContainer::new();
    container.pages = vec![later(number_object(1, 1))];
    let mut s = settings(PdfVersion::Pdf17);
    s.xmp_metadata = true;
    let mut sc = SerializeContext::new(s);
    let pdf = written(container, &mut sc);
    assert_eq!(body_of(&pdf), "1 0 obj\n1\nendobj\n\n");
    assert_eq!(sc.validation_errors, vec![ValidationError::NoDocumentTitle]);
}

#[test]
fn title_and_language_are_no_shortcomings() {
    let mut container = with_pages();
    let mut meta = metadata();
    meta.title = Some("T".to_string());
    meta.language = Some("en".to_string());
    container.metadata = Some(meta);
    let mut sc = context();
    sc.register_validation_error(ValidationError::Other(1));
    let pdf = written(container, &mut sc);
    assert_eq!(sc.validation_errors, vec![ValidationError::Other(1), ValidationError::Other(8)]);
    assert_eq!(
        body_of(&pdf),
        "1 0 obj\n10\nendobj\n\n2 0 obj\n<<\n  /Title (T)\n>>\nendobj\n\n\
         3 0 obj\n<<\n  /Type /Catalog\n  /Pages 1 0 R\n  /Lang (en)\n>>\nendobj\n\n"
    );
}

#[test]
fn shortcomings_come_in_order() {
    let mut container = with_pages();
    container.metadata = Some(metadata());
    let mut sc = context();
    written(container, &mut sc);
    assert_eq!(
        sc.validation_errors,
        vec![
            ValidationError::NoDocumentTitle,
            ValidationError::Other(8),
            ValidationError::NoDocumentLanguage
        ]
    );
}

fn structured(version: PdfVersion) -> String {
    let mut container = ChunkContainer::new();
    container.struct_tree_root = part(3);
    let pdf = written(container, &mut SerializeContext::new(settings(version)));
    catalog_only(&body_of(&pdf))
}

#[test]
fn suspects_are_denied_between_versions() {
    let marked = "  /StructTreeRoot 1 0 R\n  /MarkInfo <<\n    /Marked true\n  >>\n";
    let denied =
        "  /StructTreeRoot 1 0 R\n  /MarkInfo <<\n    /Marked true\n    /Suspects false\n  >>\n";
    assert_eq!(structured(PdfVersion::Pdf14), marked);
    assert_eq!(structured(PdfVersion::Pdf15), marked);
    assert_eq!(structured(PdfVersion::Pdf16), denied);
    assert_eq!(structured(PdfVersion::Pdf17), denied);
    assert_eq!(structured(PdfVersion::Pdf20), marked);
}

fn viewed(display: bool, direction: Option<TextDirection>) -> String {
    let mut container = with_pages();
    let mut meta = metadata();
    meta.text_direction = direction;
    container.metadata = Some(meta);
    let mut s = settings(PdfVersion::Pdf17);
    s.configuration.validator.display_doc_title = display;
    let pdf = written(container, &mut SerializeContext::new(s));
    catalog_only(&body_of(&pdf))
}

#[test]
fn viewer_preferences_are_written_where_there_are_any() {
    assert_eq!(viewed(false, None), "  /Pages 1 0 R\n");
    assert_eq!(
        viewed(true, None),
        "  /Pages 1 0 R\n  /ViewerPreferences <<\n    /DisplayDocTitle true\n  >>\n"
    );
    assert_eq!(
        viewed(false, Some(TextDirection::RightToLeft)),
        "  /Pages 1 0 R\n  /ViewerPreferences <<\n    /Direction /R2L\n  >>\n"
    );
    assert_eq!(
        viewed(true, Some(TextDirection::LeftToRight)),
        "  /Pages 1 0 R\n  /ViewerPreferences <<\n    /DisplayDocTitle true\n    \
         /Direction /L2R\n  >>\n"
    );
}

fn laid_out(version: PdfVersion, layout: PageLayout) -> String {
    let mut container = with_pages();
    let mut meta = metadata();
    meta.page_layout = Some(layout);
    container.metadata = Some(meta);
    let pdf = written(container, &mut SerializeContext::new(settings(version)));
    catalog_only(&body_of(&pdf))
}

#[test]
fn two_page_layouts_need_a_later_version() {
    assert_eq!(laid_out(PdfVersion::Pdf14, PageLayout::TwoPageLeft), "  /Pages 1 0 R\n");
    assert_eq!(laid_out(PdfVersion::Pdf14, PageLayout::TwoPageRight), "  /Pages 1 0 R\n");
    assert_eq!(
        laid_out(PdfVersion::Pdf15, PageLayout::TwoPageLeft),
        "  /Pages 1 0 R\n  /PageLayout /TwoPageLeft\n"
    );
    assert_eq!(
        laid_out(PdfVersion::Pdf20, PageLayout::TwoPageRight),
        "  /Pages 1 0 R\n  /PageLayout /TwoPageRight\n"
    );
    assert_eq!(
        laid_out(PdfVersion::Pdf14, PageLayout::TwoColumnLeft),
        "  /Pages 1 0 R\n  /PageLayout /TwoColumnLeft\n"
    );
}

#[test]
fn named_destinations_are_listed_in_order() {
    let mut container = with_pages();
    container.destinations = vec![number_object(20, 1), number_object(21, 2), number_object(22, 3)];
    let mut sc = context();
    sc.global_objects.named_destinations =
        vec![destination("b", 20), destination("ab", 21), destination("a", 22)];
    let pdf = written(container, &mut sc);
    assert_eq!(
        catalog_only(&body_of(&pdf)),
        "  /Pages 1 0 R\n  /Names <<\n    /Dests <<\n      \
         /Names [(a) 4 0 R (ab) 3 0 R (b) 2 0 R]\n    >>\n  >>\n"
    );
    assert_eq!(sc.global_objects.named_destinations.len(), 0);
}

fn with_files(list_files: bool, associated: bool) -> String {
    let mut container = with_pages();
    container.embedded_files = vec![later(number_object(20, 1)), later(number_object(21, 2))];
    let mut s = settings(PdfVersion::Pdf17);
    s.configuration.validator.list_files = list_files;
    s.configuration.validator.associated_files = associated;
    let mut sc = SerializeContext::new(s);
    sc.global_objects.embedded_files.insert("y".to_string(), Ref::new(20));
    sc.global_objects.embedded_files.insert("x".to_string(), Ref::new(21));
    let pdf = written(container, &mut sc);
    assert_eq!(sc.global_objects.embedded_files.len(), 0);
    catalog_only(&body_of(&pdf))
}

#[test]
fn embedded_files_are_listed_where_the_standard_has_it_so() {
    let names = "  /Names <<\n    /EmbeddedFiles <<\n      /Names [(x) 3 0 R (y) 2 0 R]\n    >>\n  \
                 >>\n";
    let associated = "  /AF [3 0 R 2 0 R]\n";
    assert_eq!(with_files(false, false), "  /Pages 1 0 R\n");
    assert_eq!(with_files(true, false), format!("  /Pages 1 0 R\n{}", names));
    assert_eq!(with_files(false, true), format!("  /Pages 1 0 R\n{}", associated));
    assert_eq!(with_files(true, true), format!("  /Pages 1 0 R\n{}{}", names, associated));
}

#[test]
fn no_files_are_listed_where_the_standard_has_it_so() {
    let mut s = settings(PdfVersion::Pdf17);
    s.configuration.validator.list_no_files = true;
    s.configuration.validator.associated_files = true;
    let pdf = written(with_pages(), &mut SerializeContext::new(s));
    assert_eq!(
        catalog_only(&body_of(&pdf)),
        "  /Pages 1 0 R\n  /Names <<\n    /EmbeddedFiles <<\n      /Names []\n    >>\n  >>\n"
    );
}

#[test]
fn destinations_come_before_files() {
    let mut container = with_pages();
    container.embedded_files = vec![later(number_object(20, 1))];
    let mut sc = context();
    sc.global_objects.named_destinations = vec![destination("d", 10)];
    sc.global_objects.embedded_files.insert("f".to_string(), Ref::new(20));
    let pdf = written(container, &mut sc);
    assert_eq!(
        catalog_only(&body_of(&pdf)),
        "  /Pages 1 0 R\n  /Names <<\n    /Dests <<\n      /Names [(d) 1 0 R]\n    >>\n    \
         /EmbeddedFiles <<\n      /Names [(f) 2 0 R]\n    >>\n  >>\n"
    );
}

fn identified(meta: Metadata, chunk: Chunk) -> String {
    let mut container = ChunkContainer::new();
    container.fonts = vec![chunk];
    container.metadata = Some(meta);
    let pdf = whole(written(container, &mut context()));
    pdf[pdf.find("/ID").unwrap()..pdf.find("startxref").unwrap()].to_string()
}

#[test]
fn versions_of_a_document_share_their_identifier() {
    let mut meta = metadata();
    meta.document_id = Some("me".to_string());
    assert_eq!(identified(meta, number_object(1, 1)), "/ID [(id-me) (file-68)]\n>>\n");
    let mut meta = metadata();
    meta.document_id = Some("me".to_string());
    assert_eq!(identified(meta, number_object(1, 100)), "/ID [(id-me) (file-70)]\n>>\n");
}

#[test]
fn identifier_comes_from_title_and_authors() {
    let mut meta = metadata();
    meta.title = Some("T".to_string());
    meta.authors = Some(vec!["A".to_string()]);
    assert!(identified(meta, number_object(1, 1)).starts_with("/ID [(title-Some"));
}

#[test]
fn identifier_of_an_unnamed_document_is_that_of_its_version() {
    let mut meta = metadata();
    meta.title = Some("T".to_string());
    assert_eq!(identified(meta, number_object(1, 1)), "/ID [(file-69) (file-69)]\n>>\n");
}

#[test]
fn metadata_stream_comes_before_the_catalog() {
    let mut container = with_pages();
    container.pages = vec![later(number_object(1, 1)), later(number_object(2, 2))];
    let mut s = settings(PdfVersion::Pdf20);
    s.xmp_metadata = true;
    s.configuration.validator.binary_header = true;
    let mut meta = metadata();
    meta.document_id = Some("<&>".to_string());
    container.metadata = Some(meta);
    let pdf = written(container, &mut SerializeContext::new(s));
    let body = body_of(&pdf);
    let start = body.find("5 0 obj").unwrap();
    let packet = "<?xpacket begin=\"\u{feff}\" id=\"W5M0MpCehiHzreSzNTczkc9d\"?>\
        <x:xmpmeta xmlns:x=\"adobe:ns:meta/\" x:xmptk=\"xmp-writer\">\
        <rdf:RDF xmlns:rdf=\"http://www.w3.org/1999/02/22-rdf-syntax-ns#\">\
        <rdf:Description rdf:about=\"\" xmlns:dc=\"http://purl.org/dc/elements/1.1/\"  \
        xmlns:xmpMM=\"http://ns.adobe.com/xap/1.0/mm/\"  \
        xmlns:xmpTPg=\"http://ns.adobe.com/xap/1.0/t/pg/\"  \
        xmlns:pdf=\"http://ns.adobe.com/pdf/1.3/\" >\
        <pdf:Keywords>file-105</pdf:Keywords><pdf:Producer>binary</pdf:Producer>\
        <xmpTPg:NPages>2</xmpTPg:NPages><dc:format>application/pdf</dc:format>\
        <xmpMM:InstanceID>file-105</xmpMM:InstanceID>\
        <xmpMM:DocumentID>id-&lt;&amp;&gt;</xmpMM:DocumentID>\
        <xmpMM:RenditionClass>proof</xmpMM:RenditionClass>\
        <pdf:PDFVersion>2.0</pdf:PDFVersion>\
        </rdf:Description></rdf:RDF></x:xmpmeta><?xpacket end=\"r\"?>";
    let stream = format!(
        "5 0 obj\n<<\n  /Length {}\n  /Type /Metadata\n  /Subtype /XML\n>>\nstream\n{}\n\
         endstream\nendobj\n\n",
        packet.len(),
        packet
    );
    let catalog =
        "6 0 obj\n<<\n  /Type /Catalog\n  /Pages 1 0 R\n  /Metadata 5 0 R\n>>\nendobj\n\n";
    assert_eq!(&body[start..], format!("{}{}", stream, catalog));
    assert!(whole(pdf).contains("/Root 6 0 R"));
}

#[test]
fn numbers_in_a_finished_file_grow() {
    let mut container = with_pages();
    container.fonts = vec![number_object(77, 1), number_object(5, 2)];
    container.metadata = Some(metadata());
    let mut s = settings(PdfVersion::Pdf17);
    s.xmp_metadata = true;
    let pdf = written(container, &mut SerializeContext::new(s));
    let numbers: Vec<i32> = pdf.refs().map(|r| r.get()).collect();
    assert_eq!(numbers, vec![1, 2, 3, 4, 5, 6]);
}

#[test]
fn finished_file_holds_the_chunks_first() {
    let mut container = with_pages();
    container.fonts = vec![ref_object(77, 5), number_object(5, 2)];
    container.pages = vec![later(ref_object(6, 77))];
    let mut meta = metadata();
    meta.title = Some("T".to_string());
    container.metadata = Some(meta);
    let mut s = settings(PdfVersion::Pdf17);
    s.xmp_metadata = true;
    let pdf = written(container, &mut SerializeContext::new(s));
    assert!(body_of(&pdf).starts_with(
        "1 0 obj\n10\nendobj\n\n2 0 obj\n3 0 R\nendobj\n\n3 0 obj\n2\nendobj\n\n\
         4 0 obj\n2 0 R\nendobj\n\n5 0 obj\n<<\n  /Title (T)\n>>\nendobj\n\n\
         6 0 obj\n<<\n  /Length "
    ));
    let numbers: Vec<i32> = pdf.refs().map(|r| r.get()).collect();
    assert_eq!(numbers, vec![1, 2, 3, 4, 5, 6, 7]);
    assert!(whole(pdf).contains("/Root 7 0 R"));
}
