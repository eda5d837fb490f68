use chunk_container::body::open_file;
use chunk_container::completion::overflow;
use chunk_container::configure::{Configuration, PdfVersion, Validator};
use chunk_container::container::ChunkContainer;
use chunk_container::deferred::Deferred;
use chunk_container::description::add_common_properties;
use chunk_container::embedded_pdf::EmbeddedPdfChunk;
use chunk_container::error::KrillaError;
use chunk_container::numbering::{Coverage, Numbering};
use chunk_container::outside::chunk::mapped;
use chunk_container::reference::Ref;
use chunk_container::serialize::{SerializeContext, SerializeSettings};
use chunk_container::visit::{ChunkSink, Visit};
use chunk_container::writing::ChunkWriter;
use pdf_writer::{Chunk, Pdf};
use std::collections::HashMap;
use xmp_writer::XmpWriter;

fn settings() -> SerializeSettings {
    SerializeSettings {
        ascii_compatible: false,
        xmp_metadata: false,
        configuration: Configuration {
            version: PdfVersion::Pdf17,
            validator: Validator {
                standard: 6,
                binary_header: false,
                display_doc_title: false,
                list_no_files: false,
                list_files: true,
                associated_files: false,
            },
        },
    }
}

fn context() -> SerializeContext {
    SerializeContext::new(settings())
}

fn number_object(id: i32, value: i32) -> Chunk {
    let mut chunk = Chunk::new();
    chunk.indirect(pdf_writer::Ref::new(id)).primitive(value);
    chunk
}

fn ref_object(id: i32, target: i32) -> Chunk {
    let mut chunk = Chunk::new();
    chunk.indirect(pdf_writer::Ref::new(id)).primitive(pdf_writer::Ref::new(target));
    chunk
}

#[test]
fn numbering_counts_from_one() {
    let mut numbering = Numbering::new();
    let first = number_object(9, 1);
    let second = ref_object(4, 9);
    numbering.take(&first);
    numbering.take(&second);
    assert!(!numbering.fault);
    assert_eq!(mapped(&numbering.remapper, 9).get(), 1);
    assert_eq!(mapped(&numbering.remapper, 4).get(), 2);
    assert_eq!(numbering.remapper.len(), 2);
    assert_eq!(numbering.next_ref.get(), 3);
    assert_eq!(numbering.byte_len, first.len() + second.len());
}

#[test]
fn numbering_faults_on_a_repeated_number() {
    let mut numbering = Numbering::new();
    numbering.take(&number_object(9, 1));
    numbering.take(&number_object(9, 2));
    assert!(numbering.fault);
    numbering.take(&number_object(10, 2));
    assert!(numbering.fault);
}

#[test]
fn coverage_finds_dangling_references() {
    let mut map = HashMap::new();
    map.insert(4, Ref::new(1));
    map.insert(9, Ref::new(2));
    let mut coverage = Coverage::new(map.clone());
    coverage.take(&ref_object(4, 9));
    assert!(coverage.complete);
    coverage.take(&ref_object(4, 8));
    assert!(!coverage.complete);
    let mut coverage = Coverage::new(map);
    coverage.take(&number_object(5, 1));
    assert!(!coverage.complete);
}

#[test]
fn writer_renumbers_what_it_takes() {
    let mut map = HashMap::new();
    map.insert(4, Ref::new(11));
    map.insert(9, Ref::new(12));
    let mut writer = ChunkWriter::new(Pdf::new(), map);
    writer.take(&ref_object(4, 9));
    writer.take(&number_object(9, 6));
    assert_eq!(
        &writer.pdf.as_bytes()[16..],
        b"11 0 obj\n12 0 R\nendobj\n\n12 0 obj\n6\nendobj\n\n"
    );
}

#[test]
fn visit_hands_over_every_chunk() {
    let mut numbering = Numbering::new();
    let mut sc = context();
    let mut chunks = vec![number_object(3, 1), number_object(1, 1), number_object(2, 1)];
    assert_eq!(chunks.visit(&mut sc, &mut numbering), Ok(()));
    let mut part = Some((Ref::new(7), number_object(7, 1)));
    assert_eq!(part.visit(&mut sc, &mut numbering), Ok(()));
    let mut nothing: Option<(Ref, Chunk)> = None;
    assert_eq!(nothing.visit(&mut sc, &mut numbering), Ok(()));
    let mut deferred = Deferred::new(number_object(5, 1));
    assert_eq!(deferred.visit(&mut sc, &mut numbering), Ok(()));
    let order: Vec<i32> = [3, 1, 2, 7, 5].to_vec();
    for i in 0..order.len() {
        assert_eq!(mapped(&numbering.remapper, order[i]).get(), i as i32 + 1);
    }
    assert_eq!(numbering.next_ref.get(), 6);
    assert_eq!(sc.cur_ref.get(), 1);
}

#[test]
fn visit_stops_at_the_first_error() {
    let mut numbering = Numbering::new();
    let mut sc = context();
    let mut images = vec![
        Ok(number_object(3, 1)),
        Err(KrillaError::Image(1)),
        Ok(number_object(4, 1)),
        Err(KrillaError::Image(2)),
    ];
    assert_eq!(images.visit(&mut sc, &mut numbering), Err(KrillaError::Image(1)));
    assert_eq!(numbering.remapper.len(), 1);
}

#[test]
fn visit_keeps_what_it_visits_after_an_error() {
    let mut sc = context();
    let mut images = vec![
        Ok(number_object(3, 1)),
        Err(KrillaError::Image(1)),
        Ok(number_object(4, 2)),
        Err(KrillaError::Image(2)),
    ];
    for _ in 0..2 {
        assert_eq!(
            images.visit(&mut sc, &mut Numbering::new()),
            Err(KrillaError::Image(1))
        );
        assert_eq!(images.len(), 4);
        assert_eq!(images[0].as_ref().unwrap().as_bytes(), number_object(3, 1).as_bytes());
        assert_eq!(images[1].as_ref().err(), Some(&KrillaError::Image(1)));
        assert_eq!(images[2].as_ref().unwrap().as_bytes(), number_object(4, 2).as_bytes());
        assert_eq!(images[3].as_ref().err(), Some(&KrillaError::Image(2)));
    }
    let mut container = ChunkContainer::new();
    container.fonts = vec![number_object(8, 8)];
    container.images = vec![Deferred::new(Err(KrillaError::Image(7)))];
    container.embedded_files = vec![Deferred::new(number_object(9, 9))];
    for _ in 0..2 {
        assert_eq!(container.number(&mut sc).err(), Some(KrillaError::Image(7)));
        assert_eq!(container.fonts[0].as_bytes(), number_object(8, 8).as_bytes());
        assert_eq!(container.embedded_files.len(), 1);
    }
}

#[test]
fn second_visit_meets_the_same_chunks() {
    let mut sc = context();
    sc.cur_ref = Ref::new(50);
    let mut roots = HashMap::new();
    roots.insert(2, Ref::new(30));
    let mut embedded = EmbeddedPdfChunk::new(ref_object(2, 1), roots);
    let mut original = number_object(1, 5);
    original.extend(&embedded.original_chunk);
    embedded.original_chunk = original;
    let mut first = Numbering::new();
    assert_eq!(embedded.visit(&mut sc, &mut first), Ok(()));
    assert_eq!(sc.cur_ref.get(), 51);
    assert_eq!(mapped(&first.remapper, 50).get(), 1);
    assert_eq!(mapped(&first.remapper, 30).get(), 2);
    let remembered = embedded.new_chunk.clone().unwrap();
    assert_eq!(
        remembered.as_bytes(),
        b"50 0 obj\n5\nendobj\n\n30 0 obj\n50 0 R\nendobj\n\n"
    );
    let mut second = Numbering::new();
    assert_eq!(embedded.visit(&mut sc, &mut second), Ok(()));
    assert_eq!(sc.cur_ref.get(), 51);
    assert_eq!(second.remapper, first.remapper);
    assert_eq!(second.byte_len, first.byte_len);
    assert_eq!(second.byte_len, remembered.len());
}

#[test]
fn renumbering_is_remembered_after_an_error() {
    let mut sc = context();
    sc.cur_ref = Ref::new(50);
    let mut embedded = vec![
        Ok(EmbeddedPdfChunk::new(ref_object(2, 1), HashMap::new())),
        Err(KrillaError::Pdf(1)),
    ];
    for _ in 0..2 {
        let mut numbering = Numbering::new();
        assert_eq!(embedded.visit(&mut sc, &mut numbering), Err(KrillaError::Pdf(1)));
        assert_eq!(sc.cur_ref.get(), 52);
        assert_eq!(mapped(&numbering.remapper, 50).get(), 1);
    }
}

#[test]
fn embedded_objects_get_distinct_new_numbers() {
    let mut sc = context();
    sc.cur_ref = Ref::new(50);
    let mut original = ref_object(9, 8);
    original.extend(&ref_object(8, 7));
    original.extend(&ref_object(7, 9));
    let mut roots = HashMap::new();
    roots.insert(8, Ref::new(3));
    let mut embedded = EmbeddedPdfChunk::new(original, roots);
    assert_eq!(embedded.visit(&mut sc, &mut Numbering::new()), Ok(()));
    let refs: Vec<i32> = embedded.new_chunk.unwrap().refs().map(|r| r.get()).collect();
    assert_eq!(refs, vec![50, 3, 51]);
    assert_eq!(sc.cur_ref.get(), 52);
}

#[test]
fn embedded_objects_run_out_of_numbers() {
    let mut sc = context();
    sc.cur_ref = Ref::new(i32::MAX);
    let mut embedded = EmbeddedPdfChunk::new(number_object(1, 5), HashMap::new());
    assert_eq!(
        embedded.visit(&mut sc, &mut Numbering::new()),
        Err(KrillaError::RefsExhausted)
    );
}

#[test]
fn container_is_numbered_and_written() {
    let mut container = ChunkContainer::new();
    container.page_tree = Some((Ref::new(6), ref_object(6, 5)));
    container.pages = vec![Deferred::new(number_object(5, 1))];
    let mut sc = context();
    let numbering = container.number(&mut sc).unwrap();
    assert_eq!(mapped(&numbering.remapper, 6).get(), 1);
    assert_eq!(mapped(&numbering.remapper, 5).get(), 2);
    let body = container.write_body(&mut sc, numbering, 100).unwrap();
    assert_eq!(
        &body.pdf.as_bytes()[16..],
        b"1 0 obj\n2 0 R\nendobj\n\n2 0 obj\n1\nendobj\n\n"
    );
    assert_eq!(body.next_ref.get(), 3);
    assert_eq!(body.frame.refs.page_tree, Some(Ref::new(1)));
    assert_eq!(body.frame.refs.outline, None);
    assert_eq!(body.frame.num_pages, 1);
    assert!(body.frame.metadata.is_none());
    assert!(body.frame.no_files);
}

#[test]
fn end_of_a_file_may_take_too_much() {
    assert_eq!(overflow(false, Ref::new(i32::MAX), &None), None);
    assert_eq!(overflow(true, Ref::new(i32::MAX), &None), Some(KrillaError::RefsExhausted));
    assert_eq!(overflow(true, Ref::new(i32::MAX - 1), &None), None);
    let short = Some("packet".to_string());
    assert_eq!(
        overflow(true, Ref::new(i32::MAX - 1), &short),
        Some(KrillaError::RefsExhausted)
    );
    assert_eq!(overflow(true, Ref::new(i32::MAX - 2), &short), None);
    let long = Some(String::from_utf8(vec![0; 0x8000_0000]).unwrap());
    assert_eq!(overflow(true, Ref::new(1), &long), Some(KrillaError::MetadataTooLong));
}

#[test]
fn file_is_opened() {
    let pdf = open_file(1000, settings());
    assert_eq!(pdf.as_bytes(), b"%PDF-1.7\n%\x80\x80\x80\x80\n\n");
}

#[test]
fn common_properties_are_added() {
    let mut start = XmpWriter::new();
    start.producer("p");
    let xmp = add_common_properties(start, 1234567890, &"i\"".to_string(), &"d'".to_string());
    let text = xmp.finish(None);
    let expected = "<pdf:Producer>p</pdf:Producer><xmpTPg:NPages>1234567890</xmpTPg:NPages>\
        <dc:format>application/pdf</dc:format><xmpMM:InstanceID>i&quot;</xmpMM:InstanceID>\
        <xmpMM:DocumentID>d&apos;</xmpMM:DocumentID>\
        <xmpMM:RenditionClass>proof</xmpMM:RenditionClass></rdf:Description>";
    assert!(text.contains(expected), "{}", text);
}
