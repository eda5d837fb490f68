//! The body of a file: its header, and the objects of all chunks.

use pdf_writer::{Chunk, Pdf};
use std::collections::HashMap;
use vstd::prelude::*;

use crate::catalog::CatalogRefs;
use crate::configure::header_of_version;
use crate::container::ChunkContainer;
use crate::error::{KrillaError, KrillaResult};
use crate::metadata::Metadata;
use crate::model::{blank_document, Content, Document};
use crate::numbering::{all_numbers, consecutive, covers_all, numberable, Numbering};
use crate::outside::chunk::{as_numbers, mapped};
use crate::outside::pdf::{pdf_document, pdf_set_binary_marker, pdf_with_capacity};
use crate::reference::Ref;
use crate::serialize::{SerializeContext, SerializeSettings};
use crate::visit::{ChunkSink, Visit};
use crate::writing::{written, ChunkWriter};

verus! {

/// The header with other bytes in place of those that mark the file as binary.
pub open spec fn header_with_marker(header: Seq<u8>, marker: Seq<u8>) -> Seq<u8> {
    header.take(10) + marker + header.skip(14)
}

/// A file that no objects were written to. Its header has the version, and
/// marks the file as binary, unless the file shall hold ASCII characters only
/// and the standard does not ask for the mark.
pub open spec fn opened(settings: SerializeSettings) -> Document {
    let header = header_of_version(blank_document().header, settings.configuration.version);
    Document {
        header: if settings.ascii_compatible && !settings.configuration.validator.binary_header {
            header_with_marker(header, seq![0x41u8, 0x41u8, 0x41u8, 0x41u8])
        } else {
            header
        },
        ..blank_document()
    }
}

/// Opens a file. The capacity is a hint, which is not taken where so much memory
/// cannot be asked for.
pub fn open_file(capacity: usize, settings: SerializeSettings) -> (pdf: Pdf)
    ensures
        pdf_document(pdf) == opened(settings),
{
    let reserved: usize = if capacity <= isize::MAX as usize {
        capacity
    } else {
        0
    };
    let mut pdf = pdf_with_capacity(reserved);
    settings.pdf_version().set_version(&mut pdf);
    if settings.ascii_compatible && !settings.validator().requires_binary_header() {
        let marker: [u8; 4] = [0x41, 0x41, 0x41, 0x41];
        pdf_set_binary_marker(&mut pdf, &marker);
        assert(marker@ =~= seq![0x41u8, 0x41u8, 0x41u8, 0x41u8]);
    }
    pdf
}

/// Whether `r` is the reference to a part under its new number.
pub open spec fn refers(r: Option<Ref>, part: Option<(Ref, Chunk)>, map: Map<i32, i32>) -> bool {
    match part {
        Some((old_ref, _)) => r matches Some(new_ref) && new_ref@ == map[old_ref@],
        None => r is None,
    }
}

/// Whether the map gives a number to a part, if there is one.
pub open spec fn part_numbered(part: Option<(Ref, Chunk)>, map: Map<i32, i32>) -> bool {
    part matches Some((r, _)) ==> map.contains_key(r@)
}

/// The reference to a part under its new number.
fn new_ref_of(part: &Option<(Ref, Chunk)>, remapper: &HashMap<i32, Ref>) -> (r: Option<Ref>)
    requires
        part_numbered(*part, as_numbers(remapper@)),
    ensures
        refers(r, *part, as_numbers(remapper@)),
{
    match part {
        Some((r, _)) => Some(mapped(remapper, r.get())),
        None => None,
    }
}

/// What is known of a document besides its file, once its chunks are written.
pub struct Frame {
    /// The new reference for each number.
    pub remapper: HashMap<i32, Ref>,
    /// The references that the catalog gives.
    pub refs: CatalogRefs,
    /// How many pages the document has.
    pub num_pages: u32,
    /// The metadata.
    pub metadata: Option<Metadata>,
    /// Whether no embedded files were written.
    pub no_files: bool,
}

impl Frame {
    /// Whether this is what is known of the document in the container, where
    /// its objects are renumbered by `map`.
    pub open spec fn of(self, container: ChunkContainer, map: Map<i32, i32>) -> bool {
        &&& as_numbers(self.remapper@) == map
        &&& refers(self.refs.page_tree, container.page_tree, map)
        &&& refers(self.refs.outline, container.outline, map)
        &&& refers(self.refs.page_label_tree, container.page_label_tree, map)
        &&& refers(self.refs.destination_profiles, container.destination_profiles, map)
        &&& refers(self.refs.struct_tree_root, container.struct_tree_root, map)
        &&& self.num_pages == container.pages@.len() as u32
        &&& self.metadata == container.metadata
        &&& self.no_files == (container.embedded_files@.len() == 0)
    }
}

/// A file with all chunks written to it.
pub struct Body {
    /// The file.
    pub pdf: Pdf,
    /// The next reference that was not given away.
    pub next_ref: Ref,
    /// What is known besides.
    pub frame: Frame,
}

/// The map that renumbers the objects of the contents.
pub open spec fn renumbering(contents: Seq<Content>) -> Map<i32, i32> {
    consecutive(all_numbers(contents))
}

/// What a file holds once the contents were written to it.
pub open spec fn body_document(settings: SerializeSettings, contents: Seq<Content>) -> Document {
    written(opened(settings), contents, renumbering(contents))
}

impl ChunkContainer {
    /// Whether the five parts that the catalog refers to have numbers.
    pub open spec fn roots_numbered(self, map: Map<i32, i32>) -> bool {
        &&& part_numbered(self.page_tree, map)
        &&& part_numbered(self.outline, map)
        &&& part_numbered(self.page_label_tree, map)
        &&& part_numbered(self.destination_profiles, map)
        &&& part_numbered(self.struct_tree_root, map)
    }

    /// Whether the catalog refers to one of the parts of this document.
    pub open spec fn has_catalog(self) -> bool {
        self.page_tree is Some || self.outline is Some || self.page_label_tree is Some
            || self.destination_profiles is Some || self.struct_tree_root is Some
    }

    /// Goes through the chunks in the order in which they will be written, and
    /// gives new references to their objects: 1 to the first, 2 to the second,
    /// and so on. Adds up how many bytes the chunks have, too.
    pub fn number(&mut self, sc: &mut SerializeContext) -> (result: KrillaResult<Numbering>)
        ensures
            final(self).kept(old(self)),
            old(self).outcome(old(sc).cur_ref@ as int).error != Some(KrillaError::RefsExhausted)
                ==> forall|n: int| #[trigger]
                final(self).outcome(n) == old(self).outcome(old(sc).cur_ref@ as int).settled(n),
            final(sc).cur_ref@ == old(self).outcome(old(sc).cur_ref@ as int).next,
            *final(sc) == (SerializeContext { cur_ref: final(sc).cur_ref, ..*old(sc) }),
            match result {
                Ok(numbering) => {
                    &&& old(self).outcome(old(sc).cur_ref@ as int).error is None
                    &&& numbering.wf()
                    &&& numbering.seen() == old(self).outcome(old(sc).cur_ref@ as int).contents
                },
                Err(error) => old(self).outcome(old(sc).cur_ref@ as int).error == Some(error),
            },
    {
        let mut numbering = Numbering::new();
        match self.visit(sc, &mut numbering) {
            Ok(()) => {
                assert(numbering.seen() =~= old(self).outcome(old(sc).cur_ref@ as int).contents);
                Ok(numbering)
            },
            Err(error) => Err(error),
        }
    }

    /// Writes the chunks into a new file, under their new numbers.
    pub fn write_body(
        self,
        sc: &mut SerializeContext,
        numbering: Numbering,
        capacity: usize,
    ) -> (result: KrillaResult<Body>)
        requires
            numbering.wf(),
            numbering.seen() == self.outcome(old(sc).cur_ref@ as int).contents,
            numberable(numbering.seen()),
            covers_all(numbering.remapper@, numbering.seen()),
            self.roots_numbered(renumbering(numbering.seen())),
        ensures
            final(sc).cur_ref@ == self.outcome(old(sc).cur_ref@ as int).next,
            *final(sc) == (SerializeContext { cur_ref: final(sc).cur_ref, ..*old(sc) }),
            match result {
                Ok(body) => {
                    &&& self.outcome(old(sc).cur_ref@ as int).error is None
                    &&& pdf_document(body.pdf) == body_document(
                        old(sc).settings,
                        numbering.seen(),
                    )
                    &&& body.next_ref@ == all_numbers(numbering.seen()).len() + 1
                    &&& body.frame.remapper@ == numbering.remapper@
                    &&& body.frame.of(self, renumbering(numbering.seen()))
                },
                Err(error) => self.outcome(old(sc).cur_ref@ as int).error == Some(error),
            },
    {
        let mut container = self;
        let pdf = open_file(capacity, sc.serialize_settings());
        let remapper = numbering.remapper;
        let next_ref = numbering.next_ref;
        // What the catalog needs is kept before the chunks are dropped.
        let refs = CatalogRefs {
            page_tree: new_ref_of(&container.page_tree, &remapper),
            outline: new_ref_of(&container.outline, &remapper),
            page_label_tree: new_ref_of(&container.page_label_tree, &remapper),
            destination_profiles: new_ref_of(&container.destination_profiles, &remapper),
            struct_tree_root: new_ref_of(&container.struct_tree_root, &remapper),
        };
        #[verifier::truncate]
        let num_pages: u32 = container.pages.len() as u32;
        let metadata = container.metadata.take();
        let no_files = container.embedded_files.len() == 0;
        let mut writer = ChunkWriter::new(pdf, remapper);
        proof {
            assert(container.parts() =~= self.parts());
        }
        match container.visit_consuming(sc, &mut writer) {
            Ok(()) => {
                assert(writer.seen() =~= numbering.seen());
                let frame = Frame {
                    remapper: writer.remapper,
                    refs,
                    num_pages,
                    metadata,
                    no_files,
                };
                Ok(Body { pdf: writer.pdf, next_ref, frame })
            },
            Err(error) => Err(error),
        }
    }
}

} // verus!
