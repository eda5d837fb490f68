//! Writing a document that may turn out not to be writable.

use pdf_writer::{Chunk, Pdf};
use std::collections::HashMap;
use vstd::prelude::*;

use crate::body::part_numbered;
use crate::catalog::{entries_covered, listable};
use crate::configure::Validator;
use crate::container::ChunkContainer;
use crate::destinations::{named, NamedDestination};
use crate::embedded_files::EmbeddedFiles;
use crate::error::KrillaResult;
use crate::finish::{failed, finished, Steps};
use crate::numbering::{lemma_covers_by_number, Coverage, Numbering};
use crate::outside::chunk::as_numbers;
use crate::parts::DocumentParts;
use crate::reference::{lemma_ref_is_its_number, Ref};
use crate::serialize::SerializeContext;
use crate::visit::{ChunkSink, Visit};

verus! {

broadcast use vstd::std_specs::hash::group_hash_axioms;

/// Whether a part has a new number, if there is one.
fn is_part_numbered(part: &Option<(Ref, Chunk)>, remapper: &HashMap<i32, Ref>) -> (numbered: bool)
    ensures
        numbered == part_numbered(*part, as_numbers(remapper@)),
{
    match part {
        Some((r, _)) => remapper.contains_key(&r.get()),
        None => true,
    }
}

/// Whether all named destinations have new numbers.
fn are_destinations_covered(
    destinations: &Vec<(NamedDestination, Ref)>,
    remapper: &HashMap<i32, Ref>,
) -> (covered: bool)
    ensures
        covered == entries_covered(named(destinations@), as_numbers(remapper@)),
{
    let ghost entries = named(destinations@);
    let mut i: usize = 0;
    while i < destinations.len()
        invariant
            i <= destinations@.len(),
            entries == named(destinations@),
            forall|k: int|
                0 <= k < i ==> as_numbers(remapper@).contains_key(#[trigger] entries[k].1@),
        decreases destinations@.len() - i,
    {
        if !remapper.contains_key(&destinations[i].1.get()) {
            assert(!as_numbers(remapper@).contains_key(entries[i as int].1@));
            return false;
        }
        i += 1;
    }
    true
}

/// Whether all embedded files have new numbers.
fn are_files_covered(files: &EmbeddedFiles, remapper: &HashMap<i32, Ref>) -> (covered: bool)
    ensures
        covered == entries_covered(files@, as_numbers(remapper@)),
{
    let mut i: usize = 0;
    while i < files.len()
        invariant
            i <= files@.len(),
            forall|k: int|
                0 <= k < i ==> as_numbers(remapper@).contains_key(#[trigger] files@[k].1@),
        decreases files@.len() - i,
    {
        let entry = files.get(i);
        assert(files@[i as int].1 == entry.1);
        if !remapper.contains_key(&entry.1.get()) {
            assert(!as_numbers(remapper@).contains_key(files@[i as int].1@));
            return false;
        }
        i += 1;
    }
    true
}

/// Whether all entries that the catalog lists can be written.
fn is_listable(
    destinations: &Vec<(NamedDestination, Ref)>,
    files: &EmbeddedFiles,
    no_files: bool,
    validator: Validator,
    remapper: &HashMap<i32, Ref>,
) -> (result: bool)
    ensures
        result == listable(
            named(destinations@),
            files@,
            no_files,
            validator,
            as_numbers(remapper@),
        ),
{
    if destinations.len() > 0x3FFF_FFFF || !are_destinations_covered(destinations, remapper) {
        return false;
    }
    let listed = validator.write_embedded_files(no_files);
    let associated = validator.allows_associated_files();
    if listed && files.len() > 0x3FFF_FFFF || associated && files.len() > 0x7FFF_FFFF {
        return false;
    }
    !(listed || associated) || are_files_covered(files, remapper)
}

impl ChunkContainer {
    /// Whether one of the parts that the catalog refers to is there.
    fn is_catalog_needed(&self) -> (needed: bool)
        ensures
            needed == self.has_catalog(),
    {
        self.page_tree.is_some() || self.outline.is_some() || self.page_label_tree.is_some()
            || self.destination_profiles.is_some() || self.struct_tree_root.is_some()
    }

    /// Whether the document can be written, given that its chunks could be
    /// visited.
    fn is_finishable(&mut self, sc: &mut SerializeContext, numbering: &Numbering) -> (result: bool)
        requires
            numbering.wf(),
            numbering.seen() == old(self).outcome(old(sc).cur_ref@ as int).contents,
            old(self).outcome(old(sc).cur_ref@ as int).error is None,
            forall|n: int| #[trigger]
                old(self).outcome(n) == old(self).outcome(old(sc).cur_ref@ as int).settled(n),
        ensures
            result == old(self).finishable(*old(sc)),
            *final(sc) == *old(sc),
            final(self).kept(old(self)),
            forall|n: int| #[trigger] final(self).outcome(n) == old(self).outcome(n),
    {
        let ghost first = sc.cur_ref@ as int;
        let ghost contents = numbering.seen();
        let settings = sc.serialize_settings();
        let mut coverage = Coverage::new(numbering.remapper.clone());
        proof {
            assert(self.outcome(first) == self.outcome(first).settled(first));
        }
        let visited = self.visit(sc, &mut coverage);
        proof {
            assert(visited is Ok);
            assert(coverage.seen() =~= contents);
            lemma_ref_is_its_number(sc.cur_ref, old(sc).cur_ref);
            if !numbering.fault {
                lemma_covers_by_number(numbering.remapper@, contents);
            }
        }
        if numbering.fault || !coverage.complete {
            return false;
        }
        let any = self.is_catalog_needed();
        let roots = is_part_numbered(&self.page_tree, &numbering.remapper) && is_part_numbered(
            &self.outline,
            &numbering.remapper,
        ) && is_part_numbered(&self.page_label_tree, &numbering.remapper) && is_part_numbered(
            &self.destination_profiles,
            &numbering.remapper,
        ) && is_part_numbered(&self.struct_tree_root, &numbering.remapper);
        if !roots {
            return false;
        }
        !any || is_listable(
            &sc.global_objects.named_destinations,
            &sc.global_objects.embedded_files,
            self.embedded_files.len() == 0,
            settings.validator(),
            &numbering.remapper,
        )
    }

    /// Writes the document if it can be written. `None` where it cannot.
    pub fn try_finish<P: DocumentParts>(self, sc: &mut SerializeContext, parts: &P) -> (result:
        Option<KrillaResult<Pdf>>)
        ensures
            result is Some <==> self.finishable(*old(sc)),
            final(sc).cur_ref@ == self.outcome(old(sc).cur_ref@ as int).next,
            match result {
                Some(Ok(pdf)) => {
                    &&& self.outcome(old(sc).cur_ref@ as int).error is None
                    &&& finished(parts, self, *old(sc), *final(sc), pdf)
                },
                Some(Err(error)) => failed(parts, self, *old(sc), *final(sc), error),
                None => *final(sc) == (SerializeContext {
                    cur_ref: final(sc).cur_ref,
                    ..*old(sc)
                }),
            },
    {
        let mut container = self;
        let numbering = match container.number(sc) {
            Ok(numbering) => numbering,
            Err(error) => {
                return Some(Err(error));
            },
        };
        let ghost settled = container;
        let ghost between = *sc;
        if !container.is_finishable(sc, &numbering) {
            return None;
        }
        let result = container.finish(sc, parts);
        proof {
            if result is Ok {
                let pdf = result->Ok_0;
                let steps = choose|steps: Steps| #[trigger]
                    steps.of(parts, container, between) && steps.lead_to(
                        between,
                        pdf,
                        sc.validation_errors@,
                    );
                assert(steps.of(parts, self, *old(sc)));
                assert(steps.lead_to(*old(sc), pdf, sc.validation_errors@));
            } else {
                let error = result->Err_0;
                let steps = choose|steps: Steps| #[trigger]
                    steps.of(parts, container, between) && steps.overflow() == Some(error)
                        && sc.validation_errors@ == steps.errors_before_end(between);
                assert(steps.of(parts, self, *old(sc)));
            }
        }
        Some(result)
    }
}

} // verus!
