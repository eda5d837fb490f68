//! PDF files whose pages are embedded into a document.

use pdf_writer::Chunk;
use std::collections::HashMap;
use vstd::prelude::*;

use crate::error::{KrillaError, KrillaResult};
use crate::model::{mentions, renumbered, texts, Content, Object};
use crate::outside::chunk::{
    as_numbers, chunk_content, chunk_mentions, chunk_renumber, covers,
};
use crate::reference::Ref;
use crate::serialize::SerializeContext;
use crate::visit::{ChunkSink, Outcome, Visit};

verus! {

broadcast use vstd::std_specs::hash::group_hash_axioms;

/// The given map, extended by new numbers for the numbers that it has none
/// for: the first of them that is met gets `next`, the second the number after
/// it, and so on. Together with the number that is next afterwards.
pub open spec fn allotted(met: Seq<i32>, map: Map<i32, i32>, next: int) -> (Map<i32, i32>, int)
    decreases met.len(),
{
    if met.len() == 0 {
        (map, next)
    } else {
        let (before, free) = allotted(met.drop_last(), map, next);
        if before.contains_key(met.last()) {
            (before, free)
        } else {
            (before.insert(met.last(), free as i32), free + 1)
        }
    }
}

/// What an embedded PDF holds after its first renumbering.
pub open spec fn settled_content(objects: Seq<Object>, map: Map<i32, i32>) -> Content {
    Content {
        objects: renumbered(objects, map, true),
        len: texts(renumbered(objects, map, true)).len(),
    }
}

/// The numbers that were met first are met first among more of them, too.
proof fn lemma_allotted_grows(met: Seq<i32>, count: int, map: Map<i32, i32>, next: int)
    requires
        0 <= count <= met.len(),
    ensures
        next <= allotted(met.take(count), map, next).1 <= allotted(met, map, next).1,
    decreases met.len(),
{
    if count < met.len() {
        lemma_allotted_grows(met.drop_last(), count, map, next);
        assert(met.drop_last().take(count) =~= met.take(count));
    } else {
        assert(met.take(count) =~= met);
        if met.len() > 0 {
            lemma_allotted_grows(met.drop_last(), count - 1, map, next);
        }
    }
}

/// Every number that was met has a number, and so has every number that had
/// one.
proof fn lemma_allotted_covers(met: Seq<i32>, map: Map<i32, i32>, next: int)
    ensures
        forall|i: int|
            0 <= i < met.len() ==> allotted(met, map, next).0.contains_key(#[trigger] met[i]),
        forall|k: i32| #[trigger]
            map.contains_key(k) ==> allotted(met, map, next).0.contains_key(k),
    decreases met.len(),
{
    if met.len() > 0 {
        lemma_allotted_covers(met.drop_last(), map, next);
        assert forall|i: int| 0 <= i < met.len() implies allotted(met, map, next).0.contains_key(
            #[trigger] met[i],
        ) by {
            if i < met.len() - 1 {
                assert(met.drop_last()[i] == met[i]);
            }
        }
    }
}

/// A PDF file that is embedded: everything that is needed to embed it fully,
/// under the numbers that it came with.
pub struct EmbeddedPdfChunk {
    /// The objects, under the numbers that they came with.
    pub original_chunk: Chunk,
    /// The references that were given to some of these numbers before.
    pub root_ref_mappings: HashMap<i32, Ref>,
    /// The objects after their first renumbering, once that has been done.
    pub new_chunk: Option<Chunk>,
}

impl EmbeddedPdfChunk {
    /// The numbers for the first renumbering, and the number that is next
    /// afterwards.
    pub open spec fn allotment(&self, next: int) -> (Map<i32, i32>, int) {
        allotted(
            mentions(chunk_content(self.original_chunk).objects),
            as_numbers(self.root_ref_mappings@),
            next,
        )
    }

    /// Whether what is remembered is the result of a first renumbering, with
    /// new references from some number on.
    pub open spec fn remembers(&self) -> bool {
        exists|next: int|
            {
                &&& (#[trigger] self.allotment(next)).1 <= i32::MAX
                &&& self.new_chunk matches Some(chunk) && chunk_content(chunk) == settled_content(
                    chunk_content(self.original_chunk).objects,
                    self.allotment(next).0,
                )
            }
    }

    /// A PDF file that was not renumbered yet.
    pub fn new(original_chunk: Chunk, root_ref_mappings: HashMap<i32, Ref>) -> (embedded: Self)
        ensures
            embedded.original_chunk == original_chunk,
            embedded.root_ref_mappings == root_ref_mappings,
            embedded.new_chunk is None,
    {
        EmbeddedPdfChunk { original_chunk, root_ref_mappings, new_chunk: None }
    }

    /// Renumbers the objects: those that were given a reference before get
    /// that one, and all others a new one. `None` where there are not enough
    /// numbers left.
    pub(crate) fn renumber(&self, next: Ref) -> (result: Option<(Chunk, Ref)>)
        ensures
            result is Some <==> self.allotment(next@ as int).1 <= i32::MAX,
            result matches Some((chunk, free)) ==> {
                &&& free@ == self.allotment(next@ as int).1
                &&& chunk_content(chunk) == settled_content(
                    chunk_content(self.original_chunk).objects,
                    self.allotment(next@ as int).0,
                )
            },
    {
        let met = chunk_mentions(&self.original_chunk);
        let mut map: HashMap<i32, Ref> = self.root_ref_mappings.clone();
        let mut free: Ref = next;
        let ghost roots = as_numbers(self.root_ref_mappings@);
        let mut i: usize = 0;
        assert(met@.take(0) =~= Seq::<i32>::empty());
        while i < met.len()
            invariant
                i <= met@.len(),
                met@ == mentions(chunk_content(self.original_chunk).objects),
                roots == as_numbers(self.root_ref_mappings@),
                (as_numbers(map@), free@ as int) == allotted(
                    met@.take(i as int),
                    roots,
                    next@ as int,
                ),
            decreases met@.len() - i,
        {
            let number: i32 = met[i];
            proof {
                assert(met@.take(i + 1).drop_last() =~= met@.take(i as int));
                lemma_allotted_grows(met@, i + 1, roots, next@ as int);
            }
            if !map.contains_key(&number) {
                if free.get() == i32::MAX {
                    return None;
                }
                let ghost before = map@;
                let r: Ref = free.bump();
                map.insert(number, r);
                assert(as_numbers(map@) =~= as_numbers(before).insert(number, r@));
            }
            i += 1;
        }
        proof {
            assert(met@.take(i as int) =~= met@);
            lemma_allotted_covers(met@, roots, next@ as int);
            assert(covers(map@, chunk_content(self.original_chunk))) by {
                assert forall|k: int| 0 <= k < met@.len() implies #[trigger] map@.contains_key(
                    met@[k],
                ) by {
                    assert(as_numbers(map@).contains_key(met@[k]));
                }
            }
        }
        Some((chunk_renumber(&self.original_chunk, &map), free))
    }
}

impl Visit for EmbeddedPdfChunk {
    open spec fn outcome(&self, next: int) -> Outcome {
        match self.new_chunk {
            Some(chunk) => Outcome::one(chunk_content(chunk), next),
            None => {
                let (map, free) = self.allotment(next);
                if free <= i32::MAX {
                    Outcome::one(
                        settled_content(chunk_content(self.original_chunk).objects, map),
                        free,
                    )
                } else {
                    Outcome {
                        contents: Seq::empty(),
                        error: Some(KrillaError::RefsExhausted),
                        next,
                    }
                }
            },
        }
    }

    open spec fn kept(&self, before: &Self) -> bool {
        &&& self.original_chunk == before.original_chunk
        &&& self.root_ref_mappings == before.root_ref_mappings
        &&& self.new_chunk == before.new_chunk || (before.new_chunk is None && self.remembers())
    }

    proof fn lemma_kept_unvisited(&self) {
    }

    /// The objects of an embedded PDF are renumbered twice. References were
    /// given to its pages before it was read, and it came with numbers of its
    /// own. So first its objects get the references that they were given, and
    /// all others new ones. After that the chunk is treated like any other.
    /// The result of the first renumbering is remembered, for the next visit.
    fn visit<S: ChunkSink>(&mut self, sc: &mut SerializeContext, sink: &mut S) -> (result:
        KrillaResult<()>)
        ensures
            result is Ok ==> final(self).new_chunk is Some,
            result is Ok && old(self).new_chunk is None ==> chunk_content(
                final(self).new_chunk->0,
            ) == settled_content(
                chunk_content(old(self).original_chunk).objects,
                old(self).allotment(old(sc).cur_ref@ as int).0,
            ),
            result is Err ==> final(self).new_chunk is None,
    {
        if self.new_chunk.is_none() {
            match self.renumber(sc.cur_ref) {
                Some((chunk, free)) => {
                    self.new_chunk = Some(chunk);
                    sc.cur_ref = free;
                },
                None => {
                    assert(sink.seen() =~= old(sink).seen() + Seq::<Content>::empty());
                    return Err(KrillaError::RefsExhausted);
                },
            }
        }
        let result = match &mut self.new_chunk {
            Some(chunk) => chunk.visit(sc, sink),
            None => Ok(()),
        };
        assert(self.allotment(old(sc).cur_ref@ as int) == old(self).allotment(
            old(sc).cur_ref@ as int,
        ));
        result
    }
}

} // verus!
