//! What holds of the PDF files that are embedded into a document.

use vstd::prelude::*;

use crate::embedded_pdf::{allotted, settled_content, EmbeddedPdfChunk};
use crate::error::KrillaError;
use crate::laws::law_embedded_objects_get_new_numbers;
use crate::model::{mentions, renumbered, texts, Object};
use crate::outside::chunk::{as_numbers, chunk_content, renumbered_object};
use crate::visit::Visit;

verus! {

/// Whether the number is met for the first time at place `i`, and no reference
/// was given to it before.
pub open spec fn is_fresh(embedded: EmbeddedPdfChunk, i: int) -> bool {
    let met = mentions(chunk_content(embedded.original_chunk).objects);
    &&& 0 <= i < met.len()
    &&& !embedded.root_ref_mappings@.contains_key(met[i])
    &&& forall|j: int| 0 <= j < i ==> met[j] != met[i]
}

/// Whether the map keeps all references that were given to objects of the
/// embedded PDF before, and gives new ones to all other numbers that are met in
/// it, in the order in which they are met: from `next` on, without gaps, and up
/// to `free`.
pub open spec fn is_first_map(
    map: Map<i32, i32>,
    embedded: EmbeddedPdfChunk,
    next: int,
    free: int,
) -> bool {
    let met = mentions(chunk_content(embedded.original_chunk).objects);
    let roots = embedded.root_ref_mappings@;
    &&& forall|k: i32| #[trigger]
        roots.contains_key(k) ==> map.contains_key(k) && map[k] == roots[k]@
    &&& forall|i: int| 0 <= i < met.len() ==> map.contains_key(#[trigger] met[i])
    &&& forall|k: i32| #[trigger]
        map.contains_key(k) ==> roots.contains_key(k) || met.contains(k)
    &&& forall|i: int|
        0 <= i < met.len() && !roots.contains_key(#[trigger] met[i]) ==> next <= map[met[i]] < free
    &&& forall|i: int, j: int|
        #![trigger is_fresh(embedded, i), is_fresh(embedded, j)]
        is_fresh(embedded, i) && is_fresh(embedded, j) && i < j ==> map[met[i]] < map[met[j]]
    &&& forall|m: int| next <= m < free ==> #[trigger] is_given(map, embedded, m)
}

/// Whether the number is given to a number that is met for the first time.
pub open spec fn is_given(map: Map<i32, i32>, embedded: EmbeddedPdfChunk, m: int) -> bool {
    exists|i: int| #[trigger]
        is_fresh(embedded, i) && map[mentions(
            chunk_content(embedded.original_chunk).objects,
        )[i]] == m
}

/// Whether the map gives `m` to a number that is met for the first time, and
/// that is not among the roots.
spec fn is_reached(met: Seq<i32>, roots: Map<i32, i32>, map: Map<i32, i32>, m: int) -> bool {
    exists|i: int|
        0 <= i < met.len() && !roots.contains_key(met[i]) && !(#[trigger] met.take(i)).contains(
            met[i],
        ) && map[met[i]] == m
}

/// The numbers are given in the order in which the others are met first, and
/// none is left out.
proof fn lemma_allotted_in_order(met: Seq<i32>, roots: Map<i32, i32>, next: int)
    requires
        0 < next,
        allotted(met, roots, next).1 <= i32::MAX,
    ensures
        allotted(met, roots, next).1 <= next + met.len(),
        forall|i: int, j: int|
            #![trigger met[i], met[j]]
            0 <= i < j < met.len() && !roots.contains_key(met[i]) && !roots.contains_key(met[j])
                && !met.take(j).contains(met[j]) ==> allotted(met, roots, next).0[met[i]]
                < allotted(met, roots, next).0[met[j]],
        forall|m: int|
            next <= m < allotted(met, roots, next).1 ==> #[trigger] is_reached(
                met,
                roots,
                allotted(met, roots, next).0,
                m,
            ),
    decreases met.len(),
{
    if met.len() > 0 {
        let before = met.drop_last();
        let last = met.len() - 1;
        let (old_map, free) = allotted(before, roots, next);
        let map = allotted(met, roots, next).0;
        law_embedded_objects_get_new_numbers(met, roots, next);
        lemma_allotted_in_order(before, roots, next);
        law_embedded_objects_get_new_numbers(before, roots, next);
        assert(met.take(last) =~= before);
        assert(met[last] == met.last());
        assert forall|i: int, j: int|
            #![trigger met[i], met[j]]
            0 <= i < j < met.len() && !roots.contains_key(met[i]) && !roots.contains_key(met[j])
                && !met.take(j).contains(met[j]) implies map[met[i]] < map[met[j]] by {
            assert(before.contains(before[i]));
            if j < last {
                assert(before.take(j) =~= met.take(j));
                assert(before[i] == met[i] && before[j] == met[j]);
                assert(before.contains(before[j]));
            } else {
                assert(before[i] == met[i]);
            }
        }
        assert forall|m: int|
            next <= m < allotted(met, roots, next).1 implies #[trigger] is_reached(
            met,
            roots,
            map,
            m,
        ) by {
            if m < free {
                assert(is_reached(before, roots, old_map, m));
                let i = choose|i: int|
                    0 <= i < before.len() && !roots.contains_key(before[i]) && !(
                    #[trigger] before.take(i)).contains(before[i]) && old_map[before[i]] == m;
                assert(met.take(i) =~= before.take(i));
                assert(met[i] == before[i]);
                assert(before.contains(before[i]));
                assert(!met.take(i).contains(met[i]) && map[met[i]] == m);
            } else {
                assert(!old_map.contains_key(met.last()));
                assert(!before.contains(met.last()));
                assert(!met.take(last).contains(met[last]) && map[met[last]] == m);
            }
        }
    }
}

/// An embedded PDF that was not renumbered yet is visited as one chunk: its
/// objects, renumbered by one map, which keeps all references that were given to
/// them before, however many these are, and gives new ones to all others.
pub proof fn law_embedded_pdf_is_renumbered(embedded: EmbeddedPdfChunk, next: int)
    requires
        embedded.new_chunk is None,
        0 < next,
        embedded.outcome(next).error is None,
    ensures
        exists|map: Map<i32, i32>|
            {
                let objects = renumbered(
                    chunk_content(embedded.original_chunk).objects,
                    map,
                    true,
                );
                &&& #[trigger] is_first_map(map, embedded, next, embedded.outcome(next).next)
                &&& embedded.outcome(next).contents.len() == 1
                &&& embedded.outcome(next).contents[0].objects == objects
                &&& embedded.outcome(next).contents[0].len == texts(objects).len()
            },
{
    let met = mentions(chunk_content(embedded.original_chunk).objects);
    let roots = as_numbers(embedded.root_ref_mappings@);
    let (map, free) = allotted(met, roots, next);
    assert(embedded.allotment(next) == (map, free));
    law_embedded_objects_get_new_numbers(met, roots, next);
    lemma_allotted_in_order(met, roots, next);
    assert forall|k: i32| #[trigger]
        embedded.root_ref_mappings@.contains_key(k) implies map.contains_key(k) && map[k]
        == embedded.root_ref_mappings@[k]@ by {
        assert(roots.contains_key(k));
    }
    assert forall|i: int| 0 <= i < met.len() implies map.contains_key(#[trigger] met[i]) by {
        assert(met.contains(met[i]));
        if roots.contains_key(met[i]) {
            assert(embedded.root_ref_mappings@.contains_key(met[i]));
        }
    }
    assert forall|k: i32| #[trigger] map.contains_key(k) implies
        embedded.root_ref_mappings@.contains_key(k) || met.contains(k) by {
        if !roots.contains_key(k) {
            assert(map.contains_key(k) <==> met.contains(k));
        }
    }
    assert forall|i: int|
        0 <= i < met.len() && !embedded.root_ref_mappings@.contains_key(
            #[trigger] met[i],
        ) implies next <= map[met[i]] < free by {
        assert(met.contains(met[i]));
        assert(!roots.contains_key(met[i]));
    }
    assert forall|i: int| is_fresh(embedded, i) implies !met.take(i).contains(met[i]) by {
        if met.take(i).contains(met[i]) {
            let j = met.take(i).index_of(met[i]);
            assert(met[j] == met[i]);
        }
    }
    assert forall|i: int, j: int|
        #![trigger is_fresh(embedded, i), is_fresh(embedded, j)]
        is_fresh(embedded, i) && is_fresh(embedded, j) && i < j implies map[met[i]]
        < map[met[j]] by {
        assert(!roots.contains_key(met[i]) && !roots.contains_key(met[j]));
    }
    assert forall|m: int| next <= m < free implies #[trigger] is_given(map, embedded, m) by {
        assert(is_reached(met, roots, map, m));
        let i = choose|i: int|
            0 <= i < met.len() && !roots.contains_key(met[i]) && !(#[trigger] met.take(
                i,
            )).contains(met[i]) && map[met[i]] == m;
        assert forall|j: int| 0 <= j < i implies met[j] != met[i] by {
            assert(met.take(i)[j] == met[j]);
        }
        assert(is_fresh(embedded, i));
    }
    assert(is_first_map(map, embedded, next, embedded.outcome(next).next));
}

/// A visit to an embedded PDF fails only where there are not enough numbers, and
/// never where there is one for every number that is met in it.
pub proof fn law_embedded_pdf_fails_for_want_of_numbers(embedded: EmbeddedPdfChunk, next: int)
    requires
        0 < next,
    ensures
        embedded.outcome(next).error is None || embedded.outcome(next).error == Some(
            KrillaError::RefsExhausted,
        ),
        next + mentions(chunk_content(embedded.original_chunk).objects).len() <= i32::MAX
            ==> embedded.outcome(next).error is None,
        embedded.outcome(next).error is Some ==> embedded.outcome(next).contents.len() == 0
            && embedded.outcome(next).next == next,
{
    lemma_allotted_bounded(
        mentions(chunk_content(embedded.original_chunk).objects),
        as_numbers(embedded.root_ref_mappings@),
        next,
    );
}

/// No more numbers are given away than are met.
proof fn lemma_allotted_bounded(met: Seq<i32>, roots: Map<i32, i32>, next: int)
    ensures
        next <= allotted(met, roots, next).1 <= next + met.len(),
    decreases met.len(),
{
    if met.len() > 0 {
        lemma_allotted_bounded(met.drop_last(), roots, next);
    }
}

/// An embedded PDF that was renumbered before is visited as it is remembered,
/// and takes no numbers.
pub proof fn law_remembered_pdf_is_visited_as_it_is(embedded: EmbeddedPdfChunk, next: int)
    requires
        embedded.new_chunk is Some,
    ensures
        embedded.outcome(next).contents == seq![chunk_content(embedded.new_chunk->0)],
        embedded.outcome(next).error is None,
        embedded.outcome(next).next == next,
{
}

/// Whether the map keeps all references that were given to objects of the
/// embedded PDF before, and gives something for every other number that is met
/// in it, and for no more.
pub open spec fn keeps_given(map: Map<i32, i32>, embedded: EmbeddedPdfChunk) -> bool {
    let met = mentions(chunk_content(embedded.original_chunk).objects);
    let roots = embedded.root_ref_mappings@;
    &&& forall|k: i32| #[trigger]
        roots.contains_key(k) ==> map.contains_key(k) && map[k] == roots[k]@
    &&& forall|k: i32| #[trigger]
        map.contains_key(k) <==> roots.contains_key(k) || met.contains(k)
}

/// The map is extended by the numbers that are met, and keeps what it had.
proof fn lemma_allotted_extends(met: Seq<i32>, roots: Map<i32, i32>, next: int)
    ensures
        forall|k: i32| #[trigger]
            allotted(met, roots, next).0.contains_key(k) <==> roots.contains_key(k)
                || met.contains(k),
        forall|k: i32| #[trigger]
            roots.contains_key(k) ==> allotted(met, roots, next).0[k] == roots[k],
    decreases met.len(),
{
    if met.len() > 0 {
        let before = met.drop_last();
        lemma_allotted_extends(before, roots, next);
        assert forall|k: i32| #[trigger] allotted(met, roots, next).0.contains_key(k) <==>
            roots.contains_key(k) || met.contains(k) by {
            assert(allotted(before, roots, next).0.contains_key(k) <==> roots.contains_key(k)
                || before.contains(k));
            if met.contains(k) {
                let i = met.index_of(k);
                if i < before.len() {
                    assert(before[i] == k);
                }
            }
            if before.contains(k) {
                assert(met[before.index_of(k)] == k);
            }
            assert(met[met.len() - 1] == met.last());
        }
    }
}

/// What an embedded PDF remembers of a visit are its objects, renumbered by a
/// map that keeps all references that were given to them before. What it
/// remembered before stays as it was.
pub proof fn law_what_is_remembered(after: EmbeddedPdfChunk, before: EmbeddedPdfChunk)
    requires
        after.kept(&before),
    ensures
        before.new_chunk is Some ==> after.new_chunk == before.new_chunk,
        before.new_chunk is None && after.new_chunk is Some ==> exists|map: Map<i32, i32>|
            {
                let objects = renumbered(chunk_content(before.original_chunk).objects, map, true);
                &&& #[trigger] keeps_given(map, before)
                &&& chunk_content(after.new_chunk->0).objects == objects
                &&& chunk_content(after.new_chunk->0).len == texts(objects).len()
            },
{
    if before.new_chunk is None && after.new_chunk is Some {
        let next = choose|next: int|
            {
                &&& (#[trigger] after.allotment(next)).1 <= i32::MAX
                &&& after.new_chunk matches Some(chunk) && chunk_content(chunk) == settled_content(
                    chunk_content(after.original_chunk).objects,
                    after.allotment(next).0,
                )
            };
        let met = mentions(chunk_content(before.original_chunk).objects);
        let roots = as_numbers(before.root_ref_mappings@);
        let map = after.allotment(next).0;
        lemma_allotted_extends(met, roots, next);
        assert forall|k: i32| #[trigger] before.root_ref_mappings@.contains_key(k) implies
            map.contains_key(k) && map[k] == before.root_ref_mappings@[k]@ by {
            assert(roots.contains_key(k));
        }
        assert forall|k: i32| #[trigger] map.contains_key(k) <==>
            before.root_ref_mappings@.contains_key(k) || met.contains(k) by {
            assert(roots.contains_key(k) <==> before.root_ref_mappings@.contains_key(k));
        }
        assert(keeps_given(map, before));
    }
}

/// Every complete object is found again among the renumbered ones, under the
/// number that the map gives for its number.
proof fn lemma_renumbered_has(objects: Seq<Object>, map: Map<i32, i32>, pretty: bool, i: int)
    requires
        0 <= i < objects.len(),
        renumbered_object(objects[i].1, map[objects[i].0], map, pretty) is Some,
    ensures
        exists|j: int|
            0 <= j < renumbered(objects, map, pretty).len() && #[trigger] renumbered(
                objects,
                map,
                pretty,
            )[j] == (
                map[objects[i].0],
                renumbered_object(objects[i].1, map[objects[i].0], map, pretty)->0,
            ),
    decreases objects.len(),
{
    let before = renumbered(objects.drop_last(), map, pretty);
    let all = renumbered(objects, map, pretty);
    let wanted = (
        map[objects[i].0],
        renumbered_object(objects[i].1, map[objects[i].0], map, pretty)->0,
    );
    if i == objects.len() - 1 {
        assert(all[before.len() as int] == wanted);
    } else {
        assert(objects.drop_last()[i] == objects[i]);
        lemma_renumbered_has(objects.drop_last(), map, pretty, i);
        let j = choose|j: int| 0 <= j < before.len() && #[trigger] before[j] == wanted;
        assert(all[j] == wanted);
    }
}

/// An object that was given a reference before the PDF was read is visited under
/// this very reference, if it is complete, however many such objects there are.
pub proof fn law_given_references_are_kept(embedded: EmbeddedPdfChunk, next: int)
    requires
        embedded.new_chunk is None,
        0 < next,
        embedded.outcome(next).error is None,
    ensures
        exists|map: Map<i32, i32>|
            {
                let objects = chunk_content(embedded.original_chunk).objects;
                let roots = embedded.root_ref_mappings@;
                &&& #[trigger] is_first_map(map, embedded, next, embedded.outcome(next).next)
                &&& forall|i: int|
                    #![trigger objects[i]]
                    0 <= i < objects.len() && roots.contains_key(objects[i].0)
                        && renumbered_object(
                        objects[i].1,
                        roots[objects[i].0]@,
                        map,
                        true,
                    ) is Some ==> embedded.outcome(next).contents[0].objects.contains(
                        (
                            roots[objects[i].0]@,
                            renumbered_object(objects[i].1, roots[objects[i].0]@, map, true)->0,
                        ),
                    )
            },
{
    law_embedded_pdf_is_renumbered(embedded, next);
    let objects = chunk_content(embedded.original_chunk).objects;
    let roots = embedded.root_ref_mappings@;
    let map = choose|map: Map<i32, i32>|
        {
            let new_objects = renumbered(objects, map, true);
            &&& #[trigger] is_first_map(map, embedded, next, embedded.outcome(next).next)
            &&& embedded.outcome(next).contents.len() == 1
            &&& embedded.outcome(next).contents[0].objects == new_objects
            &&& embedded.outcome(next).contents[0].len == texts(new_objects).len()
        };
    assert forall|i: int|
        #![trigger objects[i]]
        0 <= i < objects.len() && roots.contains_key(objects[i].0) && renumbered_object(
            objects[i].1,
            roots[objects[i].0]@,
            map,
            true,
        ) is Some implies embedded.outcome(next).contents[0].objects.contains(
        (
            roots[objects[i].0]@,
            renumbered_object(objects[i].1, roots[objects[i].0]@, map, true)->0,
        ),
    ) by {
        assert(map[objects[i].0] == roots[objects[i].0]@);
        lemma_renumbered_has(objects, map, true, i);
    }
    assert(is_first_map(map, embedded, next, embedded.outcome(next).next));
}

} // verus!
