//! Chunks of indirect objects, as `pdf_writer` keeps them.

use pdf_writer::Chunk;
use std::collections::HashMap;
use vstd::prelude::*;

use crate::model::{mentions, numbers, renumbered, texts, Content};
use crate::reference::Ref;

verus! {

broadcast use vstd::std_specs::hash::group_hash_axioms;

/// `pdf_writer::Chunk`, a collection of indirect objects.
#[verifier::external_type_specification]
#[verifier::external_body]
pub struct ExChunk(pdf_writer::Chunk);

/// What a chunk holds: the number and the text of each of its objects, and how
/// many bytes were written to it.
pub uninterp spec fn chunk_content(chunk: Chunk) -> Content;

/// The text that `pdf_writer` gives an object when it renumbers it: the object
/// gets the number `number`, and each reference in it the number that `map`
/// gives for the number it had. `None` where `text` is no complete object.
pub uninterp spec fn renumbered_object(
    text: Seq<u8>,
    number: i32,
    map: Map<i32, i32>,
    pretty: bool,
) -> Option<Seq<u8>>;

/// The numbers of the references that `pdf_writer` finds when it renumbers an
/// object, in the order in which it finds them. Empty where `text` is no
/// complete object.
pub uninterp spec fn object_references(text: Seq<u8>) -> Seq<i32>;

/// The map from numbers to numbers that a map of references stands for.
pub open spec fn as_numbers(map: Map<i32, Ref>) -> Map<i32, i32> {
    map.map_values(|r: Ref| r@)
}

/// Whether `map` gives something for every number that occurs in the objects of
/// `content`.
pub open spec fn covers<V>(map: Map<i32, V>, content: Content) -> bool {
    forall|i: int|
        0 <= i < mentions(content.objects).len() ==> #[trigger] map.contains_key(
            mentions(content.objects)[i],
        )
}

/// Looks up the reference that a number is mapped to.
pub fn mapped(map: &HashMap<i32, Ref>, number: i32) -> (r: Ref)
    requires
        map@.contains_key(number),
    ensures
        r == map@[number],
{
    *map.get(&number).unwrap()
}

/// Notes down a number.
fn note(seen: &mut Vec<i32>, number: i32)
    ensures
        final(seen)@ == old(seen)@.push(number),
{
    seen.push(number);
}

/// Calls `pdf_writer::Chunk::refs`: the numbers of the objects of the chunk,
/// in the order in which they appear in it.
#[verifier::external_body]
pub(crate) fn chunk_refs(chunk: &Chunk) -> (refs: Vec<i32>)
    ensures
        refs@ == numbers(chunk_content(*chunk).objects),
{
    chunk.refs().map(|r| r.get()).collect()
}

/// Calls `pdf_writer::Chunk::len`: the number of bytes that were written to
/// the chunk.
#[verifier::external_body]
pub(crate) fn chunk_len(chunk: &Chunk) -> (len: usize)
    ensures
        len == chunk_content(*chunk).len,
{
    chunk.len()
}

/// Calls `pdf_writer::Chunk::renumber` with a mapping that keeps every number
/// and notes it down. The mapping is called for the number of each object, and
/// after it for each reference in the object, in the order of the chunk.
#[verifier::external_body]
pub(crate) fn chunk_mentions(chunk: &Chunk) -> (seen: Vec<i32>)
    ensures
        seen@ == mentions(chunk_content(*chunk).objects),
        chunk_content(*chunk).objects.len() > 0 ==> object_references(
            chunk_content(*chunk).objects.last().1,
        ).is_suffix_of(seen@),
{
    let mut seen: Vec<i32> = Vec::new();
    chunk.renumber(|r| { note(&mut seen, r.get()); r });
    seen
}

/// Calls `pdf_writer::Chunk::renumber` with the mapping `map`: a new chunk
/// with the default settings, which holds the renumbered objects and nothing
/// else.
#[verifier::external_body]
pub(crate) fn chunk_renumber(chunk: &Chunk, map: &HashMap<i32, Ref>) -> (result: Chunk)
    requires
        covers(map@, chunk_content(*chunk)),
    ensures
        chunk_content(result).objects == renumbered(
            chunk_content(*chunk).objects,
            as_numbers(map@),
            true,
        ),
        chunk_content(*chunk).objects.len() > 0 ==> (renumbered_object(
            chunk_content(*chunk).objects.last().1,
            map@[chunk_content(*chunk).objects.last().0]@,
            as_numbers(map@),
            true,
        ) matches Some(text) ==> chunk_content(result).objects.last().1 == text),
        chunk_content(result).len == texts(chunk_content(result).objects).len(),
{
    chunk.renumber(|r| pdf_writer::Ref::new(mapped(map, r.get()).get()))
}

} // verus!
