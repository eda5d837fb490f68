//! Numbering the objects of a document in the order in which they are written.

use pdf_writer::Chunk;
use std::collections::HashMap;
use vstd::prelude::*;

use crate::model::{all_objects, mentions, numbers, total_len, Content};
use crate::outside::chunk::{
    as_numbers, chunk_content, chunk_len, chunk_mentions, chunk_refs, covers,
};
use crate::reference::Ref;
use crate::visit::ChunkSink;

verus! {

broadcast use vstd::std_specs::hash::group_hash_axioms;

/// The numbers under which the contents have their objects.
pub open spec fn all_numbers(contents: Seq<Content>) -> Seq<i32> {
    numbers(all_objects(contents))
}

/// The map that gives the first number 1, the second 2, and so on.
pub open spec fn consecutive(refs: Seq<i32>) -> Map<i32, i32> {
    Map::new(|k: i32| refs.contains(k), |k: i32| (refs.index_of(k) + 1) as i32)
}

/// Whether the objects of the contents can be numbered: no two of them have
/// the same number, and there are numbers and bytes enough for all of them.
pub open spec fn numberable(contents: Seq<Content>) -> bool {
    &&& all_numbers(contents).no_duplicates()
    &&& all_numbers(contents).len() < i32::MAX
    &&& total_len(contents) <= usize::MAX
}

/// The numbers of one more content come after those of the others.
pub proof fn lemma_all_numbers_push(contents: Seq<Content>, content: Content)
    ensures
        all_numbers(contents.push(content)) == all_numbers(contents) + numbers(content.objects),
        total_len(contents.push(content)) == total_len(contents) + content.len,
{
    assert(contents.push(content).drop_last() =~= contents);
    assert(all_numbers(contents.push(content)) =~= all_numbers(contents) + numbers(
        content.objects,
    ));
}

/// Where some contents cannot be numbered, they cannot be numbered together
/// with another one.
proof fn lemma_numberable_first(contents: Seq<Content>, content: Content)
    requires
        numberable(contents.push(content)),
    ensures
        numberable(contents),
{
    lemma_all_numbers_push(contents, content);
    let all = all_numbers(contents.push(content));
    assert forall|i: int, j: int|
        0 <= i < all_numbers(contents).len() && 0 <= j < all_numbers(contents).len() && i
            != j implies all_numbers(contents)[i] != all_numbers(contents)[j] by {
        assert(all[i] == all_numbers(contents)[i]);
        assert(all[j] == all_numbers(contents)[j]);
    }
}

/// One more number gets the number after all others.
proof fn lemma_consecutive_push(refs: Seq<i32>, number: i32)
    requires
        refs.no_duplicates(),
        !refs.contains(number),
    ensures
        refs.push(number).no_duplicates(),
        consecutive(refs.push(number)) == consecutive(refs).insert(
            number,
            (refs.len() + 1) as i32,
        ),
{
    let all = refs.push(number);
    assert forall|i: int, j: int| 0 <= i < all.len() && 0 <= j < all.len() && i != j implies all[i]
        != all[j] by {
        if i == refs.len() {
            assert(refs.contains(refs[j]));
        } else if j == refs.len() {
            assert(refs.contains(refs[i]));
        }
    }
    assert(all[refs.len() as int] == number);
    assert(all.index_of(number) == refs.len());
    assert forall|k: i32| all.contains(k) && k != number implies refs.contains(k) && all.index_of(k)
        == refs.index_of(k) by {
        let i = all.index_of(k);
        assert(refs[i] == k);
        assert(all[refs.index_of(k)] == k);
    }
    assert forall|k: i32| refs.contains(k) implies all.contains(k) by {
        assert(all[refs.index_of(k)] == k);
    }
    assert(consecutive(all) =~= consecutive(refs).insert(number, (refs.len() + 1) as i32));
}

/// Numbers the objects of the chunks that it takes, and adds up how many bytes
/// they have.
pub struct Numbering {
    /// The new reference for each number.
    pub remapper: HashMap<i32, Ref>,
    /// The next reference that was not given away.
    pub next_ref: Ref,
    /// How many bytes the chunks have.
    pub byte_len: usize,
    /// Whether the chunks cannot be numbered.
    pub fault: bool,
    /// What the chunks hold.
    pub taken: Ghost<Seq<Content>>,
}

impl Numbering {
    /// Numbers nothing yet.
    pub fn new() -> (numbering: Numbering)
        ensures
            numbering.wf(),
            numbering.seen() == Seq::<Content>::empty(),
    {
        let numbering = Numbering {
            remapper: HashMap::new(),
            next_ref: Ref::new(1),
            byte_len: 0,
            fault: false,
            taken: Ghost(Seq::empty()),
        };
        assert(all_numbers(Seq::<Content>::empty()) =~= Seq::<i32>::empty());
        assert(as_numbers(numbering.remapper@) =~= consecutive(Seq::<i32>::empty()));
        numbering
    }
}

impl ChunkSink for Numbering {
    type Origin = ();

    open spec fn origin(&self) -> () {
        ()
    }

    open spec fn seen(&self) -> Seq<Content> {
        self.taken@
    }

    open spec fn wf(&self) -> bool {
        &&& self.fault == !numberable(self.seen())
        &&& !self.fault ==> {
            &&& as_numbers(self.remapper@) == consecutive(all_numbers(self.seen()))
            &&& self.next_ref@ == all_numbers(self.seen()).len() + 1
            &&& self.byte_len == total_len(self.seen())
        }
    }

    open spec fn ready(origin: (), content: Content) -> bool {
        true
    }

    fn take(&mut self, chunk: &Chunk) {
        let ghost contents = self.taken@;
        let ghost content = chunk_content(*chunk);
        proof {
            if numberable(contents.push(content)) {
                lemma_numberable_first(contents, content);
            }
            lemma_all_numbers_push(contents, content);
            self.taken@ = contents.push(content);
        }
        if self.fault {
            return;
        }
        let ghost before = all_numbers(contents);
        let ghost all = all_numbers(contents.push(content));
        let refs = chunk_refs(chunk);
        let mut i: usize = 0;
        assert(all.take(before.len() as int) =~= before);
        while i < refs.len()
            invariant
                i <= refs@.len(),
                self.taken@ == contents.push(content),
                contents == old(self).taken@,
                content == chunk_content(*chunk),
                all == all_numbers(contents.push(content)),
                all == before + refs@,
                all.take(before.len() + i).no_duplicates(),
                as_numbers(self.remapper@) == consecutive(all.take(before.len() + i)),
                self.next_ref@ == before.len() + i + 1,
                self.byte_len == old(self).byte_len,
                old(self).byte_len == total_len(contents),
                !self.fault,
            decreases refs@.len() - i,
        {
            let number: i32 = refs[i];
            let ghost so_far = all.take(before.len() + i);
            assert(all[before.len() + i] == number);
            if self.next_ref.get() == i32::MAX {
                self.fault = true;
                return;
            }
            let ghost map = self.remapper@;
            let r: Ref = self.next_ref.bump();
            let existing = self.remapper.insert(number, r);
            if existing.is_some() {
                proof {
                    assert(as_numbers(map).contains_key(number));
                    let at = so_far.index_of(number);
                    assert(all[at] == number);
                    assert(!all.no_duplicates());
                }
                self.fault = true;
                return;
            }
            proof {
                assert(!so_far.contains(number)) by {
                    if so_far.contains(number) {
                        assert(as_numbers(map).contains_key(number));
                    }
                }
                lemma_consecutive_push(so_far, number);
                assert(all.take(before.len() + i + 1) =~= so_far.push(number));
                assert(as_numbers(self.remapper@) =~= as_numbers(map).insert(number, r@));
            }
            i += 1;
        }
        assert(all.take(before.len() + i) =~= all);
        match self.byte_len.checked_add(chunk_len(chunk)) {
            Some(byte_len) => {
                self.byte_len = byte_len;
            },
            None => {
                self.fault = true;
            },
        }
    }
}

/// Checks that a map gives a reference for every number that occurs in the
/// chunks.
pub struct Coverage {
    /// The map.
    pub remapper: HashMap<i32, Ref>,
    /// Whether no number without a reference was met.
    pub complete: bool,
    /// What the chunks hold.
    pub taken: Ghost<Seq<Content>>,
}

/// Whether the map gives something for every number that occurs in the
/// contents.
pub open spec fn covers_all<V>(map: Map<i32, V>, contents: Seq<Content>) -> bool {
    forall|i: int| 0 <= i < contents.len() ==> covers(map, #[trigger] contents[i])
}

/// A map of references covers the same contents as the map of numbers that it
/// stands for.
pub proof fn lemma_covers_by_number(map: Map<i32, Ref>, contents: Seq<Content>)
    ensures
        covers_all(map, contents) == covers_all(as_numbers(map), contents),
{
    if covers_all(map, contents) {
        assert forall|i: int| 0 <= i < contents.len() implies covers(
            as_numbers(map),
            #[trigger] contents[i],
        ) by {
            assert(covers(map, contents[i]));
            let met = mentions(contents[i].objects);
            assert forall|k: int| 0 <= k < met.len() implies #[trigger] as_numbers(
                map,
            ).contains_key(met[k]) by {
                assert(map.contains_key(met[k]));
            }
        }
    }
    if covers_all(as_numbers(map), contents) {
        assert forall|i: int| 0 <= i < contents.len() implies covers(
            map,
            #[trigger] contents[i],
        ) by {
            assert(covers(as_numbers(map), contents[i]));
            let met = mentions(contents[i].objects);
            assert forall|k: int| 0 <= k < met.len() implies #[trigger] map.contains_key(
                met[k],
            ) by {
                assert(as_numbers(map).contains_key(met[k]));
            }
        }
    }
}

impl Coverage {
    /// Has met nothing yet.
    pub fn new(remapper: HashMap<i32, Ref>) -> (coverage: Coverage)
        ensures
            coverage.wf(),
            coverage.origin() == remapper@,
            coverage.seen() == Seq::<Content>::empty(),
    {
        Coverage { remapper, complete: true, taken: Ghost(Seq::empty()) }
    }
}

impl ChunkSink for Coverage {
    type Origin = Map<i32, Ref>;

    open spec fn origin(&self) -> Map<i32, Ref> {
        self.remapper@
    }

    open spec fn seen(&self) -> Seq<Content> {
        self.taken@
    }

    open spec fn wf(&self) -> bool {
        self.complete == covers_all(self.remapper@, self.seen())
    }

    open spec fn ready(origin: Map<i32, Ref>, content: Content) -> bool {
        true
    }

    fn take(&mut self, chunk: &Chunk) {
        let ghost contents = self.taken@;
        let ghost content = chunk_content(*chunk);
        let met = chunk_mentions(chunk);
        let mut covered = true;
        let mut i: usize = 0;
        while i < met.len()
            invariant
                i <= met@.len(),
                met@ == mentions(content.objects),
                covered == forall|k: int|
                    0 <= k < i ==> #[trigger] self.remapper@.contains_key(met@[k]),
            decreases met@.len() - i,
        {
            if !self.remapper.contains_key(&met[i]) {
                covered = false;
            }
            i += 1;
        }
        if !covered {
            self.complete = false;
        }
        proof {
            self.taken@ = contents.push(content);
            let all = self.taken@;
            assert(all[contents.len() as int] == content);
            assert(covers(self.remapper@, content) == covered);
            if covers_all(self.remapper@, all) {
                assert forall|k: int| 0 <= k < contents.len() implies covers(
                    self.remapper@,
                    #[trigger] contents[k],
                ) by {
                    assert(all[k] == contents[k]);
                }
            }
        }
    }
}

} // verus!
