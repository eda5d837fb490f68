//! The files that are embedded into a document, by their names.

use vstd::prelude::*;
use vstd::utf8::encode_utf8;

use crate::destinations::NameEntry;
use crate::names::{
    bytes_leq, lemma_lexical_antisymmetric, lemma_lexical_total, lemma_lexical_transitive,
    lexical_leq,
};
use crate::reference::Ref;

verus! {

/// Whether the entries stand in ascending order of their names, and no name
/// occurs twice.
pub open spec fn strictly_ascending(entries: Seq<NameEntry>) -> bool {
    forall|i: int, j: int|
        0 <= i < j < entries.len() ==> (#[trigger] lexical_leq(entries[i].0, entries[j].0)
            && entries[i].0 != entries[j].0)
}

/// Whether one of the entries has the given name.
pub open spec fn has_name(entries: Seq<NameEntry>, name: Seq<u8>) -> bool {
    exists|i: int| 0 <= i < entries.len() && (#[trigger] entries[i]).0 == name
}

/// The entries of a list of names.
pub open spec fn name_entries(files: Seq<(String, Ref)>) -> Seq<NameEntry> {
    files.map_values(|f: (String, Ref)| (encode_utf8(f.0@), f.1))
}

/// Embedded files in ascending order of their names. No name occurs twice.
pub struct EmbeddedFiles {
    entries: Vec<(String, Ref)>,
}

impl View for EmbeddedFiles {
    type V = Seq<NameEntry>;

    closed spec fn view(&self) -> Seq<NameEntry> {
        name_entries(self.entries@)
    }
}

impl EmbeddedFiles {
    #[verifier::type_invariant]
    closed spec fn sorted(self) -> bool {
        strictly_ascending(name_entries(self.entries@))
    }

    /// No files.
    pub fn new() -> (files: EmbeddedFiles)
        ensures
            files@ == Seq::<NameEntry>::empty(),
    {
        EmbeddedFiles { entries: Vec::new() }
    }

    /// How many files there are.
    pub fn len(&self) -> (len: usize)
        ensures
            len == self@.len(),
    {
        self.entries.len()
    }

    /// Hands out the files, and keeps none.
    pub fn take(&mut self) -> (taken: EmbeddedFiles)
        ensures
            taken == *old(self),
            strictly_ascending(taken@),
            final(self)@ == Seq::<NameEntry>::empty(),
    {
        proof {
            use_type_invariant(&*self);
        }
        let mut taken = EmbeddedFiles::new();
        std::mem::swap(&mut taken, self);
        taken
    }

    /// The name and the reference of a file, by its place in the order.
    pub fn get(&self, i: usize) -> (entry: &(String, Ref))
        requires
            i < self@.len(),
        ensures
            (encode_utf8(entry.0@), entry.1) == self@[i as int],
    {
        &self.entries[i]
    }

    /// Adds a file, in place of the one that had its name.
    pub fn insert(&mut self, name: String, r: Ref)
        ensures
            has_name(old(self)@, encode_utf8(name@)) ==> exists|i: int|
                0 <= i < old(self)@.len() && old(self)@[i].0 == encode_utf8(name@)
                    && final(self)@ == #[trigger] old(self)@.update(i, (encode_utf8(name@), r)),
            !has_name(old(self)@, encode_utf8(name@)) ==> exists|i: int|
                0 <= i <= old(self)@.len() && final(self)@ == #[trigger] old(self)@.insert(
                    i,
                    (encode_utf8(name@), r),
                ),
            strictly_ascending(final(self)@),
            forall|entry: NameEntry| #[trigger]
                final(self)@.contains(entry) <==> entry == (encode_utf8(name@), r) || (entry.0
                    != encode_utf8(name@) && old(self)@.contains(entry)),
    {
        proof {
            use_type_invariant(&*self);
        }
        let ghost key = encode_utf8(name@);
        let ghost before = self@;
        let mut entries: Vec<(String, Ref)> = Vec::new();
        std::mem::swap(&mut entries, &mut self.entries);
        let mut i: usize = 0;
        while i < entries.len() && !bytes_leq(
            name.as_str().as_bytes(),
            entries[i].0.as_str().as_bytes(),
        )
            invariant
                key == encode_utf8(name@),
                i <= entries@.len(),
                forall|k: int|
                    0 <= k < i ==> !lexical_leq(key, #[trigger] name_entries(entries@)[k].0),
            ensures
                i < entries@.len() ==> lexical_leq(key, name_entries(entries@)[i as int].0),
            decreases entries@.len() - i,
        {
            i += 1;
        }
        proof {
            assert forall|k: int| 0 <= k < i implies lexical_leq(
                #[trigger] before[k].0,
                key,
            ) && before[k].0 != key by {
                lemma_lexical_total(before[k].0, key);
                crate::names::lemma_lexical_reflexive(key);
            }
            assert forall|k: int| i < k < before.len() implies lexical_leq(
                key,
                #[trigger] before[k].0,
            ) && before[k].0 != key by {
                assert(lexical_leq(before[i as int].0, before[k].0));
                lemma_lexical_transitive(key, before[i as int].0, before[k].0);
                if before[k].0 == key {
                    lemma_lexical_antisymmetric(before[i as int].0, before[k].0);
                }
            }
        }
        let replace = i < entries.len() && bytes_leq(
            entries[i].0.as_str().as_bytes(),
            name.as_str().as_bytes(),
        );
        if replace {
            proof {
                lemma_lexical_antisymmetric(key, before[i as int].0);
                assert(has_name(before, key));
            }
            entries.set(i, (name, r));
            proof {
                let after = name_entries(entries@);
                assert(after =~= before.update(i as int, (key, r)));
                assert(strictly_ascending(after)) by {
                    assert forall|a: int, b: int| 0 <= a < b < after.len() implies (
                    #[trigger] lexical_leq(after[a].0, after[b].0) && after[a].0 != after[b].0) by {
                        assert(after[a].0 == before[a].0 && after[b].0 == before[b].0);
                        assert(lexical_leq(before[a].0, before[b].0));
                    }
                }
            }
        } else {
            proof {
                crate::names::lemma_lexical_reflexive(key);
            }
            entries.insert(i, (name, r));
            proof {
                let after = name_entries(entries@);
                assert(after =~= before.insert(i as int, (key, r)));
                assert(strictly_ascending(after)) by {
                    assert forall|a: int, b: int| 0 <= a < b < after.len() implies (
                    #[trigger] lexical_leq(after[a].0, after[b].0) && after[a].0 != after[b].0) by {
                        let old_a = if a < i { a } else { a - 1 };
                        let old_b = if b < i { b } else { b - 1 };
                        if a != i && b != i {
                            assert(lexical_leq(before[old_a].0, before[old_b].0));
                        } else if a == i {
                            assert(after[b] == before[old_b]);
                        } else {
                            assert(after[a] == before[old_a]);
                        }
                    }
                }
            }
        }
        proof {
            let after = name_entries(entries@);
            assert(after[i as int] == (key, r));
            assert forall|entry: NameEntry| #[trigger]
                after.contains(entry) <==> entry == (key, r) || (entry.0 != key
                && before.contains(entry)) by {
                if after.contains(entry) && entry != (key, r) {
                    let at = after.index_of(entry);
                    if replace || at < i {
                        assert(before[at] == entry);
                    } else {
                        assert(before[at - 1] == entry);
                        assert(at - 1 >= i);
                    }
                }
                if entry.0 != key && before.contains(entry) {
                    let at = before.index_of(entry);
                    if replace || at < i {
                        assert(after[at] == entry);
                    } else {
                        assert(after[at + 1] == entry);
                    }
                }
            }
        }
        self.entries = entries;
    }
}

} // verus!
