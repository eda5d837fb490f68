//! Visiting all chunks of a value, in the order in which they are written.

use pdf_writer::Chunk;
use vstd::prelude::*;

use crate::deferred::Deferred;
use crate::error::{KrillaError, KrillaResult};
use crate::model::Content;
use crate::outside::chunk::chunk_content;
use crate::reference::Ref;
use crate::serialize::SerializeContext;

verus! {

/// What a visit comes to.
pub struct Outcome {
    /// What the visited chunks hold, in the order in which they are visited.
    pub contents: Seq<Content>,
    /// The error that ends the visit.
    pub error: Option<KrillaError>,
    /// The number of the next new reference after the visit.
    pub next: int,
}

impl Outcome {
    /// A visit to nothing.
    pub open spec fn nothing(next: int) -> Outcome {
        Outcome { contents: Seq::empty(), error: None, next }
    }

    /// A visit to one chunk.
    pub open spec fn one(content: Content, next: int) -> Outcome {
        Outcome { contents: seq![content], error: None, next }
    }

    /// This visit and, unless it ends with an error, another one after it.
    pub open spec fn followed_by(self, other: spec_fn(int) -> Outcome) -> Outcome {
        if self.error is Some {
            self
        } else {
            Outcome {
                contents: self.contents + other(self.next).contents,
                error: other(self.next).error,
                next: other(self.next).next,
            }
        }
    }

    /// The same visit once everything in it has been settled: it gives no new
    /// references away.
    pub open spec fn settled(self, next: int) -> Outcome {
        Outcome { contents: self.contents, error: self.error, next }
    }
}

/// Takes chunks one after the other.
pub trait ChunkSink: Sized {
    /// What the sink started from.
    type Origin;

    /// What the sink started from.
    spec fn origin(&self) -> Self::Origin;

    /// What the chunks that were taken so far hold.
    spec fn seen(&self) -> Seq<Content>;

    /// Whether the state of the sink belongs to what it has taken.
    spec fn wf(&self) -> bool;

    /// Whether a sink with this origin can take a chunk with this content.
    spec fn ready(origin: Self::Origin, content: Content) -> bool;

    /// Takes a chunk.
    fn take(&mut self, chunk: &Chunk)
        requires
            old(self).wf(),
            Self::ready(old(self).origin(), chunk_content(*chunk)),
        ensures
            final(self).wf(),
            final(self).origin() == old(self).origin(),
            final(self).seen() == old(self).seen().push(chunk_content(*chunk)),
    ;
}

/// Whether a sink with this origin can take all of these contents.
pub open spec fn all_ready<S: ChunkSink>(origin: S::Origin, contents: Seq<Content>) -> bool {
    forall|i: int| 0 <= i < contents.len() ==> S::ready(origin, #[trigger] contents[i])
}

/// What the result of a visit says about its error.
pub open spec fn error_of(result: KrillaResult<()>) -> Option<KrillaError> {
    match result {
        Ok(_) => None,
        Err(error) => Some(error),
    }
}

/// Visits all chunks in a type.
pub trait Visit: Sized {
    /// What a visit comes to, where `next` is the number of the next new
    /// reference.
    spec fn outcome(&self, next: int) -> Outcome;

    /// Whether this value is `before` after a visit: nothing was changed but
    /// what is remembered for the next visit.
    spec fn kept(&self, before: &Self) -> bool;

    /// A value that was not visited is kept.
    proof fn lemma_kept_unvisited(&self)
        ensures
            self.kept(self),
    ;

    /// Hands every chunk to the sink.
    fn visit<S: ChunkSink>(&mut self, sc: &mut SerializeContext, sink: &mut S) -> (result:
        KrillaResult<()>)
        requires
            old(sink).wf(),
            all_ready::<S>(
                old(sink).origin(),
                old(self).outcome(old(sc).cur_ref@ as int).contents,
            ),
        ensures
            final(sink).wf(),
            final(sink).origin() == old(sink).origin(),
            final(sink).seen() == old(sink).seen() + old(self).outcome(
                old(sc).cur_ref@ as int,
            ).contents,
            error_of(result) == old(self).outcome(old(sc).cur_ref@ as int).error,
            final(sc).cur_ref@ == old(self).outcome(old(sc).cur_ref@ as int).next,
            *final(sc) == (SerializeContext { cur_ref: final(sc).cur_ref, ..*old(sc) }),
            final(self).kept(old(self)),
            old(self).outcome(old(sc).cur_ref@ as int).error != Some(KrillaError::RefsExhausted)
                ==> forall|n: int| #[trigger]
                final(self).outcome(n) == old(self).outcome(old(sc).cur_ref@ as int).settled(n),
    ;
}

/// What a visit to all items comes to.
pub open spec fn outcome_of_all<T: Visit>(items: Seq<T>, next: int) -> Outcome
    decreases items.len(),
{
    if items.len() == 0 {
        Outcome::nothing(next)
    } else {
        outcome_of_all(items.drop_last(), next).followed_by(|n: int| items.last().outcome(n))
    }
}

/// A visit to the first items is the beginning of a visit to all of them.
pub proof fn lemma_outcome_of_first<T: Visit>(items: Seq<T>, count: int, next: int)
    requires
        0 <= count <= items.len(),
    ensures
        outcome_of_all(items.take(count), next).contents.is_prefix_of(
            outcome_of_all(items, next).contents,
        ),
        outcome_of_all(items.take(count), next).error is Some ==> outcome_of_all(items, next)
            == outcome_of_all(items.take(count), next),
    decreases items.len(),
{
    if count == items.len() {
        assert(items.take(count) =~= items);
    } else {
        lemma_outcome_of_first(items.drop_last(), count, next);
        assert(items.drop_last().take(count) =~= items.take(count));
    }
}

impl Visit for Chunk {
    open spec fn outcome(&self, next: int) -> Outcome {
        Outcome::one(chunk_content(*self), next)
    }

    open spec fn kept(&self, before: &Self) -> bool {
        *self == *before
    }

    proof fn lemma_kept_unvisited(&self) {
    }

    fn visit<S: ChunkSink>(&mut self, sc: &mut SerializeContext, sink: &mut S) -> (result:
        KrillaResult<()>) {
        assert(S::ready(sink.origin(), self.outcome(sc.cur_ref@ as int).contents[0]));
        sink.take(self);
        assert(sink.seen() =~= old(sink).seen() + old(self).outcome(
            old(sc).cur_ref@ as int,
        ).contents);
        Ok(())
    }
}

impl Visit for Option<(Ref, Chunk)> {
    open spec fn outcome(&self, next: int) -> Outcome {
        match *self {
            Some(part) => part.1.outcome(next),
            None => Outcome::nothing(next),
        }
    }

    open spec fn kept(&self, before: &Self) -> bool {
        *self == *before
    }

    proof fn lemma_kept_unvisited(&self) {
    }

    fn visit<S: ChunkSink>(&mut self, sc: &mut SerializeContext, sink: &mut S) -> (result:
        KrillaResult<()>) {
        if let Some(part) = self {
            match part.1.visit(sc, sink) {
                Ok(()) => {},
                Err(error) => {
                    return Err(error);
                },
            }
        } else {
            assert(sink.seen() =~= old(sink).seen() + Seq::<Content>::empty());
        }
        Ok(())
    }
}

impl<T: Visit> Visit for Deferred<T> {
    open spec fn outcome(&self, next: int) -> Outcome {
        self.value().outcome(next)
    }

    open spec fn kept(&self, before: &Self) -> bool {
        self.value().kept(&before.value())
    }

    proof fn lemma_kept_unvisited(&self) {
        self.value().lemma_kept_unvisited();
    }

    fn visit<S: ChunkSink>(&mut self, sc: &mut SerializeContext, sink: &mut S) -> (result:
        KrillaResult<()>) {
        self.wait().visit(sc, sink)
    }
}

impl<T: Visit> Visit for KrillaResult<T> {
    open spec fn outcome(&self, next: int) -> Outcome {
        match *self {
            Ok(value) => value.outcome(next),
            Err(error) => Outcome { contents: Seq::empty(), error: Some(error), next },
        }
    }

    open spec fn kept(&self, before: &Self) -> bool {
        match (*self, *before) {
            (Ok(now), Ok(then)) => now.kept(&then),
            (Err(now), Err(then)) => now == then,
            _ => false,
        }
    }

    proof fn lemma_kept_unvisited(&self) {
        if let Ok(value) = self {
            value.lemma_kept_unvisited();
        }
    }

    fn visit<S: ChunkSink>(&mut self, sc: &mut SerializeContext, sink: &mut S) -> (result:
        KrillaResult<()>) {
        match self {
            Ok(value) => value.visit(sc, sink),
            Err(error) => {
                assert(sink.seen() =~= old(sink).seen() + Seq::<Content>::empty());
                Err(*error)
            },
        }
    }
}

impl<T: Visit> Visit for Vec<T> {
    open spec fn outcome(&self, next: int) -> Outcome {
        outcome_of_all(self@, next)
    }

    open spec fn kept(&self, before: &Self) -> bool {
        &&& self@.len() == before@.len()
        &&& forall|i: int| 0 <= i < self@.len() ==> (#[trigger] self@[i]).kept(&before@[i])
    }

    proof fn lemma_kept_unvisited(&self) {
        assert forall|i: int| 0 <= i < self@.len() implies (#[trigger] self@[i]).kept(
            &self@[i],
        ) by {
            self@[i].lemma_kept_unvisited();
        }
    }

    fn visit<S: ChunkSink>(&mut self, sc: &mut SerializeContext, sink: &mut S) -> (result:
        KrillaResult<()>) {
        let ghost items = self@;
        let ghost first = sc.cur_ref@ as int;
        let ghost context = *sc;
        let ghost seen = sink.seen();
        let ghost origin = sink.origin();
        let mut i: usize = 0;
        assert(items.take(0) =~= Seq::<T>::empty());
        assert(self@.take(0) =~= Seq::<T>::empty());
        assert(seen + Seq::<Content>::empty() =~= seen);
        while i < self.len()
            invariant
                items == old(self)@,
                first == old(sc).cur_ref@,
                context == *old(sc),
                seen == old(sink).seen(),
                origin == old(sink).origin(),
                i <= self@.len(),
                self@.len() == items.len(),
                forall|k: int| i <= k < items.len() ==> #[trigger] self@[k] == items[k],
                forall|k: int| 0 <= k < i ==> (#[trigger] self@[k]).kept(&items[k]),
                sink.wf(),
                sink.origin() == origin,
                all_ready::<S>(origin, outcome_of_all(items, first).contents),
                sink.seen() == seen + outcome_of_all(items.take(i as int), first).contents,
                outcome_of_all(items.take(i as int), first).error is None,
                sc.cur_ref@ == outcome_of_all(items.take(i as int), first).next,
                *sc == (SerializeContext { cur_ref: sc.cur_ref, ..context }),
                forall|n: int| #[trigger]
                    outcome_of_all(self@.take(i as int), n) == outcome_of_all(
                        items.take(i as int),
                        first,
                    ).settled(n),
            decreases self@.len() - i,
        {
            let ghost before = self@;
            let ghost so_far = outcome_of_all(items.take(i as int), first);
            let ghost here = items[i as int].outcome(so_far.next);
            let ghost after = outcome_of_all(items.take(i + 1), first);
            proof {
                assert(items.take(i + 1).drop_last() =~= items.take(i as int));
                assert(after.contents == so_far.contents + here.contents);
                lemma_outcome_of_first(items, i + 1, first);
                assert forall|k: int| 0 <= k < here.contents.len() implies S::ready(
                    origin,
                    #[trigger] here.contents[k],
                ) by {
                    let at = so_far.contents.len() + k;
                    assert(after.contents[at] == here.contents[k]);
                    assert(outcome_of_all(items, first).contents[at] == after.contents[at]);
                }
            }
            let result = self[i].visit(sc, sink);
            proof {
                assert(seen + so_far.contents + here.contents =~= seen + after.contents);
            }
            match result {
                Ok(()) => {},
                Err(error) => {
                    proof {
                        assert forall|k: int| 0 <= k < items.len() implies (
                        #[trigger] self@[k]).kept(&items[k]) by {
                            if k > i {
                                items[k].lemma_kept_unvisited();
                            }
                        }
                        if error != KrillaError::RefsExhausted {
                            assert forall|n: int| #[trigger]
                                outcome_of_all(self@, n) == after.settled(n) by {
                                assert(self@.take(i + 1).drop_last() =~= before.take(i as int));
                                assert(outcome_of_all(before.take(i as int), n) == so_far.settled(
                                    n,
                                ));
                                assert(self@[i as int].outcome(n) == here.settled(n));
                                lemma_outcome_of_first(self@, i + 1, n);
                            }
                        }
                    }
                    return Err(error);
                },
            }
            proof {
                assert forall|n: int| #[trigger]
                    outcome_of_all(self@.take(i + 1), n) == after.settled(n) by {
                    assert(self@.take(i + 1).drop_last() =~= before.take(i as int));
                    assert(outcome_of_all(before.take(i as int), n) == so_far.settled(n));
                    assert(self@[i as int].outcome(n) == here.settled(n));
                }
            }
            i += 1;
        }
        assert(items.take(i as int) =~= items);
        assert(self@.take(i as int) =~= self@);
        Ok(())
    }
}

/// What visits to several parts, one after the other, come to.
pub open spec fn chained(parts: Seq<spec_fn(int) -> Outcome>, next: int) -> Outcome
    decreases parts.len(),
{
    if parts.len() == 0 {
        Outcome::nothing(next)
    } else {
        chained(parts.drop_last(), next).followed_by(parts.last())
    }
}

/// Visits to the first parts are the beginning of the visits to all of them.
pub proof fn lemma_chained_first(parts: Seq<spec_fn(int) -> Outcome>, count: int, next: int)
    requires
        0 <= count <= parts.len(),
    ensures
        chained(parts.take(count), next).contents.is_prefix_of(chained(parts, next).contents),
        chained(parts.take(count), next).error is Some ==> chained(parts, next) == chained(
            parts.take(count),
            next,
        ),
    decreases parts.len(),
{
    if count == parts.len() {
        assert(parts.take(count) =~= parts);
    } else {
        lemma_chained_first(parts.drop_last(), count, next);
        assert(parts.drop_last().take(count) =~= parts.take(count));
    }
}

/// Where every part is settled by the first visit, so are all of them, also
/// where the last of them ended with an error.
pub proof fn lemma_chained_settled(
    parts: Seq<spec_fn(int) -> Outcome>,
    later: Seq<spec_fn(int) -> Outcome>,
    first: int,
    next: int,
)
    requires
        parts.len() == later.len(),
        parts.len() > 0 ==> chained(parts.drop_last(), first).error is None,
        forall|i: int, n: int|
            0 <= i < parts.len() ==> #[trigger] later[i](n) == parts[i](
                chained(parts.take(i), first).next,
            ).settled(n),
    ensures
        chained(later, next) == chained(parts, first).settled(next),
    decreases parts.len(),
{
    if parts.len() > 0 {
        let last = parts.len() - 1;
        assert(parts.take(last) =~= parts.drop_last());
        assert forall|i: int, n: int| 0 <= i < last implies #[trigger] later.drop_last()[i](n)
            == parts.drop_last()[i](chained(parts.drop_last().take(i), first).next).settled(n) by {
            assert(parts.drop_last().take(i) =~= parts.take(i));
            assert(later[i](n) == parts[i](chained(parts.take(i), first).next).settled(n));
        }
        lemma_chained_settled(parts.drop_last(), later.drop_last(), first, next);
        assert(later[last](next) == parts[last](chained(parts.take(last), first).next).settled(
            next,
        ));
    }
}

/// A visit to several parts, one after the other.
pub struct Chain {
    /// What the visits to the parts come to.
    pub parts: Seq<spec_fn(int) -> Outcome>,
    /// The number of the next new reference before the first part.
    pub first: int,
    /// What was taken before the first part.
    pub seen: Seq<Content>,
}

impl Chain {
    /// What the visits before part number `i` come to.
    pub open spec fn before(self, i: int) -> Outcome {
        chained(self.parts.take(i), self.first)
    }

    /// What the visits to all parts come to.
    pub open spec fn whole(self) -> Outcome {
        chained(self.parts, self.first)
    }
}

/// Whether a part was settled when it was visited as number `i` of several
/// parts.
pub open spec fn part_settled<T: Visit>(
    parts: Seq<spec_fn(int) -> Outcome>,
    i: int,
    first: int,
    part: T,
) -> bool {
    forall|n: int| #[trigger]
        part.outcome(n) == parts[i](chained(parts.take(i), first).next).settled(n)
}

/// Visits one of several parts, after those before it.
pub(crate) fn visit_part<T: Visit, S: ChunkSink>(
    part: &mut T,
    sc: &mut SerializeContext,
    sink: &mut S,
    Ghost(chain): Ghost<Chain>,
    Ghost(i): Ghost<int>,
) -> (result: KrillaResult<()>)
    requires
        0 <= i < chain.parts.len(),
        forall|n: int| #[trigger] chain.parts[i](n) == old(part).outcome(n),
        old(sink).wf(),
        all_ready::<S>(old(sink).origin(), chain.whole().contents),
        old(sink).seen() == chain.seen + chain.before(i).contents,
        chain.before(i).error is None,
        old(sc).cur_ref@ == chain.before(i).next,
    ensures
        final(sink).wf(),
        final(sink).origin() == old(sink).origin(),
        *final(sc) == (SerializeContext { cur_ref: final(sc).cur_ref, ..*old(sc) }),
        final(part).kept(old(part)),
        match result {
            Ok(_) => {
                &&& final(sink).seen() == chain.seen + chain.before(i + 1).contents
                &&& chain.before(i + 1).error is None
                &&& final(sc).cur_ref@ == chain.before(i + 1).next
                &&& part_settled(chain.parts, i, chain.first, *final(part))
            },
            Err(error) => {
                &&& final(sink).seen() == chain.seen + chain.whole().contents
                &&& chain.whole().error == Some(error)
                &&& final(sc).cur_ref@ == chain.whole().next
                &&& chain.before(i + 1) == chain.whole()
                &&& error != KrillaError::RefsExhausted ==> part_settled(
                    chain.parts,
                    i,
                    chain.first,
                    *final(part),
                )
            },
        },
{
    let ghost so_far = chain.before(i);
    let ghost here = chain.parts[i](so_far.next);
    let ghost after = chain.before(i + 1);
    proof {
        assert(chain.parts.take(i + 1).drop_last() =~= chain.parts.take(i));
        assert(after.contents == so_far.contents + here.contents);
        lemma_chained_first(chain.parts, i + 1, chain.first);
        assert forall|k: int| 0 <= k < here.contents.len() implies S::ready(
            sink.origin(),
            #[trigger] here.contents[k],
        ) by {
            let at = so_far.contents.len() + k;
            assert(after.contents[at] == here.contents[k]);
            assert(chain.whole().contents[at] == after.contents[at]);
        }
        assert(chain.seen + so_far.contents + here.contents =~= chain.seen + after.contents);
    }
    part.visit(sc, sink)
}

} // verus!
