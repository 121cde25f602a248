//! The memory of a traversal, which can be used again for the next one.

use crate::hash::ObjectId;
use crate::traverse::model::{
    empty_frontier, models_predicate, predicate_total, visit, visit_all, Frontier,
};
use std::collections::{BTreeSet, VecDeque};
use vstd::prelude::*;

verus! {

/// The queue of a traversal, its scratch buffer, and the commits it has met.
///
/// Identifiers are remembered by their keys, which tell any two apart.
pub struct State {
    next: VecDeque<ObjectId>,
    buf: Vec<u8>,
    seen: BTreeSet<(u64, u64, u32)>,
}

impl State {
    /// The queue and the set of commits met, as the model has them.
    pub closed spec fn frontier(&self) -> Frontier {
        Frontier {
            queue: self.next@,
            seen: Set::new(|id: ObjectId| self.seen@.contains(id.spec_key())),
        }
    }

    /// A state that has met nothing.
    pub fn new() -> (r: State)
        ensures
            r.frontier() == empty_frontier(),
    {
        let r = State { next: VecDeque::new(), buf: Vec::new(), seen: BTreeSet::new() };
        assert(r.frontier().seen =~= Set::<ObjectId>::empty());
        r
    }

    /// Forgets everything, and keeps what was allocated.
    pub fn clear(&mut self)
        ensures
            final(self).frontier() == empty_frontier(),
    {
        self.next.clear();
        self.buf.clear();
        self.seen.clear();
        assert(self.frontier().seen =~= Set::<ObjectId>::empty());
    }

    /// Whether `id` was met.
    pub fn has_seen(&self, id: &ObjectId) -> (r: bool)
        ensures
            r == self.frontier().seen.contains(*id),
    {
        broadcast use vstd::laws_cmp::group_laws_cmp;
        broadcast use vstd::std_specs::btree::group_btree_axioms;
        let key = id.key();
        self.seen.contains(&key)
    }

    /// The number of commits that wait in the queue.
    pub fn pending(&self) -> (r: usize)
        ensures
            r == self.frontier().queue.len(),
    {
        self.next.len()
    }

    /// Makes room in the queue for `additional` commits.
    pub(crate) fn reserve(&mut self, additional: usize)
        ensures
            final(self).frontier() == old(self).frontier(),
    {
        self.next.reserve(additional);
    }

    /// Takes the head off the queue.
    pub(crate) fn pop(&mut self) -> (r: Option<ObjectId>)
        ensures
            match r {
                Some(head) => {
                    &&& old(self).frontier().queue.len() > 0
                    &&& head == old(self).frontier().queue[0]
                    &&& final(self).frontier() == (Frontier {
                        queue: old(self).frontier().queue.drop_first(),
                        seen: old(self).frontier().seen,
                    })
                },
                None => {
                    &&& old(self).frontier().queue.len() == 0
                    &&& final(self).frontier() == old(self).frontier()
                },
            },
    {
        let r = self.next.pop_front();
        proof {
            if r is Some {
                assert(self.next@ =~= old(self).next@.drop_first());
            }
        }
        r
    }

    /// Hands out the scratch buffer, and leaves an empty one.
    pub(crate) fn take_buffer(&mut self) -> (r: Vec<u8>)
        ensures
            r@ == old(self).scratch(),
            final(self).scratch() == Seq::<u8>::empty(),
            final(self).frontier() == old(self).frontier(),
    {
        let mut buf: Vec<u8> = Vec::new();
        std::mem::swap(&mut buf, &mut self.buf);
        buf
    }

    /// Takes `buf` as the scratch buffer.
    pub(crate) fn keep_buffer(&mut self, buf: Vec<u8>)
        ensures
            final(self).scratch() == buf@,
            final(self).frontier() == old(self).frontier(),
    {
        self.buf = buf;
    }

    /// The bytes that the scratch buffer holds, which a lookup may overwrite.
    pub closed spec fn scratch(&self) -> Seq<u8> {
        self.buf@
    }

    /// Marks `id` as met, and queues it if it is new and `predicate` accepts it.
    /// The predicate is asked only about a new commit.
    pub(crate) fn reach<Predicate: Fn(&ObjectId) -> bool>(
        &mut self,
        id: ObjectId,
        predicate: &Predicate,
    )
        requires
            predicate_total(*predicate),
        ensures
            final(self).frontier().seen == old(self).frontier().seen.insert(id),
            old(self).frontier().queue.is_prefix_of(final(self).frontier().queue),
            old(self).frontier().seen.contains(id) ==> final(self).frontier() == old(
                self,
            ).frontier(),
            forall|accepts: spec_fn(ObjectId) -> bool| #[trigger]
                models_predicate(*predicate, accepts) ==> final(self).frontier() == visit(
                    old(self).frontier(),
                    id,
                    accepts(id),
                ),
    {
        broadcast use vstd::laws_cmp::group_laws_cmp;

        let fresh = self.seen.insert(id.key());
        proof {
            assert forall|other: ObjectId| other.spec_key() == id.spec_key() implies other
                == id by {
                other.lemma_key_injective(id);
            }
            assert(self.frontier().seen =~= old(self).frontier().seen.insert(id));
        }
        if fresh {
            let accepted = predicate(&id);
            if accepted {
                self.next.push_back(id);
            }
        } else {
            assert(self.frontier().seen =~= old(self).frontier().seen);
        }
    }

    /// Reaches each of `ids` in turn.
    pub(crate) fn reach_all<Predicate: Fn(&ObjectId) -> bool>(
        &mut self,
        ids: &Vec<ObjectId>,
        predicate: &Predicate,
    )
        requires
            predicate_total(*predicate),
        ensures
            old(self).frontier().seen.subset_of(final(self).frontier().seen),
            old(self).frontier().queue.is_prefix_of(final(self).frontier().queue),
            forall|id: ObjectId| #[trigger]
                final(self).frontier().seen.contains(id) <==> old(self).frontier().seen.contains(
                    id,
                ) || ids@.contains(id),
            forall|accepts: spec_fn(ObjectId) -> bool| #[trigger]
                models_predicate(*predicate, accepts) ==> final(self).frontier() == visit_all(
                    old(self).frontier(),
                    ids@,
                    accepts,
                ),
    {
        let mut i: usize = 0;
        while i < ids.len()
            invariant
                i <= ids@.len(),
                predicate_total(*predicate),
                old(self).frontier().seen.subset_of(self.frontier().seen),
                old(self).frontier().queue.is_prefix_of(self.frontier().queue),
                forall|id: ObjectId| #[trigger]
                    self.frontier().seen.contains(id) <==> old(self).frontier().seen.contains(id)
                        || ids@.take(i as int).contains(id),
                forall|accepts: spec_fn(ObjectId) -> bool| #[trigger]
                    models_predicate(*predicate, accepts) ==> self.frontier() == visit_all(
                        old(self).frontier(),
                        ids@.take(i as int),
                        accepts,
                    ),
            decreases ids@.len() - i,
        {
            let ghost before = self.frontier();
            self.reach(ids[i], predicate);
            proof {
                assert(ids@.take(i + 1).drop_last() =~= ids@.take(i as int));
                assert(ids@.take(i + 1).last() == ids@[i as int]);
                assert forall|id: ObjectId| #[trigger]
                    self.frontier().seen.contains(id) <==> old(self).frontier().seen.contains(id)
                        || ids@.take(i + 1).contains(id) by {
                    let front = ids@.take(i as int);
                    let more = ids@.take(i + 1);
                    if front.contains(id) {
                        let k = choose|k: int| 0 <= k < front.len() && front[k] == id;
                        assert(more[k] == id);
                    }
                    if more.contains(id) {
                        let k = choose|k: int| 0 <= k < more.len() && more[k] == id;
                        if k < i {
                            assert(front[k] == id);
                        }
                    }
                    assert(more[i as int] == ids@[i as int]);
                }
            }
            i += 1;
        }
        assert(ids@.take(i as int) =~= ids@);
    }
}

impl Default for State {
    fn default() -> (r: State)
        ensures
            r.frontier() == empty_frontier(),
    {
        State::new()
    }
}

} // verus!
