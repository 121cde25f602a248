//! The traversal itself: an iterator in spirit, driven by calls of `next`.

use crate::commit::{tokens, Token};
use crate::hash::ObjectId;
use crate::traverse::laws::lemma_newest_first;
use crate::traverse::model::{
    after_first, answered, committer_time, dated, date_of, find_total, found_bytes, ids_of,
    initial, insert_by_date, models_find, models_predicate, newest_first, predicate_total, step,
    visit_all, walk_parents, Error, Frontier, Parents, Sorting, Step, Walk,
};
use crate::traverse::state::State;
use git_object::decode::Error as DecodeError;
use vstd::prelude::*;

verus! {

/// A traversal of the ancestors of one or more commits.
///
/// `find` looks a commit up: it takes an identifier and a buffer to use, and
/// returns the commit's bytes, or `None` where the store has no such commit.
/// `predicate` says of a commit whether to hand it out and walk on from it.
pub struct Ancestors<Find, Predicate> {
    find: Find,
    predicate: Predicate,
    state: State,
    mode: Parents,
    sorting: Sorting,
}

/// Reads the parents off the tokens of a commit: the first token is passed
/// over, each parent token after it gives a parent, and the first token that
/// is no parent ends the walk, as does the first parent with
/// `Parents::First`. A token that could not be read ends it with its error.
pub fn read_parents(tokens: Vec<Result<Token, DecodeError>>, mode: Parents) -> (r: (
    Vec<ObjectId>,
    Option<DecodeError>,
))
    ensures
        r.0@ == walk_parents(after_first(tokens@), mode).parents,
        r.1 == walk_parents(after_first(tokens@), mode).failed,
{
    let mut tokens = tokens;
    let ghost all = tokens@;
    let mut parents: Vec<ObjectId> = Vec::new();
    let mut failed: Option<DecodeError> = None;
    let mut i: usize = 1;
    if tokens.len() == 0 {
        return (parents, failed);
    }
    assert(after_first(all) =~= all.skip(1));
    loop
        invariant_except_break
            1 <= i <= all.len(),
            tokens@ == all,
            failed is None,
            walk_parents(all.skip(1), mode) == (Walk {
                parents: parents@ + walk_parents(all.skip(i as int), mode).parents,
                failed: walk_parents(all.skip(i as int), mode).failed,
            }),
        ensures
            parents@ == walk_parents(all.skip(1), mode).parents,
            failed == walk_parents(all.skip(1), mode).failed,
        decreases all.len() - i,
    {
        if i >= tokens.len() {
            assert(parents@ + Seq::<ObjectId>::empty() =~= parents@);
            break;
        }
        let ghost rest = all.skip(i as int);
        assert(rest[0] == all[i as int]);
        assert(rest.drop_first() =~= all.skip(i + 1));
        match &tokens[i] {
            Ok(Token::Parent { id }) => {
                let ghost before = parents@;
                parents.push(*id);
                if let Parents::First = mode {
                    assert(before + seq![*id] =~= parents@);
                    break;
                }
                assert(before + (seq![*id] + walk_parents(all.skip(i + 1), mode).parents)
                    =~= parents@ + walk_parents(all.skip(i + 1), mode).parents);
                i += 1;
            },
            Ok(_) => {
                assert(parents@ + Seq::<ObjectId>::empty() =~= parents@);
                break;
            },
            Err(_) => {
                assert(parents@ + Seq::<ObjectId>::empty() =~= parents@);
                let err = tokens.swap_remove(i);
                match err {
                    Err(err) => {
                        failed = Some(err);
                    },
                    Ok(_) => {},
                }
                break;
            },
        }
    }
    (parents, failed)
}

/// The time of the committer token, if the tokens can be read that far.
pub fn committer_date(tokens: &Vec<Result<Token, DecodeError>>) -> (r: Option<u32>)
    ensures
        r == committer_time(tokens@),
{
    let mut i: usize = 0;
    assert(tokens@.skip(0) =~= tokens@);
    while i < tokens.len()
        invariant
            i <= tokens@.len(),
            committer_time(tokens@) == committer_time(tokens@.skip(i as int)),
        decreases tokens@.len() - i,
    {
        let ghost rest = tokens@.skip(i as int);
        assert(rest[0] == tokens@[i as int]);
        assert(rest.drop_first() =~= tokens@.skip(i + 1));
        match &tokens[i] {
            Ok(Token::Committer { time }) => {
                return Some(*time);
            },
            Ok(_) => {},
            Err(_) => {
                return None;
            },
        }
        i += 1;
    }
    assert(tokens@.skip(i as int).len() == 0);
    None
}

/// Looks up the committer date of each of `parents`, and leaves out those for
/// which there is none.
fn with_dates<Find: Fn(&ObjectId, Vec<u8>) -> Option<Vec<u8>>>(
    find: &Find,
    parents: &Vec<ObjectId>,
) -> (r: Vec<(ObjectId, u32)>)
    requires
        find_total(*find),
    ensures
        forall|j: int| 0 <= j < r@.len() ==> parents@.contains((#[trigger] r@[j]).0),
        forall|lookup: spec_fn(ObjectId) -> Option<Seq<u8>>| #[trigger]
            models_find(*find, lookup) ==> r@ == dated(parents@, lookup),
{
    let mut batch: Vec<(ObjectId, u32)> = Vec::new();
    let mut i: usize = 0;
    while i < parents.len()
        invariant
            i <= parents@.len(),
            find_total(*find),
            forall|j: int| 0 <= j < batch@.len() ==> parents@.contains((#[trigger] batch@[j]).0),
            forall|lookup: spec_fn(ObjectId) -> Option<Seq<u8>>| #[trigger]
                models_find(*find, lookup) ==> batch@ == dated(parents@.take(i as int), lookup),
        decreases parents@.len() - i,
    {
        let id = parents[i];
        let found = find(&id, Vec::new());
        let time = match found {
            Some(data) => committer_date(&tokens(data.as_slice())),
            None => None,
        };
        proof {
            assert(parents@.take(i + 1).drop_last() =~= parents@.take(i as int));
            assert(parents@.take(i + 1).last() == id);
            assert forall|lookup: spec_fn(ObjectId) -> Option<Seq<u8>>| #[trigger]
                models_find(*find, lookup) implies time == date_of(lookup, id) by {
                assert(found_bytes(found) == lookup(id));
            }
        }
        match time {
            Some(time) => {
                batch.push((id, time));
            },
            None => {},
        }
        i += 1;
    }
    assert(parents@.take(i as int) =~= parents@);
    batch
}

/// Where `x` goes in `sorted`: behind the last commit that is as new or newer.
proof fn lemma_insert_at(sorted: Seq<(ObjectId, u32)>, x: (ObjectId, u32), at: int)
    requires
        0 <= at <= sorted.len(),
        at == 0 || sorted[at - 1].1 >= x.1,
        forall|j: int| at <= j < sorted.len() ==> sorted[j].1 < x.1,
    ensures
        insert_by_date(sorted, x) == sorted.insert(at, x),
    decreases sorted.len(),
{
    if sorted.len() == 0 || sorted.last().1 >= x.1 {
        assert(at == sorted.len());
        assert(sorted.push(x) =~= sorted.insert(at, x));
    } else {
        lemma_insert_at(sorted.drop_last(), x, at);
        assert(sorted.drop_last().insert(at, x).push(sorted.last()) =~= sorted.insert(at, x));
    }
}

/// Sorts a batch of dated commits: the newest first, commits of one date in
/// the order they came in.
pub fn sort_newest_first(batch: &Vec<(ObjectId, u32)>) -> (r: Vec<(ObjectId, u32)>)
    ensures
        r@ == newest_first(batch@),
{
    let mut sorted: Vec<(ObjectId, u32)> = Vec::new();
    let mut i: usize = 0;
    while i < batch.len()
        invariant
            i <= batch@.len(),
            sorted@ == newest_first(batch@.take(i as int)),
        decreases batch@.len() - i,
    {
        let x = batch[i];
        let mut at: usize = sorted.len();
        while at > 0 && sorted[at - 1].1 < x.1
            invariant
                at <= sorted@.len(),
                forall|j: int| at <= j < sorted@.len() ==> sorted@[j].1 < x.1,
            decreases at,
        {
            at -= 1;
        }
        proof {
            lemma_insert_at(sorted@, x, at as int);
            assert(batch@.take(i + 1).drop_last() =~= batch@.take(i as int));
            assert(batch@.take(i + 1).last() == x);
        }
        sorted.insert(at, x);
        i += 1;
    }
    assert(batch@.take(i as int) =~= batch@);
    sorted
}

/// The identifiers of a batch of dated commits.
fn ids(batch: &Vec<(ObjectId, u32)>) -> (r: Vec<ObjectId>)
    ensures
        r@ == ids_of(batch@),
{
    let mut out: Vec<ObjectId> = Vec::new();
    let mut i: usize = 0;
    while i < batch.len()
        invariant
            i <= batch@.len(),
            out@.len() == i,
            forall|j: int| 0 <= j < i ==> out@[j] == batch@[j].0,
        decreases batch@.len() - i,
    {
        out.push(batch[i].0);
        i += 1;
    }
    assert(out@ =~= ids_of(batch@));
    out
}

impl<Find, Predicate> Ancestors<Find, Predicate> {
    /// The queue and the set of commits met.
    pub closed spec fn frontier(&self) -> Frontier {
        self.state.frontier()
    }

    /// The lookup that the traversal was made with.
    pub closed spec fn finder(&self) -> Find {
        self.find
    }

    /// The predicate that the traversal was made with.
    pub closed spec fn filter(&self) -> Predicate {
        self.predicate
    }

    /// Which parents the traversal follows.
    pub closed spec fn spec_mode(&self) -> Parents {
        self.mode
    }

    /// In which order the traversal hands out commits.
    pub closed spec fn spec_sorting(&self) -> Sorting {
        self.sorting
    }

    /// Sets which parents to follow.
    pub fn mode(self, mode: Parents) -> (r: Self)
        ensures
            r.spec_mode() == mode,
            r.spec_sorting() == self.spec_sorting(),
            r.frontier() == self.frontier(),
            r.finder() == self.finder(),
            r.filter() == self.filter(),
    {
        let mut r = self;
        r.mode = mode;
        r
    }

    /// Sets the order in which commits are handed out.
    pub fn sorting(self, sorting: Sorting) -> (r: Self)
        ensures
            r.spec_sorting() == sorting,
            r.spec_mode() == self.spec_mode(),
            r.frontier() == self.frontier(),
            r.finder() == self.finder(),
            r.filter() == self.filter(),
    {
        let mut r = self;
        r.sorting = sorting;
        r
    }

    /// Ends the traversal and gives back its state, to be used again.
    pub fn into_state(self) -> (r: State)
        ensures
            r.frontier() == self.frontier(),
    {
        self.state
    }
}

impl<Find: Fn(&ObjectId, Vec<u8>) -> Option<Vec<u8>>> Ancestors<Find, ()> {
    /// A traversal from `tips` that hands out every commit it reaches.
    ///
    /// `state` is cleared first. Every tip is marked as met and queued, a tip
    /// that occurs twice only once.
    pub fn new(tips: Vec<ObjectId>, state: State, find: Find) -> (r: Ancestors<
        Find,
        impl Fn(&ObjectId) -> bool,
    >)
        ensures
            r.finder() == find,
            predicate_total(r.filter()),
            models_predicate(r.filter(), |id: ObjectId| true),
            r.frontier() == initial(tips@, |id: ObjectId| true),
            r.spec_mode() == Parents::All,
            r.spec_sorting() == Sorting::GraphOrder,
    {
        let all = |id: &ObjectId| -> (accepted: bool)
            ensures
                accepted,
            { true };
        let r = Ancestors::filtered(tips, state, find, all);
        proof {
            assert(models_predicate(all, |id: ObjectId| true));
        }
        r
    }
}

impl<
    Find: Fn(&ObjectId, Vec<u8>) -> Option<Vec<u8>>,
    Predicate: Fn(&ObjectId) -> bool,
> Ancestors<Find, Predicate> {
    /// A traversal from `tips` that hands out, and walks on from, only the
    /// commits that `predicate` accepts.
    ///
    /// `state` is cleared first. Every tip is marked as met, and queued if the
    /// predicate accepts it; a tip that occurs twice is dealt with once.
    pub fn filtered(tips: Vec<ObjectId>, state: State, find: Find, predicate: Predicate) -> (r:
        Self)
        requires
            predicate_total(predicate),
        ensures
            r.finder() == find,
            r.filter() == predicate,
            r.spec_mode() == Parents::All,
            r.spec_sorting() == Sorting::GraphOrder,
            forall|id: ObjectId| #[trigger] r.frontier().seen.contains(id) <==> tips@.contains(id),
            forall|accepts: spec_fn(ObjectId) -> bool| #[trigger]
                models_predicate(predicate, accepts) ==> r.frontier() == initial(tips@, accepts),
    {
        let mut state = state;
        state.clear();
        state.reserve(tips.len());
        state.reach_all(&tips, &predicate);
        Ancestors { find, predicate, state, mode: Parents::All, sorting: Sorting::GraphOrder }
    }

    /// Both callbacks may be called with every argument.
    pub open spec fn wf(&self) -> bool {
        &&& find_total(self.finder())
        &&& predicate_total(self.filter())
    }

    /// The next commit of the traversal, or the error that ends it.
    ///
    /// On an empty queue this is `None`, and nothing changes. Else the head of
    /// the queue leaves it. Its commit is looked up: if `find` has none, the
    /// result is `Error::NotFound`. If its first token cannot be read, the
    /// result is that error. Else its parents are read off, all of them or
    /// only the first, and each is reached: marked as met, and queued if it is
    /// new and the predicate accepts it. In graph order they are reached as
    /// listed, and those before a token that cannot be read are reached before
    /// that error is returned. By committer date each parent's own commit is
    /// looked up for its date, parents without one are dropped, and the others
    /// are reached newest first; a token that cannot be read is returned at
    /// once. The result is then the head.
    pub fn next(&mut self) -> (r: Option<Result<ObjectId, Error>>)
        requires
            old(self).wf(),
        ensures
            final(self).finder() == old(self).finder(),
            final(self).filter() == old(self).filter(),
            final(self).spec_mode() == old(self).spec_mode(),
            final(self).spec_sorting() == old(self).spec_sorting(),
            r is None <==> old(self).frontier().queue.len() == 0,
            r is None ==> final(self).frontier() == old(self).frontier(),
            r matches Some(Ok(id)) ==> id == old(self).frontier().queue[0],
            r matches Some(Err(Error::NotFound { oid })) ==> oid == old(self).frontier().queue[0],
            r is Some ==> old(self).frontier().queue.drop_first().is_prefix_of(
                final(self).frontier().queue,
            ),
            old(self).frontier().seen.subset_of(final(self).frontier().seen),
            answered(
                old(self).finder(),
                old(self).spec_mode(),
                old(self).spec_sorting(),
                old(self).frontier(),
                r,
                final(self).frontier(),
            ),
            forall|lookup: spec_fn(ObjectId) -> Option<Seq<u8>>, accepts: spec_fn(ObjectId) -> bool|
                #![trigger models_find(old(self).finder(), lookup), models_predicate(old(self).filter(), accepts)]
                models_find(old(self).finder(), lookup) && models_predicate(
                    old(self).filter(),
                    accepts,
                ) ==> (Step { item: r, after: final(self).frontier() }) == step(
                    old(self).frontier(),
                    lookup,
                    accepts,
                    old(self).spec_mode(),
                    old(self).spec_sorting(),
                ),
    {
        let head = match self.state.pop() {
            None => {
                return None;
            },
            Some(head) => head,
        };
        let ghost rest = self.state.frontier();
        let buf = self.state.take_buffer();
        let found = (self.find)(&head, buf);
        proof {
            assert forall|lookup: spec_fn(ObjectId) -> Option<Seq<u8>>| #[trigger]
                models_find(self.find, lookup) implies found_bytes(found) == lookup(head) by {}
        }
        let data = match found {
            None => {
                return Some(Err(Error::NotFound { oid: head }));
            },
            Some(data) => data,
        };
        let mut tokens = tokens(data.as_slice());
        self.state.keep_buffer(data);
        if tokens.len() > 0 {
            if let Err(_) = &tokens[0] {
                match tokens.swap_remove(0) {
                    Err(err) => {
                        return Some(Err(Error::ObjectDecode(err)));
                    },
                    Ok(_) => {},
                }
            }
        }
        let (parents, failed) = read_parents(tokens, self.mode);
        match self.sorting {
            Sorting::GraphOrder => self.graph_sort_next(head, parents, failed),
            Sorting::ByCommitterDate => self.next_by_commit_date(head, parents, failed),
        }
    }

    /// Reaches the parents in the order the commit lists them.
    fn graph_sort_next(
        &mut self,
        head: ObjectId,
        parents: Vec<ObjectId>,
        failed: Option<DecodeError>,
    ) -> (r: Option<Result<ObjectId, Error>>)
        requires
            old(self).wf(),
        ensures
            final(self).finder() == old(self).finder(),
            final(self).filter() == old(self).filter(),
            final(self).spec_mode() == old(self).spec_mode(),
            final(self).spec_sorting() == old(self).spec_sorting(),
            old(self).frontier().seen.subset_of(final(self).frontier().seen),
            old(self).frontier().queue.is_prefix_of(final(self).frontier().queue),
            r == match failed {
                Some(err) => Some(Err::<ObjectId, Error>(Error::ObjectDecode(err))),
                None => Some(Ok::<ObjectId, Error>(head)),
            },
            forall|id: ObjectId| #[trigger]
                final(self).frontier().seen.contains(id) <==> old(self).frontier().seen.contains(
                    id,
                ) || parents@.contains(id),
            forall|accepts: spec_fn(ObjectId) -> bool| #[trigger]
                models_predicate(old(self).filter(), accepts) ==> final(self).frontier()
                    == visit_all(old(self).frontier(), parents@, accepts),
    {
        self.state.reach_all(&parents, &self.predicate);
        match failed {
            Some(err) => Some(Err(Error::ObjectDecode(err))),
            None => Some(Ok(head)),
        }
    }

    /// Reaches the parents that have a committer date, the newest first.
    fn next_by_commit_date(
        &mut self,
        head: ObjectId,
        parents: Vec<ObjectId>,
        failed: Option<DecodeError>,
    ) -> (r: Option<Result<ObjectId, Error>>)
        requires
            old(self).wf(),
        ensures
            final(self).finder() == old(self).finder(),
            final(self).filter() == old(self).filter(),
            final(self).spec_mode() == old(self).spec_mode(),
            final(self).spec_sorting() == old(self).spec_sorting(),
            old(self).frontier().seen.subset_of(final(self).frontier().seen),
            old(self).frontier().queue.is_prefix_of(final(self).frontier().queue),
            r == match failed {
                Some(err) => Some(Err::<ObjectId, Error>(Error::ObjectDecode(err))),
                None => Some(Ok::<ObjectId, Error>(head)),
            },
            failed is Some ==> final(self).frontier() == old(self).frontier(),
            forall|id: ObjectId| #[trigger]
                final(self).frontier().seen.contains(id) ==> old(self).frontier().seen.contains(
                    id,
                ) || parents@.contains(id),
            failed is None ==> forall|
                lookup: spec_fn(ObjectId) -> Option<Seq<u8>>,
                accepts: spec_fn(ObjectId) -> bool,
            |
                #![trigger models_find(old(self).finder(), lookup), models_predicate(old(self).filter(), accepts)]
                models_find(old(self).finder(), lookup) && models_predicate(
                    old(self).filter(),
                    accepts,
                ) ==> final(self).frontier() == visit_all(
                    old(self).frontier(),
                    ids_of(newest_first(dated(parents@, lookup))),
                    accepts,
                ),
    {
        let batch = with_dates(&self.find, &parents);
        match failed {
            Some(err) => Some(Err(Error::ObjectDecode(err))),
            None => {
                let sorted = sort_newest_first(&batch);
                let reached = ids(&sorted);
                proof {
                    broadcast use vstd::seq_lib::group_to_multiset_ensures;

                    lemma_newest_first(batch@);
                    assert forall|id: ObjectId| #[trigger] reached@.contains(id) implies parents@.contains(
                        id,
                    ) by {
                        let k = choose|k: int| 0 <= k < reached@.len() && reached@[k] == id;
                        assert(sorted@.to_multiset().count(sorted@[k]) > 0);
                        assert(batch@.contains(sorted@[k]));
                        let j = choose|j: int| 0 <= j < batch@.len() && batch@[j] == sorted@[k];
                        assert(parents@.contains(batch@[j].0));
                    }
                }
                self.state.reach_all(&reached, &self.predicate);
                Some(Ok(head))
            },
        }
    }
}

} // verus!
