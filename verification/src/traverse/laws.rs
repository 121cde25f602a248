//! What holds of every traversal.

use crate::commit::{commit_tokens, Token};
use crate::hash::ObjectId;
use crate::traverse::model::{
    after_first, dated, date_of, empty_frontier, ids_of, initial, insert_by_date, newest_first,
    queue_order, step, visit, visit_all, walk_parents, Error, Frontier, Parents, Sorting, Step,
    Walk,
};
use git_object::decode::Error as DecodeError;
use vstd::prelude::*;

verus! {

/// The frontier after `n` calls for the next commit.
pub open spec fn frontier_after(
    f: Frontier,
    lookup: spec_fn(ObjectId) -> Option<Seq<u8>>,
    accepts: spec_fn(ObjectId) -> bool,
    mode: Parents,
    sorting: Sorting,
    n: nat,
) -> Frontier
    decreases n,
{
    if n == 0 {
        f
    } else {
        step(
            frontier_after(f, lookup, accepts, mode, sorting, (n - 1) as nat),
            lookup,
            accepts,
            mode,
            sorting,
        ).after
    }
}

/// What the call after `n` calls gives.
pub open spec fn item_after(
    f: Frontier,
    lookup: spec_fn(ObjectId) -> Option<Seq<u8>>,
    accepts: spec_fn(ObjectId) -> bool,
    mode: Parents,
    sorting: Sorting,
    n: nat,
) -> Option<Result<ObjectId, Error>> {
    step(frontier_after(f, lookup, accepts, mode, sorting, n), lookup, accepts, mode, sorting).item
}

/// `lookup` has the commit `id`, it can be read, and its parents are `parents`.
pub open spec fn has_parents(
    lookup: spec_fn(ObjectId) -> Option<Seq<u8>>,
    id: ObjectId,
    parents: Seq<ObjectId>,
) -> bool {
    match lookup(id) {
        Some(data) => {
            let tokens = commit_tokens(data);
            &&& !(tokens.len() > 0 && tokens[0] is Err)
            &&& walk_parents(after_first(tokens), Parents::All) == (Walk { parents, failed: None })
        },
        None => false,
    }
}

/// The first parent that the commit `id` lists, if `lookup` has the commit and
/// it lists one.
pub open spec fn first_parent(lookup: spec_fn(ObjectId) -> Option<Seq<u8>>, id: ObjectId)
    -> Option<ObjectId> {
    match lookup(id) {
        Some(data) => {
            let rest = after_first(commit_tokens(data));
            if rest.len() > 0 {
                match rest[0] {
                    Ok(Token::Parent { id }) => Some(id),
                    _ => None,
                }
            } else {
                None
            }
        },
        None => None,
    }
}

/// The commit that `n` first parents lead to from `tip`.
pub open spec fn first_ancestor(
    lookup: spec_fn(ObjectId) -> Option<Seq<u8>>,
    tip: ObjectId,
    n: nat,
) -> Option<ObjectId>
    decreases n,
{
    if n == 0 {
        Some(tip)
    } else {
        match first_ancestor(lookup, tip, (n - 1) as nat) {
            Some(id) => first_parent(lookup, id),
            None => None,
        }
    }
}

/// Every queued commit is marked as met, and none is queued twice.
pub open spec fn tidy(f: Frontier) -> bool {
    &&& f.queue.no_duplicates()
    &&& forall|i: int| 0 <= i < f.queue.len() ==> f.seen.contains(#[trigger] f.queue[i])
}

/// Every queued commit is one that the predicate accepts.
pub open spec fn clean(f: Frontier, accepts: spec_fn(ObjectId) -> bool) -> bool {
    forall|i: int| 0 <= i < f.queue.len() ==> accepts(#[trigger] f.queue[i])
}

/// The commits of `done` are marked as met and not queued.
pub open spec fn settled(f: Frontier, done: Set<ObjectId>) -> bool {
    forall|id: ObjectId| #[trigger]
        done.contains(id) ==> f.seen.contains(id) && !f.queue.contains(id)
}

/// Reaching a commit keeps the queue in order: what was queued stays queued in
/// front, nothing is queued twice, only accepted commits join, and a commit
/// that is done with stays out.
pub proof fn lemma_visit(
    f: Frontier,
    id: ObjectId,
    accepts: spec_fn(ObjectId) -> bool,
    done: Set<ObjectId>,
)
    requires
        tidy(f),
    ensures
        tidy(visit(f, id, accepts(id))),
        visit(f, id, accepts(id)).seen == f.seen.insert(id),
        f.queue.is_prefix_of(visit(f, id, accepts(id)).queue),
        clean(f, accepts) ==> clean(visit(f, id, accepts(id)), accepts),
        settled(f, done) ==> settled(visit(f, id, accepts(id)), done),
        !accepts(id) ==> visit(f, id, accepts(id)).queue == f.queue,
        visit(f, id, accepts(id)).queue.len() <= f.queue.len() + 1,
{
    let g = visit(f, id, accepts(id));
    if f.seen.contains(id) {
        assert(f.seen.insert(id) =~= f.seen);
    } else if accepts(id) {
        assert forall|i: int, j: int| 0 <= i < j < g.queue.len() implies g.queue[i]
            != g.queue[j] by {
            if j == f.queue.len() {
                assert(f.seen.contains(f.queue[i]));
            }
        }
        if settled(f, done) {
            assert forall|x: ObjectId| #[trigger] done.contains(x) implies g.seen.contains(x)
                && !g.queue.contains(x) by {
                if g.queue.contains(x) {
                    let i = choose|i: int| 0 <= i < g.queue.len() && g.queue[i] == x;
                    if i < f.queue.len() {
                        assert(f.queue[i] == x);
                    }
                }
            }
        }
    }
}

/// Reaching several commits marks each of them as met, whatever the predicate
/// says, and keeps the queue in order.
pub proof fn lemma_visit_all(
    f: Frontier,
    ids: Seq<ObjectId>,
    accepts: spec_fn(ObjectId) -> bool,
    done: Set<ObjectId>,
)
    requires
        tidy(f),
    ensures
        tidy(visit_all(f, ids, accepts)),
        forall|id: ObjectId| #[trigger]
            visit_all(f, ids, accepts).seen.contains(id) <==> f.seen.contains(id) || ids.contains(
                id,
            ),
        f.queue.is_prefix_of(visit_all(f, ids, accepts).queue),
        clean(f, accepts) ==> clean(visit_all(f, ids, accepts), accepts),
        settled(f, done) ==> settled(visit_all(f, ids, accepts), done),
        visit_all(f, ids, accepts).queue.len() <= f.queue.len() + ids.len(),
        forall|i: int|
            f.queue.len() <= i < visit_all(f, ids, accepts).queue.len() ==> ids.contains(
                #[trigger] visit_all(f, ids, accepts).queue[i],
            ),
    decreases ids.len(),
{
    if ids.len() > 0 {
        let front = ids.drop_last();
        let mid = visit_all(f, front, accepts);
        let end = visit_all(f, ids, accepts);
        lemma_visit_all(f, front, accepts, done);
        lemma_visit(mid, ids.last(), accepts, done);
        assert forall|id: ObjectId| #[trigger]
            end.seen.contains(id) <==> f.seen.contains(id) || ids.contains(id) by {
            if ids.contains(id) {
                let i = choose|i: int| 0 <= i < ids.len() && ids[i] == id;
                if i < ids.len() - 1 {
                    assert(front[i] == id);
                }
            }
            if front.contains(id) {
                let i = choose|i: int| 0 <= i < front.len() && front[i] == id;
                assert(ids[i] == id);
            }
            assert(ids[ids.len() - 1] == ids.last());
        }
        assert forall|i: int| f.queue.len() <= i < end.queue.len() implies ids.contains(
            #[trigger] end.queue[i],
        ) by {
            if i < mid.queue.len() {
                assert(end.queue[i] == mid.queue[i]);
                let j = choose|j: int| 0 <= j < front.len() && front[j] == mid.queue[i];
                assert(ids[j] == mid.queue[i]);
            } else {
                assert(end.queue[i] == ids.last());
                assert(ids[ids.len() - 1] == ids.last());
            }
        }
    }
}

/// A predicate that turns a commit down does not keep it from being marked:
/// once reached it is met, and where it was not queued it is not queued now,
/// so it is never handed out, and reaching it again changes nothing.
pub proof fn lemma_rejected_is_marked(
    f: Frontier,
    ids: Seq<ObjectId>,
    accepts: spec_fn(ObjectId) -> bool,
    x: ObjectId,
)
    requires
        tidy(f),
        ids.contains(x),
        !accepts(x),
        !f.queue.contains(x),
    ensures
        visit_all(f, ids, accepts).seen.contains(x),
        !visit_all(f, ids, accepts).queue.contains(x),
        visit(visit_all(f, ids, accepts), x, true) == visit_all(f, ids, accepts),
    decreases ids.len(),
{
    let front = ids.drop_last();
    let mid = visit_all(f, front, accepts);
    lemma_visit_all(f, ids, accepts, Set::empty());
    lemma_visit_all(f, front, accepts, Set::empty());
    lemma_visit(mid, ids.last(), accepts, Set::empty());
    if front.contains(x) {
        lemma_rejected_is_marked(f, front, accepts, x);
        if ids.last() != x && !mid.seen.contains(ids.last()) && accepts(ids.last()) {
            assert(mid.queue.push(ids.last()).drop_last() =~= mid.queue);
            if mid.queue.push(ids.last()).contains(x) {
                let i = choose|i: int|
                    0 <= i < mid.queue.len() + 1 && mid.queue.push(ids.last())[i] == x;
                assert(mid.queue[i] == x);
            }
        }
    } else {
        let i = choose|i: int| 0 <= i < ids.len() && ids[i] == x;
        if i < ids.len() - 1 {
            assert(front[i] == x);
        }
        assert(ids.last() == x);
        if mid.queue.contains(x) {
            let j = choose|j: int| 0 <= j < mid.queue.len() && mid.queue[j] == x;
            if j < f.queue.len() {
                assert(f.queue[j] == x);
            }
        }
    }
}

/// One step keeps the queue in order. The head that leaves the queue is done
/// with: it stays marked and is not queued again.
pub proof fn lemma_step(
    f: Frontier,
    lookup: spec_fn(ObjectId) -> Option<Seq<u8>>,
    accepts: spec_fn(ObjectId) -> bool,
    mode: Parents,
    sorting: Sorting,
    done: Set<ObjectId>,
)
    requires
        tidy(f),
    ensures
        tidy(step(f, lookup, accepts, mode, sorting).after),
        f.seen.subset_of(step(f, lookup, accepts, mode, sorting).after.seen),
        clean(f, accepts) ==> clean(step(f, lookup, accepts, mode, sorting).after, accepts),
        settled(f, done) ==> settled(
            step(f, lookup, accepts, mode, sorting).after,
            if f.queue.len() > 0 {
                done.insert(f.queue[0])
            } else {
                done
            },
        ),
        match step(f, lookup, accepts, mode, sorting).item {
            Some(Ok(id)) => f.queue.len() > 0 && id == f.queue[0],
            Some(Err(_)) => f.queue.len() > 0,
            None => f.queue.len() == 0 && step(f, lookup, accepts, mode, sorting).after == f,
        },
{
    if f.queue.len() > 0 {
        let head = f.queue[0];
        let rest = Frontier { queue: f.queue.drop_first(), seen: f.seen };
        let all = done.insert(head);
        assert(tidy(rest)) by {
            assert forall|i: int| 0 <= i < rest.queue.len() implies rest.seen.contains(
                #[trigger] rest.queue[i],
            ) by {
                assert(rest.queue[i] == f.queue[i + 1]);
            }
            assert forall|i: int, j: int| 0 <= i < j < rest.queue.len() implies rest.queue[i]
                != rest.queue[j] by {
                assert(rest.queue[i] == f.queue[i + 1] && rest.queue[j] == f.queue[j + 1]);
            }
        }
        if clean(f, accepts) {
            assert forall|i: int| 0 <= i < rest.queue.len() implies accepts(
                #[trigger] rest.queue[i],
            ) by {
                assert(rest.queue[i] == f.queue[i + 1]);
            }
        }
        if settled(f, done) {
            assert forall|x: ObjectId| #[trigger] all.contains(x) implies rest.seen.contains(x)
                && !rest.queue.contains(x) by {
                if rest.queue.contains(x) {
                    let i = choose|i: int| 0 <= i < rest.queue.len() && rest.queue[i] == x;
                    assert(f.queue[i + 1] == x);
                }
            }
        }
        match lookup(head) {
            Some(data) => {
                let tokens = commit_tokens(data);
                let walk = walk_parents(after_first(tokens), mode);
                lemma_visit_all(rest, walk.parents, accepts, all);
                lemma_visit_all(rest, queue_order(walk.parents, lookup, sorting), accepts, all);
            },
            None => {},
        }
        let after = step(f, lookup, accepts, mode, sorting).after;
        assert forall|id: ObjectId| f.seen.contains(id) implies after.seen.contains(id) by {}
    }
}

/// However long a traversal runs, its queue stays in order: every queued
/// commit is marked and accepted, and none is queued twice.
pub proof fn lemma_run(
    f: Frontier,
    lookup: spec_fn(ObjectId) -> Option<Seq<u8>>,
    accepts: spec_fn(ObjectId) -> bool,
    mode: Parents,
    sorting: Sorting,
    n: nat,
)
    requires
        tidy(f),
    ensures
        tidy(frontier_after(f, lookup, accepts, mode, sorting, n)),
        f.seen.subset_of(frontier_after(f, lookup, accepts, mode, sorting, n).seen),
        clean(f, accepts) ==> clean(frontier_after(f, lookup, accepts, mode, sorting, n), accepts),
    decreases n,
{
    if n > 0 {
        lemma_run(f, lookup, accepts, mode, sorting, (n - 1) as nat);
        lemma_step(
            frontier_after(f, lookup, accepts, mode, sorting, (n - 1) as nat),
            lookup,
            accepts,
            mode,
            sorting,
            Set::empty(),
        );
    }
}

/// A traversal starts with its queue in order.
pub proof fn lemma_initial(tips: Seq<ObjectId>, accepts: spec_fn(ObjectId) -> bool)
    ensures
        tidy(initial(tips, accepts)),
        clean(initial(tips, accepts), accepts),
        forall|id: ObjectId| #[trigger]
            initial(tips, accepts).seen.contains(id) <==> tips.contains(id),
{
    lemma_visit_all(empty_frontier(), tips, accepts, Set::empty());
}

/// A commit that the predicate turns down is never handed out.
pub proof fn lemma_only_accepted_are_handed_out(
    tips: Seq<ObjectId>,
    lookup: spec_fn(ObjectId) -> Option<Seq<u8>>,
    accepts: spec_fn(ObjectId) -> bool,
    mode: Parents,
    sorting: Sorting,
    n: nat,
)
    ensures
        match item_after(initial(tips, accepts), lookup, accepts, mode, sorting, n) {
            Some(Ok(id)) => accepts(id),
            _ => true,
        },
{
    let f = initial(tips, accepts);
    lemma_initial(tips, accepts);
    lemma_run(f, lookup, accepts, mode, sorting, n);
    lemma_step(
        frontier_after(f, lookup, accepts, mode, sorting, n),
        lookup,
        accepts,
        mode,
        sorting,
        Set::empty(),
    );
}

/// A commit that was handed out stays marked and is not queued again.
proof fn lemma_handed_out_is_settled(
    f: Frontier,
    lookup: spec_fn(ObjectId) -> Option<Seq<u8>>,
    accepts: spec_fn(ObjectId) -> bool,
    mode: Parents,
    sorting: Sorting,
    i: nat,
    j: nat,
)
    requires
        tidy(f),
        i < j,
        frontier_after(f, lookup, accepts, mode, sorting, i).queue.len() > 0,
    ensures
        settled(
            frontier_after(f, lookup, accepts, mode, sorting, j),
            set![frontier_after(f, lookup, accepts, mode, sorting, i).queue[0]],
        ),
    decreases j,
{
    let at_i = frontier_after(f, lookup, accepts, mode, sorting, i);
    let head = at_i.queue[0];
    let before = frontier_after(f, lookup, accepts, mode, sorting, (j - 1) as nat);
    lemma_run(f, lookup, accepts, mode, sorting, (j - 1) as nat);
    if j == i + 1 {
        assert(settled(at_i, Set::empty()));
        lemma_step(at_i, lookup, accepts, mode, sorting, Set::empty());
        assert(Set::<ObjectId>::empty().insert(head) =~= set![head]);
    } else {
        lemma_handed_out_is_settled(f, lookup, accepts, mode, sorting, i, (j - 1) as nat);
        lemma_step(before, lookup, accepts, mode, sorting, set![head]);
        if before.queue.len() > 0 {
            assert forall|x: ObjectId| #[trigger] set![head].contains(x) implies set![
                head,
            ].insert(before.queue[0]).contains(x) by {}
        }
    }
}

/// No commit is handed out twice.
pub proof fn lemma_handed_out_once(
    tips: Seq<ObjectId>,
    lookup: spec_fn(ObjectId) -> Option<Seq<u8>>,
    accepts: spec_fn(ObjectId) -> bool,
    mode: Parents,
    sorting: Sorting,
    i: nat,
    j: nat,
)
    requires
        i < j,
    ensures
        match (
            item_after(initial(tips, accepts), lookup, accepts, mode, sorting, i),
            item_after(initial(tips, accepts), lookup, accepts, mode, sorting, j),
        ) {
            (Some(Ok(a)), Some(Ok(b))) => a != b,
            _ => true,
        },
{
    let f = initial(tips, accepts);
    lemma_initial(tips, accepts);
    let at_i = frontier_after(f, lookup, accepts, mode, sorting, i);
    let at_j = frontier_after(f, lookup, accepts, mode, sorting, j);
    lemma_run(f, lookup, accepts, mode, sorting, i);
    lemma_run(f, lookup, accepts, mode, sorting, j);
    lemma_step(at_i, lookup, accepts, mode, sorting, Set::empty());
    lemma_step(at_j, lookup, accepts, mode, sorting, Set::empty());
    if at_i.queue.len() > 0 && at_j.queue.len() > 0 {
        lemma_handed_out_is_settled(f, lookup, accepts, mode, sorting, i, j);
        assert(set![at_i.queue[0]].contains(at_i.queue[0]));
        assert(at_j.queue.contains(at_j.queue[0]));
    }
}

/// Reaching one commit.
proof fn lemma_visit_one(f: Frontier, id: ObjectId, accepts: spec_fn(ObjectId) -> bool)
    ensures
        visit_all(f, seq![id], accepts) == visit(f, id, accepts(id)),
{
    assert(seq![id].drop_last() =~= Seq::<ObjectId>::empty());
    assert(seq![id].last() == id);
    assert(visit_all(f, Seq::<ObjectId>::empty(), accepts) == f);
}

/// Reaching two commits.
proof fn lemma_visit_two(f: Frontier, a: ObjectId, b: ObjectId, accepts: spec_fn(ObjectId) -> bool)
    ensures
        visit_all(f, seq![a, b], accepts) == visit(visit(f, a, accepts(a)), b, accepts(b)),
{
    assert(seq![a, b].drop_last() =~= seq![a]);
    assert(seq![a, b].last() == b);
    lemma_visit_one(f, a, accepts);
}

/// With `Parents::First` a walk takes the first parent that the commit lists
/// and no other.
pub proof fn lemma_walk_first(rest: Seq<Result<Token, DecodeError>>)
    ensures
        walk_parents(rest, Parents::First).parents.len() <= 1,
        walk_parents(rest, Parents::First).parents.len() == 1 ==> rest.len() > 0 && rest[0]
            == Ok::<Token, DecodeError>(
            Token::Parent { id: walk_parents(rest, Parents::First).parents[0] },
        ),
        walk_parents(rest, Parents::All).parents.len() == 0 ==> walk_parents(
            rest,
            Parents::First,
        ) == walk_parents(rest, Parents::All),
{
    if rest.len() > 0 {
        match rest[0] {
            Ok(Token::Parent { id }) => {
                let more = walk_parents(rest.drop_first(), Parents::All);
                assert((seq![id] + more.parents).len() > 0);
            },
            _ => {},
        }
    }
}

/// The commits with a date are among the commits, in their order.
proof fn lemma_dated_short(parents: Seq<ObjectId>, lookup: spec_fn(ObjectId) -> Option<Seq<u8>>)
    requires
        parents.len() <= 1,
    ensures
        ids_of(newest_first(dated(parents, lookup))) == parents || ids_of(
            newest_first(dated(parents, lookup)),
        ) == Seq::<ObjectId>::empty(),
{
    if parents.len() == 1 {
        assert(parents.drop_last() =~= Seq::<ObjectId>::empty());
        assert(dated(parents.drop_last(), lookup) =~= Seq::empty());
        match date_of(lookup, parents.last()) {
            Some(time) => {
                let batch = seq![(parents[0], time)];
                assert(dated(parents, lookup) =~= batch);
                assert(batch.drop_last() =~= Seq::empty());
                assert(newest_first(batch.drop_last()) =~= Seq::empty());
                assert(newest_first(batch) =~= batch);
                assert(ids_of(batch) =~= parents);
            },
            None => {
                assert(ids_of(Seq::<(ObjectId, u32)>::empty()) =~= Seq::<ObjectId>::empty());
            },
        }
    } else {
        assert(parents =~= Seq::<ObjectId>::empty());
        assert(ids_of(Seq::<(ObjectId, u32)>::empty()) =~= Seq::<ObjectId>::empty());
    }
}

/// A traversal from a single tip whose commit has no parents hands out the tip
/// and nothing else.
pub proof fn lemma_single_tip(
    tip: ObjectId,
    lookup: spec_fn(ObjectId) -> Option<Seq<u8>>,
    accepts: spec_fn(ObjectId) -> bool,
    mode: Parents,
    sorting: Sorting,
)
    requires
        accepts(tip),
        has_parents(lookup, tip, Seq::empty()),
    ensures
        item_after(initial(seq![tip], accepts), lookup, accepts, mode, sorting, 0) == Some(
            Ok::<ObjectId, Error>(tip),
        ),
        item_after(initial(seq![tip], accepts), lookup, accepts, mode, sorting, 1) is None,
{
    let f = initial(seq![tip], accepts);
    lemma_visit_one(empty_frontier(), tip, accepts);
    assert(f.queue =~= seq![tip]);
    let rest = Frontier { queue: f.queue.drop_first(), seen: f.seen };
    assert(rest.queue =~= Seq::<ObjectId>::empty());
    let tokens = commit_tokens(lookup(tip)->Some_0);
    lemma_walk_first(after_first(tokens));
    let walk = walk_parents(after_first(tokens), mode);
    assert(walk == Walk { parents: Seq::<ObjectId>::empty(), failed: None });
    lemma_dated_short(walk.parents, lookup);
    assert(queue_order(walk.parents, lookup, sorting) =~= Seq::<ObjectId>::empty());
    assert(frontier_after(f, lookup, accepts, mode, sorting, 0) == f);
    let one = frontier_after(f, lookup, accepts, mode, sorting, 1);
    assert(one == step(f, lookup, accepts, mode, sorting).after);
    assert(one == rest);
}

/// A chain of three commits, each the only parent of the one before, is
/// handed out in the order of the chain, each commit once.
pub proof fn lemma_chain(
    a: ObjectId,
    b: ObjectId,
    c: ObjectId,
    lookup: spec_fn(ObjectId) -> Option<Seq<u8>>,
)
    requires
        has_parents(lookup, a, seq![b]),
        has_parents(lookup, b, seq![c]),
        has_parents(lookup, c, Seq::empty()),
    ensures
        ({
            let accepts = |id: ObjectId| true;
            let f = initial(seq![a], accepts);
            &&& item_after(f, lookup, accepts, Parents::All, Sorting::GraphOrder, 0) == Some(
                Ok::<ObjectId, Error>(a),
            )
            &&& item_after(f, lookup, accepts, Parents::All, Sorting::GraphOrder, 1) == Some(
                Ok::<ObjectId, Error>(b),
            )
            &&& item_after(f, lookup, accepts, Parents::All, Sorting::GraphOrder, 2) == Some(
                Ok::<ObjectId, Error>(c),
            )
            &&& item_after(f, lookup, accepts, Parents::All, Sorting::GraphOrder, 3) is None
        }),
{
    let accepts = |id: ObjectId| true;
    let mode = Parents::All;
    let sorting = Sorting::GraphOrder;
    assert(seq![b].len() == 1 && seq![c].len() == 1);
    assert(seq![b][0] == b && seq![c][0] == c);
    assert(a != b && b != c && a != c);
    let f0 = initial(seq![a], accepts);
    lemma_visit_one(empty_frontier(), a, accepts);
    assert(f0.queue =~= seq![a]);
    assert(f0.seen =~= set![a]);
    assert(frontier_after(f0, lookup, accepts, mode, sorting, 0) == f0);
    let r0 = Frontier { queue: f0.queue.drop_first(), seen: f0.seen };
    assert(r0.queue =~= Seq::<ObjectId>::empty());
    lemma_visit_one(r0, b, accepts);
    let f1 = frontier_after(f0, lookup, accepts, mode, sorting, 1);
    assert(f1 == step(f0, lookup, accepts, mode, sorting).after);
    assert(f1.queue =~= seq![b]);
    assert(f1.seen =~= set![a, b]);
    let r1 = Frontier { queue: f1.queue.drop_first(), seen: f1.seen };
    assert(r1.queue =~= Seq::<ObjectId>::empty());
    lemma_visit_one(r1, c, accepts);
    let f2 = frontier_after(f0, lookup, accepts, mode, sorting, 2);
    assert(f2 == step(f1, lookup, accepts, mode, sorting).after);
    assert(f2.queue =~= seq![c]);
    let r2 = Frontier { queue: f2.queue.drop_first(), seen: f2.seen };
    assert(r2.queue =~= Seq::<ObjectId>::empty());
    let f3 = frontier_after(f0, lookup, accepts, mode, sorting, 3);
    assert(f3 == step(f2, lookup, accepts, mode, sorting).after);
    assert(f3 == r2);
}

/// By committer date the parents of a merge are queued newest first: with
/// parents `older` and `newer`, listed in this order, `newer` is handed out
/// before `older`.
pub proof fn lemma_merge_parents_newest_first(
    merge: ObjectId,
    older: ObjectId,
    newer: ObjectId,
    older_time: u32,
    newer_time: u32,
    lookup: spec_fn(ObjectId) -> Option<Seq<u8>>,
    accepts: spec_fn(ObjectId) -> bool,
)
    requires
        has_parents(lookup, merge, seq![older, newer]),
        date_of(lookup, older) == Some(older_time),
        date_of(lookup, newer) == Some(newer_time),
        older_time < newer_time,
        merge != older && merge != newer && older != newer,
        accepts(merge) && accepts(older) && accepts(newer),
    ensures
        step(
            initial(seq![merge], accepts),
            lookup,
            accepts,
            Parents::All,
            Sorting::ByCommitterDate,
        ) == (Step {
            item: Some(Ok(merge)),
            after: Frontier { queue: seq![newer, older], seen: set![merge, older, newer] },
        }),
{
    let f = initial(seq![merge], accepts);
    lemma_visit_one(empty_frontier(), merge, accepts);
    assert(f.queue =~= seq![merge]);
    let rest = Frontier { queue: f.queue.drop_first(), seen: f.seen };
    assert(rest.queue =~= Seq::<ObjectId>::empty());
    let parents = seq![older, newer];
    assert(parents.drop_last() =~= seq![older]);
    assert(seq![older].drop_last() =~= Seq::<ObjectId>::empty());
    assert(dated(Seq::<ObjectId>::empty(), lookup) =~= Seq::empty());
    assert(dated(seq![older], lookup) =~= seq![(older, older_time)]);
    let batch = seq![(older, older_time), (newer, newer_time)];
    assert(dated(parents, lookup) =~= batch);
    assert(batch.drop_last() =~= seq![(older, older_time)]);
    assert(seq![(older, older_time)].drop_last() =~= Seq::empty());
    assert(newest_first(Seq::<(ObjectId, u32)>::empty()) =~= Seq::empty());
    assert(newest_first(seq![(older, older_time)]) =~= seq![(older, older_time)]);
    assert(insert_by_date(Seq::empty(), (newer, newer_time)) =~= seq![(newer, newer_time)]);
    assert(newest_first(batch) =~= seq![(newer, newer_time), (older, older_time)]);
    assert(ids_of(newest_first(batch)) =~= seq![newer, older]);
    lemma_visit_two(rest, newer, older, accepts);
    let after = visit_all(rest, seq![newer, older], accepts);
    assert(after.queue =~= seq![newer, older]);
    assert(after.seen =~= set![merge, older, newer]);
}

/// With `Parents::First` a traversal from one tip hands out commits only along
/// the chain of first parents: what the call after `n` calls hands out is the
/// commit that `n` first parents lead to. No commit that only a second or
/// later parent leads to is handed out.
pub proof fn lemma_first_parents_only(
    tip: ObjectId,
    lookup: spec_fn(ObjectId) -> Option<Seq<u8>>,
    accepts: spec_fn(ObjectId) -> bool,
    sorting: Sorting,
    n: nat,
)
    ensures
        frontier_after(
            initial(seq![tip], accepts),
            lookup,
            accepts,
            Parents::First,
            sorting,
            n,
        ).queue.len() <= 1,
        match item_after(initial(seq![tip], accepts), lookup, accepts, Parents::First, sorting, n) {
            Some(Ok(id)) => first_ancestor(lookup, tip, n) == Some(id),
            _ => true,
        },
    decreases n,
{
    let f = initial(seq![tip], accepts);
    let mode = Parents::First;
    lemma_visit_one(empty_frontier(), tip, accepts);
    if n > 0 {
        let m = (n - 1) as nat;
        lemma_first_parents_only(tip, lookup, accepts, sorting, m);
        let before = frontier_after(f, lookup, accepts, mode, sorting, m);
        if before.queue.len() > 0 {
            let head = before.queue[0];
            let rest = Frontier { queue: before.queue.drop_first(), seen: before.seen };
            assert(rest.queue =~= Seq::<ObjectId>::empty());
            match lookup(head) {
                Some(data) => {
                    let tokens = commit_tokens(data);
                    let walk = walk_parents(after_first(tokens), mode);
                    lemma_walk_first(after_first(tokens));
                    lemma_dated_short(walk.parents, lookup);
                    let order = queue_order(walk.parents, lookup, sorting);
                    lemma_empty_is_tidy(rest);
                    lemma_visit_all(rest, order, accepts, Set::empty());
                    lemma_visit_all(rest, walk.parents, accepts, Set::empty());
                    let after = step(before, lookup, accepts, mode, sorting).after;
                    if after.queue.len() > 0 {
                        assert(walk.parents.contains(after.queue[0]));
                        assert(first_parent(lookup, head) == Some(after.queue[0]));
                    }
                },
                None => {},
            }
        }
    }
}

/// A frontier with an empty queue is in order.
proof fn lemma_empty_is_tidy(f: Frontier)
    requires
        f.queue.len() == 0,
    ensures
        tidy(f),
{
}

/// The dates of `batch` never rise from one commit to the next.
pub open spec fn newest_to_oldest(batch: Seq<(ObjectId, u32)>) -> bool {
    forall|i: int, j: int| 0 <= i < j < batch.len() ==> batch[i].1 >= batch[j].1
}

/// Putting a commit into a batch that runs from newest to oldest gives such a
/// batch again, with the same commits and the new one.
pub proof fn lemma_insert_by_date(sorted: Seq<(ObjectId, u32)>, x: (ObjectId, u32))
    requires
        newest_to_oldest(sorted),
    ensures
        newest_to_oldest(insert_by_date(sorted, x)),
        insert_by_date(sorted, x).to_multiset() == sorted.to_multiset().insert(x),
        insert_by_date(sorted, x).len() == sorted.len() + 1,
    decreases sorted.len(),
{
    broadcast use vstd::seq_lib::group_to_multiset_ensures;

    if sorted.len() == 0 || sorted.last().1 >= x.1 {
        let r = sorted.push(x);
        assert forall|i: int, j: int| 0 <= i < j < r.len() implies r[i].1 >= r[j].1 by {
            if j == sorted.len() {
                assert(sorted[i].1 >= sorted[sorted.len() - 1].1);
            }
        }
    } else {
        let front = sorted.drop_last();
        let last = sorted.last();
        lemma_insert_by_date(front, x);
        let mid = insert_by_date(front, x);
        let r = mid.push(last);
        assert(front.push(last) =~= sorted);
        assert(mid.to_multiset().insert(last) =~= sorted.to_multiset().insert(x));
        assert forall|i: int, j: int| 0 <= i < j < r.len() implies r[i].1 >= r[j].1 by {
            if j == mid.len() {
                assert(mid.to_multiset().count(mid[i]) > 0);
                if mid[i] != x {
                    assert(front.to_multiset().count(mid[i]) > 0);
                    assert(front.contains(mid[i]));
                    let k = choose|k: int| 0 <= k < front.len() && front[k] == mid[i];
                    assert(sorted[k] == mid[i]);
                    assert(sorted[k].1 >= sorted[sorted.len() - 1].1);
                }
            }
        }
    }
}

/// Sorting by date puts the newest commit first and neither drops nor adds a
/// commit.
pub proof fn lemma_newest_first(batch: Seq<(ObjectId, u32)>)
    ensures
        newest_to_oldest(newest_first(batch)),
        newest_first(batch).to_multiset() == batch.to_multiset(),
        newest_first(batch).len() == batch.len(),
    decreases batch.len(),
{
    broadcast use vstd::seq_lib::group_to_multiset_ensures;

    if batch.len() > 0 {
        lemma_newest_first(batch.drop_last());
        lemma_insert_by_date(newest_first(batch.drop_last()), batch.last());
        assert(batch.drop_last().push(batch.last()) =~= batch);
    }
}

/// Once the queue is empty every further call gives nothing and changes
/// nothing.
pub proof fn lemma_drained_stays_drained(
    f: Frontier,
    lookup: spec_fn(ObjectId) -> Option<Seq<u8>>,
    accepts: spec_fn(ObjectId) -> bool,
    mode: Parents,
    sorting: Sorting,
    n: nat,
)
    requires
        f.queue.len() == 0,
    ensures
        frontier_after(f, lookup, accepts, mode, sorting, n) == f,
        item_after(f, lookup, accepts, mode, sorting, n) is None,
    decreases n,
{
    if n > 0 {
        lemma_drained_stays_drained(f, lookup, accepts, mode, sorting, (n - 1) as nat);
    }
}

} // verus!
