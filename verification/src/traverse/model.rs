//! What a traversal does, stated over a frontier of identifiers.
//!
//! A traversal keeps a queue of commits still to hand out and the set of all
//! commits it has met. A commit is marked as met when it is first reached, and
//! only then is the predicate asked whether to walk on from it: a commit that
//! the predicate turns down stays marked, so it is never handed out and never
//! asked about again.

use crate::commit::{commit_tokens, Token};
use crate::hash::ObjectId;
use git_object::decode::Error as DecodeError;
use vstd::prelude::*;

verus! {

/// Which parents of a commit a traversal follows.
#[derive(Copy, Clone, Debug, PartialEq, Eq, Structural)]
pub enum Parents {
    /// All of them: the whole ancestry.
    All,
    /// Only the first, which leaves out what was merged in.
    First,
}

impl Default for Parents {
    fn default() -> (r: Parents)
        ensures
            r == Parents::All,
    {
        Parents::All
    }
}

/// In which order a traversal hands out commits.
#[derive(Copy, Clone, Debug, PartialEq, Eq, Structural)]
pub enum Sorting {
    /// First come, first served, with parents in the order the commit lists them.
    GraphOrder,
    /// As `GraphOrder`, but the parents of one commit are queued newest first
    /// by their committer date. Parents of different commits are not compared.
    ByCommitterDate,
}

impl Default for Sorting {
    fn default() -> (r: Sorting)
        ensures
            r == Sorting::GraphOrder,
    {
        Sorting::GraphOrder
    }
}

/// Why a traversal stopped.
#[derive(Debug)]
pub enum Error {
    /// A commit that the traversal reached is not in the store.
    NotFound { oid: ObjectId },
    /// A commit could not be read.
    ObjectDecode(DecodeError),
}

/// The commits still to hand out, in order, and all commits met so far.
pub struct Frontier {
    pub queue: Seq<ObjectId>,
    pub seen: Set<ObjectId>,
}

/// What one call for the next commit gives, and the frontier it leaves.
pub struct Step {
    pub item: Option<Result<ObjectId, Error>>,
    pub after: Frontier,
}

/// The parents that a traversal takes from the tokens of a commit, and the
/// error it ran into, if any.
pub struct Walk {
    pub parents: Seq<ObjectId>,
    pub failed: Option<DecodeError>,
}

/// The frontier of a traversal that has met nothing.
pub open spec fn empty_frontier() -> Frontier {
    Frontier { queue: Seq::empty(), seen: Set::empty() }
}

/// Reaching `id`: a commit met before changes nothing; a new one is marked,
/// and queued where the predicate accepted it.
pub open spec fn visit(f: Frontier, id: ObjectId, accepted: bool) -> Frontier {
    if f.seen.contains(id) {
        f
    } else {
        Frontier {
            queue: if accepted {
                f.queue.push(id)
            } else {
                f.queue
            },
            seen: f.seen.insert(id),
        }
    }
}

/// Reaching each of `ids` in turn, with `accepts` as the predicate.
pub open spec fn visit_all(f: Frontier, ids: Seq<ObjectId>, accepts: spec_fn(ObjectId) -> bool)
    -> Frontier
    decreases ids.len(),
{
    if ids.len() == 0 {
        f
    } else {
        visit(visit_all(f, ids.drop_last(), accepts), ids.last(), accepts(ids.last()))
    }
}

/// The frontier with which a traversal from `tips` starts.
pub open spec fn initial(tips: Seq<ObjectId>, accepts: spec_fn(ObjectId) -> bool) -> Frontier {
    visit_all(empty_frontier(), tips, accepts)
}

/// Reads the parents off the tokens that follow the first token of a commit:
/// each parent token gives one, up to the first token that is no parent; with
/// `Parents::First` the first parent ends the walk. A token that could not be
/// read ends it with that error.
pub open spec fn walk_parents(rest: Seq<Result<Token, DecodeError>>, mode: Parents) -> Walk
    decreases rest.len(),
{
    if rest.len() == 0 {
        Walk { parents: Seq::empty(), failed: None }
    } else {
        match rest[0] {
            Ok(Token::Parent { id }) => {
                if mode == Parents::First {
                    Walk { parents: seq![id], failed: None }
                } else {
                    let more = walk_parents(rest.drop_first(), mode);
                    Walk { parents: seq![id] + more.parents, failed: more.failed }
                }
            },
            Ok(_) => Walk { parents: Seq::empty(), failed: None },
            Err(err) => Walk { parents: Seq::empty(), failed: Some(err) },
        }
    }
}

/// The time of the committer token, if the tokens can be read that far.
pub open spec fn committer_time(tokens: Seq<Result<Token, DecodeError>>) -> Option<u32>
    decreases tokens.len(),
{
    if tokens.len() == 0 {
        None
    } else {
        match tokens[0] {
            Ok(Token::Committer { time }) => Some(time),
            Ok(_) => committer_time(tokens.drop_first()),
            Err(_) => None,
        }
    }
}

/// The committer date of the commit `id`, where `lookup` has the commit and
/// the date can be read.
pub open spec fn date_of(lookup: spec_fn(ObjectId) -> Option<Seq<u8>>, id: ObjectId) -> Option<
    u32,
> {
    match lookup(id) {
        Some(data) => committer_time(commit_tokens(data)),
        None => None,
    }
}

/// Those of `parents` that have a committer date, each with its date. A
/// parent without one is left out, and with it all that only it leads to.
pub open spec fn dated(parents: Seq<ObjectId>, lookup: spec_fn(ObjectId) -> Option<Seq<u8>>)
    -> Seq<(ObjectId, u32)>
    decreases parents.len(),
{
    if parents.len() == 0 {
        Seq::empty()
    } else {
        let before = dated(parents.drop_last(), lookup);
        match date_of(lookup, parents.last()) {
            Some(time) => before.push((parents.last(), time)),
            None => before,
        }
    }
}

/// Puts `x` into `sorted` behind every commit that is as new or newer.
pub open spec fn insert_by_date(sorted: Seq<(ObjectId, u32)>, x: (ObjectId, u32)) -> Seq<
    (ObjectId, u32),
>
    decreases sorted.len(),
{
    if sorted.len() == 0 || sorted.last().1 >= x.1 {
        sorted.push(x)
    } else {
        insert_by_date(sorted.drop_last(), x).push(sorted.last())
    }
}

/// `batch` with the newest commit first; commits of one date keep their order.
pub open spec fn newest_first(batch: Seq<(ObjectId, u32)>) -> Seq<(ObjectId, u32)>
    decreases batch.len(),
{
    if batch.len() == 0 {
        Seq::empty()
    } else {
        insert_by_date(newest_first(batch.drop_last()), batch.last())
    }
}

/// The identifiers of a batch of dated commits.
pub open spec fn ids_of(batch: Seq<(ObjectId, u32)>) -> Seq<ObjectId> {
    batch.map_values(|x: (ObjectId, u32)| x.0)
}

/// The order in which the parents of a commit are reached.
pub open spec fn queue_order(
    parents: Seq<ObjectId>,
    lookup: spec_fn(ObjectId) -> Option<Seq<u8>>,
    sorting: Sorting,
) -> Seq<ObjectId> {
    match sorting {
        Sorting::GraphOrder => parents,
        Sorting::ByCommitterDate => ids_of(newest_first(dated(parents, lookup))),
    }
}

/// The tokens behind the first one.
pub open spec fn after_first(tokens: Seq<Result<Token, DecodeError>>) -> Seq<
    Result<Token, DecodeError>,
> {
    if tokens.len() == 0 {
        tokens
    } else {
        tokens.drop_first()
    }
}

/// What a call hands out for the head of the queue, given what the lookup of
/// its commit found: an error if the commit is missing or a token that the
/// walk came to cannot be read, else the head itself.
pub open spec fn yield_of(head: ObjectId, found: Option<Seq<u8>>, mode: Parents) -> Result<
    ObjectId,
    Error,
> {
    match found {
        None => Err(Error::NotFound { oid: head }),
        Some(data) => {
            let tokens = commit_tokens(data);
            if tokens.len() > 0 && tokens[0] is Err {
                Err(Error::ObjectDecode(tokens[0]->Err_0))
            } else {
                match walk_parents(after_first(tokens), mode).failed {
                    Some(err) => Err(Error::ObjectDecode(err)),
                    None => Ok(head),
                }
            }
        },
    }
}

/// The parents that a call may reach, given what the lookup of the head's
/// commit found: those that the walk reads off, and none where the commit is
/// missing or its first token cannot be read. In graph order all of them are
/// reached; by committer date none are where a token cannot be read, and
/// else those that have a date.
pub open spec fn parents_in_reach(found: Option<Seq<u8>>, mode: Parents) -> Seq<ObjectId> {
    match found {
        None => Seq::empty(),
        Some(data) => {
            let tokens = commit_tokens(data);
            if tokens.len() > 0 && tokens[0] is Err {
                Seq::empty()
            } else {
                walk_parents(after_first(tokens), mode).parents
            }
        },
    }
}

/// What a call gives and marks, whatever the callbacks are: `find` gave some
/// answer for the head; the item goes by that answer; every commit that is
/// newly marked is a parent that the walk read off; and in graph order every
/// such parent is marked, whether or not the predicate accepts it.
pub open spec fn answered<Find: Fn(&ObjectId, Vec<u8>) -> Option<Vec<u8>>>(
    find: Find,
    mode: Parents,
    sorting: Sorting,
    before: Frontier,
    item: Option<Result<ObjectId, Error>>,
    after: Frontier,
) -> bool {
    before.queue.len() > 0 ==> exists|buf: Vec<u8>, found: Option<Vec<u8>>| #[trigger]
        call_ensures(find, (&before.queue[0], buf), found) && {
            let parents = parents_in_reach(found_bytes(found), mode);
            &&& item == Some(yield_of(before.queue[0], found_bytes(found), mode))
            &&& forall|id: ObjectId| #[trigger]
                after.seen.contains(id) ==> before.seen.contains(id) || parents.contains(id)
            &&& sorting == Sorting::GraphOrder ==> forall|id: ObjectId| #[trigger]
                parents.contains(id) ==> after.seen.contains(id)
        }
}

/// What happens once the head of the queue was taken off and its commit was
/// looked up, with `rest` as the frontier without the head.
pub open spec fn expand(
    rest: Frontier,
    head: ObjectId,
    found: Option<Seq<u8>>,
    lookup: spec_fn(ObjectId) -> Option<Seq<u8>>,
    accepts: spec_fn(ObjectId) -> bool,
    mode: Parents,
    sorting: Sorting,
) -> Step {
    match found {
        None => Step { item: Some(Err(Error::NotFound { oid: head })), after: rest },
        Some(data) => {
            let tokens = commit_tokens(data);
            if tokens.len() > 0 && tokens[0] is Err {
                Step { item: Some(Err(Error::ObjectDecode(tokens[0]->Err_0))), after: rest }
            } else {
                let walk = walk_parents(after_first(tokens), mode);
                match (walk.failed, sorting) {
                    (Some(err), Sorting::ByCommitterDate) => Step {
                        item: Some(Err(Error::ObjectDecode(err))),
                        after: rest,
                    },
                    (Some(err), Sorting::GraphOrder) => Step {
                        item: Some(Err(Error::ObjectDecode(err))),
                        after: visit_all(rest, walk.parents, accepts),
                    },
                    (None, _) => Step {
                        item: Some(Ok(head)),
                        after: visit_all(
                            rest,
                            queue_order(walk.parents, lookup, sorting),
                            accepts,
                        ),
                    },
                }
            }
        },
    }
}

/// One call for the next commit: nothing, and no change, on an empty queue;
/// else the head of the queue leaves it, its commit is looked up and read, and
/// its parents are reached.
pub open spec fn step(
    f: Frontier,
    lookup: spec_fn(ObjectId) -> Option<Seq<u8>>,
    accepts: spec_fn(ObjectId) -> bool,
    mode: Parents,
    sorting: Sorting,
) -> Step {
    if f.queue.len() == 0 {
        Step { item: None, after: f }
    } else {
        let head = f.queue[0];
        let rest = Frontier { queue: f.queue.drop_first(), seen: f.seen };
        expand(rest, head, lookup(head), lookup, accepts, mode, sorting)
    }
}

/// The bytes that a lookup found, as a value of the model.
pub open spec fn found_bytes(r: Option<Vec<u8>>) -> Option<Seq<u8>> {
    match r {
        Some(data) => Some(data@),
        None => None,
    }
}

/// Whatever `find` returns for an identifier is what `lookup` has for it.
pub open spec fn models_find<Find: Fn(&ObjectId, Vec<u8>) -> Option<Vec<u8>>>(
    find: Find,
    lookup: spec_fn(ObjectId) -> Option<Seq<u8>>,
) -> bool {
    forall|id: ObjectId, buf: Vec<u8>, r: Option<Vec<u8>>| #[trigger]
        call_ensures(find, (&id, buf), r) ==> found_bytes(r) == lookup(id)
}

/// Whatever `predicate` returns for an identifier is what `accepts` says of it.
pub open spec fn models_predicate<Predicate: Fn(&ObjectId) -> bool>(
    predicate: Predicate,
    accepts: spec_fn(ObjectId) -> bool,
) -> bool {
    forall|id: ObjectId, r: bool| #[trigger]
        call_ensures(predicate, (&id,), r) ==> r == accepts(id)
}

/// `find` may be called with every identifier and buffer.
pub open spec fn find_total<Find: Fn(&ObjectId, Vec<u8>) -> Option<Vec<u8>>>(find: Find) -> bool {
    forall|id: ObjectId, buf: Vec<u8>| #[trigger] call_requires(find, (&id, buf))
}

/// `predicate` may be called with every identifier.
pub open spec fn predicate_total<Predicate: Fn(&ObjectId) -> bool>(predicate: Predicate) -> bool {
    forall|id: ObjectId| #[trigger] call_requires(predicate, (&id,))
}

} // verus!
