use objstore::hash::ObjectId;
use objstore::commit::Token;
use objstore::traverse::ancestors::{committer_date, read_parents, sort_newest_first};
use objstore::traverse::{Ancestors, Error, Parents, Sorting, State};

fn id(n: u8) -> ObjectId {
    ObjectId { bytes: [n; 20] }
}

fn hex(id: &ObjectId) -> String {
    id.bytes.iter().map(|b| format!("{:02x}", b)).collect()
}

fn commit(parents: &[ObjectId], committer_time: u32) -> Vec<u8> {
    let mut out = format!("tree {}\n", "00".repeat(20));
    for parent in parents {
        out.push_str(&format!("parent {}\n", hex(parent)));
    }
    out.push_str("author A U Thor <author@example.com> 1 +0000\n");
    out.push_str(&format!(
        "committer C O Mitter <committer@example.com> {} +0100\n",
        committer_time
    ));
    out.push_str("\nsubject\n\nbody\n");
    out.into_bytes()
}

fn finder(
    commits: Vec<(ObjectId, Vec<u8>)>,
) -> impl Fn(&ObjectId, Vec<u8>) -> Option<Vec<u8>> {
    move |id: &ObjectId, mut buf: Vec<u8>| {
        commits.iter().find(|(at, _)| at == id).map(|(_, data)| {
            buf.clear();
            buf.extend_from_slice(data);
            buf
        })
    }
}

fn drain<F, P>(mut walk: Ancestors<F, P>) -> Vec<Result<ObjectId, Error>>
where
    F: Fn(&ObjectId, Vec<u8>) -> Option<Vec<u8>>,
    P: Fn(&ObjectId) -> bool,
{
    let mut out = Vec::new();
    while let Some(item) = walk.next() {
        out.push(item);
        assert!(out.len() < 100, "the traversal does not end");
    }
    assert!(walk.next().is_none());
    out
}

fn ids(items: Vec<Result<ObjectId, Error>>) -> Vec<ObjectId> {
    items.into_iter().map(|item| item.expect("no error")).collect()
}

/// 1 <- 2 <- 4 <- 6(merge of 4 and 5), 1 <- 3 <- 5
fn graph() -> Vec<(ObjectId, Vec<u8>)> {
    vec![
        (id(1), commit(&[], 100)),
        (id(2), commit(&[id(1)], 200)),
        (id(3), commit(&[id(1)], 300)),
        (id(4), commit(&[id(2)], 400)),
        (id(5), commit(&[id(3)], 500)),
        (id(6), commit(&[id(4), id(5)], 600)),
    ]
}

#[test]
fn defaults_are_all_parents_in_graph_order() {
    assert!(matches!(Parents::default(), Parents::All));
    assert!(matches!(Sorting::default(), Sorting::GraphOrder));
}

#[test]
fn a_single_tip_without_parents_yields_itself() {
    let walk = Ancestors::new(vec![id(1)], State::new(), finder(graph()));
    assert_eq!(ids(drain(walk)), vec![id(1)]);
    let walk = Ancestors::new(vec![id(1)], State::new(), finder(graph()))
        .sorting(Sorting::ByCommitterDate)
        .mode(Parents::First);
    assert_eq!(ids(drain(walk)), vec![id(1)]);
}

#[test]
fn no_tips_yield_nothing() {
    let walk = Ancestors::new(Vec::new(), State::new(), finder(graph()));
    assert!(drain(walk).is_empty());
}

#[test]
fn a_linear_chain_is_walked_in_order() {
    let walk = Ancestors::new(vec![id(4)], State::new(), finder(graph()));
    assert_eq!(ids(drain(walk)), vec![id(4), id(2), id(1)]);
}

#[test]
fn graph_order_is_breadth_first_and_yields_each_commit_once() {
    let walk = Ancestors::new(vec![id(6)], State::new(), finder(graph()));
    assert_eq!(ids(drain(walk)), vec![id(6), id(4), id(5), id(2), id(3), id(1)]);
}

#[test]
fn several_tips_interleave_and_repeated_tips_count_once() {
    let walk = Ancestors::new(vec![id(4), id(5), id(4)], State::new(), finder(graph()));
    assert_eq!(ids(drain(walk)), vec![id(4), id(5), id(2), id(3), id(1)]);
}

#[test]
fn committer_date_queues_the_newest_parent_first() {
    let walk = Ancestors::new(vec![id(6)], State::new(), finder(graph()))
        .sorting(Sorting::ByCommitterDate);
    assert_eq!(ids(drain(walk)), vec![id(6), id(5), id(4), id(3), id(2), id(1)]);
}

#[test]
fn parents_of_one_date_keep_their_order() {
    let commits = vec![
        (id(1), commit(&[], 100)),
        (id(2), commit(&[], 100)),
        (id(3), commit(&[], 200)),
        (id(9), commit(&[id(1), id(2), id(3)], 900)),
    ];
    let walk = Ancestors::new(vec![id(9)], State::new(), finder(commits))
        .sorting(Sorting::ByCommitterDate);
    assert_eq!(ids(drain(walk)), vec![id(9), id(3), id(1), id(2)]);
}

#[test]
fn a_parent_without_a_date_is_dropped_by_committer_date() {
    let mut commits = graph();
    commits.retain(|(at, _)| *at != id(5));
    let walk = Ancestors::new(vec![id(6)], State::new(), finder(commits.clone()))
        .sorting(Sorting::ByCommitterDate);
    assert_eq!(ids(drain(walk)), vec![id(6), id(4), id(2), id(1)]);

    let walk = Ancestors::new(vec![id(6)], State::new(), finder(commits));
    let items = drain(walk);
    assert!(items.iter().any(|item| matches!(item, Err(Error::NotFound { oid }) if *oid == id(5))));
}

#[test]
fn first_parent_mode_leaves_out_what_was_merged() {
    let walk = Ancestors::new(vec![id(6)], State::new(), finder(graph())).mode(Parents::First);
    assert_eq!(ids(drain(walk)), vec![id(6), id(4), id(2), id(1)]);
    let walk = Ancestors::new(vec![id(6)], State::new(), finder(graph()))
        .mode(Parents::First)
        .sorting(Sorting::ByCommitterDate);
    assert_eq!(ids(drain(walk)), vec![id(6), id(4), id(2), id(1)]);
}

#[test]
fn a_rejected_commit_is_neither_yielded_nor_walked_from() {
    let reject_four = |at: &ObjectId| *at != id(4);
    let walk = Ancestors::filtered(vec![id(6)], State::new(), finder(graph()), reject_four);
    assert_eq!(ids(drain(walk)), vec![id(6), id(5), id(3), id(1)]);
}

#[test]
fn a_rejected_commit_is_marked_and_not_asked_about_again() {
    let asked = std::cell::RefCell::new(Vec::new());
    let commits = vec![
        (id(1), commit(&[], 100)),
        (id(2), commit(&[id(1)], 200)),
        (id(3), commit(&[id(1)], 300)),
        (id(4), commit(&[id(2), id(3)], 400)),
    ];
    let predicate = |at: &ObjectId| {
        asked.borrow_mut().push(*at);
        *at != id(1)
    };
    let mut walk = Ancestors::filtered(vec![id(4)], State::new(), finder(commits), predicate);
    let mut yielded = Vec::new();
    while let Some(item) = walk.next() {
        yielded.push(item.unwrap());
    }
    assert_eq!(yielded, vec![id(4), id(2), id(3)]);
    let state = walk.into_state();
    assert!(state.has_seen(&id(1)));
    assert_eq!(state.pending(), 0);
    assert_eq!(asked.borrow().iter().filter(|at| **at == id(1)).count(), 1);
}

#[test]
fn a_rejected_tip_is_marked_and_nothing_is_walked() {
    let walk = Ancestors::filtered(vec![id(6)], State::new(), finder(graph()), |_: &ObjectId| false);
    let state = {
        let mut walk = walk;
        assert!(walk.next().is_none());
        walk.into_state()
    };
    assert!(state.has_seen(&id(6)));
    assert!(!state.has_seen(&id(4)));
}

#[test]
fn a_drained_traversal_stays_drained() {
    let mut walk = Ancestors::new(vec![id(2)], State::new(), finder(graph()));
    assert_eq!(walk.next().unwrap().unwrap(), id(2));
    assert_eq!(walk.next().unwrap().unwrap(), id(1));
    for _ in 0..5 {
        assert!(walk.next().is_none());
    }
}

#[test]
fn a_missing_commit_is_an_error() {
    let mut walk = Ancestors::new(vec![id(42)], State::new(), finder(graph()));
    match walk.next() {
        Some(Err(Error::NotFound { oid })) => assert_eq!(oid, id(42)),
        _ => panic!("expected the commit to be missing"),
    }
    assert!(walk.next().is_none());
}

#[test]
fn a_commit_whose_first_token_cannot_be_read_is_an_error() {
    let commits = vec![(id(1), b"not a commit".to_vec())];
    let mut walk = Ancestors::new(vec![id(1)], State::new(), finder(commits.clone()));
    assert!(matches!(walk.next(), Some(Err(Error::ObjectDecode(_)))));
    assert!(walk.next().is_none());
    let mut walk = Ancestors::new(vec![id(1)], State::new(), finder(commits))
        .sorting(Sorting::ByCommitterDate);
    assert!(matches!(walk.next(), Some(Err(Error::ObjectDecode(_)))));
}

#[test]
fn a_token_behind_the_parents_that_cannot_be_read_is_an_error() {
    let broken = format!("tree {}\nparent {}\nbroken\n", "00".repeat(20), hex(&id(1))).into_bytes();
    let commits = vec![(id(1), commit(&[], 100)), (id(2), broken)];

    let mut walk = Ancestors::new(vec![id(2)], State::new(), finder(commits.clone()));
    assert!(matches!(walk.next(), Some(Err(Error::ObjectDecode(_)))));
    assert_eq!(walk.next().unwrap().unwrap(), id(1));
    assert!(walk.next().is_none());

    let mut walk = Ancestors::new(vec![id(2)], State::new(), finder(commits))
        .sorting(Sorting::ByCommitterDate);
    assert!(matches!(walk.next(), Some(Err(Error::ObjectDecode(_)))));
    assert!(walk.next().is_none());
    assert!(!walk.into_state().has_seen(&id(1)));
}

#[test]
fn an_empty_commit_yields_itself() {
    let commits = vec![(id(1), Vec::new())];
    let walk = Ancestors::new(vec![id(1)], State::new(), finder(commits));
    assert_eq!(ids(drain(walk)), vec![id(1)]);
}

#[test]
fn a_state_can_be_used_again() {
    let mut walk = Ancestors::new(vec![id(6)], State::new(), finder(graph()));
    assert_eq!(walk.next().unwrap().unwrap(), id(6));
    let state = walk.into_state();
    assert_eq!(state.pending(), 2);
    assert!(state.has_seen(&id(5)));
    let walk = Ancestors::new(vec![id(2)], state, finder(graph()));
    assert_eq!(ids(drain(walk)), vec![id(2), id(1)]);

    let mut state = State::default();
    assert_eq!(state.pending(), 0);
    state.clear();
    assert!(!state.has_seen(&id(1)));
}

#[test]
fn cycles_end() {
    let commits = vec![(id(1), commit(&[id(2)], 1)), (id(2), commit(&[id(1)], 2))];
    let walk = Ancestors::new(vec![id(1)], State::new(), finder(commits));
    assert_eq!(ids(drain(walk)), vec![id(1), id(2)]);
}

fn unreadable() -> Result<Token, git_object::decode::Error> {
    Err(git_object::decode::Error { inner: () })
}

#[test]
fn parents_are_read_up_to_the_first_other_token() {
    let tokens = || {
        vec![
            Ok(Token::Tree { id: id(0) }),
            Ok(Token::Parent { id: id(1) }),
            Ok(Token::Parent { id: id(2) }),
            Ok(Token::Author),
            Ok(Token::Parent { id: id(3) }),
        ]
    };
    let (parents, failed) = read_parents(tokens(), Parents::All);
    assert_eq!(parents, vec![id(1), id(2)]);
    assert!(failed.is_none());
    let (parents, failed) = read_parents(tokens(), Parents::First);
    assert_eq!(parents, vec![id(1)]);
    assert!(failed.is_none());
}

#[test]
fn the_first_token_is_passed_over_whatever_it_is() {
    let (parents, failed) =
        read_parents(vec![Ok(Token::Parent { id: id(1) }), Ok(Token::Parent { id: id(2) })], Parents::All);
    assert_eq!(parents, vec![id(2)]);
    assert!(failed.is_none());
    let (parents, failed) = read_parents(Vec::new(), Parents::All);
    assert!(parents.is_empty() && failed.is_none());
    let (parents, failed) = read_parents(vec![unreadable()], Parents::All);
    assert!(parents.is_empty() && failed.is_none());
}

#[test]
fn an_unreadable_token_ends_the_reading_of_parents() {
    let tokens = || {
        vec![
            Ok(Token::Tree { id: id(0) }),
            Ok(Token::Parent { id: id(1) }),
            unreadable(),
            Ok(Token::Parent { id: id(2) }),
        ]
    };
    let (parents, failed) = read_parents(tokens(), Parents::All);
    assert_eq!(parents, vec![id(1)]);
    assert!(failed.is_some());
    let (parents, failed) = read_parents(tokens(), Parents::First);
    assert_eq!(parents, vec![id(1)]);
    assert!(failed.is_none());
}

#[test]
fn the_committer_date_is_read_unless_a_token_before_it_is_unreadable() {
    let readable = vec![
        Ok(Token::Tree { id: id(0) }),
        Ok(Token::Author),
        Ok(Token::Committer { time: 77 }),
        Ok(Token::Committer { time: 78 }),
    ];
    assert_eq!(committer_date(&readable), Some(77));
    let broken = vec![Ok(Token::Tree { id: id(0) }), unreadable(), Ok(Token::Committer { time: 77 })];
    assert_eq!(committer_date(&broken), None);
    assert_eq!(committer_date(&vec![Ok(Token::Tree { id: id(0) }), Ok(Token::Message)]), None);
    assert_eq!(committer_date(&Vec::new()), None);
}

#[test]
fn batches_are_sorted_newest_first_and_stable() {
    let batch = vec![(id(1), 5), (id(2), 9), (id(3), 5), (id(4), 1), (id(5), 9)];
    assert_eq!(
        sort_newest_first(&batch),
        vec![(id(2), 9), (id(5), 9), (id(1), 5), (id(3), 5), (id(4), 1)]
    );
    assert!(sort_newest_first(&Vec::new()).is_empty());
}
