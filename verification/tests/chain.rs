use cap_history::bucket::{BucketState, InsertError, QueryError};
use cap_history::chain::Chain;
use cap_history::event::{build_event, DetailValue, IndefiniteEvent};
use cap_history::identity::Identity;

fn app() -> Identity {
    Identity::new(vec![1, 2, 3])
}

fn unit(n: u8) -> Identity {
    Identity::new(vec![9, n])
}

fn event(n: u64) -> IndefiniteEvent {
    build_event(Identity::new(vec![7]), "op", vec![(String::from("n"), DetailValue::U64(n))])
}

fn chain_of(capacity: u64, events: u64) -> Chain {
    let mut chain = Chain::open(app(), unit(0), capacity);
    let mut next_unit = 1u8;
    for n in 0..events {
        if chain.terminal().state() == BucketState::Full {
            assert!(chain.extend(unit(next_unit), capacity));
            next_unit += 1;
        }
        assert_eq!(chain.insert(&app(), event(n), 100 + n), Ok(n));
    }
    chain
}

#[test]
fn an_open_chain_has_one_empty_bucket() {
    let chain = Chain::open(app(), unit(0), 4);
    assert_eq!(chain.application(), &app());
    assert_eq!(chain.len(), 1);
    assert_eq!(chain.next_id(), 0);
    assert_eq!(chain.root().id(), &unit(0));
    assert_eq!(chain.root().owner(), &app());
    assert_eq!(chain.root().base(), 0);
    assert_eq!(chain.root().capacity(), 4);
    assert_eq!(chain.terminal().id(), &unit(0));
    assert!(chain.bucket(0).is_some());
    assert!(chain.bucket(1).is_none());
}

#[test]
fn a_chain_grows_only_when_its_last_bucket_is_full() {
    let mut chain = Chain::open(app(), unit(0), 2);
    assert!(!chain.extend(unit(1), 2));
    assert_eq!(chain.insert(&app(), event(0), 1), Ok(0));
    assert!(!chain.extend(unit(1), 2));
    assert_eq!(chain.insert(&app(), event(1), 2), Ok(1));
    assert_eq!(chain.insert(&app(), event(2), 3), Err(InsertError::CantWrite));
    assert!(chain.extend(unit(1), 3));
    assert_eq!(chain.len(), 2);
    assert_eq!(chain.root().state(), BucketState::Closed);
    assert_eq!(chain.root().successor(), Some(&unit(1)));
    assert_eq!(chain.terminal().id(), &unit(1));
    assert_eq!(chain.terminal().base(), 2);
    assert_eq!(chain.terminal().capacity(), 3);
    assert_eq!(chain.terminal().state(), BucketState::Writable);
    assert_eq!(chain.next_id(), 2);
    assert_eq!(chain.insert(&app(), event(2), 3), Ok(2));
    assert_eq!(chain.next_id(), 3);
}

#[test]
fn a_chain_does_not_grow_past_the_last_sequence_id() {
    let mut chain = Chain::open(app(), unit(0), 1);
    chain.insert(&app(), event(0), 1).unwrap();
    assert!(!chain.extend(unit(1), u64::MAX));
    assert_eq!(chain.len(), 1);
    assert!(chain.extend(unit(1), u64::MAX - 1));
    assert_eq!(chain.len(), 2);
}

#[test]
fn only_the_application_writes_to_its_chain() {
    let mut chain = Chain::open(app(), unit(0), 2);
    assert_eq!(chain.insert(&Identity::new(vec![1, 2]), event(0), 1), Err(InsertError::CantWrite));
    assert_eq!(chain.next_id(), 0);
}

#[test]
fn lookups_walk_the_chain_to_the_bucket_that_holds_the_id() {
    let chain = chain_of(10, 25);
    assert_eq!(chain.len(), 3);
    for id in 0..25u64 {
        let stored = chain.get_transaction(id).unwrap();
        assert_eq!(stored.id, id);
        assert_eq!(stored.offset, id % 10);
        assert_eq!(stored.time, 100 + id);
        assert_eq!(stored.details, event(id).details);
    }
    assert_eq!(chain.get_transaction(25), Err(QueryError::InvalidId));
    assert_eq!(chain.get_transaction(u64::MAX), Err(QueryError::InvalidId));
    assert_eq!(chain.bucket(0).unwrap().len(), 10);
    assert_eq!(chain.bucket(1).unwrap().len(), 10);
    assert_eq!(chain.bucket(2).unwrap().len(), 5);
    assert_eq!(chain.bucket(1).unwrap().base(), 10);
    assert_eq!(chain.bucket(2).unwrap().base(), 20);
    assert_eq!(chain.bucket(0).unwrap().successor(), Some(chain.bucket(1).unwrap().id()));
    assert_eq!(chain.bucket(1).unwrap().successor(), Some(chain.bucket(2).unwrap().id()));
    assert_eq!(chain.bucket(2).unwrap().successor(), None);
}

#[test]
fn pages_cross_bucket_boundaries() {
    let chain = chain_of(10, 25);
    let page = chain.get_transactions(1, 8);
    let ids: Vec<u64> = page.iter().map(|e| e.id).collect();
    assert_eq!(ids, vec![8, 9, 10, 11, 12, 13, 14, 15]);
    let last = chain.get_transactions(3, 8);
    let ids: Vec<u64> = last.iter().map(|e| e.id).collect();
    assert_eq!(ids, vec![24]);
    assert!(chain.get_transactions(4, 8).is_empty());
    assert!(chain.get_transactions(u32::MAX, u64::MAX).is_empty());
    assert!(chain.get_transactions(0, 0).is_empty());
    assert_eq!(chain.get_transactions(0, u64::MAX).len(), 25);
    assert_eq!(chain.get_transactions(0, 25).len(), 25);
    assert_eq!(chain.get_transactions(0, 26).len(), 25);
    assert_eq!(chain.get_transactions(1, 24).len(), 1);
}
