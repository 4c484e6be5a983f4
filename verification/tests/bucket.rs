use cap_history::bucket::{Bucket, BucketState, InsertError, QueryError, PAGE_SIZE};
use cap_history::certified::{certifies, digest_of, empty_digest};
use cap_history::event::{build_event, DetailValue, IndefiniteEvent};
use cap_history::identity::Identity;

fn owner() -> Identity {
    Identity::new(vec![10, 20])
}

fn unit() -> Identity {
    Identity::new(vec![1, 1, 1])
}

fn event(n: u64) -> IndefiniteEvent {
    build_event(
        Identity::new(vec![7]),
        "op",
        vec![(String::from("n"), DetailValue::U64(n))],
    )
}

fn bucket(base: u64, capacity: u64) -> Bucket {
    Bucket::new(unit(), owner(), base, capacity).expect("the sequence ids fit")
}

#[test]
fn a_new_bucket_is_empty_and_writable() {
    let b = bucket(5, 3);
    assert_eq!(b.id(), &unit());
    assert_eq!(b.owner(), &owner());
    assert_eq!(b.base(), 5);
    assert_eq!(b.capacity(), 3);
    assert_eq!(b.len(), 0);
    assert_eq!(b.next_id(), 5);
    assert_eq!(b.state(), BucketState::Writable);
    assert_eq!(b.successor(), None);
    assert_eq!(b.root_hash(), empty_digest());
    assert!(b.events().is_empty());
}

#[test]
fn a_bucket_whose_ids_do_not_fit_is_not_made() {
    assert!(Bucket::new(unit(), owner(), u64::MAX, 1).is_none());
    assert!(Bucket::new(unit(), owner(), 1, u64::MAX).is_none());
    assert!(Bucket::new(unit(), owner(), u64::MAX, 0).is_some());
    assert!(Bucket::new(unit(), owner(), u64::MAX - 4, 4).is_some());
    assert!(Bucket::new(unit(), owner(), u64::MAX - 4, 5).is_none());
}

#[test]
fn a_bucket_without_capacity_is_full_from_the_start() {
    let mut b = bucket(0, 0);
    assert_eq!(b.state(), BucketState::Full);
    assert_eq!(b.insert(&owner(), event(0), 1), Err(InsertError::CantWrite));
    assert_eq!(b.len(), 0);
}

#[test]
fn sequence_ids_go_up_by_one_and_match_read_back_order() {
    let mut b = bucket(100, 10);
    for n in 0..7u64 {
        assert_eq!(b.insert(&owner(), event(n), 1000 + n), Ok(100 + n));
    }
    assert_eq!(b.len(), 7);
    assert_eq!(b.next_id(), 107);
    let page = b.get_transactions(None);
    assert_eq!(page.next_page, None);
    assert_eq!(page.transactions.len(), 7);
    for (i, stored) in page.transactions.iter().enumerate() {
        assert_eq!(stored.id, 100 + i as u64);
        assert_eq!(stored.offset, i as u64);
        assert_eq!(stored.time, 1000 + i as u64);
        assert_eq!(stored.details, event(i as u64).details);
    }
}

#[test]
fn insert_then_get_gives_the_event_back() {
    let mut b = bucket(3, 4);
    let submitted = event(11);
    let id = b.insert(&owner(), submitted.clone(), 555).unwrap();
    assert_eq!(id, 3);
    let stored = b.get_transaction(id).unwrap();
    assert_eq!(stored.id, 3);
    assert_eq!(stored.offset, 0);
    assert_eq!(stored.time, 555);
    assert_eq!(stored.caller, submitted.caller);
    assert_eq!(stored.operation, submitted.operation);
    assert_eq!(stored.details, submitted.details);
}

#[test]
fn only_the_owner_writes() {
    let mut b = bucket(0, 4);
    let stranger = Identity::new(vec![10, 21]);
    assert_eq!(b.insert(&stranger, event(0), 1), Err(InsertError::CantWrite));
    assert_eq!(b.len(), 0);
    assert_eq!(b.root_hash(), empty_digest());
    assert_eq!(b.insert(&owner(), event(0), 1), Ok(0));
}

#[test]
fn the_event_that_fills_the_bucket_makes_it_reject_the_next() {
    let mut b = bucket(0, 2);
    assert_eq!(b.insert(&owner(), event(0), 1), Ok(0));
    assert_eq!(b.state(), BucketState::Writable);
    assert_eq!(b.insert(&owner(), event(1), 2), Ok(1));
    assert_eq!(b.state(), BucketState::Full);
    let digest = b.root_hash();
    assert_eq!(b.insert(&owner(), event(2), 3), Err(InsertError::CantWrite));
    assert_eq!(b.len(), 2);
    assert_eq!(b.root_hash(), digest);
}

#[test]
fn closing_needs_a_full_bucket_and_records_the_successor() {
    let mut b = bucket(0, 1);
    let next = Identity::new(vec![2, 2, 2]);
    assert!(!b.close(next.clone()));
    assert_eq!(b.state(), BucketState::Writable);
    assert_eq!(b.insert(&owner(), event(0), 1), Ok(0));
    assert!(b.close(next.clone()));
    assert_eq!(b.state(), BucketState::Closed);
    assert_eq!(b.successor(), Some(&next));
    assert!(!b.close(Identity::new(vec![3])));
    assert_eq!(b.successor(), Some(&next));
    assert_eq!(b.insert(&owner(), event(1), 2), Err(InsertError::CantWrite));
    assert_eq!(b.get_transaction(0).unwrap().id, 0);
}

#[test]
fn lookups_outside_the_bucket_are_invalid() {
    let mut b = bucket(10, 5);
    assert_eq!(b.get_transaction(10), Err(QueryError::InvalidId));
    b.insert(&owner(), event(0), 1).unwrap();
    b.insert(&owner(), event(1), 1).unwrap();
    assert_eq!(b.get_transaction(9), Err(QueryError::InvalidId));
    assert_eq!(b.get_transaction(0), Err(QueryError::InvalidId));
    assert_eq!(b.get_transaction(12), Err(QueryError::InvalidId));
    assert_eq!(b.get_transaction(u64::MAX), Err(QueryError::InvalidId));
    assert_eq!(b.get_transaction(10).unwrap().offset, 0);
    assert_eq!(b.get_transaction(11).unwrap().offset, 1);
}

#[test]
fn pages_hold_sixty_four_events_and_name_the_next() {
    assert_eq!(PAGE_SIZE, 64);
    let mut b = bucket(0, 200);
    for n in 0..130u64 {
        b.insert(&owner(), event(n), n).unwrap();
    }
    let first = b.get_transactions(None);
    assert_eq!(first.transactions.len(), 64);
    assert_eq!(first.transactions[0].id, 0);
    assert_eq!(first.transactions[63].id, 63);
    assert_eq!(first.next_page, Some(1));
    let same = b.get_transactions(Some(0));
    assert_eq!(same, first);
    let second = b.get_transactions(first.next_page);
    assert_eq!(second.transactions.len(), 64);
    assert_eq!(second.transactions[0].id, 64);
    assert_eq!(second.next_page, Some(2));
    let third = b.get_transactions(second.next_page);
    assert_eq!(third.transactions.len(), 2);
    assert_eq!(third.transactions[0].id, 128);
    assert_eq!(third.transactions[1].id, 129);
    assert_eq!(third.next_page, None);
    let beyond = b.get_transactions(Some(3));
    assert!(beyond.transactions.is_empty());
    assert_eq!(beyond.next_page, None);
    let far = b.get_transactions(Some(u32::MAX));
    assert!(far.transactions.is_empty());
    assert_eq!(far.next_page, None);
}

#[test]
fn a_page_that_ends_with_the_log_names_no_next() {
    let mut b = bucket(0, 64);
    for n in 0..64u64 {
        b.insert(&owner(), event(n), n).unwrap();
    }
    let page = b.get_transactions(None);
    assert_eq!(page.transactions.len(), 64);
    assert_eq!(page.next_page, None);
}

#[test]
fn the_root_hash_certifies_the_log() {
    let mut b = bucket(0, 5);
    for n in 0..3u64 {
        b.insert(&owner(), event(n), n).unwrap();
    }
    assert_eq!(b.root_hash(), digest_of(b.events()));
    assert!(certifies(&b.root_hash(), b.events()));
    let page = b.get_transactions(None);
    assert!(certifies(&b.root_hash(), &page.transactions));
    let mut forged = page.transactions;
    forged[1].operation = String::from("forged");
    assert!(!certifies(&b.root_hash(), &forged));
}
