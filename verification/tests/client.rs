use cap_history::bucket::BucketState;
use cap_history::client::Client;
use cap_history::event::{build_event, DetailValue, IndefiniteEvent};
use cap_history::history::{History, Unit};
use cap_history::identity::Identity;
use cap_history::router::UnitStatus;
use cap_history::transaction::{GetTransactionError, InsertTransactionError};
use cap_history::transactions::GetTransactionsError;

fn app(n: u8) -> Identity {
    Identity::new(vec![1, n])
}

fn index() -> Identity {
    Identity::new(vec![0, 0, 7])
}

fn unit_id(n: u8) -> Identity {
    Identity::new(vec![9, n])
}

fn spare(n: u8) -> Unit {
    Unit {
        id: unit_id(n),
        status: UnitStatus { controllers: vec![Identity::new(vec![5])], module_hash: None },
    }
}

fn store(capacity: u64, units: u8) -> History {
    let mut h = History::new(capacity);
    for n in 0..units {
        h.add_unit(spare(n));
    }
    h
}

fn fields(n: u64) -> Vec<(String, DetailValue)> {
    vec![(String::from("n"), DetailValue::U64(n))]
}

fn event(n: u64) -> IndefiniteEvent {
    build_event(Identity::new(vec![7]), "op", fields(n))
}

#[test]
fn the_first_write_provisions_and_remembers_the_root() {
    let mut h = store(10, 2);
    let mut client = Client::new(app(1), index());
    assert_eq!(client.application(), &app(1));
    assert!(client.slot().cached().is_none());
    assert_eq!(client.cursor(), 0);
    assert_eq!(client.insert(&mut h, Identity::new(vec![7]), &fields(0), 5, 5, 100), Ok(0));
    let env = client.slot().cached().expect("the binding is cached");
    assert_eq!(env.root(), &unit_id(1));
    assert_eq!(env.index(), &index());
    assert_eq!(h.spare_units(), 1);
    assert_eq!(client.insert(&mut h, Identity::new(vec![7]), &fields(1), 5, 6, 101), Ok(1));
    assert_eq!(h.spare_units(), 1);
    assert_eq!(h.router().bindings().len(), 1);
}

#[test]
fn a_payment_under_the_fee_writes_nothing() {
    let mut h = store(10, 2);
    let mut client = Client::new(app(1), index());
    assert_eq!(
        client.insert_event(&mut h, event(0), 100, 99, 1),
        Err(InsertTransactionError::CantWrite)
    );
    assert!(h.chain(&app(1)).is_none());
    assert_eq!(h.spare_units(), 2);
    assert_eq!(client.insert_event(&mut h, event(0), 100, 100, 1), Ok(0));
    assert_eq!(
        client.insert_event(&mut h, event(1), 100, 0, 2),
        Err(InsertTransactionError::CantWrite)
    );
    assert_eq!(h.chain(&app(1)).unwrap().next_id(), 1);
    assert_eq!(client.insert_event(&mut h, event(1), 0, 0, 2), Ok(1));
    assert_eq!(client.insert_event(&mut h, event(2), u64::MAX, u64::MAX, 3), Ok(2));
}

#[test]
fn a_write_without_any_unit_fails() {
    let mut h = store(10, 0);
    let mut client = Client::new(app(1), index());
    assert_eq!(
        client.insert_event(&mut h, event(0), 1, 1, 1),
        Err(InsertTransactionError::CantWrite)
    );
    assert!(client.slot().cached().is_none());
}

#[test]
fn a_client_reads_back_what_it_wrote() {
    let mut h = store(10, 1);
    let mut client = Client::new(app(1), index());
    let submitted = event(33);
    let id = client.insert_event(&mut h, submitted.clone(), 1, 2, 900).unwrap();
    let stored = client.get_transaction(&h, id).unwrap();
    assert_eq!(stored.id, id);
    assert_eq!(stored.time, 900);
    assert_eq!(stored.caller, submitted.caller);
    assert_eq!(stored.operation, submitted.operation);
    assert_eq!(stored.details, submitted.details);
    assert_eq!(client.get_transaction(&h, id + 1), Err(GetTransactionError::InvalidId));
}

#[test]
fn the_write_after_a_full_bucket_lands_in_a_new_successor() {
    let mut h = store(2, 2);
    let mut client = Client::new(app(1), index());
    assert_eq!(client.insert_event(&mut h, event(0), 1, 1, 1), Ok(0));
    assert_eq!(client.insert_event(&mut h, event(1), 1, 1, 2), Ok(1));
    assert_eq!(h.chain(&app(1)).unwrap().root().len(), 2);
    assert_eq!(h.chain(&app(1)).unwrap().root().state(), BucketState::Closed);
    let filled = client.cursor();
    assert_eq!(filled, 0);
    assert!(h.insert_at(&app(1), filled, event(2), 3).is_err());
    assert_eq!(h.chain(&app(1)).unwrap().next_id(), 2);
    assert_eq!(client.insert_event(&mut h, event(2), 1, 1, 3), Ok(2));
    assert_eq!(client.cursor(), 1);
    let chain = h.chain(&app(1)).unwrap();
    assert_eq!(chain.len(), 2);
    assert_eq!(chain.root().successor(), Some(chain.terminal().id()));
    assert_eq!(chain.terminal().base(), 2);
    assert_eq!(chain.terminal().len(), 1);
    assert_eq!(chain.terminal().get_transaction(2).unwrap().details, fields(2));
    assert_eq!(h.spare_units(), 0);
    assert_eq!(client.insert_event(&mut h, event(3), 1, 1, 4), Ok(3));
    assert_eq!(h.chain(&app(1)).unwrap().terminal().state(), BucketState::Full);
    assert_eq!(
        client.insert_event(&mut h, event(4), 1, 1, 5),
        Err(InsertTransactionError::CantWrite)
    );
    assert_eq!(h.chain(&app(1)).unwrap().next_id(), 4);
    h.add_unit(spare(7));
    assert_eq!(client.insert_event(&mut h, event(4), 1, 1, 5), Ok(4));
    assert_eq!(h.chain(&app(1)).unwrap().len(), 3);
    assert_eq!(client.cursor(), 2);
}

#[test]
fn a_client_with_a_stale_cursor_finds_the_last_bucket() {
    let mut h = store(1, 4);
    let mut first = Client::new(app(1), index());
    for n in 0..3u64 {
        assert_eq!(first.insert_event(&mut h, event(n), 0, 0, n), Ok(n));
    }
    assert_eq!(first.cursor(), 2);
    let mut fresh = Client::new(app(1), index());
    assert_eq!(fresh.cursor(), 0);
    assert_eq!(fresh.insert_event(&mut h, event(3), 0, 0, 3), Ok(3));
    assert_eq!(fresh.cursor(), 3);
    assert_eq!(fresh.slot().cached().unwrap().root(), first.slot().cached().unwrap().root());
}

#[test]
fn pages_enumerate_every_event_once_across_three_buckets() {
    let mut h = store(10, 3);
    let mut client = Client::new(app(1), index());
    for n in 0..25u64 {
        assert_eq!(client.insert_event(&mut h, event(n), 1, 1, 1000 + n), Ok(n));
    }
    let chain = h.chain(&app(1)).unwrap();
    assert_eq!(chain.len(), 3);
    assert_eq!(chain.bucket(0).unwrap().len(), 10);
    assert_eq!(chain.bucket(1).unwrap().len(), 10);
    assert_eq!(chain.bucket(2).unwrap().len(), 5);
    let mut seen: Vec<u64> = Vec::new();
    let mut response = client.get_transactions(&h, None, 8).unwrap();
    let mut asked = 1;
    while !response.transactions().is_empty() {
        for stored in response.transactions() {
            seen.push(stored.id);
            assert_eq!(stored.time, 1000 + stored.id);
            assert_eq!(stored.details, fields(stored.id));
        }
        response = client.get_transactions(&h, &response, 8).unwrap();
        asked += 1;
    }
    assert_eq!(seen, (0..25u64).collect::<Vec<u64>>());
    assert_eq!(asked, 5);
    assert_eq!(response.next_page(), 5);
}

#[test]
fn pages_by_number_and_by_the_answer_before_agree() {
    let mut h = store(10, 3);
    let mut client = Client::new(app(1), index());
    for n in 0..25u64 {
        client.insert_event(&mut h, event(n), 1, 1, n).unwrap();
    }
    let first = client.get_transactions(&h, None, 10).unwrap();
    assert_eq!(first.next_page(), 1);
    assert_eq!(first.transactions().len(), 10);
    let zero = client.get_transactions(&h, Some(0), 10).unwrap();
    assert_eq!(zero, first);
    let by_answer = client.get_transactions(&h, &first, 10).unwrap();
    let by_number = client.get_transactions_page(&h, Some(1), 10).unwrap();
    assert_eq!(by_answer, by_number);
    assert_eq!(by_number.transactions()[0].id, 10);
    let last = client.get_transactions(&h, Some(u32::MAX), 10).unwrap();
    assert!(last.transactions().is_empty());
    assert_eq!(last.next_page(), u32::MAX);
}

#[test]
fn an_application_without_a_chain_has_no_pages() {
    let h = store(10, 1);
    let client = Client::new(app(1), index());
    assert_eq!(client.get_transactions(&h, None, 10), Err(GetTransactionsError::InvalidId));
    assert_eq!(client.get_transaction(&h, 0), Err(GetTransactionError::InvalidId));
}

#[test]
fn one_application_never_writes_into_the_log_of_another() {
    let mut h = store(2, 6);
    let mut a = Client::new(app(1), index());
    let mut b = Client::new(app(2), index());
    for n in 0..5u64 {
        assert_eq!(a.insert_event(&mut h, event(n), 1, 1, n), Ok(n));
    }
    let before: Vec<u64> =
        a.get_transactions(&h, None, 100).unwrap().into_transactions().iter().map(|e| e.time).collect();
    let root = h.index().root_of(&app(1)).unwrap().clone();
    for n in 0..3u64 {
        assert_eq!(b.insert_event(&mut h, event(100 + n), 1, 1, 100 + n), Ok(n));
    }
    let after: Vec<u64> =
        a.get_transactions(&h, None, 100).unwrap().into_transactions().iter().map(|e| e.time).collect();
    assert_eq!(after, before);
    assert_eq!(h.index().root_of(&app(1)), Some(&root));
    assert_eq!(h.chain(&app(1)).unwrap().len(), 3);
    assert_eq!(h.chain(&app(2)).unwrap().len(), 2);
    assert_eq!(b.get_transaction(&h, 0).unwrap().time, 100);
    assert_eq!(a.get_transaction(&h, 0).unwrap().time, 0);
    assert_eq!(b.get_transaction(&h, 3), Err(GetTransactionError::InvalidId));
}

#[test]
fn the_binding_is_carried_across_an_upgrade() {
    let mut h = store(10, 1);
    let mut client = Client::new(app(1), index());
    assert_eq!(client.handed(), 0);
    assert_eq!(client.handshake(&mut h, 77), Ok(()));
    assert_eq!(client.handed(), 77);
    let saved = client.slot().cached().expect("the binding is held").duplicate();
    assert_eq!(saved.root(), &unit_id(0));
    let mut upgraded = Client::new(app(1), index());
    assert!(upgraded.slot().cached().is_none());
    upgraded.restore(saved.clone());
    assert_eq!(upgraded.slot().cached(), Some(&saved));
    assert_eq!(upgraded.insert_event(&mut h, event(0), 0, 0, 1), Ok(0));
    assert_eq!(h.router().bindings().len(), 1);
}
