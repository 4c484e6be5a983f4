use cap_history::bucket::{BucketPage, InsertError, QueryError};
use cap_history::event::{build_event, Event};
use cap_history::identity::Identity;
use cap_history::transaction::{GetTransactionError, InsertTransactionError, Reply};
use cap_history::transactions::GetTransactionsError;
use cap_history::walk::{
    gather_step, lookup_step, write_step, Gather, GatherEvent, GatherProgress, LookupAction,
    LookupEvent, WriteAction, WriteEvent, WriteStage,
};
use ic_kit::RejectionCode;

fn bucket(n: u8) -> Identity {
    Identity::new(vec![9, n])
}

fn found(id: u64) -> Event {
    build_event(Identity::new(vec![7]), "op", Vec::new()).into_event(id, id, id)
}

#[test]
fn a_write_that_is_taken_ends_at_once() {
    let step = write_step(WriteStage::Trying, bucket(0), WriteEvent::Inserted(Reply::Answer(Ok(5))));
    assert_eq!(step, (WriteStage::Trying, WriteAction::Finish(Ok(5))));
}

#[test]
fn a_write_that_is_not_taken_walks_to_the_end_and_is_tried_once_more() {
    let refused = WriteEvent::Inserted(Reply::Answer(Err(InsertError::CantWrite)));
    let step = write_step(WriteStage::Trying, bucket(0), refused);
    assert_eq!(step, (WriteStage::Walking, WriteAction::AskSuccessor(bucket(0))));
    let step = write_step(
        WriteStage::Walking,
        bucket(0),
        WriteEvent::Successor(Reply::Answer(Some(bucket(1)))),
    );
    assert_eq!(step, (WriteStage::Walking, WriteAction::AskSuccessor(bucket(1))));
    let step = write_step(
        WriteStage::Walking,
        bucket(1),
        WriteEvent::Successor(Reply::Answer(None)),
    );
    assert_eq!(step, (WriteStage::Retrying, WriteAction::Insert(bucket(1))));
    let step =
        write_step(WriteStage::Retrying, bucket(1), WriteEvent::Inserted(Reply::Answer(Ok(20))));
    assert_eq!(step, (WriteStage::Retrying, WriteAction::Finish(Ok(20))));
    let refused = WriteEvent::Inserted(Reply::Answer(Err(InsertError::CantWrite)));
    let step = write_step(WriteStage::Retrying, bucket(1), refused);
    assert_eq!(
        step,
        (WriteStage::Retrying, WriteAction::Finish(Err(InsertTransactionError::CantWrite)))
    );
}

#[test]
fn a_rejected_call_ends_the_write_with_what_came() {
    let expected = || {
        WriteAction::Finish(Err(InsertTransactionError::Unexpected(
            RejectionCode::SysTransient,
            String::from("busy"),
        )))
    };
    let insert = || {
        WriteEvent::Inserted(Reply::Rejected(RejectionCode::SysTransient, String::from("busy")))
    };
    let successor =
        WriteEvent::Successor(Reply::Rejected(RejectionCode::SysTransient, String::from("busy")));
    let step = write_step(WriteStage::Trying, bucket(0), insert());
    assert_eq!(step.1, expected());
    let step = write_step(WriteStage::Retrying, bucket(0), insert());
    assert_eq!(step.1, expected());
    let step = write_step(WriteStage::Walking, bucket(0), successor);
    assert_eq!(step.1, expected());
}

#[test]
fn a_reply_that_was_not_asked_for_ends_the_write() {
    let step = write_step(
        WriteStage::Trying,
        bucket(0),
        WriteEvent::Successor(Reply::Answer(Some(bucket(1)))),
    );
    assert_eq!(step.1, WriteAction::Finish(Err(InsertTransactionError::CantWrite)));
    let step = write_step(WriteStage::Walking, bucket(0), WriteEvent::Inserted(Reply::Answer(Ok(1))));
    assert_eq!(step.1, WriteAction::Finish(Err(InsertTransactionError::CantWrite)));
    let step = write_step(
        WriteStage::Retrying,
        bucket(0),
        WriteEvent::Successor(Reply::Answer(None)),
    );
    assert_eq!(step.1, WriteAction::Finish(Err(InsertTransactionError::CantWrite)));
}

#[test]
fn a_lookup_goes_from_bucket_to_bucket_until_one_answers() {
    let missing = LookupEvent::Found(Reply::Answer(Err(QueryError::InvalidId)));
    assert_eq!(lookup_step(bucket(0), missing), LookupAction::AskSuccessor(bucket(0)));
    let next = LookupEvent::Successor(Reply::Answer(Some(bucket(1))));
    assert_eq!(lookup_step(bucket(0), next), LookupAction::Lookup(bucket(1)));
    let hit = LookupEvent::Found(Reply::Answer(Ok(found(12))));
    assert_eq!(lookup_step(bucket(1), hit), LookupAction::Finish(Ok(found(12))));
}

#[test]
fn a_lookup_ends_with_the_chain() {
    let end = LookupEvent::Successor(Reply::Answer(None));
    assert_eq!(
        lookup_step(bucket(2), end),
        LookupAction::Finish(Err(GetTransactionError::InvalidId))
    );
    let rejected = LookupEvent::Found(Reply::Rejected(RejectionCode::SysFatal, String::from("x")));
    assert_eq!(
        lookup_step(bucket(2), rejected),
        LookupAction::Finish(Err(GetTransactionError::Unexpected(
            RejectionCode::SysFatal,
            String::from("x")
        )))
    );
    let rejected =
        LookupEvent::Successor(Reply::Rejected(RejectionCode::Unknown, String::from("y")));
    assert_eq!(
        lookup_step(bucket(2), rejected),
        LookupAction::Finish(Err(GetTransactionError::Unexpected(
            RejectionCode::Unknown,
            String::from("y")
        )))
    );
}

fn page(ids: &[u64], next_page: Option<u32>) -> BucketPage {
    BucketPage { transactions: ids.iter().map(|id| found(*id)).collect(), next_page }
}

fn ids_of(response: &cap_history::transactions::GetTransactionsResponse) -> Vec<u64> {
    response.transactions().iter().map(|e| e.id).collect()
}

#[test]
fn a_page_is_gathered_across_pages_and_buckets() {
    let gather = Gather::new(Some(1), 3);
    let step = gather_step(gather, bucket(0), GatherEvent::Page(Reply::Answer(page(&[0, 1, 2, 3], Some(1)))));
    let gather = match step {
        GatherProgress::Fetch(gather, from, number) => {
            assert_eq!(from, bucket(0));
            assert_eq!(number, Some(1));
            gather
        }
        other => panic!("the page is not filled yet: {:?}", other),
    };
    let step = gather_step(gather, bucket(0), GatherEvent::Page(Reply::Answer(page(&[4], None))));
    let gather = match step {
        GatherProgress::AskSuccessor(gather, of) => {
            assert_eq!(of, bucket(0));
            gather
        }
        other => panic!("the bucket is read to its end: {:?}", other),
    };
    let step = gather_step(
        gather,
        bucket(0),
        GatherEvent::Successor(Reply::Answer(Some(bucket(1)))),
    );
    let gather = match step {
        GatherProgress::Fetch(gather, from, number) => {
            assert_eq!(from, bucket(1));
            assert_eq!(number, None);
            gather
        }
        other => panic!("the successor is read from its first page: {:?}", other),
    };
    let step = gather_step(gather, bucket(1), GatherEvent::Page(Reply::Answer(page(&[5, 6, 7], None))));
    match step {
        GatherProgress::Finish(Ok(response)) => {
            assert_eq!(ids_of(&response), vec![3, 4, 5]);
            assert_eq!(response.next_page(), 2);
        }
        other => panic!("the page is filled: {:?}", other),
    }
}

#[test]
fn a_gathering_ends_with_the_chain() {
    let gather = Gather::new(None, 10);
    let step = gather_step(gather, bucket(0), GatherEvent::Page(Reply::Answer(page(&[0, 1], None))));
    let gather = match step {
        GatherProgress::AskSuccessor(gather, _) => gather,
        other => panic!("the bucket is read to its end: {:?}", other),
    };
    match gather_step(gather, bucket(0), GatherEvent::Successor(Reply::Answer(None))) {
        GatherProgress::Finish(Ok(response)) => {
            assert_eq!(ids_of(&response), vec![0, 1]);
            assert_eq!(response.next_page(), 1);
        }
        other => panic!("the chain has ended: {:?}", other),
    }
}

#[test]
fn a_page_of_no_width_is_gathered_at_once() {
    let gather = Gather::new(Some(u32::MAX), 0);
    match gather_step(gather, bucket(0), GatherEvent::Page(Reply::Answer(page(&[0, 1], Some(1))))) {
        GatherProgress::Finish(Ok(response)) => {
            assert!(response.transactions().is_empty());
            assert_eq!(response.next_page(), u32::MAX);
        }
        other => panic!("nothing is asked for: {:?}", other),
    }
}

#[test]
fn a_rejected_call_ends_the_gathering_with_what_came() {
    let rejected = GatherEvent::Page(Reply::Rejected(RejectionCode::SysFatal, String::from("x")));
    assert_eq!(
        gather_step(Gather::new(None, 4), bucket(0), rejected),
        GatherProgress::Finish(Err(GetTransactionsError::Unexpected(
            RejectionCode::SysFatal,
            String::from("x")
        )))
    );
    let rejected =
        GatherEvent::Successor(Reply::Rejected(RejectionCode::Unknown, String::from("y")));
    assert_eq!(
        gather_step(Gather::new(None, 4), bucket(0), rejected),
        GatherProgress::Finish(Err(GetTransactionsError::Unexpected(
            RejectionCode::Unknown,
            String::from("y")
        )))
    );
}
