use cap_history::bucket::{InsertError, QueryError};
use cap_history::env::{CapEnv, EnvSlot};
use cap_history::event::{build_event, Event};
use cap_history::identity::Identity;
use cap_history::index::{GetContractRootError, Index};
use cap_history::transaction::{
    accepted_payment, insert_outcome, lookup_outcome, GetTransactionError,
    InsertTransactionError, Reply,
};
use cap_history::transactions::{AsTransactionsPage, GetTransactionsError, GetTransactionsResponse};
use ic_kit::RejectionCode;

fn stored(id: u64) -> Event {
    build_event(Identity::new(vec![7]), "op", Vec::new()).into_event(id, id, id)
}

#[test]
fn a_response_hands_out_what_it_holds() {
    let response = GetTransactionsResponse::new(vec![stored(0), stored(1)], 3);
    assert_eq!(response.transactions(), &vec![stored(0), stored(1)]);
    assert_eq!(response.next_page(), 3);
    assert_eq!(response.clone().into_transactions(), vec![stored(0), stored(1)]);
    let converted: Vec<Event> = response.into();
    assert_eq!(converted, vec![stored(0), stored(1)]);
    let empty = GetTransactionsResponse::new(Vec::new(), 0);
    assert!(empty.transactions().is_empty());
    assert_eq!(empty.next_page(), 0);
    assert!(empty.into_transactions().is_empty());
}

#[test]
fn a_page_is_named_by_a_number_or_by_the_answer_before() {
    assert_eq!(Some(4u32).page(), Some(4));
    assert_eq!(None::<u32>.page(), None);
    let response = GetTransactionsResponse::new(vec![stored(0)], 9);
    assert_eq!((&response).page(), Some(9));
}

#[test]
fn errors_say_what_went_wrong() {
    let rejected = "the query was rejected";
    let invalid = "no transaction found with the given id";
    assert_eq!(
        GetTransactionError::Unexpected(RejectionCode::SysFatal, String::from("x")).message(),
        rejected
    );
    assert_eq!(GetTransactionError::InvalidId.message(), invalid);
    assert_eq!(
        InsertTransactionError::Unexpected(RejectionCode::SysFatal, String::from("x")).message(),
        rejected
    );
    assert_eq!(
        InsertTransactionError::CantWrite.message(),
        "the root canister does not accept writes from this canister"
    );
    assert_eq!(InsertTransactionError::InvalidId.message(), invalid);
    assert_eq!(
        GetTransactionsError::Unexpected(RejectionCode::SysFatal, String::from("x")).message(),
        rejected
    );
    assert_eq!(GetTransactionsError::InvalidId.message(), invalid);
}

#[test]
fn the_reply_to_an_insert_becomes_the_clients_answer() {
    assert_eq!(insert_outcome(Reply::Answer(Ok(12))), Ok(12));
    assert_eq!(
        insert_outcome(Reply::Answer(Err(InsertError::CantWrite))),
        Err(InsertTransactionError::CantWrite)
    );
    assert_eq!(
        insert_outcome(Reply::Rejected(RejectionCode::CanisterReject, String::from("no"))),
        Err(InsertTransactionError::Unexpected(RejectionCode::CanisterReject, String::from("no")))
    );
}

#[test]
fn the_reply_to_a_lookup_says_whether_the_walk_goes_on() {
    assert_eq!(lookup_outcome(Reply::Answer(Ok(stored(3)))), Some(Ok(stored(3))));
    assert_eq!(lookup_outcome::<Event>(Reply::Answer(Err(QueryError::InvalidId))), None);
    assert_eq!(
        lookup_outcome::<Event>(Reply::Rejected(RejectionCode::DestinationInvalid, String::from("gone"))),
        Some(Err(GetTransactionError::Unexpected(
            RejectionCode::DestinationInvalid,
            String::from("gone")
        )))
    );
}

#[test]
fn all_of_a_sufficient_payment_is_accepted() {
    assert_eq!(accepted_payment(10, 10), Some(10));
    assert_eq!(accepted_payment(11, 10), Some(11));
    assert_eq!(accepted_payment(9, 10), None);
    assert_eq!(accepted_payment(0, 0), Some(0));
    assert_eq!(accepted_payment(u64::MAX, 1), Some(u64::MAX));
    assert_eq!(accepted_payment(0, u64::MAX), None);
}

#[test]
fn an_environment_comes_from_what_the_index_knows() {
    let mut index = Index::new();
    let app = Identity::new(vec![1]);
    let index_id = Identity::new(vec![2]);
    assert_eq!(
        CapEnv::create(index_id.clone(), &index, &app),
        Err(GetContractRootError::NotFound)
    );
    index.record(&app, &Identity::new(vec![3]));
    let env = CapEnv::create(index_id.clone(), &index, &app).unwrap();
    assert_eq!(env.root(), &Identity::new(vec![3]));
    assert_eq!(env.index(), &index_id);
    assert_eq!(env, CapEnv::new(Identity::new(vec![3]), index_id));
    assert_eq!(env.duplicate(), env);
}

#[test]
fn an_environment_is_stored_and_archived() {
    let env = CapEnv::new(Identity::new(vec![3]), Identity::new(vec![2]));
    let other = CapEnv::new(Identity::new(vec![4]), Identity::new(vec![2]));
    let index = Index::new();
    let app = Identity::new(vec![1]);
    let mut slot = EnvSlot::new();
    assert!(slot.cached().is_none());
    env.store(&mut slot);
    assert_eq!(slot.cached(), Some(&env));
    assert_eq!(CapEnv::get(&mut slot, Identity::new(vec![9]), &index, &app), Ok(&env));
    assert_eq!(CapEnv::to_archive(&mut slot, Identity::new(vec![9]), &index, &app), Ok(env));
    CapEnv::load_from_archive(&mut slot, other.clone());
    assert_eq!(CapEnv::get(&mut slot, Identity::new(vec![9]), &index, &app), Ok(&other));
    assert_eq!(CapEnv::to_archive(&mut slot, Identity::new(vec![9]), &index, &app), Ok(other));
}

#[test]
fn a_cold_start_rebuilds_the_environment_from_the_index() {
    let mut index = Index::new();
    let app = Identity::new(vec![1]);
    let index_id = Identity::new(vec![2]);
    let mut slot = EnvSlot::new();
    assert_eq!(
        CapEnv::get(&mut slot, index_id.clone(), &index, &app),
        Err(GetContractRootError::NotFound)
    );
    assert!(slot.cached().is_none());
    assert_eq!(
        CapEnv::to_archive(&mut slot, index_id.clone(), &index, &app),
        Err(GetContractRootError::NotFound)
    );
    index.record(&app, &Identity::new(vec![3]));
    let rebuilt = CapEnv::new(Identity::new(vec![3]), index_id.clone());
    assert_eq!(CapEnv::get(&mut slot, index_id.clone(), &index, &app), Ok(&rebuilt));
    assert_eq!(slot.cached(), Some(&rebuilt));
    let empty = Index::new();
    assert_eq!(CapEnv::get(&mut slot, Identity::new(vec![8]), &empty, &app), Ok(&rebuilt));
    assert_eq!(CapEnv::to_archive(&mut slot, Identity::new(vec![8]), &empty, &app), Ok(rebuilt));
    let mut fresh = EnvSlot::new();
    let archived = CapEnv::to_archive(&mut fresh, index_id.clone(), &index, &app).unwrap();
    assert_eq!(archived.root(), &Identity::new(vec![3]));
    assert_eq!(fresh.cached(), Some(&archived));
}
