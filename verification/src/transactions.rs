//! Pages of transactions as the client layer hands them out.

use vstd::prelude::*;
use ic_kit::RejectionCode;
use crate::event::{Event, EventView, events_view};

verus! {

/// A stored event, as the client layer calls it.
pub type Transaction = Event;

/// The answer to a question for a page of transactions.
#[derive(Clone, Debug, PartialEq, Eq)]
pub struct GetTransactionsResponse {
    transactions: Vec<Transaction>,
    next_page: u32,
}

/// The mathematical value of a [`GetTransactionsResponse`].
pub struct GetTransactionsResponseView {
    pub transactions: Seq<EventView>,
    pub next_page: u32,
}

impl View for GetTransactionsResponse {
    type V = GetTransactionsResponseView;

    closed spec fn view(&self) -> GetTransactionsResponseView {
        GetTransactionsResponseView {
            transactions: events_view(self.transactions@),
            next_page: self.next_page,
        }
    }
}

impl GetTransactionsResponse {
    /// The answer that holds `transactions` and names `next_page` as the page
    /// to ask for next.
    pub fn new(transactions: Vec<Transaction>, next_page: u32) -> (r: GetTransactionsResponse)
        ensures
            r@ == (GetTransactionsResponseView {
                transactions: events_view(transactions@),
                next_page,
            }),
    {
        GetTransactionsResponse { transactions, next_page }
    }

    /// The transactions of this answer, oldest first.
    #[inline(always)]
    pub fn transactions(&self) -> (r: &Vec<Transaction>)
        ensures
            events_view(r@) == self@.transactions,
    {
        &self.transactions
    }

    /// The number of the page to ask for next.
    #[inline(always)]
    pub fn next_page(&self) -> (r: u32)
        ensures
            r == self@.next_page,
    {
        self.next_page
    }

    /// The transactions of this answer, without the answer around them.
    #[inline(always)]
    pub fn into_transactions(self) -> (r: Vec<Transaction>)
        ensures
            events_view(r@) == self@.transactions,
    {
        self.into()
    }
}

/// The page that follows page `page`: the last page follows itself.
pub open spec fn page_after(page: u32) -> u32 {
    if page < u32::MAX {
        (page + 1) as u32
    } else {
        page
    }
}

impl From<GetTransactionsResponse> for Vec<Transaction> {
    fn from(response: GetTransactionsResponse) -> (r: Vec<Transaction>)
        ensures
            events_view(r@) == response@.transactions,
    {
        response.transactions
    }
}

impl vstd::std_specs::convert::FromSpecImpl<GetTransactionsResponse> for Vec<Transaction> {
    open spec fn obeys_from_spec() -> bool {
        true
    }

    closed spec fn from_spec(response: GetTransactionsResponse) -> Vec<Transaction> {
        response.transactions
    }
}

/// A way to say which page is asked for: a page number, no page number (the
/// first page), or the answer to the question before (the page it names as
/// the next).
pub trait AsTransactionsPage: Copy + Sized {
    fn page(self) -> Option<u32>;
}

impl AsTransactionsPage for Option<u32> {
    fn page(self) -> (r: Option<u32>)
        ensures
            r == self,
    {
        self
    }
}

impl AsTransactionsPage for &GetTransactionsResponse {
    fn page(self) -> (r: Option<u32>)
        ensures
            r == Some(self@.next_page),
    {
        Some(self.next_page)
    }
}

/// Why a page of transactions was not handed out.
#[derive(Debug, PartialEq, Eq)]
pub enum GetTransactionsError {
    /// The bucket rejected the call for an unexpected reason.
    Unexpected(RejectionCode, String),
    /// The application has no log to read from.
    InvalidId,
}

impl GetTransactionsError {
    /// What the error says, in words.
    pub fn message(&self) -> (r: String)
        ensures
            r@ == (match self {
                GetTransactionsError::Unexpected(_, _) => "the query was rejected"@,
                GetTransactionsError::InvalidId => "no transaction found with the given id"@,
            }),
    {
        match self {
            GetTransactionsError::Unexpected(_, _) => "the query was rejected".to_owned(),
            GetTransactionsError::InvalidId => "no transaction found with the given id".to_owned(),
        }
    }
}

} // verus!
