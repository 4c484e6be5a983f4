//! Single transactions as the client layer writes and reads them: its errors,
//! and what it makes of the answers of a bucket.

use vstd::prelude::*;
use ic_kit::RejectionCode;
use crate::bucket::{InsertError, QueryError};

verus! {

/// Why a transaction was not found.
#[derive(Debug, PartialEq, Eq)]
pub enum GetTransactionError {
    /// The bucket rejected the call for an unexpected reason.
    Unexpected(RejectionCode, String),
    /// No bucket of the chain holds a transaction with the given id.
    InvalidId,
}

/// Why a transaction was not written.
#[derive(Debug, PartialEq, Eq)]
pub enum InsertTransactionError {
    /// The bucket rejected the call for an unexpected reason.
    Unexpected(RejectionCode, String),
    /// The bucket does not accept writes from the caller, or the payment that
    /// came with the call does not cover the fee.
    CantWrite,
    /// No transaction was found with the given id.
    InvalidId,
}

impl GetTransactionError {
    /// What the error says, in words.
    pub fn message(&self) -> (r: String)
        ensures
            r@ == (match self {
                GetTransactionError::Unexpected(_, _) => "the query was rejected"@,
                GetTransactionError::InvalidId => "no transaction found with the given id"@,
            }),
    {
        match self {
            GetTransactionError::Unexpected(_, _) => "the query was rejected".to_owned(),
            GetTransactionError::InvalidId => "no transaction found with the given id".to_owned(),
        }
    }
}

impl InsertTransactionError {
    /// What the error says, in words.
    pub fn message(&self) -> (r: String)
        ensures
            r@ == (match self {
                InsertTransactionError::Unexpected(_, _) => "the query was rejected"@,
                InsertTransactionError::CantWrite =>
                    "the root canister does not accept writes from this canister"@,
                InsertTransactionError::InvalidId => "no transaction found with the given id"@,
            }),
    {
        match self {
            InsertTransactionError::Unexpected(_, _) => "the query was rejected".to_owned(),
            InsertTransactionError::CantWrite =>
                "the root canister does not accept writes from this canister".to_owned(),
            InsertTransactionError::InvalidId => "no transaction found with the given id".to_owned(),
        }
    }
}

/// What came back from a call to a bucket: its answer, or the rejection of
/// the call with the code and the message of the transport.
#[derive(Debug, PartialEq, Eq)]
pub enum Reply<T> {
    Answer(T),
    Rejected(RejectionCode, String),
}

/// What the client layer makes of the reply to an insert: a rejection of the
/// call is handed on as it came; a bucket that does not take the event is a
/// `CantWrite`.
pub fn insert_outcome(reply: Reply<Result<u64, InsertError>>) -> (r: Result<
    u64,
    InsertTransactionError,
>)
    ensures
        r == (match reply {
            Reply::Answer(Ok(id)) => Ok::<u64, InsertTransactionError>(id),
            Reply::Answer(Err(InsertError::CantWrite)) => Err(InsertTransactionError::CantWrite),
            Reply::Rejected(code, message) => Err(
                InsertTransactionError::Unexpected(code, message),
            ),
        }),
{
    match reply {
        Reply::Answer(Ok(id)) => Ok(id),
        Reply::Answer(Err(InsertError::CantWrite)) => Err(InsertTransactionError::CantWrite),
        Reply::Rejected(code, message) => Err(InsertTransactionError::Unexpected(code, message)),
    }
}

/// What the client layer makes of the reply to a lookup in one bucket, while
/// it walks a chain: `None` says that this bucket does not hold the event, and
/// that the walk goes on with its successor.
pub fn lookup_outcome<T>(reply: Reply<Result<T, QueryError>>) -> (r: Option<
    Result<T, GetTransactionError>,
>)
    ensures
        r == (match reply {
            Reply::Answer(Ok(event)) => Some(Ok::<T, GetTransactionError>(event)),
            Reply::Answer(Err(QueryError::InvalidId)) => None,
            Reply::Rejected(code, message) => Some(
                Err(GetTransactionError::Unexpected(code, message)),
            ),
        }),
{
    match reply {
        Reply::Answer(Ok(event)) => Some(Ok(event)),
        Reply::Answer(Err(QueryError::InvalidId)) => None,
        Reply::Rejected(code, message) => Some(Err(GetTransactionError::Unexpected(code, message))),
    }
}

/// The payment that the client layer accepts for a write that costs `fee`,
/// where the caller made `available` at hand: all of it, if it covers the
/// fee, and none otherwise.
pub fn accepted_payment(available: u64, fee: u64) -> (r: Option<u64>)
    ensures
        r == (if available >= fee {
            Some(available)
        } else {
            None
        }),
{
    if available >= fee {
        Some(available)
    } else {
        None
    }
}

} // verus!
