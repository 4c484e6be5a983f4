//! A small token application on top of the client layer: it records what it
//! mints and what it transfers, and pays the fee of each write out of what the
//! caller sent along.

use vstd::prelude::*;
use crate::client::{Client, ClientView, client_insert};
use crate::env::CapEnvView;
use crate::event::{DetailValue, IndefiniteEvent, IndefiniteEventView, IntoEvent, build_event};
use crate::history::{History, HistoryView};
use crate::identity::{Identity, principal_from_text};
use crate::index::GetContractRootError;
use crate::transaction::{InsertTransactionError, accepted_payment};

verus! {

/// The fee of recording a mint.
pub const MINT_FEE: u64 = 2_000_000_000_000;

/// The fee of recording a transfer.
pub const TRANSFER_FEE: u64 = 1_000_000_000;

/// What the application hands over when it first asks for its root bucket.
pub const HANDSHAKE_CYCLES: u64 = 100_000_000_000;

/// The textual form of the principal that the application asks for its root
/// bucket.
pub const ROUTER_TEXT: &'static str = "rrkah-fqaaa-aaaaa-aaaaq-cai";

/// The state of the token application.
#[derive(Clone, Debug, PartialEq, Eq)]
pub struct Data {
    /// The id of the next token.
    pub next_id: u64,
    /// The root bucket of the application.
    pub cap_root: Identity,
    /// Who owns the application.
    pub owner: Identity,
}

impl Default for Data {
    /// The state before anything happened: no token yet, and the management
    /// authority in the place of the root bucket and of the owner.
    fn default() -> (d: Data)
        ensures
            d.next_id == 0,
            d.cap_root@ == Seq::<u8>::empty(),
            d.owner@ == Seq::<u8>::empty(),
    {
        Data { next_id: 0, cap_root: Identity::management(), owner: Identity::management() }
    }
}

/// Makes `caller` the owner of the application.
pub fn init(data: &mut Data, caller: Identity)
    ensures
        final(data).owner == caller,
        final(data).next_id == old(data).next_id,
        final(data).cap_root == old(data).cap_root,
{
    data.owner = caller;
}

/// The owner of the application.
pub fn get_owner(data: &Data) -> (r: &Identity)
    ensures
        *r == data.owner,
{
    &data.owner
}

/// Why the client layer of the application was not set up.
#[derive(Debug, PartialEq, Eq)]
pub enum SetupError {
    /// The text that names the router is no principal.
    RouterText,
    /// The application has no root bucket, and none could be made.
    Root(GetContractRootError),
}

/// What the application hands to the handshake.
#[derive(Clone, Debug, PartialEq, Eq)]
pub struct Handshake {
    /// The cycles that are handed over.
    pub cycles: u64,
    /// The router that is asked, in place of the one that the client layer
    /// would ask by itself.
    pub router: Identity,
}

/// What the application hands to the handshake: `HANDSHAKE_CYCLES`, and the
/// router that `ROUTER_TEXT` names. There is none where that text is no
/// principal.
pub open spec fn handshake_of() -> Option<(u64, Seq<u8>)> {
    match principal_from_text(ROUTER_TEXT@) {
        Some(router) => Some((HANDSHAKE_CYCLES, router)),
        None => None,
    }
}

/// What the application hands to the handshake.
pub fn handshake_request() -> (r: Option<Handshake>)
    ensures
        (match r {
            Some(request) => Some((request.cycles, request.router@)),
            None => None,
        }) == handshake_of(),
{
    match Identity::from_text(ROUTER_TEXT) {
        Some(router) => Some(Handshake { cycles: HANDSHAKE_CYCLES, router }),
        None => None,
    }
}

/// Sets up the client layer of `application` with one handshake: the cycles
/// and the router are those of [`handshake_request`], and the application gets
/// its root bucket, for which a chain is provisioned where there is none.
pub fn setup_cap(application: Identity, history: &mut History) -> (r: Result<Client, SetupError>)
    requires
        old(history).wf(),
    ensures
        final(history).wf(),
        match handshake_of() {
            None => final(history)@ == old(history)@ && r matches Err(SetupError::RouterText),
            Some((cycles, router)) => {
                &&& cycles == 100_000_000_000
                &&& final(history)@ == old(history)@.ensured(application@)
                &&& r is Ok <==> final(history)@.roots.contains_key(application@)
                &&& r matches Ok(client) ==> client@ == (ClientView {
                    application: application@,
                    index: router,
                    env: Some(
                        CapEnvView { root: final(history)@.roots[application@], index: router },
                    ),
                    cursor: 0,
                    handed: cycles,
                })
                &&& r matches Err(e) ==> old(history)@.provisioned(application@).1 is Err && e
                    == SetupError::Root(
                    GetContractRootError::Provision(
                        old(history)@.provisioned(application@).1->Err_0,
                    ),
                )
            },
        },
{
    let request = match handshake_request() {
        Some(request) => request,
        None => {
            return Err(SetupError::RouterText);
        },
    };
    let Handshake { cycles, router } = request;
    let mut client = Client::new(application, router);
    match client.handshake(history, cycles) {
        Ok(_) => Ok(client),
        Err(e) => Err(SetupError::Root(e)),
    }
}

/// What is recorded of a mint.
#[derive(Clone, Debug, PartialEq, Eq)]
pub struct MintDetails {
    pub owner: Identity,
    pub token_id: u64,
    pub cycles: u64,
}

impl IntoEvent for MintDetails {
    fn operation(&self) -> (r: &'static str)
        ensures
            r@ == ""@,
    {
        ""
    }

    /// A mint is recorded without detail fields.
    fn details(&self) -> (r: Vec<(String, DetailValue)>)
        ensures
            r@ == Seq::<(String, DetailValue)>::empty(),
    {
        Vec::new()
    }
}

/// What is recorded of a transfer.
#[derive(Clone, Debug, PartialEq, Eq)]
pub struct TransferDetails {
    pub to: Identity,
    pub token_id: u64,
}

impl IntoEvent for TransferDetails {
    fn operation(&self) -> (r: &'static str)
        ensures
            r@ == ""@,
    {
        ""
    }

    /// A transfer is recorded without detail fields.
    fn details(&self) -> (r: Vec<(String, DetailValue)>)
        ensures
            r@ == Seq::<(String, DetailValue)>::empty(),
    {
        Vec::new()
    }
}

/// Why a mint or a transfer was not recorded.
#[derive(Debug, PartialEq, Eq)]
pub enum TokenError {
    /// There is no token id left to give out.
    IdsExhausted,
    /// The client layer did not write the event: the payment does not cover
    /// the fee, the store does not take the write, or the call was rejected.
    Insert(InsertTransactionError),
}

/// What the application asks of the client layer for one mint or transfer.
#[derive(Debug, PartialEq, Eq)]
pub struct Prepared {
    /// The event to write.
    pub event: IndefiniteEvent,
    /// The fee of the write.
    pub fee: u64,
    /// The payment to accept: all that the caller sent along.
    pub accepted: u64,
}

/// What a mint or a transfer that was recorded gives back.
#[derive(Clone, Copy, Debug, PartialEq, Eq)]
pub struct Recorded {
    /// The sequence id of the event.
    pub id: u64,
    /// The payment that was accepted.
    pub accepted: u64,
}

/// The event that a mint or a transfer records: the operation by its name,
/// submitted by `caller`, without detail fields.
pub open spec fn token_event(caller: Seq<u8>, operation: Seq<char>) -> IndefiniteEventView {
    IndefiniteEventView { caller, operation, details: Seq::empty() }
}

/// Why nothing is asked of the client layer, if so: a payment under the fee
/// is a `CantWrite`, and it is looked at first; then a token id must be left.
pub open spec fn refusal(next_id: u64, fee: u64, available: u64) -> Option<TokenError> {
    if available < fee {
        Some(TokenError::Insert(InsertTransactionError::CantWrite))
    } else if next_id == u64::MAX {
        Some(TokenError::IdsExhausted)
    } else {
        None
    }
}

/// Counts one more token, where a token id is left: the counter goes up by
/// exactly one.
pub fn count_token(data: &mut Data) -> (counted: bool)
    ensures
        counted == (old(data).next_id < u64::MAX),
        counted ==> final(data).next_id == old(data).next_id + 1,
        !counted ==> final(data).next_id == old(data).next_id,
        final(data).owner == old(data).owner,
        final(data).cap_root == old(data).cap_root,
{
    if data.next_id < u64::MAX {
        data.next_id = data.next_id + 1;
        true
    } else {
        false
    }
}

/// What is asked of the client layer to record the operation `operation` with
/// the detail fields `details`, for a fee of `fee` with `available` at hand:
/// one event, submitted by `caller`, and all of the payment to accept. Nothing
/// is asked where the payment is under the fee or no token id is left.
pub fn prepare(
    data: &Data,
    caller: Identity,
    operation: &str,
    details: Vec<(String, DetailValue)>,
    fee: u64,
    available: u64,
) -> (r: Result<Prepared, TokenError>)
    ensures
        match refusal(data.next_id, fee, available) {
            Some(e) => r == Err::<Prepared, TokenError>(e),
            None => r is Ok && r->Ok_0.event.caller == caller && r->Ok_0.event.operation@
                == operation@ && r->Ok_0.event.details == details && r->Ok_0.fee == fee
                && r->Ok_0.accepted == available,
        },
{
    let accepted = match accepted_payment(available, fee) {
        Some(amount) => amount,
        None => {
            return Err(TokenError::Insert(InsertTransactionError::CantWrite));
        },
    };
    if data.next_id == u64::MAX {
        return Err(TokenError::IdsExhausted);
    }
    Ok(Prepared { event: build_event(caller, operation, details), fee, accepted })
}

/// What is asked of the client layer to record the mint of the next token for
/// `owner`: the event `mint`, submitted by `caller`, with the detail fields
/// that a mint has.
pub fn prepare_mint(data: &Data, caller: Identity, owner: Identity, available: u64) -> (r: Result<
    Prepared,
    TokenError,
>)
    ensures
        match refusal(data.next_id, MINT_FEE, available) {
            Some(e) => r == Err::<Prepared, TokenError>(e),
            None => r is Ok && r->Ok_0.event@ == token_event(caller@, "mint"@) && r->Ok_0.fee
                == MINT_FEE && r->Ok_0.accepted == available,
        },
{
    let details = MintDetails { owner, token_id: data.next_id, cycles: available };
    let fields = details.details();
    let r = prepare(data, caller, "mint", fields, MINT_FEE, available);
    proof {
        if r is Ok {
            assert(r->Ok_0.event@.details =~= Seq::empty());
        }
    }
    r
}

/// What is asked of the client layer to record the transfer of the next token
/// to `new_owner`: the event `transfer`, submitted by `caller`, with the detail
/// fields that a transfer has.
pub fn prepare_transfer(data: &Data, caller: Identity, new_owner: Identity, available: u64) -> (r:
    Result<Prepared, TokenError>)
    ensures
        match refusal(data.next_id, TRANSFER_FEE, available) {
            Some(e) => r == Err::<Prepared, TokenError>(e),
            None => r is Ok && r->Ok_0.event@ == token_event(caller@, "transfer"@) && r->Ok_0.fee
                == TRANSFER_FEE && r->Ok_0.accepted == available,
        },
{
    let details = TransferDetails { to: new_owner, token_id: data.next_id };
    let fields = details.details();
    let r = prepare(data, caller, "transfer", fields, TRANSFER_FEE, available);
    proof {
        if r is Ok {
            assert(r->Ok_0.event@.details =~= Seq::empty());
        }
    }
    r
}

/// What the application makes of the outcome of the write. An event that was
/// written counts one token, and the payment is accepted; an error of the
/// client layer is handed on as it came, a rejected call with its code and
/// its message, and nothing is counted or tried again.
pub fn settle(data: &mut Data, accepted: u64, outcome: Result<u64, InsertTransactionError>) -> (r:
    Result<Recorded, TokenError>)
    ensures
        r == (match outcome {
            Ok(id) => Ok::<Recorded, TokenError>(Recorded { id, accepted }),
            Err(e) => Err(TokenError::Insert(e)),
        }),
        final(data).next_id == (if outcome is Ok && old(data).next_id < u64::MAX {
            (old(data).next_id + 1) as u64
        } else {
            old(data).next_id
        }),
        final(data).owner == old(data).owner,
        final(data).cap_root == old(data).cap_root,
{
    match outcome {
        Ok(id) => {
            let _ = count_token(data);
            Ok(Recorded { id, accepted })
        },
        Err(e) => Err(TokenError::Insert(e)),
    }
}

/// The application's rule for recording an event for the next token. Nothing
/// happens where the payment is under the fee, which is a `CantWrite`, or
/// where no token id is left. Otherwise the client layer writes the event
/// against the fee; if it was written, the counter goes up by one and all of
/// the payment is accepted.
pub open spec fn recorded(
    next_id: u64,
    h: HistoryView,
    application: Seq<u8>,
    event: IndefiniteEventView,
    fee: u64,
    available: u64,
    now: u64,
) -> (u64, HistoryView, Result<Recorded, TokenError>) {
    match refusal(next_id, fee, available) {
        Some(e) => (next_id, h, Err(e)),
        None => {
            let (after, outcome) = client_insert(h, application, event, fee, available, now);
            match outcome {
                Ok(id) => ((next_id + 1) as u64, after, Ok(Recorded { id, accepted: available })),
                Err(e) => (next_id, after, Err(TokenError::Insert(e))),
            }
        },
    }
}

/// Writes what was prepared through the client layer, and settles.
fn record(
    data: &mut Data,
    client: &mut Client,
    history: &mut History,
    prepared: Prepared,
    available: u64,
    now: u64,
) -> (r: Result<Recorded, TokenError>)
    requires
        old(history).wf(),
        refusal(old(data).next_id, prepared.fee, available) is None,
        prepared.accepted == available,
    ensures
        final(history).wf(),
        final(client)@.application == old(client)@.application,
        recorded(
            old(data).next_id,
            old(history)@,
            old(client)@.application,
            prepared.event@,
            prepared.fee,
            available,
            now,
        ) == (final(data).next_id, final(history)@, r),
        final(data).owner == old(data).owner,
        final(data).cap_root == old(data).cap_root,
{
    let Prepared { event, fee, accepted } = prepared;
    let outcome = client.insert_event(history, event, fee, available, now);
    settle(data, accepted, outcome)
}

/// Records the mint of the next token for `owner`, asked for by `caller` with
/// `available` at hand: one event `mint` goes to the client layer, and the
/// answer holds its sequence id and the payment that was accepted.
pub fn mint(
    data: &mut Data,
    client: &mut Client,
    history: &mut History,
    caller: Identity,
    owner: Identity,
    available: u64,
    now: u64,
) -> (r: Result<Recorded, TokenError>)
    requires
        old(history).wf(),
    ensures
        final(history).wf(),
        final(client)@.application == old(client)@.application,
        recorded(
            old(data).next_id,
            old(history)@,
            old(client)@.application,
            token_event(caller@, "mint"@),
            MINT_FEE,
            available,
            now,
        ) == (final(data).next_id, final(history)@, r),
        final(data).owner == old(data).owner,
        final(data).cap_root == old(data).cap_root,
{
    match prepare_mint(data, caller, owner, available) {
        Ok(prepared) => record(data, client, history, prepared, available, now),
        Err(e) => Err(e),
    }
}

/// Records the transfer of the next token to `new_owner`, asked for by
/// `caller` with `available` at hand: one event `transfer` goes to the client
/// layer, and the answer holds its sequence id and the payment that was
/// accepted.
pub fn transfer(
    data: &mut Data,
    client: &mut Client,
    history: &mut History,
    caller: Identity,
    new_owner: Identity,
    available: u64,
    now: u64,
) -> (r: Result<Recorded, TokenError>)
    requires
        old(history).wf(),
    ensures
        final(history).wf(),
        final(client)@.application == old(client)@.application,
        recorded(
            old(data).next_id,
            old(history)@,
            old(client)@.application,
            token_event(caller@, "transfer"@),
            TRANSFER_FEE,
            available,
            now,
        ) == (final(data).next_id, final(history)@, r),
        final(data).owner == old(data).owner,
        final(data).cap_root == old(data).cap_root,
{
    match prepare_transfer(data, caller, new_owner, available) {
        Ok(prepared) => record(data, client, history, prepared, available, now),
        Err(e) => Err(e),
    }
}

/// A mint or a transfer with at least the fee at hand and a token id left is
/// handed to the client layer, and is recorded exactly when the client layer
/// writes it: then the log of the application grows by the one event, the
/// counter goes up by one and all of the payment is accepted. With less than
/// the fee at hand it fails with `CantWrite`, and nothing changes.
pub proof fn law_fee_decides(
    next_id: u64,
    h: HistoryView,
    application: Seq<u8>,
    event: IndefiniteEventView,
    fee: u64,
    available: u64,
    now: u64,
)
    requires
        h.wf(),
    ensures
        ({
            let (counter, after, r) = recorded(next_id, h, application, event, fee, available, now);
            let written = client_insert(h, application, event, fee, available, now);
            &&& available < fee ==> r == Err::<Recorded, TokenError>(
                TokenError::Insert(InsertTransactionError::CantWrite),
            ) && after == h && counter == next_id
            &&& available >= fee && next_id < u64::MAX ==> after == written.0 && (r is Ok
                <==> written.1 is Ok)
            &&& r matches Ok(done) ==> {
                &&& done.accepted == available
                &&& available >= fee
                &&& counter == next_id + 1
                &&& done.id == h.log(application).len()
                &&& after.log(application).len() == done.id + 1
                &&& after.log(application)[done.id as int].indefinite() == event
            }
            &&& r is Err ==> counter == next_id && after.log(application) == h.log(application)
        }),
{
    crate::client::law_client_insert(h, application, event, fee, available, now);
}

} // verus!
