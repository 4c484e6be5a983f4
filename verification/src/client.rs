//! The client layer: what runs inside an application. It checks the fee of a
//! write, finds the application's chain (and has one provisioned on first
//! use), keeps a copy of the binding, remembers which bucket it wrote to
//! last, and reads across bucket boundaries.

use vstd::prelude::*;
use crate::env::{CapEnv, CapEnvView, EnvSlot};
use crate::event::{
    Event,
    IndefiniteEvent,
    IndefiniteEventView,
    IntoEvent,
    described_by,
    event_from_source,
};
use crate::history::{
    History,
    HistoryView,
    law_boundary,
    law_grow_keeps_invariant,
    law_provision_keeps_invariant,
    law_write_keeps_invariant,
    usable,
};
use crate::identity::Identity;
use crate::index::GetContractRootError;
use crate::transaction::{GetTransactionError, InsertTransactionError};
use crate::transactions::{
    AsTransactionsPage,
    GetTransactionsError,
    GetTransactionsResponse,
    GetTransactionsResponseView,
    page_after,
};

verus! {

/// The client's rule for a write that costs `fee`, with `available` at hand.
/// A payment under the fee fails the write and changes nothing. Otherwise the
/// application gets a chain if it has none and one can be provisioned, its
/// chain gets the chance to grow, and the event is written if the chain then
/// takes it, under the next sequence id of the application's log; a bucket
/// that the event fills gets its successor at once where that can be done.
pub open spec fn client_insert(
    h: HistoryView,
    application: Seq<u8>,
    event: IndefiniteEventView,
    fee: u64,
    available: u64,
    now: u64,
) -> (HistoryView, Result<u64, InsertTransactionError>) {
    if available < fee {
        (h, Err(InsertTransactionError::CantWrite))
    } else {
        let ready = h.ensured(application).grown(application);
        if ready.writable(application) {
            (ready.written(application, event, now), Ok(ready.log(application).len() as u64))
        } else {
            (ready, Err(InsertTransactionError::CantWrite))
        }
    }
}

/// The client's rule for a question for a page of `width` events: the first
/// page where the question names none. An application without a chain has
/// nothing to read from.
pub open spec fn client_page(
    h: HistoryView,
    application: Seq<u8>,
    page: Option<u32>,
    width: u64,
) -> Result<GetTransactionsResponseView, GetTransactionsError> {
    let p = match page {
        Some(p) => p,
        None => 0,
    };
    if h.chains.contains_key(application) {
        Ok(
            GetTransactionsResponseView {
                transactions: h.page(application, p, width),
                next_page: page_after(p),
            },
        )
    } else {
        Err(GetTransactionsError::InvalidId)
    }
}

/// The client layer of one application.
#[derive(Debug)]
pub struct Client {
    application: Identity,
    index: Identity,
    slot: EnvSlot,
    cursor: usize,
    handed: u64,
}

/// The mathematical value of a [`Client`].
pub struct ClientView {
    /// The application that the client layer runs in.
    pub application: Seq<u8>,
    /// The index that it asks for its root bucket.
    pub index: Seq<u8>,
    /// The binding that it holds.
    pub env: Option<CapEnvView>,
    /// The bucket of the chain that it writes to first.
    pub cursor: nat,
    /// The cycles that it handed over with its last handshake.
    pub handed: u64,
}

impl View for Client {
    type V = ClientView;

    closed spec fn view(&self) -> ClientView {
        ClientView {
            application: self.application@,
            index: self.index@,
            env: self.slot@,
            cursor: self.cursor as nat,
            handed: self.handed,
        }
    }
}

impl Client {
    /// The client layer of `application`, which asks the index with the
    /// identity `index` for its root bucket. It knows no binding yet, and has
    /// handed over nothing.
    pub fn new(application: Identity, index: Identity) -> (c: Client)
        ensures
            c@ == (ClientView {
                application: application@,
                index: index@,
                env: None,
                cursor: 0,
                handed: 0,
            }),
    {
        Client { application, index, slot: EnvSlot::new(), cursor: 0, handed: 0 }
    }

    /// The cycles that the client layer handed over with its last handshake.
    pub fn handed(&self) -> (r: u64)
        ensures
            r == self@.handed,
    {
        self.handed
    }

    /// The application that the client layer runs in.
    pub fn application(&self) -> (r: &Identity)
        ensures
            r@ == self@.application,
    {
        &self.application
    }

    /// The place in which the client layer keeps its binding.
    pub fn slot(&self) -> (r: &EnvSlot)
        ensures
            r@ == self@.env,
    {
        &self.slot
    }

    /// The bucket of the chain that the client layer writes to first.
    pub fn cursor(&self) -> (r: usize)
        ensures
            r == self@.cursor,
    {
        self.cursor
    }

    /// Puts `env` in place as the binding, as after an upgrade.
    pub fn restore(&mut self, env: CapEnv)
        ensures
            final(self)@ == (ClientView { env: Some(env@), ..old(self)@ }),
    {
        CapEnv::load_from_archive(&mut self.slot, env);
    }

    /// The handshake: hands `cycles` over to the index, makes sure that the
    /// application has a chain, and remembers its root bucket. A chain is
    /// provisioned where there is none.
    pub fn handshake(&mut self, history: &mut History, cycles: u64) -> (r: Result<
        (),
        GetContractRootError,
    >)
        requires
            old(history).wf(),
        ensures
            final(history).wf(),
            final(history)@ == old(history)@.ensured(old(self)@.application),
            final(self)@.application == old(self)@.application,
            final(self)@.index == old(self)@.index,
            final(self)@.cursor == old(self)@.cursor,
            final(self)@.handed == cycles,
            r is Ok <==> final(history)@.roots.contains_key(old(self)@.application),
            r is Ok ==> final(self)@.env == Some(
                CapEnvView {
                    root: final(history)@.roots[old(self)@.application],
                    index: old(self)@.index,
                },
            ),
            r is Err ==> final(self)@.env == old(self)@.env,
            r matches Err(e) ==> old(history)@.provisioned(old(self)@.application).1 is Err && e
                == GetContractRootError::Provision(
                old(history)@.provisioned(old(self)@.application).1->Err_0,
            ),
    {
        self.handed = cycles;
        self.bind(history)
    }

    /// Makes sure that the application has a chain, and remembers its root
    /// bucket. A chain is provisioned where there is none.
    fn bind(&mut self, history: &mut History) -> (r: Result<(), GetContractRootError>)
        requires
            old(history).wf(),
        ensures
            final(history).wf(),
            final(history)@ == old(history)@.ensured(old(self)@.application),
            final(self)@.application == old(self)@.application,
            final(self)@.index == old(self)@.index,
            final(self)@.cursor == old(self)@.cursor,
            final(self)@.handed == old(self)@.handed,
            r is Ok <==> final(history)@.roots.contains_key(old(self)@.application),
            r is Ok ==> final(self)@.env == Some(
                CapEnvView {
                    root: final(history)@.roots[old(self)@.application],
                    index: old(self)@.index,
                },
            ),
            r is Err ==> final(self)@.env == old(self)@.env,
            r matches Err(e) ==> old(history)@.provisioned(old(self)@.application).1 is Err && e
                == GetContractRootError::Provision(
                old(history)@.provisioned(old(self)@.application).1->Err_0,
            ),
    {
        match history.get_token_contract_root_bucket(&self.application, true) {
            Ok(root) => {
                let env = CapEnv::new(root, self.index.duplicate());
                env.store(&mut self.slot);
                Ok(())
            },
            Err(e) => Err(e),
        }
    }

    /// Writes the event that `source` describes, submitted by `caller`, for a
    /// fee of `fee` with `available` at hand. See [`Client::insert_event`].
    pub fn insert<T: IntoEvent>(
        &mut self,
        history: &mut History,
        caller: Identity,
        source: &T,
        fee: u64,
        available: u64,
        now: u64,
    ) -> (r: Result<u64, InsertTransactionError>)
        requires
            old(history).wf(),
        ensures
            final(history).wf(),
            final(self)@.application == old(self)@.application,
            available < fee ==> r == Err::<u64, InsertTransactionError>(
                InsertTransactionError::CantWrite,
            ) && final(history)@ == old(history)@,
            forall|a: Seq<u8>|
                a != old(self)@.application ==> final(history)@.log(a) == old(history)@.log(a),
            r matches Ok(id) ==> {
                let log = final(history)@.log(old(self)@.application);
                &&& id == old(history)@.log(old(self)@.application).len()
                &&& log.len() == id + 1
                &&& log.subrange(0, id as int) == old(history)@.log(old(self)@.application)
                &&& log[id as int].caller == caller@
                &&& log[id as int].time == now
            },
            r is Err ==> final(history)@.log(old(self)@.application) == old(history)@.log(
                old(self)@.application,
            ),
            exists|event: IndefiniteEvent|
                #[trigger] described_by(source, caller, event) && (final(history)@, r)
                    == client_insert(
                    old(history)@,
                    old(self)@.application,
                    event@,
                    fee,
                    available,
                    now,
                ),
    {
        let event = event_from_source(caller, source);
        proof {
            law_client_insert(history@, self@.application, event@, fee, available, now);
        }
        self.insert_event(history, event, fee, available, now)
    }

    /// Writes `event` for a fee of `fee`, with `available` at hand, and
    /// returns the sequence id it got. The write is first tried on the bucket
    /// that the client layer wrote to last; where that bucket does not take
    /// it, the chain is resolved once more, which lets it grow, and the write
    /// is tried once on its last bucket. Afterwards the client layer
    /// remembers the bucket that took the event.
    pub fn insert_event(
        &mut self,
        history: &mut History,
        event: IndefiniteEvent,
        fee: u64,
        available: u64,
        now: u64,
    ) -> (r: Result<u64, InsertTransactionError>)
        requires
            old(history).wf(),
        ensures
            final(history).wf(),
            (final(history)@, r) == client_insert(
                old(history)@,
                old(self)@.application,
                event@,
                fee,
                available,
                now,
            ),
            final(self)@.application == old(self)@.application,
            final(self)@.index == old(self)@.index,
            final(self)@.handed == old(self)@.handed,
            r is Ok ==> final(self)@.cursor + 1 == old(history)@.ensured(
                old(self)@.application,
            ).grown(old(self)@.application).chains[old(self)@.application].buckets.len(),
            available < fee ==> final(self)@ == old(self)@,
            available >= fee && final(history)@.roots.contains_key(old(self)@.application)
                ==> final(self)@.env == Some(
                CapEnvView {
                    root: final(history)@.roots[old(self)@.application],
                    index: old(self)@.index,
                },
            ),
    {
        if available < fee {
            return Err(InsertTransactionError::CantWrite);
        }
        let ghost start = history@;
        let ghost application = self@.application;
        proof {
            law_provision_keeps_invariant(start, application);
            law_grow_keeps_invariant(start.ensured(application), application);
        }
        match self.bind(history) {
            Ok(_) => {},
            Err(_) => {
                return Err(InsertTransactionError::CantWrite);
            },
        }
        match history.insert_at(&self.application, self.cursor, event.duplicate(), now) {
            Ok(id) => {
                return Ok(id);
            },
            Err(_) => {},
        }
        match history.resolve(&self.application) {
            Some(position) => {
                self.cursor = position;
            },
            None => {
                return Err(InsertTransactionError::CantWrite);
            },
        }
        match history.insert_at(&self.application, self.cursor, event, now) {
            Ok(id) => Ok(id),
            Err(_) => Err(InsertTransactionError::CantWrite),
        }
    }

    /// The event with sequence id `id`: the chain is walked from its root on
    /// until a bucket answers; where none does, the id is invalid.
    pub fn get_transaction(&self, history: &History, id: u64) -> (r: Result<
        Event,
        GetTransactionError,
    >)
        requires
            history.wf(),
        ensures
            id < history@.log(self@.application).len() ==> r is Ok && r->Ok_0@ == history@.log(
                self@.application,
            )[id as int],
            id >= history@.log(self@.application).len() ==> r == Err::<Event, GetTransactionError>(
                GetTransactionError::InvalidId,
            ),
    {
        match history.get_transaction(&self.application, id) {
            Ok(event) => Ok(event.duplicate()),
            Err(_) => Err(GetTransactionError::InvalidId),
        }
    }

    /// The page of `width` events that `page` asks for. See
    /// [`Client::get_transactions_page`].
    pub fn get_transactions<P: AsTransactionsPage>(
        &self,
        history: &History,
        page: P,
        width: u64,
    ) -> (r: Result<GetTransactionsResponse, GetTransactionsError>)
        requires
            history.wf(),
        ensures
            r is Ok <==> history@.chains.contains_key(self@.application),
            r is Err ==> r == Err::<GetTransactionsResponse, GetTransactionsError>(
                GetTransactionsError::InvalidId,
            ),
            exists|number: Option<u32>|
                #[trigger] call_ensures(P::page, (page,), number) && (match r {
                    Ok(response) => Ok(response@),
                    Err(e) => Err(e),
                }) == client_page(history@, self@.application, number, width),
    {
        let number = page.page();
        self.get_transactions_page(history, number, width)
    }

    /// Page `page` of the application's log, where pages hold `width` events:
    /// the first page where `page` names none. Events are read in order
    /// across bucket boundaries until the page is filled or the chain ends.
    /// The answer names the page that follows.
    pub fn get_transactions_page(&self, history: &History, page: Option<u32>, width: u64) -> (r:
        Result<GetTransactionsResponse, GetTransactionsError>)
        requires
            history.wf(),
        ensures
            (match r {
                Ok(response) => Ok(response@),
                Err(e) => Err(e),
            }) == client_page(history@, self@.application, page, width),
    {
        let p: u32 = match page {
            Some(p) => p,
            None => 0,
        };
        if history.chain(&self.application).is_none() {
            return Err(GetTransactionsError::InvalidId);
        }
        let transactions = history.get_transactions(&self.application, p, width);
        let next: u32 = if p < u32::MAX {
            p + 1
        } else {
            p
        };
        Ok(GetTransactionsResponse::new(transactions, next))
    }
}

/// What a write through the client layer does to the logs: under the fee,
/// nothing is written; a write that succeeds appends exactly the event to the
/// log of the application, under the sequence id that is returned; a write
/// that fails leaves that log as it is; and the log of every other
/// application stays as it is in any case.
pub proof fn law_client_insert(
    h: HistoryView,
    application: Seq<u8>,
    event: IndefiniteEventView,
    fee: u64,
    available: u64,
    now: u64,
)
    requires
        h.wf(),
    ensures
        ({
            let (after, r) = client_insert(h, application, event, fee, available, now);
            &&& after.wf()
            &&& available < fee ==> after == h && r == Err::<u64, InsertTransactionError>(
                InsertTransactionError::CantWrite,
            )
            &&& forall|a: Seq<u8>| a != application ==> after.log(a) == h.log(a)
            &&& r matches Ok(id) ==> {
                &&& available >= fee
                &&& id == h.log(application).len()
                &&& after.log(application).len() == id + 1
                &&& after.log(application).subrange(0, id as int) == h.log(application)
                &&& after.log(application)[id as int].indefinite() == event
                &&& after.log(application)[id as int].id == id
                &&& after.log(application)[id as int].time == now
            }
            &&& r is Err ==> after.log(application) == h.log(application)
        }),
{
    let (after, r) = client_insert(h, application, event, fee, available, now);
    if available >= fee {
        law_provision_keeps_invariant(h, application);
        let bound = h.ensured(application);
        law_grow_keeps_invariant(bound, application);
        let ready = bound.grown(application);
        assert forall|a: Seq<u8>| ready.log(a) == h.log(a) by {
            assert(bound.log(a) == h.log(a));
            assert(ready.log(a) == bound.log(a));
        }
        if ready.writable(application) {
            law_write_keeps_invariant(ready, application, event, now);
            let id = ready.log(application).len();
            assert(ready.chains[application].wf());
            crate::chain::law_ids_are_positions(ready.chains[application]);
            assert(after.log(application).subrange(0, id as int) =~= h.log(application));
        }
    }
}

/// The boundary of a bucket as the client sees it. With a usable spare unit
/// at hand, the write that fills the last bucket of the chain succeeds and
/// closes that bucket, which takes nothing further; the next write succeeds
/// all the same, and its event is the first in the successor.
pub proof fn law_client_crosses_boundary(
    h: HistoryView,
    application: Seq<u8>,
    first: IndefiniteEventView,
    second: IndefiniteEventView,
    fee: u64,
    available: u64,
    now: u64,
)
    requires
        h.wf(),
        available >= fee,
        h.writable(application),
        h.chains[application].terminal().log.len() + 1 == h.chains[application].terminal().capacity,
        h.capacity > 1,
        h.chains[application].next_id() + 1 + h.capacity <= u64::MAX,
        h.spare.len() > 0,
        usable(h.spare.last(), application),
    ensures
        ({
            let (filled, r1) = client_insert(h, application, first, fee, available, now);
            let (after, r2) = client_insert(filled, application, second, fee, available, now);
            let n = h.log(application).len();
            let last = h.chains[application].buckets.len() - 1;
            &&& r1 == Ok::<u64, InsertTransactionError>(n as u64)
            &&& !filled.takes(application, last)
            &&& r2 == Ok::<u64, InsertTransactionError>((n + 1) as u64)
            &&& after.chains[application].buckets.len() == last + 2
            &&& after.chains[application].terminal().log.len() == 1
            &&& after.chains[application].terminal().log[0].indefinite() == second
            &&& after.log(application).len() == n + 2
        }),
{
    let c = h.chains[application];
    assert(c.wf());
    crate::chain::law_ids_are_positions(c);
    assert(h.roots.contains_key(application));
    assert(h.ensured(application) == h);
    assert(h.grown(application) == h);
    law_boundary(h, application, first, now);
    law_write_keeps_invariant(h, application, first, now);
    let filled = h.written(application, first, now);
    let grown = filled.chains[application];
    assert(grown.wf());
    crate::chain::law_ids_are_positions(grown);
    assert(filled.roots.contains_key(application));
    assert(filled.ensured(application) == filled);
    assert(filled.grown(application) == filled);
    assert(filled.writable(application));
    law_write_keeps_invariant(filled, application, second, now);
    crate::chain::law_insert_appends(grown, second, now);
    let written = filled.inserted(application, second, now);
    assert(written.grown(application) == written);
}

} // verus!
