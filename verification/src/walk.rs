//! The client's walk along a chain whose buckets answer over the wire. The
//! client layer decides here; whoever drives it makes the calls and reports
//! what came back.
//!
//! A write is tried on the bucket that the client knows. Where that bucket
//! does not take it, the chain is walked to its last bucket, successor by
//! successor, and the write is tried there once. A lookup is tried on one
//! bucket after the other, from the root on, until one holds the event or
//! the chain ends. A page of the whole log is gathered from the pages of the
//! buckets, read in order from the root on, until it is filled or the chain
//! ends.

use vstd::prelude::*;
use crate::bucket::{BucketPage, InsertError, QueryError};
use crate::event::{Event, EventView, events_view};
use crate::identity::Identity;
use crate::transactions::{
    GetTransactionsError,
    GetTransactionsResponse,
    GetTransactionsResponseView,
    page_after,
};
use crate::transaction::{
    GetTransactionError,
    InsertTransactionError,
    Reply,
    insert_outcome,
    lookup_outcome,
};

verus! {

/// How far a write has come.
#[derive(Clone, Copy, Debug, PartialEq, Eq, Structural)]
pub enum WriteStage {
    /// The write was sent to the bucket that the client knew.
    Trying,
    /// The chain is being walked to its last bucket.
    Walking,
    /// The write was sent to the last bucket of the chain.
    Retrying,
}

/// What is reported to the client layer while it writes.
#[derive(Debug, PartialEq, Eq)]
pub enum WriteEvent {
    /// The reply of the bucket to the insert.
    Inserted(Reply<Result<u64, InsertError>>),
    /// The reply of the bucket to the question for its successor.
    Successor(Reply<Option<Identity>>),
}

/// What the client layer asks for next while it writes.
#[derive(Debug, PartialEq, Eq)]
pub enum WriteAction {
    /// Send the event to this bucket.
    Insert(Identity),
    /// Ask this bucket for its successor.
    AskSuccessor(Identity),
    /// The write has ended, with this result.
    Finish(Result<u64, InsertTransactionError>),
}

/// The client's rule for a write: from the stage, the bucket that was asked
/// last, and its reply, to the next stage and what is to be done.
pub open spec fn write_decision(stage: WriteStage, bucket: Identity, event: WriteEvent) -> (
    WriteStage,
    WriteAction,
) {
    match (stage, event) {
        (WriteStage::Trying, WriteEvent::Inserted(Reply::Answer(Err(InsertError::CantWrite)))) => (
            WriteStage::Walking,
            WriteAction::AskSuccessor(bucket),
        ),
        (WriteStage::Trying, WriteEvent::Inserted(Reply::Answer(Ok(id)))) => (
            stage,
            WriteAction::Finish(Ok(id)),
        ),
        (WriteStage::Retrying, WriteEvent::Inserted(Reply::Answer(Ok(id)))) => (
            stage,
            WriteAction::Finish(Ok(id)),
        ),
        (WriteStage::Retrying, WriteEvent::Inserted(Reply::Answer(Err(InsertError::CantWrite)))) => (
            stage,
            WriteAction::Finish(Err(InsertTransactionError::CantWrite)),
        ),
        (WriteStage::Walking, WriteEvent::Successor(Reply::Answer(Some(next)))) => (
            WriteStage::Walking,
            WriteAction::AskSuccessor(next),
        ),
        (WriteStage::Walking, WriteEvent::Successor(Reply::Answer(None))) => (
            WriteStage::Retrying,
            WriteAction::Insert(bucket),
        ),
        (WriteStage::Trying, WriteEvent::Inserted(Reply::Rejected(code, message))) => (
            stage,
            WriteAction::Finish(Err(InsertTransactionError::Unexpected(code, message))),
        ),
        (WriteStage::Retrying, WriteEvent::Inserted(Reply::Rejected(code, message))) => (
            stage,
            WriteAction::Finish(Err(InsertTransactionError::Unexpected(code, message))),
        ),
        (WriteStage::Walking, WriteEvent::Successor(Reply::Rejected(code, message))) => (
            stage,
            WriteAction::Finish(Err(InsertTransactionError::Unexpected(code, message))),
        ),
        _ => (stage, WriteAction::Finish(Err(InsertTransactionError::CantWrite))),
    }
}

/// One step of a write: takes the reply of the bucket `bucket`, which was
/// asked last, and says what to do next.
pub fn write_step(stage: WriteStage, bucket: Identity, event: WriteEvent) -> (r: (
    WriteStage,
    WriteAction,
))
    ensures
        r == write_decision(stage, bucket, event),
{
    match (stage, event) {
        (WriteStage::Trying, WriteEvent::Inserted(Reply::Answer(Err(InsertError::CantWrite)))) => (
            WriteStage::Walking,
            WriteAction::AskSuccessor(bucket),
        ),
        (WriteStage::Trying, WriteEvent::Inserted(reply)) => (
            stage,
            WriteAction::Finish(insert_outcome(reply)),
        ),
        (WriteStage::Retrying, WriteEvent::Inserted(reply)) => (
            stage,
            WriteAction::Finish(insert_outcome(reply)),
        ),
        (WriteStage::Walking, WriteEvent::Successor(Reply::Answer(Some(next)))) => (
            WriteStage::Walking,
            WriteAction::AskSuccessor(next),
        ),
        (WriteStage::Walking, WriteEvent::Successor(Reply::Answer(None))) => (
            WriteStage::Retrying,
            WriteAction::Insert(bucket),
        ),
        (WriteStage::Walking, WriteEvent::Successor(Reply::Rejected(code, message))) => (
            stage,
            WriteAction::Finish(Err(InsertTransactionError::Unexpected(code, message))),
        ),
        _ => (stage, WriteAction::Finish(Err(InsertTransactionError::CantWrite))),
    }
}

/// What is reported to the client layer while it looks an event up.
#[derive(Debug, PartialEq, Eq)]
pub enum LookupEvent {
    /// The reply of the bucket to the lookup.
    Found(Reply<Result<Event, QueryError>>),
    /// The reply of the bucket to the question for its successor.
    Successor(Reply<Option<Identity>>),
}

/// What the client layer asks for next while it looks an event up.
#[derive(Debug, PartialEq, Eq)]
pub enum LookupAction {
    /// Look the event up in this bucket.
    Lookup(Identity),
    /// Ask this bucket for its successor.
    AskSuccessor(Identity),
    /// The lookup has ended, with this result.
    Finish(Result<Event, GetTransactionError>),
}

/// The client's rule for a lookup: from the bucket that was asked last and its
/// reply to what is to be done.
pub open spec fn lookup_decision(bucket: Identity, event: LookupEvent) -> LookupAction {
    match event {
        LookupEvent::Found(Reply::Answer(Ok(found))) => LookupAction::Finish(Ok(found)),
        LookupEvent::Found(Reply::Answer(Err(QueryError::InvalidId))) => LookupAction::AskSuccessor(
            bucket,
        ),
        LookupEvent::Found(Reply::Rejected(code, message)) => LookupAction::Finish(
            Err(GetTransactionError::Unexpected(code, message)),
        ),
        LookupEvent::Successor(Reply::Answer(Some(next))) => LookupAction::Lookup(next),
        LookupEvent::Successor(Reply::Answer(None)) => LookupAction::Finish(
            Err(GetTransactionError::InvalidId),
        ),
        LookupEvent::Successor(Reply::Rejected(code, message)) => LookupAction::Finish(
            Err(GetTransactionError::Unexpected(code, message)),
        ),
    }
}

/// One step of a lookup: takes the reply of the bucket `bucket`, which was
/// asked last, and says what to do next.
pub fn lookup_step(bucket: Identity, event: LookupEvent) -> (r: LookupAction)
    ensures
        r == lookup_decision(bucket, event),
{
    match event {
        LookupEvent::Found(reply) => match lookup_outcome(reply) {
            Some(result) => LookupAction::Finish(result),
            None => LookupAction::AskSuccessor(bucket),
        },
        LookupEvent::Successor(Reply::Answer(Some(next))) => LookupAction::Lookup(next),
        LookupEvent::Successor(Reply::Answer(None)) => LookupAction::Finish(
            Err(GetTransactionError::InvalidId),
        ),
        LookupEvent::Successor(Reply::Rejected(code, message)) => LookupAction::Finish(
            Err(GetTransactionError::Unexpected(code, message)),
        ),
    }
}

/// A write ends with the sequence id that a bucket gave, with the rejection
/// of a call as it came, or with `CantWrite`; and it is sent to a bucket a
/// second time only after the chain was walked to its end.
pub proof fn law_write_retries_once(stage: WriteStage, bucket: Identity, event: WriteEvent)
    ensures
        ({
            let (next, action) = write_decision(stage, bucket, event);
            &&& action is Insert ==> stage == WriteStage::Walking && next == WriteStage::Retrying
                && action == WriteAction::Insert(bucket)
            &&& stage == WriteStage::Retrying ==> action is Finish
            &&& action matches WriteAction::Finish(Ok(id)) ==> event == WriteEvent::Inserted(
                Reply::Answer(Ok(id)),
            )
        }),
{
}

/// Whether an event stands on page `page` of the whole log, where pages hold
/// `width` events: an event's sequence id is its place in the log.
pub open spec fn on_page(event: EventView, page: u32, width: u64) -> bool {
    page * width <= event.id < page * width + width
}

/// The events of a list that stand on page `page`, in their order.
pub open spec fn kept(events: Seq<EventView>, page: u32, width: u64) -> Seq<EventView>
    decreases events.len(),
{
    if events.len() == 0 {
        Seq::empty()
    } else if on_page(events.last(), page, width) {
        kept(events.drop_last(), page, width).push(events.last())
    } else {
        kept(events.drop_last(), page, width)
    }
}

/// What the client layer holds while it gathers a page: which page, of which
/// width, and the events that it has so far.
#[derive(Debug, PartialEq, Eq)]
pub struct Gather {
    page: u32,
    width: u64,
    collected: Vec<Event>,
}

/// The mathematical value of a [`Gather`].
pub struct GatherView {
    pub page: u32,
    pub width: u64,
    pub collected: Seq<EventView>,
}

impl View for Gather {
    type V = GatherView;

    closed spec fn view(&self) -> GatherView {
        GatherView {
            page: self.page,
            width: self.width,
            collected: events_view(self.collected@),
        }
    }
}

/// What is reported to the client layer while it gathers a page.
#[derive(Debug, PartialEq, Eq)]
pub enum GatherEvent {
    /// The reply of the bucket to the question for one of its pages.
    Page(Reply<BucketPage>),
    /// The reply of the bucket to the question for its successor.
    Successor(Reply<Option<Identity>>),
}

/// What the client layer does next while it gathers a page.
#[derive(Debug, PartialEq, Eq)]
pub enum GatherProgress {
    /// Ask this bucket for this page of its own: its first where none is
    /// named.
    Fetch(Gather, Identity, Option<u32>),
    /// Ask this bucket for its successor.
    AskSuccessor(Gather, Identity),
    /// The page is gathered, or the gathering has failed.
    Finish(Result<GetTransactionsResponse, GetTransactionsError>),
}

/// The mathematical value of a [`GatherProgress`].
pub enum GatherProgressView {
    Fetch(GatherView, Seq<u8>, Option<u32>),
    AskSuccessor(GatherView, Seq<u8>),
    Finish(Result<GetTransactionsResponseView, GetTransactionsError>),
}

impl View for GatherProgress {
    type V = GatherProgressView;

    open spec fn view(&self) -> GatherProgressView {
        match self {
            GatherProgress::Fetch(gather, bucket, page) => GatherProgressView::Fetch(
                gather@,
                bucket@,
                *page,
            ),
            GatherProgress::AskSuccessor(gather, bucket) => GatherProgressView::AskSuccessor(
                gather@,
                bucket@,
            ),
            GatherProgress::Finish(result) => GatherProgressView::Finish(
                match result {
                    Ok(response) => Ok(response@),
                    Err(e) => Err(*e),
                },
            ),
        }
    }
}

/// The answer that a gathering ends with: what was gathered, and the page
/// that follows the one asked for.
pub open spec fn gathered(gather: GatherView) -> GetTransactionsResponseView {
    GetTransactionsResponseView {
        transactions: gather.collected,
        next_page: page_after(gather.page),
    }
}

/// The client's rule for gathering a page: from what it holds, the bucket
/// that was asked last, and its reply to what is to be done. Of a page of a
/// bucket the events that stand on the page asked for are kept. The gathering
/// ends when the page is filled or the chain ends; until then the bucket's
/// next page is read, or the first page of its successor.
pub open spec fn gather_decision(
    gather: GatherView,
    bucket: Seq<u8>,
    event: GatherEvent,
) -> GatherProgressView {
    match event {
        GatherEvent::Page(Reply::Answer(page)) => {
            let after = GatherView {
                collected: gather.collected + kept(
                    events_view(page.transactions@),
                    gather.page,
                    gather.width,
                ),
                ..gather
            };
            if after.collected.len() >= gather.width {
                GatherProgressView::Finish(Ok(gathered(after)))
            } else {
                match page.next_page {
                    Some(next) => GatherProgressView::Fetch(after, bucket, Some(next)),
                    None => GatherProgressView::AskSuccessor(after, bucket),
                }
            }
        },
        GatherEvent::Successor(Reply::Answer(Some(next))) => GatherProgressView::Fetch(
            gather,
            next@,
            None,
        ),
        GatherEvent::Successor(Reply::Answer(None)) => GatherProgressView::Finish(
            Ok(gathered(gather)),
        ),
        GatherEvent::Page(Reply::Rejected(code, message)) => GatherProgressView::Finish(
            Err(GetTransactionsError::Unexpected(code, message)),
        ),
        GatherEvent::Successor(Reply::Rejected(code, message)) => GatherProgressView::Finish(
            Err(GetTransactionsError::Unexpected(code, message)),
        ),
    }
}

impl Gather {
    /// The start of a gathering of page `page`, where pages hold `width`
    /// events: the first page where none is named. Nothing is gathered yet.
    pub fn new(page: Option<u32>, width: u64) -> (g: Gather)
        ensures
            g@ == (GatherView {
                page: match page {
                    Some(number) => number,
                    None => 0,
                },
                width,
                collected: Seq::empty(),
            }),
    {
        let number: u32 = match page {
            Some(number) => number,
            None => 0,
        };
        let g = Gather { page: number, width, collected: Vec::new() };
        assert(g@.collected =~= Seq::empty());
        g
    }

    /// Whether the event with the sequence id `id` stands on the page that is
    /// gathered.
    fn wants(&self, id: u64) -> (r: bool)
        ensures
            r == (self.page * self.width <= id < self.page * self.width + self.width),
    {
        assert(self.page * self.width <= 0xffff_ffff * 0xffff_ffff_ffff_ffff) by (nonlinear_arith)
            requires
                self.page <= 0xffff_ffff,
                self.width <= 0xffff_ffff_ffff_ffff,
        ;
        let first: u128 = (self.page as u128) * (self.width as u128);
        first <= id as u128 && (id as u128) < first + self.width as u128
    }

    /// Keeps the events of `page` that stand on the page that is gathered.
    fn keep(&mut self, page: &Vec<Event>)
        ensures
            final(self)@ == (GatherView {
                collected: old(self)@.collected + kept(
                    events_view(page@),
                    old(self)@.page,
                    old(self)@.width,
                ),
                ..old(self)@
            }),
    {
        let ghost all = events_view(page@);
        let ghost before = self@.collected;
        let mut i: usize = 0;
        assert(all.take(0) =~= Seq::<EventView>::empty());
        assert(self@.collected =~= before + kept(all.take(0), self.page, self.width));
        while i < page.len()
            invariant
                i <= page.len(),
                all == events_view(page@),
                self.page == old(self).page,
                self.width == old(self).width,
                self@.collected == before + kept(all.take(i as int), self.page, self.width),
            decreases page.len() - i,
        {
            let ghost so_far = self@.collected;
            proof {
                let next = all.take(i as int + 1);
                assert(next.drop_last() =~= all.take(i as int));
                assert(next.last() == page@[i as int]@);
            }
            if self.wants(page[i].id) {
                self.collected.push(page[i].duplicate());
                assert(self@.collected =~= so_far.push(page@[i as int]@));
                assert(self@.collected =~= before + kept(
                    all.take(i as int + 1),
                    self.page,
                    self.width,
                ));
            }
            i += 1;
        }
        assert(all.take(page.len() as int) =~= all);
    }
}

/// One step of a gathering: takes the reply of the bucket `bucket`, which was
/// asked last, and says what to do next.
pub fn gather_step(gather: Gather, bucket: Identity, event: GatherEvent) -> (r: GatherProgress)
    ensures
        r@ == gather_decision(gather@, bucket@, event),
{
    match event {
        GatherEvent::Page(Reply::Answer(page)) => {
            let mut gather = gather;
            gather.keep(&page.transactions);
            if gather.collected.len() as u64 >= gather.width {
                GatherProgress::Finish(Ok(finish(gather)))
            } else {
                match page.next_page {
                    Some(next) => GatherProgress::Fetch(gather, bucket, Some(next)),
                    None => GatherProgress::AskSuccessor(gather, bucket),
                }
            }
        },
        GatherEvent::Successor(Reply::Answer(Some(next))) => GatherProgress::Fetch(gather, next, None),
        GatherEvent::Successor(Reply::Answer(None)) => GatherProgress::Finish(Ok(finish(gather))),
        GatherEvent::Page(Reply::Rejected(code, message)) => GatherProgress::Finish(
            Err(GetTransactionsError::Unexpected(code, message)),
        ),
        GatherEvent::Successor(Reply::Rejected(code, message)) => GatherProgress::Finish(
            Err(GetTransactionsError::Unexpected(code, message)),
        ),
    }
}

/// The answer that a gathering ends with.
fn finish(gather: Gather) -> (r: GetTransactionsResponse)
    ensures
        r@ == gathered(gather@),
{
    let next: u32 = if gather.page < u32::MAX {
        gather.page + 1
    } else {
        gather.page
    };
    GetTransactionsResponse::new(gather.collected, next)
}

/// What is kept of two lists of events read one after the other is what is
/// kept of the first and then what is kept of the second: so it makes no
/// difference in how many pages, of which buckets, a log is read.
pub proof fn law_kept_joins(first: Seq<EventView>, second: Seq<EventView>, page: u32, width: u64)
    ensures
        kept(first + second, page, width) == kept(first, page, width) + kept(second, page, width),
    decreases second.len(),
{
    if second.len() == 0 {
        assert(first + second =~= first);
        assert(kept(first, page, width) + kept(second, page, width) =~= kept(first, page, width));
    } else {
        law_kept_joins(first, second.drop_last(), page, width);
        assert((first + second).drop_last() =~= first + second.drop_last());
        assert((first + second).last() == second.last());
        assert(kept(first + second, page, width) =~= kept(first, page, width) + kept(
            second,
            page,
            width,
        ));
    }
}

/// Of the events of a chain, read bucket by bucket in order, exactly those of
/// the page asked for are kept, in their order: what is kept of a log in
/// which an event's sequence id is its place is the page of that log.
pub proof fn law_kept_is_page(log: Seq<EventView>, page: u32, width: u64)
    requires
        forall|k: int| 0 <= k < log.len() ==> (#[trigger] log[k]).id == k,
        log.len() <= u64::MAX,
    ensures
        kept(log, page, width) == log.subrange(
            if page * width <= log.len() {
                page * width
            } else {
                log.len() as int
            },
            if page * width + width <= log.len() {
                page * width + width
            } else {
                log.len() as int
            },
        ),
    decreases log.len(),
{
    assert(page * width >= 0) by (nonlinear_arith);
    if log.len() == 0 {
        assert(kept(log, page, width) =~= log.subrange(0, 0));
    } else {
        let front = log.drop_last();
        assert forall|k: int| 0 <= k < front.len() implies (#[trigger] front[k]).id == k by {
            assert(front[k] == log[k]);
        }
        law_kept_is_page(front, page, width);
        let first = page * width;
        let n = log.len() as int;
        assert(log.last().id == n - 1);
        let lo = if first <= n { first } else { n };
        let hi = if first + width <= n { first + width } else { n };
        let flo = if first <= n - 1 { first } else { n - 1 };
        let fhi = if first + width <= n - 1 { first + width } else { n - 1 };
        assert(kept(front, page, width) == front.subrange(flo, fhi));
        if on_page(log.last(), page, width) {
            assert(kept(log, page, width) =~= log.subrange(lo, hi));
        } else {
            assert(kept(log, page, width) =~= log.subrange(lo, hi));
        }
    }
}

} // verus!
