//! The bucket: one contiguous, append-only, certified segment of an
//! application's event log.
//!
//! A bucket is writable until it holds as many events as its capacity allows.
//! It is then full, and stays so until it learns of its successor: from then
//! on it is closed. Only a writable bucket accepts an event, and only from the
//! application that owns it.

use vstd::prelude::*;
use crate::certified::{certified_digest, empty_digest, extend_digest, lemma_digest_push};
use crate::event::{Event, EventView, IndefiniteEvent, IndefiniteEventView, events_view};
use crate::identity::Identity;

verus! {

/// The number of events on a full page.
pub const PAGE_SIZE: u64 = 64;

/// Where a bucket stands in its life.
#[derive(Clone, Copy, Debug, PartialEq, Eq, Structural)]
pub enum BucketState {
    Writable,
    Full,
    Closed,
}

/// Why a bucket did not take an event.
#[derive(Clone, Copy, Debug, PartialEq, Eq, Structural)]
pub enum InsertError {
    /// The bucket is not writable, or the caller does not own it.
    CantWrite,
}

/// Why a bucket did not find an event.
#[derive(Clone, Copy, Debug, PartialEq, Eq, Structural)]
pub enum QueryError {
    /// The bucket holds no event with the given sequence id.
    InvalidId,
}

/// One page of a bucket's log.
#[derive(Clone, Debug, PartialEq, Eq)]
pub struct BucketPage {
    /// The events of the page, oldest first.
    pub transactions: Vec<Event>,
    /// The page that follows, where the bucket holds events beyond this one.
    pub next_page: Option<u32>,
}

/// The mathematical value of a [`Bucket`].
pub struct BucketView {
    pub id: Seq<u8>,
    pub owner: Seq<u8>,
    pub base: u64,
    pub capacity: u64,
    pub log: Seq<EventView>,
    pub successor: Option<Seq<u8>>,
}

impl BucketView {
    /// The invariant of a bucket: it holds no more than its capacity, the
    /// sequence ids it can assign fit in a `u64`, each event carries its
    /// position and the sequence id that goes with it, and only a bucket that
    /// has filled up knows a successor.
    pub open spec fn wf(self) -> bool {
        &&& self.base + self.capacity <= u64::MAX
        &&& self.log.len() <= self.capacity
        &&& forall|i: int|
            0 <= i < self.log.len() ==> (#[trigger] self.log[i]).id == self.base + i
                && self.log[i].offset == i
        &&& self.successor is Some ==> self.log.len() == self.capacity
    }

    pub open spec fn state(self) -> BucketState {
        if self.successor is Some {
            BucketState::Closed
        } else if self.log.len() >= self.capacity {
            BucketState::Full
        } else {
            BucketState::Writable
        }
    }

    /// The sequence id that the next event gets.
    pub open spec fn next_id(self) -> int {
        self.base + self.log.len()
    }

    /// Whether the bucket holds the event with sequence id `id`.
    pub open spec fn holds(self, id: u64) -> bool {
        self.base <= id < self.base + self.log.len()
    }

    /// Whether the bucket takes an event from `caller`.
    pub open spec fn accepts(self, caller: Seq<u8>) -> bool {
        self.state() == BucketState::Writable && caller == self.owner
    }

    /// The bucket after it took `event` at `time`.
    pub open spec fn inserted(self, event: IndefiniteEventView, time: u64) -> BucketView {
        BucketView {
            log: self.log.push(
                event.stored(self.next_id() as u64, self.log.len() as u64, time),
            ),
            ..self
        }
    }

    /// The bucket after it learned of `successor`.
    pub open spec fn closed(self, successor: Seq<u8>) -> BucketView {
        BucketView { successor: Some(successor), ..self }
    }

    /// Where page `page` starts in the log.
    pub open spec fn page_start(self, page: u32) -> int {
        if page * PAGE_SIZE <= self.log.len() {
            page * PAGE_SIZE
        } else {
            self.log.len() as int
        }
    }

    /// Where page `page` ends in the log.
    pub open spec fn page_end(self, page: u32) -> int {
        if page * PAGE_SIZE + PAGE_SIZE <= self.log.len() {
            page * PAGE_SIZE + PAGE_SIZE
        } else {
            self.log.len() as int
        }
    }

    /// The events of page `page`, oldest first.
    pub open spec fn page(self, page: u32) -> Seq<EventView> {
        self.log.subrange(self.page_start(page), self.page_end(page))
    }

    /// The page after `page`, where the bucket holds events beyond it.
    pub open spec fn page_after(self, page: u32) -> Option<u32> {
        if page * PAGE_SIZE + PAGE_SIZE < self.log.len() && page < u32::MAX {
            Some((page + 1) as u32)
        } else {
            None
        }
    }
}

/// The page that a request names: the first where it names none.
pub open spec fn requested_page(page: Option<u32>) -> u32 {
    match page {
        Some(p) => p,
        None => 0,
    }
}

/// An append-only, certified log of events for one application.
#[derive(Debug)]
pub struct Bucket {
    id: Identity,
    owner: Identity,
    base: u64,
    capacity: u64,
    events: Vec<Event>,
    successor: Option<Identity>,
    digest: [u8; 32],
}

impl View for Bucket {
    type V = BucketView;

    closed spec fn view(&self) -> BucketView {
        BucketView {
            id: self.id@,
            owner: self.owner@,
            base: self.base,
            capacity: self.capacity,
            log: events_view(self.events@),
            successor: match self.successor {
                Some(s) => Some(s@),
                None => None,
            },
        }
    }
}

impl Bucket {
    /// The digest that the bucket holds of its log.
    pub closed spec fn held_digest(&self) -> Seq<u8> {
        self.digest@
    }

    /// The invariant of the bucket, and that its digest certifies its log.
    pub open spec fn wf(&self) -> bool {
        &&& self@.wf()
        &&& self.held_digest() == certified_digest(self@.log)
    }

    /// An empty bucket named `id` for the application `owner`, whose first
    /// event gets the sequence id `base`. There is none where the sequence ids
    /// of `capacity` events from `base` on do not fit in a `u64`.
    pub fn new(id: Identity, owner: Identity, base: u64, capacity: u64) -> (r: Option<Bucket>)
        ensures
            base + capacity <= u64::MAX <==> r is Some,
            r matches Some(b) ==> b.wf() && b@ == (BucketView {
                id: id@,
                owner: owner@,
                base,
                capacity,
                log: Seq::empty(),
                successor: None,
            }),
    {
        if capacity > u64::MAX - base {
            return None;
        }
        let b = Bucket {
            id,
            owner,
            base,
            capacity,
            events: Vec::new(),
            successor: None,
            digest: empty_digest(),
        };
        assert(b@.log =~= Seq::empty());
        Some(b)
    }

    /// The identity of the storage unit that holds the bucket.
    pub fn id(&self) -> (r: &Identity)
        ensures
            r@ == self@.id,
    {
        &self.id
    }

    /// The application that owns the bucket.
    pub fn owner(&self) -> (r: &Identity)
        ensures
            r@ == self@.owner,
    {
        &self.owner
    }

    /// The sequence id of the bucket's first event.
    pub fn base(&self) -> (r: u64)
        ensures
            r == self@.base,
    {
        self.base
    }

    /// The number of events the bucket can hold.
    pub fn capacity(&self) -> (r: u64)
        ensures
            r == self@.capacity,
    {
        self.capacity
    }

    /// The number of events the bucket holds.
    pub fn len(&self) -> (r: usize)
        ensures
            r == self@.log.len(),
    {
        self.events.len()
    }

    /// The sequence id that the next event gets.
    pub fn next_id(&self) -> (r: u64)
        requires
            self.wf(),
        ensures
            r == self@.next_id(),
    {
        self.base + self.events.len() as u64
    }

    /// The successor of the bucket, once it is closed.
    pub fn successor(&self) -> (r: Option<&Identity>)
        ensures
            match r {
                Some(s) => self@.successor == Some(s@),
                None => self@.successor is None,
            },
    {
        match &self.successor {
            Some(s) => Some(s),
            None => None,
        }
    }

    /// Where the bucket stands in its life.
    pub fn state(&self) -> (r: BucketState)
        ensures
            r == self@.state(),
    {
        if self.successor.is_some() {
            BucketState::Closed
        } else if self.events.len() as u64 >= self.capacity {
            BucketState::Full
        } else {
            BucketState::Writable
        }
    }

    /// The digest that certifies the bucket's log.
    pub fn root_hash(&self) -> (h: [u8; 32])
        requires
            self.wf(),
        ensures
            h@ == certified_digest(self@.log),
    {
        self.digest
    }

    /// The events of the bucket, oldest first.
    pub fn events(&self) -> (r: &Vec<Event>)
        ensures
            events_view(r@) == self@.log,
    {
        &self.events
    }

    /// Appends `event`, written at `now`, and returns the sequence id it got.
    /// The bucket takes the event only while it is writable, and only from its
    /// owner; otherwise nothing changes.
    pub fn insert(&mut self, caller: &Identity, event: IndefiniteEvent, now: u64) -> (r: Result<
        u64,
        InsertError,
    >)
        requires
            old(self).wf(),
        ensures
            final(self).wf(),
            old(self)@.accepts(caller@) ==> r == Ok::<u64, InsertError>(
                old(self)@.next_id() as u64,
            ) && final(self)@ == old(self)@.inserted(event@, now),
            !old(self)@.accepts(caller@) ==> r == Err::<u64, InsertError>(InsertError::CantWrite)
                && final(self)@ == old(self)@,
    {
        if self.successor.is_some() || self.events.len() as u64 >= self.capacity || !caller.same(
            &self.owner,
        ) {
            return Err(InsertError::CantWrite);
        }
        let offset: u64 = self.events.len() as u64;
        let id: u64 = self.base + offset;
        let stored = event.into_event(id, offset, now);
        let digest = extend_digest(&self.digest, &stored);
        proof {
            lemma_digest_push(old(self)@.log, stored@);
            assert(events_view(self.events@.push(stored)) =~= old(self)@.log.push(stored@));
        }
        self.events.push(stored);
        self.digest = digest;
        Ok(id)
    }

    /// The event with sequence id `id`, where the bucket holds it.
    pub fn get_transaction(&self, id: u64) -> (r: Result<&Event, QueryError>)
        requires
            self.wf(),
        ensures
            self@.holds(id) ==> r is Ok && r->Ok_0@ == self@.log[id - self@.base],
            !self@.holds(id) ==> r == Err::<&Event, QueryError>(QueryError::InvalidId),
    {
        if id < self.base || id - self.base >= self.events.len() as u64 {
            return Err(QueryError::InvalidId);
        }
        let at: usize = (id - self.base) as usize;
        Ok(&self.events[at])
    }

    /// One page of the log, oldest event first: the first page where `page`
    /// names none. The answer names the next page where the bucket holds
    /// events beyond this one.
    pub fn get_transactions(&self, page: Option<u32>) -> (r: BucketPage)
        ensures
            events_view(r.transactions@) == self@.page(requested_page(page)),
            r.next_page == self@.page_after(requested_page(page)),
    {
        let p: u32 = match page {
            Some(p) => p,
            None => 0,
        };
        let len: u64 = self.events.len() as u64;
        let first: u64 = p as u64 * PAGE_SIZE;
        let start: u64 = if first <= len {
            first
        } else {
            len
        };
        let end: u64 = if first + PAGE_SIZE <= len {
            first + PAGE_SIZE
        } else {
            len
        };
        let mut transactions: Vec<Event> = Vec::new();
        let mut i: u64 = start;
        while i < end
            invariant
                start <= i <= end <= self.events.len(),
                transactions@.len() == i - start,
                forall|j: int| 0 <= j < i - start ==> transactions@[j]@ == self.events@[start + j]@,
            decreases end - i,
        {
            transactions.push(self.events[i as usize].duplicate());
            i += 1;
        }
        assert(events_view(transactions@) =~= self@.page(p));
        let next_page: Option<u32> = if first + PAGE_SIZE < len && p < u32::MAX {
            Some(p + 1)
        } else {
            None
        };
        BucketPage { transactions, next_page }
    }

    /// Records the successor of a full bucket, which closes it. A bucket that
    /// is not full stays as it is.
    pub fn close(&mut self, successor: Identity) -> (closed: bool)
        requires
            old(self).wf(),
        ensures
            final(self).wf(),
            closed == (old(self)@.state() == BucketState::Full),
            closed ==> final(self)@ == old(self)@.closed(successor@),
            !closed ==> final(self)@ == old(self)@,
    {
        if self.successor.is_some() || (self.events.len() as u64) < self.capacity {
            return false;
        }
        self.successor = Some(successor);
        true
    }
}

/// A writable bucket that takes an event keeps its invariant, and the event
/// gets the sequence id that follows the last one.
pub proof fn law_insert_keeps_invariant(b: BucketView, event: IndefiniteEventView, time: u64)
    requires
        b.wf(),
        b.state() == BucketState::Writable,
    ensures
        b.inserted(event, time).wf(),
        b.inserted(event, time).next_id() == b.next_id() + 1,
{
}

/// Two events that a bucket takes one after the other get sequence ids that
/// differ by exactly one, and are read back in the order in which they were
/// written.
pub proof fn law_sequence_ids_consecutive(
    b: BucketView,
    first: IndefiniteEventView,
    first_time: u64,
    second: IndefiniteEventView,
    second_time: u64,
)
    requires
        b.wf(),
        b.state() == BucketState::Writable,
        b.inserted(first, first_time).state() == BucketState::Writable,
    ensures
        ({
            let once = b.inserted(first, first_time);
            let twice = once.inserted(second, second_time);
            let n = b.log.len() as int;
            &&& once.next_id() == b.next_id() + 1
            &&& twice.log[n] == first.stored(b.next_id() as u64, n as u64, first_time)
            &&& twice.log[n + 1] == second.stored((b.next_id() + 1) as u64, (n + 1) as u64, second_time)
            &&& twice.log.subrange(0, n) == b.log
        }),
{
    let once = b.inserted(first, first_time);
    let twice = once.inserted(second, second_time);
    assert(twice.log.subrange(0, b.log.len() as int) =~= b.log);
}

/// Every event of a bucket stands on exactly one page, at the place its
/// position gives; the pages, read in order, give the log in order.
pub proof fn law_pages_follow_log(b: BucketView, i: int)
    requires
        b.wf(),
        0 <= i < b.log.len(),
        i / (PAGE_SIZE as int) <= u32::MAX,
    ensures
        ({
            let p = (i / (PAGE_SIZE as int)) as u32;
            let j = i % (PAGE_SIZE as int);
            &&& j < b.page(p).len()
            &&& b.page(p)[j] == b.log[i]
            &&& b.page(p)[j].id == b.base + i
            &&& forall|q: u32| q != p ==> !((#[trigger] b.page_start(q)) <= i && i < b.page_end(q))
        }),
{
}

/// An event on a page has the sequence id that its page and its place on the
/// page give.
pub proof fn law_page_ids(b: BucketView, page: u32, j: int)
    requires
        b.wf(),
        0 <= j < b.page(page).len(),
    ensures
        b.page(page)[j].id == b.base + page * PAGE_SIZE + j,
        b.page(page)[j] == b.log[page * PAGE_SIZE + j],
{
}

/// A bucket names a next page exactly where it holds an event beyond the
/// page asked for, and that next page is not empty.
pub proof fn law_next_page_not_empty(b: BucketView, page: u32)
    requires
        b.wf(),
    ensures
        b.page_after(page) matches Some(next) ==> next == page + 1 && b.page(page).len() == PAGE_SIZE
            && b.page(next).len() > 0,
        b.page_after(page) is None && page < u32::MAX ==> b.page_end(page) == b.log.len(),
{
}

/// The event that a bucket just took is the one it hands out under the
/// sequence id it returned: the same caller, operation and details, with the
/// id and the time of writing.
pub proof fn law_insert_then_get(
    b: BucketView,
    caller: Seq<u8>,
    event: IndefiniteEventView,
    time: u64,
)
    requires
        b.wf(),
        b.accepts(caller),
    ensures
        ({
            let after = b.inserted(event, time);
            let id = b.next_id() as u64;
            &&& after.holds(id)
            &&& after.log[id - after.base].indefinite() == event
            &&& after.log[id - after.base].id == id
            &&& after.log[id - after.base].time == time
        }),
{
}

/// The event that fills a bucket up to its capacity leaves it full: it takes
/// no further event from anyone.
pub proof fn law_filled_bucket_rejects(
    b: BucketView,
    event: IndefiniteEventView,
    time: u64,
    caller: Seq<u8>,
)
    requires
        b.wf(),
        b.state() == BucketState::Writable,
        b.log.len() + 1 == b.capacity,
    ensures
        b.inserted(event, time).state() == BucketState::Full,
        !b.inserted(event, time).accepts(caller),
{
}

/// A closed bucket takes no event, and stays closed.
pub proof fn law_closed_bucket_rejects(b: BucketView, successor: Seq<u8>, caller: Seq<u8>)
    requires
        b.wf(),
        b.state() == BucketState::Full,
    ensures
        b.closed(successor).wf(),
        b.closed(successor).state() == BucketState::Closed,
        !b.closed(successor).accepts(caller),
        b.closed(successor).log == b.log,
{
}

} // verus!
