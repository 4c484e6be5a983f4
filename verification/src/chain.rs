//! The chain: the buckets of one application, oldest first. Only the last
//! one takes events; each of the others is closed and names the next as its
//! successor. Read one after the other, the buckets give the whole log of the
//! application, in which an event's sequence id is its position.

use vstd::prelude::*;
use crate::bucket::{Bucket, BucketState, BucketView, InsertError, QueryError};
use crate::event::{Event, EventView, IndefiniteEvent, IndefiniteEventView, events_view};
use crate::identity::Identity;

verus! {

/// The logs of a list of buckets, one after the other.
pub open spec fn joined_log(buckets: Seq<BucketView>) -> Seq<EventView>
    decreases buckets.len(),
{
    if buckets.len() == 0 {
        Seq::empty()
    } else {
        joined_log(buckets.drop_last()) + buckets.last().log
    }
}

/// Whether bucket `i` of the list is closed with the next one as its
/// successor, and the next one starts where it ends.
pub open spec fn follows(buckets: Seq<BucketView>, i: int) -> bool {
    &&& buckets[i].successor == Some(buckets[i + 1].id)
    &&& buckets[i + 1].base == buckets[i].base + buckets[i].log.len()
}

/// Whether each bucket of the list but the last is followed by the next.
pub open spec fn linked(buckets: Seq<BucketView>) -> bool {
    forall|i: int| 0 <= i < buckets.len() - 1 ==> #[trigger] follows(buckets, i)
}

/// A linked list of buckets without its last is linked.
pub proof fn lemma_linked_front(buckets: Seq<BucketView>)
    requires
        buckets.len() > 0,
        linked(buckets),
    ensures
        linked(buckets.drop_last()),
{
    let front = buckets.drop_last();
    assert forall|i: int| 0 <= i < front.len() - 1 implies #[trigger] follows(front, i) by {
        assert(follows(buckets, i));
    }
}

/// In a linked list of buckets, the joined log holds the events of every
/// bucket at the places that their sequence ids give.
pub proof fn lemma_joined_log(buckets: Seq<BucketView>)
    requires
        buckets.len() > 0,
        linked(buckets),
    ensures
        joined_log(buckets).len() == buckets.last().base + buckets.last().log.len()
            - buckets[0].base,
        forall|i: int|
            0 <= i < buckets.len() ==> buckets[0].base <= (#[trigger] buckets[i]).base
                && buckets[i].base + buckets[i].log.len() - buckets[0].base <= joined_log(
                buckets,
            ).len(),
        forall|i: int, k: int|
            0 <= i < buckets.len() && 0 <= k < buckets[i].log.len() ==> joined_log(
                buckets,
            )[buckets[i].base - buckets[0].base + k] == #[trigger] buckets[i].log[k],
    decreases buckets.len(),
{
    let front = buckets.drop_last();
    let last = buckets.len() - 1;
    let whole = joined_log(buckets);
    let before = joined_log(front);
    assert(whole == before + buckets[last].log);
    if front.len() > 0 {
        lemma_linked_front(buckets);
        lemma_joined_log(front);
        assert(follows(buckets, last - 1));
        assert(front[last - 1] == buckets[last - 1]);
        assert(front[0] == buckets[0]);
        assert(before.len() == buckets[last].base - buckets[0].base);
        assert forall|i: int| 0 <= i < buckets.len() implies buckets[0].base <= (
        #[trigger] buckets[i]).base && buckets[i].base + buckets[i].log.len() - buckets[0].base
            <= whole.len() by {
            if i < last {
                assert(front[i] == buckets[i]);
            }
        }
        assert forall|i: int, k: int|
            0 <= i < buckets.len() && 0 <= k < buckets[i].log.len() implies whole[buckets[i].base
            - buckets[0].base + k] == #[trigger] buckets[i].log[k] by {
            let at = buckets[i].base - buckets[0].base + k;
            if i < last {
                assert(front[i] == buckets[i]);
                assert(front[i].log[k] == buckets[i].log[k]);
                assert(before[at] == front[i].log[k]);
                assert(whole[at] == before[at]);
            } else {
                assert(at == before.len() + k);
                assert(whole[at] == buckets[last].log[k]);
            }
        }
    } else {
        assert(before =~= Seq::<EventView>::empty());
        assert(whole =~= buckets[0].log);
    }
}

/// Every place in the joined log of a linked list of buckets lies in one of
/// them.
pub proof fn lemma_locate(buckets: Seq<BucketView>, k: int) -> (i: int)
    requires
        buckets.len() > 0,
        linked(buckets),
        buckets[0].base <= k < buckets.last().base + buckets.last().log.len(),
    ensures
        0 <= i < buckets.len(),
        buckets[i].base <= k < buckets[i].base + buckets[i].log.len(),
    decreases buckets.len(),
{
    let last = buckets.len() - 1;
    if buckets[last].base <= k {
        last
    } else {
        let front = buckets.drop_last();
        assert(follows(buckets, last - 1));
        lemma_linked_front(buckets);
        assert(front[last - 1] == buckets[last - 1]);
        let i = lemma_locate(front, k);
        assert(front[i] == buckets[i]);
        i
    }
}

/// The mathematical value of a [`Chain`].
pub struct ChainView {
    pub application: Seq<u8>,
    pub buckets: Seq<BucketView>,
}

impl ChainView {
    /// The whole log of the application, oldest event first.
    pub open spec fn log(self) -> Seq<EventView> {
        joined_log(self.buckets)
    }

    /// The bucket that takes events.
    pub open spec fn terminal(self) -> BucketView {
        self.buckets.last()
    }

    /// The invariant of a chain: it has a bucket; every bucket is a bucket of
    /// the application; sequence ids start at zero and run on from bucket to
    /// bucket; every bucket but the last names the next as its successor, and
    /// the last names none.
    pub open spec fn wf(self) -> bool {
        &&& self.buckets.len() > 0
        &&& self.buckets[0].base == 0
        &&& forall|i: int|
            0 <= i < self.buckets.len() ==> (#[trigger] self.buckets[i]).wf() && self.buckets[i].owner
                == self.application
        &&& linked(self.buckets)
        &&& self.terminal().successor is None
    }

    /// The sequence id that the next event gets.
    pub open spec fn next_id(self) -> int {
        self.terminal().next_id()
    }

    /// Whether the chain takes an event from `caller`.
    pub open spec fn accepts(self, caller: Seq<u8>) -> bool {
        self.terminal().accepts(caller)
    }

    /// The chain after its last bucket took `event` at `time`.
    pub open spec fn inserted(self, event: IndefiniteEventView, time: u64) -> ChainView {
        ChainView {
            buckets: self.buckets.update(
                self.buckets.len() - 1,
                self.terminal().inserted(event, time),
            ),
            ..self
        }
    }

    /// Whether the chain can grow by a bucket of the given capacity: its last
    /// bucket is full, and the sequence ids of the new one fit in a `u64`.
    pub open spec fn can_extend(self, capacity: u64) -> bool {
        self.terminal().state() == BucketState::Full && self.next_id() + capacity <= u64::MAX
    }

    /// The chain after its last bucket was closed with a new, empty bucket in
    /// the storage unit `unit` as its successor.
    pub open spec fn extended(self, unit: Seq<u8>, capacity: u64) -> ChainView {
        ChainView {
            buckets: self.buckets.update(
                self.buckets.len() - 1,
                self.terminal().closed(unit),
            ).push(
                BucketView {
                    id: unit,
                    owner: self.application,
                    base: self.next_id() as u64,
                    capacity,
                    log: Seq::empty(),
                    successor: None,
                },
            ),
            ..self
        }
    }

    /// Where page `page` of `width` events starts in the log.
    pub open spec fn page_start(self, page: u32, width: u64) -> int {
        if page * width <= self.log().len() {
            page * width
        } else {
            self.log().len() as int
        }
    }

    /// Where page `page` of `width` events ends in the log.
    pub open spec fn page_end(self, page: u32, width: u64) -> int {
        if page * width + width <= self.log().len() {
            page * width + width
        } else {
            self.log().len() as int
        }
    }

    /// The events of page `page` where pages hold `width` events, oldest
    /// first, whatever buckets they stand in.
    pub open spec fn page(self, page: u32, width: u64) -> Seq<EventView> {
        self.log().subrange(self.page_start(page, width), self.page_end(page, width))
    }
}

/// In a chain, an event's sequence id is its place in the whole log, and the
/// log ends where the next sequence id begins.
pub proof fn law_ids_are_positions(c: ChainView)
    requires
        c.wf(),
    ensures
        c.log().len() == c.next_id(),
        forall|k: int| 0 <= k < c.log().len() ==> (#[trigger] c.log()[k]).id == k,
        forall|i: int|
            0 <= i < c.buckets.len() ==> (#[trigger] c.buckets[i]).base + c.buckets[i].log.len()
                <= c.log().len(),
        forall|i: int, k: int|
            0 <= i < c.buckets.len() && 0 <= k < c.buckets[i].log.len() ==> c.log()[c.buckets[i].base
                + k] == #[trigger] c.buckets[i].log[k],
{
    lemma_joined_log(c.buckets);
    assert forall|k: int| 0 <= k < c.log().len() implies (#[trigger] c.log()[k]).id == k by {
        let i = lemma_locate(c.buckets, k);
        let j = k - c.buckets[i].base;
        assert(c.buckets[i].wf());
        assert(c.buckets[i].log[j].id == c.buckets[i].base + j);
        assert(c.log()[c.buckets[i].base - c.buckets[0].base + j] == c.buckets[i].log[j]);
    }
}

/// A chain that takes an event keeps its invariant, and its log grows by
/// exactly that event, stored under the next sequence id.
pub proof fn law_insert_appends(c: ChainView, event: IndefiniteEventView, time: u64)
    requires
        c.wf(),
        c.terminal().state() == BucketState::Writable,
    ensures
        c.inserted(event, time).wf(),
        c.inserted(event, time).log() == c.log().push(
            event.stored(c.next_id() as u64, c.terminal().log.len() as u64, time),
        ),
        c.inserted(event, time).next_id() == c.next_id() + 1,
{
    let after = c.inserted(event, time);
    let last = c.buckets.len() - 1;
    assert(after.buckets.drop_last() =~= c.buckets.drop_last());
    assert(after.log() =~= c.log().push(
        event.stored(c.next_id() as u64, c.terminal().log.len() as u64, time),
    ));
    assert(c.buckets[last].wf());
    assert forall|i: int| 0 <= i < after.buckets.len() implies (#[trigger] after.buckets[i]).wf()
        && after.buckets[i].owner == after.application by {
        assert(c.buckets[i].wf());
    }
    assert forall|i: int| 0 <= i < after.buckets.len() - 1 implies #[trigger] follows(
        after.buckets,
        i,
    ) by {
        assert(follows(c.buckets, i));
    }
}

/// A chain that grows by a bucket keeps its invariant and its log; the new
/// bucket is writable for the application unless its capacity is zero.
pub proof fn law_extend_keeps_log(c: ChainView, unit: Seq<u8>, capacity: u64)
    requires
        c.wf(),
        c.can_extend(capacity),
    ensures
        c.extended(unit, capacity).wf(),
        c.extended(unit, capacity).log() == c.log(),
        c.extended(unit, capacity).next_id() == c.next_id(),
        capacity > 0 ==> c.extended(unit, capacity).accepts(c.application),
{
    let after = c.extended(unit, capacity);
    let last = c.buckets.len() - 1;
    let closed = c.buckets.update(last, c.terminal().closed(unit));
    assert(after.buckets.drop_last() =~= closed);
    assert(closed.drop_last() =~= c.buckets.drop_last());
    assert(joined_log(closed) =~= joined_log(c.buckets));
    assert(joined_log(after.buckets) =~= joined_log(closed));
    assert(c.buckets[last].wf());
    assert forall|i: int| 0 <= i < after.buckets.len() implies (#[trigger] after.buckets[i]).wf()
        && after.buckets[i].owner == after.application by {
        if i <= last {
            assert(c.buckets[i].wf());
        }
    }
    assert forall|i: int| 0 <= i < after.buckets.len() - 1 implies #[trigger] follows(
        after.buckets,
        i,
    ) by {
        if i < last {
            assert(follows(c.buckets, i));
        }
    }
}

/// The first `count` pages of `width` events of a log, one after the other.
pub open spec fn pages_joined(c: ChainView, count: nat, width: u64) -> Seq<EventView>
    decreases count,
{
    if count == 0 {
        Seq::empty()
    } else {
        pages_joined(c, (count - 1) as nat, width) + c.page((count - 1) as u32, width)
    }
}

/// Reading the pages of a log one after the other gives the log, oldest
/// event first and each event once: the first `count` pages are the first
/// `count * width` events, or the whole log where it is shorter.
pub proof fn law_pages_enumerate_log(c: ChainView, count: nat, width: u64)
    requires
        count <= u32::MAX,
    ensures
        pages_joined(c, count, width) == c.log().take(
            if count * width <= c.log().len() {
                count * width
            } else {
                c.log().len() as int
            },
        ),
    decreases count,
{
    let log = c.log();
    if count == 0 {
        assert(pages_joined(c, count, width) =~= log.take(0));
    } else {
        let before = (count - 1) as nat;
        law_pages_enumerate_log(c, before, width);
        assert(before * width + width == count * width) by (nonlinear_arith)
            requires
                before + 1 == count,
        ;
        assert(before * width >= 0) by (nonlinear_arith);
        let page = c.page(before as u32, width);
        assert(c.page_start(before as u32, width) == if before * width <= log.len() {
            before * width
        } else {
            log.len() as int
        });
        assert(pages_joined(c, count, width) =~= log.take(
            if count * width <= log.len() {
                count * width
            } else {
                log.len() as int
            },
        ));
    }
}

/// Every event of a log stands on exactly one page, at the place that its
/// sequence id gives.
pub proof fn law_event_on_one_page(c: ChainView, width: u64, k: int)
    requires
        c.wf(),
        width > 0,
        0 <= k < c.log().len(),
        k / (width as int) <= u32::MAX,
    ensures
        ({
            let p = (k / (width as int)) as u32;
            let j = k % (width as int);
            &&& j < c.page(p, width).len()
            &&& c.page(p, width)[j] == c.log()[k]
            &&& c.page(p, width)[j].id == k
        }),
{
    law_ids_are_positions(c);
    let w = width as int;
    let p = k / w;
    assert(p * w + k % w == k && 0 <= k % w < w) by (nonlinear_arith)
        requires
            p == k / w,
            w > 0,
            k >= 0,
    ;
    assert(p * w + w == (p + 1) * w) by (nonlinear_arith);
}

/// The values of a list of buckets, in order.
pub open spec fn buckets_view(buckets: Seq<Bucket>) -> Seq<BucketView> {
    buckets.map_values(|b: Bucket| b@)
}

/// The buckets of one application, oldest first.
#[derive(Debug)]
pub struct Chain {
    application: Identity,
    buckets: Vec<Bucket>,
}

impl View for Chain {
    type V = ChainView;

    closed spec fn view(&self) -> ChainView {
        ChainView { application: self.application@, buckets: buckets_view(self.buckets@) }
    }
}

impl Chain {
    /// Whether the digest of every bucket certifies its log.
    pub closed spec fn certified(&self) -> bool {
        forall|i: int| 0 <= i < self.buckets@.len() ==> (#[trigger] self.buckets@[i]).wf()
    }

    /// The invariant of the chain, with that of each of its buckets.
    pub open spec fn wf(&self) -> bool {
        &&& self@.wf()
        &&& self.certified()
    }

    /// The chain of `application` with one empty bucket, in the storage unit
    /// `unit`, that holds up to `capacity` events.
    pub fn open(application: Identity, unit: Identity, capacity: u64) -> (c: Chain)
        ensures
            c.wf(),
            c@.application == application@,
            c@.buckets == seq![
                BucketView {
                    id: unit@,
                    owner: application@,
                    base: 0,
                    capacity,
                    log: Seq::empty(),
                    successor: None,
                },
            ],
            c@.log() == Seq::<EventView>::empty(),
    {
        let root = Bucket::new(unit, application.duplicate(), 0, capacity).unwrap();
        let mut buckets: Vec<Bucket> = Vec::new();
        buckets.push(root);
        let c = Chain { application, buckets };
        proof {
            assert(c@.buckets =~= seq![root@]);
            assert(c@.buckets.drop_last() =~= Seq::<BucketView>::empty());
            assert(joined_log(c@.buckets.drop_last()) =~= Seq::<EventView>::empty());
            assert(c@.log() =~= Seq::<EventView>::empty());
        }
        c
    }

    /// The application whose log the chain holds.
    pub fn application(&self) -> (r: &Identity)
        ensures
            r@ == self@.application,
    {
        &self.application
    }

    /// The number of buckets in the chain.
    pub fn len(&self) -> (r: usize)
        ensures
            r == self@.buckets.len(),
    {
        self.buckets.len()
    }

    /// Bucket `i` of the chain, counted from the root.
    pub fn bucket(&self, i: usize) -> (r: Option<&Bucket>)
        ensures
            i < self@.buckets.len() <==> r is Some,
            r matches Some(b) ==> b@ == self@.buckets[i as int] && (self.wf() ==> b.wf()),
    {
        if i < self.buckets.len() {
            Some(&self.buckets[i])
        } else {
            None
        }
    }

    /// The first bucket of the chain, which never changes its place.
    pub fn root(&self) -> (r: &Bucket)
        requires
            self.wf(),
        ensures
            r.wf(),
            r@ == self@.buckets[0],
    {
        &self.buckets[0]
    }

    /// The last bucket of the chain: the one that takes events.
    pub fn terminal(&self) -> (r: &Bucket)
        requires
            self.wf(),
        ensures
            r.wf(),
            r@ == self@.terminal(),
    {
        &self.buckets[self.buckets.len() - 1]
    }

    /// The sequence id that the next event gets: the number of events in the
    /// whole log.
    pub fn next_id(&self) -> (r: u64)
        requires
            self.wf(),
        ensures
            r == self@.next_id(),
            r == self@.log().len(),
    {
        proof {
            law_ids_are_positions(self@);
        }
        self.buckets[self.buckets.len() - 1].next_id()
    }

    /// Appends `event`, written at `now`, to the last bucket, and returns the
    /// sequence id it got. Where the last bucket does not take it, nothing
    /// changes.
    pub fn insert(&mut self, caller: &Identity, event: IndefiniteEvent, now: u64) -> (r: Result<
        u64,
        InsertError,
    >)
        requires
            old(self).wf(),
        ensures
            final(self).wf(),
            old(self)@.accepts(caller@) ==> r == Ok::<u64, InsertError>(old(self)@.next_id() as u64)
                && final(self)@ == old(self)@.inserted(event@, now) && final(self)@.log() == old(
                self,
            )@.log().push(
                event@.stored(
                    old(self)@.next_id() as u64,
                    old(self)@.terminal().log.len() as u64,
                    now,
                ),
            ),
            !old(self)@.accepts(caller@) ==> r == Err::<u64, InsertError>(InsertError::CantWrite)
                && final(self)@ == old(self)@,
    {
        let ghost before = self@;
        let mut terminal = self.buckets.pop().unwrap();
        assert(terminal@ == before.terminal());
        let r = terminal.insert(caller, event, now);
        self.buckets.push(terminal);
        proof {
            assert(self@.buckets =~= before.buckets.update(before.buckets.len() - 1, terminal@));
            if before.accepts(caller@) {
                law_insert_appends(before, event@, now);
                assert(self@ == before.inserted(event@, now));
            } else {
                assert(self@.buckets =~= before.buckets);
            }
            assert forall|i: int| 0 <= i < self.buckets@.len() implies (
            #[trigger] self.buckets@[i]).wf() by {
                if i < self.buckets@.len() - 1 {
                    assert(self.buckets@[i] == old(self).buckets@[i]);
                }
            }
        }
        r
    }

    /// Closes the last bucket, when it is full, with a new and empty bucket in
    /// the storage unit `unit` as its successor. Where the last bucket is not
    /// full, or the sequence ids of the new one would not fit in a `u64`,
    /// nothing changes.
    pub fn extend(&mut self, unit: Identity, capacity: u64) -> (extended: bool)
        requires
            old(self).wf(),
        ensures
            final(self).wf(),
            extended == old(self)@.can_extend(capacity),
            extended ==> final(self)@ == old(self)@.extended(unit@, capacity) && final(self)@.log()
                == old(self)@.log(),
            !extended ==> final(self)@ == old(self)@,
    {
        let ghost before = self@;
        let last: usize = self.buckets.len() - 1;
        assert(self.buckets@[last as int].wf());
        let full = match self.buckets[last].state() {
            BucketState::Full => true,
            _ => false,
        };
        let next: u64 = self.buckets[last].next_id();
        if !full || capacity > u64::MAX - next {
            return false;
        }
        let owner = self.application.duplicate();
        let successor = Bucket::new(unit.duplicate(), owner, next, capacity).unwrap();
        let mut terminal = self.buckets.pop().unwrap();
        let closed = terminal.close(unit);
        assert(closed);
        self.buckets.push(terminal);
        self.buckets.push(successor);
        proof {
            law_extend_keeps_log(before, unit@, capacity);
            assert(self@.buckets =~= before.extended(unit@, capacity).buckets);
            assert forall|i: int| 0 <= i < self.buckets@.len() implies (
            #[trigger] self.buckets@[i]).wf() by {
                if i < last {
                    assert(self.buckets@[i] == old(self).buckets@[i]);
                }
            }
        }
        true
    }

    /// The event with sequence id `id`: the chain is walked from the root on
    /// until the bucket that holds the event answers.
    pub fn get_transaction(&self, id: u64) -> (r: Result<&Event, QueryError>)
        requires
            self.wf(),
        ensures
            id < self@.log().len() ==> r is Ok && r->Ok_0@ == self@.log()[id as int],
            id >= self@.log().len() ==> r == Err::<&Event, QueryError>(QueryError::InvalidId),
    {
        proof {
            law_ids_are_positions(self@);
        }
        let mut i: usize = 0;
        while i < self.buckets.len()
            invariant
                self.wf(),
                i <= self.buckets.len(),
                i < self.buckets.len() ==> self@.buckets[i as int].base <= id,
                i == self.buckets.len() ==> id >= self@.log().len(),
                self@.log().len() == self@.next_id(),
                forall|j: int|
                    0 <= j < self@.buckets.len() ==> (#[trigger] self@.buckets[j]).base
                        + self@.buckets[j].log.len() <= self@.log().len(),
                forall|j: int, k: int|
                    0 <= j < self@.buckets.len() && 0 <= k < self@.buckets[j].log.len()
                        ==> self@.log()[self@.buckets[j].base + k] == #[trigger] self@.buckets[j].log[k],
            decreases self.buckets.len() - i,
        {
            assert(self.buckets@[i as int].wf());
            assert(self.buckets@[i as int]@ == self@.buckets[i as int]);
            match self.buckets[i].get_transaction(id) {
                Ok(event) => {
                    proof {
                        let b = self@.buckets[i as int];
                        let k = id - b.base;
                        assert(self@.log()[b.base + k] == b.log[k]);
                    }
                    return Ok(event);
                },
                Err(_) => {
                    proof {
                        if i + 1 < self.buckets.len() {
                            assert(follows(self@.buckets, i as int));
                        }
                    }
                },
            }
            i += 1;
        }
        Err(QueryError::InvalidId)
    }

    /// Page `page` of the whole log, where pages hold `width` events: oldest
    /// event first, whatever buckets the events stand in.
    pub fn get_transactions(&self, page: u32, width: u64) -> (r: Vec<Event>)
        requires
            self.wf(),
        ensures
            events_view(r@) == self@.page(page, width),
    {
        let total: u64 = self.next_id();
        assert(page * width <= 0xffff_ffff * 0xffff_ffff_ffff_ffff) by (nonlinear_arith)
            requires
                page <= 0xffff_ffff,
                width <= 0xffff_ffff_ffff_ffff,
        ;
        let first: u128 = (page as u128) * (width as u128);
        let start: u64 = if first <= total as u128 {
            first as u64
        } else {
            total
        };
        let end: u64 = if first + width as u128 <= total as u128 {
            (first + width as u128) as u64
        } else {
            total
        };
        let mut out: Vec<Event> = Vec::new();
        let mut k: u64 = start;
        while k < end
            invariant
                self.wf(),
                start <= k <= end <= self@.log().len(),
                out@.len() == k - start,
                forall|j: int| 0 <= j < k - start ==> out@[j]@ == self@.log()[start + j],
            decreases end - k,
        {
            match self.get_transaction(k) {
                Ok(event) => {
                    out.push(event.duplicate());
                },
                Err(_) => {},
            }
            k += 1;
        }
        assert(events_view(out@) =~= self@.page(page, width));
        out
    }
}

} // verus!
