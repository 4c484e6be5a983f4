//! The certified form of a log: a digest that commits to every event and to
//! their order, so that a reader can check a log it was handed.
//!
//! The digest of the empty log is the leaf hash of no bytes. The digest of a
//! log with one more event is the fork hash of the digest before and the leaf
//! hash of the event's byte form.

use vstd::prelude::*;
use crate::encoding::{encode_event, event_bytes};
use crate::event::{Event, EventView, events_view};

verus! {

/// The hash of a leaf of the hash tree that holds `data`.
pub uninterp spec fn leaf_digest(data: Seq<u8>) -> Seq<u8>;

/// The hash of a fork of the hash tree whose branches hash to `left` and
/// `right`.
pub uninterp spec fn fork_digest(left: Seq<u8>, right: Seq<u8>) -> Seq<u8>;

/// `ic_certified_map::leaf_hash` is a hash of its argument alone: its result
/// is the named leaf hash of the bytes.
pub assume_specification[ ic_certified_map::leaf_hash ](data: &[u8]) -> (h: ic_certified_map::Hash)
    ensures
        h@ == leaf_digest(data@),
;

/// `ic_certified_map::fork_hash` is a hash of its two arguments alone: its
/// result is the named fork hash of the two.
pub assume_specification[ ic_certified_map::fork_hash ](
    l: &ic_certified_map::Hash,
    r: &ic_certified_map::Hash,
) -> (h: ic_certified_map::Hash)
    ensures
        h@ == fork_digest(l@, r@),
;

/// The digest that certifies `log`.
pub open spec fn certified_digest(log: Seq<EventView>) -> Seq<u8>
    decreases log.len(),
{
    if log.len() == 0 {
        leaf_digest(Seq::empty())
    } else {
        fork_digest(certified_digest(log.drop_last()), leaf_digest(encode_event(log.last())))
    }
}

/// Appending an event to a log forks its digest with the event's leaf.
pub proof fn lemma_digest_push(log: Seq<EventView>, e: EventView)
    ensures
        certified_digest(log.push(e)) == fork_digest(
            certified_digest(log),
            leaf_digest(encode_event(e)),
        ),
{
    assert(log.push(e).drop_last() =~= log);
}

/// The digest of the empty log.
pub fn empty_digest() -> (h: [u8; 32])
    ensures
        h@ == certified_digest(Seq::empty()),
{
    let nothing: Vec<u8> = Vec::new();
    ic_certified_map::leaf_hash(nothing.as_slice())
}

/// The digest of the log that `previous` certifies, with `event` appended.
pub fn extend_digest(previous: &[u8; 32], event: &Event) -> (h: [u8; 32])
    ensures
        h@ == fork_digest(previous@, leaf_digest(encode_event(event@))),
{
    let bytes = event_bytes(event);
    let leaf = ic_certified_map::leaf_hash(bytes.as_slice());
    ic_certified_map::fork_hash(previous, &leaf)
}

/// The digest that certifies `events`.
pub fn digest_of(events: &Vec<Event>) -> (h: [u8; 32])
    ensures
        h@ == certified_digest(events_view(events@)),
{
    let ghost log = events_view(events@);
    let mut h = empty_digest();
    let mut i: usize = 0;
    assert(log.take(0) =~= Seq::<EventView>::empty());
    while i < events.len()
        invariant
            i <= events.len(),
            log == events_view(events@),
            h@ == certified_digest(log.take(i as int)),
        decreases events.len() - i,
    {
        h = extend_digest(&h, &events[i]);
        proof {
            lemma_digest_push(log.take(i as int), events@[i as int]@);
            assert(log.take(i as int).push(events@[i as int]@) =~= log.take(i as int + 1));
        }
        i += 1;
    }
    assert(log.take(events.len() as int) =~= log);
    h
}

/// Whether two digests are the same.
pub fn digest_equal(a: &[u8; 32], b: &[u8; 32]) -> (r: bool)
    ensures
        r == (a@ == b@),
{
    let mut i: usize = 0;
    while i < 32
        invariant
            i <= 32,
            forall|j: int| 0 <= j < i ==> a@[j] == b@[j],
        decreases 32 - i,
    {
        if a[i] != b[i] {
            return false;
        }
        i += 1;
    }
    assert(a@ =~= b@);
    true
}

/// Whether `expected` certifies exactly `events`, in this order.
pub fn certifies(expected: &[u8; 32], events: &Vec<Event>) -> (r: bool)
    ensures
        r == (expected@ == certified_digest(events_view(events@))),
{
    let h = digest_of(events);
    digest_equal(expected, &h)
}

} // verus!
