//! The byte form of events: what the certified digest of a log is taken over.
//!
//! Numbers are eight bytes, least significant first. Byte strings and texts
//! carry their length in front; texts are written as UTF-8. A detail value
//! starts with one byte that tells its variant.

use vstd::prelude::*;
use vstd::bytes::{spec_u64_to_le_bytes, u64_to_le_bytes};
use vstd::string::StrSliceExecFns;
use vstd::utf8::encode_utf8;
use crate::event::{DetailValue, DetailView, Event, EventView, fields_view, values_view};

verus! {

/// The byte form of a number.
pub open spec fn encode_u64(n: u64) -> Seq<u8> {
    spec_u64_to_le_bytes(n)
}

/// The byte form of a byte string: its length, then the bytes.
pub open spec fn encode_bytes(b: Seq<u8>) -> Seq<u8> {
    encode_u64(b.len() as u64) + b
}

/// The byte form of a text: its UTF-8 bytes as a byte string.
pub open spec fn encode_text(s: Seq<char>) -> Seq<u8> {
    encode_bytes(encode_utf8(s))
}

/// The byte form of a detail value.
pub open spec fn encode_value(v: DetailView) -> Seq<u8>
    decreases v,
{
    match v {
        DetailView::True => seq![0u8],
        DetailView::False => seq![1u8],
        DetailView::U64(n) => seq![2u8] + encode_u64(n),
        DetailView::I64(n) => seq![3u8] + encode_u64(n as u64),
        DetailView::Text(s) => seq![4u8] + encode_text(s),
        DetailView::Slice(b) => seq![5u8] + encode_bytes(b),
        DetailView::Principal(p) => seq![6u8] + encode_bytes(p),
        DetailView::Array(a) => seq![7u8] + encode_u64(a.len() as u64) + encode_values(a),
        DetailView::Mapping(m) => seq![8u8] + encode_u64(m.len() as u64) + encode_fields(m),
    }
}

/// The byte forms of a list of detail values, one after the other.
pub open spec fn encode_values(a: Seq<DetailView>) -> Seq<u8>
    decreases a,
{
    if a.len() == 0 {
        Seq::empty()
    } else {
        encode_values(a.drop_last()) + encode_value(a.last())
    }
}

/// The byte forms of a list of detail fields, one after the other: each name
/// as a text, then its value.
pub open spec fn encode_fields(m: Seq<(Seq<char>, DetailView)>) -> Seq<u8>
    decreases m,
{
    if m.len() == 0 {
        Seq::empty()
    } else {
        encode_fields(m.drop_last()) + encode_text(m.last().0) + encode_value(m.last().1)
    }
}

/// The byte form of a stored event.
pub open spec fn encode_event(e: EventView) -> Seq<u8> {
    encode_u64(e.id) + encode_u64(e.offset) + encode_u64(e.time) + encode_bytes(e.caller)
        + encode_text(e.operation) + encode_u64(e.details.len() as u64) + encode_fields(e.details)
}

/// Appends `b` to `out`.
fn push_all(out: &mut Vec<u8>, b: &Vec<u8>)
    ensures
        final(out)@ == old(out)@ + b@,
{
    let mut i: usize = 0;
    while i < b.len()
        invariant
            i <= b.len(),
            out@ == old(out)@ + b@.take(i as int),
        decreases b.len() - i,
    {
        out.push(b[i]);
        i += 1;
        assert(out@ =~= old(out)@ + b@.take(i as int));
    }
    assert(b@.take(b.len() as int) =~= b@);
}

/// Appends the byte form of `n` to `out`.
fn write_u64(out: &mut Vec<u8>, n: u64)
    ensures
        final(out)@ == old(out)@ + encode_u64(n),
{
    let b = u64_to_le_bytes(n);
    push_all(out, &b);
}

/// Appends the byte form of the byte string `b` to `out`.
fn write_bytes(out: &mut Vec<u8>, b: &Vec<u8>)
    ensures
        final(out)@ == old(out)@ + encode_bytes(b@),
{
    write_u64(out, b.len() as u64);
    push_all(out, b);
    assert(out@ =~= old(out)@ + encode_bytes(b@));
}

/// Appends the byte form of the text `s` to `out`.
fn write_text(out: &mut Vec<u8>, s: &str)
    ensures
        final(out)@ == old(out)@ + encode_text(s@),
{
    let b = s.as_bytes_vec();
    write_bytes(out, &b);
}

/// Appends the byte form of the detail value `v` to `out`.
fn write_value(out: &mut Vec<u8>, v: &DetailValue)
    ensures
        final(out)@ == old(out)@ + encode_value(v@),
    decreases v,
{
    match v {
        DetailValue::True => {
            out.push(0u8);
            assert(out@ =~= old(out)@ + encode_value(v@));
        },
        DetailValue::False => {
            out.push(1u8);
            assert(out@ =~= old(out)@ + encode_value(v@));
        },
        DetailValue::U64(n) => {
            out.push(2u8);
            write_u64(out, *n);
            assert(out@ =~= old(out)@ + encode_value(v@));
        },
        DetailValue::I64(n) => {
            out.push(3u8);
            write_u64(out, *n as u64);
            assert(out@ =~= old(out)@ + encode_value(v@));
        },
        DetailValue::Text(s) => {
            out.push(4u8);
            write_text(out, s.as_str());
            assert(out@ =~= old(out)@ + encode_value(v@));
        },
        DetailValue::Slice(b) => {
            out.push(5u8);
            write_bytes(out, b);
            assert(out@ =~= old(out)@ + encode_value(v@));
        },
        DetailValue::Principal(p) => {
            out.push(6u8);
            write_bytes(out, p.as_bytes());
            assert(out@ =~= old(out)@ + encode_value(v@));
        },
        DetailValue::Array(a) => {
            assert(decreases_to!(*v => v->Array_0));
            out.push(7u8);
            write_u64(out, a.len() as u64);
            write_values(out, a);
            assert(out@ =~= old(out)@ + encode_value(v@));
        },
        DetailValue::Mapping(m) => {
            assert(decreases_to!(*v => v->Mapping_0));
            out.push(8u8);
            write_u64(out, m.len() as u64);
            write_fields(out, m);
            assert(out@ =~= old(out)@ + encode_value(v@));
        },
    }
}

/// Appends the byte forms of the detail values `a` to `out`.
fn write_values(out: &mut Vec<u8>, a: &Vec<DetailValue>)
    ensures
        final(out)@ == old(out)@ + encode_values(values_view(a@)),
    decreases a,
{
    let ghost all = values_view(a@);
    let mut i: usize = 0;
    assert(all.take(0) =~= Seq::<DetailView>::empty());
    assert(out@ =~= old(out)@ + encode_values(all.take(0)));
    while i < a.len()
        invariant
            i <= a.len(),
            all == values_view(a@),
            out@ == old(out)@ + encode_values(all.take(i as int)),
        decreases a.len() - i,
    {
        assert(decreases_to!(*a => a[i as int]));
        write_value(out, &a[i]);
        proof {
            let next = all.take(i as int + 1);
            assert(next.drop_last() =~= all.take(i as int));
            assert(next.last() == a@[i as int]@);
            assert(out@ =~= old(out)@ + encode_values(next));
        }
        i += 1;
    }
    assert(all.take(a.len() as int) =~= all);
}

/// Appends the byte forms of the detail fields `m` to `out`.
fn write_fields(out: &mut Vec<u8>, m: &Vec<(String, DetailValue)>)
    ensures
        final(out)@ == old(out)@ + encode_fields(fields_view(m@)),
    decreases m,
{
    let ghost all = fields_view(m@);
    let mut i: usize = 0;
    assert(all.take(0) =~= Seq::<(Seq<char>, DetailView)>::empty());
    assert(out@ =~= old(out)@ + encode_fields(all.take(0)));
    while i < m.len()
        invariant
            i <= m.len(),
            all == fields_view(m@),
            out@ == old(out)@ + encode_fields(all.take(i as int)),
        decreases m.len() - i,
    {
        assert(decreases_to!(*m => m[i as int]));
        assert(decreases_to!(m[i as int] => m[i as int].1));
        write_text(out, m[i].0.as_str());
        write_value(out, &m[i].1);
        proof {
            let next = all.take(i as int + 1);
            assert(next.drop_last() =~= all.take(i as int));
            assert(next.last() == (m@[i as int].0@, m@[i as int].1@));
            assert(out@ =~= old(out)@ + encode_fields(next));
        }
        i += 1;
    }
    assert(all.take(m.len() as int) =~= all);
}

/// The byte form of a detail value.
pub fn value_bytes(v: &DetailValue) -> (r: Vec<u8>)
    ensures
        r@ == encode_value(v@),
{
    let mut out: Vec<u8> = Vec::new();
    write_value(&mut out, v);
    assert(out@ =~= encode_value(v@));
    out
}

/// The byte form of a stored event.
pub fn event_bytes(e: &Event) -> (r: Vec<u8>)
    ensures
        r@ == encode_event(e@),
{
    let mut out: Vec<u8> = Vec::new();
    write_u64(&mut out, e.id);
    write_u64(&mut out, e.offset);
    write_u64(&mut out, e.time);
    write_bytes(&mut out, e.caller.as_bytes());
    write_text(&mut out, e.operation.as_str());
    write_u64(&mut out, e.details.len() as u64);
    write_fields(&mut out, &e.details);
    assert(out@ =~= encode_event(e@));
    out
}

} // verus!
