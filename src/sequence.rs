//! Sequences: an atom whose body is `{unit, pad}` followed by events, each
//! event padded to 8 bytes. A sequence buffer holds the sequence atom from
//! its first byte; events start at byte 16.
use vstd::prelude::*;

use crate::atom::{LV2Atom, LV2AtomEvent, LV2AtomSequence, LV2AtomSequenceBody};
use crate::layout::{
    lv2_atom_pad_size, padded, read_atom, read_u32, read_u64, u32_at, u64_at, with_u32, write_u32,
};

verus! {

/// Width of an event header: the time stamp, then the body atom's header.
pub const EVENT_HEADER_SIZE: u32 = 16;

/// Width of a sequence's fixed body: `unit` then `pad`.
pub const SEQUENCE_BODY_SIZE: u32 = 8;

/// The body size of the event at `pos`.
pub open spec fn event_body_size(s: Seq<u8>, pos: int) -> int {
    u32_at(s, pos + 8) as int
}

/// The distance from the event at `pos` to the next one: its header, then
/// its body padded to 8 bytes.
pub open spec fn event_step(s: Seq<u8>, pos: int) -> int {
    16 + padded(event_body_size(s, pos))
}

/// What an event holds: time stamp, body type and body bytes.
pub open spec fn event_view(s: Seq<u8>, pos: int) -> (i64, u32, Seq<u8>) {
    (
        u64_at(s, pos) as i64,
        u32_at(s, pos + 12),
        s.subrange(pos + 16, pos + 16 + event_body_size(s, pos)),
    )
}

/// The header of the event at `pos`.
pub open spec fn event_at(s: Seq<u8>, pos: int) -> LV2AtomEvent {
    LV2AtomEvent {
        time_in_frames: u64_at(s, pos) as i64,
        body: LV2Atom { size: u32_at(s, pos + 8), type_: u32_at(s, pos + 12) },
    }
}

/// How far a walk at `pos` still has to go before `end`.
pub open spec fn walk_gap(pos: int, end: int) -> nat {
    if pos < end {
        (end - pos) as nat
    } else {
        0
    }
}

#[via_fn]
proof fn event_offsets_decreases(s: Seq<u8>, pos: int, end: int) {
    crate::layout::lemma_pad_idempotent(event_body_size(s, pos));
}

#[via_fn]
proof fn events_stop_decreases(s: Seq<u8>, pos: int, end: int) {
    crate::layout::lemma_pad_idempotent(event_body_size(s, pos));
}

#[via_fn]
proof fn events_in_decreases(s: Seq<u8>, pos: int, end: int) {
    crate::layout::lemma_pad_idempotent(event_body_size(s, pos));
}

/// The offsets of the events visited from `pos` while the cursor is below `end`.
pub open spec fn event_offsets(s: Seq<u8>, pos: int, end: int) -> Seq<int>
    decreases walk_gap(pos, end)
    via event_offsets_decreases

{
    if pos >= end {
        Seq::empty()
    } else {
        seq![pos] + event_offsets(s, pos + event_step(s, pos), end)
    }
}

/// Where a walk from `pos` towards `end` stops.
pub open spec fn events_stop(s: Seq<u8>, pos: int, end: int) -> int
    decreases walk_gap(pos, end)
    via events_stop_decreases

{
    if pos >= end {
        pos
    } else {
        events_stop(s, pos + event_step(s, pos), end)
    }
}

/// Every event visited from `pos` towards `end` lies whole inside `s`.
pub open spec fn events_in(s: Seq<u8>, pos: int, end: int) -> bool
    decreases walk_gap(pos, end)
    via events_in_decreases

{
    if pos >= end {
        true
    } else {
        pos + 16 + event_body_size(s, pos) <= s.len() && events_in(s, pos + event_step(s, pos), end)
    }
}

/// The logical size of the sequence held by `s`.
pub open spec fn seq_size(s: Seq<u8>) -> int {
    u32_at(s, 0) as int
}

/// The offset just past the last event: the body's start plus its padded size.
pub open spec fn seq_end(s: Seq<u8>) -> int {
    8 + padded(seq_size(s))
}

/// A well-formed sequence buffer: its events lie inside the buffer and the
/// walk over them stops exactly at the padded end of the body.
pub open spec fn seq_wf(s: Seq<u8>) -> bool {
    16 <= s.len() && events_in(s, 16, 8 + seq_size(s)) && events_stop(s, 16, 8 + seq_size(s))
        == seq_end(s)
}

/// The events of the sequence held by `s`, in stored order.
pub open spec fn seq_events(s: Seq<u8>) -> Seq<(i64, u32, Seq<u8>)> {
    event_offsets(s, 16, 8 + seq_size(s)).map_values(|p: int| event_view(s, p))
}

/// An event buffer holds an event from its first byte, body included.
pub open spec fn event_wf(ev: Seq<u8>) -> bool {
    16 <= ev.len() && 16 + event_body_size(ev, 0) <= ev.len()
}

/// The number of bytes an event occupies unpadded.
pub open spec fn event_total(ev: Seq<u8>) -> int {
    16 + event_body_size(ev, 0)
}

/// `s` after clearing: the size is reset to the fixed body alone.
pub open spec fn cleared(s: Seq<u8>) -> Seq<u8> {
    with_u32(s, 0, 8)
}

/// Appending `ev` to the sequence in `s` fits the capacity, the buffer and
/// the size field.
pub open spec fn append_fits(s: Seq<u8>, capacity: u32, ev: Seq<u8>) -> bool {
    &&& seq_size(s) <= capacity
    &&& event_total(ev) <= capacity - seq_size(s)
    &&& seq_end(s) + event_total(ev) <= s.len()
    &&& seq_size(s) + padded(event_total(ev)) <= u32::MAX
}

/// `s` after appending `ev`: the event's bytes are copied to the end of the
/// sequence and the size grows by the padded event size.
pub open spec fn appended(s: Seq<u8>, ev: Seq<u8>) -> Seq<u8> {
    let e = seq_end(s);
    let total = event_total(ev);
    let copied = Seq::new(s.len(), |j: int| if e <= j < e + total { ev[j - e] } else { s[j] });
    with_u32(copied, 0, (seq_size(s) + padded(total)) as u32)
}

proof fn lemma_padded_shift(x: int, m: int)
    requires
        m % 8 == 0,
    ensures
        padded(x + m) == padded(x) + m,
{
    assert((x + m + 7) % 8 == (x + 7) % 8) by {
        vstd::arithmetic::div_mod::lemma_mod_add_multiples_vanish(x + 7, 8);
        assert(m == 8 * (m / 8));
        vstd::arithmetic::div_mod::lemma_mod_multiples_vanish(m / 8, x + 7, 8);
    }
}

proof fn lemma_stop_facts(s: Seq<u8>, pos: int, end: int)
    ensures
        events_stop(s, pos, end) >= pos,
        events_stop(s, pos, end) >= end,
        pos < end ==> events_stop(s, pos, end) >= pos + event_step(s, pos),
    decreases walk_gap(pos, end),
{
    if pos < end {
        crate::layout::lemma_pad_idempotent(event_body_size(s, pos));
        lemma_stop_facts(s, pos + event_step(s, pos), end);
    }
}

/// Every visited event lies between `pos` and the stop, padding included.
proof fn lemma_offsets_bounds(s: Seq<u8>, pos: int, end: int)
    ensures
        forall|k: int|
            0 <= k < event_offsets(s, pos, end).len() ==> pos <= #[trigger] event_offsets(
                s,
                pos,
                end,
            )[k] && event_offsets(s, pos, end)[k] + event_step(s, event_offsets(s, pos, end)[k])
                <= events_stop(s, pos, end),
    decreases walk_gap(pos, end),
{
    if pos < end {
        let next = pos + event_step(s, pos);
        crate::layout::lemma_pad_idempotent(event_body_size(s, pos));
        lemma_offsets_bounds(s, next, end);
        lemma_stop_facts(s, next, end);
        let offs = event_offsets(s, pos, end);
        assert forall|k: int| 0 <= k < offs.len() implies pos <= #[trigger] offs[k] && offs[k]
            + event_step(s, offs[k]) <= events_stop(s, pos, end) by {
            if k > 0 {
                assert(offs[k] == event_offsets(s, next, end)[k - 1]);
            }
        }
    }
}

/// The walk over `s` up to `end`, extended by one event at its stop, is the
/// walk over `s2` up to `end2` when `s2` keeps the bytes before the stop.
proof fn lemma_walk_extend(s: Seq<u8>, s2: Seq<u8>, pos: int, end: int, end2: int)
    requires
        events_in(s, pos, end),
        s2.len() == s.len(),
        forall|j: int| pos <= j < events_stop(s, pos, end) ==> s2[j] == s[j],
        events_stop(s, pos, end) < end2,
        events_stop(s, pos, end) + event_step(s2, events_stop(s, pos, end)) >= end2,
        events_stop(s, pos, end) + 16 + event_body_size(s2, events_stop(s, pos, end)) <= s2.len(),
    ensures
        events_in(s2, pos, end2),
        events_stop(s2, pos, end2) == events_stop(s, pos, end) + event_step(
            s2,
            events_stop(s, pos, end),
        ),
        event_offsets(s2, pos, end2) == event_offsets(s, pos, end).push(events_stop(s, pos, end)),
    decreases walk_gap(pos, end),
{
    let stop = events_stop(s, pos, end);
    if pos >= end {
        let next2 = pos + event_step(s2, pos);
        assert(events_in(s2, next2, end2));
        assert(events_stop(s2, next2, end2) == next2);
        assert(event_offsets(s2, next2, end2) == Seq::<int>::empty());
        assert(event_offsets(s2, pos, end2) =~= seq![pos]);
        assert(event_offsets(s, pos, end).push(stop) =~= seq![pos]);
    } else {
        let next = pos + event_step(s, pos);
        crate::layout::lemma_pad_idempotent(event_body_size(s, pos));
        lemma_stop_facts(s, next, end);
        assert(s2[pos + 8] == s[pos + 8] && s2[pos + 9] == s[pos + 9] && s2[pos + 10] == s[pos
            + 10] && s2[pos + 11] == s[pos + 11]);
        assert(event_step(s2, pos) == event_step(s, pos));
        lemma_walk_extend(s, s2, next, end, end2);
        assert(event_offsets(s2, pos, end2) =~= seq![pos] + event_offsets(s2, next, end2));
        assert(event_offsets(s, pos, end).push(stop) =~= seq![pos] + event_offsets(
            s,
            next,
            end,
        ).push(stop));
    }
}

proof fn lemma_view_frame(s: Seq<u8>, s2: Seq<u8>, p: int, hi: int)
    requires
        0 <= p,
        p + event_step(s, p) <= hi,
        hi <= s.len(),
        hi <= s2.len(),
        forall|j: int| p <= j < hi ==> s2[j] == s[j],
    ensures
        event_view(s2, p) == event_view(s, p),
{
    assert(event_body_size(s2, p) == event_body_size(s, p));
    assert(u64_at(s2, p) == u64_at(s, p));
    assert(u32_at(s2, p + 12) == u32_at(s, p + 12));
    assert(s2.subrange(p + 16, p + 16 + event_body_size(s, p)) =~= s.subrange(
        p + 16,
        p + 16 + event_body_size(s, p),
    ));
}

/// Appending to a well-formed sequence keeps it well-formed and adds the
/// event after the existing ones.
pub proof fn lemma_append_events(s: Seq<u8>, capacity: u32, ev: Seq<u8>)
    requires
        seq_wf(s),
        event_wf(ev),
        append_fits(s, capacity, ev),
    ensures
        seq_wf(appended(s, ev)),
        seq_events(appended(s, ev)) == seq_events(s).push(event_view(ev, 0)),
{
    let s2 = appended(s, ev);
    let e = seq_end(s);
    let total = event_total(ev);
    let size2 = seq_size(s) + padded(total);
    let copied = Seq::new(s.len(), |j: int| if e <= j < e + total { ev[j - e] } else { s[j] });
    crate::layout::lemma_with_u32(copied, 0, size2 as u32);
    assert(seq_size(s2) == size2);
    crate::layout::lemma_pad_idempotent(seq_size(s));
    crate::layout::lemma_pad_idempotent(event_body_size(ev, 0));
    crate::layout::lemma_pad_idempotent(total);
    // the copied event reads back as the source event
    assert forall|j: int| 0 <= j < total implies #[trigger] s2[e + j] == ev[j] by {}
    assert(s2[e + 8] == ev[8] && s2[e + 9] == ev[9] && s2[e + 10] == ev[10] && s2[e + 11]
        == ev[11]);
    assert(event_body_size(s2, e) == event_body_size(ev, 0));
    assert(padded(total) == 16 + padded(event_body_size(ev, 0))) by {
        lemma_padded_shift(event_body_size(ev, 0), 16);
    }
    assert(event_step(s2, e) == padded(total));
    lemma_stop_facts(s, 16, 8 + seq_size(s));
    lemma_walk_extend(s, s2, 16, 8 + seq_size(s), 8 + size2);
    assert(padded(size2) == padded(seq_size(s)) + padded(total)) by {
        lemma_padded_shift(seq_size(s), padded(total));
    }
    assert(seq_wf(s2));
    // the events already there read the same
    let offs = event_offsets(s, 16, 8 + seq_size(s));
    lemma_offsets_bounds(s, 16, 8 + seq_size(s));
    assert(event_view(s2, e) == event_view(ev, 0)) by {
        assert(u64_at(s2, e) == u64_at(ev, 0));
        assert(u32_at(s2, e + 12) == u32_at(ev, 12));
        assert(s2.subrange(e + 16, e + 16 + event_body_size(ev, 0)) =~= ev.subrange(
            16,
            16 + event_body_size(ev, 0),
        ));
    }
    assert forall|k: int| 0 <= k < offs.len() implies event_view(s2, #[trigger] offs[k])
        == event_view(s, offs[k]) by {
        lemma_view_frame(s, s2, offs[k], e);
    }
    assert(seq_events(s2) =~= seq_events(s).push(event_view(ev, 0)));
}

} // verus!

verus! {

proof fn lemma_cleared(s: Seq<u8>)
    requires
        16 <= s.len(),
    ensures
        seq_wf(cleared(s)),
        seq_events(cleared(s)) == Seq::<(i64, u32, Seq<u8>)>::empty(),
{
    crate::layout::lemma_with_u32(s, 0, 8);
    let c = cleared(s);
    assert(seq_size(c) == 8);
    assert(event_offsets(c, 16, 16) == Seq::<int>::empty());
    assert(seq_events(c) =~= Seq::<(i64, u32, Seq<u8>)>::empty());
}

/// Appending events one after another to an empty sequence, each append
/// fitting, leaves exactly those events in append order, with their time
/// stamps, types and body bytes.
pub proof fn lemma_append_round_trip(states: Seq<Seq<u8>>, capacity: u32, events: Seq<Seq<u8>>)
    requires
        states.len() == events.len() + 1,
        seq_wf(states[0]),
        seq_events(states[0]) == Seq::<(i64, u32, Seq<u8>)>::empty(),
        forall|k: int|
            0 <= k < events.len() ==> event_wf(#[trigger] events[k]) && append_fits(
                states[k],
                capacity,
                events[k],
            ) && states[k + 1] == appended(states[k], events[k]),
    ensures
        seq_wf(states.last()),
        seq_events(states.last()) == events.map_values(|ev: Seq<u8>| event_view(ev, 0)),
    decreases events.len(),
{
    let n = events.len() as int;
    if n == 0 {
        assert(events.map_values(|ev: Seq<u8>| event_view(ev, 0)) =~= Seq::<
            (i64, u32, Seq<u8>),
        >::empty());
    } else {
        let states0 = states.drop_last();
        let events0 = events.drop_last();
        assert forall|k: int| 0 <= k < events0.len() implies event_wf(#[trigger] events0[k])
            && append_fits(states0[k], capacity, events0[k]) && states0[k + 1] == appended(
            states0[k],
            events0[k],
        ) by {
            assert(events0[k] == events[k]);
        }
        lemma_append_round_trip(states0, capacity, events0);
        assert(event_wf(events[n - 1]));
        lemma_append_events(states[n - 1], capacity, events[n - 1]);
        assert(events.map_values(|ev: Seq<u8>| event_view(ev, 0)) =~= events0.map_values(
            |ev: Seq<u8>| event_view(ev, 0),
        ).push(event_view(events[n - 1], 0)));
    }
}

/// Clearing a sequence and appending one event leaves exactly that event,
/// whatever bytes the buffer held before.
pub proof fn lemma_clear_then_append(s: Seq<u8>, capacity: u32, ev: Seq<u8>)
    requires
        16 <= s.len(),
        event_wf(ev),
        append_fits(cleared(s), capacity, ev),
    ensures
        seq_wf(appended(cleared(s), ev)),
        seq_events(appended(cleared(s), ev)) == seq![event_view(ev, 0)],
{
    lemma_cleared(s);
    lemma_append_events(cleared(s), capacity, ev);
    assert(Seq::<(i64, u32, Seq<u8>)>::empty().push(event_view(ev, 0)) =~= seq![
        event_view(ev, 0),
    ]);
}

/// An event one byte larger than the remaining capacity does not fit; one
/// exactly as large fits when the buffer and the size field have room.
pub proof fn lemma_capacity_boundary(s: Seq<u8>, capacity: u32, ev: Seq<u8>)
    requires
        seq_size(s) <= capacity,
    ensures
        event_total(ev) == capacity - seq_size(s) + 1 ==> !append_fits(s, capacity, ev),
        event_total(ev) == capacity - seq_size(s) && seq_end(s) + event_total(ev) <= s.len()
            && seq_size(s) + padded(event_total(ev)) <= u32::MAX ==> append_fits(s, capacity, ev),
{
}

/// Returns the offset of the first event of the sequence body at `body`.
pub fn lv2_atom_sequence_begin(body: usize) -> (r: usize)
    requires
        body + 8 <= usize::MAX,
    ensures
        r == body + 8,
{
    body + 8
}

/// Returns the offset just past the events of a sequence body at `body`
/// whose atom has the given size.
pub fn lv2_atom_sequence_end(body: usize, size: u32) -> (r: usize)
    requires
        size <= u32::MAX - 7,
        body + padded(size as int) <= usize::MAX,
    ensures
        r == body + padded(size as int),
{
    body + lv2_atom_pad_size(size) as usize
}

/// Returns true iff the cursor `i` has reached the end of a sequence body at
/// `body` whose atom has the given (unpadded) size.
pub fn lv2_atom_sequence_is_end(body: usize, size: u32, i: usize) -> (r: bool)
    ensures
        r == (i >= body + size),
{
    i >= body && i - body >= size as usize
}

/// Returns the offset of the event following the one at `i`.
pub fn lv2_atom_sequence_next(buf: &[u8], i: usize) -> (r: usize)
    requires
        i + 16 + event_body_size(buf@, i as int) <= buf@.len() <= isize::MAX,
    ensures
        r == i + event_step(buf@, i as int),
{
    let size = read_u32(buf, i + 8);
    proof {
        crate::layout::lemma_pad_idempotent(size as int);
    }
    let step = EVENT_HEADER_SIZE as u64 + ((size as u64 + 7) - (size as u64 + 7) % 8);
    i + step as usize
}

/// Reads the header of the event at `off`.
pub fn read_event(buf: &[u8], off: usize) -> (r: LV2AtomEvent)
    requires
        off + 16 <= buf@.len(),
    ensures
        r == event_at(buf@, off as int),
{
    let _n = buf.len();
    let time = read_u64(buf, off);
    LV2AtomEvent { time_in_frames: time as i64, body: read_atom(buf, off + 8) }
}

/// Clears all events from the sequence held by `buf`.
///
/// Only the size field changes; the bytes of the old events stay in place.
pub fn lv2_atom_sequence_clear(buf: &mut Vec<u8>)
    requires
        16 <= old(buf)@.len(),
    ensures
        final(buf)@ == cleared(old(buf)@),
        seq_wf(final(buf)@),
        seq_events(final(buf)@) == Seq::<(i64, u32, Seq<u8>)>::empty(),
{
    proof {
        lemma_cleared(buf@);
    }
    write_u32(buf, 0, SEQUENCE_BODY_SIZE);
}

/// Appends a copy of the event at the start of `event` to the end of the
/// sequence held by `buf`, whose atom may grow to `capacity` bytes.
///
/// Returns the offset of the written event, or `None`, changing nothing,
/// when the event does not fit.
pub fn lv2_atom_sequence_append_event(buf: &mut Vec<u8>, capacity: u32, event: &[u8]) -> (r:
    Option<usize>)
    requires
        seq_wf(old(buf)@),
        event_wf(event@),
    ensures
        r is Some <==> append_fits(old(buf)@, capacity, event@),
        r is None ==> final(buf)@ == old(buf)@,
        r matches Some(e) ==> {
            &&& e == seq_end(old(buf)@)
            &&& final(buf)@ == appended(old(buf)@, event@)
            &&& seq_wf(final(buf)@)
            &&& seq_events(final(buf)@) == seq_events(old(buf)@).push(event_view(event@, 0))
        },
{
    let ghost s0 = buf@;
    let len = buf.len();
    let _m = event.len();
    let size = read_u32(buf.as_slice(), 0);
    let total: u64 = EVENT_HEADER_SIZE as u64 + read_u32(event, 8) as u64;
    if (capacity as u64) < (size as u64) || (capacity as u64 - size as u64) < total {
        return None;
    }
    let e = lv2_atom_sequence_end(SEQUENCE_BODY_SIZE as usize, size);
    if e as u64 + total > len as u64 {
        return None;
    }
    let padded_total: u64 = (total + 7) - (total + 7) % 8;
    if size as u64 + padded_total > u32::MAX as u64 {
        return None;
    }
    let t = total as usize;
    let mut k: usize = 0;
    while k < t
        invariant
            buf@.len() == s0.len(),
            len == s0.len(),
            e + t <= s0.len(),
            t == event_total(event@),
            t <= event@.len(),
            k <= t,
            forall|j: int| 0 <= j < s0.len() && !(e <= j < e + k) ==> buf@[j] == s0[j],
            forall|j: int| e <= j < e + k ==> buf@[j] == event@[j - e],
        decreases t - k,
    {
        buf[e + k] = event[k];
        k = k + 1;
    }
    let ghost copied = Seq::new(
        s0.len(),
        |j: int| if e <= j < e + t { event@[j - e] } else { s0[j] },
    );
    assert(buf@ =~= copied);
    write_u32(buf, 0, (size as u64 + padded_total) as u32);
    proof {
        lemma_append_events(s0, capacity, event@);
    }
    Some(e)
}

impl LV2AtomSequenceBody {
    /// Returns, in stored order, the offsets of the events of the sequence
    /// body at `body` whose atom has the given size.
    pub fn foreach(buf: &[u8], body: usize, size: u32) -> (r: Vec<usize>)
        requires
            body <= buf@.len() <= isize::MAX,
            events_in(buf@, body + 8, body + size),
        ensures
            r@.len() == event_offsets(buf@, body + 8, body + size).len(),
            forall|k: int|
                0 <= k < r@.len() ==> r@[k] == event_offsets(buf@, body + 8, body + size)[k],
    {
        let ghost end = body + size;
        let mut out: Vec<usize> = Vec::new();
        let mut it = lv2_atom_sequence_begin(body);
        while !lv2_atom_sequence_is_end(body, size, it)
            invariant
                body <= buf@.len() <= isize::MAX,
                end == body + size,
                it <= buf@.len() + 8,
                events_in(buf@, it as int, end),
                event_offsets(buf@, body + 8, end) =~= out@.map_values(|p: usize| p as int)
                    + event_offsets(buf@, it as int, end),
            decreases walk_gap(it as int, end),
        {
            proof {
                crate::layout::lemma_pad_idempotent(event_body_size(buf@, it as int));
            }
            let ghost old_out = out@;
            out.push(it);
            let next = lv2_atom_sequence_next(buf, it);
            assert(out@.map_values(|p: usize| p as int) =~= old_out.map_values(|p: usize| p as int)
                + seq![it as int]);
            assert(event_offsets(buf@, it as int, end) =~= seq![it as int] + event_offsets(
                buf@,
                next as int,
                end,
            ));
            it = next;
        }
        assert(event_offsets(buf@, it as int, end) =~= Seq::<int>::empty());
        assert forall|k: int| 0 <= k < out@.len() implies out@[k] == event_offsets(
            buf@,
            body + 8,
            end,
        )[k] by {
            assert(out@.map_values(|p: usize| p as int)[k] == out@[k] as int);
        }
        out
    }
}

impl LV2AtomSequence {
    /// Returns, in stored order, the offsets of the events of the sequence
    /// held by `buf`.
    pub fn foreach(buf: &[u8]) -> (r: Vec<usize>)
        requires
            16 <= buf@.len() <= isize::MAX,
            events_in(buf@, 16, 8 + seq_size(buf@)),
        ensures
            r@.len() == event_offsets(buf@, 16, 8 + seq_size(buf@)).len(),
            forall|k: int|
                0 <= k < r@.len() ==> r@[k] == event_offsets(buf@, 16, 8 + seq_size(buf@))[k],
    {
        let size = read_u32(buf, 0);
        LV2AtomSequenceBody::foreach(buf, SEQUENCE_BODY_SIZE as usize, size)
    }
}

} // verus!

verus! {

/// A forward cursor over the events of the sequence held by `seq`.
pub struct LV2AtomSequenceIterator<'a> {
    /// The buffer holding the sequence being walked.
    pub seq: &'a [u8],
    /// Offset of the next event to hand out.
    pub current: usize,
}

impl<'a> LV2AtomSequenceIterator<'a> {
    /// The offset at which the walk ends (the body's start plus its size).
    pub open spec fn end(&self) -> int {
        8 + seq_size(self.seq@)
    }

    /// The cursor stays over well-formed events of its buffer.
    pub open spec fn inv(&self) -> bool {
        &&& 8 <= self.seq@.len() <= isize::MAX
        &&& self.current <= self.seq@.len() + 8
        &&& events_in(self.seq@, self.current as int, self.end())
    }

    /// The offsets of the events not handed out yet.
    pub open spec fn remaining(&self) -> Seq<int> {
        event_offsets(self.seq@, self.current as int, self.end())
    }

    /// Starts a walk at the first event of the sequence held by `seq`.
    pub fn new(seq: &'a [u8]) -> (r: Self)
        requires
            16 <= seq@.len() <= isize::MAX,
            events_in(seq@, 16, 8 + seq_size(seq@)),
        ensures
            r.seq == seq,
            r.inv(),
            r.remaining() == event_offsets(seq@, 16, 8 + seq_size(seq@)),
    {
        LV2AtomSequenceIterator { seq, current: lv2_atom_sequence_begin(SEQUENCE_BODY_SIZE as usize) }
    }

    /// Hands out the offset of the next event, or `None` at the end.
    pub fn next(&mut self) -> (r: Option<usize>)
        requires
            old(self).inv(),
        ensures
            final(self).inv(),
            final(self).seq == old(self).seq,
            match r {
                None => old(self).remaining().len() == 0,
                Some(p) => old(self).remaining() == seq![p as int] + final(self).remaining(),
            },
    {
        let size = read_u32(self.seq, 0);
        if lv2_atom_sequence_is_end(SEQUENCE_BODY_SIZE as usize, size, self.current) {
            None
        } else {
            let out = self.current;
            proof {
                crate::layout::lemma_pad_idempotent(event_body_size(self.seq@, out as int));
            }
            self.current = lv2_atom_sequence_next(self.seq, out);
            Some(out)
        }
    }
}

} // verus!
