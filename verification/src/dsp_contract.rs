//! Allocation-free event transport between the combustion simulation and the
//! post-combustion DSP.
//!
//! Every physical combustion is recorded into the current block as a bank-0
//! event; its bank-1 twin, delayed by the half-block offset, lands in the same
//! block when its absolute sample falls inside it and is otherwise deferred to
//! the block that contains it. Events inside a block are kept ordered by
//! `(sample_offset, bank, cylinder)`; equal keys keep their recording order.
//! The acoustic payload of an event is opaque to the transport.

use vstd::prelude::*;
use vstd::multiset::Multiset;

verus! {

pub const F90_DSP_ABI_VERSION: u32 = 2;
pub const MAX_BLOCK_SAMPLES: usize = 4096;
pub const MAX_EVENTS_PER_BLOCK: usize = 512;
pub const MAX_PENDING_EVENTS: usize = 64;

/// One event of a block, with its payload.
#[derive(Clone, Copy, Debug)]
pub struct DspEvent<P> {
    pub sample_offset: u32,
    pub cylinder: u8,
    pub bank: u8,
    pub payload: P,
}

/// A deferred event and the absolute sample at which it is due.
#[derive(Clone, Copy, Debug)]
pub struct PendingDspEvent<P> {
    pub absolute_sample: u64,
    pub event: DspEvent<P>,
}

/// The events of one block, ordered by key.
#[derive(Debug)]
pub struct DspEventBlock<P> {
    pub stream_block_id: u64,
    pub block_samples: u32,
    pub events: Vec<DspEvent<P>>,
}

/// The ordering key `(sample_offset, bank, cylinder)` as one number.
pub open spec fn event_key<P>(e: DspEvent<P>) -> int {
    e.sample_offset as int * 65536 + e.bank as int * 256 + e.cylinder as int
}

/// Keys never decrease along the sequence.
pub open spec fn sorted_by_key<P>(s: Seq<DspEvent<P>>) -> bool {
    forall|i: int, j: int| 0 <= i <= j < s.len() ==> event_key(s[i]) <= event_key(s[j])
}

/// Stable insertion: `e` goes after every event whose key is not greater.
pub open spec fn insert_sorted<P>(s: Seq<DspEvent<P>>, e: DspEvent<P>) -> Seq<DspEvent<P>>
    decreases s.len(),
{
    if s.len() == 0 {
        seq![e]
    } else if event_key(s.last()) <= event_key(e) {
        s.push(e)
    } else {
        insert_sorted(s.drop_last(), e).push(s.last())
    }
}

/// The events of a block after pushing `e`, and whether the block overflowed.
pub open spec fn push_event<P>(s: Seq<DspEvent<P>>, e: DspEvent<P>) -> (Seq<DspEvent<P>>, bool) {
    if s.len() >= MAX_EVENTS_PER_BLOCK {
        (s, true)
    } else {
        (insert_sorted(s, e), false)
    }
}

/// A deferred event re-timed to a block starting at absolute sample `start`.
pub open spec fn retimed<P>(p: PendingDspEvent<P>, start: u64) -> DspEvent<P> {
    DspEvent {
        sample_offset: (if p.absolute_sample >= start { p.absolute_sample - start } else { 0int }) as u32,
        ..p.event
    }
}

/// Deliver the deferred events due before `end` into `events`, in recording
/// order; returns the block events and the events still deferred.
pub open spec fn deliver_due<P>(
    pending: Seq<PendingDspEvent<P>>,
    start: u64,
    end: int,
    events: Seq<DspEvent<P>>,
) -> (Seq<DspEvent<P>>, Seq<PendingDspEvent<P>>)
    decreases pending.len(),
{
    if pending.len() == 0 {
        (events, Seq::empty())
    } else {
        let (ev, kept) = deliver_due(pending.drop_last(), start, end, events);
        let p = pending.last();
        if p.absolute_sample < end {
            (insert_sorted(ev, retimed(p, start)), kept)
        } else {
            (ev, kept.push(p))
        }
    }
}

/// Insertion keeps a sorted sequence sorted, adds one element, and keeps
/// every element that was there.
pub proof fn lemma_insert_sorted<P>(s: Seq<DspEvent<P>>, e: DspEvent<P>)
    requires
        sorted_by_key(s),
    ensures
        sorted_by_key(insert_sorted(s, e)),
        insert_sorted(s, e).len() == s.len() + 1,
        insert_sorted(s, e).to_multiset() == s.to_multiset().insert(e),
    decreases s.len(),
{
    broadcast use vstd::seq_lib::group_to_multiset_ensures;
    if s.len() == 0 {
        assert(seq![e].to_multiset() =~= Multiset::empty().insert(e)) by {
            assert(seq![e] =~= Seq::<DspEvent<P>>::empty().push(e));
        }
    } else if event_key(s.last()) <= event_key(e) {
    } else {
        let t = s.drop_last();
        assert(sorted_by_key(t));
        lemma_insert_sorted(t, e);
        let r = insert_sorted(t, e);
        assert forall|i: int, j: int| 0 <= i <= j < r.len() + 1 implies
            event_key(r.push(s.last())[i]) <= event_key(r.push(s.last())[j]) by {
            if j == r.len() {
                if i < r.len() {
                    // r[i] is either e or an element of t, both no greater than s.last()
                    assert(r.to_multiset().count(r[i]) > 0);
                    assert(t.to_multiset().insert(e).count(r[i]) > 0);
                    if r[i] != e {
                        assert(t.to_multiset().count(r[i]) > 0);
                        assert(t.contains(r[i]));
                        let k = choose|k: int| 0 <= k < t.len() && t[k] == r[i];
                        assert(s[k] == t[k]);
                    }
                }
            }
        }
        assert(s =~= t.push(s.last()));
    }
}

/// No event is lost or duplicated at a block boundary: delivering the deferred
/// events due before `end` keeps the block sorted, adds exactly the due events
/// (re-timed) to it, and keeps exactly the others deferred, in order.
pub proof fn lemma_deliver_due<P>(pending: Seq<PendingDspEvent<P>>, start: u64, end: int, events: Seq<DspEvent<P>>)
    requires
        sorted_by_key(events),
    ensures
        sorted_by_key(deliver_due(pending, start, end, events).0),
        deliver_due(pending, start, end, events).1
            == pending.filter(|p: PendingDspEvent<P>| p.absolute_sample >= end),
        deliver_due(pending, start, end, events).0.to_multiset() == events.to_multiset().add(
            pending.filter(|p: PendingDspEvent<P>| p.absolute_sample < end)
                .map_values(|p: PendingDspEvent<P>| retimed(p, start)).to_multiset(),
        ),
    decreases pending.len(),
{
    broadcast use vstd::seq_lib::group_to_multiset_ensures;
    let keep = |p: PendingDspEvent<P>| p.absolute_sample >= end;
    let due = |p: PendingDspEvent<P>| p.absolute_sample < end;
    let f = |p: PendingDspEvent<P>| retimed(p, start);
    reveal_with_fuel(Seq::filter, 1);
    if pending.len() == 0 {
        assert(pending.filter(due).map_values(f) =~= Seq::<DspEvent<P>>::empty());
        assert(events.to_multiset().add(Multiset::empty()) =~= events.to_multiset());
    } else {
        let init = pending.drop_last();
        let p = pending.last();
        lemma_deliver_due(init, start, end, events);
        let (ev, kept) = deliver_due(init, start, end, events);
        if p.absolute_sample < end {
            lemma_insert_sorted(ev, retimed(p, start));
            assert(pending.filter(due) == init.filter(due).push(p));
            assert(pending.filter(due).map_values(f) =~= init.filter(due).map_values(f).push(f(p)));
            assert(events.to_multiset().add(init.filter(due).map_values(f).push(f(p)).to_multiset())
                =~= events.to_multiset().add(init.filter(due).map_values(f).to_multiset()).insert(f(p)));
        } else {
            assert(pending.filter(keep) == init.filter(keep).push(p));
            assert(pending.filter(due) == init.filter(due));
        }
    }
}

/// Delivering deferred events neither creates nor loses any: what goes into
/// the block and what stays deferred together are as many as before.
proof fn lemma_deliver_len<P>(pending: Seq<PendingDspEvent<P>>, start: u64, end: int, events: Seq<DspEvent<P>>)
    requires
        sorted_by_key(events),
    ensures
        deliver_due(pending, start, end, events).0.len() + deliver_due(pending, start, end, events).1.len()
            == events.len() + pending.len(),
        sorted_by_key(deliver_due(pending, start, end, events).0),
    decreases pending.len(),
{
    if pending.len() > 0 {
        lemma_deliver_len(pending.drop_last(), start, end, events);
        let (ev, kept) = deliver_due(pending.drop_last(), start, end, events);
        lemma_insert_sorted(ev, retimed(pending.last(), start));
    }
}

/// The observable state of the event transport: the events of the current
/// block, the deferred events, where the block starts, its length, and
/// whether it overflowed.
#[verifier::ext_equal]
pub ghost struct TransportState<P> {
    pub events: Seq<DspEvent<P>>,
    pub pending: Seq<PendingDspEvent<P>>,
    pub start: u64,
    pub samples: u32,
    pub overflowed: bool,
}

/// A call on the event builder.
pub enum TransportOp<P> {
    Begin { block_samples: u32 },
    Record { sample_offset: u32, cylinder: u8, payload_a: P, payload_b: P, bank_b_delay: u64 },
    Finish,
}

/// The block is ordered by key and within capacity, and so is the deferred queue.
pub open spec fn transport_ok<P>(s: TransportState<P>) -> bool {
    &&& s.events.len() <= MAX_EVENTS_PER_BLOCK
    &&& sorted_by_key(s.events)
    &&& s.pending.len() <= MAX_PENDING_EVENTS
}

/// `begin_block`: the due deferred events move into the fresh block.
pub open spec fn begin_step<P>(s: TransportState<P>, block_samples: u32) -> TransportState<P> {
    let (events, pending) = deliver_due(s.pending, s.start, s.start + block_samples, Seq::empty());
    TransportState { events, pending, samples: block_samples, overflowed: false, ..s }
}

/// `record_physical`: the bank-0 event goes into the block, its bank-1 twin
/// into the block, the deferred queue, or nowhere (overflow).
pub open spec fn record_step<P>(
    s: TransportState<P>,
    sample_offset: u32,
    cylinder: u8,
    payload_a: P,
    payload_b: P,
    bank_b_delay: u64,
) -> TransportState<P> {
    let a = DspEvent { sample_offset, cylinder, bank: 0u8, payload: payload_a };
    let first = push_event(s.events, a);
    let absolute = s.start + sample_offset + bank_b_delay;
    let b = DspEvent { sample_offset, cylinder, bank: 1u8, payload: payload_b };
    if absolute < s.start + s.samples {
        let second = push_event(first.0, DspEvent { sample_offset: (absolute - s.start) as u32, ..b });
        TransportState { events: second.0, overflowed: s.overflowed || first.1 || second.1, ..s }
    } else if s.pending.len() < MAX_PENDING_EVENTS {
        TransportState {
            events: first.0,
            pending: s.pending.push(PendingDspEvent { absolute_sample: absolute as u64, event: b }),
            overflowed: s.overflowed || first.1,
            ..s
        }
    } else {
        TransportState { events: first.0, overflowed: true, ..s }
    }
}

/// `finish_block`: the next block starts where this one ends.
pub open spec fn finish_step<P>(s: TransportState<P>) -> TransportState<P> {
    TransportState { start: (s.start + s.samples) as u64, ..s }
}

pub open spec fn apply_op<P>(s: TransportState<P>, op: TransportOp<P>) -> TransportState<P> {
    match op {
        TransportOp::Begin { block_samples } => begin_step(s, block_samples),
        TransportOp::Record { sample_offset, cylinder, payload_a, payload_b, bank_b_delay } =>
            record_step(s, sample_offset, cylinder, payload_a, payload_b, bank_b_delay),
        TransportOp::Finish => finish_step(s),
    }
}

/// The state after the calls `ops`, in order.
pub open spec fn run_ops<P>(s: TransportState<P>, ops: Seq<TransportOp<P>>) -> TransportState<P>
    decreases ops.len(),
{
    if ops.len() == 0 {
        s
    } else {
        run_ops(apply_op(s, ops[0]), ops.drop_first())
    }
}

proof fn lemma_push_event_ok<P>(events: Seq<DspEvent<P>>, e: DspEvent<P>)
    requires
        events.len() <= MAX_EVENTS_PER_BLOCK,
        sorted_by_key(events),
    ensures
        push_event(events, e).0.len() <= MAX_EVENTS_PER_BLOCK,
        sorted_by_key(push_event(events, e).0),
        push_event(events, e).1 <==> events.len() == MAX_EVENTS_PER_BLOCK,
{
    if events.len() < MAX_EVENTS_PER_BLOCK {
        lemma_insert_sorted(events, e);
    }
}

proof fn lemma_step_ok<P>(s: TransportState<P>, op: TransportOp<P>)
    requires
        transport_ok(s),
    ensures
        transport_ok(apply_op(s, op)),
        s.overflowed && !(op is Begin) ==> apply_op(s, op).overflowed,
{
    match op {
        TransportOp::Begin { block_samples } => {
            lemma_deliver_len(s.pending, s.start, s.start + block_samples, Seq::empty());
        },
        TransportOp::Record { sample_offset, cylinder, payload_a, payload_b, bank_b_delay } => {
            let a = DspEvent { sample_offset, cylinder, bank: 0u8, payload: payload_a };
            lemma_push_event_ok(s.events, a);
            let first = push_event(s.events, a);
            let absolute = s.start + sample_offset + bank_b_delay;
            let b = DspEvent { sample_offset, cylinder, bank: 1u8, payload: payload_b };
            lemma_push_event_ok(first.0, DspEvent { sample_offset: (absolute - s.start) as u32, ..b });
        },
        TransportOp::Finish => {},
    }
}

/// Whatever sequence of `begin_block`, `record_physical` and `finish_block`
/// calls the builder goes through, its block stays in stable key order
/// (ordered by sample offset, bank, then cylinder; equal keys in recording
/// order, as `insert_sorted` places them) with at most `MAX_EVENTS_PER_BLOCK`
/// events, at most `MAX_PENDING_EVENTS` events wait for a later block, and
/// once the block has overflowed it stays so until the next `begin_block`.
pub proof fn lemma_transport_keeps_order<P>(s: TransportState<P>, ops: Seq<TransportOp<P>>)
    requires
        transport_ok(s),
    ensures
        transport_ok(run_ops(s, ops)),
        s.overflowed && (forall|k: int| 0 <= k < ops.len() ==> !(#[trigger] ops[k] is Begin))
            ==> run_ops(s, ops).overflowed,
    decreases ops.len(),
{
    if ops.len() > 0 {
        lemma_step_ok(s, ops[0]);
        let rest = ops.drop_first();
        assert forall|k: int| 0 <= k < rest.len() implies rest[k] == ops[k + 1] by {}
        lemma_transport_keeps_order(apply_op(s, ops[0]), rest);
        if s.overflowed && (forall|k: int| 0 <= k < ops.len() ==> !(#[trigger] ops[k] is Begin)) {
            assert(!(ops[0] is Begin));
            assert forall|k: int| 0 <= k < rest.len() implies !(#[trigger] rest[k] is Begin) by {
                assert(!(ops[k + 1] is Begin));
            }
        }
    }
}

/// The sink that assembles blocks of events.
pub struct EventBuilder<P> {
    block: DspEventBlock<P>,
    pending: Vec<PendingDspEvent<P>>,
    absolute_block_start: u64,
    next_block_id: u64,
    overflowed: bool,
}

impl<P: Copy> EventBuilder<P> {
    /// Events of the block being assembled.
    pub closed spec fn events(&self) -> Seq<DspEvent<P>> {
        self.block.events@
    }

    /// Deferred events, in recording order.
    pub closed spec fn pending(&self) -> Seq<PendingDspEvent<P>> {
        self.pending@
    }

    /// Absolute sample at which the current block starts.
    pub closed spec fn block_start(&self) -> u64 {
        self.absolute_block_start
    }

    /// Length of the current block in samples.
    pub closed spec fn block_samples(&self) -> u32 {
        self.block.block_samples
    }

    /// Identifier of the current block.
    pub closed spec fn block_id(&self) -> u64 {
        self.block.stream_block_id
    }

    /// Identifier that the next block will get.
    pub closed spec fn next_id(&self) -> u64 {
        self.next_block_id
    }

    /// Did an event get dropped in the current block?
    pub closed spec fn has_overflowed(&self) -> bool {
        self.overflowed
    }

    /// The observable state of the builder.
    pub closed spec fn transport(&self) -> TransportState<P> {
        TransportState {
            events: self.block.events@,
            pending: self.pending@,
            start: self.absolute_block_start,
            samples: self.block.block_samples,
            overflowed: self.overflowed,
        }
    }

    /// Well-formedness: a sorted block within capacity and a deferred queue
    /// within capacity.
    pub open spec fn wf(&self) -> bool {
        transport_ok(self.transport())
    }

    /// The block handed to the native layer is always ordered by sample
    /// offset (then bank, then cylinder), holds at most
    /// `MAX_EVENTS_PER_BLOCK` events, and at most `MAX_PENDING_EVENTS` events
    /// wait for a later block.
    pub proof fn lemma_block_sorted(&self)
        requires
            self.wf(),
        ensures
            sorted_by_key(self.events()),
            self.events().len() <= MAX_EVENTS_PER_BLOCK,
            self.pending().len() <= MAX_PENDING_EVENTS,
    {
    }

    /// An empty sink. The sample rate and seed are accepted for source
    /// compatibility and do not influence the transport.
    pub fn new(_sample_rate_hz: u32, _seed: u64) -> (r: Self)
        ensures
            r.wf(),
            r.events() == Seq::<DspEvent<P>>::empty(),
            r.pending() == Seq::<PendingDspEvent<P>>::empty(),
            r.block_start() == 0,
            r.block_samples() == 0,
            r.block_id() == 0,
            r.next_id() == 0,
            !r.has_overflowed(),
            r.transport() == (TransportState::<P> {
                events: Seq::empty(),
                pending: Seq::empty(),
                start: 0,
                samples: 0,
                overflowed: false,
            }),
    {
        EventBuilder {
            block: DspEventBlock { stream_block_id: 0, block_samples: 0, events: Vec::with_capacity(MAX_EVENTS_PER_BLOCK) },
            pending: Vec::with_capacity(MAX_PENDING_EVENTS),
            absolute_block_start: 0,
            next_block_id: 0,
            overflowed: false,
        }
    }

    /// Open a block of `block_samples` samples: it takes the next block id, and
    /// every deferred event due before the block ends moves into it, re-timed
    /// to the block and in recording order; the others stay deferred.
    pub fn begin_block(&mut self, block_samples: u32)
        requires
            old(self).wf(),
            old(self).block_start() + block_samples <= u64::MAX,
        ensures
            final(self).wf(),
            final(self).block_id() == old(self).next_id(),
            final(self).block_samples() == block_samples,
            !final(self).has_overflowed(),
            (final(self).events(), final(self).pending()) == deliver_due(
                old(self).pending(),
                old(self).block_start(),
                old(self).block_start() + block_samples,
                Seq::empty(),
            ),
            final(self).block_start() == old(self).block_start(),
            final(self).next_id() == old(self).next_id(),
            final(self).transport() == begin_step(old(self).transport(), block_samples),
    {
        self.block.stream_block_id = self.next_block_id;
        self.block.block_samples = block_samples;
        self.block.events.clear();
        self.overflowed = false;
        let ghost old_pending = self.pending@;
        let start = self.absolute_block_start;
        let end: u64 = start + block_samples as u64;
        let count = self.pending.len();
        let mut write: usize = 0;
        let mut read: usize = 0;
        assert(old_pending.subrange(0, 0) =~= Seq::<PendingDspEvent<P>>::empty());
        while read < count
            invariant
                self.wf(),
                count == old_pending.len(),
                count <= MAX_PENDING_EVENTS,
                write <= read <= count,
                self.pending@.len() == count,
                self.absolute_block_start == start,
                end == start + block_samples,
                self.block.stream_block_id == old(self).next_block_id,
                self.block.block_samples == block_samples,
                self.next_block_id == old(self).next_block_id,
                !self.overflowed,
                self.block.events@.len() <= read,
                self.pending@.subrange(read as int, count as int) == old_pending.subrange(read as int, count as int),
                (self.block.events@, self.pending@.subrange(0, write as int))
                    == deliver_due(old_pending.subrange(0, read as int), start, end as int, Seq::empty()),
            decreases count - read,
        {
            let pending = self.pending[read];
            proof {
                assert(pending == old_pending[read as int]) by {
                    assert(self.pending@.subrange(read as int, count as int)[0] == self.pending@[read as int]);
                }
                assert(old_pending.subrange(0, read + 1).drop_last() =~= old_pending.subrange(0, read as int));
                assert(old_pending.subrange(0, read + 1).last() == pending);
            }
            let ghost before_kept = self.pending@.subrange(0, write as int);
            let ghost before = self.pending@;
            proof {
                assert forall|k: int| read < k < count implies #[trigger] before[k] == old_pending[k] by {
                    assert(before.subrange(read as int, count as int)[k - read] == before[k]);
                    assert(old_pending.subrange(read as int, count as int)[k - read] == old_pending[k]);
                }
            }
            if pending.absolute_sample < end {
                let offset = pending.absolute_sample.saturating_sub(start) as u32;
                let event = DspEvent { sample_offset: offset, ..pending.event };
                assert(event == retimed(pending, start));
                proof {
                    lemma_insert_sorted(self.block.events@, event);
                }
                self.push_sorted(event);
            } else {
                self.pending.set(write, pending);
                proof {
                    assert(self.pending@.subrange(0, write + 1) =~= before_kept.push(pending));
                }
                write = write + 1;
            }
            proof {
                assert(self.pending@.subrange(read + 1, count as int) =~= old_pending.subrange(read + 1, count as int));
            }
            read = read + 1;
        }
        self.pending.truncate(write);
        assert(old_pending.subrange(0, count as int) =~= old_pending);
    }

    /// Record one physical combustion at `sample_offset` of the current block:
    /// its bank-0 event goes into the block with `payload_a`; its bank-1 twin,
    /// `bank_b_delay` samples later and carrying `payload_b`, goes into the block
    /// if it falls inside it, is otherwise deferred, and is dropped (marking the
    /// block as overflowed) when the deferred queue is full.
    pub fn record_physical(
        &mut self,
        sample_offset: u32,
        cylinder: u8,
        payload_a: P,
        payload_b: P,
        bank_b_delay: u64,
    )
        requires
            old(self).wf(),
            old(self).block_start() + sample_offset + bank_b_delay <= u64::MAX,
            old(self).block_start() + old(self).block_samples() <= u64::MAX,
        ensures
            final(self).wf(),
            ({
                let a = DspEvent { sample_offset, cylinder, bank: 0u8, payload: payload_a };
                let first = push_event(old(self).events(), a);
                let absolute = old(self).block_start() + sample_offset + bank_b_delay;
                let b = DspEvent { sample_offset, cylinder, bank: 1u8, payload: payload_b };
                if absolute < old(self).block_start() + old(self).block_samples() {
                    let b_in_block = DspEvent { sample_offset: (absolute - old(self).block_start()) as u32, ..b };
                    let second = push_event(first.0, b_in_block);
                    &&& final(self).events() == second.0
                    &&& final(self).pending() == old(self).pending()
                    &&& final(self).has_overflowed() == (old(self).has_overflowed() || first.1 || second.1)
                } else if old(self).pending().len() < MAX_PENDING_EVENTS {
                    &&& final(self).events() == first.0
                    &&& final(self).pending() == old(self).pending().push(PendingDspEvent { absolute_sample: absolute as u64, event: b })
                    &&& final(self).has_overflowed() == (old(self).has_overflowed() || first.1)
                } else {
                    &&& final(self).events() == first.0
                    &&& final(self).pending() == old(self).pending()
                    &&& final(self).has_overflowed()
                }
            }),
            final(self).block_start() == old(self).block_start(),
            final(self).block_samples() == old(self).block_samples(),
            final(self).block_id() == old(self).block_id(),
            final(self).next_id() == old(self).next_id(),
            final(self).transport() == record_step(
                old(self).transport(),
                sample_offset,
                cylinder,
                payload_a,
                payload_b,
                bank_b_delay,
            ),
    {
        let base = DspEvent { sample_offset, cylinder, bank: 0, payload: payload_a };
        self.push_sorted(base);
        let absolute_sample: u64 = self.absolute_block_start + sample_offset as u64 + bank_b_delay;
        let bank_b = DspEvent { sample_offset, cylinder, bank: 1, payload: payload_b };
        let block_end: u64 = self.absolute_block_start + self.block.block_samples as u64;
        if absolute_sample < block_end {
            let in_block = DspEvent { sample_offset: (absolute_sample - self.absolute_block_start) as u32, ..bank_b };
            self.push_sorted(in_block);
        } else if self.pending.len() < MAX_PENDING_EVENTS {
            self.pending.push(PendingDspEvent { absolute_sample, event: bank_b });
        } else {
            self.overflowed = true;
        }
    }

    /// Close the current block: the next block starts where this one ends and
    /// gets the next id (wrapping). Returns the finished block.
    pub fn finish_block(&mut self) -> (r: &DspEventBlock<P>)
        requires
            old(self).wf(),
            old(self).block_start() + old(self).block_samples() <= u64::MAX,
        ensures
            final(self).wf(),
            r.events@ == old(self).events(),
            r.block_samples == old(self).block_samples(),
            r.stream_block_id == old(self).block_id(),
            final(self).events() == old(self).events(),
            final(self).pending() == old(self).pending(),
            final(self).block_start() == old(self).block_start() + old(self).block_samples(),
            final(self).next_id() == old(self).next_id().wrapping_add(1),
            final(self).block_samples() == old(self).block_samples(),
            final(self).block_id() == old(self).block_id(),
            final(self).has_overflowed() == old(self).has_overflowed(),
            final(self).transport() == finish_step(old(self).transport()),
    {
        self.absolute_block_start = self.absolute_block_start + self.block.block_samples as u64;
        self.next_block_id = self.next_block_id.wrapping_add(1);
        &self.block
    }

    /// Did an event get dropped in the current block?
    pub fn overflowed(&self) -> (r: bool)
        ensures
            r == self.has_overflowed(),
    {
        self.overflowed
    }

    fn push_sorted(&mut self, event: DspEvent<P>)
        requires
            old(self).wf(),
        ensures
            final(self).wf(),
            final(self).block.events@ == push_event(old(self).block.events@, event).0,
            final(self).overflowed == (push_event(old(self).block.events@, event).1 || old(self).overflowed),
            final(self).pending == old(self).pending,
            final(self).absolute_block_start == old(self).absolute_block_start,
            final(self).next_block_id == old(self).next_block_id,
            final(self).block.block_samples == old(self).block.block_samples,
            final(self).block.stream_block_id == old(self).block.stream_block_id,
    {
        if self.block.events.len() >= MAX_EVENTS_PER_BLOCK {
            self.overflowed = true;
            return;
        }
        proof {
            lemma_insert_sorted(self.block.events@, event);
        }
        insert_sorted_vec(&mut self.block.events, event);
    }
}

/// Insert `event` after every event whose key is not greater, shifting the
/// rest one place towards the end.
fn insert_sorted_vec<P: Copy>(events: &mut Vec<DspEvent<P>>, event: DspEvent<P>)
    requires
        old(events)@.len() < MAX_EVENTS_PER_BLOCK,
    ensures
        final(events)@ == insert_sorted(old(events)@, event),
{
    let ghost s = events@;
    let count = events.len();
    let key: u64 = event.sample_offset as u64 * 65536 + event.bank as u64 * 256 + event.cylinder as u64;
    events.push(event);
    let mut index = count;
    proof {
        assert(s.subrange(0, count as int) =~= s);
        assert(s.subrange(count as int, count as int) =~= Seq::<DspEvent<P>>::empty());
        assert(insert_sorted(s, event) =~= insert_sorted(s.subrange(0, count as int), event) + s.subrange(count as int, count as int));
        assert(events@.subrange(0, count as int) =~= s);
        assert(events@.subrange(count + 1, count + 1) =~= s.subrange(count as int, count as int));
    }
    while index > 0
        invariant_except_break
            index <= count,
            count == s.len(),
            events@.len() == count + 1,
            events@.subrange(0, index as int) == s.subrange(0, index as int),
            events@.subrange(index + 1, count + 1) == s.subrange(index as int, count as int),
            insert_sorted(s, event) == insert_sorted(s.subrange(0, index as int), event) + s.subrange(index as int, count as int),
            key == event_key(event),
        ensures
            index <= count,
            events@.len() == count + 1,
            events@.subrange(0, index as int) == s.subrange(0, index as int),
            events@.subrange(index + 1, count + 1) == s.subrange(index as int, count as int),
            insert_sorted(s, event) == s.subrange(0, index as int).push(event) + s.subrange(index as int, count as int),
        decreases index,
    {
        let prev = events[index - 1];
        let prev_key: u64 = prev.sample_offset as u64 * 65536 + prev.bank as u64 * 256 + prev.cylinder as u64;
        let ghost pre = s.subrange(0, index as int);
        proof {
            assert(prev == s[index - 1]) by {
                assert(events@.subrange(0, index as int)[index - 1] == events@[index - 1]);
            }
            assert(pre.drop_last() =~= s.subrange(0, index - 1));
            assert(pre.last() == prev);
        }
        if prev_key <= key {
            break;
        }
        events.set(index, prev);
        proof {
            assert(insert_sorted(pre, event) == insert_sorted(s.subrange(0, index - 1), event).push(prev));
            assert(s.subrange(index - 1, count as int) =~= seq![prev] + s.subrange(index as int, count as int));
            assert(insert_sorted(s.subrange(0, index - 1), event).push(prev) + s.subrange(index as int, count as int)
                =~= insert_sorted(s.subrange(0, index - 1), event) + s.subrange(index - 1, count as int));
            assert(events@.subrange(0, index - 1) =~= s.subrange(0, index - 1));
            assert(events@.subrange(index as int, count + 1) =~= s.subrange(index - 1, count as int));
        }
        index = index - 1;
    }
    proof {
        if index == 0 {
            assert(s.subrange(0, 0) =~= Seq::<DspEvent<P>>::empty());
            assert(insert_sorted(s.subrange(0, 0), event) =~= s.subrange(0, 0).push(event));
        }
    }
    events.set(index, event);
    proof {
        assert(events@ =~= s.subrange(0, index as int).push(event) + s.subrange(index as int, count as int));
    }
}

} // verus!
