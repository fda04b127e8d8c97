//! Discrete-event scheduling of the Grand Prix sampler: edge detection on the
//! telemetry, retrigger suppression, seeded variant selection and the bounded
//! event queue that the caller drains frame by frame.
//!
//! Everything here is counted in output frames. The acoustic side (gains,
//! pitch ratios, smoothing) is the caller's: it hands the scheduler an opaque
//! context value with each request and gets it back with the event.

use vstd::prelude::*;
use std::collections::VecDeque;
use crate::grand_prix_bank::{GrandPrixEventRole, GrandPrixSelection};

verus! {

pub const GRAND_PRIX_EVENT_QUEUE_CAPACITY: usize = 64;
pub const SHIFT_PHASE_UPSHIFT_CUT: i32 = 1;
pub const SHIFT_PHASE_DOWNSHIFT_CUT: i32 = 3;

#[derive(Clone, Copy, Debug, PartialEq, Eq, Structural)]
pub enum GrandPrixEventKind {
    Upshift,
    Downshift,
    LiftBackfire,
    Limiter,
}

/// Slot of each event kind in the per-kind tables.
pub open spec fn kind_index(kind: GrandPrixEventKind) -> int {
    match kind {
        GrandPrixEventKind::Upshift => 0,
        GrandPrixEventKind::Downshift => 1,
        GrandPrixEventKind::LiftBackfire => 2,
        GrandPrixEventKind::Limiter => 3,
    }
}

/// Slot of each role in the per-kind tables.
pub open spec fn role_index(role: GrandPrixEventRole) -> int {
    match role {
        GrandPrixEventRole::GearboxUpshift => 0,
        GrandPrixEventRole::GearboxDownshift => 1,
        GrandPrixEventRole::LiftBackfire => 2,
        GrandPrixEventRole::LimiterEvent => 3,
    }
}

impl GrandPrixEventKind {
    pub fn index(self) -> (r: usize)
        ensures
            r == kind_index(self),
    {
        match self {
            Self::Upshift => 0,
            Self::Downshift => 1,
            Self::LiftBackfire => 2,
            Self::Limiter => 3,
        }
    }
}

/// The scheduling-relevant part of one event group of the bank.
#[derive(Clone, Copy, Debug)]
pub struct GroupSchedule {
    /// Position of the group in the bank.
    pub group_index: usize,
    pub role: GrandPrixEventRole,
    pub selection: GrandPrixSelection,
    pub variant_count: usize,
    pub timing_offset_frames: u64,
    pub minimum_retrigger_frames: u64,
}

/// A queued event: when it starts, which variant of its group plays, and the
/// caller's context captured at scheduling time.
#[derive(Clone, Copy, Debug)]
pub struct ScheduledEvent<R> {
    pub kind: GrandPrixEventKind,
    pub frame: u64,
    pub group_index: usize,
    pub variant_index: usize,
    pub context: R,
}

/// Event counters of the diagnostics.
#[derive(Clone, Copy, Debug)]
pub struct ScheduleCounters {
    pub accepted_events: u64,
    pub accepted_upshift_events: u64,
    pub accepted_downshift_events: u64,
    pub accepted_backfire_events: u64,
    pub accepted_limiter_events: u64,
    pub suppressed_events: u64,
    pub late_events: u64,
    pub overflowed_events: u64,
    pub stale_input_holds: u64,
}

/// One telemetry packet as the scheduler sees it. The caller evaluates the
/// floating-point conditions.
#[derive(Clone, Copy, Debug)]
pub struct GrandPrixIngest {
    /// RPM and tick duration are finite and the duration is not negative.
    pub valid: bool,
    /// The tick duration, bounded by the maximum ingest gap, in frames.
    pub dt_frames: u64,
    /// The tick duration exceeds the maximum ingest gap.
    pub gap_exceeded: bool,
    pub shift_phase: i32,
    pub rev_limiter_active: bool,
    /// Throttle fell from at least the policy's previous minimum to at most its
    /// maximum, with RPM at or above the policy's minimum.
    pub lift_edge: bool,
}

/// One xorshift64 step (shifts 13, 7, 17).
pub open spec fn xorshift(state: u64) -> u64 {
    let a = state ^ (state << 13u64);
    let b = a ^ (a >> 7u64);
    b ^ (b << 17u64)
}

pub fn next_rng_state(state: u64) -> (r: u64)
    ensures
        r == xorshift(state),
{
    let mut value = state;
    value = value ^ (value << 13u64);
    value = value ^ (value >> 7u64);
    value = value ^ (value << 17u64);
    value
}

/// Variant chosen by a selection policy, given the generator state and the
/// previous choice for the kind: `(new generator state, chosen variant)`.
pub open spec fn select(selection: GrandPrixSelection, rng: u64, previous: usize, count: usize) -> (u64, usize) {
    match selection {
        GrandPrixSelection::SingleVariant => (rng, 0usize),
        GrandPrixSelection::SeededCycle => {
            let r = xorshift(rng);
            (r, ((r >> 33u64) as usize % count) as usize)
        },
        GrandPrixSelection::SeededNoImmediateRepeat => {
            let r = xorshift(rng);
            if count == 1 {
                (r, 0usize)
            } else {
                let step = 1 + (r >> 33u64) as usize % (count - 1) as usize;
                (r, ((previous % count + step) % count as int) as usize)
            }
        },
    }
}

/// The chosen variant exists, and a no-immediate-repeat policy never picks the
/// previous variant again when there is another one.
pub proof fn lemma_select(selection: GrandPrixSelection, rng: u64, previous: usize, count: usize)
    requires
        count > 0,
    ensures
        select(selection, rng, previous, count).1 < count,
        selection == GrandPrixSelection::SeededNoImmediateRepeat && count > 1
            ==> select(selection, rng, previous, count).1 != previous % count,
{
    if selection == GrandPrixSelection::SeededNoImmediateRepeat && count > 1 {
        let r = xorshift(rng);
        let p = previous % count;
        let step = 1 + (r >> 33u64) as usize % (count - 1) as usize;
        assert(0 <= p < count);
        assert(1 <= step < count);
        let x = p + step;
        if x < count {
            vstd::arithmetic::div_mod::lemma_small_mod(x as nat, count as nat);
        } else {
            vstd::arithmetic::div_mod::lemma_small_mod((x - count) as nat, count as nat);
            vstd::arithmetic::div_mod::lemma_mod_add_multiples_vanish((x - count) as int, count as int);
        }
    }
}

/// The frames of one kind that the queue and counters admit at `frame`: the
/// last group of the bank with the kind's role decides.
pub open spec fn group_for(groups: Seq<GroupSchedule>, index: int) -> Option<GroupSchedule>
    decreases groups.len(),
{
    if groups.len() == 0 {
        None
    } else if role_index(groups.last().role) == index {
        Some(groups.last())
    } else {
        group_for(groups.drop_last(), index)
    }
}

/// Counter increment that sticks at the maximum.
pub open spec fn bump(x: u64) -> u64 {
    if x < u64::MAX { (x + 1) as u64 } else { x }
}

/// The scheduler as a mathematical value.
pub ghost struct ScheduleModel<R> {
    /// Group of each kind (by kind slot), as configured.
    pub groups: Seq<Option<GroupSchedule>>,
    pub lift_cooldown_total: u64,
    pub limiter_cooldown_total: u64,
    pub queue: Seq<ScheduledEvent<R>>,
    pub retrigger_until: Seq<u64>,
    pub positions: Seq<usize>,
    pub rng: u64,
    pub lift_cooldown: u64,
    pub limiter_cooldown: u64,
    pub render_frame: u64,
    pub ingest_cursor: u64,
    pub received: bool,
    pub last_shift_phase: i32,
    pub last_rev_limiter_active: bool,
    pub counters: ScheduleCounters,
}

/// Every configured group can be scheduled at `frame` without the frame
/// arithmetic leaving `u64`.
pub open spec fn frames_fit<R>(m: ScheduleModel<R>, frame: u64) -> bool {
    forall|i: int| 0 <= i < m.groups.len() && (#[trigger] m.groups[i]).is_some() ==>
        frame + m.groups[i].unwrap().timing_offset_frames + m.groups[i].unwrap().minimum_retrigger_frames <= u64::MAX
}

/// A request to schedule `kind` at `frame`: suppressed while the kind is
/// retrigger-blocked or has no playable group; otherwise a variant is chosen
/// (advancing the generator), and the event is queued at the group's timing
/// offset unless the queue is full, in which case it is counted as overflowed.
#[verifier::opaque]
pub open spec fn schedule_step<R>(m: ScheduleModel<R>, kind: GrandPrixEventKind, frame: u64, context: R) -> ScheduleModel<R> {
    let i = kind_index(kind);
    if frame < m.retrigger_until[i] || m.groups[i].is_none() || m.groups[i].unwrap().variant_count == 0 {
        ScheduleModel {
            counters: ScheduleCounters { suppressed_events: bump(m.counters.suppressed_events), ..m.counters },
            ..m
        }
    } else {
        let g = m.groups[i].unwrap();
        let (rng, variant) = select(g.selection, m.rng, m.positions[i], g.variant_count);
        let chosen = ScheduleModel { rng, positions: m.positions.update(i, variant), ..m };
        if m.queue.len() >= GRAND_PRIX_EVENT_QUEUE_CAPACITY {
            ScheduleModel {
                counters: ScheduleCounters { overflowed_events: bump(m.counters.overflowed_events), ..m.counters },
                ..chosen
            }
        } else {
            let start = (frame + g.timing_offset_frames) as u64;
            let event = ScheduledEvent { kind, frame: start, group_index: g.group_index, variant_index: variant, context };
            ScheduleModel {
                queue: m.queue.push(event),
                retrigger_until: m.retrigger_until.update(i, (start + g.minimum_retrigger_frames) as u64),
                ..chosen
            }
        }
    }
}

/// Scheduling keeps the configuration and the well-formedness of the model.
pub proof fn lemma_schedule_step_frame<R>(m: ScheduleModel<R>, kind: GrandPrixEventKind, frame: u64, context: R)
    ensures
        schedule_step(m, kind, frame, context).groups == m.groups,
        schedule_step(m, kind, frame, context).lift_cooldown_total == m.lift_cooldown_total,
        schedule_step(m, kind, frame, context).limiter_cooldown_total == m.limiter_cooldown_total,
        schedule_step(m, kind, frame, context).lift_cooldown == m.lift_cooldown,
        schedule_step(m, kind, frame, context).limiter_cooldown == m.limiter_cooldown,
        schedule_step(m, kind, frame, context).last_shift_phase == m.last_shift_phase,
        schedule_step(m, kind, frame, context).last_rev_limiter_active == m.last_rev_limiter_active,
        schedule_step(m, kind, frame, context).render_frame == m.render_frame,
        schedule_step(m, kind, frame, context).ingest_cursor == m.ingest_cursor,
        schedule_step(m, kind, frame, context).received == m.received,
{
    reveal(schedule_step);
}

/// Every request is accounted for exactly once: it is queued, counted as
/// suppressed, or counted as overflowed; the queue never exceeds its capacity.
pub proof fn lemma_schedule_accounts<R>(m: ScheduleModel<R>, kind: GrandPrixEventKind, frame: u64, context: R)
    requires
        model_wf(m),
        m.counters.suppressed_events < u64::MAX,
        m.counters.overflowed_events < u64::MAX,
    ensures
        ({
            let n = schedule_step(m, kind, frame, context);
            &&& n.queue.len() + n.counters.suppressed_events + n.counters.overflowed_events
                == m.queue.len() + m.counters.suppressed_events + m.counters.overflowed_events + 1
            &&& n.queue.len() <= GRAND_PRIX_EVENT_QUEUE_CAPACITY
            &&& n.queue.len() >= m.queue.len()
            &&& n.queue.subrange(0, m.queue.len() as int) == m.queue
        }),
{
    reveal(schedule_step);
    let n = schedule_step(m, kind, frame, context);
    assert(n.queue.subrange(0, m.queue.len() as int) =~= m.queue);
}

/// An admitted request queues exactly one event, at the end of the queue: of
/// the requested kind, for the kind's group, starting at the request's frame
/// plus the group's timing offset, and carrying the request's context; the
/// kind is then blocked until that start plus the group's minimum retrigger
/// interval.
pub proof fn lemma_admitted_event_timing<R>(m: ScheduleModel<R>, kind: GrandPrixEventKind, frame: u64, context: R)
    requires
        model_wf(m),
        admitted(m, kind, frame),
        frame + m.groups[kind_index(kind)].unwrap().timing_offset_frames
            + m.groups[kind_index(kind)].unwrap().minimum_retrigger_frames <= u64::MAX,
    ensures
        ({
            let n = schedule_step(m, kind, frame, context);
            let g = m.groups[kind_index(kind)].unwrap();
            &&& n.queue.len() == m.queue.len() + 1
            &&& n.queue.drop_last() == m.queue
            &&& n.queue.last().kind == kind
            &&& n.queue.last().frame == frame + g.timing_offset_frames
            &&& n.queue.last().group_index == g.group_index
            &&& n.queue.last().variant_index < g.variant_count
            &&& n.queue.last().context == context
            &&& n.retrigger_until[kind_index(kind)] == frame + g.timing_offset_frames + g.minimum_retrigger_frames
            &&& n.counters == m.counters
        }),
{
    reveal(schedule_step);
    let n = schedule_step(m, kind, frame, context);
    let g = m.groups[kind_index(kind)].unwrap();
    lemma_select(g.selection, m.rng, m.positions[kind_index(kind)], g.variant_count);
    assert(n.queue.drop_last() =~= m.queue);
}

/// A request that is not admitted queues nothing and is counted once: as
/// suppressed when its kind is retrigger-blocked at the frame or has no
/// playable group, otherwise (the queue is full) as overflowed; no other
/// counter changes and the retrigger windows stay.
pub proof fn lemma_rejected_request_counted<R>(m: ScheduleModel<R>, kind: GrandPrixEventKind, frame: u64, context: R)
    requires
        !admitted(m, kind, frame),
    ensures
        ({
            let n = schedule_step(m, kind, frame, context);
            let i = kind_index(kind);
            let blocked = frame < m.retrigger_until[i] || m.groups[i].is_none() || m.groups[i].unwrap().variant_count == 0;
            &&& n.queue == m.queue
            &&& n.retrigger_until == m.retrigger_until
            &&& blocked ==> n.counters == (ScheduleCounters { suppressed_events: bump(m.counters.suppressed_events), ..m.counters })
            &&& !blocked ==> n.counters == (ScheduleCounters { overflowed_events: bump(m.counters.overflowed_events), ..m.counters })
            &&& !blocked ==> m.queue.len() >= GRAND_PRIX_EVENT_QUEUE_CAPACITY
        }),
{
    reveal(schedule_step);
}

/// Once an event of a kind is queued, further requests of that kind are
/// suppressed until its retrigger window has passed.
pub proof fn lemma_retrigger_window<R>(
    m: ScheduleModel<R>,
    kind: GrandPrixEventKind,
    frame: u64,
    context: R,
    later_frame: u64,
    later_context: R,
)
    requires
        model_wf(m),
        frames_fit(m, frame),
        schedule_step(m, kind, frame, context).queue.len() > m.queue.len(),
        later_frame < schedule_step(m, kind, frame, context).queue.last().frame
            + m.groups[kind_index(kind)].unwrap().minimum_retrigger_frames,
    ensures
        ({
            let n = schedule_step(m, kind, frame, context);
            &&& schedule_step(n, kind, later_frame, later_context).queue == n.queue
            &&& schedule_step(n, kind, later_frame, later_context).counters.suppressed_events
                == bump(n.counters.suppressed_events)
        }),
{
    reveal(schedule_step);
}

/// Holding a shift phase requests nothing: only entering a cut phase does.
pub proof fn lemma_held_shift_phase<R>(m: ScheduleModel<R>, frame: u64, context: R)
    ensures
        shift_step(m, m.last_shift_phase, frame, context) == m,
{
}

/// An event leaves the queue only when its frame has come, oldest first.
pub proof fn lemma_drain_in_order<R>(m: ScheduleModel<R>)
    ensures
        drain_step(m).1 matches Some(e) ==> {
            &&& e == m.queue[0]
            &&& e.frame <= m.render_frame
            &&& drain_step(m).0.queue == m.queue.drop_first()
        },
        drain_step(m).1.is_none() ==> drain_step(m).0 == m,
{
}

/// The frame at which requests of the current telemetry tick are scheduled.
pub open spec fn tick_frame<R>(m: ScheduleModel<R>, input: GrandPrixIngest) -> u64 {
    let cursor = if input.gap_exceeded { m.render_frame } else { m.ingest_cursor };
    if m.render_frame >= cursor { m.render_frame } else { cursor }
}

/// Shift-phase edge: entering the upshift cut requests an upshift, entering
/// the downshift cut requests a downshift.
pub open spec fn shift_step<R>(m: ScheduleModel<R>, phase: i32, frame: u64, context: R) -> ScheduleModel<R> {
    if phase == SHIFT_PHASE_UPSHIFT_CUT && m.last_shift_phase != SHIFT_PHASE_UPSHIFT_CUT {
        schedule_step(m, GrandPrixEventKind::Upshift, frame, context)
    } else if phase == SHIFT_PHASE_DOWNSHIFT_CUT && m.last_shift_phase != SHIFT_PHASE_DOWNSHIFT_CUT {
        schedule_step(m, GrandPrixEventKind::Downshift, frame, context)
    } else {
        m
    }
}

/// Throttle-lift edge outside its cooldown requests a backfire and restarts the cooldown.
pub open spec fn lift_step<R>(m: ScheduleModel<R>, lift_edge: bool, frame: u64, context: R) -> ScheduleModel<R> {
    if lift_edge && m.lift_cooldown == 0 {
        ScheduleModel {
            lift_cooldown: m.lift_cooldown_total,
            ..schedule_step(m, GrandPrixEventKind::LiftBackfire, frame, context)
        }
    } else {
        m
    }
}

/// Rev-limiter entry outside its cooldown requests a limiter event and restarts the cooldown.
pub open spec fn limiter_step<R>(m: ScheduleModel<R>, active: bool, frame: u64, context: R) -> ScheduleModel<R> {
    if active && !m.last_rev_limiter_active && m.limiter_cooldown == 0 {
        ScheduleModel {
            limiter_cooldown: m.limiter_cooldown_total,
            ..schedule_step(m, GrandPrixEventKind::Limiter, frame, context)
        }
    } else {
        m
    }
}

/// One telemetry tick. Invalid packets are only counted. A gap longer than the
/// maximum re-anchors the schedule at the render position. Cooldowns run down
/// by the tick. The first valid packet only arms the edge detectors; later ones
/// request shift, lift and limiter events in that order, all at the tick's
/// frame, and the next tick is scheduled one tick later.
pub open spec fn ingest_step<R>(m: ScheduleModel<R>, input: GrandPrixIngest, context: R) -> ScheduleModel<R> {
    if !input.valid {
        ScheduleModel {
            counters: ScheduleCounters { stale_input_holds: bump(m.counters.stale_input_holds), ..m.counters },
            ..m
        }
    } else {
        let frame = tick_frame(m, input);
        let stale = if input.gap_exceeded { bump(m.counters.stale_input_holds) } else { m.counters.stale_input_holds };
        let m1 = ScheduleModel {
            counters: ScheduleCounters { stale_input_holds: stale, ..m.counters },
            lift_cooldown: if m.lift_cooldown >= input.dt_frames { (m.lift_cooldown - input.dt_frames) as u64 } else { 0u64 },
            limiter_cooldown: if m.limiter_cooldown >= input.dt_frames { (m.limiter_cooldown - input.dt_frames) as u64 } else { 0u64 },
            ..m
        };
        let m2 = if !m.received {
            ScheduleModel { received: true, ..m1 }
        } else {
            limiter_step(
                lift_step(shift_step(m1, input.shift_phase, frame, context), input.lift_edge, frame, context),
                input.rev_limiter_active,
                frame,
                context,
            )
        };
        ScheduleModel {
            last_shift_phase: input.shift_phase,
            last_rev_limiter_active: input.rev_limiter_active,
            ingest_cursor: (frame + input.dt_frames) as u64,
            ..m2
        }
    }
}

/// The first queued event, once its frame has come: it leaves the queue and
/// is counted as accepted (and late when its frame has passed).
pub open spec fn drain_step<R>(m: ScheduleModel<R>) -> (ScheduleModel<R>, Option<ScheduledEvent<R>>) {
    if m.queue.len() == 0 || m.queue[0].frame > m.render_frame {
        (m, None)
    } else {
        let e = m.queue[0];
        let c = m.counters;
        let counters = ScheduleCounters {
            late_events: if e.frame < m.render_frame { bump(c.late_events) } else { c.late_events },
            accepted_events: bump(c.accepted_events),
            accepted_upshift_events: if e.kind == GrandPrixEventKind::Upshift { bump(c.accepted_upshift_events) } else { c.accepted_upshift_events },
            accepted_downshift_events: if e.kind == GrandPrixEventKind::Downshift { bump(c.accepted_downshift_events) } else { c.accepted_downshift_events },
            accepted_backfire_events: if e.kind == GrandPrixEventKind::LiftBackfire { bump(c.accepted_backfire_events) } else { c.accepted_backfire_events },
            accepted_limiter_events: if e.kind == GrandPrixEventKind::Limiter { bump(c.accepted_limiter_events) } else { c.accepted_limiter_events },
            ..c
        };
        (ScheduleModel { queue: m.queue.drop_first(), counters, ..m }, Some(e))
    }
}

/// The number of events of `kind` in `queue`.
pub open spec fn kind_count<R>(queue: Seq<ScheduledEvent<R>>, kind: GrandPrixEventKind) -> nat
    decreases queue.len(),
{
    if queue.len() == 0 {
        0
    } else {
        kind_count(queue.drop_last(), kind) + if queue.last().kind == kind { 1nat } else { 0nat }
    }
}

/// A request of `kind` at `frame` is queued: the kind is not retrigger-blocked,
/// has a playable group, and the queue has room.
pub open spec fn admitted<R>(m: ScheduleModel<R>, kind: GrandPrixEventKind, frame: u64) -> bool {
    let i = kind_index(kind);
    &&& !(frame < m.retrigger_until[i] || m.groups[i].is_none() || m.groups[i].unwrap().variant_count == 0)
    &&& m.queue.len() < GRAND_PRIX_EVENT_QUEUE_CAPACITY
}

/// The shift event a telemetry tick requests: an upshift when a valid packet
/// after the first enters the upshift cut from another phase, a downshift
/// when it enters the downshift cut from another phase, and none otherwise.
pub open spec fn shift_request<R>(m: ScheduleModel<R>, input: GrandPrixIngest) -> Option<GrandPrixEventKind> {
    if !input.valid || !m.received {
        None
    } else if input.shift_phase == SHIFT_PHASE_UPSHIFT_CUT && m.last_shift_phase != SHIFT_PHASE_UPSHIFT_CUT {
        Some(GrandPrixEventKind::Upshift)
    } else if input.shift_phase == SHIFT_PHASE_DOWNSHIFT_CUT && m.last_shift_phase != SHIFT_PHASE_DOWNSHIFT_CUT {
        Some(GrandPrixEventKind::Downshift)
    } else {
        None
    }
}

/// The shift events of `kind` that a tick adds to the queue: one when the
/// tick requests that kind and the request is admitted, none otherwise.
pub open spec fn shift_events_added<R>(m: ScheduleModel<R>, input: GrandPrixIngest, kind: GrandPrixEventKind) -> nat {
    if shift_request(m, input) == Some(kind) && admitted(m, kind, tick_frame(m, input)) {
        1
    } else {
        0
    }
}

proof fn lemma_schedule_counts<R>(m: ScheduleModel<R>, kind: GrandPrixEventKind, frame: u64, context: R, k: GrandPrixEventKind)
    ensures
        kind_count(schedule_step(m, kind, frame, context).queue, k)
            == kind_count(m.queue, k) + if k == kind && admitted(m, kind, frame) { 1nat } else { 0nat },
{
    reveal(schedule_step);
    let n = schedule_step(m, kind, frame, context);
    if admitted(m, kind, frame) {
        assert(n.queue.drop_last() =~= m.queue);
    }
}

proof fn lemma_tick_counts<R>(m: ScheduleModel<R>, input: GrandPrixIngest, context: R, k: GrandPrixEventKind)
    requires
        k == GrandPrixEventKind::Upshift || k == GrandPrixEventKind::Downshift,
    ensures
        kind_count(ingest_step(m, input, context).queue, k) == kind_count(m.queue, k) + shift_events_added(m, input, k),
{
    if input.valid && m.received {
        let frame = tick_frame(m, input);
        let stale = if input.gap_exceeded { bump(m.counters.stale_input_holds) } else { m.counters.stale_input_holds };
        let m1 = ScheduleModel {
            counters: ScheduleCounters { stale_input_holds: stale, ..m.counters },
            lift_cooldown: if m.lift_cooldown >= input.dt_frames { (m.lift_cooldown - input.dt_frames) as u64 } else { 0u64 },
            limiter_cooldown: if m.limiter_cooldown >= input.dt_frames { (m.limiter_cooldown - input.dt_frames) as u64 } else { 0u64 },
            ..m
        };
        let s = shift_step(m1, input.shift_phase, frame, context);
        if input.shift_phase == SHIFT_PHASE_UPSHIFT_CUT && m1.last_shift_phase != SHIFT_PHASE_UPSHIFT_CUT {
            lemma_schedule_counts(m1, GrandPrixEventKind::Upshift, frame, context, k);
        } else if input.shift_phase == SHIFT_PHASE_DOWNSHIFT_CUT && m1.last_shift_phase != SHIFT_PHASE_DOWNSHIFT_CUT {
            lemma_schedule_counts(m1, GrandPrixEventKind::Downshift, frame, context, k);
        }
        assert(kind_count(s.queue, k) == kind_count(m.queue, k) + shift_events_added(m, input, k));
        let l = lift_step(s, input.lift_edge, frame, context);
        if input.lift_edge && s.lift_cooldown == 0 {
            lemma_schedule_counts(s, GrandPrixEventKind::LiftBackfire, frame, context, k);
        }
        assert(kind_count(l.queue, k) == kind_count(s.queue, k));
        let c = limiter_step(l, input.rev_limiter_active, frame, context);
        if input.rev_limiter_active && !l.last_rev_limiter_active && l.limiter_cooldown == 0 {
            lemma_schedule_counts(l, GrandPrixEventKind::Limiter, frame, context, k);
        }
        assert(kind_count(c.queue, k) == kind_count(l.queue, k));
    }
}

/// Exactly one shift event per entry into a shift phase: a telemetry tick
/// adds an upshift to the queue only when it enters the upshift cut (a
/// downshift only when it enters the downshift cut), at most one, and exactly
/// one when the request is admitted; a tick that holds its phase, changes
/// gear alone, or is the first received requests no shift event, and after a
/// valid tick the same phase again requests none.
pub proof fn lemma_one_shift_event_per_entry<R>(m: ScheduleModel<R>, input: GrandPrixIngest, context: R)
    ensures
        kind_count(ingest_step(m, input, context).queue, GrandPrixEventKind::Upshift)
            == kind_count(m.queue, GrandPrixEventKind::Upshift) + shift_events_added(m, input, GrandPrixEventKind::Upshift),
        kind_count(ingest_step(m, input, context).queue, GrandPrixEventKind::Downshift)
            == kind_count(m.queue, GrandPrixEventKind::Downshift) + shift_events_added(m, input, GrandPrixEventKind::Downshift),
        shift_events_added(m, input, GrandPrixEventKind::Upshift) + shift_events_added(m, input, GrandPrixEventKind::Downshift) <= 1,
        input.shift_phase == m.last_shift_phase ==> shift_request(m, input).is_none(),
        input.valid ==> shift_request(ingest_step(m, input, context), input).is_none(),
{
    lemma_tick_counts(m, input, context, GrandPrixEventKind::Upshift);
    lemma_tick_counts(m, input, context, GrandPrixEventKind::Downshift);
}

/// Event scheduler of the Grand Prix sampler.
pub struct GrandPrixScheduler<R> {
    groups: Vec<Option<GroupSchedule>>,
    lift_cooldown_total_frames: u64,
    limiter_cooldown_total_frames: u64,
    event_queue: VecDeque<ScheduledEvent<R>>,
    retrigger_until_frames: Vec<u64>,
    cycle_position_by_kind: Vec<usize>,
    rng_state: u64,
    lift_edge_cooldown_frames: u64,
    limiter_edge_cooldown_frames: u64,
    render_frame: u64,
    ingest_frame_cursor: u64,
    received_telemetry: bool,
    last_shift_phase: i32,
    last_rev_limiter_active: bool,
    counters: ScheduleCounters,
}

impl<R> View for GrandPrixScheduler<R> {
    type V = ScheduleModel<R>;

    closed spec fn view(&self) -> ScheduleModel<R> {
        ScheduleModel {
            groups: self.groups@,
            lift_cooldown_total: self.lift_cooldown_total_frames,
            limiter_cooldown_total: self.limiter_cooldown_total_frames,
            queue: self.event_queue@,
            retrigger_until: self.retrigger_until_frames@,
            positions: self.cycle_position_by_kind@,
            rng: self.rng_state,
            lift_cooldown: self.lift_edge_cooldown_frames,
            limiter_cooldown: self.limiter_edge_cooldown_frames,
            render_frame: self.render_frame,
            ingest_cursor: self.ingest_frame_cursor,
            received: self.received_telemetry,
            last_shift_phase: self.last_shift_phase,
            last_rev_limiter_active: self.last_rev_limiter_active,
            counters: self.counters,
        }
    }
}

/// Well-formedness of a scheduler model: four kind slots, each holding a
/// group of its own role whose variant arithmetic stays within `usize`, and a
/// queue within capacity.
pub open spec fn model_wf<R>(m: ScheduleModel<R>) -> bool {
    &&& m.groups.len() == 4
    &&& m.retrigger_until.len() == 4
    &&& m.positions.len() == 4
    &&& m.queue.len() <= GRAND_PRIX_EVENT_QUEUE_CAPACITY
    &&& forall|i: int| 0 <= i < 4 && (#[trigger] m.groups[i]).is_some() ==> {
        &&& role_index(m.groups[i].unwrap().role) == i
        &&& m.groups[i].unwrap().variant_count <= usize::MAX / 2
    }
}

impl<R: Copy> GrandPrixScheduler<R> {
    /// A scheduler for the bank's event groups (the last group of each role
    /// serves that role), seeded with `seed` (0 counts as 1), with the lift and
    /// limiter edge cooldowns given in frames.
    pub fn new(
        groups: &Vec<GroupSchedule>,
        seed: u64,
        lift_cooldown_frames: u64,
        limiter_cooldown_frames: u64,
    ) -> (r: Self)
        requires
            forall|i: int| 0 <= i < groups@.len() ==> (#[trigger] groups@[i]).variant_count <= usize::MAX / 2,
        ensures
            model_wf(r@),
            forall|i: int| 0 <= i < 4 ==> #[trigger] r@.groups[i] == group_for(groups@, i),
            r@.lift_cooldown_total == lift_cooldown_frames,
            r@.limiter_cooldown_total == limiter_cooldown_frames,
            r@.queue == Seq::<ScheduledEvent<R>>::empty(),
            r@.retrigger_until == seq![0u64, 0u64, 0u64, 0u64],
            r@.positions == seq![0usize, 0usize, 0usize, 0usize],
            r@.rng == if seed == 0 { 1u64 } else { seed },
            r@.lift_cooldown == 0,
            r@.limiter_cooldown == 0,
            r@.render_frame == 0,
            r@.ingest_cursor == 0,
            !r@.received,
            r@.last_shift_phase == 0,
            !r@.last_rev_limiter_active,
            r@.counters == ScheduleCounters::default_value(),
    {
        let mut slots: Vec<Option<GroupSchedule>> = vec![None, None, None, None];
        let mut k: usize = 0;
        while k < groups.len()
            invariant
                k <= groups@.len(),
                slots@.len() == 4,
                forall|i: int| 0 <= i < 4 ==> #[trigger] slots@[i] == group_for(groups@.subrange(0, k as int), i),
                forall|i: int| 0 <= i < groups@.len() ==> (#[trigger] groups@[i]).variant_count <= usize::MAX / 2,
            decreases groups@.len() - k,
        {
            let g = groups[k];
            let slot: usize = match g.role {
                GrandPrixEventRole::GearboxUpshift => 0,
                GrandPrixEventRole::GearboxDownshift => 1,
                GrandPrixEventRole::LiftBackfire => 2,
                GrandPrixEventRole::LimiterEvent => 3,
            };
            slots.set(slot, Some(g));
            proof {
                let pre = groups@.subrange(0, k as int);
                let next = groups@.subrange(0, k + 1);
                assert(next.drop_last() =~= pre);
                assert(next.last() == g);
            }
            k = k + 1;
        }
        proof {
            assert(groups@.subrange(0, groups@.len() as int) =~= groups@);
            assert forall|i: int| 0 <= i < 4 && (#[trigger] slots@[i]).is_some() implies {
                &&& role_index(slots@[i].unwrap().role) == i
                &&& slots@[i].unwrap().variant_count <= usize::MAX / 2
            } by {
                lemma_group_for(groups@, i);
            }
        }
        GrandPrixScheduler {
            groups: slots,
            lift_cooldown_total_frames: lift_cooldown_frames,
            limiter_cooldown_total_frames: limiter_cooldown_frames,
            event_queue: VecDeque::with_capacity(GRAND_PRIX_EVENT_QUEUE_CAPACITY),
            retrigger_until_frames: vec![0u64, 0u64, 0u64, 0u64],
            cycle_position_by_kind: vec![0usize, 0usize, 0usize, 0usize],
            rng_state: if seed == 0 { 1 } else { seed },
            lift_edge_cooldown_frames: 0,
            limiter_edge_cooldown_frames: 0,
            render_frame: 0,
            ingest_frame_cursor: 0,
            received_telemetry: false,
            last_shift_phase: 0,
            last_rev_limiter_active: false,
            counters: ScheduleCounters::zero(),
        }
    }
}

impl<R: Copy> GrandPrixScheduler<R> {
    fn schedule_event(&mut self, kind: GrandPrixEventKind, frame: u64, context: R)
        requires
            model_wf(old(self)@),
            frames_fit(old(self)@, frame),
        ensures
            model_wf(final(self)@),
            final(self)@ == schedule_step(old(self)@, kind, frame, context),
    {
        reveal(schedule_step);
        let index = kind.index();
        if frame < self.retrigger_until_frames[index] {
            self.counters.suppressed_events = self.counters.suppressed_events.saturating_add(1);
            return;
        }
        let group = match self.groups[index] {
            Some(group) => group,
            None => {
                self.counters.suppressed_events = self.counters.suppressed_events.saturating_add(1);
                return;
            },
        };
        if group.variant_count == 0 {
            self.counters.suppressed_events = self.counters.suppressed_events.saturating_add(1);
            return;
        }
        let selected = self.select_variant(group, index);
        if self.event_queue.len() >= GRAND_PRIX_EVENT_QUEUE_CAPACITY {
            self.counters.overflowed_events = self.counters.overflowed_events.saturating_add(1);
            return;
        }
        assert(self@.groups[index as int] == Some(group));
        let start = frame + group.timing_offset_frames;
        let event = ScheduledEvent {
            kind,
            frame: start,
            group_index: group.group_index,
            variant_index: selected,
            context,
        };
        self.retrigger_until_frames.set(index, start + group.minimum_retrigger_frames);
        self.event_queue.push_back(event);
    }

    fn select_variant(&mut self, group: GroupSchedule, index: usize) -> (selected: usize)
        requires
            model_wf(old(self)@),
            index < 4,
            old(self)@.groups[index as int] == Some(group),
            group.variant_count > 0,
        ensures
            model_wf(final(self)@),
            (final(self)@.rng, selected) == select(group.selection, old(self)@.rng, old(self)@.positions[index as int], group.variant_count),
            final(self)@ == (ScheduleModel {
                rng: final(self)@.rng,
                positions: old(self)@.positions.update(index as int, selected),
                ..old(self)@
            }),
    {
        let count = group.variant_count;
        assert(count <= usize::MAX / 2);
        let selected: usize = match group.selection {
            GrandPrixSelection::SingleVariant => 0,
            GrandPrixSelection::SeededCycle => {
                self.rng_state = next_rng_state(self.rng_state);
                (self.rng_state >> 33u64) as usize % count
            },
            GrandPrixSelection::SeededNoImmediateRepeat => {
                self.rng_state = next_rng_state(self.rng_state);
                if count == 1 {
                    0
                } else {
                    let step = 1 + (self.rng_state >> 33u64) as usize % (count - 1);
                    let previous = self.cycle_position_by_kind[index] % count;
                    (previous + step) % count
                }
            },
        };
        self.cycle_position_by_kind.set(index, selected);
        selected
    }

    /// Feed one telemetry tick (see `ingest_step`); `context` travels with every
    /// event that the tick schedules.
    pub fn ingest(&mut self, input: GrandPrixIngest, context: R)
        requires
            model_wf(old(self)@),
            input.valid ==> frames_fit(old(self)@, tick_frame(old(self)@, input)),
            input.valid ==> tick_frame(old(self)@, input) + input.dt_frames <= u64::MAX,
        ensures
            model_wf(final(self)@),
            final(self)@ == ingest_step(old(self)@, input, context),
    {
        if !input.valid {
            self.counters.stale_input_holds = self.counters.stale_input_holds.saturating_add(1);
            return;
        }
        let cursor = if input.gap_exceeded {
            self.counters.stale_input_holds = self.counters.stale_input_holds.saturating_add(1);
            self.render_frame
        } else {
            self.ingest_frame_cursor
        };
        let scheduled_frame = if self.render_frame >= cursor { self.render_frame } else { cursor };
        self.lift_edge_cooldown_frames = self.lift_edge_cooldown_frames.saturating_sub(input.dt_frames);
        self.limiter_edge_cooldown_frames = self.limiter_edge_cooldown_frames.saturating_sub(input.dt_frames);
        let ghost m1 = self@;
        assert(scheduled_frame == tick_frame(old(self)@, input));
        if self.received_telemetry {
            self.request_shift(input.shift_phase, scheduled_frame, context);
            self.request_lift(input.lift_edge, scheduled_frame, context);
            self.request_limiter(input.rev_limiter_active, scheduled_frame, context);
            assert(self@ == limiter_step(lift_step(shift_step(m1, input.shift_phase, scheduled_frame, context),
                input.lift_edge, scheduled_frame, context), input.rev_limiter_active, scheduled_frame, context));
        } else {
            self.received_telemetry = true;
        }
        self.last_shift_phase = input.shift_phase;
        self.last_rev_limiter_active = input.rev_limiter_active;
        self.ingest_frame_cursor = scheduled_frame + input.dt_frames;
    }

    fn request_shift(&mut self, phase: i32, frame: u64, context: R)
        requires
            model_wf(old(self)@),
            frames_fit(old(self)@, frame),
        ensures
            model_wf(final(self)@),
            frames_fit(final(self)@, frame),
            final(self)@ == shift_step(old(self)@, phase, frame, context),
    {
        if phase == SHIFT_PHASE_UPSHIFT_CUT && self.last_shift_phase != SHIFT_PHASE_UPSHIFT_CUT {
            proof { lemma_schedule_step_frame(self@, GrandPrixEventKind::Upshift, frame, context); }
            self.schedule_event(GrandPrixEventKind::Upshift, frame, context);
        } else if phase == SHIFT_PHASE_DOWNSHIFT_CUT && self.last_shift_phase != SHIFT_PHASE_DOWNSHIFT_CUT {
            proof { lemma_schedule_step_frame(self@, GrandPrixEventKind::Downshift, frame, context); }
            self.schedule_event(GrandPrixEventKind::Downshift, frame, context);
        }
    }

    fn request_lift(&mut self, lift_edge: bool, frame: u64, context: R)
        requires
            model_wf(old(self)@),
            frames_fit(old(self)@, frame),
        ensures
            model_wf(final(self)@),
            frames_fit(final(self)@, frame),
            final(self)@ == lift_step(old(self)@, lift_edge, frame, context),
    {
        if lift_edge && self.lift_edge_cooldown_frames == 0 {
            proof { lemma_schedule_step_frame(self@, GrandPrixEventKind::LiftBackfire, frame, context); }
            self.schedule_event(GrandPrixEventKind::LiftBackfire, frame, context);
            self.lift_edge_cooldown_frames = self.lift_cooldown_total_frames;
        }
    }

    fn request_limiter(&mut self, active: bool, frame: u64, context: R)
        requires
            model_wf(old(self)@),
            frames_fit(old(self)@, frame),
        ensures
            model_wf(final(self)@),
            frames_fit(final(self)@, frame),
            final(self)@ == limiter_step(old(self)@, active, frame, context),
    {
        if active && !self.last_rev_limiter_active && self.limiter_edge_cooldown_frames == 0 {
            proof { lemma_schedule_step_frame(self@, GrandPrixEventKind::Limiter, frame, context); }
            self.schedule_event(GrandPrixEventKind::Limiter, frame, context);
            self.limiter_edge_cooldown_frames = self.limiter_cooldown_total_frames;
        }
    }

    /// Schedule `kind` directly, at the current scheduling frame, without telemetry.
    pub fn ingest_direct(&mut self, kind: GrandPrixEventKind, context: R)
        requires
            model_wf(old(self)@),
            frames_fit(old(self)@, if old(self)@.render_frame >= old(self)@.ingest_cursor { old(self)@.render_frame } else { old(self)@.ingest_cursor }),
        ensures
            model_wf(final(self)@),
            final(self)@ == schedule_step(
                old(self)@,
                kind,
                if old(self)@.render_frame >= old(self)@.ingest_cursor { old(self)@.render_frame } else { old(self)@.ingest_cursor },
                context,
            ),
    {
        let scheduled_frame = if self.render_frame >= self.ingest_frame_cursor { self.render_frame } else { self.ingest_frame_cursor };
        self.schedule_event(kind, scheduled_frame, context);
    }

    /// Take the next event whose frame has come (see `drain_step`).
    pub fn pop_due_event(&mut self) -> (r: Option<ScheduledEvent<R>>)
        requires
            model_wf(old(self)@),
        ensures
            model_wf(final(self)@),
            (final(self)@, r) == drain_step(old(self)@),
    {
        if self.event_queue.len() == 0 {
            return None;
        }
        let event = self.event_queue[0];
        if event.frame > self.render_frame {
            return None;
        }
        let popped = self.event_queue.pop_front();
        proof {
            assert(self@.queue =~= old(self)@.queue.drop_first());
        }
        if event.frame < self.render_frame {
            self.counters.late_events = self.counters.late_events.saturating_add(1);
        }
        self.counters.accepted_events = self.counters.accepted_events.saturating_add(1);
        match event.kind {
            GrandPrixEventKind::Upshift => {
                self.counters.accepted_upshift_events = self.counters.accepted_upshift_events.saturating_add(1);
            },
            GrandPrixEventKind::Downshift => {
                self.counters.accepted_downshift_events = self.counters.accepted_downshift_events.saturating_add(1);
            },
            GrandPrixEventKind::LiftBackfire => {
                self.counters.accepted_backfire_events = self.counters.accepted_backfire_events.saturating_add(1);
            },
            GrandPrixEventKind::Limiter => {
                self.counters.accepted_limiter_events = self.counters.accepted_limiter_events.saturating_add(1);
            },
        }
        Some(event)
    }

    /// Advance the render position by one frame (sticking at the maximum).
    pub fn finish_frame(&mut self)
        requires
            model_wf(old(self)@),
        ensures
            model_wf(final(self)@),
            final(self)@ == (ScheduleModel { render_frame: bump(old(self)@.render_frame), ..old(self)@ }),
    {
        self.render_frame = self.render_frame.saturating_add(1);
    }

    /// Forget the schedule: queue, retrigger windows, cooldowns, variant
    /// history, positions, edge detectors and counters start over; the
    /// configuration and the generator state are kept.
    pub fn reset(&mut self)
        requires
            model_wf(old(self)@),
        ensures
            model_wf(final(self)@),
            final(self)@ == (ScheduleModel {
                queue: Seq::empty(),
                retrigger_until: seq![0u64, 0u64, 0u64, 0u64],
                positions: seq![0usize, 0usize, 0usize, 0usize],
                lift_cooldown: 0,
                limiter_cooldown: 0,
                render_frame: 0,
                ingest_cursor: 0,
                received: false,
                last_shift_phase: 0,
                last_rev_limiter_active: false,
                counters: ScheduleCounters::default_value(),
                ..old(self)@
            }),
    {
        self.event_queue.clear();
        self.retrigger_until_frames = vec![0u64, 0u64, 0u64, 0u64];
        self.cycle_position_by_kind = vec![0usize, 0usize, 0usize, 0usize];
        self.lift_edge_cooldown_frames = 0;
        self.limiter_edge_cooldown_frames = 0;
        self.render_frame = 0;
        self.ingest_frame_cursor = 0;
        self.received_telemetry = false;
        self.last_shift_phase = 0;
        self.last_rev_limiter_active = false;
        self.counters = ScheduleCounters::zero();
    }

    /// Number of queued events.
    pub fn queued_events(&self) -> (r: usize)
        ensures
            r == self@.queue.len(),
    {
        self.event_queue.len()
    }

    /// The event counters.
    pub fn counters(&self) -> (r: ScheduleCounters)
        ensures
            r == self@.counters,
    {
        self.counters
    }

    /// The current render frame.
    pub fn render_frame(&self) -> (r: u64)
        ensures
            r == self@.render_frame,
    {
        self.render_frame
    }

    /// Has a valid telemetry packet arrived since construction or reset?
    pub fn received_telemetry(&self) -> (r: bool)
        ensures
            r == self@.received,
    {
        self.received_telemetry
    }

    /// The queued event at `index`, oldest first.
    pub fn queued_event(&self, index: usize) -> (r: ScheduledEvent<R>)
        requires
            index < self@.queue.len(),
        ensures
            r == self@.queue[index as int],
    {
        self.event_queue[index]
    }
}

/// The group that `group_for` picks is one of the groups, of the asked role.
proof fn lemma_group_for(groups: Seq<GroupSchedule>, i: int)
    ensures
        group_for(groups, i) matches Some(g) ==> role_index(g.role) == i && groups.contains(g),
    decreases groups.len(),
{
    if groups.len() > 0 {
        lemma_group_for(groups.drop_last(), i);
        if role_index(groups.last().role) != i {
            if let Some(g) = group_for(groups.drop_last(), i) {
                let k = choose|k: int| 0 <= k < groups.drop_last().len() && groups.drop_last()[k] == g;
                assert(groups[k] == g);
            }
        } else {
            assert(groups[groups.len() - 1] == groups.last());
        }
    }
}

impl ScheduleCounters {
    /// All counters at zero.
    pub open spec fn default_value() -> ScheduleCounters {
        ScheduleCounters {
            accepted_events: 0,
            accepted_upshift_events: 0,
            accepted_downshift_events: 0,
            accepted_backfire_events: 0,
            accepted_limiter_events: 0,
            suppressed_events: 0,
            late_events: 0,
            overflowed_events: 0,
            stale_input_holds: 0,
        }
    }

    /// All counters at zero.
    pub fn zero() -> (r: ScheduleCounters)
        ensures
            r == ScheduleCounters::default_value(),
    {
        ScheduleCounters {
            accepted_events: 0,
            accepted_upshift_events: 0,
            accepted_downshift_events: 0,
            accepted_backfire_events: 0,
            accepted_limiter_events: 0,
            suppressed_events: 0,
            late_events: 0,
            overflowed_events: 0,
            stale_input_holds: 0,
        }
    }
}

/// Voices of the sampler: two shift voices, then the backfire and limiter voices.
pub const GRAND_PRIX_SHIFT_VOICE_COUNT: usize = 2;
pub const GRAND_PRIX_BACKFIRE_VOICE_INDEX: usize = 2;
pub const GRAND_PRIX_LIMITER_VOICE_INDEX: usize = 3;
pub const GRAND_PRIX_VOICE_COUNT: usize = 4;

/// The first index below `n` whose voice is idle, if any.
pub open spec fn first_idle(active: Seq<bool>, n: int) -> Option<int>
    decreases n,
{
    if n <= 0 {
        None
    } else {
        match first_idle(active, n - 1) {
            Some(i) => Some(i),
            None => if !active[n - 1] { Some(n - 1) } else { None },
        }
    }
}

/// Among the first `n` voices, the first one with the fewest frames left,
/// counting only values below `bound`; `None` when none is below it.
pub open spec fn fewest_left(remaining: Seq<usize>, n: int, bound: usize) -> Option<int>
    decreases n,
{
    if n <= 0 {
        None
    } else {
        match fewest_left(remaining, n - 1, bound) {
            Some(i) => if remaining[n - 1] < remaining[i] { Some(n - 1) } else { Some(i) },
            None => if remaining[n - 1] < bound { Some(n - 1) } else { None },
        }
    }
}

/// The voice that an event of `kind` starts on: a shift takes the first idle
/// shift voice, or else the shift voice with the fewest frames left (none
/// when every one has `usize::MAX` left); a backfire and a limiter event
/// have a voice each.
pub open spec fn voice_for(kind: GrandPrixEventKind, active: Seq<bool>, remaining: Seq<usize>) -> Option<int> {
    match kind {
        GrandPrixEventKind::Upshift | GrandPrixEventKind::Downshift => match first_idle(active, GRAND_PRIX_SHIFT_VOICE_COUNT as int) {
            Some(i) => Some(i),
            None => fewest_left(remaining, GRAND_PRIX_SHIFT_VOICE_COUNT as int, usize::MAX),
        },
        GrandPrixEventKind::LiftBackfire => Some(GRAND_PRIX_BACKFIRE_VOICE_INDEX as int),
        GrandPrixEventKind::Limiter => Some(GRAND_PRIX_LIMITER_VOICE_INDEX as int),
    }
}

/// The voice an event starts on, given which voices are playing and how
/// many frames each has left.
pub fn event_voice(kind: GrandPrixEventKind, active: &[bool], remaining: &[usize]) -> (r: Option<usize>)
    requires
        active@.len() >= GRAND_PRIX_SHIFT_VOICE_COUNT,
        remaining@.len() >= GRAND_PRIX_SHIFT_VOICE_COUNT,
    ensures
        match r {
            Some(i) => voice_for(kind, active@, remaining@) == Some(i as int),
            None => voice_for(kind, active@, remaining@).is_none(),
        },
{
    match kind {
        GrandPrixEventKind::LiftBackfire => Some(GRAND_PRIX_BACKFIRE_VOICE_INDEX),
        GrandPrixEventKind::Limiter => Some(GRAND_PRIX_LIMITER_VOICE_INDEX),
        _ => {
            let mut index: usize = 0;
            while index < GRAND_PRIX_SHIFT_VOICE_COUNT
                invariant
                    index <= GRAND_PRIX_SHIFT_VOICE_COUNT,
                    active@.len() >= GRAND_PRIX_SHIFT_VOICE_COUNT,
                    first_idle(active@, index as int).is_none(),
                    kind == GrandPrixEventKind::Upshift || kind == GrandPrixEventKind::Downshift,
                decreases GRAND_PRIX_SHIFT_VOICE_COUNT - index,
            {
                if !active[index] {
                    assert(first_idle(active@, index + 1) == Some(index as int));
                    proof {
                        lemma_first_idle_stays(active@, index + 1, GRAND_PRIX_SHIFT_VOICE_COUNT as int);
                    }
                    return Some(index);
                }
                index = index + 1;
            }
            let mut target: Option<usize> = None;
            let mut fewest: usize = usize::MAX;
            let mut k: usize = 0;
            while k < GRAND_PRIX_SHIFT_VOICE_COUNT
                invariant
                    k <= GRAND_PRIX_SHIFT_VOICE_COUNT,
                    remaining@.len() >= GRAND_PRIX_SHIFT_VOICE_COUNT,
                    match target {
                        Some(t) => fewest_left(remaining@, k as int, usize::MAX) == Some(t as int)
                            && t < k && fewest == remaining@[t as int],
                        None => fewest_left(remaining@, k as int, usize::MAX).is_none() && fewest == usize::MAX,
                    },
                decreases GRAND_PRIX_SHIFT_VOICE_COUNT - k,
            {
                if remaining[k] < fewest {
                    fewest = remaining[k];
                    target = Some(k);
                }
                k = k + 1;
            }
            target
        },
    }
}

proof fn lemma_first_idle_stays(active: Seq<bool>, n: int, m: int)
    requires
        0 < n <= m,
        first_idle(active, n).is_some(),
    ensures
        first_idle(active, m) == first_idle(active, n),
    decreases m - n,
{
    if n < m {
        lemma_first_idle_stays(active, n, m - 1);
    }
}

} // verus!
