use vehicle_audio_engine::grand_prix_bank::{GrandPrixEventRole, GrandPrixSelection};
use vehicle_audio_engine::grand_prix_schedule::{
    event_voice, next_rng_state, GrandPrixEventKind, GrandPrixIngest, GrandPrixScheduler, GroupSchedule,
    GRAND_PRIX_EVENT_QUEUE_CAPACITY, SHIFT_PHASE_DOWNSHIFT_CUT, SHIFT_PHASE_UPSHIFT_CUT,
};

fn group(index: usize, role: GrandPrixEventRole, variants: usize, retrigger: u64) -> GroupSchedule {
    GroupSchedule {
        group_index: index,
        role,
        selection: GrandPrixSelection::SeededNoImmediateRepeat,
        variant_count: variants,
        timing_offset_frames: 0,
        minimum_retrigger_frames: retrigger,
    }
}

fn scheduler() -> GrandPrixScheduler<u32> {
    let groups = vec![
        group(0, GrandPrixEventRole::GearboxUpshift, 3, 100),
        group(1, GrandPrixEventRole::GearboxDownshift, 2, 100),
        group(2, GrandPrixEventRole::LiftBackfire, 2, 10),
        group(3, GrandPrixEventRole::LimiterEvent, 1, 10),
    ];
    GrandPrixScheduler::new(&groups, 42, 1000, 500)
}

fn tick(shift_phase: i32, lift_edge: bool, limiter: bool) -> GrandPrixIngest {
    GrandPrixIngest {
        valid: true,
        dt_frames: 367,
        gap_exceeded: false,
        shift_phase,
        rev_limiter_active: limiter,
        lift_edge,
    }
}

#[test]
fn event_kinds_have_fixed_slots() {
    assert_eq!(GrandPrixEventKind::Upshift.index(), 0);
    assert_eq!(GrandPrixEventKind::Downshift.index(), 1);
    assert_eq!(GrandPrixEventKind::LiftBackfire.index(), 2);
    assert_eq!(GrandPrixEventKind::Limiter.index(), 3);
}

#[test]
fn xorshift_step_matches_the_generator() {
    let mut x: u64 = 42;
    x ^= x << 13;
    x ^= x >> 7;
    x ^= x << 17;
    assert_eq!(next_rng_state(42), x);
}

#[test]
fn first_packet_only_arms_the_edge_detectors() {
    let mut s = scheduler();
    s.ingest(tick(SHIFT_PHASE_UPSHIFT_CUT, true, true), 1);
    assert!(s.received_telemetry());
    assert_eq!(s.queued_events(), 0);
}

#[test]
fn upshift_cut_entry_schedules_once_while_held() {
    let mut s = scheduler();
    s.ingest(tick(0, false, false), 0);
    s.ingest(tick(SHIFT_PHASE_UPSHIFT_CUT, false, false), 7);
    assert_eq!(s.queued_events(), 1);
    s.ingest(tick(SHIFT_PHASE_UPSHIFT_CUT, false, false), 8);
    assert_eq!(s.queued_events(), 1);
    let e = s.queued_event(0);
    assert_eq!(e.kind, GrandPrixEventKind::Upshift);
    assert_eq!(e.frame, 367);
    assert_eq!(e.context, 7);
    assert!(e.variant_index < 3);
}

#[test]
fn downshift_and_limiter_edges_schedule_in_order() {
    let mut s = scheduler();
    s.ingest(tick(0, false, false), 0);
    s.ingest(tick(SHIFT_PHASE_DOWNSHIFT_CUT, true, true), 1);
    assert_eq!(s.queued_events(), 3);
    assert_eq!(s.queued_event(0).kind, GrandPrixEventKind::Downshift);
    assert_eq!(s.queued_event(1).kind, GrandPrixEventKind::LiftBackfire);
    assert_eq!(s.queued_event(2).kind, GrandPrixEventKind::Limiter);
    s.ingest(tick(0, true, true), 2);
    assert_eq!(s.queued_events(), 3, "cooldowns and held limiter request nothing");
}

#[test]
fn direct_requests_drain_when_due_and_are_counted() {
    let mut s = scheduler();
    s.ingest_direct(GrandPrixEventKind::LiftBackfire, 5);
    assert_eq!(s.queued_events(), 1);
    let e = s.pop_due_event().expect("due at frame 0");
    assert_eq!(e.kind, GrandPrixEventKind::LiftBackfire);
    assert_eq!(s.counters().accepted_events, 1);
    assert_eq!(s.counters().accepted_backfire_events, 1);
    s.ingest_direct(GrandPrixEventKind::LiftBackfire, 6);
    assert_eq!(s.counters().suppressed_events, 1, "inside the retrigger window");
    for _ in 0..10 {
        s.finish_frame();
    }
    assert_eq!(s.render_frame(), 10);
    s.ingest_direct(GrandPrixEventKind::LiftBackfire, 7);
    assert_eq!(s.queued_events(), 1);
}

#[test]
fn full_queue_counts_overflow() {
    let groups = vec![GroupSchedule {
        group_index: 0,
        role: GrandPrixEventRole::LimiterEvent,
        selection: GrandPrixSelection::SingleVariant,
        variant_count: 1,
        timing_offset_frames: 0,
        minimum_retrigger_frames: 0,
    }];
    let mut s: GrandPrixScheduler<u32> = GrandPrixScheduler::new(&groups, 0, 0, 0);
    for i in 0..GRAND_PRIX_EVENT_QUEUE_CAPACITY {
        s.ingest_direct(GrandPrixEventKind::Limiter, i as u32);
    }
    assert_eq!(s.queued_events(), GRAND_PRIX_EVENT_QUEUE_CAPACITY);
    s.ingest_direct(GrandPrixEventKind::Limiter, 99);
    assert_eq!(s.queued_events(), GRAND_PRIX_EVENT_QUEUE_CAPACITY);
    assert_eq!(s.counters().overflowed_events, 1);
    s.ingest_direct(GrandPrixEventKind::Upshift, 100);
    assert_eq!(s.counters().suppressed_events, 1, "no upshift group");
}

#[test]
fn reset_clears_the_schedule() {
    let mut s = scheduler();
    s.ingest(tick(0, false, false), 0);
    s.ingest(tick(SHIFT_PHASE_UPSHIFT_CUT, false, false), 1);
    s.finish_frame();
    s.reset();
    assert_eq!(s.queued_events(), 0);
    assert_eq!(s.render_frame(), 0);
    assert!(!s.received_telemetry());
    assert_eq!(s.counters().suppressed_events, 0);
}

#[test]
fn invalid_packets_only_count_stale_holds() {
    let mut s = scheduler();
    let mut bad = tick(SHIFT_PHASE_UPSHIFT_CUT, true, true);
    bad.valid = false;
    s.ingest(bad, 0);
    assert_eq!(s.counters().stale_input_holds, 1);
    assert!(!s.received_telemetry());
}

#[test]
fn events_start_on_their_voices() {
    let k = GrandPrixEventKind::Upshift;
    assert_eq!(event_voice(k, &[false, true, true, true], &[0, 0, 0, 0]), Some(0));
    assert_eq!(event_voice(k, &[true, false, true, true], &[0, 0, 0, 0]), Some(1));
    assert_eq!(event_voice(GrandPrixEventKind::Downshift, &[true, true, false, false], &[50, 20, 0, 0]), Some(1));
    assert_eq!(event_voice(k, &[true, true], &[20, 20]), Some(0));
    assert_eq!(event_voice(k, &[true, true], &[usize::MAX, usize::MAX]), None);
    assert_eq!(event_voice(GrandPrixEventKind::LiftBackfire, &[false, false], &[0, 0]), Some(2));
    assert_eq!(event_voice(GrandPrixEventKind::Limiter, &[false, false], &[0, 0]), Some(3));
}

#[test]
fn phases_other_than_the_cuts_request_no_shift_event() {
    let mut s = scheduler();
    s.ingest(tick(0, false, false), 0);
    s.ingest(tick(2, false, false), 1);
    s.ingest(tick(0, false, false), 2);
    s.ingest(tick(4, false, false), 3);
    assert_eq!(s.queued_events(), 0);
    s.ingest(tick(SHIFT_PHASE_DOWNSHIFT_CUT, false, false), 4);
    s.ingest(tick(SHIFT_PHASE_DOWNSHIFT_CUT, false, false), 5);
    assert_eq!(s.queued_events(), 1);
    assert_eq!(s.queued_event(0).kind, GrandPrixEventKind::Downshift);
}
