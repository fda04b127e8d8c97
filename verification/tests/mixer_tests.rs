use vehicle_audio_engine::mixer::{
    companion_delay_frames, gear_change, fire_trigger, is_companion_key, lod_transition_frames, next_variant_state,
    step_one_shot, ContinuousSourceKind, DiagnosticMode, OneShotFrame, OneShotVoice, ONE_SHOT_ENV_SAMPLES,
};
use vehicle_audio_engine::state::Trigger;

fn voice(trigger: Trigger, companion: bool) -> OneShotVoice {
    OneShotVoice { trigger, companion, cursor: 5, delay_remaining: 0, active: false }
}

#[test]
fn variant_generator_is_the_64_bit_lcg() {
    assert_eq!(next_variant_state(0), 1);
    assert_eq!(next_variant_state(1), 6364136223846793005u64.wrapping_add(1));
    let s: u64 = 0xdead_beef;
    assert_eq!(next_variant_state(s), s.wrapping_mul(6364136223846793005).wrapping_add(1));
}

#[test]
fn companion_keys_and_delays() {
    assert!(is_companion_key("shift_up_delayed"));
    assert!(!is_companion_key("shift_up"));
    assert!(!is_companion_key("delayed"));
    assert_eq!(companion_delay_frames(44100), 882);
    assert_eq!(companion_delay_frames(48000), 960);
    assert_eq!(lod_transition_frames(30, 44100), 1323);
    assert_ne!(ContinuousSourceKind::Legacy, ContinuousSourceKind::V10Gf509);
    assert_ne!(DiagnosticMode::Mix, DiagnosticMode::EventsOnly);
}

#[test]
fn a_trigger_starts_one_variant_and_its_companion() {
    let mut voices = vec![
        voice(Trigger::ShiftUp, false),
        voice(Trigger::Backfire, false),
        voice(Trigger::ShiftUp, false),
        voice(Trigger::ShiftUp, true),
    ];
    let mut rng: u64 = 1;
    fire_trigger(&mut voices, &mut rng, Trigger::ShiftUp, 44100);
    assert_eq!(rng, next_variant_state(1));
    let selected = ((rng >> 32) as usize) % 2;
    assert_eq!(voices[0].active, selected == 0);
    assert_eq!(voices[2].active, selected == 1);
    assert!(!voices[1].active);
    assert_eq!(voices[1].cursor, 5);
    assert!(voices[3].active);
    assert_eq!(voices[3].delay_remaining, 882);
    assert_eq!(voices[3].cursor, 0);
    let started = if selected == 0 { voices[0] } else { voices[2] };
    assert_eq!((started.cursor, started.delay_remaining), (0, 0));
}

#[test]
fn a_trigger_without_variants_changes_nothing() {
    let mut voices = vec![voice(Trigger::Cone, false), voice(Trigger::ShiftDown, true)];
    let mut rng: u64 = 9;
    fire_trigger(&mut voices, &mut rng, Trigger::ShiftDown, 44100);
    assert_eq!(rng, 9);
    assert!(!voices[1].active);
}

#[test]
fn delayed_companion_plays_its_first_frame_after_the_delay() {
    let mut v = OneShotVoice { trigger: Trigger::ShiftUp, companion: true, cursor: 0, delay_remaining: 882, active: true };
    for _ in 0..882 {
        assert_eq!(step_one_shot(&mut v, 1000), OneShotFrame::Wait);
    }
    assert_eq!(v.cursor, 0);
    assert_eq!(step_one_shot(&mut v, 1000), OneShotFrame::Play { index: 0, release: false });
    assert_eq!(v.cursor, 1);
}

#[test]
fn one_shot_releases_near_the_end_and_stops() {
    let len = ONE_SHOT_ENV_SAMPLES + 2;
    let mut v = OneShotVoice { trigger: Trigger::Cone, companion: false, cursor: 0, delay_remaining: 0, active: true };
    assert_eq!(step_one_shot(&mut v, len), OneShotFrame::Play { index: 0, release: false });
    assert_eq!(step_one_shot(&mut v, len), OneShotFrame::Play { index: 1, release: false });
    assert_eq!(step_one_shot(&mut v, len), OneShotFrame::Play { index: 2, release: true });
    while v.active {
        step_one_shot(&mut v, len);
    }
    assert_eq!(v.cursor, len);
    assert_eq!(step_one_shot(&mut v, len), OneShotFrame::Skip);
    let mut empty = OneShotVoice { active: true, cursor: 0, ..v };
    assert_eq!(step_one_shot(&mut empty, 0), OneShotFrame::Skip);
    assert!(!empty.active);
}

#[test]
fn gear_changes_fire_shift_one_shots() {
    let mut last = 0;
    assert_eq!(gear_change(&mut last, 1), None);
    assert_eq!(last, 1);
    assert_eq!(gear_change(&mut last, 1), None);
    assert_eq!(gear_change(&mut last, 3), Some(Trigger::ShiftUp));
    assert_eq!(gear_change(&mut last, 2), Some(Trigger::ShiftDown));
    assert_eq!(gear_change(&mut last, 0), Some(Trigger::ShiftDown));
    assert_eq!(gear_change(&mut last, -1), None);
    assert_eq!(last, -1);
}
