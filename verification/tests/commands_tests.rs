use vehicle_audio_engine::commands::{AudioBackend, CommandLedger, FamilyMutes, VoiceSet, SHOT_JOURNAL_TICKS};

fn ids(list: &[&str]) -> Vec<String> {
    list.iter().map(|s| s.to_string()).collect()
}

#[test]
fn backend_defaults_to_disabled_and_mutes_to_off() {
    assert_eq!(AudioBackend::default(), AudioBackend::Disabled);
    let m = FamilyMutes::default();
    assert!(!m.engine_int && !m.engine_ext && !m.transmission && !m.wind);
    assert!(!m.wheel && !m.surfaces && !m.collisions && !m.ambience);
}

#[test]
fn voice_set_is_sorted_and_unique() {
    let set = VoiceSet::from_ids(&ids(&["v10.wind", "common.kerb", "v10.wind", "common.ambience"]));
    assert_eq!(set.to_vec(), ids(&["common.ambience", "common.kerb", "v10.wind"]));
    assert!(set.contains("common.kerb"));
    assert!(!set.contains("common.grass"));
    let other = VoiceSet::from_ids(&ids(&["common.kerb"]));
    assert_eq!(set.minus(&other), ids(&["common.ambience", "v10.wind"]));
}

#[test]
fn dropped_voices_are_stopped_once() {
    let mut ledger: CommandLedger<u64> = CommandLedger::new();
    let stops = ledger.commit(1, &ids(&["common.kerb", "v10.engine.idle"]), vec![], 4);
    assert!(stops.is_empty());
    let stops = ledger.commit(2, &ids(&["v10.engine.idle"]), vec![], 4);
    assert_eq!(stops, ids(&["common.kerb"]));
    let stops = ledger.commit(3, &ids(&["v10.engine.idle"]), vec![], 4);
    assert!(stops.is_empty());
    assert_eq!(ledger.active_voices(), ids(&["v10.engine.idle"]));
}

#[test]
fn journal_keeps_shots_for_the_window() {
    let mut ledger: CommandLedger<&str> = CommandLedger::new();
    ledger.commit(2, &vec![], vec!["shift"], 4);
    assert_eq!(ledger.sequence(), 1);
    ledger.commit(4, &vec![], vec![], 4);
    assert_eq!(ledger.journal(), &vec![(2u64, (1u64, "shift"))]);
    ledger.commit(2 + SHOT_JOURNAL_TICKS, &vec![], vec![], 4);
    assert_eq!(ledger.journal().len(), 1);
    ledger.commit(3 + SHOT_JOURNAL_TICKS, &vec![], vec![], 4);
    assert!(ledger.journal().is_empty());
}

#[test]
fn shot_ids_keep_climbing_across_a_backend_switch() {
    let mut ledger: CommandLedger<&str> = CommandLedger::new();
    ledger.commit(1, &ids(&["a"]), vec![], 3);
    assert_eq!(ledger.gear_shift(4, false), Some(true));
    ledger.commit(2, &ids(&["a"]), vec!["up"], 4);
    let first = ledger.journal()[0].1 .0;
    let stops = ledger.release();
    assert_eq!(stops, ids(&["a"]));
    assert!(ledger.journal().is_empty());
    assert!(ledger.active_voices().is_empty());
    assert_eq!(ledger.gear_shift(5, false), Some(true));
    ledger.commit(3, &vec![], vec!["up"], 5);
    let second = ledger.journal()[0].1 .0;
    assert!(second > first);
    assert_eq!(ledger.sequence(), second);
}

#[test]
fn gear_shift_needs_a_previous_gear_and_an_unmuted_engine() {
    let mut ledger: CommandLedger<u64> = CommandLedger::new();
    assert_eq!(ledger.gear_shift(3, false), None);
    ledger.commit(1, &vec![], vec![], 3);
    assert_eq!(ledger.previous_gear(), 3);
    assert_eq!(ledger.gear_shift(3, false), None);
    assert_eq!(ledger.gear_shift(2, false), Some(false));
    assert_eq!(ledger.gear_shift(4, true), None);
}

#[test]
fn stops_come_in_ascending_order() {
    let mut ledger: CommandLedger<u64> = CommandLedger::new();
    ledger.commit(1, &ids(&["v10.wind", "common.kerb", "common.ambience", "v10.engine.idle"]), vec![], 2);
    assert_eq!(
        ledger.active_voices(),
        ids(&["common.ambience", "common.kerb", "v10.engine.idle", "v10.wind"])
    );
    let stops = ledger.commit(2, &ids(&["common.kerb"]), vec![], 2);
    assert_eq!(stops, ids(&["common.ambience", "v10.engine.idle", "v10.wind"]));
    ledger.commit(3, &ids(&["z.last", "common.kerb", "a.first"]), vec![], 2);
    assert_eq!(ledger.release(), ids(&["a.first", "common.kerb", "z.last"]));
}

#[test]
fn shot_ids_are_distinct_over_many_frames() {
    let mut ledger: CommandLedger<u64> = CommandLedger::new();
    let mut seen: Vec<u64> = Vec::new();
    for tick in 0..10u64 {
        if tick % 3 == 2 {
            ledger.release();
            continue;
        }
        let before = ledger.sequence();
        ledger.commit(tick, &ids(&["a"]), vec![tick, tick + 100], 4);
        let journal_ids: Vec<u64> = ledger.journal().iter().map(|(_, (id, _))| *id).collect();
        assert!(journal_ids.windows(2).all(|w| w[0] < w[1]));
        let fresh: Vec<u64> = journal_ids.iter().copied().filter(|&id| id > before).collect();
        assert_eq!(fresh, vec![before + 1, before + 2]);
        assert!(fresh.iter().all(|id| !seen.contains(id)));
        seen.extend(fresh);
    }
    assert_eq!(seen, (1..=14).collect::<Vec<u64>>());
}
