use vehicle_audio_engine::bank::AssetLabels;
use vehicle_audio_engine::digest::sha256_hex;
use vehicle_audio_engine::grand_prix_bank::{
    GrandPrixBankError, GrandPrixEventRole, GrandPrixSelection, GrandPrixTriggerEvent,
};
use vehicle_audio_engine::grand_prix_manifest::{
    check_decoded_frames, check_grand_prix_asset, EventFacts, GroupFacts, LoopFacts, ManifestFacts,
    TransitionFacts, VariantFacts,
};
use vehicle_audio_engine::wav::{write_mono_header, write_pcm16_samples};

fn sha(c: char) -> String {
    std::iter::repeat(c).take(64).collect()
}

fn a_loop(id: &str) -> LoopFacts {
    LoopFacts {
        id: id.to_string(),
        role: "engine_loop".to_string(),
        source_sha256: sha('a'),
        derived_sha256: sha('b'),
        derived_frames: 1000,
        loop_start_frame: 100,
        loop_end_frame_exclusive: 900,
        loop_crossfade_frames: 200,
        reference_positive: true,
        reference_ascending: true,
        gain_valid: true,
        playback_rates_valid: true,
        coverage_agrees: Some(true),
        coverage_within_rates: true,
        reaches_minimum: true,
        reaches_maximum: true,
    }
}

fn manifest() -> ManifestFacts {
    ManifestFacts {
        schema_version: 1,
        bank_id: "gp".to_string(),
        preparation_tool: "prep".to_string(),
        preparation_tool_revision: 3,
        source_inventory_sha256: sha('c'),
        output_sample_rate: 44100,
        coverage_valid: true,
        loops: vec![a_loop("low"), a_loop("high")],
        transitions: vec![TransitionFacts {
            from_loop_id: "low".to_string(),
            to_loop_id: "high".to_string(),
            blend_law: "smoothstep".to_string(),
            gain_law: "equal_power".to_string(),
            window_valid: true,
            follows_previous: true,
        }],
        transitions_within_coverage: true,
        events: vec![EventFacts {
            id: "up1".to_string(),
            role: "gearbox_upshift".to_string(),
            source_sha256: sha('d'),
            derived_sha256: sha('e'),
            derived_frames: 10,
            duration_positive: true,
        }],
        groups: vec![GroupFacts {
            id: "upshifts".to_string(),
            role: "gearbox_upshift".to_string(),
            selection: "seeded_cycle".to_string(),
            trigger_event: "upshift_cut_entry".to_string(),
            voice_limit: 2,
            timing_valid: true,
            variants: vec![VariantFacts { asset_id: "up1".to_string(), gain_valid: true, pitch_reference_valid: true }],
        }],
        lift_edge_valid: true,
        limiter_edge_valid: true,
    }
}

fn manifest_error(m: &ManifestFacts) -> String {
    match m.validate() {
        Err(GrandPrixBankError::InvalidManifest(s)) => s,
        other => panic!("unexpected {other:?}"),
    }
}

fn asset_error(m: &ManifestFacts) -> (String, String) {
    match m.validate() {
        Err(GrandPrixBankError::InvalidAsset(a, b)) => (a, b),
        other => panic!("unexpected {other:?}"),
    }
}

#[test]
fn names_map_to_roles_policies_and_triggers() {
    assert_eq!(GrandPrixEventRole::from_role_name("lift_backfire").unwrap(), GrandPrixEventRole::LiftBackfire);
    assert_eq!(
        GrandPrixSelection::from_selection_name("seeded_no_immediate_repeat").unwrap(),
        GrandPrixSelection::SeededNoImmediateRepeat
    );
    assert_eq!(
        GrandPrixTriggerEvent::from_trigger_name("limiter_entry_edge").unwrap(),
        GrandPrixTriggerEvent::LimiterEntryEdge
    );
    match GrandPrixEventRole::from_role_name("horn") {
        Err(GrandPrixBankError::InvalidAsset(a, b)) => {
            assert_eq!(a, "horn");
            assert_eq!(b, "unknown event role");
        }
        other => panic!("unexpected {other:?}"),
    }
    assert!(GrandPrixSelection::from_selection_name("random").is_err());
    assert!(GrandPrixTriggerEvent::from_trigger_name("").is_err());
}

#[test]
fn a_consistent_manifest_is_accepted() {
    let m = manifest();
    assert!(!m.reaches_missing_transition());
    assert!(m.validate().is_ok());
}

#[test]
fn header_rules_come_first() {
    let mut m = manifest();
    m.schema_version = 2;
    m.bank_id.clear();
    assert_eq!(manifest_error(&m), "unsupported schema_version 2");
    let mut m = manifest();
    m.preparation_tool_revision = 0;
    assert_eq!(manifest_error(&m), "preparation provenance missing");
    let mut m = manifest();
    m.output_sample_rate = 48000;
    assert_eq!(manifest_error(&m), "output_sample_rate must be 44100");
    let mut m = manifest();
    m.loops.truncate(1);
    assert_eq!(manifest_error(&m), "loop count 1 outside [2, 16]");
    let mut m = manifest();
    m.coverage_valid = false;
    assert_eq!(manifest_error(&m), "coverage range invalid");
}

#[test]
fn loop_rules_name_the_loop() {
    let mut m = manifest();
    m.loops[1].id = "low".to_string();
    m.transitions[0].to_loop_id = "low".to_string();
    assert_eq!(asset_error(&m), ("low".to_string(), "duplicate loop id".to_string()));
    let mut m = manifest();
    m.loops[0].loop_crossfade_frames = 201;
    assert_eq!(asset_error(&m), ("low".to_string(), "loop crossfade invalid".to_string()));
    let mut m = manifest();
    m.loops[0].loop_end_frame_exclusive = 1001;
    assert_eq!(asset_error(&m), ("low".to_string(), "loop bounds invalid".to_string()));
    let mut m = manifest();
    m.loops[1].playback_rates_valid = false;
    assert_eq!(asset_error(&m), ("high".to_string(), "playback rate bounds invalid".to_string()));
    let mut m = manifest();
    m.loops[1].reaches_maximum = false;
    assert_eq!(asset_error(&m), ("high".to_string(), "last loop does not reach maximum coverage".to_string()));
    let mut m = manifest();
    m.loops[1].reaches_minimum = false;
    assert!(m.validate().is_ok());
}

#[test]
fn a_missing_transition_is_detected_before_validation() {
    let mut m = manifest();
    m.transitions.clear();
    m.loops[0].coverage_agrees = None;
    assert!(m.reaches_missing_transition());
    m.loops[0].role = "coast".to_string();
    assert!(!m.reaches_missing_transition());
    assert_eq!(asset_error(&m), ("low".to_string(), "loop role must be engine_loop".to_string()));
}

#[test]
fn transition_gaps_and_laws_are_checked() {
    let mut m = manifest();
    m.transitions[0].gain_law = "linear".to_string();
    assert_eq!(manifest_error(&m), "unsupported blend or gain law");
    let mut m = manifest();
    m.transitions[0].from_loop_id = "high".to_string();
    assert_eq!(manifest_error(&m), "transition endpoints do not match loop order");
    let mut m = manifest();
    m.transitions_within_coverage = false;
    assert_eq!(manifest_error(&m), "transitions exceed declared coverage");
}

#[test]
fn events_and_groups_are_cross_checked() {
    let mut m = manifest();
    m.events[0].role = "horn".to_string();
    assert_eq!(asset_error(&m), ("horn".to_string(), "unknown event role".to_string()));
    let mut m = manifest();
    m.groups[0].variants[0].asset_id = "missing".to_string();
    assert_eq!(asset_error(&m), ("upshifts".to_string(), "unknown variant asset missing".to_string()));
    let mut m = manifest();
    m.groups[0].role = "gearbox_downshift".to_string();
    assert_eq!(asset_error(&m), ("upshifts".to_string(), "variant up1 role mismatch".to_string()));
    let mut m = manifest();
    m.groups[0].voice_limit = 9;
    assert_eq!(asset_error(&m), ("upshifts".to_string(), "voice_limit must be within 1..=8".to_string()));
    let mut m = manifest();
    m.groups[0].variants.clear();
    assert_eq!(asset_error(&m), ("upshifts".to_string(), "group has no variants".to_string()));
    let mut m = manifest();
    m.lift_edge_valid = false;
    assert_eq!(manifest_error(&m), "lift edge policy invalid");
}

#[test]
fn assets_are_digest_checked_before_decoding() {
    let mut bytes = Vec::new();
    write_mono_header(&mut bytes, 2);
    write_pcm16_samples(&mut bytes, &[7, 8]);
    let labels = AssetLabels {
        file_name: "loop.wav".to_string(),
        display: "bank/loop.wav".to_string(),
        debug: "\"bank/loop.wav\"".to_string(),
    };
    let sha = sha256_hex(&bytes);
    assert_eq!(check_grand_prix_asset("loop.wav", &sha, &bytes, &labels).unwrap(), vec![7, 8]);
    match check_grand_prix_asset("loop.wav", &"f".repeat(64), &bytes, &labels) {
        Err(GrandPrixBankError::Sha256Mismatch(f)) => assert_eq!(f, "loop.wav"),
        other => panic!("unexpected {other:?}"),
    }
    let short = &bytes[..30];
    match check_grand_prix_asset("loop.wav", &sha256_hex(short), short, &labels) {
        Err(GrandPrixBankError::Decode(f, t)) => {
            assert_eq!(f, "loop.wav");
            assert_eq!(t, "invalid wav loop.wav: not a RIFF/WAVE file");
        }
        other => panic!("unexpected {other:?}"),
    }
    assert!(check_decoded_frames("low", 2, 2).is_ok());
    match check_decoded_frames("low", 2, 3) {
        Err(GrandPrixBankError::InvalidAsset(a, b)) => {
            assert_eq!(a, "low");
            assert_eq!(b, "decoded 2 frames but manifest declares 3");
        }
        other => panic!("unexpected {other:?}"),
    }
}
