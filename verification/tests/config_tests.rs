use vehicle_audio_engine::config::{
    default_poll_interval, default_transition_ms, default_true, eq_band_key_valid, AdsrCurve, ConfigDiagnostic,
    ConfigSnapshotStore, HotReloadConfig, MIXER_CONFIG_FILENAME,
};
use vehicle_audio_engine::config_keys::{
    collect_unknown_keys, config_source_hash, invalid_json_diag, missing_bus_diag, schema_version_of,
    sound_resolution_order, JsonValue,
};

fn obj(members: Vec<(&str, JsonValue)>) -> JsonValue {
    JsonValue::Object(members.into_iter().map(|(k, v)| (k.to_string(), v)).collect())
}

fn paths(d: &[ConfigDiagnostic]) -> Vec<String> {
    d.iter().map(|x| x.path.clone()).collect()
}

#[test]
fn hot_reload_defaults_and_clamps() {
    assert!(default_true());
    assert_eq!(default_poll_interval(), 250);
    assert_eq!(default_transition_ms(), 30);
    let d = HotReloadConfig::default();
    assert_eq!(d, HotReloadConfig { enabled: false, poll_interval_ms: 250, transition_ms: 30 });
    let c = HotReloadConfig { enabled: true, poll_interval_ms: 1, transition_ms: 9000 }.sanitized();
    assert_eq!(c, HotReloadConfig { enabled: true, poll_interval_ms: 50, transition_ms: 500 });
    let c = HotReloadConfig { enabled: false, poll_interval_ms: 60000, transition_ms: 20 }.sanitized();
    assert_eq!(c.poll_interval_ms, 5000);
    assert_eq!(c.transition_ms, 20);
    assert_eq!(AdsrCurve::default(), AdsrCurve::Linear);
    assert_eq!(MIXER_CONFIG_FILENAME, "sound_mixer_config.json");
}

#[test]
fn eq_band_keys_are_the_iso_frequencies() {
    for key in ["31", "62", "125", "250", "500", "1000", "2000", "4000", "8000", "16000"] {
        assert!(eq_band_key_valid(key), "{key}");
    }
    assert!(!eq_band_key_valid("63"));
    assert!(!eq_band_key_valid("031"));
    assert!(!eq_band_key_valid(""));
}

#[test]
fn invalid_candidate_never_replaces_the_snapshot() {
    let mut store: ConfigSnapshotStore<u32> = ConfigSnapshotStore::new();
    assert!(store.current().is_none());
    assert!(!store.offer(1, false, "h0"));
    assert!(store.current().is_none());
    assert!(store.offer(2, true, "h1"));
    assert_eq!(store.current(), Some(&2));
    assert_eq!(store.generation(), 1);
    assert!(!store.offer(3, false, "h2"));
    assert_eq!(store.current(), Some(&2));
    assert!(!store.offer(4, true, "h1"), "same source keeps the snapshot");
    assert_eq!(store.current(), Some(&2));
    assert_eq!(store.generation(), 1);
    assert!(store.offer(5, true, "h3"));
    assert_eq!(store.current(), Some(&5));
    assert_eq!(store.generation(), 2);
}

#[test]
fn unknown_keys_report_json_paths() {
    let doc = obj(vec![
        ("schema_version", JsonValue::Number(Some(2), "2".to_string())),
        ("bogus", JsonValue::Null),
        (
            "sounds",
            obj(vec![(
                "shift_up",
                obj(vec![
                    ("volume", JsonValue::Null),
                    ("wobble", JsonValue::Null),
                    ("eq", obj(vec![("tube_color", obj(vec![("heat", JsonValue::Bool(true))]))])),
                ]),
            )]),
        ),
        ("master", obj(vec![("gain", JsonValue::Null)])),
    ]);
    let mut warnings = Vec::new();
    collect_unknown_keys(&doc, &mut warnings);
    assert_eq!(
        paths(&warnings),
        vec![
            "$.bogus".to_string(),
            "$.sounds.shift_up.wobble".to_string(),
            "$.sounds.shift_up.eq.tube_color.heat".to_string(),
            "$.master.gain".to_string(),
        ]
    );
    assert!(warnings.iter().all(|w| w.message == "unknown key ignored"));
}

#[test]
fn schema_one_documents_only_check_the_top_level() {
    let doc = obj(vec![
        ("gains", obj(vec![("x", JsonValue::Null)])),
        ("master", obj(vec![("gain", JsonValue::Null)])),
        ("extra", JsonValue::Text("y".to_string())),
    ]);
    let mut warnings = Vec::new();
    collect_unknown_keys(&doc, &mut warnings);
    assert_eq!(paths(&warnings), vec!["$.extra".to_string()]);
    assert_eq!(schema_version_of(&doc), 1);
    assert_eq!(schema_version_of(&obj(vec![("schema_version", JsonValue::Number(Some(2), "2".to_string()))])), 2);
    assert_eq!(schema_version_of(&obj(vec![("schema_version", JsonValue::Number(None, "-1".to_string()))])), 1);
    assert_eq!(schema_version_of(&obj(vec![("schema_version", JsonValue::Number(Some(1 << 32 | 7), "4294967303".to_string()))])), 7);
    assert_eq!(schema_version_of(&JsonValue::Array(vec![])), 1);
}

#[test]
fn sounds_resolve_bank_keys_first_then_configured_ones() {
    let bank = vec!["b".to_string(), "a".to_string()];
    let configured = vec!["a".to_string(), "c".to_string(), "c".to_string()];
    assert_eq!(
        sound_resolution_order(&bank, &configured),
        vec!["b".to_string(), "a".to_string(), "c".to_string()]
    );
}

#[test]
fn diagnostics_texts() {
    let d = missing_bus_diag("shift_up", "hall");
    assert_eq!(d.path, "$.sounds.shift_up.reverb.bus");
    assert_eq!(d.message, "bus 'hall' does not exist; send disabled");
    let d = invalid_json_diag("EOF while parsing");
    assert_eq!(d.path, "$");
    assert_eq!(d.message, "invalid JSON: EOF while parsing");
    assert_eq!(
        config_source_hash("abc"),
        "ba7816bf8f01cfea414140de5dae2223b00361a396177a9cb410ff61f20015ad"
    );
}
