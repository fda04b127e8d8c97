use vehicle_audio_engine::bank::{
    check_bank_layout, check_playback, manifest_entry_key, read_bank_manifest, BandFacts, BankError, PlaybackFacts,
    RETIRED_KEYS,
};
use vehicle_audio_engine::config_keys::config_structure;

fn invalid_manifest(r: Result<impl std::fmt::Debug, BankError>) -> String {
    match r {
        Err(BankError::InvalidManifest(m)) => m,
        other => panic!("expected an invalid manifest, got {other:?}"),
    }
}

fn invalid_playback(r: Result<impl std::fmt::Debug, BankError>) -> String {
    match r {
        Err(BankError::InvalidPlayback(m)) => m,
        other => panic!("expected invalid playback metadata, got {other:?}"),
    }
}

#[test]
fn manifest_defaults_fill_missing_fields() {
    let m = read_bank_manifest(r#"{"files": [{"file": "shift_up.wav"}]}"#).unwrap();
    assert_eq!(m.bank_name, "unknown");
    let builtin: Vec<String> = RETIRED_KEYS.iter().map(|s| s.to_string()).collect();
    assert_eq!(m.retired_names, builtin);
    assert_eq!(m.entries.len(), 1);
    let e = &m.entries[0];
    assert_eq!(e.file.as_deref(), Some("shift_up.wav"));
    assert_eq!(e.role, None);
    assert!(!e.is_loop);
    assert_eq!(e.sha256, "");
    assert!(e.playback.is_none());
    let (key, role) = manifest_entry_key(e).unwrap();
    assert_eq!(key, "shift_up");
    assert_eq!(role, "shift_up.wav");
}

#[test]
fn manifest_reads_declared_fields() {
    let text = r#"{
        "bank_name": "v10_vehicle",
        "retired_keys": ["old_a", 3, "old_b"],
        "files": [
            {"file": "kerb.wav", "role": "surface", "loop": true, "sha256": "ab12",
             "playback": {"native_rpm": 4500.5, "engine_band": {"index": 2, "center": 0.5, "width": 0.25}}},
            {"file": 7, "loop": "yes", "playback": []}
        ]
    }"#;
    let m = read_bank_manifest(text).unwrap();
    assert_eq!(m.bank_name, "v10_vehicle");
    assert_eq!(m.retired_names, vec!["old_a".to_string(), "old_b".to_string()]);
    let e = &m.entries[0];
    assert_eq!(e.role.as_deref(), Some("surface"));
    assert!(e.is_loop);
    assert_eq!(e.sha256, "ab12");
    let p = e.playback.as_ref().unwrap();
    assert_eq!(p.native_rpm.as_deref(), Some("4500.5"));
    let b = p.band.as_ref().unwrap();
    assert_eq!(b.index, Some(2));
    assert_eq!(b.center.as_deref(), Some("0.5"));
    assert_eq!(b.width.as_deref(), Some("0.25"));
    let (key, role) = manifest_entry_key(e).unwrap();
    assert_eq!((key.as_str(), role.as_str()), ("kerb", "surface"));
    let second = &m.entries[1];
    assert_eq!(second.file, None);
    assert!(!second.is_loop);
    assert!(second.playback.is_none());
    assert_eq!(invalid_manifest(manifest_entry_key(second)), "file field missing");
}

#[test]
fn empty_retired_list_falls_back_to_builtin() {
    let m = read_bank_manifest(r#"{"retired_keys": [1, null], "files": []}"#).unwrap();
    assert_eq!(m.retired_names.len(), 8);
    assert_eq!(m.retired_names[0], "engine_high");
    assert!(m.entries.is_empty());
}

#[test]
fn manifest_without_files_or_json_is_refused() {
    assert_eq!(invalid_manifest(read_bank_manifest(r#"{"bank_name": "x"}"#)), "files missing");
    assert_eq!(invalid_manifest(read_bank_manifest(r#"{"files": {}}"#)), "files missing");
    assert_eq!(invalid_manifest(read_bank_manifest("[]")), "files missing");
    let reason = invalid_manifest(read_bank_manifest("{not json"));
    assert!(!reason.is_empty());
    assert!(reason.contains("line 1"));
}

#[test]
fn retired_entry_is_refused() {
    let m = read_bank_manifest(r#"{"files": [{"file": "engine_idle.wav"}]}"#).unwrap();
    assert_eq!(invalid_manifest(manifest_entry_key(&m.entries[0])), "retired key present in bank: engine_idle");
}

#[test]
fn playback_checks_come_in_reading_order() {
    let band = |index, center: Option<&str>, width: Option<&str>| BandFacts {
        index,
        center: center.map(String::from),
        width: width.map(String::from),
    };
    let pb = |native: Option<&str>, b: Option<BandFacts>| PlaybackFacts { native_rpm: native.map(String::from), band: b };
    assert_eq!(invalid_playback(check_playback("a.wav", &pb(None, None), true, true)), "a.wav: native_rpm missing");
    assert_eq!(
        invalid_playback(check_playback("a.wav", &pb(Some("0"), None), false, true)),
        "a.wav: native_rpm must be positive"
    );
    assert!(check_playback("a.wav", &pb(Some("10"), None), true, false).is_ok());
    assert_eq!(
        invalid_playback(check_playback("a.wav", &pb(Some("10"), Some(band(None, Some("0.5"), None))), true, true)),
        "a.wav: band index missing"
    );
    assert_eq!(
        invalid_playback(check_playback("a.wav", &pb(Some("10"), Some(band(Some(1), None, None))), true, true)),
        "a.wav: band center missing"
    );
    assert_eq!(
        invalid_playback(check_playback("a.wav", &pb(Some("10"), Some(band(Some(1), Some("0.5"), None))), true, true)),
        "a.wav: band width missing"
    );
    let full = |i| Some(band(Some(i), Some("0.5"), Some("0.2")));
    assert_eq!(
        invalid_playback(check_playback("a.wav", &pb(Some("10"), full(5)), true, true)),
        "a.wav: invalid engine band index/center/width"
    );
    assert_eq!(
        invalid_playback(check_playback("a.wav", &pb(Some("10"), full(4)), true, false)),
        "a.wav: invalid engine band index/center/width"
    );
    assert!(check_playback("a.wav", &pb(Some("10"), full(4)), true, true).is_ok());
}

#[test]
fn bank_layout_orders_bands_and_needs_exhaust_rpm() {
    assert_eq!(check_bank_layout(&vec![], false, false).unwrap(), Vec::<usize>::new());
    assert_eq!(check_bank_layout(&vec![3, 0, 4, 1, 2], false, false).unwrap(), vec![1, 3, 4, 0, 2]);
    assert_eq!(
        invalid_playback(check_bank_layout(&vec![0, 1, 2, 3, 3], false, false)),
        "expected 5 unique ordered engine bands"
    );
    assert_eq!(invalid_playback(check_bank_layout(&vec![0], true, false)), "expected 5 unique ordered engine bands");
    assert_eq!(invalid_playback(check_bank_layout(&vec![], true, false)), "exhaust-mic: native_rpm missing");
    assert!(check_bank_layout(&vec![], true, true).is_ok());
}

#[test]
fn config_structure_reads_the_text() {
    let (warnings, version) =
        config_structure(r#"{"schema_version": 2, "bogus": 1, "sounds": {"kerb": {"volume": 1, "pitch": 2}}}"#)
            .unwrap();
    assert_eq!(version, 2);
    let paths: Vec<&str> = warnings.iter().map(|d| d.path.as_str()).collect();
    assert_eq!(paths, vec!["$.bogus", "$.sounds.kerb.pitch"]);
    let (warnings, version) = config_structure(r#"{"gains": {}}"#).unwrap();
    assert!(warnings.is_empty());
    assert_eq!(version, 1);
    let error = config_structure("{").unwrap_err();
    assert_eq!(error.path, "$");
    assert!(error.message.starts_with("invalid JSON: "));
}
