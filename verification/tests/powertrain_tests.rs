use vehicle_audio_engine::config::ConfigDiagnostic;
use vehicle_audio_engine::powertrain::{
    profile_error_text, profile_section_present, validate_core_invariants, validate_firing_order, validate_firing_phase_count, Aspiration, CutShape, Cycle,
    SynthesisModel, Waveform,
};

#[test]
fn invalid_model_shape_reports_diagnostics() {
    let mut diags: Vec<ConfigDiagnostic> = Vec::new();
    validate_core_invariants(1, 12, 4, 2, &mut diags);
    let paths: Vec<&str> = diags.iter().map(|d| d.path.as_str()).collect();
    assert_eq!(
        paths,
        vec![
            "audio.powertrain_synthesis.total_cylinders",
            "audio.powertrain_synthesis.physically_simulated_cylinders",
        ]
    );
    let mut diags = Vec::new();
    validate_core_invariants(2, 10, 5, 2, &mut diags);
    assert_eq!(diags.len(), 1);
    assert_eq!(diags[0].message, "unsupported schema_version 2; contract version 1 is required");
}

#[test]
fn firing_order_must_fit_total_cylinders() {
    let mut diags = Vec::new();
    validate_firing_order(&vec![1, 2, 3, 4, 5, 6, 7, 8, 9, 10], 10, &mut diags);
    assert!(diags.is_empty());
    validate_firing_order(&vec![1, 2, 3, 4, 5, 6], 10, &mut diags);
    assert!(diags.iter().any(|d| d.path == "audio.powertrain_synthesis.firing_order"));
    let mut diags = Vec::new();
    validate_firing_order(&vec![1, 2, 3, 4, 5, 6, 7, 8, 9, 1], 10, &mut diags);
    assert!(diags.iter().any(|d| d.message.contains("duplicate cylinder")));
}

#[test]
fn firing_phases_len_must_match_cylinders() {
    let mut diags = Vec::new();
    validate_firing_phase_count(5, 5, &mut diags);
    assert!(diags.is_empty());
    validate_firing_phase_count(6, 5, &mut diags);
    assert_eq!(diags.len(), 1);
    assert_eq!(diags[0].path, "audio.powertrain_synthesis.firing_phases_deg");
    assert!(diags[0].message.ends_with("physically_simulated_cylinders is 5 but got 6"));
}

#[test]
fn enum_defaults() {
    assert_eq!(CutShape::default(), CutShape::Soft);
    assert_eq!(SynthesisModel::default(), SynthesisModel::HalfBlock5FourStroke);
    assert_eq!(Cycle::default(), Cycle::FourStroke);
    assert_eq!(Aspiration::default(), Aspiration::NaturallyAspirated);
    assert_ne!(Waveform::Saw, Waveform::Noise);
}

#[test]
fn profile_section_presence_follows_the_document() {
    assert_eq!(profile_section_present(r#"{"audio": {"powertrain_synthesis": {"model": "x"}}}"#), Ok(true));
    assert_eq!(profile_section_present(r#"{"audio": {"powertrain_synthesis": 3}}"#), Ok(true));
    assert_eq!(profile_section_present(r#"{"audio": {"powertrain_synthesis": null}}"#), Ok(false));
    assert_eq!(profile_section_present(r#"{"audio": {}}"#), Ok(false));
    assert_eq!(profile_section_present(r#"{"physics": {}}"#), Ok(false));
    assert_eq!(profile_section_present(r#"{"audio": 5}"#), Ok(false));
    let err = profile_section_present("{partial").unwrap_err();
    assert!(err.starts_with("invalid JSON: "));
    assert!(err.len() > "invalid JSON: ".len());
}

#[test]
fn profile_errors_are_joined_lines() {
    let d = |p: &str, m: &str| ConfigDiagnostic { path: p.to_string(), message: m.to_string() };
    assert_eq!(profile_error_text(&vec![]), None);
    assert_eq!(profile_error_text(&vec![d("a.b", "bad")]), Some("a.b: bad".to_string()));
    assert_eq!(
        profile_error_text(&vec![d("a", "x"), d("b", "y"), d("c", "z")]),
        Some("a: x\nb: y\nc: z".to_string())
    );
}
