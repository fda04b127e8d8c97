use vehicle_audio_engine::dsp_runtime::{
    check_abi, check_build_source, check_created, expected_build_source, plan_block, process_outcome,
    DspRuntimeError,
};
use vehicle_audio_engine::ffi::{telemetry_header_accepted, VEHICLE_AUDIO_ABI_VERSION};

#[test]
fn module_gates() {
    assert!(check_abi(2).is_ok());
    assert!(matches!(check_abi(3), Err(DspRuntimeError::AbiMismatch { got: 3, expected: 2 })));
    assert!(check_build_source(0).is_ok());
    assert!(matches!(check_build_source(1), Err(DspRuntimeError::BuildMismatch)));
    assert!(check_created(0, false).is_ok());
    assert!(matches!(check_created(0, true), Err(DspRuntimeError::CreateFailed(0))));
    assert!(matches!(check_created(-4, false), Err(DspRuntimeError::CreateFailed(-4))));
}

#[test]
fn blocks_are_sized_before_processing() {
    assert_eq!(plan_block(4096, 7).unwrap(), (4096, 7));
    assert_eq!(plan_block(256, 900).unwrap(), (256, 512));
    assert!(matches!(plan_block(4097, 0), Err(DspRuntimeError::BlockTooLarge(4097))));
    assert_eq!(process_outcome(0, 128).unwrap(), 128);
    assert!(matches!(process_outcome(5, 128), Err(DspRuntimeError::ProcessFailed(5))));
}

#[test]
fn build_source_is_trimmed_and_cut_to_forty_bytes() {
    let sha = "0123456789abcdef0123456789abcdef01234567";
    assert_eq!(expected_build_source(&format!("  {sha}ffff\n")), sha);
    assert_eq!(expected_build_source("\tshort\r\n"), "short");
    assert_eq!(expected_build_source(""), "");
    let wide = format!("{}é", "a".repeat(38));
    assert_eq!(expected_build_source(&format!("{wide}zz")), wide);
}

#[test]
fn telemetry_headers_must_match_version_and_size() {
    assert!(telemetry_header_accepted(VEHICLE_AUDIO_ABI_VERSION, 96, 96));
    assert!(!telemetry_header_accepted(999, 96, 96));
    assert!(!telemetry_header_accepted(VEHICLE_AUDIO_ABI_VERSION, 48, 96));
}
