use vehicle_audio_engine::bank::{
    bank_key, check_bank_asset, engine_band_order, entry_key, is_retired_key, wav_refusal_text, AssetLabels, BankError,
};
use vehicle_audio_engine::digest::sha256_hex;
use vehicle_audio_engine::wav::{write_mono_header, write_pcm16_samples, WavError};

fn labels() -> AssetLabels {
    AssetLabels {
        file_name: "a.wav".to_string(),
        display: "/bank/a.wav".to_string(),
        debug: "\"/bank/a.wav\"".to_string(),
    }
}

fn mono_file(samples: &[i16]) -> Vec<u8> {
    let mut bytes = Vec::new();
    write_mono_header(&mut bytes, samples.len() as u32);
    write_pcm16_samples(&mut bytes, samples);
    bytes
}

#[test]
fn bank_keys_drop_every_trailing_wav() {
    assert_eq!(bank_key("shift_up.wav"), "shift_up");
    assert_eq!(bank_key("odd.wav.wav"), "odd");
    assert_eq!(bank_key("surf_sand"), "surf_sand");
    assert_eq!(bank_key(".wav"), "");
    assert_eq!(bank_key("a.WAV"), "a.WAV");
}

#[test]
fn retired_keys_are_refused() {
    assert!(is_retired_key("engine_idle"));
    assert!(is_retired_key("exhaust-mic"));
    assert!(!is_retired_key("shift_up"));
    match entry_key("engine_mid.wav") {
        Err(BankError::InvalidManifest(m)) => assert_eq!(m, "retired key present in bank: engine_mid"),
        other => panic!("unexpected {other:?}"),
    }
    assert_eq!(entry_key("impact_cone.wav").unwrap(), "impact_cone");
}

#[test]
fn asset_checks_decode_then_compare_digest() {
    let bytes = mono_file(&[1, -2, 3]);
    assert_eq!(check_bank_asset("a.wav", "", &bytes, &labels()).unwrap(), vec![1, -2, 3]);
    let sha = sha256_hex(&bytes);
    assert_eq!(check_bank_asset("a.wav", &sha, &bytes, &labels()).unwrap(), vec![1, -2, 3]);
    match check_bank_asset("a.wav", &"0".repeat(64), &bytes, &labels()) {
        Err(BankError::ShaMismatch(f)) => assert_eq!(f, "a.wav"),
        other => panic!("unexpected {other:?}"),
    }
    match check_bank_asset("a.wav", "", &bytes[..20], &labels()) {
        Err(BankError::InvalidWav(name, why)) => {
            assert_eq!(name, "a.wav");
            assert_eq!(why, "not a RIFF/WAVE file");
        }
        other => panic!("unexpected {other:?}"),
    }
    let mut wrong = bytes.clone();
    wrong[22] = 2;
    match check_bank_asset("a.wav", "", &wrong, &labels()) {
        Err(BankError::Format(m)) => assert_eq!(m, "\"/bank/a.wav\": expected mono, got 2"),
        other => panic!("unexpected {other:?}"),
    }
}

#[test]
fn refusal_texts_match_the_error_display() {
    assert_eq!(wav_refusal_text(WavError::TruncatedFmt, &labels()), "invalid wav /bank/a.wav: truncated fmt");
    assert_eq!(
        wav_refusal_text(WavError::WrongSampleRate { sample_rate: 48000 }, &labels()),
        "format error: \"/bank/a.wav\": expected 44100 Hz, got 48000"
    );
    assert_eq!(
        wav_refusal_text(WavError::Not16Bit { bits: 24 }, &labels()),
        "format error: \"/bank/a.wav\": expected 16-bit, got 24"
    );
}

#[test]
fn engine_bands_are_all_or_nothing() {
    assert_eq!(engine_band_order(&vec![]), Some(vec![]));
    assert_eq!(engine_band_order(&vec![3, 0, 4, 1, 2]), Some(vec![1, 3, 4, 0, 2]));
    assert_eq!(engine_band_order(&vec![0, 1, 2, 3]), None);
    assert_eq!(engine_band_order(&vec![0, 1, 2, 3, 3]), None);
}
