use vehicle_audio_engine::wav::{
    parse_wav_mono16, pcm_from_le_bytes, write_mono_header, write_pcm16_samples, write_wav_header, WavError,
};

fn mono_file(samples: &[i16]) -> Vec<u8> {
    let mut bytes = Vec::new();
    write_mono_header(&mut bytes, samples.len() as u32);
    write_pcm16_samples(&mut bytes, samples);
    bytes
}

#[test]
fn mono_header_is_the_canonical_44_byte_header() {
    let mut header = Vec::new();
    write_mono_header(&mut header, 3);
    assert_eq!(header.len(), 44);
    assert_eq!(&header[0..4], b"RIFF");
    assert_eq!(u32::from_le_bytes([header[4], header[5], header[6], header[7]]), 36 + 6);
    assert_eq!(&header[8..16], b"WAVEfmt ");
    assert_eq!(u16::from_le_bytes([header[22], header[23]]), 1);
    assert_eq!(u32::from_le_bytes([header[24], header[25], header[26], header[27]]), 44100);
    assert_eq!(u32::from_le_bytes([header[28], header[29], header[30], header[31]]), 88200);
    assert_eq!(u16::from_le_bytes([header[32], header[33]]), 2);
    assert_eq!(u16::from_le_bytes([header[34], header[35]]), 16);
    assert_eq!(&header[36..40], b"data");
    assert_eq!(u32::from_le_bytes([header[40], header[41], header[42], header[43]]), 6);
}

#[test]
fn stereo_header_declares_two_channels() {
    let mut header = Vec::new();
    write_wav_header(&mut header, 10);
    assert_eq!(header.len(), 44);
    assert_eq!(u32::from_le_bytes([header[4], header[5], header[6], header[7]]), 36 + 40);
    assert_eq!(u16::from_le_bytes([header[22], header[23]]), 2);
    assert_eq!(u32::from_le_bytes([header[28], header[29], header[30], header[31]]), 176400);
    assert_eq!(u16::from_le_bytes([header[32], header[33]]), 4);
    assert_eq!(parse_wav_mono16(&header), Err(WavError::NotMono { channels: 2 }));
}

#[test]
fn written_mono_file_reads_back() {
    let samples = [0i16, 1, -1, 32767, -32768, 1234];
    let bytes = mono_file(&samples);
    assert_eq!(parse_wav_mono16(&bytes), Ok(samples.to_vec()));
}

#[test]
fn short_or_untagged_files_are_not_wave() {
    assert_eq!(parse_wav_mono16(&[0u8; 10]), Err(WavError::NotRiffWave));
    let mut bytes = mono_file(&[1, 2]);
    bytes[0] = b'X';
    assert_eq!(parse_wav_mono16(&bytes), Err(WavError::NotRiffWave));
    let mut bytes = mono_file(&[1, 2]);
    bytes[8] = b'x';
    assert_eq!(parse_wav_mono16(&bytes), Err(WavError::NotRiffWave));
}

#[test]
fn truncated_fmt_chunk_is_refused() {
    let mut bytes = Vec::new();
    bytes.extend_from_slice(b"RIFF");
    bytes.extend_from_slice(&100u32.to_le_bytes());
    bytes.extend_from_slice(b"WAVE");
    bytes.extend_from_slice(&[0u8; 16]);
    bytes.extend_from_slice(b"fmt ");
    bytes.extend_from_slice(&16u32.to_le_bytes());
    bytes.extend_from_slice(&[1, 0, 1, 0, 0x44, 0xac, 0, 0]);
    assert_eq!(bytes.len(), 44);
    assert_eq!(parse_wav_mono16(&bytes), Err(WavError::TruncatedFmt));
}

#[test]
fn wrong_bit_depth_and_rate_are_refused() {
    let mut bytes = mono_file(&[5, 6]);
    bytes[34] = 8;
    assert_eq!(parse_wav_mono16(&bytes), Err(WavError::Not16Bit { bits: 8 }));
    let mut bytes = mono_file(&[5, 6]);
    bytes[24..28].copy_from_slice(&48000u32.to_le_bytes());
    assert_eq!(parse_wav_mono16(&bytes), Err(WavError::WrongSampleRate { sample_rate: 48000 }));
}

#[test]
fn unknown_chunks_are_skipped_and_odd_data_is_truncated() {
    let mut bytes = Vec::new();
    bytes.extend_from_slice(b"RIFF");
    bytes.extend_from_slice(&0u32.to_le_bytes());
    bytes.extend_from_slice(b"WAVE");
    bytes.extend_from_slice(b"LIST");
    bytes.extend_from_slice(&3u32.to_le_bytes());
    bytes.extend_from_slice(&[9, 9, 9, 0]);
    bytes.extend_from_slice(b"fmt ");
    bytes.extend_from_slice(&16u32.to_le_bytes());
    bytes.extend_from_slice(&[1, 0, 1, 0]);
    bytes.extend_from_slice(&44100u32.to_le_bytes());
    bytes.extend_from_slice(&88200u32.to_le_bytes());
    bytes.extend_from_slice(&[2, 0, 16, 0]);
    bytes.extend_from_slice(b"data");
    bytes.extend_from_slice(&5u32.to_le_bytes());
    bytes.extend_from_slice(&[1, 0, 2, 0, 7]);
    assert_eq!(parse_wav_mono16(&bytes), Ok(vec![1, 2]));
}

#[test]
fn data_chunk_is_clipped_to_the_file() {
    let mut bytes = mono_file(&[3, 4]);
    bytes[40..44].copy_from_slice(&1000u32.to_le_bytes());
    assert_eq!(parse_wav_mono16(&bytes), Ok(vec![3, 4]));
}

#[test]
fn little_endian_pairs_become_samples() {
    assert_eq!(pcm_from_le_bytes(&vec![0x34, 0x12, 0xff, 0xff, 0x01]), vec![0x1234, -1]);
}
