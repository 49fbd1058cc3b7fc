use lecture::wav::{encode_wav, WavError};

#[test]
fn wav_header_is_written() {
    let pcm = [0u8; 4];
    let bytes = encode_wav(&pcm, 16_000, 1).unwrap();
    assert_eq!(&bytes[..4], b"RIFF");
    assert_eq!(&bytes[8..12], b"WAVE");
}

#[test]
fn wav_header_fields() {
    let pcm = [1u8, 2, 3, 4, 5, 6];
    let bytes = encode_wav(&pcm, 16_000, 1).unwrap();
    assert_eq!(bytes.len(), 44 + 6);
    assert_eq!(&bytes[4..8], &(36u32 + 6).to_le_bytes());
    assert_eq!(&bytes[12..16], b"fmt ");
    assert_eq!(&bytes[16..20], &16u32.to_le_bytes());
    assert_eq!(&bytes[20..22], &1u16.to_le_bytes());
    assert_eq!(&bytes[22..24], &1u16.to_le_bytes());
    assert_eq!(&bytes[24..28], &16_000u32.to_le_bytes());
    assert_eq!(&bytes[28..32], &32_000u32.to_le_bytes());
    assert_eq!(&bytes[32..34], &2u16.to_le_bytes());
    assert_eq!(&bytes[34..36], &16u16.to_le_bytes());
    assert_eq!(&bytes[36..40], b"data");
    assert_eq!(&bytes[40..44], &6u32.to_le_bytes());
    assert_eq!(&bytes[44..], &pcm);
}

#[test]
fn wav_refuses_odd_length() {
    assert!(matches!(encode_wav(&[0u8; 3], 16_000, 1), Err(WavError::UnalignedPcm)));
}

#[test]
fn odd_length_is_refused_before_any_size_check() {
    assert!(matches!(encode_wav(&[0u8; 3], u32::MAX, u16::MAX), Err(WavError::UnalignedPcm)));
}
