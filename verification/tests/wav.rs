use harmonicon::audio_system::wav::encode_pcm16_wav;

#[test]
fn header_and_data_length_match_sample_count() {
    let samples = vec![0i16; 100];
    let wav = encode_pcm16_wav(&samples, 44_100);
    assert_eq!(wav.len(), 44 + 100 * 2);
    assert_eq!(&wav[0..4], b"RIFF");
    assert_eq!(&wav[8..12], b"WAVE");
    assert_eq!(u32::from_le_bytes([wav[4], wav[5], wav[6], wav[7]]), 36 + 200);
    assert_eq!(&wav[12..16], b"fmt ");
    assert_eq!(u32::from_le_bytes([wav[24], wav[25], wav[26], wav[27]]), 44_100);
    assert_eq!(u32::from_le_bytes([wav[28], wav[29], wav[30], wav[31]]), 88_200);
    assert_eq!(&wav[36..40], b"data");
    assert_eq!(u32::from_le_bytes([wav[40], wav[41], wav[42], wav[43]]), 200);
}

#[test]
fn samples_are_written_little_endian() {
    let wav = encode_pcm16_wav(&[i16::MAX, -i16::MAX, -1, 0x0102], 8_000);
    let s = |k: usize| i16::from_le_bytes([wav[44 + 2 * k], wav[45 + 2 * k]]);
    assert_eq!((s(0), s(1), s(2), s(3)), (i16::MAX, -i16::MAX, -1, 0x0102));
    assert_eq!(&wav[50..52], &[0x02, 0x01]);
}
