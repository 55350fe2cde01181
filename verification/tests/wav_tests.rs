use audio_io::error::AudioError;
use audio_io::wav::{mono_downmix, read_wav_mono};

fn wav_header(channels: u16, sample_rate: u32, bits: u16, data_len: u32) -> Vec<u8> {
    let block_align = channels * (bits / 8);
    let byte_rate = sample_rate * u32::from(block_align);
    let mut v = Vec::new();
    v.extend_from_slice(b"RIFF");
    v.extend_from_slice(&(36 + data_len).to_le_bytes());
    v.extend_from_slice(b"WAVE");
    v.extend_from_slice(b"fmt ");
    v.extend_from_slice(&16u32.to_le_bytes());
    v.extend_from_slice(&1u16.to_le_bytes()); // integer PCM
    v.extend_from_slice(&channels.to_le_bytes());
    v.extend_from_slice(&sample_rate.to_le_bytes());
    v.extend_from_slice(&byte_rate.to_le_bytes());
    v.extend_from_slice(&block_align.to_le_bytes());
    v.extend_from_slice(&bits.to_le_bytes());
    v.extend_from_slice(b"data");
    v.extend_from_slice(&data_len.to_le_bytes());
    v
}

fn wav_pcm16(channels: u16, sample_rate: u32, samples: &[i16]) -> Vec<u8> {
    let data_len = (samples.len() * 2) as u32;
    let mut v = wav_header(channels, sample_rate, 16, data_len);
    for s in samples {
        v.extend_from_slice(&s.to_le_bytes());
    }
    v
}

#[test]
fn stereo_16bit_downmix_matches_reference() {
    let bytes = wav_pcm16(2, 44100, &[0, 0, 32767, -32768, 16384, 16384]);
    let pcm = read_wav_mono(&bytes).unwrap();
    // one output sample per input frame
    assert_eq!(pcm.means.len(), 3);
    assert_eq!(pcm.full_scale, 32768);
    let normalized: Vec<f32> =
        pcm.means.iter().map(|&m| m as f32 / pcm.full_scale as f32).collect();
    let expected = [0.0f32, -0.0000153, 0.5];
    for (n, e) in normalized.iter().zip(expected.iter()) {
        assert!((n - e).abs() < 1e-4, "got {n}, expected about {e}");
    }
}

#[test]
fn mono_file_passes_samples_through() {
    let bytes = wav_pcm16(1, 8000, &[100, -100, 0, 32767]);
    let pcm = read_wav_mono(&bytes).unwrap();
    assert_eq!(pcm.means, vec![100, -100, 0, 32767]);
    assert_eq!(pcm.full_scale, 32768);
}

#[test]
fn negative_mean_truncates_toward_zero() {
    let bytes = wav_pcm16(2, 8000, &[-101, -200]);
    let pcm = read_wav_mono(&bytes).unwrap();
    // (-101 + -200) / 2 truncates to -150, not -151
    assert_eq!(pcm.means, vec![-150]);
}

#[test]
fn empty_data_gives_empty_downmix() {
    let bytes = wav_pcm16(2, 8000, &[]);
    let pcm = read_wav_mono(&bytes).unwrap();
    assert_eq!(pcm.means, Vec::<i64>::new());
}

#[test]
fn garbage_bytes_fail_to_decode() {
    let bytes = vec![1u8, 2, 3, 4, 5];
    assert!(matches!(read_wav_mono(&bytes), Err(AudioError::DecodeFailed)));
}

#[test]
fn truncated_data_chunk_fails_to_decode() {
    // header promises 4 bytes of samples, none follow
    let bytes = wav_header(1, 8000, 16, 4);
    assert!(matches!(read_wav_mono(&bytes), Err(AudioError::DecodeFailed)));
}

#[test]
fn sample_width_beyond_32_bits_is_unsupported() {
    let bytes = wav_header(2, 8000, 64, 0);
    assert!(matches!(read_wav_mono(&bytes), Err(AudioError::UnsupportedConfig)));
}

#[test]
fn eight_bit_full_scale_is_128() {
    let mut bytes = wav_header(1, 8000, 8, 1);
    bytes.push(192); // 8-bit samples are offset by 128: this is +64
    let pcm = read_wav_mono(&bytes).unwrap();
    assert_eq!(pcm.means, vec![64]);
    assert_eq!(pcm.full_scale, 128);
}

#[test]
fn downmix_counts_a_trailing_partial_frame() {
    let means = mono_downmix(&vec![1, 2, 3], 2);
    assert_eq!(means, vec![1, 3]); // (1+2)/2 truncates to 1; the lone 3 stands
}
