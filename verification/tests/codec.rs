use pirately::codec::{decode_wav_base64, encode_wav_base64, AudioInputError, WavError};

#[test]
fn audio_is_encoded_as_a_base64_wav_file() {
    let text = encode_wav_base64(16000, &[0, 1, -1]).ok().unwrap();
    assert_eq!(text, "UklGRioAAABXQVZFZm10IBAAAAABAAEAgD4AAAB9AAACABAAZGF0YQYAAAAAAAEA//8=");
}

#[test]
fn encoded_audio_reads_back() {
    let samples: Vec<i16> = vec![0, 100, -100, i16::MAX, i16::MIN, 7];
    let text = encode_wav_base64(44100, &samples).ok().unwrap();
    let decoded = decode_wav_base64(&text).ok().unwrap();
    assert_eq!(decoded.sample_rate, 44100);
    assert_eq!(decoded.samples, samples);
}

#[test]
fn encoding_refuses_bad_rates_and_empty_audio() {
    assert_eq!(encode_wav_base64(7999, &[1]).err(), Some(WavError::InvalidSampleRate(7999)));
    assert_eq!(encode_wav_base64(96001, &[]).err(), Some(WavError::InvalidSampleRate(96001)));
    assert_eq!(encode_wav_base64(16000, &[]).err(), Some(WavError::EmptyBuffer));
}

#[test]
fn decoding_refuses_bad_base64_and_non_wav_bytes() {
    assert!(matches!(decode_wav_base64("not base64!"), Err(AudioInputError::Base64(_))));
    assert!(matches!(decode_wav_base64("aGVsbG8"), Err(AudioInputError::Base64(_))));
    assert!(matches!(decode_wav_base64("aGVsbG8="), Err(AudioInputError::Wav(_))));
}
