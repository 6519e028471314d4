use pirately::capture::{
    check_not_running, check_sample_rate, check_vad_config, effective_model_id, route_transcript, CaptureError,
    ContinuousRecorder, TranscriptRoute, VadConfigError,
};
use pirately::engine::EngineError;

#[test]
fn capture_accepts_8_to_96_khz() {
    assert_eq!(check_sample_rate(7999), Err(CaptureError::InvalidSampleRate(7999)));
    assert_eq!(check_sample_rate(8000), Ok(()));
    assert_eq!(check_sample_rate(48000), Ok(()));
    assert_eq!(check_sample_rate(96000), Ok(()));
    assert_eq!(check_sample_rate(96001), Err(CaptureError::InvalidSampleRate(96001)));
}

#[test]
fn only_one_capture_runs() {
    assert_eq!(check_not_running(true), Err(CaptureError::AlreadyRunning));
    assert_eq!(check_not_running(false), Ok(()));
}

#[test]
fn vad_config_checks_sensitivity_then_duration() {
    assert_eq!(check_vad_config(true, 3600), Ok(()));
    assert_eq!(check_vad_config(true, 3601), Err(VadConfigError::DurationTooLong));
    assert_eq!(check_vad_config(false, 3601), Err(VadConfigError::SensitivityOutOfRange));
    assert_eq!(check_vad_config(false, 10), Err(VadConfigError::SensitivityOutOfRange));
}

#[test]
fn the_default_local_model() {
    assert_eq!(effective_model_id(None), "parakeet-tdt-0.6b-v3");
    assert_eq!(effective_model_id(Some("small".to_string())), "small");
}

#[test]
fn transcripts_are_shown_skipped_or_replaced_by_audio() {
    assert!(matches!(route_transcript(Ok("hi there".to_string()), true), TranscriptRoute::Text(t) if t == "hi there"));
    assert!(matches!(route_transcript(Ok(" \n\t\u{3000}".to_string()), true), TranscriptRoute::Skip));
    assert!(matches!(route_transcript(Ok("".to_string()), true), TranscriptRoute::Skip));
    assert!(matches!(route_transcript(Ok("  ".to_string()), false), TranscriptRoute::Text(t) if t == "  "));
    assert!(matches!(route_transcript(Err(EngineError::NoModelLoaded), true), TranscriptRoute::Audio));
}

#[test]
fn continuous_recording_reports_progress_and_stops_at_the_limit() {
    let mut rec: ContinuousRecorder<f32> = ContinuousRecorder::new(2, 2);
    let s1 = rec.on_sample(0.1, false, 0);
    assert_eq!((s1.progress, s1.stop), (None, false));
    let s2 = rec.on_sample(0.2, false, 0);
    assert_eq!((s2.progress, s2.stop), (Some(0), false));
    let s3 = rec.on_sample(0.3, false, 1);
    assert_eq!((s3.progress, s3.stop), (None, false));
    let s4 = rec.on_sample(0.4, false, 1);
    assert_eq!((s4.progress, s4.stop), (Some(1), true));
    assert_eq!(rec.into_samples(), vec![0.1, 0.2, 0.3, 0.4]);
}

#[test]
fn continuous_recording_stops_on_request_or_time() {
    let mut rec: ContinuousRecorder<f32> = ContinuousRecorder::new(16000, 180);
    assert!(!rec.on_sample(0.1, false, 0).stop);
    let s = rec.on_sample(0.2, true, 0);
    assert!(s.stop && s.progress.is_none());
    assert!(rec.on_sample(0.3, false, 180).stop);
    assert_eq!(rec.into_samples(), vec![0.1, 0.3]);
}
