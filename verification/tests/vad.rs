use pirately::vad::{frame_verdict, SmoothedVad, VadError, VadFrame, VoiceActivityDetector};

/// Answers from a fixed script, one answer per frame.
struct Scripted {
    answers: Vec<Result<bool, String>>,
    next: usize,
    resets: usize,
}

impl Scripted {
    fn new(answers: Vec<Result<bool, String>>) -> Self {
        Scripted { answers, next: 0, resets: 0 }
    }
}

impl VoiceActivityDetector<f32> for Scripted {
    fn push_frame(&mut self, frame: &[f32]) -> Result<VadFrame<f32>, VadError> {
        let voice = self.is_voice(frame)?;
        Ok(frame_verdict(frame, voice))
    }

    fn is_voice(&mut self, _frame: &[f32]) -> Result<bool, VadError> {
        let a = self.answers[self.next].clone();
        self.next += 1;
        a.map_err(|message| VadError { message })
    }

    fn reset(&mut self) {
        self.resets += 1;
    }
}

fn speech(f: VadFrame<f32>) -> Option<Vec<f32>> {
    match f {
        VadFrame::Speech(v) => Some(v),
        VadFrame::Noise => None,
    }
}

#[test]
fn smoothing_holds_back_the_preroll_and_releases_it_at_onset() {
    let script = vec![Ok(true), Ok(true), Ok(true), Ok(true), Ok(false), Ok(false)];
    let mut vad = SmoothedVad::new(Scripted::new(script), 2, 2, 2);
    let f = |i: i32| vec![i as f32];
    assert_eq!(speech(vad.push_frame(&f(1)).unwrap()), None);
    assert_eq!(speech(vad.push_frame(&f(2)).unwrap()), None);
    assert_eq!(speech(vad.push_frame(&f(3)).unwrap()), None);
    assert_eq!(speech(vad.push_frame(&f(4)).unwrap()), Some(vec![1.0, 2.0, 3.0, 4.0]));
    assert_eq!(speech(vad.push_frame(&f(5)).unwrap()), Some(vec![5.0]));
    assert_eq!(speech(vad.push_frame(&f(6)).unwrap()), None);
}

#[test]
fn smoothing_keeps_only_the_latest_preroll_between_speech() {
    let mut vad = SmoothedVad::new(Scripted::new(vec![]), 2, 2, 2);
    let f = |i: i32| vec![i as f32];
    // Pre-roll: held back whatever the detector says.
    assert_eq!(speech(vad.push_judged_frame(&f(1), false)), None);
    assert_eq!(speech(vad.push_judged_frame(&f(2), false)), None);
    // Non-voice frames keep at most one frame before the current one.
    assert_eq!(speech(vad.push_judged_frame(&f(7), false)), None);
    assert_eq!(speech(vad.push_judged_frame(&f(8), false)), None);
    assert_eq!(speech(vad.push_judged_frame(&f(9), false)), None);
    assert_eq!(speech(vad.push_judged_frame(&f(10), true)), None);
    assert_eq!(speech(vad.push_judged_frame(&f(11), true)), Some(vec![8.0, 9.0, 10.0, 11.0]));
}

#[test]
fn smoothing_hangover_keeps_speech_through_short_pauses() {
    let mut vad = SmoothedVad::new(Scripted::new(vec![]), 1, 3, 1);
    let f = |i: i32| vec![i as f32];
    assert_eq!(speech(vad.push_judged_frame(&f(0), true)), None);
    assert_eq!(speech(vad.push_judged_frame(&f(1), true)), Some(vec![0.0, 1.0]));
    assert_eq!(speech(vad.push_judged_frame(&f(2), false)), Some(vec![2.0]));
    assert_eq!(speech(vad.push_judged_frame(&f(3), false)), Some(vec![3.0]));
    assert_eq!(speech(vad.push_judged_frame(&f(4), true)), Some(vec![4.0]));
    assert_eq!(speech(vad.push_judged_frame(&f(5), false)), Some(vec![5.0]));
    assert_eq!(speech(vad.push_judged_frame(&f(6), false)), Some(vec![6.0]));
    assert_eq!(speech(vad.push_judged_frame(&f(7), false)), None);
    assert_eq!(speech(vad.push_judged_frame(&f(8), false)), None);
}

#[test]
fn smoothing_passes_detector_errors_on() {
    let script = vec![Err("model failed".to_string()), Ok(true), Ok(true)];
    let mut vad = SmoothedVad::new(Scripted::new(script), 1, 1, 1);
    let err = vad.push_frame(&[0.5]).err().unwrap();
    assert_eq!(err.message, "model failed");
    // The failed frame still counted as the pre-roll frame.
    assert_eq!(speech(vad.push_frame(&[1.0]).unwrap()), Some(vec![1.0]));
    assert_eq!(speech(vad.push_frame(&[2.0]).unwrap()), Some(vec![2.0]));
}

#[test]
fn reset_starts_the_preroll_over() {
    let script = vec![Ok(true), Ok(true), Ok(true), Ok(true)];
    let mut vad = SmoothedVad::new(Scripted::new(script), 1, 1, 1);
    assert_eq!(speech(vad.push_frame(&[1.0]).unwrap()), None);
    assert_eq!(speech(vad.push_frame(&[2.0]).unwrap()), Some(vec![1.0, 2.0]));
    vad.reset();
    assert_eq!(speech(vad.push_frame(&[3.0]).unwrap()), None);
    assert_eq!(speech(vad.push_frame(&[4.0]).unwrap()), Some(vec![3.0, 4.0]));
}

#[test]
fn is_voice_asks_the_inner_detector() {
    let mut vad = SmoothedVad::new(Scripted::new(vec![Ok(false), Ok(true)]), 1, 1, 1);
    assert_eq!(vad.is_voice(&[0.0]).ok(), Some(false));
    assert_eq!(vad.is_voice(&[0.0]).ok(), Some(true));
}

#[test]
fn a_plain_detector_passes_voice_frames_as_they_are() {
    let frame = vec![0.25f32, -0.5, 0.75];
    assert_eq!(speech(frame_verdict(&frame, true)), Some(frame.clone()));
    assert_eq!(speech(frame_verdict(&frame, false)), None);
}

#[test]
fn the_first_prefill_frames_are_held_back_whatever_the_detector_says() {
    let mut vad = SmoothedVad::new(Scripted::new(vec![Ok(true); 6]), 3, 2, 1);
    for i in 0..3 {
        assert_eq!(speech(vad.push_frame(&[i as f32]).ok().unwrap()), None);
    }
    assert_eq!(speech(vad.push_frame(&[3.0]).ok().unwrap()), Some(vec![0.0, 1.0, 2.0, 3.0]));
}

#[test]
fn smoothing_stays_consistent_over_a_long_run() {
    let answers: Vec<Result<bool, String>> = (0..600).map(|i| Ok((i / 7) % 3 == 0)).collect();
    let mut vad = SmoothedVad::new(Scripted::new(answers), 4, 3, 2);
    let mut passed = 0;
    for i in 0..600 {
        match vad.push_frame(&[i as f32]) {
            Ok(VadFrame::Speech(s)) => passed += s.len(),
            Ok(VadFrame::Noise) => {}
            Err(e) => panic!("unexpected error: {}", e.message),
        }
    }
    assert!(passed > 0);
}

#[test]
fn a_scripted_sequence_through_the_smoothing() {
    let script = vec![Ok(false), Ok(true), Ok(true), Ok(false), Ok(false)];
    let mut vad = SmoothedVad::new(Scripted::new(script), 1, 2, 2);
    let results: Vec<Option<Vec<f32>>> =
        (1..=5).map(|i| speech(vad.push_frame(&[i as f32]).ok().unwrap())).collect();
    assert_eq!(results, vec![None, None, Some(vec![1.0, 2.0, 3.0]), Some(vec![4.0]), None]);
}

#[test]
fn reset_resets_the_inner_detector_and_holds_back_the_preroll_again() {
    let mut vad = SmoothedVad::new(Scripted::new(vec![Ok(true); 8]), 2, 1, 1);
    assert_eq!(speech(vad.push_frame(&[1.0]).unwrap()), None);
    assert_eq!(speech(vad.push_frame(&[2.0]).unwrap()), None);
    assert_eq!(speech(vad.push_frame(&[3.0]).unwrap()), Some(vec![1.0, 2.0, 3.0]));
    vad.reset();
    assert_eq!(speech(vad.push_frame(&[4.0]).unwrap()), None);
    assert_eq!(speech(vad.push_frame(&[5.0]).unwrap()), None);
    assert_eq!(speech(vad.push_frame(&[6.0]).unwrap()), Some(vec![4.0, 5.0, 6.0]));
}
