use pirately::live::{LiveChunker, LiveStep, LIVE_CHUNK_SAMPLES, MIN_CHUNK_SAMPLES, SILENCE_FRAMES_FOR_BREAK};

fn frame(len: usize, v: f32) -> Vec<f32> {
    vec![v; len]
}

#[test]
fn a_pause_ends_a_chunk() {
    let mut c: LiveChunker<f32> = LiveChunker::new();
    for _ in 0..100 {
        assert!(matches!(c.on_frame(&frame(200, 0.5), Some(true)), LiveStep::Gathering));
    }
    for _ in 0..SILENCE_FRAMES_FOR_BREAK - 1 {
        assert!(matches!(c.on_frame(&frame(200, 0.0), Some(false)), LiveStep::Gathering));
    }
    match c.on_frame(&frame(200, 0.0), Some(false)) {
        LiveStep::Chunk(chunk) => {
            assert!(chunk.is_break);
            assert_eq!(chunk.speech_frames, 100);
            assert_eq!(chunk.samples.len(), (100 + SILENCE_FRAMES_FOR_BREAK) * 200);
            assert_eq!(SILENCE_FRAMES_FOR_BREAK * 30, 3000);
            assert_eq!(chunk.samples[0], 0.5);
        }
        _ => panic!("expected a chunk"),
    }
    assert!(c.buffer().is_empty());
    assert_eq!(c.speech_frames(), 0);
}

#[test]
fn a_short_utterance_before_a_pause_is_dropped() {
    let mut c: LiveChunker<f32> = LiveChunker::new();
    for _ in 0..10 {
        c.on_frame(&frame(100, 0.5), Some(true));
    }
    for _ in 0..SILENCE_FRAMES_FOR_BREAK - 1 {
        c.on_frame(&frame(100, 0.0), Some(false));
    }
    match c.on_frame(&frame(100, 0.0), Some(false)) {
        LiveStep::Dropped(samples) => assert_eq!(samples.len(), (10 + SILENCE_FRAMES_FOR_BREAK) * 100),
        _ => panic!("expected the audio to be dropped"),
    }
    assert!(c.buffer().is_empty());
}

#[test]
fn detector_failures_count_neither_way() {
    let mut c: LiveChunker<f32> = LiveChunker::new();
    c.on_frame(&frame(10, 0.0), Some(true));
    c.on_frame(&frame(10, 0.0), None);
    assert_eq!(c.speech_frames(), 1);
    assert_eq!(c.buffer().len(), 20);
}

#[test]
fn a_long_stretch_is_cut_at_a_chosen_window() {
    let mut c: LiveChunker<f32> = LiveChunker::new();
    for i in 0..99 {
        let step = c.on_frame(&frame(480, i as f32), Some(true));
        assert!(matches!(step, LiveStep::Gathering));
    }
    assert!(matches!(c.on_frame(&frame(480, 99.0), Some(true)), LiveStep::SplitDue));
    assert_eq!(c.buffer().len(), LIVE_CHUNK_SAMPLES);
    let windows = c.split_windows();
    assert_eq!(windows, vec![(46400, 46880), (46880, 47360), (47360, 47840), (47840, 48000)]);
    let chunk = c.split_at(1).expect("long enough to transcribe");
    assert!(!chunk.is_break);
    assert_eq!(chunk.speech_frames, 100);
    assert_eq!(chunk.samples.len(), 46880);
    assert_eq!(c.buffer().len(), 48000 - 46880);
    assert_eq!(c.speech_frames(), 0);
    assert!(c.finish().is_none());
}

#[test]
fn the_end_of_input_hands_on_what_is_long_enough() {
    let mut c: LiveChunker<f32> = LiveChunker::new();
    c.on_final_frame(&frame(MIN_CHUNK_SAMPLES, 0.1), Some(true));
    c.on_final_frame(&frame(5, 0.1), Some(false));
    let chunk = c.finish().expect("a last chunk");
    assert!(chunk.is_break);
    assert_eq!(chunk.speech_frames, 1);
    assert_eq!(chunk.samples.len(), MIN_CHUNK_SAMPLES + 5);

    let mut short: LiveChunker<f32> = LiveChunker::new();
    short.on_final_frame(&frame(MIN_CHUNK_SAMPLES - 1, 0.1), Some(true));
    assert!(short.finish().is_none());
}

#[test]
fn live_capture_loses_no_sample() {
    let mut c: LiveChunker<i32> = LiveChunker::new();
    let mut input: Vec<i32> = Vec::new();
    let mut handed: Vec<i32> = Vec::new();
    let mut next = 0i32;
    for i in 0..200 {
        let f: Vec<i32> = (next..next + 480).collect();
        next += 480;
        input.extend(&f);
        let voice = if i < 40 || i >= 150 { Some(true) } else { Some(false) };
        match c.on_frame(&f, voice) {
            LiveStep::Chunk(chunk) => handed.extend(chunk.samples),
            LiveStep::Dropped(samples) => handed.extend(samples),
            LiveStep::SplitDue => {
                if let Some(chunk) = c.split_at(0) {
                    handed.extend(chunk.samples);
                } else {
                    panic!("a cut at the first window is long enough");
                }
            }
            LiveStep::Gathering => {}
        }
    }
    handed.extend(c.buffer().iter().copied());
    assert_eq!(handed, input);
}

#[test]
fn cuts_stay_near_three_seconds() {
    let mut c: LiveChunker<f32> = LiveChunker::new();
    for i in 0..103 {
        let _ = c.on_frame(&frame(480, i as f32), Some(true));
    }
    let windows = c.split_windows();
    assert_eq!(windows.len(), 7);
    assert_eq!(windows[6], (49280, 49440));
    let chunk = c.split_at(6).expect("long enough");
    assert_eq!(chunk.samples.len(), 49280);
    assert!(chunk.samples.len() >= 48000 - 1600 && chunk.samples.len() < 48000 + 1600);
}
