use pirately::framing::{input_chunks, needs_resampling, FrameBuffer, FRAME_SAMPLES, OUTPUT_RATE};

#[test]
fn test_passthrough_when_rates_match() {
    assert!(!needs_resampling(16000));

    let mut framer: FrameBuffer<f32> = FrameBuffer::new();
    let input: Vec<f32> = (0..480).map(|i| i as f32 / 480.0).collect();
    let frames = framer.push(&input);

    assert_eq!(frames.len(), 1);
    assert_eq!(frames[0].len(), 480);
    assert_eq!(frames[0], input);
}

#[test]
fn resampling_needed_only_off_the_output_rate() {
    assert_eq!(OUTPUT_RATE, 16000);
    assert!(needs_resampling(44100));
    assert!(needs_resampling(48000));
    assert!(!needs_resampling(OUTPUT_RATE));
}

#[test]
fn push_keeps_the_incomplete_rest() {
    let mut framer: FrameBuffer<i32> = FrameBuffer::new();
    let a: Vec<i32> = (0..700).collect();
    let frames = framer.push(&a);
    assert_eq!(frames.len(), 1);
    assert_eq!(frames[0], (0..480).collect::<Vec<i32>>());
    assert_eq!(framer.pending_len(), 220);

    let b: Vec<i32> = (700..1000).collect();
    let frames = framer.push(&b);
    assert_eq!(frames.len(), 1);
    assert_eq!(frames[0], (480..960).collect::<Vec<i32>>());
    assert_eq!(framer.pending_len(), 40);
}

#[test]
fn push_of_several_frames_at_once() {
    let mut framer: FrameBuffer<i32> = FrameBuffer::new();
    let a: Vec<i32> = (0..(3 * FRAME_SAMPLES as i32 + 5)).collect();
    let frames = framer.push(&a);
    assert_eq!(frames.len(), 3);
    let joined: Vec<i32> = frames.concat();
    assert_eq!(joined, (0..1440).collect::<Vec<i32>>());
    assert_eq!(framer.pending_len(), 5);
}

#[test]
fn finish_pads_the_last_frame_with_silence() {
    let mut framer: FrameBuffer<i32> = FrameBuffer::new();
    let a: Vec<i32> = (1..=100).collect();
    assert!(framer.push(&a).is_empty());
    let tail: Vec<i32> = (101..=500).collect();
    let frames = framer.finish(&tail, 0);
    assert_eq!(frames.len(), 2);
    assert_eq!(frames[0], (1..=480).collect::<Vec<i32>>());
    let mut expected: Vec<i32> = (481..=500).collect();
    expected.resize(480, 0);
    assert_eq!(frames[1], expected);
    assert_eq!(framer.pending_len(), 0);
}

#[test]
fn finish_with_nothing_left_hands_out_nothing() {
    let mut framer: FrameBuffer<i32> = FrameBuffer::new();
    let a: Vec<i32> = (0..480).collect();
    assert_eq!(framer.push(&a).len(), 1);
    assert!(framer.finish(&[], 0).is_empty());
    assert_eq!(framer.pending_len(), 0);
}

#[test]
fn input_chunks_pad_the_last_chunk() {
    let src: Vec<i32> = (1..=10).collect();
    let chunks = input_chunks(&src, 4, 0);
    assert_eq!(chunks, vec![vec![1, 2, 3, 4], vec![5, 6, 7, 8], vec![9, 10, 0, 0]]);
}

#[test]
fn input_chunks_of_an_exact_multiple() {
    let src: Vec<i32> = (1..=8).collect();
    let chunks = input_chunks(&src, 4, 0);
    assert_eq!(chunks, vec![vec![1, 2, 3, 4], vec![5, 6, 7, 8]]);
    assert!(input_chunks::<i32>(&[], 4, 0).is_empty());
}

#[test]
fn frames_do_not_depend_on_how_input_is_split() {
    let all: Vec<i32> = (0..1300).collect();
    let mut once: FrameBuffer<i32> = FrameBuffer::new();
    let at_once = once.push(&all);

    let mut twice: FrameBuffer<i32> = FrameBuffer::new();
    let mut in_two = twice.push(&all[..333]);
    in_two.extend(twice.push(&all[333..]));

    assert_eq!(in_two, at_once);
    assert_eq!(at_once.len(), 2);
    assert_eq!(once.pending_len(), twice.pending_len());
    assert_eq!(once.pending_len(), 340);
}

#[test]
fn many_pushes_hand_out_the_stream_in_frames() {
    let all: Vec<i32> = (0..2000).collect();
    let cuts = [0usize, 7, 7, 500, 961, 962, 1440, 1999, 2000];
    let mut framer: FrameBuffer<i32> = FrameBuffer::new();
    let mut frames: Vec<Vec<i32>> = Vec::new();
    for w in cuts.windows(2) {
        frames.extend(framer.push(&all[w[0]..w[1]]));
    }
    assert!(frames.iter().all(|f| f.len() == FRAME_SAMPLES));
    assert_eq!(frames.concat(), (0..1920).collect::<Vec<i32>>());
    assert_eq!(framer.pending_len(), 80);
}
