use vstd::prelude::*;

use std::collections::VecDeque;

use crate::framing::flatten;

verus! {

/// What a detector makes of one frame: the samples to pass on as speech,
/// or nothing.
#[derive(Debug)]
pub enum VadFrame<S> {
    Speech(Vec<S>),
    Noise,
}

/// The samples a [`VadFrame`] passes on as speech, if any.
pub open spec fn vad_frame_view<S>(f: VadFrame<S>) -> Option<Seq<S>> {
    match f {
        VadFrame::Speech(v) => Some(v@),
        VadFrame::Noise => None,
    }
}

/// What a detector that passes each voice frame on as it is makes of
/// `frame` judged `voice`: the frame as speech, or nothing.
pub fn frame_verdict<S: Copy>(frame: &[S], voice: bool) -> (r: VadFrame<S>)
    ensures
        vad_frame_view(r) == if voice { Some(frame@) } else { None::<Seq<S>> },
{
    if voice {
        VadFrame::Speech(frame_to_vec(frame))
    } else {
        VadFrame::Noise
    }
}

/// A detector failed on a frame.
#[derive(Debug)]
pub struct VadError {
    pub message: String,
}

/// A voice-activity detector: judges frames of samples as voice or not.
pub trait VoiceActivityDetector<S> {
    /// Judges `frame` and says what to pass on.
    fn push_frame(&mut self, frame: &[S]) -> Result<VadFrame<S>, VadError>;

    /// Whether a detector in state `self`, asked about `frame`, may answer
    /// `answer` and be left in state `after`.  A detector may say what its
    /// judgement is (one that wraps another says it in terms of the other's);
    /// one that says nothing may give any answer.
    open spec fn judges(&self, frame: Seq<S>, answer: Result<bool, VadError>, after: &Self) -> bool {
        true
    }

    /// Judges whether `frame` holds voice.
    fn is_voice(&mut self, frame: &[S]) -> (r: Result<bool, VadError>)
        ensures
            old(self).judges(frame@, r, &*final(self));

    /// Whether a detector in state `self`, once reset, may be left in state
    /// `after`.  A detector may say what its reset does (one that wraps
    /// another says it in terms of the other's); one that says nothing may be
    /// left in any state.
    open spec fn resets(&self, after: &Self) -> bool {
        true
    }

    /// Forgets everything learnt from earlier frames (a detector that learns
    /// nothing resets with an empty body).
    fn reset(&mut self)
        ensures
            old(self).resets(&*final(self)),
    ;
}

/// The state of the smoothing of detector decisions, as mathematical values.
pub ghost struct SmoothingView<S> {
    /// Frames held back after a reset before any decision is made.
    pub prefill: nat,
    /// Non-voice frames that end a run of speech.
    pub hangover: nat,
    /// Voice frames in a row that start a run of speech.
    pub onset: nat,
    /// Frames held back, oldest first, to be passed on when speech starts.
    pub buffer: Seq<Seq<S>>,
    pub in_speech: bool,
    pub onset_count: nat,
    pub hangover_count: nat,
    pub frames_since_reset: nat,
}

/// The smoothing state right after construction or a reset.
pub open spec fn fresh_smoothing<S>(prefill: nat, hangover: nat, onset: nat) -> SmoothingView<S> {
    SmoothingView {
        prefill,
        hangover,
        onset,
        buffer: Seq::empty(),
        in_speech: false,
        onset_count: 0,
        hangover_count: 0,
        frames_since_reset: 0,
    }
}

/// The frame counter after one more frame; it stops at the largest `usize`.
pub open spec fn count_frame<S>(st: SmoothingView<S>) -> SmoothingView<S> {
    SmoothingView {
        frames_since_reset: if st.frames_since_reset < usize::MAX {
            st.frames_since_reset + 1
        } else {
            st.frames_since_reset
        },
        ..st
    }
}

/// `buffer` cut down from the front to `prefill - 1` frames, if longer.
pub open spec fn trim_preroll<S>(buffer: Seq<Seq<S>>, prefill: nat) -> Seq<Seq<S>> {
    if buffer.len() >= prefill {
        buffer.skip(buffer.len() - prefill + 1)
    } else {
        buffer
    }
}

/// One smoothing decision on `frame`, already counted, judged `voice`:
/// the next state and the samples passed on as speech, if any.
pub open spec fn decide<S>(st: SmoothingView<S>, frame: Seq<S>, voice: bool) -> (SmoothingView<S>, Option<Seq<S>>) {
    if st.frames_since_reset <= st.prefill {
        (SmoothingView { buffer: st.buffer.push(frame), ..st }, None)
    } else if !st.in_speech {
        if voice {
            let count = st.onset_count + 1;
            let buffer = st.buffer.push(frame);
            if count >= st.onset {
                (
                    SmoothingView {
                        in_speech: true,
                        hangover_count: 0,
                        onset_count: count,
                        buffer: Seq::empty(),
                        ..st
                    },
                    Some(flatten(buffer)),
                )
            } else {
                (SmoothingView { onset_count: count, buffer, ..st }, None)
            }
        } else {
            (
                SmoothingView {
                    onset_count: 0,
                    buffer: trim_preroll(st.buffer, st.prefill).push(frame),
                    ..st
                },
                None,
            )
        }
    } else if voice {
        (SmoothingView { hangover_count: 0, ..st }, Some(frame))
    } else {
        let count = st.hangover_count + 1;
        if count >= st.hangover {
            (
                SmoothingView {
                    in_speech: false,
                    onset_count: 0,
                    hangover_count: count,
                    buffer: Seq::empty(),
                    ..st
                },
                None,
            )
        } else {
            (SmoothingView { hangover_count: count, ..st }, Some(frame))
        }
    }
}

/// One frame through the smoothing: count it, then decide on it.
pub open spec fn smoothing_step<S>(st: SmoothingView<S>, frame: Seq<S>, voice: bool) -> (SmoothingView<S>, Option<Seq<S>>) {
    decide(count_frame(st), frame, voice)
}

/// The invariant of the smoothing state.  Besides what keeps the counters
/// from overflowing, it bounds what is held back: nothing during speech, and
/// otherwise at most the pre-roll plus the voice frames seen since.
pub open spec fn smoothing_wf<S>(st: SmoothingView<S>) -> bool {
    &&& 0 < st.prefill < usize::MAX
    &&& st.hangover <= usize::MAX
    &&& st.onset <= usize::MAX
    &&& st.frames_since_reset <= usize::MAX
    &&& st.onset_count <= usize::MAX
    &&& st.hangover_count <= usize::MAX
    &&& !st.in_speech ==> (st.onset_count == 0 || st.onset_count < st.onset)
    &&& st.in_speech ==> (st.hangover_count == 0 || st.hangover_count < st.hangover)
    &&& st.in_speech ==> st.buffer.len() == 0
    &&& !st.in_speech ==> st.buffer.len() <= st.prefill + st.onset_count
    &&& st.frames_since_reset <= st.prefill ==> {
        &&& !st.in_speech
        &&& st.onset_count == 0
        &&& st.buffer.len() <= st.frames_since_reset
    }
}

/// Frames `frames`, judged `voices`, one after the other through the
/// smoothing from `st`: the state reached and what each frame passed on.
pub open spec fn smoothing_run<S>(st: SmoothingView<S>, frames: Seq<Seq<S>>, voices: Seq<bool>) -> (SmoothingView<S>, Seq<Option<Seq<S>>>)
    decreases frames.len(),
{
    if frames.len() == 0 {
        (st, Seq::empty())
    } else {
        let (mid, outs) = smoothing_run(st, frames.drop_last(), voices);
        let (next, out) = smoothing_step(mid, frames.last(), voices[frames.len() - 1]);
        (next, outs.push(out))
    }
}

/// Every frame through the smoothing keeps its invariant.
pub proof fn law_smoothing_keeps_invariant<S>(st: SmoothingView<S>, frame: Seq<S>, voice: bool)
    requires
        smoothing_wf(st),
    ensures
        smoothing_wf(smoothing_step(st, frame, voice).0),
{
    let c = count_frame(st);
    if c.frames_since_reset > c.prefill && !c.in_speech && !voice {
        let b = c.buffer;
        if b.len() >= c.prefill {
            assert(trim_preroll(b, c.prefill).len() == c.prefill - 1);
        }
    }
}

/// `n` voice answers after one non-voice answer.
pub open spec fn voice_after_pause(n: nat) -> Seq<bool> {
    seq![false] + Seq::new(n, |i: int| true)
}

/// Outside speech and past the pre-roll, speech starts only after `onset`
/// voice frames in a row: after a frame judged not to be voice, the next
/// voice frames, fewer than `onset` of them, pass nothing on and do not
/// start speech; the onset count is then the number of those voice frames.
pub proof fn law_onset_needs_voice_in_a_row<S>(st: SmoothingView<S>, frames: Seq<Seq<S>>, n: nat)
    requires
        smoothing_wf(st),
        !st.in_speech,
        st.frames_since_reset >= st.prefill,
        n < st.onset,
        frames.len() == n + 1,
    ensures
        forall|i: int| 0 <= i < frames.len() ==> (#[trigger] smoothing_run(st, frames, voice_after_pause(n)).1[i]) is None,
        !smoothing_run(st, frames, voice_after_pause(n)).0.in_speech,
        smoothing_run(st, frames, voice_after_pause(n)).0.onset_count == n,
        smoothing_run(st, frames, voice_after_pause(n)).0.frames_since_reset > st.prefill,
        smoothing_run(st, frames, voice_after_pause(n)).0.prefill == st.prefill,
        smoothing_run(st, frames, voice_after_pause(n)).0.onset == st.onset,
        smoothing_wf(smoothing_run(st, frames, voice_after_pause(n)).0),
    decreases n,
{
    let v = voice_after_pause(n);
    assert(v.len() == n + 1);
    assert(v[0] == false);
    assert(forall|i: int| 1 <= i <= n ==> v[i] == true);
    lemma_run_len(st, frames, v);
    let pre = frames.drop_last();
    if n == 0 {
        assert(pre.len() == 0);
        let step = smoothing_step(st, frames.last(), false);
        assert(step.1 is None);
        law_smoothing_keeps_invariant(st, frames.last(), false);
        assert(smoothing_run(st, pre, v) == (st, Seq::<Option<Seq<S>>>::empty()));
        assert(smoothing_run(st, frames, v) == (step.0, Seq::<Option<Seq<S>>>::empty().push(step.1)));
    } else {
        let m = (n - 1) as nat;
        let w = voice_after_pause(m);
        assert(w.len() == m + 1);
        assert(w[0] == false);
        assert(forall|i: int| 1 <= i <= m ==> w[i] == true);
        law_onset_needs_voice_in_a_row(st, pre, m);
        lemma_run_ignores_later_voices(st, pre, v, w);
        lemma_run_len(st, pre, v);
        let (mid, outs) = smoothing_run(st, pre, v);
        assert(mid == smoothing_run(st, pre, w).0);
        assert(v[n as int] == true);
        let step = smoothing_step(mid, frames.last(), true);
        assert(step.1 is None);
        law_smoothing_keeps_invariant(mid, frames.last(), true);
        assert(smoothing_run(st, frames, v) == (step.0, outs.push(step.1)));
        assert forall|i: int| 0 <= i < frames.len() implies (#[trigger] smoothing_run(st, frames, v).1[i]) is None by {
            if i < pre.len() {
                assert(smoothing_run(st, pre, w).1[i] is None);
            }
        }
    }
}

/// After construction or a reset, the first `prefill` frames are held back
/// whatever the detector says of them: none is passed on, and they are all
/// kept, in order, for when speech starts.
pub proof fn law_prefill_holds_back<S>(prefill: nat, hangover: nat, onset: nat, frames: Seq<Seq<S>>, voices: Seq<bool>)
    requires
        0 < prefill < usize::MAX,
        frames.len() <= prefill,
        voices.len() == frames.len(),
    ensures
        forall|i: int| 0 <= i < frames.len() ==> (#[trigger] smoothing_run(fresh_smoothing::<S>(prefill, hangover, onset), frames, voices).1[i]) is None,
        smoothing_run(fresh_smoothing::<S>(prefill, hangover, onset), frames, voices).0.buffer == frames,
        !smoothing_run(fresh_smoothing::<S>(prefill, hangover, onset), frames, voices).0.in_speech,
    decreases frames.len(),
{
    let st = fresh_smoothing::<S>(prefill, hangover, onset);
    if frames.len() == 0 {
        assert(smoothing_run(st, frames, voices).0.buffer =~= frames);
    } else {
        let n = frames.len() - 1;
        law_prefill_holds_back(prefill, hangover, onset, frames.drop_last(), voices.drop_last());
        lemma_run_ignores_later_voices(st, frames.drop_last(), voices, voices.drop_last());
        lemma_prefill_run_state(prefill, hangover, onset, frames.drop_last(), voices.drop_last());
        let (mid, outs) = smoothing_run(st, frames.drop_last(), voices);
        assert(frames.drop_last().push(frames.last()) =~= frames);
        assert(smoothing_run(st, frames, voices).1 =~= outs.push(None));
        assert(outs == smoothing_run(st, frames.drop_last(), voices.drop_last()).1);
        lemma_run_len(st, frames.drop_last(), voices.drop_last());
        assert forall|i: int| 0 <= i < frames.len() implies (#[trigger] smoothing_run(st, frames, voices).1[i]) is None by {
            if i < n {
                assert(smoothing_run(st, frames.drop_last(), voices.drop_last()).1[i] is None);
            }
        }
    }
}

proof fn lemma_prefill_run_state<S>(prefill: nat, hangover: nat, onset: nat, frames: Seq<Seq<S>>, voices: Seq<bool>)
    requires
        0 < prefill < usize::MAX,
        frames.len() <= prefill,
        voices.len() == frames.len(),
    ensures
        smoothing_run(fresh_smoothing::<S>(prefill, hangover, onset), frames, voices).0 == (SmoothingView {
            buffer: frames,
            frames_since_reset: frames.len(),
            ..fresh_smoothing::<S>(prefill, hangover, onset)
        }),
    decreases frames.len(),
{
    let st = fresh_smoothing::<S>(prefill, hangover, onset);
    if frames.len() == 0 {
        assert(frames =~= Seq::<Seq<S>>::empty());
    } else {
        lemma_prefill_run_state(prefill, hangover, onset, frames.drop_last(), voices.drop_last());
        lemma_run_ignores_later_voices(st, frames.drop_last(), voices, voices.drop_last());
        assert(frames.drop_last().push(frames.last()) =~= frames);
    }
}

proof fn lemma_run_len<S>(st: SmoothingView<S>, frames: Seq<Seq<S>>, voices: Seq<bool>)
    ensures
        smoothing_run(st, frames, voices).1.len() == frames.len(),
    decreases frames.len(),
{
    if frames.len() > 0 {
        lemma_run_len(st, frames.drop_last(), voices);
    }
}

proof fn lemma_run_ignores_later_voices<S>(st: SmoothingView<S>, frames: Seq<Seq<S>>, v1: Seq<bool>, v2: Seq<bool>)
    requires
        frames.len() <= v1.len(),
        frames.len() <= v2.len(),
        forall|i: int| 0 <= i < frames.len() ==> v1[i] == v2[i],
    ensures
        smoothing_run(st, frames, v1) == smoothing_run(st, frames, v2),
    decreases frames.len(),
{
    if frames.len() > 0 {
        lemma_run_ignores_later_voices(st, frames.drop_last(), v1, v2);
    }
}

/// The frames held in a queue, as sample sequences.
pub open spec fn frame_views<S>(b: Seq<Vec<S>>) -> Seq<Seq<S>> {
    b.map_values(|f: Vec<S>| f@)
}

proof fn lemma_pop_front_view<S>(before: Seq<Vec<S>>, after: Seq<Vec<S>>, runs: Seq<Seq<S>>, k: int)
    requires
        0 <= k < runs.len(),
        frame_views(before) == runs.skip(k),
        after == before.subrange(1, before.len() as int),
    ensures
        frame_views(after) == runs.skip(k + 1),
        before[0]@ == runs[k],
{
    let mb = frame_views(before);
    let ma = frame_views(after);
    assert(mb.len() == before.len());
    assert(mb[0] == runs.skip(k)[0]);
    assert(mb[0] == before[0]@);
    assert(ma.len() == after.len());
    assert forall|i: int| 0 <= i < runs.len() - (k + 1) implies #[trigger] ma[i] == runs.skip(k + 1)[i] by {
        assert(ma[i] == after[i]@);
        assert(after[i] == before[i + 1]);
        assert(mb[i + 1] == before[i + 1]@);
        assert(mb[i + 1] == runs.skip(k)[i + 1]);
    }
    assert(ma =~= runs.skip(k + 1));
}

/// Appends a copy of `frame` to the queue.
fn queue_push<S: Copy>(buf: &mut VecDeque<Vec<S>>, frame: &[S])
    ensures
        frame_views(final(buf)@) == frame_views(old(buf)@).push(frame@),
{
    let owned = frame_to_vec(frame);
    buf.push_back(owned);
    assert(frame_views(buf@) =~= frame_views(old(buf)@).push(frame@));
}

/// Empties the queue and returns its frames joined, oldest first.
fn queue_drain<S: Copy>(buf: &mut VecDeque<Vec<S>>) -> (speech: Vec<S>)
    ensures
        speech@ == flatten(frame_views(old(buf)@)),
        final(buf)@.len() == 0,
{
    let mut speech: Vec<S> = Vec::new();
    let ghost runs = frame_views(buf@);
    let ghost mut taken: int = 0;
    assert(runs.skip(0) =~= runs);
    assert(runs.take(0) =~= Seq::<Seq<S>>::empty());
    while buf.len() > 0
        invariant
            runs == frame_views(old(buf)@),
            0 <= taken <= runs.len(),
            buf@.len() == runs.len() - taken,
            frame_views(buf@) == runs.skip(taken),
            speech@ == flatten(runs.take(taken)),
        decreases buf@.len(),
    {
        let ghost before = buf@;
        if let Some(f) = buf.pop_front() {
            proof {
                lemma_pop_front_view(before, buf@, runs, taken);
                assert(runs.take(taken + 1) =~= runs.take(taken).push(f@));
                crate::framing::lemma_flatten_push(runs.take(taken), f@);
            }
            crate::framing::append_samples(&mut speech, f.as_slice());
            proof { taken = taken + 1; }
        }
    }
    assert(runs.take(taken) =~= runs);
    speech
}

/// Drops frames from the front of the queue until fewer than `prefill` are
/// left.
fn queue_trim<S>(buf: &mut VecDeque<Vec<S>>, prefill: usize)
    requires
        prefill > 0,
    ensures
        frame_views(final(buf)@) == trim_preroll(frame_views(old(buf)@), prefill as nat),
{
    let ghost b0 = frame_views(buf@);
    let ghost mut removed: int = 0;
    assert(b0.skip(0) =~= b0);
    while buf.len() >= prefill
        invariant
            prefill > 0,
            b0 == frame_views(old(buf)@),
            0 <= removed <= b0.len(),
            buf@.len() == b0.len() - removed,
            removed > 0 ==> b0.len() - removed >= prefill - 1,
            removed > 0 ==> b0.len() >= prefill,
            frame_views(buf@) == b0.skip(removed),
        decreases buf@.len(),
    {
        let ghost before = buf@;
        let _ = buf.pop_front();
        proof {
            lemma_pop_front_view(before, buf@, b0, removed);
            removed = removed + 1;
        }
    }
}

/// The smoothing state of [`SmoothedVad`] as plain values; it always keeps
/// [`smoothing_wf`].
pub struct SmoothingState<S> {
    prefill_frames: usize,
    hangover_frames: usize,
    onset_frames: usize,
    frame_buffer: VecDeque<Vec<S>>,
    in_speech: bool,
    onset_counter: usize,
    hangover_counter: usize,
    frames_since_reset: usize,
}

impl<S> SmoothingState<S> {
    pub closed spec fn view(&self) -> SmoothingView<S> {
        SmoothingView {
            prefill: self.prefill_frames as nat,
            hangover: self.hangover_frames as nat,
            onset: self.onset_frames as nat,
            buffer: frame_views(self.frame_buffer@),
            in_speech: self.in_speech,
            onset_count: self.onset_counter as nat,
            hangover_count: self.hangover_counter as nat,
            frames_since_reset: self.frames_since_reset as nat,
        }
    }

    #[verifier::type_invariant]
    closed spec fn keeps_invariant(&self) -> bool {
        smoothing_wf(self.view())
    }
}

impl<S: Copy> SmoothingState<S> {
    fn new(prefill_frames: usize, hangover_frames: usize, onset_frames: usize) -> (r: Self)
        requires
            0 < prefill_frames < usize::MAX,
        ensures
            r.view() == fresh_smoothing::<S>(prefill_frames as nat, hangover_frames as nat, onset_frames as nat),
    {
        let ghost empty: Seq<Vec<S>> = Seq::empty();
        assert(frame_views(empty) =~= Seq::<Seq<S>>::empty());
        SmoothingState {
            prefill_frames,
            hangover_frames,
            onset_frames,
            frame_buffer: VecDeque::new(),
            in_speech: false,
            onset_counter: 0,
            hangover_counter: 0,
            frames_since_reset: 0,
        }
    }

    fn count(&mut self)
        ensures
            final(self).view() == count_frame(old(self).view()),
    {
        proof { use_type_invariant(&*self); }
        if self.frames_since_reset < usize::MAX {
            self.frames_since_reset = self.frames_since_reset + 1;
        }
    }

    fn clear(&mut self)
        ensures
            final(self).view() == fresh_smoothing::<S>(old(self).view().prefill, old(self).view().hangover, old(self).view().onset),
    {
        proof { use_type_invariant(&*self); }
        *self = SmoothingState::new(self.prefill_frames, self.hangover_frames, self.onset_frames);
    }

    fn decide(&mut self, frame: &[S], voice: bool, Ghost(pre): Ghost<SmoothingView<S>>) -> (out: VadFrame<S>)
        requires
            smoothing_wf(pre),
            old(self).view() == count_frame(pre),
        ensures
            (final(self).view(), vad_frame_view(out)) == decide(old(self).view(), frame@, voice),
    {
        proof { use_type_invariant(&*self); }
        let ghost st = self.view();
        let mut buf: VecDeque<Vec<S>> = VecDeque::new();
        std::mem::swap(&mut buf, &mut self.frame_buffer);
        let prefill_frames = self.prefill_frames;
        let hangover_frames = self.hangover_frames;
        let onset_frames = self.onset_frames;
        let frames_since_reset = self.frames_since_reset;
        let mut in_speech = self.in_speech;
        let mut onset_counter = self.onset_counter;
        let mut hangover_counter = self.hangover_counter;
        let out;
        if frames_since_reset <= prefill_frames {
            queue_push(&mut buf, frame);
            out = VadFrame::Noise;
        } else if !in_speech {
            if voice {
                onset_counter = onset_counter + 1;
                queue_push(&mut buf, frame);
                if onset_counter >= onset_frames {
                    in_speech = true;
                    hangover_counter = 0;
                    let speech = queue_drain(&mut buf);
                    out = VadFrame::Speech(speech);
                } else {
                    out = VadFrame::Noise;
                }
            } else {
                onset_counter = 0;
                queue_trim(&mut buf, prefill_frames);
                queue_push(&mut buf, frame);
                out = VadFrame::Noise;
            }
        } else if voice {
            hangover_counter = 0;
            out = VadFrame::Speech(frame_to_vec(frame));
        } else {
            hangover_counter = hangover_counter + 1;
            if hangover_counter >= hangover_frames {
                in_speech = false;
                onset_counter = 0;
                buf.clear();
                out = VadFrame::Noise;
            } else {
                out = VadFrame::Speech(frame_to_vec(frame));
            }
        }
        proof {
            if buf@.len() == 0 {
                assert(frame_views(buf@) =~= Seq::<Seq<S>>::empty());
            }
            let next = SmoothingView {
                prefill: prefill_frames as nat,
                hangover: hangover_frames as nat,
                onset: onset_frames as nat,
                buffer: frame_views(buf@),
                in_speech,
                onset_count: onset_counter as nat,
                hangover_count: hangover_counter as nat,
                frames_since_reset: frames_since_reset as nat,
            };
            assert((next, vad_frame_view(out)) == decide(st, frame@, voice));
            law_smoothing_keeps_invariant(pre, frame@, voice);
            assert(smoothing_wf(next));
        }
        *self = SmoothingState {
            prefill_frames,
            hangover_frames,
            onset_frames,
            frame_buffer: buf,
            in_speech,
            onset_counter,
            hangover_counter,
            frames_since_reset,
        };
        out
    }
}

/// A copy of `frame`.
fn frame_to_vec<S: Copy>(frame: &[S]) -> (r: Vec<S>)
    ensures
        r@ == frame@,
{
    let mut r: Vec<S> = Vec::new();
    let mut i: usize = 0;
    while i < frame.len()
        invariant
            i <= frame@.len(),
            r@ == frame@.subrange(0, i as int),
        decreases frame@.len() - i,
    {
        r.push(frame[i]);
        i = i + 1;
        assert(r@ =~= frame@.subrange(0, i as int));
    }
    assert(r@ =~= frame@);
    r
}

/// Smooths the decisions of an inner detector: holds back a pre-roll of
/// frames after a reset, starts speech only after `onset_frames` voice
/// frames in a row (passing the held-back frames on with it), and ends it
/// only after `hangover_frames` non-voice frames.
pub struct SmoothedVad<S, D> {
    inner: D,
    state: SmoothingState<S>,
}

impl<S, D> SmoothedVad<S, D> {
    /// The smoothing state.
    pub closed spec fn smoothing(&self) -> SmoothingView<S> {
        self.state.view()
    }

    /// The inner detector.
    pub closed spec fn detector(&self) -> D {
        self.inner
    }

    /// The invariant of the smoothing, which every [`SmoothedVad`] keeps.
    pub open spec fn wf(&self) -> bool {
        smoothing_wf(self.smoothing())
    }
}

impl<S: Copy, D: VoiceActivityDetector<S>> SmoothedVad<S, D> {
    /// Wraps `inner`.  A pre-roll of at least one frame is needed: with none,
    /// holding back "fewer than zero" frames on a non-voice frame cannot end.
    pub fn new(inner: D, prefill_frames: usize, hangover_frames: usize, onset_frames: usize) -> (r: Self)
        requires
            0 < prefill_frames < usize::MAX,
        ensures
            r.smoothing() == fresh_smoothing::<S>(prefill_frames as nat, hangover_frames as nat, onset_frames as nat),
            r.detector() == inner,
            r.wf(),
    {
        let r = SmoothedVad { inner, state: SmoothingState::new(prefill_frames, hangover_frames, onset_frames) };
        proof { use_type_invariant(&r.state); }
        r
    }

    /// Passes `frame`, already judged `voice` by the inner detector, through
    /// the smoothing: exactly what [`SmoothedVad::push_frame`] does once the
    /// inner detector has answered.
    pub fn push_judged_frame(&mut self, frame: &[S], voice: bool) -> (out: VadFrame<S>)
        ensures
            (final(self).smoothing(), vad_frame_view(out)) == smoothing_step(old(self).smoothing(), frame@, voice),
            final(self).detector() == old(self).detector(),
            final(self).wf(),
    {
        proof { use_type_invariant(&self.state); }
        let ghost pre = self.smoothing();
        self.state.count();
        let out = self.state.decide(frame, voice, Ghost(pre));
        proof { use_type_invariant(&self.state); }
        out
    }
}

impl<S: Copy, D: VoiceActivityDetector<S>> VoiceActivityDetector<S> for SmoothedVad<S, D> {
    /// The inner detector's reset, with the smoothing back to its state right
    /// after construction.
    open spec fn resets(&self, after: &Self) -> bool {
        &&& self.detector().resets(&after.detector())
        &&& after.smoothing() == fresh_smoothing::<S>(self.smoothing().prefill, self.smoothing().hangover, self.smoothing().onset)
    }

    /// The inner detector's judgement, with the smoothing left as it is.
    open spec fn judges(&self, frame: Seq<S>, answer: Result<bool, VadError>, after: &Self) -> bool {
        &&& self.detector().judges(frame, answer, &after.detector())
        &&& after.smoothing() == self.smoothing()
    }

    /// Counts the frame, asks the inner detector, and smooths its answer; an
    /// error of the inner detector is passed on with the frame counted.
    fn push_frame(&mut self, frame: &[S]) -> (r: Result<VadFrame<S>, VadError>)
        ensures
            match r {
                Ok(out) => exists|voice: bool|
                    old(self).detector().judges(frame@, Ok(voice), &final(self).detector())
                    && (final(self).smoothing(), vad_frame_view(out)) == #[trigger] smoothing_step(old(self).smoothing(), frame@, voice),
                Err(e) => old(self).detector().judges(frame@, Err(e), &final(self).detector())
                    && final(self).smoothing() == count_frame(old(self).smoothing()),
            },
            final(self).wf(),
    {
        proof { use_type_invariant(&self.state); }
        let ghost pre = self.smoothing();
        self.state.count();
        let answer = self.inner.is_voice(frame);
        let voice = match answer {
            Ok(v) => v,
            Err(e) => {
                proof { use_type_invariant(&self.state); }
                return Err(e);
            },
        };
        let out = self.state.decide(frame, voice, Ghost(pre));
        proof { use_type_invariant(&self.state); }
        assert(old(self).detector().judges(frame@, Ok(voice), &self.detector()));
        assert((self.smoothing(), vad_frame_view(out)) == smoothing_step(old(self).smoothing(), frame@, voice));
        Ok(out)
    }

    /// Asks the inner detector; the smoothing state is left as it is.
    fn is_voice(&mut self, frame: &[S]) -> (r: Result<bool, VadError>)
        ensures
            old(self).detector().judges(frame@, r, &final(self).detector()),
            final(self).smoothing() == old(self).smoothing(),
    {
        self.inner.is_voice(frame)
    }

    /// Resets the inner detector and returns the smoothing to its state
    /// right after construction.
    fn reset(&mut self)
        ensures
            final(self).smoothing() == fresh_smoothing::<S>(
                old(self).smoothing().prefill,
                old(self).smoothing().hangover,
                old(self).smoothing().onset,
            ),
            old(self).detector().resets(&final(self).detector()),
            final(self).wf(),
    {
        self.inner.reset();
        self.state.clear();
        proof { use_type_invariant(&self.state); }
    }
}

} // verus!
