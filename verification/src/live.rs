use vstd::prelude::*;

use crate::framing::FRAME_SAMPLES;

verus! {

/// Audio gathered before a chunk is cut even without a pause (3 s at 16 kHz).
pub const LIVE_CHUNK_SAMPLES: usize = 48000;

/// Shorter chunks are not worth transcribing (1 s at 16 kHz).
pub const MIN_CHUNK_SAMPLES: usize = 16000;

/// Non-voice frames in a row that mark a pause in speech (3 s of 30 ms frames).
pub const SILENCE_FRAMES_FOR_BREAK: usize = 100;

/// How far around [`LIVE_CHUNK_SAMPLES`] a quiet place to cut is looked for
/// (100 ms at 16 kHz).
pub const SPLIT_SEARCH_RADIUS: usize = 1600;

/// First sample position considered for a cut.
pub const SPLIT_SEARCH_START: usize = LIVE_CHUNK_SAMPLES - SPLIT_SEARCH_RADIUS;

/// Bound of the search for a cut: every position considered is before it.
pub const SPLIT_SEARCH_END: usize = LIVE_CHUNK_SAMPLES + SPLIT_SEARCH_RADIUS;

/// A piece of captured audio handed on for transcription.
#[derive(Debug)]
pub struct LiveChunk<S> {
    pub samples: Vec<S>,
    /// Voice frames counted while the chunk was gathered.
    pub speech_frames: usize,
    /// Whether the chunk ends at a pause in speech (or at the end of input).
    pub is_break: bool,
}

/// What happened to the audio gathered so far after one more frame.
#[derive(Debug)]
pub enum LiveStep<S> {
    /// Keep gathering.
    Gathering,
    /// A pause ended a chunk long enough to transcribe.
    Chunk(LiveChunk<S>),
    /// A pause ended a chunk too short to transcribe; it was dropped.
    Dropped(Vec<S>),
    /// Enough audio was gathered: a place to cut must be picked among
    /// [`LiveChunker::split_windows`] and handed to [`LiveChunker::split_at`].
    SplitDue,
}

/// The gathering state as mathematical values.
pub ghost struct LiveView<S> {
    pub buffer: Seq<S>,
    pub speech: nat,
    pub silence: nat,
}

/// The outcome of one frame, as mathematical values.
pub ghost enum LiveOutcome<S> {
    Gathering,
    Chunk(Seq<S>, nat),
    Dropped(Seq<S>),
    SplitDue,
}

/// The counters after a frame judged `voice` (`None`: the detector failed).
pub open spec fn count_voice<S>(st: LiveView<S>, voice: Option<bool>) -> LiveView<S> {
    match voice {
        Some(true) => LiveView { silence: 0, speech: st.speech + 1, ..st },
        Some(false) => LiveView { silence: st.silence + 1, ..st },
        None => st,
    }
}

/// One frame of live capture: count it, gather it, then end the chunk at a
/// pause, or ask for a cut once enough audio is gathered.
pub open spec fn live_step<S>(st: LiveView<S>, frame: Seq<S>, voice: Option<bool>) -> (LiveView<S>, LiveOutcome<S>) {
    let c = count_voice(st, voice);
    let buffer = c.buffer + frame;
    if c.silence >= SILENCE_FRAMES_FOR_BREAK && buffer.len() > 0 {
        let next = LiveView { buffer: Seq::empty(), speech: 0, silence: 0 };
        if buffer.len() >= MIN_CHUNK_SAMPLES {
            (next, LiveOutcome::Chunk(buffer, c.speech))
        } else {
            (next, LiveOutcome::Dropped(buffer))
        }
    } else if buffer.len() >= LIVE_CHUNK_SAMPLES {
        (LiveView { buffer, ..c }, LiveOutcome::SplitDue)
    } else {
        (LiveView { buffer, ..c }, LiveOutcome::Gathering)
    }
}

/// The start of the `k`-th window searched for a quiet place to cut.
pub open spec fn window_start(k: int) -> int {
    SPLIT_SEARCH_START + k * FRAME_SAMPLES
}

/// The number of windows searched in a buffer of `len` samples.
pub open spec fn window_count(len: nat) -> nat {
    let end = if len < SPLIT_SEARCH_END { len } else { SPLIT_SEARCH_END as nat };
    if end <= SPLIT_SEARCH_START {
        0
    } else {
        ((end - SPLIT_SEARCH_START + FRAME_SAMPLES - 1) / (FRAME_SAMPLES as int)) as nat
    }
}

/// The end of the `k`-th window in a buffer of `len` samples.
pub open spec fn window_end(k: int, len: nat) -> int {
    if window_start(k) + FRAME_SAMPLES <= len {
        window_start(k) + FRAME_SAMPLES
    } else {
        len as int
    }
}

/// Gathers live audio, frame by frame, into chunks for transcription.
pub struct LiveChunker<S> {
    buffer: Vec<S>,
    speech_frames: usize,
    silence_frames: usize,
}

impl<S> LiveChunker<S> {
    pub closed spec fn view(&self) -> LiveView<S> {
        LiveView {
            buffer: self.buffer@,
            speech: self.speech_frames as nat,
            silence: self.silence_frames as nat,
        }
    }
}

/// The samples a step hands back, if any.
pub open spec fn outcome_samples<S>(o: LiveOutcome<S>) -> Seq<S> {
    match o {
        LiveOutcome::Chunk(samples, _) => samples,
        LiveOutcome::Dropped(samples) => samples,
        _ => Seq::empty(),
    }
}

/// No sample is lost or repeated by a frame of live capture: what the step
/// hands back, followed by what is still gathered, is what was gathered
/// before followed by the frame.
pub proof fn law_live_step_keeps_every_sample<S>(st: LiveView<S>, frame: Seq<S>, voice: Option<bool>)
    ensures
        outcome_samples(live_step(st, frame, voice).1) + live_step(st, frame, voice).0.buffer == st.buffer + frame,
{
    let (next, out) = live_step(st, frame, voice);
    match out {
        LiveOutcome::Chunk(s, _) => assert(s + next.buffer =~= st.buffer + frame),
        LiveOutcome::Dropped(s) => assert(s + next.buffer =~= st.buffer + frame),
        _ => assert(outcome_samples(out) + next.buffer =~= st.buffer + frame),
    }
}

/// Frames `frames`, judged `voices`, one after the other through live
/// chunking from `st`: the state reached and the outcome of each frame.
pub open spec fn live_run<S>(st: LiveView<S>, frames: Seq<Seq<S>>, voices: Seq<Option<bool>>) -> (LiveView<S>, Seq<LiveOutcome<S>>)
    decreases frames.len(),
{
    if frames.len() == 0 {
        (st, Seq::empty())
    } else {
        let (mid, outs) = live_run(st, frames.drop_last(), voices);
        let (next, out) = live_step(mid, frames.last(), voices[frames.len() - 1]);
        (next, outs.push(out))
    }
}

/// One voice answer followed by `n` non-voice answers.
pub open spec fn pause_after_voice(n: nat) -> Seq<Option<bool>> {
    seq![Some(true)] + Seq::new(n, |i: int| Some(false))
}

proof fn lemma_live_run_prefix<S>(st: LiveView<S>, frames: Seq<Seq<S>>, v1: Seq<Option<bool>>, v2: Seq<Option<bool>>)
    requires
        frames.len() <= v1.len(),
        frames.len() <= v2.len(),
        forall|i: int| 0 <= i < frames.len() ==> v1[i] == v2[i],
    ensures
        live_run(st, frames, v1) == live_run(st, frames, v2),
        live_run(st, frames, v1).1.len() == frames.len(),
    decreases frames.len(),
{
    if frames.len() > 0 {
        lemma_live_run_prefix(st, frames.drop_last(), v1, v2);
    }
}

/// A frame judged voice starts the count of non-voice frames over: a chunk
/// ends at a pause only after [`SILENCE_FRAMES_FOR_BREAK`] non-voice frames
/// in a row since the last voice frame.  Whatever was gathered before, a
/// voice frame followed by fewer non-voice frames than that never ends a
/// chunk, and the count of non-voice frames is then the number that
/// followed the voice frame.
pub proof fn law_voice_restarts_pause<S>(st: LiveView<S>, frames: Seq<Seq<S>>, n: nat)
    requires
        n < SILENCE_FRAMES_FOR_BREAK,
        frames.len() == n + 1,
    ensures
        forall|i: int| 0 <= i < frames.len() ==> {
            let o = #[trigger] live_run(st, frames, pause_after_voice(n)).1[i];
            !(o is Chunk) && !(o is Dropped)
        },
        live_run(st, frames, pause_after_voice(n)).0.silence == n,
    decreases n,
{
    let v = pause_after_voice(n);
    assert(v.len() == n + 1);
    assert(v[0] == Some(true));
    assert(forall|i: int| 1 <= i <= n ==> v[i] == Some(false));
    lemma_live_run_prefix(st, frames, v, v);
    let pre = frames.drop_last();
    if n == 0 {
        assert(pre.len() == 0);
        let step = live_step(st, frames.last(), Some(true));
        assert(live_run(st, pre, v) == (st, Seq::<LiveOutcome<S>>::empty()));
        assert(live_run(st, frames, v) == (step.0, Seq::<LiveOutcome<S>>::empty().push(step.1)));
    } else {
        let m = (n - 1) as nat;
        let w = pause_after_voice(m);
        assert(w.len() == m + 1);
        assert(w[0] == Some(true));
        assert(forall|i: int| 1 <= i <= m ==> w[i] == Some(false));
        law_voice_restarts_pause(st, pre, m);
        lemma_live_run_prefix(st, pre, v, w);
        let (mid, outs) = live_run(st, pre, v);
        assert(v[n as int] == Some(false));
        let step = live_step(mid, frames.last(), Some(false));
        assert(live_run(st, frames, v) == (step.0, outs.push(step.1)));
        assert forall|i: int| 0 <= i < frames.len() implies {
            let o = #[trigger] live_run(st, frames, v).1[i];
            !(o is Chunk) && !(o is Dropped)
        } by {
            if i < pre.len() {
                let o = live_run(st, pre, w).1[i];
                assert(!(o is Chunk) && !(o is Dropped));
            }
        }
    }
}

/// A chunk ends at a pause only once [`SILENCE_FRAMES_FOR_BREAK`] frames
/// in a row were judged not to be voice: never on a voice frame, and the
/// count of non-voice frames, this one included, has reached the pause.
pub proof fn law_break_only_after_pause<S>(st: LiveView<S>, frame: Seq<S>, voice: Option<bool>)
    ensures
        (live_step(st, frame, voice).1 is Chunk || live_step(st, frame, voice).1 is Dropped) ==> {
            &&& voice != Some(true)
            &&& st.silence + (if voice == Some(false) { 1int } else { 0int }) >= SILENCE_FRAMES_FOR_BREAK
        },
        live_step(st, frame, voice).1 is Chunk ==> outcome_samples(live_step(st, frame, voice).1).len() >= MIN_CHUNK_SAMPLES,
{
}

/// Every cut falls within [`SPLIT_SEARCH_RADIUS`] of [`LIVE_CHUNK_SAMPLES`],
/// inside the gathered audio: a chunk cut for length is about three seconds.
pub proof fn law_cut_near_chunk_length(k: int, len: nat)
    requires
        0 <= k < window_count(len),
    ensures
        SPLIT_SEARCH_START <= window_start(k) < SPLIT_SEARCH_END,
        window_start(k) < len,
{
    let end: int = if len < SPLIT_SEARCH_END { len as int } else { SPLIT_SEARCH_END as int };
    let d = end - SPLIT_SEARCH_START;
    assert(d > 0);
    assert(k * 480 < d) by (nonlinear_arith)
        requires
            0 <= k,
            k < (d + 479) / 480,
            d > 0;
}

/// The views of a step's result.
pub open spec fn live_outcome_view<S>(s: LiveStep<S>) -> LiveOutcome<S> {
    match s {
        LiveStep::Gathering => LiveOutcome::Gathering,
        LiveStep::Chunk(c) => LiveOutcome::Chunk(c.samples@, c.speech_frames as nat),
        LiveStep::Dropped(v) => LiveOutcome::Dropped(v@),
        LiveStep::SplitDue => LiveOutcome::SplitDue,
    }
}

impl<S: Copy> LiveChunker<S> {
    /// Nothing gathered yet.
    pub fn new() -> (r: Self)
        ensures
            r.view() == (LiveView::<S> { buffer: Seq::empty(), speech: 0, silence: 0 }),
    {
        LiveChunker { buffer: Vec::new(), speech_frames: 0, silence_frames: 0 }
    }

    /// The audio gathered so far.
    pub fn buffer(&self) -> (r: &Vec<S>)
        ensures
            r@ == self.view().buffer,
    {
        &self.buffer
    }

    /// Non-voice frames counted in a row.
    pub fn silence_frames(&self) -> (r: usize)
        ensures
            r == self.view().silence,
    {
        self.silence_frames
    }

    /// Voice frames counted since the last chunk.
    pub fn speech_frames(&self) -> (r: usize)
        ensures
            r == self.view().speech,
    {
        self.speech_frames
    }

    fn gather(&mut self, frame: &[S])
        ensures
            final(self).view() == (LiveView { buffer: old(self).view().buffer + frame@, ..old(self).view() }),
    {
        let ghost start = self.buffer@;
        let mut i: usize = 0;
        while i < frame.len()
            invariant
                i <= frame@.len(),
                self.buffer@ == start + frame@.subrange(0, i as int),
                self.speech_frames == old(self).speech_frames,
                self.silence_frames == old(self).silence_frames,
            decreases frame@.len() - i,
        {
            self.buffer.push(frame[i]);
            i = i + 1;
            assert(self.buffer@ =~= start + frame@.subrange(0, i as int));
        }
        assert(frame@.subrange(0, frame@.len() as int) =~= frame@);
    }

    /// One frame during capture, judged `voice` by the detector (`None` when
    /// the detector failed on it).  Every sample gathered is either still
    /// held, or handed back in the result, in order.
    pub fn on_frame(&mut self, frame: &[S], voice: Option<bool>) -> (r: LiveStep<S>)
        requires
            old(self).view().speech < usize::MAX,
            old(self).view().silence < usize::MAX,
        ensures
            (final(self).view(), live_outcome_view(r)) == live_step(old(self).view(), frame@, voice),
            r matches LiveStep::Chunk(c) ==> c.is_break && c.samples@.len() >= MIN_CHUNK_SAMPLES,
    {
        match voice {
            Some(true) => {
                self.silence_frames = 0;
                self.speech_frames = self.speech_frames + 1;
            },
            Some(false) => {
                self.silence_frames = self.silence_frames + 1;
            },
            None => {},
        }
        self.gather(frame);
        if self.silence_frames >= SILENCE_FRAMES_FOR_BREAK && self.buffer.len() > 0 {
            let speech = self.speech_frames;
            let mut samples: Vec<S> = Vec::new();
            std::mem::swap(&mut self.buffer, &mut samples);
            self.speech_frames = 0;
            self.silence_frames = 0;
            assert(self.buffer@ =~= Seq::<S>::empty());
            if samples.len() >= MIN_CHUNK_SAMPLES {
                return LiveStep::Chunk(LiveChunk { samples, speech_frames: speech, is_break: true });
            } else {
                return LiveStep::Dropped(samples);
            }
        }
        if self.buffer.len() >= LIVE_CHUNK_SAMPLES {
            LiveStep::SplitDue
        } else {
            LiveStep::Gathering
        }
    }

    /// The windows `(start, end)` searched for a quiet place to cut, in
    /// order: every [`FRAME_SAMPLES`] from [`SPLIT_SEARCH_START`], within the
    /// gathered audio and before [`SPLIT_SEARCH_END`].
    pub fn split_windows(&self) -> (w: Vec<(usize, usize)>)
        ensures
            w@.len() == window_count(self.view().buffer.len()),
            forall|k: int| 0 <= k < w@.len() ==> #[trigger] w@[k] == (window_start(k) as usize, window_end(k, self.view().buffer.len()) as usize),
    {
        let len = self.buffer.len();
        let end = if len < SPLIT_SEARCH_END { len } else { SPLIT_SEARCH_END };
        let mut w: Vec<(usize, usize)> = Vec::new();
        let mut i: usize = SPLIT_SEARCH_START;
        while i < end
            invariant
                end == (if len < SPLIT_SEARCH_END { len } else { SPLIT_SEARCH_END }),
                len == self.view().buffer.len(),
                SPLIT_SEARCH_START <= i,
                i == SPLIT_SEARCH_START || i < end + FRAME_SAMPLES,
                i == window_start(w@.len() as int),
                i < end ==> w@.len() < window_count(len as nat),
                i >= end ==> w@.len() == window_count(len as nat),
                forall|k: int| 0 <= k < w@.len() ==> #[trigger] w@[k] == (window_start(k) as usize, window_end(k, len as nat) as usize),
            decreases end + FRAME_SAMPLES + SPLIT_SEARCH_START - i,
        {
            let stop = if i + FRAME_SAMPLES <= len { i + FRAME_SAMPLES } else { len };
            w.push((i, stop));
            i = i + FRAME_SAMPLES;
        }
        w
    }

    /// Cuts the gathered audio at the start of the `k`-th search window.
    /// The audio before the cut is handed on unless it is too short to
    /// transcribe, in which case it is dropped; the voice frame count starts
    /// over either way.
    pub fn split_at(&mut self, k: usize) -> (r: Option<LiveChunk<S>>)
        requires
            k < window_count(old(self).view().buffer.len()),
        ensures
            ({
                let pos = window_start(k as int);
                let old_buf = old(self).view().buffer;
                &&& final(self).view() == (LiveView { buffer: old_buf.subrange(pos, old_buf.len() as int), speech: 0, ..old(self).view() })
                &&& SPLIT_SEARCH_START <= pos < SPLIT_SEARCH_END
                &&& match r {
                    Some(c) => pos >= MIN_CHUNK_SAMPLES && c.samples@ == old_buf.subrange(0, pos)
                        && c.speech_frames == old(self).view().speech && !c.is_break,
                    None => pos < MIN_CHUNK_SAMPLES,
                }
            }),
    {
        proof { law_cut_near_chunk_length(k as int, self.buffer@.len()); }
        let pos = SPLIT_SEARCH_START + k * FRAME_SAMPLES;
        let len = self.buffer.len();
        let mut head: Vec<S> = Vec::new();
        let mut rest: Vec<S> = Vec::new();
        let mut i: usize = 0;
        while i < len
            invariant
                pos <= len == self.buffer@.len(),
                i <= len,
                head@ == self.buffer@.subrange(0, if i < pos { i as int } else { pos as int }),
                rest@ == self.buffer@.subrange(pos as int, if i < pos { pos as int } else { i as int }),
            decreases len - i,
        {
            if i < pos {
                head.push(self.buffer[i]);
            } else {
                rest.push(self.buffer[i]);
            }
            i = i + 1;
            assert(head@ =~= self.buffer@.subrange(0, if i < pos { i as int } else { pos as int }));
            assert(rest@ =~= self.buffer@.subrange(pos as int, if i < pos { pos as int } else { i as int }));
        }
        let speech = self.speech_frames;
        self.buffer = rest;
        self.speech_frames = 0;
        if head.len() >= MIN_CHUNK_SAMPLES {
            Some(LiveChunk { samples: head, speech_frames: speech, is_break: false })
        } else {
            None
        }
    }

    /// A frame from the end of input: counted as voice or not and gathered,
    /// without looking for a pause or a cut.
    pub fn on_final_frame(&mut self, frame: &[S], voice: Option<bool>)
        requires
            old(self).view().speech < usize::MAX,
        ensures
            final(self).view() == (LiveView {
                buffer: old(self).view().buffer + frame@,
                speech: if voice == Some(true) { old(self).view().speech + 1 } else { old(self).view().speech },
                ..old(self).view()
            }),
    {
        if voice == Some(true) {
            self.speech_frames = self.speech_frames + 1;
        }
        self.gather(frame);
    }

    /// The end of input: what is left is handed on as a last chunk if it is
    /// long enough to transcribe.
    pub fn finish(self) -> (r: Option<LiveChunk<S>>)
        ensures
            match r {
                Some(c) => self.view().buffer.len() >= MIN_CHUNK_SAMPLES && c.samples@ == self.view().buffer
                    && c.speech_frames == self.view().speech && c.is_break,
                None => self.view().buffer.len() < MIN_CHUNK_SAMPLES,
            },
    {
        if self.buffer.len() > 0 && self.buffer.len() >= MIN_CHUNK_SAMPLES {
            Some(LiveChunk { samples: self.buffer, speech_frames: self.speech_frames, is_break: true })
        } else {
            None
        }
    }
}

} // verus!
