use vstd::prelude::*;

verus! {

/// Sample rate, in Hz, of every frame handed to voice-activity detection.
pub const OUTPUT_RATE: usize = 16000;

/// Number of samples in one detection frame (30 ms at 16 kHz).
pub const FRAME_SAMPLES: usize = 480;

/// Concatenation of a sequence of sample runs.
pub open spec fn flatten<S>(runs: Seq<Seq<S>>) -> Seq<S>
    decreases runs.len(),
{
    if runs.len() == 0 {
        Seq::empty()
    } else {
        flatten(runs.drop_last()) + runs.last()
    }
}

/// The views of a vector of sample vectors.
pub open spec fn runs_view<S>(v: Seq<Vec<S>>) -> Seq<Seq<S>> {
    v.map_values(|f: Vec<S>| f@)
}

/// `n` copies of `x`.
pub open spec fn repeat<S>(x: S, n: nat) -> Seq<S> {
    Seq::new(n, |i: int| x)
}

/// The `i`-th run of `len` samples of `s`.
pub open spec fn run_at<S>(s: Seq<S>, len: nat, i: int) -> Seq<S> {
    s.subrange(i * len, i * len + len)
}

/// The complete frames of `all`, in order.
pub open spec fn frames_of<S>(all: Seq<S>) -> Seq<Seq<S>> {
    Seq::new(all.len() / (FRAME_SAMPLES as nat), |i: int| run_at(all, FRAME_SAMPLES as nat, i))
}

/// The samples of `all` after its complete frames.
pub open spec fn rest_of<S>(all: Seq<S>) -> Seq<S> {
    all.subrange((all.len() / (FRAME_SAMPLES as nat)) * FRAME_SAMPLES, all.len() as int)
}

/// `all` followed by `silence` up to a whole number of frames.
pub open spec fn padded<S>(all: Seq<S>, silence: S) -> Seq<S> {
    let rest = all.len() % (FRAME_SAMPLES as nat);
    all + repeat(silence, if rest == 0 { 0 } else { (FRAME_SAMPLES - rest) as nat })
}

pub proof fn lemma_flatten_push<S>(runs: Seq<Seq<S>>, r: Seq<S>)
    ensures
        flatten(runs.push(r)) == flatten(runs) + r,
{
    assert(runs.push(r).drop_last() =~= runs);
}

/// Whether input captured at `input_rate` Hz must be resampled before
/// framing; input already at the output rate is passed through unchanged.
pub fn needs_resampling(input_rate: usize) -> (r: bool)
    ensures
        r == (input_rate != OUTPUT_RATE),
{
    input_rate != OUTPUT_RATE
}

/// Appends a copy of every sample of `src` to `dst`.
pub(crate) fn append_samples<S: Copy>(dst: &mut Vec<S>, src: &[S])
    ensures
        final(dst)@ == old(dst)@ + src@,
{
    let ghost start = dst@;
    let mut i: usize = 0;
    while i < src.len()
        invariant
            i <= src@.len(),
            dst@ == start + src@.subrange(0, i as int),
        decreases src@.len() - i,
    {
        dst.push(src[i]);
        i = i + 1;
        assert(dst@ =~= start + src@.subrange(0, i as int));
    }
    assert(src@.subrange(0, src@.len() as int) =~= src@);
}

/// The samples `s[from..to]` as a new vector.
fn copy_range<S: Copy>(s: &Vec<S>, from: usize, to: usize) -> (r: Vec<S>)
    requires
        from <= to <= s@.len(),
    ensures
        r@ == s@.subrange(from as int, to as int),
{
    let mut r: Vec<S> = Vec::new();
    let mut i: usize = from;
    while i < to
        invariant
            from <= i <= to <= s@.len(),
            r@ == s@.subrange(from as int, i as int),
        decreases to - i,
    {
        r.push(s[i]);
        i = i + 1;
        assert(r@ =~= s@.subrange(from as int, i as int));
    }
    r
}

/// Cuts `all` into consecutive runs of `len` samples, as long as a whole
/// run remains; returns the runs and the position of the unused rest.
fn cut_runs<S: Copy>(all: &Vec<S>, len: usize) -> (r: (Vec<Vec<S>>, usize))
    requires
        len > 0,
    ensures
        r.1 == (all@.len() / (len as nat)) * len,
        r.1 <= all@.len(),
        all@.len() - r.1 < len,
        r.0@.len() == all@.len() / (len as nat),
        forall|i: int| 0 <= i < r.0@.len() ==> #[trigger] r.0@[i]@ == run_at(all@, len as nat, i),
        forall|i: int| 0 <= i < r.0@.len() ==> #[trigger] r.0@[i]@.len() == len,
        flatten(runs_view(r.0@)) == all@.subrange(0, r.1 as int),
{
    let mut runs: Vec<Vec<S>> = Vec::new();
    let mut pos: usize = 0;
    assert(runs@.len() * len == 0) by (nonlinear_arith)
        requires runs@.len() == 0;
    assert(flatten(runs_view(runs@)) =~= all@.subrange(0, 0));
    while all.len() - pos >= len
        invariant
            len > 0,
            pos <= all@.len(),
            pos == runs@.len() * len,
            forall|i: int| 0 <= i < runs@.len() ==> #[trigger] runs@[i]@ == run_at(all@, len as nat, i),
            forall|i: int| 0 <= i < runs@.len() ==> #[trigger] runs@[i]@.len() == len,
            flatten(runs_view(runs@)) == all@.subrange(0, pos as int),
        decreases all@.len() - pos,
    {
        let run = copy_range(all, pos, pos + len);
        let ghost old_runs = runs@;
        runs.push(run);
        proof {
            let k = old_runs.len();
            assert((k + 1) * len == k * len + len) by (nonlinear_arith);
            assert(runs_view(runs@) =~= runs_view(old_runs).push(run@));
            lemma_flatten_push(runs_view(old_runs), run@);
            assert(all@.subrange(0, pos as int) + all@.subrange(pos as int, pos + len)
                =~= all@.subrange(0, pos + len));
        }
        pos = pos + len;
    }
    proof {
        let n = all@.len();
        let k = runs@.len();
        assert(n - pos < len);
        assert(pos == k * len);
        vstd::arithmetic::div_mod::lemma_fundamental_div_mod_converse(
            n as int, len as int, k as int, (n - pos) as int);
    }
    (runs, pos)
}

/// Regroups a stream of samples into frames of exactly [`FRAME_SAMPLES`]
/// samples, keeping the incomplete rest until more samples arrive.
pub struct FrameBuffer<S> {
    pending: Vec<S>,
}

impl<S: Copy> FrameBuffer<S> {
    /// The samples received but not yet handed out in a frame.
    pub closed spec fn pending_view(&self) -> Seq<S> {
        self.pending@
    }

    /// Fewer than a whole frame is ever held back.
    pub open spec fn wf(&self) -> bool {
        self.pending_view().len() < FRAME_SAMPLES
    }

    /// An empty frame buffer.
    pub fn new() -> (r: Self)
        ensures
            r.pending_view() == Seq::<S>::empty(),
            r.wf(),
    {
        FrameBuffer { pending: Vec::new() }
    }

    /// Number of samples held back.
    pub fn pending_len(&self) -> (r: usize)
        ensures
            r == self.pending_view().len(),
    {
        self.pending.len()
    }

    /// Takes `samples` in and hands out every complete frame, oldest first.
    pub fn push(&mut self, samples: &[S]) -> (frames: Vec<Vec<S>>)
        ensures
            ({
                let all = old(self).pending_view() + samples@;
                &&& runs_view(frames@) == frames_of(all)
                &&& final(self).pending_view() == rest_of(all)
                &&& flatten(runs_view(frames@)) + final(self).pending_view() == all
            }),
            final(self).wf(),
    {
        let mut all: Vec<S> = Vec::new();
        append_samples(&mut all, self.pending.as_slice());
        append_samples(&mut all, samples);
        let (frames, used) = cut_runs(&all, FRAME_SAMPLES);
        self.pending = copy_range(&all, used, all.len());
        proof {
            assert(all@.subrange(0, used as int) + all@.subrange(used as int, all@.len() as int) =~= all@);
            assert(runs_view(frames@) =~= frames_of(all@));
        }
        frames
    }

    /// Takes the last samples `tail` in and hands out every remaining
    /// sample: the complete frames, then, if samples are left over, one
    /// last frame filled up to [`FRAME_SAMPLES`] with `silence`.  Nothing is
    /// held back afterwards.
    pub fn finish(&mut self, tail: &[S], silence: S) -> (frames: Vec<Vec<S>>)
        ensures
            ({
                let all = old(self).pending_view() + tail@;
                let k = all.len() / (FRAME_SAMPLES as nat);
                let rest = all.len() % (FRAME_SAMPLES as nat);
                &&& frames@.len() == if rest == 0 { k } else { k + 1 }
                &&& forall|i: int| 0 <= i < frames@.len() ==> #[trigger] frames@[i]@.len() == FRAME_SAMPLES
                &&& flatten(runs_view(frames@)) == padded(all, silence)
                &&& forall|i: int| 0 <= i < k ==> #[trigger] frames@[i]@ == run_at(all, FRAME_SAMPLES as nat, i)
            }),
            final(self).pending_view() == Seq::<S>::empty(),
            final(self).wf(),
    {
        let mut frames = self.push(tail);
        let ghost all = old(self).pending_view() + tail@;
        let ghost full = frames@;
        if self.pending.len() > 0 {
            let mut last: Vec<S> = Vec::new();
            append_samples(&mut last, self.pending.as_slice());
            let ghost rest = last@;
            while last.len() < FRAME_SAMPLES
                invariant
                    rest.len() <= last@.len() <= FRAME_SAMPLES,
                    last@ == rest + repeat(silence, (last@.len() - rest.len()) as nat),
                decreases FRAME_SAMPLES - last@.len(),
            {
                last.push(silence);
                assert(last@ =~= rest + repeat(silence, (last@.len() - rest.len()) as nat));
            }
            frames.push(last);
            proof {
                assert(runs_view(frames@) =~= runs_view(full).push(last@));
                lemma_flatten_push(runs_view(full), last@);
            }
        }
        self.pending = Vec::new();
        proof {
            let k = all.len() / (FRAME_SAMPLES as nat);
            vstd::arithmetic::div_mod::lemma_fundamental_div_mod(all.len() as int, FRAME_SAMPLES as int);
            assert forall|i: int| 0 <= i < k implies #[trigger] frames@[i]@ == run_at(all, FRAME_SAMPLES as nat, i) by {
                assert(frames@[i] == full[i]);
                assert(runs_view(full)[i] == full[i]@);
            }
            assert forall|i: int| 0 <= i < frames@.len() implies #[trigger] frames@[i]@.len() == FRAME_SAMPLES by {
                if i < full.len() {
                    assert(frames@[i]@ == run_at(all, FRAME_SAMPLES as nat, i));
                    assert(i * 480 + 480 <= k * 480) by (nonlinear_arith)
                        requires i + 1 <= k;
                }
            }
            if all.len() % (FRAME_SAMPLES as nat) == 0 {
                assert(repeat(silence, 0) =~= Seq::<S>::empty());
                assert(all + repeat(silence, 0) =~= all);
            }
        }
        frames
    }
}

/// Cuts `src` into consecutive chunks of exactly `needed` samples, the last
/// one filled up with `silence` when `src` does not divide evenly; this is
/// how input is fed to a resampler that consumes fixed-size blocks.
pub fn input_chunks<S: Copy>(src: &[S], needed: usize, silence: S) -> (chunks: Vec<Vec<S>>)
    requires
        needed > 0,
    ensures
        ({
            let k = src@.len() / (needed as nat);
            let rest = src@.len() % (needed as nat);
            &&& chunks@.len() == if rest == 0 { k } else { k + 1 }
            &&& forall|i: int| 0 <= i < chunks@.len() ==> #[trigger] chunks@[i]@.len() == needed
            &&& flatten(runs_view(chunks@)) == src@ + repeat(silence, if rest == 0 { 0 } else { (needed - rest) as nat })
        }),
{
    let mut all: Vec<S> = Vec::new();
    append_samples(&mut all, src);
    let (mut chunks, used) = cut_runs(&all, needed);
    let ghost full = chunks@;
    if used < all.len() {
        let mut last = copy_range(&all, used, all.len());
        let ghost rest = last@;
        while last.len() < needed
            invariant
                rest.len() <= last@.len() <= needed,
                last@ == rest + repeat(silence, (last@.len() - rest.len()) as nat),
            decreases needed - last@.len(),
        {
            last.push(silence);
            assert(last@ =~= rest + repeat(silence, (last@.len() - rest.len()) as nat));
        }
        chunks.push(last);
        proof {
            assert(runs_view(chunks@) =~= runs_view(full).push(last@));
            lemma_flatten_push(runs_view(full), last@);
            assert(all@.subrange(0, used as int) + rest =~= all@);
        }
    }
    proof {
        vstd::arithmetic::div_mod::lemma_fundamental_div_mod(src@.len() as int, needed as int);
        assert forall|i: int| 0 <= i < chunks@.len() implies #[trigger] chunks@[i]@.len() == needed by {
            if i < full.len() {
                assert(chunks@[i] == full[i]);
            }
        }
        if src@.len() % (needed as nat) == 0 {
            assert(all@.subrange(0, used as int) =~= all@);
            assert(src@ + repeat(silence, 0) =~= src@);
        }
    }
    chunks
}

/// How a stream is split between calls of [`FrameBuffer::push`] does not
/// change the frames: pushing `a` and then `b` hands out the frames, and
/// holds back the rest, that pushing `a + b` at once does.
pub proof fn law_frames_independent_of_split<S>(pending: Seq<S>, a: Seq<S>, b: Seq<S>)
    ensures
        frames_of(pending + a) + frames_of(rest_of(pending + a) + b) == frames_of(pending + a + b),
        rest_of(rest_of(pending + a) + b) == rest_of(pending + a + b),
{
    let l = FRAME_SAMPLES as int;
    let x = pending + a;
    let xb = pending + a + b;
    let n1 = x.len() / (FRAME_SAMPLES as nat);
    let y = rest_of(x) + b;
    let q2 = y.len() / (FRAME_SAMPLES as nat);
    let r2 = y.len() % (FRAME_SAMPLES as nat);
    vstd::arithmetic::div_mod::lemma_fundamental_div_mod(x.len() as int, l);
    vstd::arithmetic::div_mod::lemma_fundamental_div_mod(y.len() as int, l);
    assert(n1 * l <= x.len());
    assert(y =~= xb.subrange(n1 * l, xb.len() as int));
    assert((n1 + q2) * l == n1 * l + q2 * l) by (nonlinear_arith);
    vstd::arithmetic::div_mod::lemma_fundamental_div_mod_converse(xb.len() as int, l, (n1 + q2) as int, r2 as int);
    let lhs = frames_of(x) + frames_of(y);
    let rhs = frames_of(xb);
    assert forall|i: int| 0 <= i < rhs.len() implies #[trigger] lhs[i] == rhs[i] by {
        if i < n1 {
            assert((i + 1) * l <= n1 * l) by (nonlinear_arith)
                requires i + 1 <= n1, l > 0;
            assert(i * l + l == (i + 1) * l) by (nonlinear_arith);
            assert(run_at(x, FRAME_SAMPLES as nat, i) =~= run_at(xb, FRAME_SAMPLES as nat, i));
        } else {
            assert((i - n1) * l + n1 * l == i * l) by (nonlinear_arith);
            assert(run_at(y, FRAME_SAMPLES as nat, i - n1) =~= run_at(xb, FRAME_SAMPLES as nat, i));
        }
    }
    assert(lhs =~= rhs);
    assert(rest_of(y) =~= rest_of(xb));
}

/// The frames handed out, and the samples held back, when `inputs` are
/// pushed one after the other into a frame buffer holding `pending`.
pub open spec fn push_run<S>(pending: Seq<S>, inputs: Seq<Seq<S>>) -> (Seq<Seq<S>>, Seq<S>)
    decreases inputs.len(),
{
    if inputs.len() == 0 {
        (Seq::empty(), pending)
    } else {
        let (frames, rest) = push_run(pending, inputs.drop_last());
        (frames + frames_of(rest + inputs.last()), rest_of(rest + inputs.last()))
    }
}

/// The complete frames of `s` joined are `s` up to its last complete frame.
pub proof fn lemma_frames_of_flatten<S>(s: Seq<S>, k: int)
    requires
        0 <= k <= s.len() / (FRAME_SAMPLES as nat),
    ensures
        flatten(frames_of(s).take(k)) == s.subrange(0, k * FRAME_SAMPLES),
    decreases k,
{
    let n = s.len() / (FRAME_SAMPLES as nat);
    vstd::arithmetic::div_mod::lemma_fundamental_div_mod(s.len() as int, FRAME_SAMPLES as int);
    if k == 0 {
        assert(frames_of(s).take(0) =~= Seq::<Seq<S>>::empty());
        assert(s.subrange(0, 0) =~= Seq::<S>::empty());
    } else {
        lemma_frames_of_flatten(s, k - 1);
        let f = frames_of(s)[k - 1];
        assert(frames_of(s).take(k) =~= frames_of(s).take(k - 1).push(f));
        lemma_flatten_push(frames_of(s).take(k - 1), f);
        assert((k - 1) * 480 + 480 == k * 480) by (nonlinear_arith);
        assert(k * 480 <= n * 480) by (nonlinear_arith)
            requires k <= n;
        assert(s.subrange(0, (k - 1) * 480) + s.subrange((k - 1) * 480, k * 480) =~= s.subrange(0, k * 480));
    }
}

/// Whatever the number of pushes and however the stream is split between
/// them, a frame buffer that starts empty hands out the stream cut into
/// consecutive frames of [`FRAME_SAMPLES`] samples, in order, with nothing
/// dropped, repeated or padded, and holds back the incomplete rest.
pub proof fn law_frames_of_any_run<S>(inputs: Seq<Seq<S>>)
    ensures
        push_run(Seq::<S>::empty(), inputs).0 == frames_of(flatten(inputs)),
        push_run(Seq::<S>::empty(), inputs).1 == rest_of(flatten(inputs)),
        flatten(push_run(Seq::<S>::empty(), inputs).0) == flatten(inputs).subrange(
            0,
            (flatten(inputs).len() / (FRAME_SAMPLES as nat)) * FRAME_SAMPLES,
        ),
        forall|i: int| 0 <= i < push_run(Seq::<S>::empty(), inputs).0.len()
            ==> (#[trigger] push_run(Seq::<S>::empty(), inputs).0[i]).len() == FRAME_SAMPLES,
{
    lemma_push_run(Seq::<S>::empty(), inputs);
    assert(Seq::<S>::empty() + flatten(inputs) =~= flatten(inputs));
    let all = flatten(inputs);
    let n = all.len() / (FRAME_SAMPLES as nat);
    lemma_frames_of_flatten(all, n as int);
    assert(frames_of(all).take(n as int) =~= frames_of(all));
    vstd::arithmetic::div_mod::lemma_fundamental_div_mod(all.len() as int, FRAME_SAMPLES as int);
    assert forall|i: int| 0 <= i < frames_of(all).len() implies (#[trigger] frames_of(all)[i]).len() == FRAME_SAMPLES by {
        assert(i * 480 + 480 <= n * 480) by (nonlinear_arith)
            requires i + 1 <= n;
    }
}

/// Pushing `inputs` one after the other into a frame buffer holding
/// `pending` hands out what pushing them all at once does.
pub proof fn lemma_push_run<S>(pending: Seq<S>, inputs: Seq<Seq<S>>)
    requires
        pending.len() < FRAME_SAMPLES,
    ensures
        push_run(pending, inputs) == (frames_of(pending + flatten(inputs)), rest_of(pending + flatten(inputs))),
    decreases inputs.len(),
{
    if inputs.len() == 0 {
        assert(pending + flatten(inputs) =~= pending);
        assert(pending.len() / (FRAME_SAMPLES as nat) == 0);
        assert(frames_of(pending) =~= Seq::<Seq<S>>::empty());
        assert(rest_of(pending) =~= pending);
    } else {
        let x = flatten(inputs.drop_last());
        let b = inputs.last();
        lemma_push_run(pending, inputs.drop_last());
        law_frames_independent_of_split(pending, x, b);
        assert(pending + flatten(inputs) =~= pending + x + b);
    }
}

/// Pushing `inputs` one after the other into an empty frame buffer and then
/// finishing it with the last samples `tail` hands out, over all the calls,
/// the whole stream followed by `tail`, filled up with `silence` to a whole
/// frame: nothing is dropped, repeated or reordered, and only the last frame
/// is filled up.  (What is held back before finishing is the incomplete rest
/// of the stream.)
pub proof fn law_run_then_finish<S>(inputs: Seq<Seq<S>>, tail: Seq<S>, silence: S)
    ensures
        push_run(Seq::<S>::empty(), inputs).1.len() == flatten(inputs).len() % (FRAME_SAMPLES as nat),
        flatten(push_run(Seq::<S>::empty(), inputs).0) + padded(push_run(Seq::<S>::empty(), inputs).1 + tail, silence)
            == padded(flatten(inputs) + tail, silence),
{
    law_frames_of_any_run(inputs);
    let all = flatten(inputs);
    let n = all.len() / (FRAME_SAMPLES as nat);
    let rest = rest_of(all);
    vstd::arithmetic::div_mod::lemma_fundamental_div_mod(all.len() as int, FRAME_SAMPLES as int);
    assert(all.subrange(0, n * FRAME_SAMPLES) + rest =~= all);
    vstd::arithmetic::div_mod::lemma_mod_multiples_vanish(n as int, (rest.len() + tail.len()) as int, FRAME_SAMPLES as int);
    assert(FRAME_SAMPLES * n + rest.len() + tail.len() == (all + tail).len());
    assert((rest + tail).len() % (FRAME_SAMPLES as nat) == (all + tail).len() % (FRAME_SAMPLES as nat));
    let r = (rest + tail).len() % (FRAME_SAMPLES as nat);
    let pad = repeat(silence, if r == 0 { 0 } else { (FRAME_SAMPLES - r) as nat });
    assert(all.subrange(0, n * FRAME_SAMPLES) + (rest + tail + pad) =~= all + tail + pad);
}

} // verus!
