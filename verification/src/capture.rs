use vstd::prelude::*;

use crate::engine::EngineError;

verus! {

/// Lowest capture sample rate accepted, in Hz.
pub const MIN_CAPTURE_RATE: u32 = 8000;

/// Highest capture sample rate accepted, in Hz.
pub const MAX_CAPTURE_RATE: u32 = 96000;

/// Longest continuous recording that may be configured, in seconds.
pub const MAX_RECORDING_LIMIT_SECS: u64 = 3600;

/// Why capture cannot start.
#[derive(Clone, Copy, Debug, PartialEq, Eq, Structural)]
pub enum CaptureError {
    /// A capture is running already.
    AlreadyRunning,
    /// The device delivers audio at a rate outside the accepted range.
    InvalidSampleRate(u32),
}

/// Whether `sample_rate` is in the accepted range.
pub open spec fn rate_accepted(sample_rate: u32) -> bool {
    MIN_CAPTURE_RATE <= sample_rate <= MAX_CAPTURE_RATE
}

/// Capture may start only when none is running.
pub fn check_not_running(running: bool) -> (r: Result<(), CaptureError>)
    ensures
        r == if running { Err::<(), CaptureError>(CaptureError::AlreadyRunning) } else { Ok(()) },
{
    if running {
        Err(CaptureError::AlreadyRunning)
    } else {
        Ok(())
    }
}

/// Capture accepts sample rates from 8 kHz to 96 kHz.
pub fn check_sample_rate(sample_rate: u32) -> (r: Result<(), CaptureError>)
    ensures
        r == if rate_accepted(sample_rate) {
            Ok::<(), CaptureError>(())
        } else {
            Err(CaptureError::InvalidSampleRate(sample_rate))
        },
{
    if MIN_CAPTURE_RATE <= sample_rate && sample_rate <= MAX_CAPTURE_RATE {
        Ok(())
    } else {
        Err(CaptureError::InvalidSampleRate(sample_rate))
    }
}

/// Why a voice-detection configuration is refused.
#[derive(Clone, Copy, Debug, PartialEq, Eq, Structural)]
pub enum VadConfigError {
    /// The RMS sensitivity is outside the unit interval.
    SensitivityOutOfRange,
    /// The longest recording is over an hour.
    DurationTooLong,
}

/// A configuration is refused first for its sensitivity (found in range or
/// not by the caller), then for a longest recording over an hour.
pub fn check_vad_config(sensitivity_in_range: bool, max_recording_duration_secs: u64) -> (r: Result<(), VadConfigError>)
    ensures
        r == if !sensitivity_in_range {
            Err::<(), VadConfigError>(VadConfigError::SensitivityOutOfRange)
        } else if max_recording_duration_secs > MAX_RECORDING_LIMIT_SECS {
            Err(VadConfigError::DurationTooLong)
        } else {
            Ok(())
        },
{
    if !sensitivity_in_range {
        return Err(VadConfigError::SensitivityOutOfRange);
    }
    if max_recording_duration_secs > MAX_RECORDING_LIMIT_SECS {
        return Err(VadConfigError::DurationTooLong);
    }
    Ok(())
}

/// The model used for local transcription when none was chosen.
pub open spec fn spec_default_local_model() -> Seq<char> {
    "parakeet-tdt-0.6b-v3"@
}

/// The model to use for local transcription: the chosen one, or the default.
pub fn effective_model_id(selected: Option<String>) -> (r: String)
    ensures
        r@ == match selected {
            Some(id) => id@,
            None => spec_default_local_model(),
        },
{
    match selected {
        Some(id) => id,
        None => "parakeet-tdt-0.6b-v3".to_owned(),
    }
}

/// What to do with a chunk of audio after local transcription.
#[derive(Debug)]
pub enum TranscriptRoute {
    /// Show the text.
    Text(String),
    /// The text is blank: show nothing.
    Skip,
    /// Transcription failed: send the audio itself instead.
    Audio,
}

/// What to do with audio after local transcription gave `result`: show
/// the text, unless `skip_blank` and the text is blank; send the audio
/// itself if transcription failed.
pub fn route_transcript(result: Result<String, EngineError>, skip_blank: bool) -> (r: TranscriptRoute)
    ensures
        match result {
            Ok(text) => if skip_blank && (forall|i: int| 0 <= i < text@.len() ==> crate::text::is_unicode_white_space(#[trigger] text@[i])) {
                r is Skip
            } else {
                r matches TranscriptRoute::Text(t) && t@ == text@
            },
            Err(_) => r is Audio,
        },
{
    match result {
        Ok(text) => {
            if skip_blank && crate::text::is_blank(text.as_str()) {
                TranscriptRoute::Skip
            } else {
                TranscriptRoute::Text(text)
            }
        },
        Err(_) => TranscriptRoute::Audio,
    }
}

/// What a continuous recording does after one more sample.
#[derive(Debug)]
pub struct RecordStep {
    /// Seconds elapsed, when another whole second of audio was recorded.
    pub progress: Option<u64>,
    /// Whether recording ends.
    pub stop: bool,
}

/// A continuous recording as mathematical values.
pub ghost struct RecorderView<S> {
    pub samples: Seq<S>,
    pub sample_rate: nat,
    pub max_samples: nat,
    pub max_duration_secs: nat,
}

/// Records audio until asked to stop, until the longest recording is
/// reached in samples or in time.
pub struct ContinuousRecorder<S> {
    samples: Vec<S>,
    sample_rate: usize,
    max_samples: usize,
    max_duration_secs: u64,
}

impl<S> ContinuousRecorder<S> {
    pub closed spec fn view(&self) -> RecorderView<S> {
        RecorderView {
            samples: self.samples@,
            sample_rate: self.sample_rate as nat,
            max_samples: self.max_samples as nat,
            max_duration_secs: self.max_duration_secs as nat,
        }
    }

    pub open spec fn wf(&self) -> bool {
        self.view().sample_rate > 0
    }

    /// An empty recording of audio at `sample_rate` Hz, for at most
    /// `max_duration_secs` seconds.
    pub fn new(sample_rate: u32, max_duration_secs: u64) -> (r: Self)
        requires
            sample_rate > 0,
            sample_rate * max_duration_secs <= usize::MAX,
        ensures
            r.wf(),
            r.view() == (RecorderView::<S> {
                samples: Seq::empty(),
                sample_rate: sample_rate as nat,
                max_samples: (sample_rate * max_duration_secs) as nat,
                max_duration_secs: max_duration_secs as nat,
            }),
    {
        let max = (sample_rate as u64) * max_duration_secs;
        ContinuousRecorder {
            samples: Vec::new(),
            sample_rate: sample_rate as usize,
            max_samples: max as usize,
            max_duration_secs,
        }
    }

    /// One more sample, `elapsed_secs` whole seconds after recording began.
    /// A requested stop ends recording and drops the sample; otherwise the
    /// sample is kept, progress is reported after each whole second of
    /// audio, and recording ends once the longest recording is reached in
    /// samples or in time.
    pub fn on_sample(&mut self, sample: S, stop_requested: bool, elapsed_secs: u64) -> (r: RecordStep)
        requires
            old(self).wf(),
        ensures
            final(self).wf(),
            if stop_requested {
                final(self).view() == old(self).view() && r.stop && r.progress is None
            } else {
                let samples = old(self).view().samples.push(sample);
                &&& final(self).view() == (RecorderView { samples, ..old(self).view() })
                &&& r.progress == if samples.len() % old(self).view().sample_rate == 0 {
                    Some(elapsed_secs)
                } else {
                    None::<u64>
                }
                &&& r.stop == (samples.len() >= old(self).view().max_samples
                    || elapsed_secs >= old(self).view().max_duration_secs)
            },
    {
        if stop_requested {
            return RecordStep { progress: None, stop: true };
        }
        self.samples.push(sample);
        let progress = if self.samples.len() % self.sample_rate == 0 {
            Some(elapsed_secs)
        } else {
            None
        };
        let stop = self.samples.len() >= self.max_samples || elapsed_secs >= self.max_duration_secs;
        RecordStep { progress, stop }
    }

    /// The recorded audio.
    pub fn into_samples(self) -> (r: Vec<S>)
        ensures
            r@ == self.view().samples,
    {
        self.samples
    }
}

} // verus!
