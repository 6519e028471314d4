//! Verified core of a live speech-capture and transcription pipeline:
//! fixed-size audio framing, voice-activity smoothing, live chunking of
//! captured audio, the speech-model registry and the transcription engine
//! bookkeeping.

pub mod framing;
pub mod vad;
pub mod live;
pub mod text;
pub mod paths;
pub mod models;
pub mod engine;
pub mod capture;
pub mod codec;
