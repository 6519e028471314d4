# pirately

The core of a live speech-capture and transcription pipeline, written in
Verus and proved against its contracts.

- `src/` is the verified library:
  - `framing`: cutting a stream of samples into fixed 30 ms frames, and
    into the fixed-size blocks a resampler consumes;
  - `vad`: the voice-activity detector interface and the smoothing of its
    decisions (pre-roll, onset, hangover);
  - `live`: gathering live audio into chunks for transcription, ended at
    pauses or cut near three seconds;
  - `models`: the registry of speech models, their download state and the
    downloads in progress;
  - `engine`: the bookkeeping of the one loaded speech model;
  - `capture`: the checks and decisions around starting a capture, and
    continuous recording;
  - `codec`: audio as a Base64 WAV file and back;
  - `text`, `paths`: string order, blank text, and model paths.
- `app/` is ordinary Rust around the library: audio devices, files and
  downloads, the speech engines, floating-point signal processing, and the
  commands and events of the user interface.
- `tests/` runs the library on concrete values.
