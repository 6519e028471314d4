use vstd::prelude::*;

use crate::capture::{rate_accepted, MAX_CAPTURE_RATE, MIN_CAPTURE_RATE};

verus! {

/// The character of the standard Base64 alphabet for a 6-bit value.
pub open spec fn base64_char(v: int) -> char {
    if v < 26 {
        (65 + v) as char
    } else if v < 52 {
        (97 + v - 26) as char
    } else if v < 62 {
        (48 + v - 52) as char
    } else if v == 62 {
        '+'
    } else {
        '/'
    }
}

/// Standard Base64 (RFC 4648, with padding) of `b`: each group of three
/// bytes becomes four characters, a last group of one or two bytes becomes
/// two or three characters followed by `=` padding.
pub open spec fn base64_encode(b: Seq<u8>) -> Seq<char>
    decreases b.len(),
{
    if b.len() == 0 {
        Seq::empty()
    } else if b.len() == 1 {
        seq![base64_char((b[0] as int) / 4), base64_char(((b[0] as int) % 4) * 16), '=', '=']
    } else if b.len() == 2 {
        seq![
            base64_char((b[0] as int) / 4),
            base64_char(((b[0] as int) % 4) * 16 + (b[1] as int) / 16),
            base64_char(((b[1] as int) % 16) * 4),
            '=',
        ]
    } else {
        seq![
            base64_char((b[0] as int) / 4),
            base64_char(((b[0] as int) % 4) * 16 + (b[1] as int) / 16),
            base64_char(((b[1] as int) % 16) * 4 + (b[2] as int) / 64),
            base64_char((b[2] as int) % 64),
        ] + base64_encode(b.skip(3))
    }
}

/// The bytes whose standard Base64 is `text`, if there are any.
pub open spec fn base64_decoding(text: Seq<char>) -> Option<Seq<u8>> {
    if exists|b: Seq<u8>| base64_encode(b) == text {
        Some(choose|b: Seq<u8>| base64_encode(b) == text)
    } else {
        None
    }
}

proof fn lemma_base64_char_injective(a: int, b: int)
    requires
        0 <= a < 64,
        0 <= b < 64,
        base64_char(a) == base64_char(b),
    ensures
        a == b,
{
}

proof fn lemma_base64_char_not_pad(a: int)
    requires
        0 <= a < 64,
    ensures
        base64_char(a) != '=',
{
}

proof fn lemma_group_bytes(a0: u8, a1: u8, a2: u8, b0: u8, b1: u8, b2: u8)
    by (bit_vector)
    requires
        a0 / 4 == b0 / 4,
        (a0 % 4) * 16 + a1 / 16 == (b0 % 4) * 16 + b1 / 16,
        (a1 % 16) * 4 + a2 / 64 == (b1 % 16) * 4 + b2 / 64,
        a2 % 64 == b2 % 64,
    ensures
        a0 == b0,
        a1 == b1,
        a2 == b2,
{
}

proof fn lemma_tail_bytes(a0: u8, a1: u8, b0: u8, b1: u8)
    by (bit_vector)
    requires
        a0 / 4 == b0 / 4,
        (a0 % 4) * 16 + a1 / 16 == (b0 % 4) * 16 + b1 / 16,
        (a1 % 16) * 4 == (b1 % 16) * 4,
    ensures
        a0 == b0,
        a1 == b1,
{
}

proof fn lemma_last_byte(a0: u8, b0: u8)
    by (bit_vector)
    requires
        a0 / 4 == b0 / 4,
        (a0 % 4) * 16 == (b0 % 4) * 16,
    ensures
        a0 == b0,
{
}

proof fn lemma_sextets(a0: u8, a1: u8, a2: u8)
    by (bit_vector)
    ensures
        a0 / 4 < 64,
        (a0 % 4) * 16 + a1 / 16 < 64,
        (a1 % 16) * 4 + a2 / 64 < 64,
        a2 % 64 < 64,
        (a0 % 4) * 16 < 64,
        (a1 % 16) * 4 < 64,
{
}

proof fn lemma_encode_len(b: Seq<u8>)
    ensures
        b.len() == 0 <==> base64_encode(b).len() == 0,
        b.len() > 0 ==> base64_encode(b).len() >= 4,
    decreases b.len(),
{
    if b.len() >= 3 {
        lemma_encode_len(b.skip(3));
    }
}

/// Different bytes have different Base64: decoding gives back exactly
/// what was encoded.
pub proof fn lemma_base64_injective(a: Seq<u8>, b: Seq<u8>)
    requires
        base64_encode(a) == base64_encode(b),
    ensures
        a == b,
    decreases a.len(),
{
    let e = base64_encode(a);
    lemma_encode_len(a);
    lemma_encode_len(b);
    if a.len() == 0 {
        assert(b.len() == 0);
        assert(a =~= b);
        return;
    }
    lemma_sextets(a[0], if a.len() > 1 { a[1] } else { 0 }, if a.len() > 2 { a[2] } else { 0 });
    lemma_sextets(b[0], if b.len() > 1 { b[1] } else { 0 }, if b.len() > 2 { b[2] } else { 0 });
    if a.len() >= 3 {
        lemma_base64_char_not_pad(a[2] as int % 64);
        lemma_base64_char_not_pad((a[1] as int % 16) * 4 + a[2] as int / 64);
    }
    if b.len() >= 3 {
        lemma_base64_char_not_pad(b[2] as int % 64);
        lemma_base64_char_not_pad((b[1] as int % 16) * 4 + b[2] as int / 64);
    }
    if a.len() == 2 {
        lemma_base64_char_not_pad((a[1] as int % 16) * 4);
    }
    if b.len() == 2 {
        lemma_base64_char_not_pad((b[1] as int % 16) * 4);
    }
    let f = base64_encode(b);
    assert(e[3] == f[3]);
    assert(e[2] == f[2]);
    assert(e[1] == f[1]);
    assert(e[0] == f[0]);
    assert(e[0] == base64_char(a[0] as int / 4));
    assert(f[0] == base64_char(b[0] as int / 4));
    lemma_base64_char_injective(a[0] as int / 4, b[0] as int / 4);
    if a.len() == 1 {
        assert(b.len() == 1);
        assert(e[1] == base64_char((a[0] as int % 4) * 16));
        assert(f[1] == base64_char((b[0] as int % 4) * 16));
        lemma_base64_char_injective((a[0] as int % 4) * 16, (b[0] as int % 4) * 16);
        lemma_last_byte(a[0], b[0]);
        assert(a =~= b);
    } else if a.len() == 2 {
        assert(b.len() == 2);
        assert(e[1] == base64_char((a[0] as int % 4) * 16 + a[1] as int / 16));
        assert(f[1] == base64_char((b[0] as int % 4) * 16 + b[1] as int / 16));
        assert(e[2] == base64_char((a[1] as int % 16) * 4));
        assert(f[2] == base64_char((b[1] as int % 16) * 4));
        lemma_base64_char_injective((a[0] as int % 4) * 16 + a[1] as int / 16, (b[0] as int % 4) * 16 + b[1] as int / 16);
        lemma_base64_char_injective((a[1] as int % 16) * 4, (b[1] as int % 16) * 4);
        lemma_tail_bytes(a[0], a[1], b[0], b[1]);
        assert(a =~= b);
    } else {
        assert(b.len() >= 3);
        assert(e[1] == base64_char((a[0] as int % 4) * 16 + a[1] as int / 16));
        assert(f[1] == base64_char((b[0] as int % 4) * 16 + b[1] as int / 16));
        assert(e[2] == base64_char((a[1] as int % 16) * 4 + a[2] as int / 64));
        assert(f[2] == base64_char((b[1] as int % 16) * 4 + b[2] as int / 64));
        assert(e[3] == base64_char(a[2] as int % 64));
        assert(f[3] == base64_char(b[2] as int % 64));
        lemma_base64_char_injective((a[0] as int % 4) * 16 + a[1] as int / 16, (b[0] as int % 4) * 16 + b[1] as int / 16);
        lemma_base64_char_injective((a[1] as int % 16) * 4 + a[2] as int / 64, (b[1] as int % 16) * 4 + b[2] as int / 64);
        lemma_base64_char_injective(a[2] as int % 64, b[2] as int % 64);
        lemma_group_bytes(a[0], a[1], a[2], b[0], b[1], b[2]);
        let ta = base64_encode(a.skip(3));
        let tb = base64_encode(b.skip(3));
        assert(ta =~= e.skip(4));
        assert(tb =~= f.skip(4));
        lemma_base64_injective(a.skip(3), b.skip(3));
        assert(a =~= a.take(3) + a.skip(3));
        assert(b =~= b.take(3) + b.skip(3));
        assert(a.take(3) =~= b.take(3));
    }
}

/// `base64::Engine::encode` with the `STANDARD` engine: the standard,
/// padded Base64 of `bytes`.  The crate panics when the length of the
/// encoding does not fit in a `usize`, which the bound on `bytes` rules out.
#[verifier::external_body]
fn b64_encode(bytes: &[u8]) -> (r: String)
    requires
        bytes@.len() <= usize::MAX / 2,
    ensures
        r@ == base64_encode(bytes@),
{
    base64::Engine::encode(&base64::engine::general_purpose::STANDARD, bytes)
}

/// `base64::Engine::decode` with the `STANDARD` engine, whose configuration
/// requires canonical padding and no stray trailing bits: it accepts
/// exactly the standard Base64 of some bytes, and gives those bytes back.
/// The error's message is not stated.
#[verifier::external_body]
fn b64_decode(text: &str) -> (r: Result<Vec<u8>, String>)
    ensures
        r matches Ok(v) ==> base64_encode(v@) == text@,
        (exists|b: Seq<u8>| base64_encode(b) == text@) ==> r is Ok,
{
    base64::Engine::decode(&base64::engine::general_purpose::STANDARD, text).map_err(|e| e.to_string())
}

/// Most 16-bit samples a WAV buffer is made of: keeps the sizes in the
/// header within 32 bits and the Base64 of the file within a `usize`.
pub const MAX_WAV_SAMPLES: usize = 0x3FFF_FF00;

/// `x` as two little-endian bytes.
pub open spec fn le16(x: u16) -> Seq<u8> {
    seq![(x % 256) as u8, (x / 256) as u8]
}

/// `x` as four little-endian bytes.
pub open spec fn le32(x: u32) -> Seq<u8> {
    seq![(x % 256) as u8, ((x / 256) % 256) as u8, ((x / 65536) % 256) as u8, (x / 16777216) as u8]
}

/// 16-bit samples, each as two little-endian bytes of its two's complement.
pub open spec fn pcm16_bytes(samples: Seq<i16>) -> Seq<u8>
    decreases samples.len(),
{
    if samples.len() == 0 {
        Seq::empty()
    } else {
        pcm16_bytes(samples.drop_last()) + le16(samples.last() as u16)
    }
}

/// The 44-byte header of a mono 16-bit integer PCM WAV file at
/// `sample_rate` Hz holding `data_bytes` bytes of samples: the RIFF chunk
/// with the file size less 8, the 16-byte `fmt ` chunk (PCM, one channel,
/// the rate, two bytes a sample), and the `data` chunk's size.
pub open spec fn wav_pcm16_header(sample_rate: u32, data_bytes: u32) -> Seq<u8> {
    seq![0x52u8, 0x49, 0x46, 0x46] + le32((36 + data_bytes) as u32) + seq![0x57u8, 0x41, 0x56, 0x45]
        + seq![0x66u8, 0x6D, 0x74, 0x20] + le32(16) + le16(1) + le16(1) + le32(sample_rate) + le32(
        (2 * sample_rate) as u32,
    ) + le16(2) + le16(16) + seq![0x64u8, 0x61, 0x74, 0x61] + le32(data_bytes)
}

/// The bytes of the WAV file that `hound` writes for mono 16-bit integer
/// PCM `samples` at `sample_rate` Hz: the header, then the samples.
pub open spec fn wav_pcm16(sample_rate: u32, samples: Seq<i16>) -> Seq<u8> {
    wav_pcm16_header(sample_rate, (2 * samples.len()) as u32) + pcm16_bytes(samples)
}

proof fn lemma_pcm16_len(samples: Seq<i16>)
    ensures
        pcm16_bytes(samples).len() == 2 * samples.len(),
    decreases samples.len(),
{
    if samples.len() > 0 {
        lemma_pcm16_len(samples.drop_last());
    }
}

/// A WAV file of `n` samples is 44 bytes of header and two bytes a sample.
pub proof fn lemma_wav_pcm16_len(sample_rate: u32, samples: Seq<i16>)
    ensures
        wav_pcm16(sample_rate, samples).len() == 44 + 2 * samples.len(),
{
    lemma_pcm16_len(samples);
}

/// What `hound`'s reader makes of `bytes` when asked for 16-bit samples:
/// the sample rate and, for each sample, the sample or a failure; `None`
/// when the header is not one it reads.
pub uninterp spec fn wav_i16_reading(bytes: Seq<u8>) -> Option<(u32, Seq<Option<i16>>)>;

/// `hound::WavWriter` on an in-memory buffer, for mono 16-bit integer PCM:
/// writes the header, each sample, and finalizes.  Its source shows that
/// this never fails on memory (16 bits is a supported depth, a growing
/// buffer accepts every write and seek, one channel never leaves a sample
/// unfinished), and that the file is [`wav_pcm16`]: the PCMWAVEFORMAT header
/// (the structure hound picks for one channel of 16 bits), with the sizes
/// filled in when it finalizes, followed by each sample in little-endian
/// order.  The bounds keep the 32-bit sizes of the header from overflowing,
/// and a rate of at least 8 kHz keeps the writer from dividing by a zero
/// rate when it works out the header.
#[verifier::external_body]
fn write_wav_pcm16(sample_rate: u32, samples: &[i16]) -> (r: Result<Vec<u8>, String>)
    requires
        MIN_CAPTURE_RATE <= sample_rate <= MAX_CAPTURE_RATE,
        samples@.len() <= MAX_WAV_SAMPLES,
    ensures
        r is Ok,
        r matches Ok(out) ==> out@ == wav_pcm16(sample_rate, samples@),
{
    let mut cursor = std::io::Cursor::new(Vec::new());
    let spec = hound::WavSpec { channels: 1, sample_rate, bits_per_sample: 16, sample_format: hound::SampleFormat::Int };
    let mut writer = hound::WavWriter::new(&mut cursor, spec).map_err(|e| e.to_string())?;
    for &s in samples {
        writer.write_sample(s).map_err(|e| e.to_string())?;
    }
    writer.finalize().map_err(|e| e.to_string())?;
    Ok(cursor.into_inner())
}

/// `hound::WavReader` on `bytes`: the sample rate from the header and the
/// samples read as 16-bit integers, each `None` where the reader reports an
/// error for it.  Reading back a mono 16-bit PCM file that `hound` wrote
/// ([`wav_pcm16`]) gives its rate and samples.  The error's message is not
/// stated.
#[verifier::external_body]
fn read_wav_i16(bytes: Vec<u8>) -> (r: Result<(u32, Vec<Option<i16>>), String>)
    ensures
        match r {
            Ok(p) => wav_i16_reading(bytes@) == Some((p.0, p.1@)),
            Err(_) => wav_i16_reading(bytes@) is None,
        },
        forall|sample_rate: u32, samples: Seq<i16>|
            #![trigger wav_pcm16(sample_rate, samples)]
            bytes@ == wav_pcm16(sample_rate, samples) && rate_accepted(sample_rate)
                && samples.len() <= MAX_WAV_SAMPLES ==> match r {
                Ok(p) => p.0 == sample_rate && p.1@ == samples.map_values(|x: i16| Some(x)),
                Err(_) => false,
            },
{
    let mut reader = hound::WavReader::new(std::io::Cursor::new(bytes)).map_err(|e| e.to_string())?;
    let sample_rate = reader.spec().sample_rate;
    let samples = reader.samples::<i16>().map(|s| s.ok()).collect();
    Ok((sample_rate, samples))
}

/// The samples that were read, in order, skipping those that failed.
pub open spec fn keep_samples(s: Seq<Option<i16>>) -> Seq<i16>
    decreases s.len(),
{
    if s.len() == 0 {
        Seq::empty()
    } else {
        let rest = keep_samples(s.drop_last());
        match s.last() {
            Some(x) => rest.push(x),
            None => rest,
        }
    }
}

proof fn lemma_keep_all(s: Seq<i16>)
    ensures
        keep_samples(s.map_values(|x: i16| Some(x))) == s,
    decreases s.len(),
{
    if s.len() > 0 {
        assert(s.map_values(|x: i16| Some(x)).drop_last() =~= s.drop_last().map_values(|x: i16| Some(x)));
        lemma_keep_all(s.drop_last());
        assert(s =~= s.drop_last().push(s.last()));
    } else {
        assert(s.map_values(|x: i16| Some(x)) =~= Seq::<Option<i16>>::empty());
        assert(s =~= Seq::<i16>::empty());
    }
}

/// Why audio cannot be encoded.
#[derive(Clone, Copy, Debug, PartialEq, Eq, Structural)]
pub enum WavError {
    /// The sample rate is outside the accepted range.
    InvalidSampleRate(u32),
    /// There are no samples.
    EmptyBuffer,
}

/// Mono 16-bit `samples` at `sample_rate` Hz as a WAV file in standard
/// Base64; refused for a sample rate outside 8 kHz to 96 kHz, or for no
/// samples.
pub fn encode_wav_base64(sample_rate: u32, samples: &[i16]) -> (r: Result<String, WavError>)
    requires
        samples@.len() <= MAX_WAV_SAMPLES,
    ensures
        match r {
            Ok(text) => rate_accepted(sample_rate) && samples@.len() > 0
                && text@ == base64_encode(wav_pcm16(sample_rate, samples@)),
            Err(WavError::InvalidSampleRate(sr)) => !rate_accepted(sample_rate) && sr == sample_rate,
            Err(WavError::EmptyBuffer) => rate_accepted(sample_rate) && samples@.len() == 0,
        },
{
    if !(MIN_CAPTURE_RATE <= sample_rate && sample_rate <= MAX_CAPTURE_RATE) {
        return Err(WavError::InvalidSampleRate(sample_rate));
    }
    if samples.len() == 0 {
        return Err(WavError::EmptyBuffer);
    }
    match write_wav_pcm16(sample_rate, samples) {
        Ok(bytes) => {
            proof { lemma_wav_pcm16_len(sample_rate, samples@); }
            Ok(b64_encode(bytes.as_slice()))
        },
        Err(_) => vstd::pervasive::unreached(),
    }
}

/// Why audio handed in cannot be read.
#[derive(Debug)]
pub enum AudioInputError {
    /// The text is not standard Base64; the message says where.
    Base64(String),
    /// The bytes are not a WAV file that can be read; the message says why.
    Wav(String),
}

/// Audio read from a WAV file.
#[derive(Debug)]
pub struct DecodedWav {
    pub sample_rate: u32,
    pub samples: Vec<i16>,
}

/// Reads audio handed in as a WAV file in standard Base64: the sample rate,
/// and the samples read as 16-bit integers, skipping those that fail.  What
/// [`encode_wav_base64`] produced reads back as the same rate and samples.
pub fn decode_wav_base64(text: &str) -> (r: Result<DecodedWav, AudioInputError>)
    ensures
        match base64_decoding(text@) {
            None => r matches Err(AudioInputError::Base64(_)),
            Some(bytes) => match wav_i16_reading(bytes) {
                None => r matches Err(AudioInputError::Wav(_)),
                Some(reading) => r matches Ok(d) && d.sample_rate == reading.0 && d.samples@ == keep_samples(reading.1),
            },
        },
        forall|sample_rate: u32, samples: Seq<i16>|
            #![trigger wav_pcm16(sample_rate, samples)]
            text@ == base64_encode(wav_pcm16(sample_rate, samples)) && rate_accepted(sample_rate)
                && samples.len() <= MAX_WAV_SAMPLES ==> (r matches Ok(d) && d.sample_rate == sample_rate
                && d.samples@ == samples),
{
    let bytes = match b64_decode(text) {
        Ok(b) => b,
        Err(msg) => return Err(AudioInputError::Base64(msg)),
    };
    proof {
        let chosen = choose|b: Seq<u8>| base64_encode(b) == text@;
        lemma_base64_injective(chosen, bytes@);
        assert(base64_decoding(text@) == Some(bytes@));
    }
    let ghost input = bytes@;
    let read = read_wav_i16(bytes);
    let (sample_rate, raw) = match read {
        Ok(p) => p,
        Err(msg) => {
            proof {
                assert forall|sr: u32, s: Seq<i16>|
                    #![trigger wav_pcm16(sr, s)]
                    text@ == base64_encode(wav_pcm16(sr, s)) && rate_accepted(sr) && s.len() <= MAX_WAV_SAMPLES
                    implies false by {
                    lemma_base64_injective(wav_pcm16(sr, s), input);
                }
            }
            return Err(AudioInputError::Wav(msg));
        },
    };
    let mut samples: Vec<i16> = Vec::new();
    let mut i: usize = 0;
    while i < raw.len()
        invariant
            i <= raw@.len(),
            samples@ == keep_samples(raw@.take(i as int)),
        decreases raw@.len() - i,
    {
        proof {
            assert(raw@.take(i + 1).drop_last() =~= raw@.take(i as int));
        }
        match raw[i] {
            Some(x) => samples.push(x),
            None => {},
        }
        i = i + 1;
    }
    proof {
        assert(raw@.take(raw@.len() as int) =~= raw@);
        assert forall|sr: u32, s: Seq<i16>|
            #![trigger wav_pcm16(sr, s)]
            text@ == base64_encode(wav_pcm16(sr, s)) && rate_accepted(sr) && s.len() <= MAX_WAV_SAMPLES
            implies sample_rate == sr && samples@ == s by {
            lemma_base64_injective(wav_pcm16(sr, s), input);
            lemma_keep_all(s);
        }
    }
    Ok(DecodedWav { sample_rate, samples })
}

} // verus!
