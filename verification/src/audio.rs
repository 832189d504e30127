//! Audio devices, the recent level history and WAV encoding of recordings.
use vstd::prelude::*;
use crate::text::str_eq;

verus! {

/// An audio input device as the settings list it.
#[derive(Clone, Debug)]
pub struct AudioDevice {
    pub name: String,
    pub is_default: bool,
}

/// The device entries for the named input devices, the default one marked.
pub fn describe_devices(names: Vec<String>, default_name: Option<String>) -> (r: Vec<AudioDevice>)
    ensures
        r.len() == names.len(),
        forall|i: int|
            0 <= i < names.len() ==> {
                &&& (#[trigger] r[i]).name@ == names[i]@
                &&& r[i].is_default == (default_name matches Some(d) && d@ == names[i]@)
            },
{
    let mut r: Vec<AudioDevice> = Vec::new();
    let mut i: usize = 0;
    while i < names.len()
        invariant
            i <= names.len(),
            r.len() == i,
            forall|k: int|
                0 <= k < i ==> {
                    &&& (#[trigger] r[k]).name@ == names[k]@
                    &&& r[k].is_default == (default_name matches Some(d) && d@ == names[k]@)
                },
        decreases names.len() - i,
    {
        let is_default = match &default_name {
            Some(d) => str_eq(d.as_str(), names[i].as_str()),
            None => false,
        };
        r.push(AudioDevice { name: names[i].clone(), is_default });
        i = i + 1;
    }
    r
}

/// The position of the first device named `selected`; none when no device
/// is selected or none has that name (then the default device is used).
pub fn find_device(names: &Vec<String>, selected: &Option<String>) -> (r: Option<usize>)
    ensures
        match *selected {
            None => r is None,
            Some(s) => match r {
                Some(i) => {
                    &&& i < names.len()
                    &&& names[i as int]@ == s@
                    &&& forall|j: int| 0 <= j < i ==> (#[trigger] names[j])@ != s@
                },
                None => forall|j: int| 0 <= j < names.len() ==> (#[trigger] names[j])@ != s@,
            },
        },
{
    match selected {
        None => None,
        Some(s) => {
            let mut i: usize = 0;
            while i < names.len()
                invariant
                    i <= names.len(),
                    *selected == Some(*s),
                    forall|j: int| 0 <= j < i ==> (#[trigger] names[j])@ != s@,
                decreases names.len() - i,
            {
                if str_eq(names[i].as_str(), s.as_str()) {
                    return Some(i);
                }
                i = i + 1;
            }
            None
        },
    }
}

/// How many recent level readings are kept for the waveform (about five
/// seconds of 50 ms readings).
pub const LEVEL_HISTORY: usize = 100;

/// Appends a level reading, dropping the oldest once more than
/// `LEVEL_HISTORY` are held.
pub fn push_level<T>(levels: &mut Vec<T>, level: T)
    ensures
        final(levels)@ == if old(levels)@.len() + 1 > LEVEL_HISTORY {
            old(levels)@.push(level).drop_first()
        } else {
            old(levels)@.push(level)
        },
        old(levels)@.len() <= LEVEL_HISTORY ==> final(levels)@.len() <= LEVEL_HISTORY,
{
    levels.push(level);
    if levels.len() > LEVEL_HISTORY {
        levels.remove(0);
    }
}

/// `x` as two little-endian bytes.
pub open spec fn le16(x: int) -> Seq<u8> {
    seq![(x % 256) as u8, ((x / 256) % 256) as u8]
}

/// `x` as four little-endian bytes.
pub open spec fn le32(x: int) -> Seq<u8> {
    le16(x % 65536) + le16(x / 65536)
}

/// 16-bit samples as consecutive little-endian two's-complement pairs.
pub open spec fn pcm16_bytes(samples: Seq<i16>) -> Seq<u8>
    decreases samples.len(),
{
    if samples.len() == 0 {
        Seq::empty()
    } else {
        pcm16_bytes(samples.drop_last()) + le16((samples.last() as int + 65536) % 65536)
    }
}

/// A mono 16-bit PCM WAVE file: the RIFF header, a 16-byte `fmt ` chunk
/// and the `data` chunk holding the samples.
pub open spec fn wav_pcm16_mono(samples: Seq<i16>, sample_rate: u32) -> Seq<u8> {
    let data_len = 2 * (samples.len() as int);
    seq![0x52u8, 0x49, 0x46, 0x46] + le32(36 + data_len) + seq![0x57u8, 0x41, 0x56, 0x45]
        + seq![0x66u8, 0x6d, 0x74, 0x20] + le32(16) + le16(1) + le16(1) + le32(sample_rate as int)
        + le32(2 * sample_rate) + le16(2) + le16(16) + seq![0x64u8, 0x61, 0x74, 0x61] + le32(
        data_len,
    ) + pcm16_bytes(samples)
}

/// Each sample takes two bytes.
proof fn lemma_pcm16_length(samples: Seq<i16>)
    ensures
        pcm16_bytes(samples).len() == 2 * samples.len(),
    decreases samples.len(),
{
    if samples.len() > 0 {
        lemma_pcm16_length(samples.drop_last());
    }
}

/// A WAVE file of 16-bit mono samples is 44 header bytes followed by two
/// bytes per sample, and sample `i` sits at bytes `44 + 2i` and `45 + 2i`
/// in little-endian two's complement.
pub proof fn lemma_wav_layout(samples: Seq<i16>, sample_rate: u32)
    ensures
        wav_pcm16_mono(samples, sample_rate).len() == 44 + 2 * samples.len(),
        forall|i: int|
            0 <= i < samples.len() ==> wav_pcm16_mono(samples, sample_rate).subrange(
                44 + 2 * i,
                46 + 2 * i,
            ) == le16((#[trigger] samples[i] as int + 65536) % 65536),
{
    lemma_pcm16_length(samples);
    let body = pcm16_bytes(samples);
    let head = wav_pcm16_mono(samples, sample_rate).take(44);
    assert(wav_pcm16_mono(samples, sample_rate) =~= head + body);
    assert forall|i: int| 0 <= i < samples.len() implies body.subrange(2 * i, 2 * i + 2) == le16(
        (#[trigger] samples[i] as int + 65536) % 65536,
    ) by {
        lemma_pcm16_sample(samples, i);
    }
    assert forall|i: int| 0 <= i < samples.len() implies wav_pcm16_mono(samples, sample_rate).subrange(
        44 + 2 * i,
        46 + 2 * i,
    ) == le16((#[trigger] samples[i] as int + 65536) % 65536) by {
        assert(wav_pcm16_mono(samples, sample_rate).subrange(44 + 2 * i, 46 + 2 * i) =~= body.subrange(
            2 * i,
            2 * i + 2,
        ));
    }
}

/// Sample `i` is encoded at bytes `2i` and `2i + 1` of the sample data.
proof fn lemma_pcm16_sample(samples: Seq<i16>, i: int)
    requires
        0 <= i < samples.len(),
    ensures
        pcm16_bytes(samples).subrange(2 * i, 2 * i + 2) == le16((samples[i] as int + 65536) % 65536),
    decreases samples.len(),
{
    let init = samples.drop_last();
    lemma_pcm16_length(init);
    if i == samples.len() - 1 {
        assert(pcm16_bytes(samples).subrange(2 * i, 2 * i + 2) =~= le16(
            (samples[i] as int + 65536) % 65536,
        ));
    } else {
        lemma_pcm16_sample(init, i);
        assert(pcm16_bytes(samples).subrange(2 * i, 2 * i + 2) =~= pcm16_bytes(init).subrange(
            2 * i,
            2 * i + 2,
        ));
    }
}

/// Recordings that a WAVE file can hold: a sample rate above zero whose
/// byte rate fits in 32 bits, and a data chunk whose size and the file
/// size fit in 32 bits.
pub open spec fn wav_encodable(sample_count: int, sample_rate: u32) -> bool {
    &&& 0 < sample_rate <= u32::MAX / 2
    &&& 2 * sample_count + 36 <= u32::MAX
}

#[verifier::external_type_specification]
#[verifier::external_body]
pub struct ExHoundError(hound::Error);

/// Writes 16-bit integer samples with `hound::WavWriter` into memory, in a
/// `WavSpec` of `channels` channels of `bits_per_sample` bits, which must be
/// one channel of 16 bits. For this format hound writes the 44-byte PCM header
/// (`wav_pcm16_mono`) followed by the samples, and writing to memory does
/// not fail; larger data or a zero or too high rate would overflow or
/// divide by zero inside hound, which `requires` rules out.
#[verifier::external_body]
fn hound_write_pcm16(
    samples: &[i16],
    sample_rate: u32,
    channels: u16,
    bits_per_sample: u16,
) -> (r: Result<Vec<u8>, hound::Error>)
    requires
        wav_encodable(samples@.len() as int, sample_rate),
        channels == 1,
        bits_per_sample == 16,
    ensures
        r is Ok,
        r matches Ok(bytes) ==> bytes@ == wav_pcm16_mono(samples@, sample_rate),
{
    let spec = hound::WavSpec { channels, sample_rate, bits_per_sample, sample_format: hound::SampleFormat::Int };
    let mut cursor = std::io::Cursor::new(Vec::new());
    let mut writer = hound::WavWriter::new(&mut cursor, spec)?;
    for &sample in samples {
        writer.write_sample(sample)?;
    }
    writer.finalize()?;
    Ok(cursor.into_inner())
}

/// Why a recording could not be turned into audio data.
pub enum AudioError {
    /// Nothing was recorded.
    NoAudioRecorded,
    /// The WAVE encoder failed.
    Encoding(hound::Error),
}

/// Recordings are stored as one channel of 16-bit samples.
pub const RECORDING_CHANNELS: u16 = 1;

/// Bits per stored sample.
pub const RECORDING_BITS: u16 = 16;

/// The WAVE file of a recording of 16-bit mono samples; an error when
/// nothing was recorded.
pub fn encode_recording(samples: &[i16], sample_rate: u32) -> (r: Result<Vec<u8>, AudioError>)
    requires
        wav_encodable(samples@.len() as int, sample_rate),
    ensures
        samples@.len() == 0 ==> r matches Err(AudioError::NoAudioRecorded),
        samples@.len() > 0 ==> (r matches Ok(bytes) && bytes@ == wav_pcm16_mono(samples@, sample_rate)),
{
    if samples.len() == 0 {
        return Err(AudioError::NoAudioRecorded);
    }
    match hound_write_pcm16(samples, sample_rate, RECORDING_CHANNELS, RECORDING_BITS) {
        Ok(bytes) => Ok(bytes),
        Err(e) => Err(AudioError::Encoding(e)),
    }
}

} // verus!
