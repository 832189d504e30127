//! Getting the audio out of a media file: the converter invocations and
//! what to do after each of them.
use vstd::prelude::*;
use vstd::string::*;
use crate::text::owned;

verus! {

/// The texts as a sequence of character sequences.
pub open spec fn texts(v: Seq<String>) -> Seq<Seq<char>> {
    v.map_values(|s: String| s@)
}

/// A list of owned strings with the given contents.
fn strings_of(items: &[&str]) -> (r: Vec<String>)
    ensures
        texts(r@) == items@.map_values(|s: &str| s@),
{
    let mut r: Vec<String> = Vec::new();
    let mut i: usize = 0;
    while i < items.len()
        invariant
            i <= items.len(),
            texts(r@) =~= items@.take(i as int).map_values(|s: &str| s@),
        decreases items.len() - i,
    {
        let ghost before = texts(r@);
        let item = owned(items[i]);
        r.push(item);
        assert(texts(r@) =~= before.push(items@[i as int]@));
        assert(items@.take(i + 1) =~= items@.take(i as int).push(items@[i as int]));
        i = i + 1;
    }
    assert(items@.take(items.len() as int) =~= items@);
    r
}

/// The arguments of `afconvert` that write the sound of `input` as a WAV
/// file of 16 kHz mono 16-bit little-endian PCM at `output`.
pub fn afconvert_extract_args(input: &str, output: &str) -> (r: Vec<String>)
    ensures
        texts(r@) == seq!["-f"@, "WAVE"@, "-d"@, "LEI16@16000"@, "-c"@, "1"@, input@, output@],
{
    let mut r = strings_of(&["-f", "WAVE", "-d", "LEI16@16000", "-c", "1"]);
    let ghost head = texts(r@);
    r.push(owned(input));
    r.push(owned(output));
    assert(texts(r@) =~= head.push(input@).push(output@));
    r
}

/// The arguments of `ffmpeg` that write the audio of `input` as 16 kHz mono
/// 16-bit PCM to `output` (a `.wav` file name, so a WAV file), dropping any
/// video and overwriting `output`.
pub fn ffmpeg_extract_args(input: &str, output: &str) -> (r: Vec<String>)
    ensures
        texts(r@) == seq![
            "-i"@,
            input@,
            "-vn"@,
            "-acodec"@,
            "pcm_s16le"@,
            "-ar"@,
            "16000"@,
            "-ac"@,
            "1"@,
            "-y"@,
            output@,
        ],
{
    let mut r: Vec<String> = Vec::new();
    r.push(owned("-i"));
    r.push(owned(input));
    let tail = strings_of(&["-vn", "-acodec", "pcm_s16le", "-ar", "16000", "-ac", "1", "-y"]);
    let ghost head = texts(r@);
    let ghost rest = texts(tail@);
    let mut tail = tail;
    r.append(&mut tail);
    assert(texts(r@) =~= head + rest);
    let ghost joined = texts(r@);
    r.push(owned(output));
    assert(texts(r@) =~= joined.push(output@));
    assert(texts(r@) =~= seq![
        "-i"@,
        input@,
        "-vn"@,
        "-acodec"@,
        "pcm_s16le"@,
        "-ar"@,
        "16000"@,
        "-ac"@,
        "1"@,
        "-y"@,
        output@,
    ]);
    r
}

/// The arguments of `afconvert` that store a recording given as WAV at
/// `wav` as AAC audio at 128 kbit/s in an M4A file at `m4a`.
pub fn afconvert_store_args(wav: &str, m4a: &str) -> (r: Vec<String>)
    ensures
        texts(r@) == seq!["-f"@, "m4af"@, "-d"@, "aac"@, "-b"@, "128000"@, wav@, m4a@],
{
    let mut r = strings_of(&["-f", "m4af", "-d", "aac", "-b", "128000"]);
    let ghost head = texts(r@);
    r.push(owned(wav));
    r.push(owned(m4a));
    assert(texts(r@) =~= head.push(wav@).push(m4a@));
    r
}

/// How running a converter went.
pub enum ToolRun {
    /// It ran and reported success.
    Succeeded,
    /// It ran and failed, with this error output.
    Failed(String),
    /// It could not be started, with this error.
    CouldNotStart(String),
}

/// What to do next while extracting audio.
pub enum ExtractStep {
    /// Read the converted file.
    ReadOutput,
    /// Try again with ffmpeg.
    TryFfmpeg,
    /// Give up with this message.
    Fail(String),
}

/// After `afconvert`: read its output when it succeeded, fall back to
/// ffmpeg when it failed, give up when it could not run.
pub fn after_afconvert(run: &ToolRun) -> (r: ExtractStep)
    ensures
        match *run {
            ToolRun::Succeeded => r is ReadOutput,
            ToolRun::Failed(_) => r is TryFfmpeg,
            ToolRun::CouldNotStart(e) => (r matches ExtractStep::Fail(m) && m@ == "Failed to run afconvert: "@ + e@),
        },
{
    match run {
        ToolRun::Succeeded => ExtractStep::ReadOutput,
        ToolRun::Failed(_) => ExtractStep::TryFfmpeg,
        ToolRun::CouldNotStart(e) => {
            let mut m = owned("Failed to run afconvert: ");
            m.append(e.as_str());
            ExtractStep::Fail(m)
        },
    }
}

/// After the ffmpeg fallback: read its output when it succeeded; otherwise
/// give up, reporting what afconvert wrote to its error output.
pub fn after_ffmpeg(run: &ToolRun, afconvert_error: &str) -> (r: ExtractStep)
    ensures
        match *run {
            ToolRun::Succeeded => r is ReadOutput,
            ToolRun::Failed(_) => (r matches ExtractStep::Fail(m) && m@
                == "Audio extraction failed. afconvert error: "@ + afconvert_error@),
            ToolRun::CouldNotStart(_) => (r matches ExtractStep::Fail(m) && m@
                == "Audio extraction failed: "@ + afconvert_error@),
        },
{
    match run {
        ToolRun::Succeeded => ExtractStep::ReadOutput,
        ToolRun::Failed(_) => {
            let mut m = owned("Audio extraction failed. afconvert error: ");
            m.append(afconvert_error);
            ExtractStep::Fail(m)
        },
        ToolRun::CouldNotStart(_) => {
            let mut m = owned("Audio extraction failed: ");
            m.append(afconvert_error);
            ExtractStep::Fail(m)
        },
    }
}

/// The name of the temporary WAV file that extracted audio is written to.
pub fn extraction_file_name(unique: &str) -> (r: String)
    ensures
        r@ == "hey_audio_"@ + unique@ + ".wav"@,
{
    let mut r = owned("hey_audio_");
    r.append(unique);
    r.append(".wav");
    r
}

} // verus!
