use hey::extract::{
    after_afconvert, after_ffmpeg, afconvert_extract_args, afconvert_store_args,
    extraction_file_name, ffmpeg_extract_args, ExtractStep, ToolRun,
};

#[test]
fn converter_arguments() {
    assert_eq!(
        afconvert_extract_args("in.mov", "/tmp/out.wav"),
        vec!["-f", "WAVE", "-d", "LEI16@16000", "-c", "1", "in.mov", "/tmp/out.wav"]
    );
    assert_eq!(
        ffmpeg_extract_args("in.mov", "/tmp/out.wav"),
        vec!["-i", "in.mov", "-vn", "-acodec", "pcm_s16le", "-ar", "16000", "-ac", "1", "-y", "/tmp/out.wav"]
    );
    assert_eq!(
        afconvert_store_args("t.wav", "a.m4a"),
        vec!["-f", "m4af", "-d", "aac", "-b", "128000", "t.wav", "a.m4a"]
    );
    assert_eq!(extraction_file_name("x1"), "hey_audio_x1.wav");
}

#[test]
fn steps_after_afconvert() {
    assert!(matches!(after_afconvert(&ToolRun::Succeeded), ExtractStep::ReadOutput));
    assert!(matches!(after_afconvert(&ToolRun::Failed("bad".to_string())), ExtractStep::TryFfmpeg));
    match after_afconvert(&ToolRun::CouldNotStart("not found".to_string())) {
        ExtractStep::Fail(m) => assert_eq!(m, "Failed to run afconvert: not found"),
        _ => panic!("expected failure"),
    }
}

#[test]
fn steps_after_ffmpeg() {
    assert!(matches!(after_ffmpeg(&ToolRun::Succeeded, "e"), ExtractStep::ReadOutput));
    match after_ffmpeg(&ToolRun::Failed("ff".to_string()), "codec") {
        ExtractStep::Fail(m) => assert_eq!(m, "Audio extraction failed. afconvert error: codec"),
        _ => panic!("expected failure"),
    }
    match after_ffmpeg(&ToolRun::CouldNotStart("nope".to_string()), "codec") {
        ExtractStep::Fail(m) => assert_eq!(m, "Audio extraction failed: codec"),
        _ => panic!("expected failure"),
    }
}
