use hey::chunking::ChunkConfig;
use hey::transcription::{
    assemblyai_transcript_url, first_choice_content, poll_outcome, PollOutcome,
    TranscriptionJob, TranscriptionProvider,
};

#[test]
fn provider_names_round_trip() {
    for p in [TranscriptionProvider::OpenAI, TranscriptionProvider::Groq, TranscriptionProvider::AssemblyAI] {
        assert_eq!(TranscriptionProvider::from_name(p.name()), Some(p));
    }
    assert_eq!(TranscriptionProvider::OpenAI.name(), "openai");
    assert_eq!(TranscriptionProvider::Groq.name(), "groq");
    assert_eq!(TranscriptionProvider::AssemblyAI.name(), "assemblyai");
}

#[test]
fn provider_labels() {
    assert_eq!(TranscriptionProvider::OpenAI.label(), "OpenAI");
    assert_eq!(TranscriptionProvider::Groq.label(), "Groq");
    assert_eq!(TranscriptionProvider::AssemblyAI.label(), "AssemblyAI");
}

#[test]
fn unknown_provider_names_are_refused() {
    assert_eq!(TranscriptionProvider::from_name("OpenAI"), None);
    assert_eq!(TranscriptionProvider::from_name(""), None);
    assert_eq!(TranscriptionProvider::from_name("whisper"), None);
}

#[test]
fn provider_endpoints() {
    assert_eq!(TranscriptionProvider::OpenAI.upload_url(), "https://api.openai.com/v1/audio/transcriptions");
    assert_eq!(TranscriptionProvider::Groq.upload_url(), "https://api.groq.com/openai/v1/audio/transcriptions");
    assert_eq!(TranscriptionProvider::AssemblyAI.upload_url(), "https://api.assemblyai.com/v2/upload");
    assert_eq!(TranscriptionProvider::OpenAI.whisper_model(), Some("whisper-1"));
    assert_eq!(TranscriptionProvider::Groq.whisper_model(), Some("whisper-large-v3"));
    assert_eq!(TranscriptionProvider::AssemblyAI.whisper_model(), None);
    assert_eq!(TranscriptionProvider::OpenAI.chat_completions_url(), Some("https://api.openai.com/v1/chat/completions"));
    assert_eq!(TranscriptionProvider::Groq.chat_completions_url(), Some("https://api.groq.com/openai/v1/chat/completions"));
    assert_eq!(TranscriptionProvider::AssemblyAI.chat_completions_url(), None);
    assert_eq!(TranscriptionProvider::AssemblyAI.key_check_url(), "https://api.assemblyai.com/v2/transcript?limit=1");
    assert_eq!(TranscriptionProvider::Groq.key_check_url(), "https://api.groq.com/openai/v1/models");
    assert_eq!(TranscriptionProvider::OpenAI.key_check_url(), "https://api.openai.com/v1/models");
}

#[test]
fn auth_headers() {
    assert_eq!(
        TranscriptionProvider::OpenAI.auth_header("sk-1"),
        ("Authorization", "Bearer sk-1".to_string())
    );
    assert_eq!(
        TranscriptionProvider::Groq.auth_header("gk"),
        ("Authorization", "Bearer gk".to_string())
    );
    assert_eq!(
        TranscriptionProvider::AssemblyAI.auth_header("aa"),
        ("authorization", "aa".to_string())
    );
}

#[test]
fn provider_chunk_configs() {
    let c = TranscriptionProvider::Groq.chunk_config();
    let g = ChunkConfig::for_groq();
    assert_eq!((c.max_size_bytes, c.overlap_millis, c.sample_rate), (g.max_size_bytes, g.overlap_millis, g.sample_rate));
    assert_eq!(TranscriptionProvider::AssemblyAI.chunk_config().max_size_bytes, usize::MAX);
    assert_eq!(TranscriptionProvider::OpenAI.chunk_config().max_size_bytes, 24 * 1024 * 1024);
}

#[test]
fn polling_states() {
    match poll_outcome("completed", Some("hi".to_string())) {
        PollOutcome::Completed(t) => assert_eq!(t, "hi"),
        _ => panic!("expected a completed transcript"),
    }
    match poll_outcome("completed", None) {
        PollOutcome::Completed(t) => assert_eq!(t, ""),
        _ => panic!("expected a completed transcript"),
    }
    assert!(matches!(poll_outcome("error", Some("x".to_string())), PollOutcome::Failed));
    assert!(matches!(poll_outcome("queued", None), PollOutcome::Pending));
    assert!(matches!(poll_outcome("processing", None), PollOutcome::Pending));
    assert_eq!(assemblyai_transcript_url("abc"), "https://api.assemblyai.com/v2/transcript/abc");
}

#[test]
fn first_choice_or_nothing() {
    assert_eq!(first_choice_content(vec!["a".to_string(), "b".to_string()]), "a");
    assert_eq!(first_choice_content(Vec::new()), "");
}

#[test]
fn job_with_small_audio_has_one_chunk() {
    let audio = vec![1u8, 2, 3];
    let mut job = TranscriptionJob::new(audio.clone(), &TranscriptionProvider::OpenAI);
    assert!(!job.is_done());
    assert_eq!(job.next_chunk(), Some(&audio));
    job.record("  only   one ".to_string());
    assert!(job.is_done());
    assert_eq!(job.next_chunk(), None);
    assert_eq!(job.transcript(), "  only   one ");
}

#[test]
fn job_with_long_audio_merges_chunk_transcripts() {
    let audio = vec![0u8; 20 * 1024 * 1024];
    let mut job = TranscriptionJob::new(audio, &TranscriptionProvider::Groq);
    let mut count = 0;
    let texts = ["one two three four five", "three four five six seven"];
    while let Some(chunk) = job.next_chunk() {
        assert!(chunk.len() <= 18 * 1024 * 1024);
        let t = texts[count].to_string();
        job.record(t);
        count += 1;
    }
    assert_eq!(count, 2);
    assert_eq!(job.transcript(), "one two three four five six seven");
}
