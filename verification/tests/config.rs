use hey::config::{
    default_groq_model, default_openai_model, default_save_history, default_system_prompt, Config,
    RecordingMode,
};
use hey::transcription::TranscriptionProvider;

#[test]
fn config_defaults() {
    let c = Config::default();
    assert_eq!(c.active_provider, TranscriptionProvider::OpenAI);
    assert_eq!(c.shortcut, "Cmd+Shift+Space");
    assert!(!c.auto_paste);
    assert!(c.format_with_ai);
    assert_eq!(c.openai_formatting_model, "gpt-4o-mini");
    assert_eq!(c.groq_formatting_model, "llama-3.1-8b-instant");
    assert_eq!(c.system_prompt, default_system_prompt());
    assert_eq!(c.selected_device, None);
    assert!(c.save_history);
    assert!(!c.launch_at_login);
    assert_eq!(c.recording_mode, RecordingMode::Toggle);
}

#[test]
fn default_values() {
    assert!(default_save_history());
    assert_eq!(default_openai_model(), "gpt-4o-mini");
    assert_eq!(default_groq_model(), "llama-3.1-8b-instant");
    assert!(default_system_prompt().starts_with("You are a transcript formatter."));
    assert!(default_system_prompt().ends_with("Output only the cleaned text, nothing else."));
    assert_eq!(RecordingMode::default(), RecordingMode::Toggle);
}
