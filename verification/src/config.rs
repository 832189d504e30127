//! User settings and their defaults.
use vstd::prelude::*;
use crate::text::owned;
use crate::transcription::TranscriptionProvider;

verus! {

/// How the global shortcut drives recording.
#[derive(Clone, Copy, Debug, PartialEq, Eq, Structural)]
pub enum RecordingMode {
    /// Press to start, press again to stop.
    Toggle,
    /// Record while the shortcut is held (push-to-talk).
    Hold,
}

impl Default for RecordingMode {
    fn default() -> (r: Self)
        ensures
            r == RecordingMode::Toggle,
    {
        RecordingMode::Toggle
    }
}

/// The settings of the application. API keys are kept in the system
/// keychain, not here.
#[derive(Clone, Debug)]
pub struct Config {
    pub active_provider: TranscriptionProvider,
    pub shortcut: String,
    pub auto_paste: bool,
    pub format_with_ai: bool,
    pub openai_formatting_model: String,
    pub groq_formatting_model: String,
    pub system_prompt: String,
    pub selected_device: Option<String>,
    pub save_history: bool,
    pub launch_at_login: bool,
    pub recording_mode: RecordingMode,
}

/// History is kept unless the user turns it off.
pub fn default_save_history() -> (r: bool)
    ensures
        r,
{
    true
}

/// The OpenAI model that formats transcripts unless another is chosen.
pub fn default_openai_model() -> (r: String)
    ensures
        r@ == "gpt-4o-mini"@,
{
    owned("gpt-4o-mini")
}

/// The Groq model that formats transcripts unless another is chosen.
pub fn default_groq_model() -> (r: String)
    ensures
        r@ == "llama-3.1-8b-instant"@,
{
    owned("llama-3.1-8b-instant")
}

/// The instruction given to the formatting model unless another is chosen.
pub fn default_system_prompt() -> (r: String)
    ensures
        r@ == "You are a transcript formatter. Clean up the following speech-to-text transcript by fixing punctuation, capitalization, and minor errors. Keep the original meaning and words as much as possible. Output only the cleaned text, nothing else."@,
{
    owned("You are a transcript formatter. Clean up the following speech-to-text transcript by fixing punctuation, capitalization, and minor errors. Keep the original meaning and words as much as possible. Output only the cleaned text, nothing else.")
}

impl Default for Config {
    /// OpenAI, the Cmd+Shift+Space shortcut, no automatic pasting, AI
    /// formatting on, the default models and prompt, the system input
    /// device, history kept, not launched at login, toggle recording.
    fn default() -> (c: Self)
        ensures
            c.active_provider == TranscriptionProvider::OpenAI,
            c.shortcut@ == "Cmd+Shift+Space"@,
            !c.auto_paste,
            c.format_with_ai,
            c.openai_formatting_model@ == "gpt-4o-mini"@,
            c.groq_formatting_model@ == "llama-3.1-8b-instant"@,
            c.system_prompt@ == "You are a transcript formatter. Clean up the following speech-to-text transcript by fixing punctuation, capitalization, and minor errors. Keep the original meaning and words as much as possible. Output only the cleaned text, nothing else."@,
            c.selected_device is None,
            c.save_history,
            !c.launch_at_login,
            c.recording_mode == RecordingMode::Toggle,
    {
        Config {
            active_provider: TranscriptionProvider::OpenAI,
            shortcut: owned("Cmd+Shift+Space"),
            auto_paste: false,
            format_with_ai: true,
            openai_formatting_model: default_openai_model(),
            groq_formatting_model: default_groq_model(),
            system_prompt: default_system_prompt(),
            selected_device: None,
            save_history: default_save_history(),
            launch_at_login: false,
            recording_mode: RecordingMode::default(),
        }
    }
}

} // verus!
