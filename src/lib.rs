use vstd::prelude::*;

pub mod config;
pub mod job;
pub mod natural;
pub mod pcm;
pub mod settings;
pub mod tempo;
pub mod text;
pub mod voice;

verus! {

/// How a synthesis job ended when it did not fail.
#[derive(Clone, Copy, PartialEq, Eq, Structural, Debug)]
pub enum LocalJobEndState {
    Done,
    Canceled,
}

/// The kinds of failure that the library reports.
#[derive(Clone, Copy, PartialEq, Eq, Structural, Debug)]
pub enum ErrorKind {
    /// An outside asset or a setting is malformed, such as a template missing required
    /// fields or an empty hotkey.
    ConfigurationError,
    /// The built-in default voice cannot be changed or deleted.
    DefaultVoiceImmutable,
}

/// A failure: its kind and a message for people.
#[derive(Clone, Debug)]
pub struct EngineError {
    pub kind: ErrorKind,
    pub message: String,
}

/// What is stored of a saved voice.
#[derive(Clone, Debug)]
pub struct SavedVoiceMeta {
    pub voice_id: String,
    pub display_name: String,
    pub created_at: String,
    pub tts_model_id: String,
    pub language_hint: String,
    pub description: Option<String>,
    pub ref_text: Option<String>,
}

} // verus!
