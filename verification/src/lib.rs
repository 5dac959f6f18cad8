//! SpeakAgent core: the OS-agnostic logic of the transcription and meeting-summary engine.
pub mod asr;
pub mod audio;
pub mod chat;
pub mod collect;
pub mod control;
pub mod decode;
pub mod diarize;
pub mod dictation;
pub mod gpu;
pub mod hw;
pub mod keys;
pub mod llm;
pub mod mcp;
pub mod models;
pub mod pdf;
pub mod prompts;
pub mod punct;
pub mod store;
pub mod text;
