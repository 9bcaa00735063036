//! GhostWhisper's verified core: what a dictation applet decides between
//! the microphone, Whisper and a virtual keyboard. The panel's state
//! machine, the keymap and the key script that typing produces, the
//! clean-up of Whisper's output, the trimming of silence, the model files'
//! paths and download bookkeeping, and the command line.

pub mod audio;
pub mod cli;
pub mod config;
pub mod model;
pub mod panel;
pub mod text;
pub mod transcribe;
pub mod typer;
