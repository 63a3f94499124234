//! The verified core of a multitrack sound editor: clip storage with undo,
//! sample-buffer edits, deinterleaving of decoded and recorded audio, and the
//! small pieces of path and session bookkeeping the commands rely on.
//!
//! Samples are a type parameter: everything here moves samples around but
//! never does arithmetic on them, so the library is exact for any sample type.

pub mod audio;
pub mod commands;
mod text;
