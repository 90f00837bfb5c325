//! Local model support for output in the Gemma native tool-call format
//! (`<|tool_call>call:name{args}<tool_call|>`).
pub mod stream;
pub mod parse;
pub mod args;
pub mod calls;
pub mod tools;
pub mod render;
pub mod round_trip;
pub mod provider;

pub use crate::prompt_window::{truncate_messages_if_needed, MAX_PROMPT_CHARS};
pub use parse::{parse_python_speak_output, strip_eot_markers};
pub use stream::{StreamProcessor, StreamState};
pub use provider::LocalProvider;
