//! Local model support for output that wraps tool calls in
//! `<tool_call>{JSON}</tool_call>` tags.
pub mod stream;
pub mod parse;
pub mod calls;
pub mod tools;
pub mod render;
pub mod provider;

pub use crate::prompt_window::{truncate_messages_if_needed, MAX_PROMPT_CHARS};
pub use parse::{parse_python_speak_output, strip_eot_markers};
pub use stream::{StreamProcessor, StreamState};
pub use provider::LocalProvider;
