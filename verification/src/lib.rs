//! Verified text processing and conversation logic for the Foundation AI chat.
pub mod text;
pub mod tag_guard;
pub mod number_text;
pub mod local_gemma;
pub mod local_xml;
pub mod local_output;
pub mod prompt_window;
pub mod cancellation;
pub mod json;
pub mod providers;
pub mod tool_calls;
pub mod tool_prompt;
pub mod message_text;
pub mod subconscious;
pub mod graph;
pub mod settings;
pub mod compaction;
pub mod foundation_context;
pub mod loop_tools;
pub mod recovery;
pub mod automation;
pub mod trace;
pub mod message_utils;
pub mod chat_storage;
pub mod engine;
pub mod chat_display;
pub mod user_turn;
pub mod conversation_list;
pub mod retention;
pub mod ontology_lock;
pub mod tool_execution;
pub mod file_paths;
pub mod orphans;
pub mod request;
pub mod due_dates;
