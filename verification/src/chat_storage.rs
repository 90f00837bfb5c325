//! Messages as the conversation store keeps them.
use vstd::prelude::*;
use crate::json::{Json, JsonValue};
use crate::providers::{DocumentSource, ImageSource};
use crate::text::strings_view;

verus! {

/// A content block of a stored message. Besides what is sent to a model it
/// records references to attached files and camera frames, spoken output and
/// questions put to the user.
#[derive(Debug)]
pub enum ContentBlock {
    Text { text: String },
    Image { source: ImageSource },
    Document { source: DocumentSource },
    /// A file of the knowledge base attached to the message.
    FileRef { file_iri: String, file_name: String, token_estimate: usize, ai_summary: Option<String> },
    /// A camera frame saved on disk.
    CameraRef { file_path: String, token_estimate: usize },
    /// A tool call, with the short statement of intent the model gave for it.
    ToolUse { id: String, name: String, input: JsonValue, reason: Option<String> },
    /// A tool result; its content is kept as text, with how long the tool ran.
    ToolResult { tool_use_id: String, content: String, is_error: Option<bool>, duration_ms: Option<u64> },
    Thinking { thinking: String, signature: String },
    RedactedThinking { data: String },
    /// Text the assistant spoke aloud.
    SpeakOutput { text: String },
    /// A question put to the user, with the kind of answer expected and the
    /// options offered.
    QuestionOutput { id: String, question: String, question_type: String, options: Vec<String> },
    /// The summary that replaces the compacted start of a conversation.
    CompactionSummary { text: String },
}

/// A stored message.
#[derive(Debug)]
pub struct AIConversationMessage {
    pub iri: String,
    pub role: String,
    pub content: Vec<ContentBlock>,
    pub timestamp: i64,
    pub token_count: Option<usize>,
    pub model: Option<String>,
    pub stop_reason: Option<String>,
    pub input_tokens: Option<usize>,
    pub output_tokens: Option<usize>,
}

/// A stored content block as a mathematical value.
pub enum StoredBlockView {
    Text(Seq<char>),
    Image(Seq<char>, Seq<char>, Seq<char>),
    Document(Seq<char>, Seq<char>, Seq<char>),
    /// IRI, name, token estimate, summary.
    FileRef(Seq<char>, Seq<char>, usize, Option<Seq<char>>),
    CameraRef(Seq<char>, usize),
    /// Id, name, input, reason.
    ToolUse(Seq<char>, Seq<char>, Json, Option<Seq<char>>),
    /// Call id, content, error flag, duration.
    ToolResult(Seq<char>, Seq<char>, Option<bool>, Option<u64>),
    Thinking(Seq<char>, Seq<char>),
    RedactedThinking(Seq<char>),
    SpeakOutput(Seq<char>),
    /// Id, question, question type, options.
    QuestionOutput(Seq<char>, Seq<char>, Seq<char>, Seq<Seq<char>>),
    CompactionSummary(Seq<char>),
}

pub open spec fn opt_string_view(o: Option<String>) -> Option<Seq<char>> {
    match o {
        Some(s) => Some(s@),
        None => None,
    }
}

impl View for ContentBlock {
    type V = StoredBlockView;

    open spec fn view(&self) -> StoredBlockView {
        match *self {
            ContentBlock::Text { text } => StoredBlockView::Text(text@),
            ContentBlock::Image { source } => StoredBlockView::Image(source.source_type@, source.media_type@, source.data@),
            ContentBlock::Document { source } => StoredBlockView::Document(
                source.source_type@,
                source.media_type@,
                source.data@,
            ),
            ContentBlock::FileRef { file_iri, file_name, token_estimate, ai_summary } => StoredBlockView::FileRef(
                file_iri@,
                file_name@,
                token_estimate,
                opt_string_view(ai_summary),
            ),
            ContentBlock::CameraRef { file_path, token_estimate } => StoredBlockView::CameraRef(file_path@, token_estimate),
            ContentBlock::ToolUse { id, name, input, reason } => StoredBlockView::ToolUse(
                id@,
                name@,
                input@,
                opt_string_view(reason),
            ),
            ContentBlock::ToolResult { tool_use_id, content, is_error, duration_ms } => StoredBlockView::ToolResult(
                tool_use_id@,
                content@,
                is_error,
                duration_ms,
            ),
            ContentBlock::Thinking { thinking, signature } => StoredBlockView::Thinking(thinking@, signature@),
            ContentBlock::RedactedThinking { data } => StoredBlockView::RedactedThinking(data@),
            ContentBlock::SpeakOutput { text } => StoredBlockView::SpeakOutput(text@),
            ContentBlock::QuestionOutput { id, question, question_type, options } => StoredBlockView::QuestionOutput(
                id@,
                question@,
                question_type@,
                strings_view(options@),
            ),
            ContentBlock::CompactionSummary { text } => StoredBlockView::CompactionSummary(text@),
        }
    }
}

/// The stored blocks as mathematical values.
pub open spec fn stored_blocks_view(bs: Seq<ContentBlock>) -> Seq<StoredBlockView> {
    bs.map_values(|b: ContentBlock| b@)
}

} // verus!
