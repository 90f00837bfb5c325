//! Message and tool types exchanged with the model providers.
use vstd::prelude::*;
use crate::json::{Json, JsonValue};
use crate::local_gemma::LocalProvider;
use crate::text::copy_string;

pub mod claude;
pub mod claude_stream;
pub mod openrouter;
pub mod openrouter_stream;
pub mod replies;

verus! {

/// A tool the model may call: its name, a description and the JSON schema of
/// its input.
#[derive(Debug)]
pub struct ToolDefinition {
    pub name: String,
    pub description: String,
    pub input_schema: JsonValue,
}

/// A tool definition in the shape the cloud provider takes: name,
/// description and the JSON schema of its input.
#[derive(Debug)]
pub struct ClaudeTool {
    pub name: String,
    pub description: String,
    pub input_schema: JsonValue,
}

#[derive(Debug)]
pub struct ImageSource {
    pub source_type: String,
    pub media_type: String,
    pub data: String,
}

#[derive(Debug)]
pub struct DocumentSource {
    pub source_type: String,
    pub media_type: String,
    pub data: String,
}

#[derive(Debug)]
pub struct UsageInfo {
    pub input_tokens: u32,
    pub output_tokens: u32,
    pub cache_creation_input_tokens: u32,
    pub cache_read_input_tokens: u32,
}

#[derive(Debug)]
pub enum ContentBlock {
    Text { text: String },
    Image { source: ImageSource },
    Document { source: DocumentSource },
    ToolUse { id: String, name: String, input: JsonValue },
    ToolResult { tool_use_id: String, content: JsonValue, is_error: Option<bool> },
    Thinking { thinking: String, signature: String },
    RedactedThinking { data: String },
}

#[derive(Debug)]
pub enum MessageContent {
    Text(String),
    ContentBlocks(Vec<ContentBlock>),
}

#[derive(Debug)]
pub struct ChatMessage {
    pub role: String,
    pub content: MessageContent,
}

impl ChatMessage {
    /// A simple text message.
    pub fn text(role: String, text: String) -> (r: Self)
        ensures
            r.role@ == role@,
            r.content == MessageContent::Text(text),
    {
        ChatMessage { role, content: MessageContent::Text(text) }
    }

    /// A message with content blocks (text, tool_use, tool_result).
    pub fn with_blocks(role: String, blocks: Vec<ContentBlock>) -> (r: Self)
        ensures
            r.role@ == role@,
            r.content == MessageContent::ContentBlocks(blocks),
    {
        ChatMessage { role, content: MessageContent::ContentBlocks(blocks) }
    }
}

#[derive(Debug)]
pub enum ThinkingConfig {
    Adaptive,
}

#[derive(Debug)]
pub enum ThinkingBlock {
    Thinking { thinking: String, signature: String },
    RedactedThinking { data: String },
}

/// A tool call requested by the model.
#[derive(Debug)]
pub struct ToolCall {
    pub id: String,
    pub name: String,
    pub input: JsonValue,
}

/// A request to a model.
#[derive(Debug)]
pub struct GenerateRequest {
    pub messages: Vec<ChatMessage>,
    pub max_tokens: Option<u32>,
    /// The sampling temperature, as the JSON number sent.
    pub temperature: Option<JsonValue>,
    pub system: Option<String>,
    /// Context appended to the system prompt without being cached.
    pub blackboard_context: Option<String>,
    pub tools: Option<Vec<ToolDefinition>>,
    /// The provider's web search and fetch tools are offered too.
    pub supports_web_tools: bool,
    pub thinking: Option<ThinkingConfig>,
    pub tool_choice: Option<JsonValue>,
}

/// A model's reply.
#[derive(Debug)]
pub struct GenerateResponse {
    pub content: String,
    pub tool_calls: Vec<ToolCall>,
    pub thinking_blocks: Vec<ThinkingBlock>,
    pub stop_reason: Option<String>,
    pub usage: Option<UsageInfo>,
    /// The model that answered, where the provider chooses among several.
    pub model_used: Option<String>,
}

/// The configuration of a cloud provider speaking the Anthropic messages
/// API: its key, the model to ask for, and the request timeout its HTTP
/// client is built with.
#[derive(Debug)]
pub struct ClaudeProvider {
    api_key: String,
    model_identifier: Option<String>,
    timeout_secs: u64,
}

impl ClaudeProvider {
    pub closed spec fn api_key_view(&self) -> Seq<char> {
        self.api_key@
    }

    pub closed spec fn model_view(&self) -> Option<Seq<char>> {
        match self.model_identifier {
            Some(m) => Some(m@),
            None => None,
        }
    }

    pub closed spec fn timeout_view(&self) -> u64 {
        self.timeout_secs
    }

    /// A provider that uses the default model.
    pub fn new(api_key: String, timeout_secs: u64) -> (r: Self)
        ensures
            r.api_key_view() == api_key@,
            r.model_view() is None,
            r.timeout_view() == timeout_secs,
    {
        ClaudeProvider { api_key, model_identifier: None, timeout_secs }
    }

    /// A provider that asks for `model_identifier`.
    pub fn with_model(api_key: String, model_identifier: String, timeout_secs: u64) -> (r: Self)
        ensures
            r.api_key_view() == api_key@,
            r.model_view() == Some(model_identifier@),
            r.timeout_view() == timeout_secs,
    {
        ClaudeProvider { api_key, model_identifier: Some(model_identifier), timeout_secs }
    }

    pub fn api_key(&self) -> (r: String)
        ensures
            r@ == self.api_key_view(),
    {
        copy_string(&self.api_key)
    }

    pub fn model_identifier(&self) -> (r: Option<String>)
        ensures
            match r {
                Some(m) => self.model_view() == Some(m@),
                None => self.model_view() is None,
            },
    {
        match &self.model_identifier {
            Some(m) => Some(copy_string(m)),
            None => None,
        }
    }

    pub fn timeout_secs(&self) -> (r: u64)
        ensures
            r == self.timeout_view(),
    {
        self.timeout_secs
    }
}

/// The configuration of an OpenRouter provider: key, endpoint, model, the
/// models to fall back to, and the request timeout.
#[derive(Debug)]
pub struct OpenRouterProvider {
    api_key: String,
    base_url: String,
    model_identifier: Option<String>,
    pub fallback_models: Vec<String>,
    timeout_secs: u64,
}

impl OpenRouterProvider {
    pub closed spec fn api_key_view(&self) -> Seq<char> {
        self.api_key@
    }

    pub closed spec fn base_url_view(&self) -> Seq<char> {
        self.base_url@
    }

    pub closed spec fn model_view(&self) -> Option<Seq<char>> {
        match self.model_identifier {
            Some(m) => Some(m@),
            None => None,
        }
    }

    pub closed spec fn timeout_view(&self) -> u64 {
        self.timeout_secs
    }

    pub closed spec fn fallback_view(&self) -> Seq<Seq<char>> {
        crate::text::strings_view(self.fallback_models@)
    }

    /// A provider that asks for `model_identifier`, falling back to the
    /// listed models.
    pub fn with_model(
        api_key: String,
        base_url: String,
        model_identifier: String,
        fallback_models: Vec<String>,
        timeout_secs: u64,
    ) -> (r: Self)
        ensures
            r.api_key_view() == api_key@,
            r.base_url_view() == base_url@,
            r.model_view() == Some(model_identifier@),
            r.fallback_view() == crate::text::strings_view(fallback_models@),
            r.timeout_view() == timeout_secs,
    {
        OpenRouterProvider {
            api_key,
            base_url,
            model_identifier: Some(model_identifier),
            fallback_models,
            timeout_secs,
        }
    }

    pub fn api_key(&self) -> (r: String)
        ensures
            r@ == self.api_key_view(),
    {
        copy_string(&self.api_key)
    }

    pub fn base_url(&self) -> (r: String)
        ensures
            r@ == self.base_url_view(),
    {
        copy_string(&self.base_url)
    }

    pub fn model_identifier(&self) -> (r: Option<String>)
        ensures
            match r {
                Some(m) => self.model_view() == Some(m@),
                None => self.model_view() is None,
            },
    {
        match &self.model_identifier {
            Some(m) => Some(copy_string(m)),
            None => None,
        }
    }

    pub fn timeout_secs(&self) -> (r: u64)
        ensures
            r == self.timeout_view(),
    {
        self.timeout_secs
    }
}

/// The configuration of an OpenAI provider: its key.
#[derive(Debug)]
pub struct OpenAIProvider {
    pub api_key: String,
}

impl OpenAIProvider {
    pub fn new(api_key: String) -> (r: Self)
        ensures
            r.api_key == api_key,
    {
        OpenAIProvider { api_key }
    }
}

/// The configuration of a Gemini provider: its key.
#[derive(Debug)]
pub struct GeminiProvider {
    pub api_key: String,
}

impl GeminiProvider {
    pub fn new(api_key: String) -> (r: Self)
        ensures
            r.api_key == api_key,
    {
        GeminiProvider { api_key }
    }
}

/// The provider a request goes to.
#[derive(Debug)]
pub enum AiProvider {
    Claude(ClaudeProvider),
    Local(LocalProvider),
    OpenRouter(OpenRouterProvider),
}

// ---------------------------------------------------------------------------
// Views
// ---------------------------------------------------------------------------

/// A content block as a mathematical value.
pub enum BlockView {
    Text(Seq<char>),
    /// Source type, media type and data.
    Image(Seq<char>, Seq<char>, Seq<char>),
    Document(Seq<char>, Seq<char>, Seq<char>),
    /// Id, name and input.
    ToolUse(Seq<char>, Seq<char>, Json),
    /// Id of the call answered, content, error flag.
    ToolResult(Seq<char>, Json, Option<bool>),
    Thinking(Seq<char>, Seq<char>),
    RedactedThinking(Seq<char>),
}

impl View for ContentBlock {
    type V = BlockView;

    open spec fn view(&self) -> BlockView {
        match *self {
            ContentBlock::Text { text } => BlockView::Text(text@),
            ContentBlock::Image { source } => BlockView::Image(source.source_type@, source.media_type@, source.data@),
            ContentBlock::Document { source } => BlockView::Document(source.source_type@, source.media_type@, source.data@),
            ContentBlock::ToolUse { id, name, input } => BlockView::ToolUse(id@, name@, input@),
            ContentBlock::ToolResult { tool_use_id, content, is_error } => BlockView::ToolResult(tool_use_id@, content@, is_error),
            ContentBlock::Thinking { thinking, signature } => BlockView::Thinking(thinking@, signature@),
            ContentBlock::RedactedThinking { data } => BlockView::RedactedThinking(data@),
        }
    }
}

/// The blocks as mathematical values.
pub open spec fn blocks_view(bs: Seq<ContentBlock>) -> Seq<BlockView> {
    bs.map_values(|b: ContentBlock| b@)
}

/// A message content as a mathematical value.
pub enum ContentView {
    Text(Seq<char>),
    Blocks(Seq<BlockView>),
}

impl View for MessageContent {
    type V = ContentView;

    open spec fn view(&self) -> ContentView {
        match *self {
            MessageContent::Text(t) => ContentView::Text(t@),
            MessageContent::ContentBlocks(bs) => ContentView::Blocks(blocks_view(bs@)),
        }
    }
}

/// A chat message as a mathematical value.
pub struct MessageView {
    pub role: Seq<char>,
    pub content: ContentView,
}

impl View for ChatMessage {
    type V = MessageView;

    open spec fn view(&self) -> MessageView {
        MessageView { role: self.role@, content: self.content@ }
    }
}

/// The messages as mathematical values.
pub open spec fn messages_view(ms: Seq<ChatMessage>) -> Seq<MessageView> {
    ms.map_values(|m: ChatMessage| m@)
}

} // verus!
