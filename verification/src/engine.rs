//! The decisions of the conversation loop: when to stop, when to retry,
//! when to nudge the model, and what to do after a reply. The loop itself,
//! which calls the provider and the store, runs these decisions one
//! iteration at a time.
use vstd::prelude::*;
use crate::chat_storage::{AIConversationMessage, ContentBlock as StoredBlock, StoredBlockView, stored_blocks_view};
use crate::json::json_to_string;
use crate::json::json_text;
use crate::providers::{
    BlockView, ChatMessage, ContentBlock, ContentView, MessageContent, MessageView, ToolCall, blocks_view,
    messages_view,
};
use crate::text::{copy_string, str_concat, str_eq, to_owned_string, chars_of, find, find_chars};
use crate::tool_calls::usize_to_string;
use crate::number_text::decimal_text;

verus! {

// ---------------------------------------------------------------------------
// What the history says
// ---------------------------------------------------------------------------

/// The index of the last message before `n` whose role is `assistant`.
pub open spec fn last_assistant_before(ms: Seq<AIConversationMessage>, n: int) -> Option<int>
    decreases n,
{
    if n <= 0 {
        None
    } else if ms[n - 1].role@ == "assistant"@ {
        Some(n - 1)
    } else {
        last_assistant_before(ms, n - 1)
    }
}

/// The id of the first block that asks the user a question: a call of
/// `ask_question` or a stored question.
pub open spec fn question_id(bs: Seq<StoredBlockView>) -> Option<Seq<char>>
    decreases bs.len(),
{
    if bs.len() == 0 {
        None
    } else {
        match bs[0] {
            StoredBlockView::ToolUse(id, name, _, _) => if name == "ask_question"@ {
                Some(id)
            } else {
                question_id(bs.drop_first())
            },
            StoredBlockView::QuestionOutput(id, _, _, _) => Some(id),
            _ => question_id(bs.drop_first()),
        }
    }
}

/// The message is a user message with a result for the call `id`.
pub open spec fn answers_call(m: AIConversationMessage, id: Seq<char>) -> bool {
    m.role@ == "user"@ && exists|k: int|
        0 <= k < m.content@.len() && (#[trigger] m.content@[k]@ matches StoredBlockView::ToolResult(t, _, _, _) && t == id)
}

/// A user message after the message `i` has a result for the call `id`.
pub open spec fn answered_after(ms: Seq<AIConversationMessage>, i: int, id: Seq<char>) -> bool {
    exists|j: int| i < j < ms.len() && answers_call(#[trigger] ms[j], id)
}

/// The question asked by the last assistant message and not answered by a
/// later user message: its id and the index of the message.
pub open spec fn pending_question_spec(ms: Seq<AIConversationMessage>) -> Option<(Seq<char>, int)> {
    match last_assistant_before(ms, ms.len() as int) {
        Some(i) => match question_id(stored_blocks_view(ms[i].content@)) {
            Some(id) => if answered_after(ms, i, id) {
                None
            } else {
                Some((id, i))
            },
            None => None,
        },
        None => None,
    }
}

fn block_question_id(b: &StoredBlock) -> (r: Option<&String>)
    ensures
        match b@ {
            StoredBlockView::ToolUse(id, name, _, _) => if name == "ask_question"@ {
                r matches Some(s) && s@ == id
            } else {
                r is None
            },
            StoredBlockView::QuestionOutput(id, _, _, _) => r matches Some(s) && s@ == id,
            _ => r is None,
        },
{
    match b {
        StoredBlock::ToolUse { id, name, .. } => {
            if str_eq(name.as_str(), "ask_question") {
                Some(id)
            } else {
                None
            }
        },
        StoredBlock::QuestionOutput { id, .. } => Some(id),
        _ => None,
    }
}

fn first_question_id(bs: &Vec<StoredBlock>) -> (r: Option<String>)
    ensures
        match r {
            Some(s) => question_id(stored_blocks_view(bs@)) == Some(s@),
            None => question_id(stored_blocks_view(bs@)) is None,
        },
{
    let ghost sv = stored_blocks_view(bs@);
    let mut i: usize = 0;
    assert(sv.skip(0) =~= sv);
    while i < bs.len()
        invariant
            i <= bs@.len(),
            sv == stored_blocks_view(bs@),
            question_id(sv) == question_id(sv.skip(i as int)),
        decreases bs.len() - i,
    {
        assert(sv.skip(i as int)[0] == bs@[i as int]@);
        assert(sv.skip(i as int).drop_first() =~= sv.skip(i + 1));
        match block_question_id(&bs[i]) {
            Some(id) => {
                return Some(copy_string(id));
            },
            None => {},
        }
        i = i + 1;
    }
    assert(sv.skip(i as int).len() == 0);
    None
}

fn message_answers(m: &AIConversationMessage, id: &str) -> (r: bool)
    ensures
        r == answers_call(*m, id@),
{
    if !str_eq(m.role.as_str(), "user") {
        return false;
    }
    let mut k: usize = 0;
    while k < m.content.len()
        invariant
            k <= m.content@.len(),
            m.role@ == "user"@,
            forall|x: int|
                0 <= x < k ==> !(#[trigger] m.content@[x]@ matches StoredBlockView::ToolResult(t, _, _, _) && t == id@),
        decreases m.content.len() - k,
    {
        match &m.content[k] {
            StoredBlock::ToolResult { tool_use_id, .. } => {
                if str_eq(tool_use_id.as_str(), id) {
                    assert(m.content@[k as int]@ matches StoredBlockView::ToolResult(t, _, _, _) && t == id@);
                    return true;
                }
            },
            _ => {},
        }
        k = k + 1;
    }
    false
}

fn role_is(m: &AIConversationMessage, role: &str) -> (r: bool)
    ensures
        r == (m.role@ == role@),
{
    str_eq(m.role.as_str(), role)
}

/// The question that the last assistant message asked and no later user
/// message answered: its id and the index of that message (see
/// [`pending_question_spec`]).
pub fn pending_question(history: &[AIConversationMessage]) -> (r: Option<(String, usize)>)
    ensures
        match r {
            Some((id, i)) => pending_question_spec(history@) == Some((id@, i as int)),
            None => pending_question_spec(history@) is None,
        },
{
    let ghost ms = history@;
    let mut n = history.len();
    while n > 0 && !role_is(&history[n - 1], "assistant")
        invariant
            n <= ms.len(),
            ms == history@,
            last_assistant_before(ms, ms.len() as int) == last_assistant_before(ms, n as int),
        decreases n,
    {
        n = n - 1;
    }
    if n == 0 {
        return None;
    }
    let i = n - 1;
    assert(ms[i as int].role@ == "assistant"@);
    assert(last_assistant_before(ms, n as int) == Some(i as int));
    assert(last_assistant_before(ms, ms.len() as int) == Some(i as int));
    let id = match first_question_id(&history[i].content) {
        Some(id) => id,
        None => {
            return None;
        },
    };
    assert(question_id(stored_blocks_view(ms[i as int].content@)) == Some(id@));
    let mut j = i + 1;
    while j < history.len()
        invariant
            i < j <= ms.len(),
            ms == history@,
            last_assistant_before(ms, ms.len() as int) == Some(i as int),
            question_id(stored_blocks_view(ms[i as int].content@)) == Some(id@),
            forall|x: int| i < x < j ==> !answers_call(#[trigger] ms[x], id@),
        decreases history.len() - j,
    {
        if message_answers(&history[j], id.as_str()) {
            assert(answers_call(ms[j as int], id@));
            assert(answered_after(ms, i as int, id@));
            return None;
        }
        j = j + 1;
    }
    Some((id, i))
}

/// Some user message after `q_idx` holds a block other than a tool result:
/// the user went on instead of answering.
pub open spec fn user_went_on(ms: Seq<AIConversationMessage>, q_idx: int) -> bool {
    exists|j: int|
        q_idx < j < ms.len() && (#[trigger] ms[j]).role@ == "user"@ && exists|k: int|
            0 <= k < ms[j].content@.len() && !(#[trigger] ms[j].content@[k]@ is ToolResult)
}

fn has_non_result(m: &AIConversationMessage) -> (r: bool)
    ensures
        r == exists|k: int| 0 <= k < m.content@.len() && !(#[trigger] m.content@[k]@ is ToolResult),
{
    let mut k: usize = 0;
    while k < m.content.len()
        invariant
            k <= m.content@.len(),
            forall|x: int| 0 <= x < k ==> (#[trigger] m.content@[x]@ is ToolResult),
        decreases m.content.len() - k,
    {
        match &m.content[k] {
            StoredBlock::ToolResult { .. } => {},
            _ => {
                assert(!(m.content@[k as int]@ is ToolResult));
                return true;
            },
        }
        k = k + 1;
    }
    false
}

/// Whether a user message after the question at `q_idx` goes on without
/// answering it (see [`user_went_on`]); when it does not, the conversation
/// waits for the answer.
pub fn user_continued_after(history: &[AIConversationMessage], q_idx: usize) -> (r: bool)
    ensures
        r == user_went_on(history@, q_idx as int),
{
    let ghost ms = history@;
    let mut j: usize = q_idx;
    while j < history.len()
        invariant
            q_idx <= j,
            ms == history@,
            forall|x: int|
                q_idx < x < j + 1 && x < ms.len() ==> !((#[trigger] ms[x]).role@ == "user"@ && exists|k: int|
                    0 <= k < ms[x].content@.len() && !(#[trigger] ms[x].content@[k]@ is ToolResult)),
        decreases history.len() - j,
    {
        if j + 1 < history.len() {
            if str_eq(history[j + 1].role.as_str(), "user") && has_non_result(&history[j + 1]) {
                return true;
            }
        }
        j = j + 1;
    }
    false
}

/// The history ends with an assistant message without content that stopped
/// at the end of its turn.
pub open spec fn ended_cleanly_spec(ms: Seq<AIConversationMessage>) -> bool {
    ms.len() > 0 && ms.last().role@ == "assistant"@ && ms.last().content@.len() == 0 && (
    ms.last().stop_reason matches Some(s) && s@ == "end_turn"@)
}

/// Whether the conversation already ended cleanly (see
/// [`ended_cleanly_spec`]); there is nothing left to do then.
pub fn ended_cleanly(history: &[AIConversationMessage]) -> (r: bool)
    ensures
        r == ended_cleanly_spec(history@),
{
    let n = history.len();
    if n == 0 {
        return false;
    }
    let last = &history[n - 1];
    if !str_eq(last.role.as_str(), "assistant") || last.content.len() != 0 {
        return false;
    }
    match &last.stop_reason {
        Some(s) => str_eq(s.as_str(), "end_turn"),
        None => false,
    }
}

// ---------------------------------------------------------------------------
// Thinking blocks taken out after the provider refused them
// ---------------------------------------------------------------------------

pub open spec fn is_thinking(b: BlockView) -> bool {
    b is Thinking || b is RedactedThinking
}

pub open spec fn without_thinking(bs: Seq<BlockView>) -> Seq<BlockView>
    decreases bs.len(),
{
    if bs.len() == 0 {
        Seq::empty()
    } else if is_thinking(bs.last()) {
        without_thinking(bs.drop_last())
    } else {
        without_thinking(bs.drop_last()).push(bs.last())
    }
}

/// An assistant message with blocks loses its thinking blocks.
pub open spec fn thinking_stripped_message(m: MessageView) -> MessageView {
    if m.role == "assistant"@ && m.content is Blocks {
        MessageView { role: m.role, content: ContentView::Blocks(without_thinking(m.content->Blocks_0)) }
    } else {
        m
    }
}

/// An assistant message left without blocks is dropped.
pub open spec fn kept_after_strip(m: MessageView) -> bool {
    !(m.role == "assistant"@ && m.content == ContentView::Blocks(Seq::empty()))
}

/// The messages with the thinking blocks of assistant messages taken out,
/// and the assistant messages left without blocks dropped.
pub open spec fn thinking_stripped(ms: Seq<MessageView>) -> Seq<MessageView>
    decreases ms.len(),
{
    if ms.len() == 0 {
        Seq::empty()
    } else if kept_after_strip(thinking_stripped_message(ms.last())) {
        thinking_stripped(ms.drop_last()).push(thinking_stripped_message(ms.last()))
    } else {
        thinking_stripped(ms.drop_last())
    }
}

fn blocks_without_thinking(bs: Vec<ContentBlock>) -> (r: Vec<ContentBlock>)
    ensures
        blocks_view(r@) == without_thinking(blocks_view(bs@)),
{
    let ghost bv = blocks_view(bs@);
    let mut kept: Vec<ContentBlock> = Vec::new();
    let mut rest = bs;
    let ghost mut k: int = 0;
    assert(bv.skip(0) =~= bv);
    assert(blocks_view(kept@) =~= without_thinking(bv.take(0)));
    while rest.len() > 0
        invariant
            0 <= k <= bv.len(),
            rest@.len() + k == bv.len(),
            blocks_view(rest@) == bv.skip(k),
            blocks_view(kept@) == without_thinking(bv.take(k)),
        decreases rest.len(),
    {
        let ghost r0 = rest@;
        assert(blocks_view(r0)[0] == r0[0]@);
        let b = rest.remove(0);
        assert(rest@ =~= r0.subrange(1, r0.len() as int));
        assert(blocks_view(rest@) =~= blocks_view(r0).subrange(1, r0.len() as int));
        assert(bv.skip(k)[0] == b@);
        assert(bv.take(k + 1).drop_last() =~= bv.take(k));
        assert(bv.take(k + 1).last() == b@);
        assert(blocks_view(rest@) =~= bv.skip(k + 1));
        let thinking = match &b {
            ContentBlock::Thinking { .. } => true,
            ContentBlock::RedactedThinking { .. } => true,
            _ => false,
        };
        if !thinking {
            let ghost prev = blocks_view(kept@);
            let ghost bw = b@;
            kept.push(b);
            assert(blocks_view(kept@) =~= prev.push(bw));
        }
        proof {
            k = k + 1;
        }
    }
    assert(bv.take(k) =~= bv);
    kept
}

/// Takes the thinking blocks out of the assistant messages and drops the
/// assistant messages left without blocks, after the provider refused the
/// thinking blocks of the history (see [`thinking_stripped`]).
pub fn strip_thinking_blocks(messages: &mut Vec<ChatMessage>)
    ensures
        messages_view(final(messages)@) == thinking_stripped(messages_view(old(messages)@)),
{
    let ghost mv = messages_view(messages@);
    let mut rest: Vec<ChatMessage> = Vec::new();
    std::mem::swap(&mut rest, messages);
    let mut out: Vec<ChatMessage> = Vec::new();
    let ghost mut k: int = 0;
    assert(mv.skip(0) =~= mv);
    assert(messages_view(out@) =~= thinking_stripped(mv.take(0)));
    while rest.len() > 0
        invariant
            0 <= k <= mv.len(),
            rest@.len() + k == mv.len(),
            messages_view(rest@) == mv.skip(k),
            messages_view(out@) == thinking_stripped(mv.take(k)),
        decreases rest.len(),
    {
        let ghost r0 = rest@;
        assert(messages_view(r0)[0] == r0[0]@);
        let m = rest.remove(0);
        assert(rest@ =~= r0.subrange(1, r0.len() as int));
        assert(messages_view(rest@) =~= messages_view(r0).subrange(1, r0.len() as int));
        assert(mv.skip(k)[0] == m@);
        assert(mv.take(k + 1).drop_last() =~= mv.take(k));
        assert(mv.take(k + 1).last() == m@);
        assert(messages_view(rest@) =~= mv.skip(k + 1));
        let ghost mw = m@;
        let ChatMessage { role, content } = m;
        let is_assistant = str_eq(role.as_str(), "assistant");
        let (content, keep) = if is_assistant {
            match content {
                MessageContent::ContentBlocks(bs) => {
                    let kept = blocks_without_thinking(bs);
                    let keep = kept.len() > 0;
                    proof {
                        if !keep {
                            assert(blocks_view(kept@) =~= Seq::<BlockView>::empty());
                        }
                    }
                    (MessageContent::ContentBlocks(kept), keep)
                },
                MessageContent::Text(t) => (MessageContent::Text(t), true),
            }
        } else {
            (content, true)
        };
        let nm = ChatMessage { role, content };
        assert(nm@ == thinking_stripped_message(mw));
        proof {
            reveal_strlit("assistant");
            if keep && is_assistant && nm.content is ContentBlocks {
                assert(blocks_view(nm.content->ContentBlocks_0@).len() > 0);
            }
        }
        if keep {
            let ghost prev = messages_view(out@);
            out.push(nm);
            assert(messages_view(out@) =~= prev.push(thinking_stripped_message(mw)));
        }
        proof {
            k = k + 1;
        }
    }
    assert(mv.take(k) =~= mv);
    *messages = out;
}

// ---------------------------------------------------------------------------
// The state of the loop
// ---------------------------------------------------------------------------

/// The number of model calls after which the loop gives up.
pub const MAX_TOOL_LOOPS: usize = 20;

/// The error when the loop ran too many times.
pub const MAX_LOOPS_ERROR: &'static str = "Too many tool execution loops — stopping to prevent infinite loop";

/// The error when there is nothing to send.
pub const EMPTY_HISTORY_ERROR: &'static str = "Conversation history is empty — cannot send request to the AI provider";

/// The error after three replies without a stop reason.
pub const TRUNCATED_ERROR: &'static str = "API returned a truncated response (stop_reason=None) 3 consecutive times";

/// What the model is told after an empty reply.
pub const EMPTY_REPLY_NUDGE: &'static str = "[System] You returned an empty response. You MUST reply to the user with text now — summarize what was done, report the result, or explain what happened.";

/// Why the loop ended.
#[derive(Debug, PartialEq, Eq, Structural, Clone, Copy)]
pub enum Termination {
    EndTurn,
    MaxLoops,
    Cancelled,
    Question,
    Error,
    LoopDetected,
}

/// The name under which an ending is recorded in the trace.
pub open spec fn termination_name(t: Termination) -> Seq<char> {
    match t {
        Termination::EndTurn => "end_turn"@,
        Termination::MaxLoops => "max_loops"@,
        Termination::Cancelled => "cancelled"@,
        Termination::Question => "question"@,
        Termination::Error => "error"@,
        Termination::LoopDetected => "loop_detected"@,
    }
}

impl Termination {
    /// The name under which the ending is recorded in the trace.
    pub fn as_str(&self) -> (r: &'static str)
        ensures
            r@ == termination_name(*self),
    {
        match self {
            Termination::EndTurn => "end_turn",
            Termination::MaxLoops => "max_loops",
            Termination::Cancelled => "cancelled",
            Termination::Question => "question",
            Termination::Error => "error",
            Termination::LoopDetected => "loop_detected",
        }
    }
}

/// The end of the loop: why, and the error it reports, if any.
#[derive(Debug)]
pub struct Stop {
    pub termination: Termination,
    pub error: Option<String>,
}

/// The stop for `t` with the error `e`.
pub open spec fn stop_is(s: Stop, t: Termination, e: Option<Seq<char>>) -> bool {
    s.termination == t && match (s.error, e) {
        (Some(x), Some(y)) => x@ == y,
        (None, None) => true,
        _ => false,
    }
}

/// The loop stops for `t` with the error `e`.
pub open spec fn stops_with(r: Option<Stop>, t: Termination, e: Option<Seq<char>>) -> bool {
    match r {
        Some(s) => stop_is(s, t, e),
        None => false,
    }
}

/// The counters and flags that the loop carries from one iteration to the
/// next.
#[derive(Debug)]
pub struct LoopState {
    /// Model calls begun.
    pub loop_count: usize,
    /// The history is sent without thinking blocks.
    pub strip_thinking: bool,
    /// The per-turn context (attachments, camera, memory) is still to be sent.
    pub is_first_iteration: bool,
    /// Consecutive replies without a stop reason.
    pub none_stop_retries: usize,
    /// The model was already told to answer after an empty reply.
    pub empty_end_nudged: bool,
    /// How many times each call (name and arguments) was made.
    pub fingerprints: Vec<(String, usize)>,
    pub total_input_tokens: usize,
    pub total_output_tokens: usize,
}

/// The fingerprint counts as mathematical values.
pub open spec fn fingerprints_view(v: Seq<(String, usize)>) -> Seq<(Seq<char>, usize)> {
    v.map_values(|p: (String, usize)| (p.0@, p.1))
}

/// The index of the first count for `k`.
pub open spec fn fp_index(fps: Seq<(Seq<char>, usize)>, k: Seq<char>) -> Option<int>
    decreases fps.len(),
{
    if fps.len() == 0 {
        None
    } else if fps[0].0 == k {
        Some(0)
    } else {
        match fp_index(fps.drop_first(), k) {
            Some(i) => Some(i + 1),
            None => None,
        }
    }
}

/// How many times the call `k` was made.
pub open spec fn fp_count(fps: Seq<(Seq<char>, usize)>, k: Seq<char>) -> usize {
    match fp_index(fps, k) {
        Some(i) => fps[i].1,
        None => 0,
    }
}

/// The counts with one more call `k`.
pub open spec fn fp_bump(fps: Seq<(Seq<char>, usize)>, k: Seq<char>) -> Seq<(Seq<char>, usize)> {
    match fp_index(fps, k) {
        Some(i) => fps.update(i, (k, (fps[i].1 as nat + 1) as usize)),
        None => fps.push((k, 1usize)),
    }
}

/// The fingerprint of a call: its name and its arguments as JSON text.
pub open spec fn fingerprint(c: ToolCall) -> Seq<char> {
    c.name@ + ":"@ + json_text(c.input@)
}

/// The calls counted in order; the first that reaches three makes the loop
/// stop: the counts after the scan, and the name and count of that call.
/// `ask_question` calls are not counted.
pub open spec fn loop_scan(fps: Seq<(Seq<char>, usize)>, calls: Seq<ToolCall>) -> (
    Seq<(Seq<char>, usize)>,
    Option<(Seq<char>, usize)>,
)
    decreases calls.len(),
{
    if calls.len() == 0 {
        (fps, None)
    } else if calls[0].name@ == "ask_question"@ {
        loop_scan(fps, calls.drop_first())
    } else {
        let k = fingerprint(calls[0]);
        let f2 = fp_bump(fps, k);
        if fp_count(f2, k) >= 3 {
            (f2, Some((calls[0].name@, fp_count(f2, k))))
        } else {
            loop_scan(f2, calls.drop_first())
        }
    }
}

/// The error of a detected loop.
pub open spec fn loop_error_text(name: Seq<char>, count: usize) -> Seq<char> {
    "Loop detected: the tool '"@ + name + "' was called "@ + decimal_text(count as int)
        + " consecutive times with the same arguments"@
}

/// What to do after a provider error.
#[derive(Debug)]
pub enum ErrorDecision {
    /// The provider refused the thinking blocks: call again without them.
    RetryWithoutThinking,
    Stop(Stop),
}

/// What to do with a reply, by its stop reason.
#[derive(Debug)]
pub enum ReplyDecision {
    /// No stop reason: the reply was cut; call again.
    RetryTruncated,
    Stop(Stop),
    Proceed,
}

/// What to do with the content of a reply.
#[derive(Debug, PartialEq, Eq, Structural, Clone, Copy)]
pub enum ContentDecision {
    /// The reply was empty: tell the model to answer and call again.
    Nudge,
    /// The reply was empty again: the conversation is over.
    Finish,
    /// Save the reply.
    Save,
}

/// What to do once the reply is saved.
#[derive(Debug, PartialEq, Eq, Structural, Clone, Copy)]
pub enum AfterSave {
    /// The model asked the user a question: wait for the answer.
    PauseForQuestion,
    /// Run the tools the model called and call the model again.
    ExecuteTools,
    Finish,
}

fn stop(termination: Termination, error: Option<String>) -> (r: Stop)
    ensures
        r.termination == termination,
        r.error == error,
{
    Stop { termination, error }
}

impl LoopState {
    /// The state before the first iteration.
    pub fn new() -> (r: Self)
        ensures
            r.loop_count == 0,
            !r.strip_thinking,
            r.is_first_iteration,
            r.none_stop_retries == 0,
            !r.empty_end_nudged,
            r.fingerprints@.len() == 0,
            r.total_input_tokens == 0,
            r.total_output_tokens == 0,
    {
        LoopState {
            loop_count: 0,
            strip_thinking: false,
            is_first_iteration: true,
            none_stop_retries: 0,
            empty_end_nudged: false,
            fingerprints: Vec::new(),
            total_input_tokens: 0,
            total_output_tokens: 0,
        }
    }

    /// Begins an iteration: counts it, and stops once more than
    /// [`MAX_TOOL_LOOPS`] were begun, or when the conversation was
    /// cancelled.
    pub fn start_iteration(&mut self, cancelled: bool) -> (r: Option<Stop>)
        ensures
            final(self).loop_count == (if old(self).loop_count == usize::MAX {
                usize::MAX as int
            } else {
                old(self).loop_count + 1
            }),
            final(self).strip_thinking == old(self).strip_thinking,
            final(self).is_first_iteration == old(self).is_first_iteration,
            final(self).none_stop_retries == old(self).none_stop_retries,
            final(self).empty_end_nudged == old(self).empty_end_nudged,
            final(self).fingerprints == old(self).fingerprints,
            final(self).total_input_tokens == old(self).total_input_tokens,
            final(self).total_output_tokens == old(self).total_output_tokens,
            match r {
                Some(s) => if final(self).loop_count > MAX_TOOL_LOOPS {
                    stop_is(s, Termination::MaxLoops, Some(MAX_LOOPS_ERROR@))
                } else {
                    cancelled && stop_is(s, Termination::Cancelled, None)
                },
                None => final(self).loop_count <= MAX_TOOL_LOOPS && !cancelled,
            },
    {
        self.loop_count = self.loop_count.saturating_add(1);
        if self.loop_count > MAX_TOOL_LOOPS {
            return Some(stop(Termination::MaxLoops, Some(to_owned_string(MAX_LOOPS_ERROR))));
        }
        if cancelled {
            return Some(stop(Termination::Cancelled, None));
        }
        None
    }
}

/// Whether the history lets the loop go on: it stops to wait for the answer
/// to a question the user has not answered nor gone on from, and when the
/// conversation already ended cleanly.
pub open spec fn history_gate_spec(ms: Seq<AIConversationMessage>) -> Option<Termination> {
    match pending_question_spec(ms) {
        Some((_, i)) if !user_went_on(ms, i) => Some(Termination::Question),
        _ => if ended_cleanly_spec(ms) {
            Some(Termination::EndTurn)
        } else {
            None
        },
    }
}

/// Whether the history stops the loop, and why (see [`history_gate_spec`]).
pub fn history_gate(history: &[AIConversationMessage]) -> (r: Option<Stop>)
    ensures
        match history_gate_spec(history@) {
            Some(t) => stops_with(r, t, None),
            None => r is None,
        },
{
    match pending_question(history) {
        Some((_, i)) => {
            if !user_continued_after(history, i) {
                return Some(stop(Termination::Question, None));
            }
        },
        None => {},
    }
    if ended_cleanly(history) {
        return Some(stop(Termination::EndTurn, None));
    }
    None
}

/// Whether the request is worth sending: not when the last message is the
/// assistant's (nothing to answer), and an error when there is no message.
pub fn check_request(messages: &Vec<ChatMessage>) -> (r: Option<Stop>)
    ensures
        messages@.len() > 0 && messages@.last().role@ == "assistant"@ ==> stops_with(r, Termination::EndTurn, None),
        messages@.len() == 0 ==> stops_with(r, Termination::Error, Some(EMPTY_HISTORY_ERROR@)),
        messages@.len() > 0 && messages@.last().role@ != "assistant"@ ==> r is None,
{
    let n = messages.len();
    if n > 0 && str_eq(messages[n - 1].role.as_str(), "assistant") {
        return Some(stop(Termination::EndTurn, None));
    }
    if n == 0 {
        return Some(stop(Termination::Error, Some(to_owned_string(EMPTY_HISTORY_ERROR))));
    }
    None
}

/// The message that tells the model to answer after an empty reply.
pub fn nudge_message() -> (r: ChatMessage)
    ensures
        r@ == (MessageView { role: "user"@, content: ContentView::Text(EMPTY_REPLY_NUDGE@) }),
{
    ChatMessage { role: to_owned_string("user"), content: MessageContent::Text(to_owned_string(EMPTY_REPLY_NUDGE)) }
}

/// The provider refused to take back the thinking blocks of the history.
pub open spec fn is_thinking_refusal(err: Seq<char>) -> bool {
    crate::text::contains(err, "thinking"@) && crate::text::contains(err, "cannot be modified"@)
}

/// The highest count of a call before the loop is taken to be stuck.
pub open spec fn counts_below_three(fps: Seq<(Seq<char>, usize)>) -> bool {
    forall|i: int| 0 <= i < fps.len() ==> (#[trigger] fps[i]).1 < 3
}

impl LoopState {
    /// After a provider error: the first refusal of the thinking blocks makes
    /// the loop call again without them; any other error ends the loop with
    /// `AI error: <error>`.
    pub fn on_provider_error(&mut self, err: &str) -> (r: ErrorDecision)
        ensures
            if !old(self).strip_thinking && is_thinking_refusal(err@) {
                &&& r is RetryWithoutThinking
                &&& final(self).strip_thinking
                &&& !final(self).is_first_iteration
            } else {
                &&& r matches ErrorDecision::Stop(s) && stop_is(s, Termination::Error, Some("AI error: "@ + err@))
                &&& final(self).strip_thinking == old(self).strip_thinking
                &&& final(self).is_first_iteration == old(self).is_first_iteration
            },
            final(self).loop_count == old(self).loop_count,
            final(self).none_stop_retries == old(self).none_stop_retries,
            final(self).empty_end_nudged == old(self).empty_end_nudged,
            final(self).fingerprints == old(self).fingerprints,
            final(self).total_input_tokens == old(self).total_input_tokens,
            final(self).total_output_tokens == old(self).total_output_tokens,
    {
        let e = chars_of(err);
        let refusal = find_chars(&e, &chars_of("thinking")).is_some() && find_chars(
            &e,
            &chars_of("cannot be modified"),
        ).is_some();
        if !self.strip_thinking && refusal {
            self.strip_thinking = true;
            self.is_first_iteration = false;
            return ErrorDecision::RetryWithoutThinking;
        }
        ErrorDecision::Stop(stop(Termination::Error, Some(str_concat("AI error: ", err))))
    }

    /// After a reply: without a stop reason the loop calls again, up to three
    /// times in a row, and then ends with an error; with one, the retries
    /// start over and the tokens of the reply are added to the totals
    /// (wrapping, as `usize` additions do in release builds).
    pub fn on_reply(&mut self, has_stop_reason: bool, usage: Option<(u32, u32)>) -> (r: ReplyDecision)
        ensures
            !final(self).is_first_iteration,
            has_stop_reason ==> {
                &&& r is Proceed
                &&& final(self).none_stop_retries == 0
                &&& final(self).total_input_tokens == match usage {
                    Some((i, _)) => old(self).total_input_tokens.wrapping_add(i as usize),
                    None => old(self).total_input_tokens,
                }
                &&& final(self).total_output_tokens == match usage {
                    Some((_, o)) => old(self).total_output_tokens.wrapping_add(o as usize),
                    None => old(self).total_output_tokens,
                }
            },
            !has_stop_reason ==> {
                &&& final(self).none_stop_retries == (if old(self).none_stop_retries == usize::MAX {
                    usize::MAX as int
                } else {
                    old(self).none_stop_retries + 1
                })
                &&& if final(self).none_stop_retries >= 3 {
                    r matches ReplyDecision::Stop(s) && stop_is(s, Termination::Error, Some(TRUNCATED_ERROR@))
                } else {
                    r is RetryTruncated
                }
                &&& final(self).total_input_tokens == old(self).total_input_tokens
                &&& final(self).total_output_tokens == old(self).total_output_tokens
            },
            final(self).loop_count == old(self).loop_count,
            final(self).strip_thinking == old(self).strip_thinking,
            final(self).empty_end_nudged == old(self).empty_end_nudged,
            final(self).fingerprints == old(self).fingerprints,
    {
        self.is_first_iteration = false;
        if !has_stop_reason {
            self.none_stop_retries = self.none_stop_retries.saturating_add(1);
            if self.none_stop_retries >= 3 {
                return ReplyDecision::Stop(stop(Termination::Error, Some(to_owned_string(TRUNCATED_ERROR))));
            }
            return ReplyDecision::RetryTruncated;
        }
        self.none_stop_retries = 0;
        match usage {
            Some((i, o)) => {
                self.total_input_tokens = self.total_input_tokens.wrapping_add(i as usize);
                self.total_output_tokens = self.total_output_tokens.wrapping_add(o as usize);
            },
            None => {},
        }
        ReplyDecision::Proceed
    }

    /// After the content of a reply is known: an empty reply that calls no
    /// tool gets one nudge, and the second one ends the conversation; any
    /// other reply is saved.
    pub fn on_content(&mut self, content_empty: bool, stop_reason: &str) -> (r: ContentDecision)
        ensures
            if content_empty && stop_reason@ != "tool_use"@ && stop_reason@ != "tool_calls"@ {
                if old(self).empty_end_nudged {
                    r == ContentDecision::Finish && final(self).empty_end_nudged
                } else {
                    r == ContentDecision::Nudge && final(self).empty_end_nudged
                }
            } else {
                r == ContentDecision::Save && final(self).empty_end_nudged == old(self).empty_end_nudged
            },
            final(self).loop_count == old(self).loop_count,
            final(self).strip_thinking == old(self).strip_thinking,
            final(self).is_first_iteration == old(self).is_first_iteration,
            final(self).none_stop_retries == old(self).none_stop_retries,
            final(self).fingerprints == old(self).fingerprints,
            final(self).total_input_tokens == old(self).total_input_tokens,
            final(self).total_output_tokens == old(self).total_output_tokens,
    {
        if content_empty && !str_eq(stop_reason, "tool_use") && !str_eq(stop_reason, "tool_calls") {
            if self.empty_end_nudged {
                return ContentDecision::Finish;
            }
            self.empty_end_nudged = true;
            return ContentDecision::Nudge;
        }
        ContentDecision::Save
    }
}

/// What to do once a reply is saved: wait when the model asked the user a
/// question; run the tools when it stopped to call them (or ran out of
/// tokens while calling some); otherwise the turn is over.
pub fn after_save(calls: &[ToolCall], stop_reason: &str) -> (r: AfterSave)
    ensures
        r == (if exists|i: int| 0 <= i < calls@.len() && (#[trigger] calls@[i]).name@ == "ask_question"@ {
            AfterSave::PauseForQuestion
        } else if stop_reason@ == "tool_use"@ || stop_reason@ == "tool_calls"@ || (stop_reason@ == "max_tokens"@
            && calls@.len() > 0) {
            AfterSave::ExecuteTools
        } else {
            AfterSave::Finish
        }),
{
    let mut i: usize = 0;
    while i < calls.len()
        invariant
            i <= calls@.len(),
            forall|j: int| 0 <= j < i ==> (#[trigger] calls@[j]).name@ != "ask_question"@,
        decreases calls.len() - i,
    {
        if str_eq(calls[i].name.as_str(), "ask_question") {
            return AfterSave::PauseForQuestion;
        }
        i = i + 1;
    }
    if str_eq(stop_reason, "tool_use") || str_eq(stop_reason, "tool_calls") || (str_eq(stop_reason, "max_tokens")
        && calls.len() > 0) {
        return AfterSave::ExecuteTools;
    }
    AfterSave::Finish
}

proof fn lemma_fp_index_bounds(fps: Seq<(Seq<char>, usize)>, k: Seq<char>)
    ensures
        match fp_index(fps, k) {
            Some(i) => 0 <= i < fps.len() && fps[i].0 == k && forall|j: int| 0 <= j < i ==> fps[j].0 != k,
            None => forall|j: int| 0 <= j < fps.len() ==> fps[j].0 != k,
        },
    decreases fps.len(),
{
    if fps.len() > 0 {
        lemma_fp_index_bounds(fps.drop_first(), k);
        assert forall|j: int| 1 <= j < fps.len() implies fps[j] == fps.drop_first()[j - 1] by {}
    }
}

/// The first count for `k` is at `i`.
proof fn lemma_fp_index_is(fps: Seq<(Seq<char>, usize)>, k: Seq<char>, i: int)
    requires
        0 <= i < fps.len(),
        fps[i].0 == k,
        forall|j: int| 0 <= j < i ==> fps[j].0 != k,
    ensures
        fp_index(fps, k) == Some(i),
{
    lemma_fp_index_bounds(fps, k);
    match fp_index(fps, k) {
        Some(x) => {
            if x < i {
                assert(fps[x].0 != k);
            } else if x > i {
                assert(fps[i].0 != k);
            }
        },
        None => {
            assert(fps[i].0 != k);
        },
    }
}

/// After one more call `k`, its count is one higher.
proof fn lemma_fp_bump_count(fps: Seq<(Seq<char>, usize)>, k: Seq<char>)
    requires
        fp_count(fps, k) < usize::MAX,
    ensures
        fp_count(fp_bump(fps, k), k) == fp_count(fps, k) + 1,
{
    let f2 = fp_bump(fps, k);
    lemma_fp_index_bounds(fps, k);
    match fp_index(fps, k) {
        Some(i) => {
            assert forall|j: int| 0 <= j < i implies f2[j].0 != k by {
                assert(f2[j] == fps[j]);
            }
            lemma_fp_index_is(f2, k, i);
        },
        None => {
            assert forall|j: int| 0 <= j < fps.len() implies f2[j].0 != k by {
                assert(f2[j] == fps[j]);
            }
            lemma_fp_index_is(f2, k, fps.len() as int);
        },
    }
}

fn fingerprint_of(c: &ToolCall) -> (r: String)
    ensures
        r@ == fingerprint(*c),
{
    let a = str_concat(c.name.as_str(), ":");
    let j = json_to_string(&c.input);
    str_concat(a.as_str(), j.as_str())
}

/// Counts one more call `k`; returns its count.
fn bump_fingerprint(fps: &mut Vec<(String, usize)>, k: String) -> (r: usize)
    requires
        counts_below_three(fingerprints_view(old(fps)@)),
    ensures
        fingerprints_view(final(fps)@) == fp_bump(fingerprints_view(old(fps)@), k@),
        r == fp_count(fingerprints_view(final(fps)@), k@),
{
    let ghost fv = fingerprints_view(fps@);
    let mut i: usize = 0;
    while i < fps.len()
        invariant
            i <= fps@.len(),
            fv == fingerprints_view(fps@),
            fps@ == old(fps)@,
            counts_below_three(fv),
            forall|j: int| 0 <= j < i ==> fv[j].0 != k@,
        decreases fps.len() - i,
    {
        if str_eq(fps[i].0.as_str(), k.as_str()) {
            proof {
                lemma_fp_index_is(fv, k@, i as int);
                assert(fv[i as int].1 < 3);
            }
            let n = fps[i].1 + 1;
            let ghost f0 = fps@;
            fps.set(i, (k, n));
            proof {
                assert(fingerprints_view(fps@) =~= fv.update(i as int, (k@, n)));
                lemma_fp_bump_count(fv, k@);
            }
            return n;
        }
        i = i + 1;
    }
    proof {
        lemma_fp_index_bounds(fv, k@);
        if let Some(x) = fp_index(fv, k@) {
            assert(fv[x].0 != k@);
        }
    }
    let ghost kv = k@;
    fps.push((k, 1));
    proof {
        assert(fingerprints_view(fps@) =~= fv.push((kv, 1usize)));
        lemma_fp_bump_count(fv, kv);
    }
    1
}

impl LoopState {
    /// Counts the calls of a reply by name and arguments (not the
    /// questions put to the user); the first call made for the third time
    /// stops the loop, as the model is stuck (see [`loop_scan`]).
    pub fn detect_loop(&mut self, calls: &[ToolCall]) -> (r: Option<Stop>)
        requires
            counts_below_three(fingerprints_view(old(self).fingerprints@)),
        ensures
            fingerprints_view(final(self).fingerprints@) == loop_scan(
                fingerprints_view(old(self).fingerprints@),
                calls@,
            ).0,
            match loop_scan(fingerprints_view(old(self).fingerprints@), calls@).1 {
                Some((name, count)) => stops_with(r, Termination::LoopDetected, Some(loop_error_text(name, count))),
                None => r is None && counts_below_three(fingerprints_view(final(self).fingerprints@)),
            },
            final(self).loop_count == old(self).loop_count,
            final(self).strip_thinking == old(self).strip_thinking,
            final(self).is_first_iteration == old(self).is_first_iteration,
            final(self).none_stop_retries == old(self).none_stop_retries,
            final(self).empty_end_nudged == old(self).empty_end_nudged,
            final(self).total_input_tokens == old(self).total_input_tokens,
            final(self).total_output_tokens == old(self).total_output_tokens,
    {
        let ghost f0 = fingerprints_view(self.fingerprints@);
        let ghost cs = calls@;
        let mut i: usize = 0;
        assert(cs.skip(0) =~= cs);
        while i < calls.len()
            invariant
                i <= cs.len(),
                cs == calls@,
                f0 == fingerprints_view(old(self).fingerprints@),
                counts_below_three(fingerprints_view(self.fingerprints@)),
                loop_scan(f0, cs) == loop_scan(fingerprints_view(self.fingerprints@), cs.skip(i as int)),
                self.loop_count == old(self).loop_count,
                self.strip_thinking == old(self).strip_thinking,
                self.is_first_iteration == old(self).is_first_iteration,
                self.none_stop_retries == old(self).none_stop_retries,
                self.empty_end_nudged == old(self).empty_end_nudged,
                self.total_input_tokens == old(self).total_input_tokens,
                self.total_output_tokens == old(self).total_output_tokens,
            decreases calls.len() - i,
        {
            let ghost fv = fingerprints_view(self.fingerprints@);
            assert(cs.skip(i as int)[0] == cs[i as int]);
            assert(cs.skip(i as int).drop_first() =~= cs.skip(i + 1));
            let c = &calls[i];
            if !str_eq(c.name.as_str(), "ask_question") {
                let k = fingerprint_of(c);
                let ghost kv = k@;
                let n = bump_fingerprint(&mut self.fingerprints, k);
                assert(loop_scan(fv, cs.skip(i as int)) == (if n >= 3 {
                    (fp_bump(fv, kv), Some((c.name@, n)))
                } else {
                    loop_scan(fp_bump(fv, kv), cs.skip(i + 1))
                }));
                if n >= 3 {
                    let a = str_concat("Loop detected: the tool '", c.name.as_str());
                    let b = str_concat(a.as_str(), "' was called ");
                    let d = str_concat(b.as_str(), usize_to_string(n).as_str());
                    let e = str_concat(d.as_str(), " consecutive times with the same arguments");
                    assert(loop_scan(f0, cs) == (fp_bump(fv, kv), Some((c.name@, n))));
                    assert(fingerprints_view(self.fingerprints@) == loop_scan(f0, cs).0);
                    assert(e@ == loop_error_text(c.name@, n));
                    return Some(stop(Termination::LoopDetected, Some(e)));
                }
                proof {
                    let f2 = fingerprints_view(self.fingerprints@);
                    let kk = kv;
                    lemma_fp_index_bounds(fv, kk);
                    match fp_index(fv, kk) {
                        Some(x) => {
                            assert forall|y: int| 0 <= y < x implies f2[y].0 != kk by {
                                assert(f2[y] == fv[y]);
                            }
                            lemma_fp_index_is(f2, kk, x);
                            assert forall|j: int| 0 <= j < f2.len() implies (#[trigger] f2[j]).1 < 3 by {
                                if j != x {
                                    assert(f2[j] == fv[j]);
                                }
                            }
                        },
                        None => {
                            assert(f2 == fv.push((kk, 1usize)));
                            assert forall|j: int| 0 <= j < f2.len() implies (#[trigger] f2[j]).1 < 3 by {
                                if j < fv.len() {
                                    assert(f2[j] == fv[j]);
                                }
                            }
                        },
                    }
                }
            }
            i = i + 1;
        }
        assert(cs.skip(i as int).len() == 0);
        None
    }
}

proof fn lemma_without_thinking_has_none(bs: Seq<BlockView>)
    ensures
        forall|j: int| 0 <= j < without_thinking(bs).len() ==> !is_thinking(#[trigger] without_thinking(bs)[j]),
    decreases bs.len(),
{
    if bs.len() > 0 {
        lemma_without_thinking_has_none(bs.drop_last());
        let prev = without_thinking(bs.drop_last());
        if !is_thinking(bs.last()) {
            assert forall|j: int| 0 <= j < prev.push(bs.last()).len() implies !is_thinking(
                #[trigger] prev.push(bs.last())[j],
            ) by {
                if j < prev.len() {
                    assert(prev.push(bs.last())[j] == prev[j]);
                }
            }
        }
    }
}

/// After the thinking blocks are taken out, no assistant message sent holds
/// a thinking block, nor is left without blocks.
pub proof fn law_stripped_history_has_no_thinking(ms: Seq<MessageView>)
    ensures
        forall|i: int|
            0 <= i < thinking_stripped(ms).len() && (#[trigger] thinking_stripped(ms)[i]).role == "assistant"@
                && thinking_stripped(ms)[i].content is Blocks ==> {
                &&& thinking_stripped(ms)[i].content->Blocks_0.len() > 0
                &&& forall|j: int|
                    0 <= j < thinking_stripped(ms)[i].content->Blocks_0.len() ==> !is_thinking(
                        #[trigger] thinking_stripped(ms)[i].content->Blocks_0[j],
                    )
            },
    decreases ms.len(),
{
    if ms.len() > 0 {
        law_stripped_history_has_no_thinking(ms.drop_last());
        let prev = thinking_stripped(ms.drop_last());
        let m = ms.last();
        let tm = thinking_stripped_message(m);
        if m.role == "assistant"@ && m.content is Blocks {
            lemma_without_thinking_has_none(m.content->Blocks_0);
            if without_thinking(m.content->Blocks_0).len() == 0 {
                assert(without_thinking(m.content->Blocks_0) =~= Seq::<BlockView>::empty());
            }
        }
        if kept_after_strip(tm) {
            assert forall|i: int| 0 <= i < prev.len() implies prev.push(tm)[i] == prev[i] by {}
        }
    }
}

} // verus!
