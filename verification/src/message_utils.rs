//! Preparation of the message list sent to a model: repairing unanswered
//! tool calls and injecting per-turn context into the last user message.
use vstd::prelude::*;
use crate::json::{Json, JsonValue, json_view, json_parse, parse_json, clone_json};
use crate::chat_storage::{self, AIConversationMessage, StoredBlockView, stored_blocks_view};
use crate::providers::{
    BlockView, ContentBlock, ContentView, MessageContent, ChatMessage, MessageView, blocks_view,
    messages_view, ImageSource, DocumentSource, ThinkingBlock, ToolCall,
};
use crate::text::{
    str_eq, str_concat, to_owned_string, copy_string, chars_of, strings_view, find, find_from,
    find_char_from, trim, lemma_find_from_props, occurs_at, slice_chars, push_all, string_of, find_chars,
    find_chars_from,
};

verus! {

/// The content of the synthetic result of a tool call that was never answered.
pub const INTERRUPTED_RESULT: &'static str = "Tool result unavailable (conversation was interrupted)";

/// The ids of the tool calls among the blocks, in order.
pub open spec fn use_ids(bs: Seq<BlockView>) -> Seq<Seq<char>>
    decreases bs.len(),
{
    if bs.len() == 0 {
        Seq::empty()
    } else {
        match bs.last() {
            BlockView::ToolUse(id, _, _) => use_ids(bs.drop_last()).push(id),
            _ => use_ids(bs.drop_last()),
        }
    }
}

/// The block is a result for the call `id`.
pub open spec fn result_for(b: BlockView, id: Seq<char>) -> bool {
    match b {
        BlockView::ToolResult(t, _, _) => t == id,
        _ => false,
    }
}

/// Some block is a result for the call `id`.
pub open spec fn answers(bs: Seq<BlockView>, id: Seq<char>) -> bool {
    exists|i: int| 0 <= i < bs.len() && result_for(#[trigger] bs[i], id)
}

/// The ids without a result among the blocks, in order.
pub open spec fn unanswered(ids: Seq<Seq<char>>, bs: Seq<BlockView>) -> Seq<Seq<char>>
    decreases ids.len(),
{
    if ids.len() == 0 {
        Seq::empty()
    } else if answers(bs, ids.last()) {
        unanswered(ids.drop_last(), bs)
    } else {
        unanswered(ids.drop_last(), bs).push(ids.last())
    }
}

/// The error result that stands in for a call that was never answered.
pub open spec fn interrupted_result(id: Seq<char>) -> BlockView {
    BlockView::ToolResult(id, Json::Str(INTERRUPTED_RESULT@), Some(true))
}

/// A user message after an assistant message with tool calls: results for
/// the calls it does not answer come first.
pub open spec fn repaired(prev: MessageView, next: MessageView) -> MessageView {
    if prev.role == "assistant"@ && next.role == "user"@ && prev.content is Blocks && next.content is Blocks {
        let missing = unanswered(use_ids(prev.content->Blocks_0), next.content->Blocks_0);
        MessageView {
            role: next.role,
            content: ContentView::Blocks(
                missing.map_values(|id: Seq<char>| interrupted_result(id)) + next.content->Blocks_0,
            ),
        }
    } else {
        next
    }
}

/// Every message but the first repaired against the one before it.
pub open spec fn paired(ms: Seq<MessageView>) -> Seq<MessageView> {
    Seq::new(ms.len(), |j: int| if j == 0 { ms[0] } else { repaired(ms[j - 1], ms[j]) })
}

/// Blocks removed from a trailing assistant message.
pub open spec fn is_call_or_thinking(b: BlockView) -> bool {
    b is ToolUse || b is Thinking || b is RedactedThinking
}

pub open spec fn without_calls(bs: Seq<BlockView>) -> Seq<BlockView>
    decreases bs.len(),
{
    if bs.len() == 0 {
        Seq::empty()
    } else if is_call_or_thinking(bs.last()) {
        without_calls(bs.drop_last())
    } else {
        without_calls(bs.drop_last()).push(bs.last())
    }
}

pub open spec fn has_call(bs: Seq<BlockView>) -> bool {
    exists|i: int| 0 <= i < bs.len() && (#[trigger] bs[i]) is ToolUse
}

/// A last assistant message with a tool call loses its calls and thinking.
pub open spec fn strip_trailing_calls(ms: Seq<MessageView>) -> Seq<MessageView> {
    if ms.len() > 0 && ms.last().role == "assistant"@ && ms.last().content is Blocks && has_call(
        ms.last().content->Blocks_0,
    ) {
        ms.update(
            ms.len() - 1,
            MessageView { role: ms.last().role, content: ContentView::Blocks(without_calls(ms.last().content->Blocks_0)) },
        )
    } else {
        ms
    }
}

/// A last message with no blocks is dropped.
pub open spec fn drop_empty_last(ms: Seq<MessageView>) -> Seq<MessageView> {
    if ms.len() > 0 && ms.last().content == ContentView::Blocks(Seq::empty()) {
        ms.drop_last()
    } else {
        ms
    }
}

/// `sanitize_tool_pairs`.
pub open spec fn sanitized(ms: Seq<MessageView>) -> Seq<MessageView> {
    drop_empty_last(strip_trailing_calls(paired(ms)))
}

// ---------------------------------------------------------------------------
// Executable
// ---------------------------------------------------------------------------

fn tool_use_ids(bs: &Vec<ContentBlock>) -> (r: Vec<String>)
    ensures
        crate::text::strings_view(r@) == use_ids(blocks_view(bs@)),
{
    let ghost bv = blocks_view(bs@);
    let mut out: Vec<String> = Vec::new();
    let mut i: usize = 0;
    assert(crate::text::strings_view(out@) =~= use_ids(bv.take(0)));
    while i < bs.len()
        invariant
            i <= bs@.len(),
            bv == blocks_view(bs@),
            crate::text::strings_view(out@) == use_ids(bv.take(i as int)),
        decreases bs.len() - i,
    {
        assert(bv.take(i + 1).drop_last() =~= bv.take(i as int));
        assert(bv.take(i + 1).last() == bs@[i as int]@);
        match &bs[i] {
            ContentBlock::ToolUse { id, .. } => {
                let ghost prev = crate::text::strings_view(out@);
                out.push(copy_string(id));
                assert(crate::text::strings_view(out@) =~= prev.push(id@));
            },
            _ => {},
        }
        i = i + 1;
    }
    assert(bv.take(bv.len() as int) =~= bv);
    out
}

fn answered(bs: &Vec<ContentBlock>, id: &str) -> (r: bool)
    ensures
        r == answers(blocks_view(bs@), id@),
{
    let ghost bv = blocks_view(bs@);
    let mut i: usize = 0;
    while i < bs.len()
        invariant
            i <= bs@.len(),
            bv == blocks_view(bs@),
            forall|j: int| 0 <= j < i ==> !result_for(#[trigger] bv[j], id@),
        decreases bs.len() - i,
    {
        assert(bv[i as int] == bs@[i as int]@);
        match &bs[i] {
            ContentBlock::ToolResult { tool_use_id, .. } => {
                if str_eq(tool_use_id.as_str(), id) {
                    return true;
                }
            },
            _ => {},
        }
        i = i + 1;
    }
    false
}

/// The synthetic results for the calls of `prev` that `next` does not answer,
/// when `prev` is an assistant message and `next` a user message, both with
/// blocks; none otherwise.
fn missing_results(prev: &ChatMessage, next: &ChatMessage) -> (r: Vec<ContentBlock>)
    ensures
        repaired(prev@, next@) == (if r@.len() == 0 {
            next@
        } else {
            MessageView { role: next@.role, content: ContentView::Blocks(blocks_view(r@) + next@.content->Blocks_0) }
        }),
        r@.len() > 0 ==> next@.content is Blocks,
{
    let mut out: Vec<ContentBlock> = Vec::new();
    if !(str_eq(prev.role.as_str(), "assistant") && str_eq(next.role.as_str(), "user")) {
        return out;
    }
    let pb = match &prev.content {
        MessageContent::ContentBlocks(b) => b,
        MessageContent::Text(_) => {
            return out;
        },
    };
    let nb = match &next.content {
        MessageContent::ContentBlocks(b) => b,
        MessageContent::Text(_) => {
            return out;
        },
    };
    let ids = tool_use_ids(pb);
    let ghost iv = crate::text::strings_view(ids@);
    let ghost nbv = blocks_view(nb@);
    let mut i: usize = 0;
    assert(blocks_view(out@) =~= unanswered(iv.take(0), nbv).map_values(|id: Seq<char>| interrupted_result(id)));
    while i < ids.len()
        invariant
            i <= ids@.len(),
            iv == crate::text::strings_view(ids@),
            nbv == blocks_view(nb@),
            blocks_view(out@) == unanswered(iv.take(i as int), nbv).map_values(|id: Seq<char>| interrupted_result(id)),
        decreases ids.len() - i,
    {
        assert(iv.take(i + 1).drop_last() =~= iv.take(i as int));
        assert(iv.take(i + 1).last() == ids@[i as int]@);
        if !answered(nb, ids[i].as_str()) {
            let ghost prev_out = blocks_view(out@);
            out.push(ContentBlock::ToolResult {
                tool_use_id: copy_string(&ids[i]),
                content: JsonValue::Str(to_owned_string(INTERRUPTED_RESULT)),
                is_error: Some(true),
            });
            assert(blocks_view(out@) =~= prev_out.push(interrupted_result(ids@[i as int]@)));
            assert(unanswered(iv.take(i + 1), nbv).map_values(|id: Seq<char>| interrupted_result(id))
                =~= unanswered(iv.take(i as int), nbv).map_values(|id: Seq<char>| interrupted_result(id)).push(
                interrupted_result(ids@[i as int]@),
            ));
        }
        i = i + 1;
    }
    assert(iv.take(iv.len() as int) =~= iv);
    proof {
        if out@.len() == 0 {
            assert(unanswered(iv, nbv).map_values(|id: Seq<char>| interrupted_result(id)).len() == 0);
            assert(unanswered(iv, nbv).len() == 0);
            assert(unanswered(iv, nbv).map_values(|id: Seq<char>| interrupted_result(id)) + nbv =~= nbv);
        }
    }
    out
}

/// A message whose role is not `assistant` repairs nothing after it, and
/// repairing never changes a role.
pub proof fn lemma_repaired_keeps_role(prev: MessageView, next: MessageView)
    ensures
        repaired(prev, next).role == next.role,
        next.role != "user"@ ==> repaired(prev, next) == next,
{
}

/// Repairing against an already repaired message is the same as repairing
/// against the message as it was: a repaired message is never an assistant's.
proof fn lemma_pair_step(orig: Seq<MessageView>, j: int)
    requires
        1 <= j < orig.len(),
    ensures
        repaired(paired(orig)[j - 1], orig[j]) == repaired(orig[j - 1], orig[j]),
        paired(orig)[j] == repaired(orig[j - 1], orig[j]),
{
    reveal_strlit("user");
    reveal_strlit("assistant");
    if j >= 2 {
        lemma_repaired_keeps_role(orig[j - 2], orig[j - 1]);
        if paired(orig)[j - 1] != orig[j - 1] {
            assert(orig[j - 1].role == "user"@);
            assert(orig[j - 1].role != "assistant"@);
        }
    }
}

/// Each id among the calls is either answered by the blocks or listed as
/// unanswered.
proof fn lemma_unanswered_covers(ids: Seq<Seq<char>>, bs: Seq<BlockView>, id: Seq<char>)
    requires
        ids.contains(id),
    ensures
        answers(bs, id) || unanswered(ids, bs).contains(id),
    decreases ids.len(),
{
    if ids.last() == id {
        if !answers(bs, id) {
            assert(unanswered(ids, bs).last() == id);
        }
    } else {
        let k = choose|k: int| 0 <= k < ids.len() && ids[k] == id;
        assert(ids.drop_last()[k] == id);
        lemma_unanswered_covers(ids.drop_last(), bs, id);
        if !answers(bs, id) {
            let i = choose|i: int| 0 <= i < unanswered(ids.drop_last(), bs).len()
                && unanswered(ids.drop_last(), bs)[i] == id;
            if answers(bs, ids.last()) {
                assert(unanswered(ids, bs)[i] == id);
            } else {
                assert(unanswered(ids, bs)[i] == id);
            }
        }
    }
}

/// After sanitizing, every tool call of an assistant message is answered by a
/// result in the user message that follows it.
pub proof fn law_sanitized_calls_answered(ms: Seq<MessageView>, j: int, id: Seq<char>)
    requires
        0 <= j,
        j + 1 < sanitized(ms).len(),
        sanitized(ms)[j].role == "assistant"@,
        sanitized(ms)[j + 1].role == "user"@,
        sanitized(ms)[j].content is Blocks,
        sanitized(ms)[j + 1].content is Blocks,
        use_ids(sanitized(ms)[j].content->Blocks_0).contains(id),
    ensures
        answers(sanitized(ms)[j + 1].content->Blocks_0, id),
{
    reveal_strlit("user");
    reveal_strlit("assistant");
    assert("user"@.len() != "assistant"@.len());
    assert("user"@ != "assistant"@);
    let p = paired(ms);
    let st = strip_trailing_calls(p);
    assert(sanitized(ms)[j] == st[j]);
    assert(sanitized(ms)[j + 1] == st[j + 1]);
    assert(st[j] == p[j]);
    if st[j + 1] != p[j + 1] {
        assert(st[j + 1].role == p.last().role);
        assert(p.last().role == "assistant"@);
    }
    assert(st[j + 1] == p[j + 1]);
    if j > 0 {
        lemma_repaired_keeps_role(ms[j - 1], ms[j]);
    }
    assert(p[j] == ms[j]);
    assert(p[j + 1] == repaired(ms[j], ms[j + 1]));
    let ids = use_ids(ms[j].content->Blocks_0);
    let nb = ms[j + 1].content->Blocks_0;
    let missing = unanswered(ids, nb);
    let fixed = missing.map_values(|x: Seq<char>| interrupted_result(x)) + nb;
    assert(p[j + 1].content->Blocks_0 == fixed);
    lemma_unanswered_covers(ids, nb, id);
    if answers(nb, id) {
        let i = choose|i: int| 0 <= i < nb.len() && result_for(nb[i], id);
        assert(fixed[missing.len() + i] == nb[i]);
        assert(result_for(fixed[missing.len() + i], id));
    } else {
        let i = choose|i: int| 0 <= i < missing.len() && missing[i] == id;
        assert(fixed[i] == interrupted_result(id));
        assert(result_for(fixed[i], id));
    }
}

/// When the blocks answer every id, none is left unanswered.
proof fn lemma_all_answered(ids: Seq<Seq<char>>, bs: Seq<BlockView>)
    requires
        forall|k: int| 0 <= k < ids.len() ==> answers(bs, #[trigger] ids[k]),
    ensures
        unanswered(ids, bs) == Seq::<Seq<char>>::empty(),
    decreases ids.len(),
{
    if ids.len() > 0 {
        assert(answers(bs, ids[ids.len() - 1]));
        assert forall|k: int| 0 <= k < ids.drop_last().len() implies answers(bs, #[trigger] ids.drop_last()[k]) by {
            assert(ids.drop_last()[k] == ids[k]);
        }
        lemma_all_answered(ids.drop_last(), bs);
    }
}

/// Repairing a message a second time against the same message adds nothing.
proof fn lemma_repaired_twice(prev: MessageView, next: MessageView)
    ensures
        repaired(prev, repaired(prev, next)) == repaired(prev, next),
{
    if prev.role == "assistant"@ && next.role == "user"@ && prev.content is Blocks && next.content is Blocks {
        let ids = use_ids(prev.content->Blocks_0);
        let nb = next.content->Blocks_0;
        let missing = unanswered(ids, nb);
        let fixed = missing.map_values(|x: Seq<char>| interrupted_result(x)) + nb;
        assert forall|k: int| 0 <= k < ids.len() implies answers(fixed, #[trigger] ids[k]) by {
            let id = ids[k];
            assert(ids.contains(id));
            lemma_unanswered_covers(ids, nb, id);
            if answers(nb, id) {
                let i = choose|i: int| 0 <= i < nb.len() && result_for(nb[i], id);
                assert(fixed[missing.len() + i] == nb[i]);
                assert(result_for(fixed[missing.len() + i], id));
            } else {
                let i = choose|i: int| 0 <= i < missing.len() && missing[i] == id;
                assert(fixed[i] == interrupted_result(id));
                assert(result_for(fixed[i], id));
            }
        }
        lemma_all_answered(ids, fixed);
        assert(unanswered(ids, fixed).map_values(|x: Seq<char>| interrupted_result(x)) + fixed =~= fixed);
    }
}

/// Without its calls and thinking, a list of blocks holds no call.
proof fn lemma_without_calls_has_none(bs: Seq<BlockView>)
    ensures
        !has_call(without_calls(bs)),
    decreases bs.len(),
{
    if bs.len() > 0 {
        lemma_without_calls_has_none(bs.drop_last());
        let w = without_calls(bs.drop_last());
        if !is_call_or_thinking(bs.last()) {
            assert forall|i: int| 0 <= i < w.push(bs.last()).len() implies !((#[trigger] w.push(bs.last())[i]) is ToolUse) by {
                if i < w.len() {
                    assert(w.push(bs.last())[i] == w[i]);
                }
            }
        }
    }
}

/// Pairing keeps every message's role, and keeps a message with blocks
/// from losing them all.
proof fn lemma_paired_shape(ms: Seq<MessageView>, j: int)
    requires
        0 <= j < ms.len(),
        ms[j].content != ContentView::Blocks(Seq::<BlockView>::empty()),
    ensures
        paired(ms)[j].role == ms[j].role,
        paired(ms)[j].content != ContentView::Blocks(Seq::<BlockView>::empty()),
        paired(ms)[j].role != "user"@ ==> paired(ms)[j] == ms[j],
{
    if j > 0 {
        lemma_repaired_keeps_role(ms[j - 1], ms[j]);
        let r = repaired(ms[j - 1], ms[j]);
        if r != ms[j] {
            let nb = ms[j].content->Blocks_0;
            if nb.len() == 0 {
                assert(nb =~= Seq::<BlockView>::empty());
            }
            assert(nb.len() > 0);
            assert(r.content->Blocks_0.len() >= nb.len());
        }
    }
}

/// A paired list pairs to itself.
proof fn lemma_paired_twice(ms: Seq<MessageView>, j: int)
    requires
        1 <= j < ms.len(),
    ensures
        repaired(paired(ms)[j - 1], paired(ms)[j]) == paired(ms)[j],
{
    reveal_strlit("user");
    reveal_strlit("assistant");
    assert("user"@.len() != "assistant"@.len());
    let p = paired(ms);
    if p[j - 1].role == "assistant"@ {
        if j >= 2 {
            lemma_repaired_keeps_role(ms[j - 2], ms[j - 1]);
            if p[j - 1] != ms[j - 1] {
                assert(ms[j - 1].role == "user"@);
            }
        }
        assert(p[j - 1] == ms[j - 1]);
        lemma_repaired_twice(ms[j - 1], ms[j]);
    }
}

/// Sanitizing a list a second time changes nothing, when no two assistant
/// messages follow each other and no message comes with an empty list of
/// blocks.
pub proof fn law_sanitize_idempotent(ms: Seq<MessageView>)
    requires
        forall|j: int|
            #![trigger ms[j]]
            0 <= j && j + 1 < ms.len() ==> !(ms[j].role == "assistant"@ && ms[j + 1].role == "assistant"@),
        forall|j: int| 0 <= j < ms.len() ==> (#[trigger] ms[j]).content != ContentView::Blocks(Seq::<BlockView>::empty()),
    ensures
        sanitized(sanitized(ms)) == sanitized(ms),
{
    reveal_strlit("user");
    reveal_strlit("assistant");
    assert("user"@.len() != "assistant"@.len());
    let p = paired(ms);
    let st = strip_trailing_calls(p);
    let s1 = sanitized(ms);
    let n = ms.len();
    if n == 0 {
        assert(s1 =~= Seq::<MessageView>::empty());
        assert(paired(s1) =~= s1);
        return;
    }
    // Where the sanitized list agrees with the paired one.
    assert forall|j: int| 0 <= j < s1.len() && j < n - 1 implies #[trigger] s1[j] == p[j] by {}
    let dropped = st.len() > 0 && st.last().content == ContentView::Blocks(Seq::<BlockView>::empty());
    assert(s1.len() == if dropped { n - 1 } else { n as int });
    // Pairing the sanitized list changes nothing.
    assert forall|j: int| 1 <= j < s1.len() implies #[trigger] repaired(s1[j - 1], s1[j]) == s1[j] by {
        lemma_paired_twice(ms, j);
        if j == n - 1 && st[j] != p[j] {
            assert(st[j].role == "assistant"@);
        }
    }
    assert(paired(s1) =~= s1);
    lemma_paired_shape(ms, n - 1);
    if dropped {
        // Only a stripped assistant message can end up without blocks.
        assert(st[n - 1] != p[n - 1]);
        assert(p[n - 1].role == "assistant"@);
        assert(ms[n - 1].role == "assistant"@);
        if n >= 2 {
            assert(ms[n - 2] == ms[n - 2]);
            assert(!(ms[n - 2].role == "assistant"@ && ms[n - 1].role == "assistant"@));
            lemma_paired_shape(ms, n - 2);
            assert(s1.last() == p[n - 2]);
            assert(strip_trailing_calls(s1) == s1);
            assert(drop_empty_last(s1) == s1);
        } else {
            assert(s1.len() == 0);
        }
    } else {
        assert(s1 == st);
        if st[n - 1] != p[n - 1] {
            lemma_without_calls_has_none(p.last().content->Blocks_0);
        }
        assert(strip_trailing_calls(s1) == s1);
    }
}

fn block_is_call_or_thinking(b: &ContentBlock) -> (r: bool)
    ensures
        r == is_call_or_thinking(b@),
{
    match b {
        ContentBlock::ToolUse { .. } => true,
        ContentBlock::Thinking { .. } => true,
        ContentBlock::RedactedThinking { .. } => true,
        _ => false,
    }
}

/// Ensures every tool call in an assistant message has a result in the next
/// user message, injecting an error result for each call left unanswered
/// (when the conversation was interrupted before all results were saved);
/// strips tool calls and thinking from a trailing assistant message; drops a
/// trailing message left without blocks.
pub fn sanitize_tool_pairs(messages: &mut Vec<ChatMessage>)
    ensures
        messages_view(final(messages)@) == sanitized(messages_view(old(messages)@)),
{
    let ghost orig = messages_view(old(messages)@);
    let n = messages.len();
    let mut j: usize = 1;
    while j < n
        invariant
            n == messages@.len(),
            n == orig.len(),
            1 <= j <= n || n == 0,
            forall|k: int| 0 <= k < j && k < n ==> #[trigger] messages_view(messages@)[k] == paired(orig)[k],
            forall|k: int| j <= k < n ==> #[trigger] messages_view(messages@)[k] == orig[k],
        decreases n - j,
    {
        let ghost before = messages@;
        proof {
            assert(messages_view(before)[j - 1] == paired(orig)[j - 1]);
            assert(messages_view(before)[j as int] == orig[j as int]);
            lemma_pair_step(orig, j as int);
        }
        let extra = missing_results(&messages[j - 1], &messages[j]);
        if extra.len() > 0 {
            let ChatMessage { role, content } = messages.remove(j);
            let ghost mid = messages@;
            let mut extra = extra;
            let new_content = match content {
                MessageContent::ContentBlocks(mut bs) => {
                    let ghost ev = blocks_view(extra@);
                    let ghost bv = blocks_view(bs@);
                    extra.append(&mut bs);
                    assert(blocks_view(extra@) =~= ev + bv);
                    MessageContent::ContentBlocks(extra)
                },
                MessageContent::Text(t) => MessageContent::Text(t),
            };
            let m = ChatMessage { role, content: new_content };
            assert(m@ == paired(orig)[j as int]);
            messages.insert(j, m);
            proof {
                assert(mid == before.remove(j as int));
                assert forall|k: int| 0 <= k < j + 1 && k < n implies #[trigger] messages_view(messages@)[k] == paired(orig)[k] by {
                    if k < j {
                        assert(messages@[k] == mid[k]);
                        assert(mid[k] == before[k]);
                        assert(messages_view(before)[k] == before[k]@);
                    } else {
                        assert(messages@[k] == m);
                    }
                }
                assert forall|k: int| j + 1 <= k < n implies #[trigger] messages_view(messages@)[k] == orig[k] by {
                    assert(messages@[k] == mid[k - 1]);
                    assert(mid[k - 1] == before[k]);
                    assert(messages_view(before)[k] == before[k]@);
                }
            }
        } else {
            assert(messages_view(messages@)[j as int] == paired(orig)[j as int]);
        }
        j = j + 1;
    }
    let ghost pv = messages_view(messages@);
    assert(pv =~= paired(orig));
    if n > 0 {
        let last = messages.len() - 1;
        let is_assistant = str_eq(messages[last].role.as_str(), "assistant");
        if is_assistant {
            let ChatMessage { role, content } = messages.remove(last);
            let new_content = match content {
                MessageContent::ContentBlocks(bs) => {
                    let ghost bv = blocks_view(bs@);
                    let mut any_call = false;
                    let mut i: usize = 0;
                    while i < bs.len()
                        invariant
                            i <= bs@.len(),
                            bv == blocks_view(bs@),
                            any_call == (exists|x: int| 0 <= x < i && (#[trigger] bv[x]) is ToolUse),
                        decreases bs.len() - i,
                    {
                        assert(bv[i as int] == bs@[i as int]@);
                        match &bs[i] {
                            ContentBlock::ToolUse { .. } => {
                                any_call = true;
                            },
                            _ => {},
                        }
                        i = i + 1;
                    }
                    if any_call {
                        let mut kept: Vec<ContentBlock> = Vec::new();
                        let mut rest = bs;
                        let ghost mut k: int = 0;
                        assert(bv.skip(0) =~= bv);
                        assert(blocks_view(kept@) =~= without_calls(bv.take(0)));
                        while rest.len() > 0
                            invariant
                                0 <= k <= bv.len(),
                                rest@.len() + k == bv.len(),
                                blocks_view(rest@) == bv.skip(k),
                                blocks_view(kept@) == without_calls(bv.take(k)),
                            decreases rest.len(),
                        {
                            let ghost r0 = rest@;
                            assert(blocks_view(r0)[0] == r0[0]@);
                            let b = rest.remove(0);
                            assert(rest@ =~= r0.subrange(1, r0.len() as int));
                            assert(bv.skip(k)[0] == b@);
                            assert(bv.take(k + 1).drop_last() =~= bv.take(k));
                            assert(bv.take(k + 1).last() == b@);
                            assert(blocks_view(rest@) =~= blocks_view(r0).subrange(1, r0.len() as int));
                            assert(blocks_view(rest@) =~= bv.skip(k + 1));
                            if !block_is_call_or_thinking(&b) {
                                let ghost prev_kept = blocks_view(kept@);
                                kept.push(b);
                                assert(blocks_view(kept@) =~= prev_kept.push(b@));
                            }
                            proof {
                                k = k + 1;
                            }
                        }
                        assert(bv.take(k) =~= bv);
                        MessageContent::ContentBlocks(kept)
                    } else {
                        MessageContent::ContentBlocks(bs)
                    }
                },
                MessageContent::Text(t) => MessageContent::Text(t),
            };
            messages.push(ChatMessage { role, content: new_content });
            assert(messages_view(messages@) =~= strip_trailing_calls(pv));
        } else {
            assert(messages_view(messages@) =~= strip_trailing_calls(pv));
        }
    } else {
        assert(messages_view(messages@) =~= strip_trailing_calls(pv));
    }
    let ghost sv = messages_view(messages@);
    let len = messages.len();
    if len > 0 {
        let empty_last = match &messages[len - 1].content {
            MessageContent::ContentBlocks(b) => b.len() == 0,
            MessageContent::Text(_) => false,
        };
        if empty_last {
            assert(sv.last().content == ContentView::Blocks(Seq::empty())) by {
                assert(sv.last() == messages@[len - 1]@);
                assert(messages@[len - 1].content->ContentBlocks_0@ =~= Seq::<ContentBlock>::empty());
                assert(blocks_view(Seq::<ContentBlock>::empty()) =~= Seq::<BlockView>::empty());
            }
            messages.pop();
            assert(messages_view(messages@) =~= drop_empty_last(sv));
        } else {
            assert(messages_view(messages@) =~= drop_empty_last(sv));
        }
    } else {
        assert(messages_view(messages@) =~= drop_empty_last(sv));
    }
}


// ---------------------------------------------------------------------------
// Per-turn context in the last user message
// ---------------------------------------------------------------------------

/// The index of the last message before `n` whose role is `user`.
pub open spec fn last_user_before(ms: Seq<MessageView>, n: int) -> Option<int>
    decreases n,
{
    if n <= 0 {
        None
    } else if ms[n - 1].role == "user"@ {
        Some(n - 1)
    } else {
        last_user_before(ms, n - 1)
    }
}

/// The index of the last user message.
pub open spec fn last_user(ms: Seq<MessageView>) -> Option<int> {
    last_user_before(ms, ms.len() as int)
}

/// The message with `b` appended to its blocks; a text message becomes a
/// text block followed by `b`.
pub open spec fn with_block_appended(m: MessageView, b: BlockView) -> MessageView {
    MessageView {
        role: m.role,
        content: ContentView::Blocks(
            match m.content {
                ContentView::Blocks(bs) => bs.push(b),
                ContentView::Text(t) => seq![BlockView::Text(t), b],
            },
        ),
    }
}

/// The message with `b` in front of its blocks, or after them when the first
/// block is a tool result; a text message becomes `b` followed by a text
/// block.
pub open spec fn with_block_in_front(m: MessageView, b: BlockView) -> MessageView {
    MessageView {
        role: m.role,
        content: ContentView::Blocks(
            match m.content {
                ContentView::Blocks(bs) => if bs.len() > 0 && bs[0] is ToolResult {
                    bs.push(b)
                } else {
                    seq![b] + bs
                },
                ContentView::Text(t) => seq![b, BlockView::Text(t)],
            },
        ),
    }
}

/// The block that gives the model the current date and time.
pub open spec fn datetime_block(date_time: Seq<char>) -> BlockView {
    BlockView::Text("Current date/time: "@ + date_time)
}

proof fn lemma_last_user_bounds(ms: Seq<MessageView>, n: int)
    requires
        n <= ms.len(),
    ensures
        last_user_before(ms, n) matches Some(i) ==> 0 <= i < n && ms[i].role == "user"@,
    decreases n,
{
    if n > 0 {
        lemma_last_user_bounds(ms, n - 1);
    }
}

fn find_last_user(messages: &Vec<ChatMessage>) -> (r: Option<usize>)
    ensures
        match r {
            Some(i) => last_user(messages_view(messages@)) == Some(i as int) && i < messages@.len(),
            None => last_user(messages_view(messages@)) is None,
        },
{
    let ghost mv = messages_view(messages@);
    let mut k = messages.len();
    while k > 0
        invariant
            k <= messages@.len(),
            mv == messages_view(messages@),
            last_user(mv) == last_user_before(mv, k as int),
        decreases k,
    {
        assert(mv[k - 1] == messages@[k - 1]@);
        if str_eq(messages[k - 1].role.as_str(), "user") {
            return Some(k - 1);
        }
        k = k - 1;
    }
    None
}

proof fn lemma_replace_message(s: Seq<ChatMessage>, i: int, m: ChatMessage)
    requires
        0 <= i < s.len(),
    ensures
        messages_view(s.remove(i).insert(i, m)) == messages_view(s).update(i, m@),
{
    assert(messages_view(s.remove(i).insert(i, m)) =~= messages_view(s).update(i, m@));
}

/// Appends the memory context as a text block to the last user message, so
/// that the system prompt stays the same from turn to turn. Appending keeps
/// any leading tool results first. Nothing changes when there is no user
/// message.
pub fn inject_subconscious_context(messages: &mut Vec<ChatMessage>, context: &str)
    ensures
        messages_view(final(messages)@) == (match last_user(messages_view(old(messages)@)) {
            Some(i) => messages_view(old(messages)@).update(
                i,
                with_block_appended(messages_view(old(messages)@)[i], BlockView::Text(context@)),
            ),
            None => messages_view(old(messages)@),
        }),
{
    let i = match find_last_user(messages) {
        Some(i) => i,
        None => {
            return;
        },
    };
    let ghost before = messages@;
    let ChatMessage { role, content } = messages.remove(i);
    let block = ContentBlock::Text { text: to_owned_string(context) };
    let new_content = match content {
        MessageContent::ContentBlocks(mut bs) => {
            let ghost bv = blocks_view(bs@);
            let ghost b = block@;
            bs.push(block);
            assert(blocks_view(bs@) =~= bv.push(b));
            MessageContent::ContentBlocks(bs)
        },
        MessageContent::Text(text) => {
            let v = vec![ContentBlock::Text { text }, block];
            assert(blocks_view(v@) =~= seq![v@[0]@, v@[1]@]);
            MessageContent::ContentBlocks(v)
        },
    };
    let m = ChatMessage { role, content: new_content };
    assert(m@ == with_block_appended(before[i as int]@, BlockView::Text(context@)));
    messages.insert(i, m);
    proof {
        lemma_replace_message(before, i as int, m);
        assert(messages_view(before)[i as int] == before[i as int]@);
    }
}

/// `chrono::Local::now()` formatted as `%Y-%m-%d %H:%M:%S %Z`. It reads the
/// clock and the local time zone, so nothing is promised of the text.
#[verifier::external_body]
fn local_datetime_text() -> String {
    chrono::Local::now().format("%Y-%m-%d %H:%M:%S %Z").to_string()
}

/// Puts `Current date/time: <date_time>` in a text block at the front of the
/// last user message, or at its end when the message starts with a tool
/// result (tool results must come first). Nothing changes when there is no
/// user message.
pub fn inject_datetime_text(messages: &mut Vec<ChatMessage>, date_time: &str)
    ensures
        messages_view(final(messages)@) == (match last_user(messages_view(old(messages)@)) {
            Some(i) => messages_view(old(messages)@).update(
                i,
                with_block_in_front(messages_view(old(messages)@)[i], datetime_block(date_time@)),
            ),
            None => messages_view(old(messages)@),
        }),
{
    let text = str_concat("Current date/time: ", date_time);
    let block = ContentBlock::Text { text };
    let i = match find_last_user(messages) {
        Some(i) => i,
        None => {
            return;
        },
    };
    let ghost before = messages@;
    let ghost b = block@;
    let ChatMessage { role, content } = messages.remove(i);
    let new_content = match content {
        MessageContent::ContentBlocks(mut bs) => {
            let ghost bv = blocks_view(bs@);
            let starts_with_result = bs.len() > 0 && match &bs[0] {
                ContentBlock::ToolResult { .. } => true,
                _ => false,
            };
            if bs.len() > 0 {
                assert(bv[0] == bs@[0]@);
            }
            if starts_with_result {
                bs.push(block);
                assert(blocks_view(bs@) =~= bv.push(b));
            } else {
                bs.insert(0, block);
                assert(blocks_view(bs@) =~= seq![b] + bv);
            }
            MessageContent::ContentBlocks(bs)
        },
        MessageContent::Text(text) => {
            let v = vec![block, ContentBlock::Text { text }];
            assert(blocks_view(v@) =~= seq![v@[0]@, v@[1]@]);
            MessageContent::ContentBlocks(v)
        },
    };
    let m = ChatMessage { role, content: new_content };
    assert(m@ == with_block_in_front(before[i as int]@, datetime_block(date_time@)));
    messages.insert(i, m);
    proof {
        lemma_replace_message(before, i as int, m);
        assert(messages_view(before)[i as int] == before[i as int]@);
    }
}

/// Gives the model the current local date and time in the last user message
/// (see [`inject_datetime_text`]), so that the system prompt stays the same
/// from turn to turn.
pub fn inject_datetime_context(messages: &mut Vec<ChatMessage>)
    ensures
        exists|date_time: Seq<char>|
            #![trigger datetime_block(date_time)]
            messages_view(final(messages)@) == (match last_user(messages_view(old(messages)@)) {
                Some(i) => messages_view(old(messages)@).update(
                    i,
                    with_block_in_front(messages_view(old(messages)@)[i], datetime_block(date_time)),
                ),
                None => messages_view(old(messages)@),
            }),
{
    let date_time = local_datetime_text();
    inject_datetime_text(messages, date_time.as_str());
}

// ---------------------------------------------------------------------------
// Speak results
// ---------------------------------------------------------------------------

/// The ids of the calls of the `speak` tool among the blocks, in order.
pub open spec fn speak_ids(bs: Seq<BlockView>) -> Seq<Seq<char>>
    decreases bs.len(),
{
    if bs.len() == 0 {
        Seq::empty()
    } else {
        match bs.last() {
            BlockView::ToolUse(id, name, _) => if name == "speak"@ {
                speak_ids(bs.drop_last()).push(id)
            } else {
                speak_ids(bs.drop_last())
            },
            _ => speak_ids(bs.drop_last()),
        }
    }
}

/// Some block is a result for one of the calls `ids`.
pub open spec fn answers_any(bs: Seq<BlockView>, ids: Seq<Seq<char>>) -> bool {
    exists|i: int|
        0 <= i < bs.len() && (#[trigger] bs[i] matches BlockView::ToolResult(t, _, _) && ids.contains(t))
}

/// Blocks that a speak result carries over: text, images and documents.
pub open spec fn is_transferable(b: BlockView) -> bool {
    b is Text || b is Image || b is Document
}

pub open spec fn transferable(bs: Seq<BlockView>) -> Seq<BlockView>
    decreases bs.len(),
{
    if bs.len() == 0 {
        Seq::empty()
    } else if is_transferable(bs.last()) {
        transferable(bs.drop_last()).push(bs.last())
    } else {
        transferable(bs.drop_last())
    }
}

/// A media source as a JSON object (members sorted by key).
pub open spec fn source_json(source_type: Seq<char>, media_type: Seq<char>, data: Seq<char>) -> Json {
    Json::Object(
        seq![
            ("data"@, Json::Str(data)),
            ("media_type"@, Json::Str(media_type)),
            ("type"@, Json::Str(source_type)),
        ],
    )
}

/// A transferable block as a JSON content block.
pub open spec fn block_json(b: BlockView) -> Json {
    match b {
        BlockView::Text(t) => Json::Object(seq![("text"@, Json::Str(t)), ("type"@, Json::Str("text"@))]),
        BlockView::Image(st, mt, d) => Json::Object(
            seq![("source"@, source_json(st, mt, d)), ("type"@, Json::Str("image"@))],
        ),
        BlockView::Document(st, mt, d) => Json::Object(
            seq![("source"@, source_json(st, mt, d)), ("type"@, Json::Str("document"@))],
        ),
        _ => Json::Null,
    }
}

/// The content of a speak result built from a user's blocks: the empty
/// string when nothing transfers, the text itself when a single text block
/// does, and otherwise the list of the transferable blocks.
pub open spec fn speak_result_content(bs: Seq<BlockView>) -> Json {
    let t = transferable(bs);
    if t.len() == 0 {
        Json::Str(Seq::empty())
    } else if t.len() == 1 && t[0] is Text {
        Json::Str(t[0]->Text_0)
    } else {
        Json::Array(t.map_values(|b: BlockView| block_json(b)))
    }
}

/// The blocks of a message; a text message as one text block.
pub open spec fn content_blocks(c: ContentView) -> Seq<BlockView> {
    match c {
        ContentView::Blocks(bs) => bs,
        ContentView::Text(t) => seq![BlockView::Text(t)],
    }
}

/// A user message that follows an assistant message calling `speak`, and
/// answers none of its speak calls, becomes the result of the first of them.
pub open spec fn speak_repaired(prev: MessageView, next: MessageView) -> MessageView {
    if prev.role == "assistant"@ && prev.content is Blocks && speak_ids(prev.content->Blocks_0).len() > 0
        && next.role == "user"@ && !(next.content is Blocks && answers_any(
        next.content->Blocks_0,
        speak_ids(prev.content->Blocks_0),
    )) {
        MessageView {
            role: next.role,
            content: ContentView::Blocks(
                seq![
                    BlockView::ToolResult(
                        speak_ids(prev.content->Blocks_0)[0],
                        speak_result_content(content_blocks(next.content)),
                        None,
                    ),
                ],
            ),
        }
    } else {
        next
    }
}

/// Every message but the first speak-repaired against the one before it.
pub open spec fn speak_paired(ms: Seq<MessageView>) -> Seq<MessageView> {
    Seq::new(ms.len(), |j: int| if j == 0 { ms[0] } else { speak_repaired(ms[j - 1], ms[j]) })
}

fn speak_call_ids(bs: &Vec<ContentBlock>) -> (r: Vec<String>)
    ensures
        crate::text::strings_view(r@) == speak_ids(blocks_view(bs@)),
{
    let ghost bv = blocks_view(bs@);
    let mut out: Vec<String> = Vec::new();
    let mut i: usize = 0;
    assert(crate::text::strings_view(out@) =~= speak_ids(bv.take(0)));
    while i < bs.len()
        invariant
            i <= bs@.len(),
            bv == blocks_view(bs@),
            crate::text::strings_view(out@) == speak_ids(bv.take(i as int)),
        decreases bs.len() - i,
    {
        assert(bv.take(i + 1).drop_last() =~= bv.take(i as int));
        assert(bv.take(i + 1).last() == bs@[i as int]@);
        match &bs[i] {
            ContentBlock::ToolUse { id, name, .. } => {
                if str_eq(name.as_str(), "speak") {
                    let ghost prev = crate::text::strings_view(out@);
                    out.push(copy_string(id));
                    assert(crate::text::strings_view(out@) =~= prev.push(id@));
                }
            },
            _ => {},
        }
        i = i + 1;
    }
    assert(bv.take(bv.len() as int) =~= bv);
    out
}

fn contains_id(ids: &Vec<String>, id: &str) -> (r: bool)
    ensures
        r == crate::text::strings_view(ids@).contains(id@),
{
    let ghost iv = crate::text::strings_view(ids@);
    let mut i: usize = 0;
    while i < ids.len()
        invariant
            i <= ids@.len(),
            iv == crate::text::strings_view(ids@),
            forall|j: int| 0 <= j < i ==> iv[j] != id@,
        decreases ids.len() - i,
    {
        if str_eq(ids[i].as_str(), id) {
            assert(iv[i as int] == id@);
            return true;
        }
        i = i + 1;
    }
    false
}

fn answers_any_of(bs: &Vec<ContentBlock>, ids: &Vec<String>) -> (r: bool)
    ensures
        r == answers_any(blocks_view(bs@), crate::text::strings_view(ids@)),
{
    let ghost bv = blocks_view(bs@);
    let ghost iv = crate::text::strings_view(ids@);
    let mut i: usize = 0;
    while i < bs.len()
        invariant
            i <= bs@.len(),
            bv == blocks_view(bs@),
            iv == crate::text::strings_view(ids@),
            forall|j: int|
                0 <= j < i ==> !(#[trigger] bv[j] matches BlockView::ToolResult(t, _, _) && iv.contains(t)),
        decreases bs.len() - i,
    {
        assert(bv[i as int] == bs@[i as int]@);
        match &bs[i] {
            ContentBlock::ToolResult { tool_use_id, .. } => {
                if contains_id(ids, tool_use_id.as_str()) {
                    return true;
                }
            },
            _ => {},
        }
        i = i + 1;
    }
    false
}

fn str_json(s: &str) -> (r: JsonValue)
    ensures
        r@ == Json::Str(s@),
{
    JsonValue::Str(to_owned_string(s))
}

fn source_to_json(source_type: &String, media_type: &String, data: &String) -> (r: JsonValue)
    ensures
        r@ == source_json(source_type@, media_type@, data@),
{
    let v = vec![
        (to_owned_string("data"), JsonValue::Str(copy_string(data))),
        (to_owned_string("media_type"), JsonValue::Str(copy_string(media_type))),
        (to_owned_string("type"), JsonValue::Str(copy_string(source_type))),
    ];
    proof {
        crate::json::lemma_entries_view(v@);
        assert(crate::json::entries_view(v@) =~= seq![
            ("data"@, Json::Str(data@)),
            ("media_type"@, Json::Str(media_type@)),
            ("type"@, Json::Str(source_type@)),
        ]);
    }
    JsonValue::Object(v)
}

fn block_to_json(b: &ContentBlock) -> (r: JsonValue)
    requires
        is_transferable(b@),
    ensures
        r@ == block_json(b@),
{
    let (first_key, first, kind) = match b {
        ContentBlock::Text { text } => (to_owned_string("text"), JsonValue::Str(copy_string(text)), "text"),
        ContentBlock::Image { source } => (
            to_owned_string("source"),
            source_to_json(&source.source_type, &source.media_type, &source.data),
            "image",
        ),
        ContentBlock::Document { source } => (
            to_owned_string("source"),
            source_to_json(&source.source_type, &source.media_type, &source.data),
            "document",
        ),
        _ => {
            return JsonValue::Null;
        },
    };
    let v = vec![(first_key, first), (to_owned_string("type"), str_json(kind))];
    proof {
        crate::json::lemma_entries_view(v@);
        assert(crate::json::entries_view(v@) =~= seq![
            (v@[0].0@, json_view(v@[0].1)),
            ("type"@, Json::Str(kind@)),
        ]);
    }
    JsonValue::Object(v)
}

/// The content of the result of a `speak` call made of the user's reply
/// (see [`speak_result_content`]).
pub fn blocks_to_speak_result_content(blocks: &Vec<ContentBlock>) -> (r: JsonValue)
    ensures
        r@ == speak_result_content(blocks_view(blocks@)),
{
    let ghost bv = blocks_view(blocks@);
    let mut items: Vec<JsonValue> = Vec::new();
    let mut first_text: Option<String> = None;
    let mut i: usize = 0;
    assert(transferable(bv.take(0)) =~= Seq::<BlockView>::empty());
    while i < blocks.len()
        invariant
            i <= blocks@.len(),
            bv == blocks_view(blocks@),
            items@.len() == transferable(bv.take(i as int)).len(),
            forall|k: int|
                0 <= k < items@.len() ==> #[trigger] json_view(items@[k]) == block_json(
                    transferable(bv.take(i as int))[k],
                ),
            items@.len() == 0 ==> first_text is None,
            items@.len() > 0 ==> (first_text is Some <==> transferable(bv.take(i as int))[0] is Text),
            first_text matches Some(s) ==> transferable(bv.take(i as int))[0] == BlockView::Text(s@),
        decreases blocks.len() - i,
    {
        let ghost t = transferable(bv.take(i as int));
        assert(bv.take(i + 1).drop_last() =~= bv.take(i as int));
        assert(bv.take(i + 1).last() == blocks@[i as int]@);
        let b = &blocks[i];
        let keep = match b {
            ContentBlock::Text { .. } => true,
            ContentBlock::Image { .. } => true,
            ContentBlock::Document { .. } => true,
            _ => false,
        };
        if keep {
            if items.len() == 0 {
                match b {
                    ContentBlock::Text { text } => {
                        first_text = Some(copy_string(text));
                    },
                    _ => {},
                }
            }
            let j = block_to_json(b);
            items.push(j);
            assert(transferable(bv.take(i + 1)) == t.push(b@));
        } else {
            assert(transferable(bv.take(i + 1)) == t);
        }
        i = i + 1;
    }
    assert(bv.take(bv.len() as int) =~= bv);
    let ghost t = transferable(bv);
    if items.len() == 0 {
        proof {
            reveal_strlit("");
            assert(""@ =~= Seq::<char>::empty());
            assert(t.len() == 0);
        }
        return str_json("");
    }
    if items.len() == 1 {
        match first_text {
            Some(s) => {
                return JsonValue::Str(s);
            },
            None => {},
        }
    }
    proof {
        crate::json::lemma_items_view(items@);
        assert(crate::json::items_view(items@) =~= t.map_values(|b: BlockView| block_json(b)));
    }
    JsonValue::Array(items)
}

/// The result block that replaces `next` when it answers the speak call of
/// `prev` (see [`speak_repaired`]); `None` when `next` stays as it is.
fn speak_result_for(prev: &ChatMessage, next: &ChatMessage) -> (r: Option<ContentBlock>)
    ensures
        speak_repaired(prev@, next@) == (match r {
            Some(b) => MessageView { role: next@.role, content: ContentView::Blocks(seq![b@]) },
            None => next@,
        }),
{
    if !(str_eq(prev.role.as_str(), "assistant") && str_eq(next.role.as_str(), "user")) {
        return None;
    }
    let pb = match &prev.content {
        MessageContent::ContentBlocks(b) => b,
        MessageContent::Text(_) => {
            return None;
        },
    };
    let ids = speak_call_ids(pb);
    if ids.len() == 0 {
        return None;
    }
    let content = match &next.content {
        MessageContent::ContentBlocks(nb) => {
            if answers_any_of(nb, &ids) {
                return None;
            }
            blocks_to_speak_result_content(nb)
        },
        MessageContent::Text(text) => {
            let one = vec![ContentBlock::Text { text: copy_string(text) }];
            assert(blocks_view(one@) =~= seq![BlockView::Text(text@)]);
            blocks_to_speak_result_content(&one)
        },
    };
    Some(ContentBlock::ToolResult { tool_use_id: copy_string(&ids[0]), content, is_error: None })
}

/// Replying to a speak call repairs nothing after it: a speak-repaired
/// message keeps its role, and only user messages change.
proof fn lemma_speak_pair_step(orig: Seq<MessageView>, j: int)
    requires
        1 <= j < orig.len(),
    ensures
        speak_repaired(speak_paired(orig)[j - 1], orig[j]) == speak_repaired(orig[j - 1], orig[j]),
{
    reveal_strlit("user");
    reveal_strlit("assistant");
    assert("user"@.len() != "assistant"@.len());
    if j >= 2 && speak_paired(orig)[j - 1] != orig[j - 1] {
        assert(orig[j - 1].role == "user"@);
    }
}

/// Turns each user message that replies to an unanswered `speak` call into
/// the result of that call. Spoken replies are not stored as tool results:
/// the user's next message is the answer to what the assistant said, so its
/// text, images and documents become the content of a result for the first
/// speak call of the assistant message before it.
pub fn inject_speak_results(messages: &mut Vec<ChatMessage>)
    ensures
        messages_view(final(messages)@) == speak_paired(messages_view(old(messages)@)),
{
    let ghost orig = messages_view(old(messages)@);
    let n = messages.len();
    let mut j: usize = 1;
    while j < n
        invariant
            n == messages@.len(),
            n == orig.len(),
            1 <= j <= n || n == 0,
            forall|k: int| 0 <= k < j && k < n ==> #[trigger] messages_view(messages@)[k] == speak_paired(orig)[k],
            forall|k: int| j <= k < n ==> #[trigger] messages_view(messages@)[k] == orig[k],
        decreases n - j,
    {
        let ghost before = messages@;
        proof {
            assert(messages_view(before)[j - 1] == speak_paired(orig)[j - 1]);
            assert(messages_view(before)[j as int] == orig[j as int]);
            lemma_speak_pair_step(orig, j as int);
        }
        match speak_result_for(&messages[j - 1], &messages[j]) {
            Some(block) => {
                let ChatMessage { role, content } = messages.remove(j);
                let v = vec![block];
                assert(blocks_view(v@) =~= seq![v@[0]@]);
                let m = ChatMessage { role, content: MessageContent::ContentBlocks(v) };
                assert(m@ == speak_paired(orig)[j as int]);
                messages.insert(j, m);
                proof {
                    lemma_replace_message(before, j as int, m);
                    assert forall|k: int| 0 <= k < j + 1 && k < n implies #[trigger] messages_view(messages@)[k]
                        == speak_paired(orig)[k] by {
                        if k < j {
                            assert(messages_view(messages@)[k] == messages_view(before)[k]);
                        }
                    }
                    assert forall|k: int| j + 1 <= k < n implies #[trigger] messages_view(messages@)[k]
                        == orig[k] by {
                        assert(messages_view(messages@)[k] == messages_view(before)[k]);
                    }
                }
            },
            None => {
                assert(messages_view(messages@)[j as int] == speak_paired(orig)[j as int]);
            },
        }
        j = j + 1;
    }
    assert(messages_view(messages@) =~= speak_paired(orig));
}

// ---------------------------------------------------------------------------
// Stored messages to provider messages, and back
// ---------------------------------------------------------------------------

/// What a stored tool result's text is sent as: the parsed array when the
/// text starts with `[` and parses as a JSON array (image and PDF results are
/// stored so), the text as a JSON string otherwise.
pub open spec fn tool_result_value(s: Seq<char>) -> Json {
    match json_parse(s) {
        Some(Json::Array(a)) => if s.len() > 0 && s[0] == '[' {
            Json::Array(a)
        } else {
            Json::Str(s)
        },
        _ => Json::Str(s),
    }
}

/// The text that stands for an attached file.
pub open spec fn file_ref_text(file_name: Seq<char>, file_iri: Seq<char>) -> Seq<char> {
    "[Attached file: "@ + file_name + " | Knowledge base IRI: "@ + file_iri + "]"@
}

/// The input of the `ask_question` call that a stored question stands for.
pub open spec fn question_input(question: Seq<char>, question_type: Seq<char>, options: Seq<Seq<char>>) -> Json {
    Json::Object(
        seq![
            ("options"@, Json::Array(options.map_values(|o: Seq<char>| Json::Str(o)))),
            ("question"@, Json::Str(question)),
            ("type"@, Json::Str(question_type)),
        ],
    )
}

/// A stored block as sent to a provider; camera frames are not sent.
pub open spec fn api_block(b: StoredBlockView) -> Option<BlockView> {
    match b {
        StoredBlockView::Text(t) => Some(BlockView::Text(t)),
        StoredBlockView::Image(st, mt, d) => Some(BlockView::Image(st, mt, d)),
        StoredBlockView::Document(st, mt, d) => Some(BlockView::Document(st, mt, d)),
        StoredBlockView::FileRef(iri, name, _, _) => Some(BlockView::Text(file_ref_text(name, iri))),
        StoredBlockView::CameraRef(_, _) => None,
        StoredBlockView::ToolUse(id, name, input, _) => Some(BlockView::ToolUse(id, name, input)),
        StoredBlockView::ToolResult(id, content, err, _) => Some(BlockView::ToolResult(id, tool_result_value(content), err)),
        StoredBlockView::Thinking(t, sig) => Some(BlockView::Thinking(t, sig)),
        StoredBlockView::RedactedThinking(d) => Some(BlockView::RedactedThinking(d)),
        StoredBlockView::SpeakOutput(t) => Some(BlockView::Text(t)),
        StoredBlockView::QuestionOutput(id, q, qt, opts) => Some(
            BlockView::ToolUse(id, "ask_question"@, question_input(q, qt, opts)),
        ),
        StoredBlockView::CompactionSummary(t) => Some(BlockView::Text(t)),
    }
}

pub open spec fn api_blocks(bs: Seq<StoredBlockView>) -> Seq<BlockView>
    decreases bs.len(),
{
    if bs.len() == 0 {
        Seq::empty()
    } else {
        match api_block(bs.last()) {
            Some(b) => api_blocks(bs.drop_last()).push(b),
            None => api_blocks(bs.drop_last()),
        }
    }
}

/// A stored tool result's text as the JSON value sent to a provider (see
/// [`tool_result_value`]).
pub fn tool_result_content_to_value(s: &str) -> (r: JsonValue)
    ensures
        r@ == tool_result_value(s@),
{
    let cs = chars_of(s);
    if cs.len() > 0 && cs[0] == '[' {
        match parse_json(s) {
            Some(v) => {
                let is_array = match &v {
                    JsonValue::Array(_) => true,
                    _ => false,
                };
                if is_array {
                    return v;
                }
            },
            None => {},
        }
    }
    JsonValue::Str(to_owned_string(s))
}

fn question_to_json(question: &String, question_type: &String, options: &Vec<String>) -> (r: JsonValue)
    ensures
        r@ == question_input(question@, question_type@, strings_view(options@)),
{
    let mut items: Vec<JsonValue> = Vec::new();
    let mut i: usize = 0;
    while i < options.len()
        invariant
            i <= options@.len(),
            items@.len() == i,
            forall|k: int| 0 <= k < i ==> #[trigger] json_view(items@[k]) == Json::Str(options@[k]@),
        decreases options.len() - i,
    {
        items.push(JsonValue::Str(copy_string(&options[i])));
        i = i + 1;
    }
    let v = vec![
        (to_owned_string("options"), JsonValue::Array(items)),
        (to_owned_string("question"), JsonValue::Str(copy_string(question))),
        (to_owned_string("type"), JsonValue::Str(copy_string(question_type))),
    ];
    proof {
        crate::json::lemma_items_view(items@);
        assert(crate::json::items_view(items@) =~= strings_view(options@).map_values(|o: Seq<char>| Json::Str(o)));
        crate::json::lemma_entries_view(v@);
        assert(crate::json::entries_view(v@) =~= seq![
            ("options"@, Json::Array(strings_view(options@).map_values(|o: Seq<char>| Json::Str(o)))),
            ("question"@, Json::Str(question@)),
            ("type"@, Json::Str(question_type@)),
        ]);
    }
    JsonValue::Object(v)
}

fn api_block_of(b: &chat_storage::ContentBlock) -> (r: Option<ContentBlock>)
    ensures
        match r {
            Some(x) => api_block(b@) == Some(x@),
            None => api_block(b@) is None,
        },
{
    match b {
        chat_storage::ContentBlock::Text { text } => Some(ContentBlock::Text { text: copy_string(text) }),
        chat_storage::ContentBlock::Image { source } => Some(
            ContentBlock::Image {
                source: ImageSource {
                    source_type: copy_string(&source.source_type),
                    media_type: copy_string(&source.media_type),
                    data: copy_string(&source.data),
                },
            },
        ),
        chat_storage::ContentBlock::Document { source } => Some(
            ContentBlock::Document {
                source: DocumentSource {
                    source_type: copy_string(&source.source_type),
                    media_type: copy_string(&source.media_type),
                    data: copy_string(&source.data),
                },
            },
        ),
        chat_storage::ContentBlock::FileRef { file_iri, file_name, .. } => {
            let a = str_concat("[Attached file: ", file_name.as_str());
            let b = str_concat(a.as_str(), " | Knowledge base IRI: ");
            let c = str_concat(b.as_str(), file_iri.as_str());
            let text = str_concat(c.as_str(), "]");
            Some(ContentBlock::Text { text })
        },
        chat_storage::ContentBlock::CameraRef { .. } => None,
        chat_storage::ContentBlock::ToolUse { id, name, input, .. } => Some(
            ContentBlock::ToolUse { id: copy_string(id), name: copy_string(name), input: clone_json(input) },
        ),
        chat_storage::ContentBlock::ToolResult { tool_use_id, content, is_error, .. } => Some(
            ContentBlock::ToolResult {
                tool_use_id: copy_string(tool_use_id),
                content: tool_result_content_to_value(content.as_str()),
                is_error: *is_error,
            },
        ),
        chat_storage::ContentBlock::Thinking { thinking, signature } => Some(
            ContentBlock::Thinking { thinking: copy_string(thinking), signature: copy_string(signature) },
        ),
        chat_storage::ContentBlock::RedactedThinking { data } => Some(
            ContentBlock::RedactedThinking { data: copy_string(data) },
        ),
        chat_storage::ContentBlock::SpeakOutput { text } => Some(ContentBlock::Text { text: copy_string(text) }),
        chat_storage::ContentBlock::QuestionOutput { id, question, question_type, options } => Some(
            ContentBlock::ToolUse {
                id: copy_string(id),
                name: to_owned_string("ask_question"),
                input: question_to_json(question, question_type, options),
            },
        ),
        chat_storage::ContentBlock::CompactionSummary { text } => Some(ContentBlock::Text { text: copy_string(text) }),
    }
}

/// A stored message as sent to a provider: its role, and its blocks as
/// [`api_block`] maps them, in order, camera frames left out.
pub fn message_to_api_format(msg: &AIConversationMessage) -> (r: ChatMessage)
    ensures
        r@ == (MessageView {
            role: msg.role@,
            content: ContentView::Blocks(api_blocks(stored_blocks_view(msg.content@))),
        }),
{
    let ghost sv = stored_blocks_view(msg.content@);
    let mut out: Vec<ContentBlock> = Vec::new();
    let mut i: usize = 0;
    assert(blocks_view(out@) =~= api_blocks(sv.take(0)));
    while i < msg.content.len()
        invariant
            i <= msg.content@.len(),
            sv == stored_blocks_view(msg.content@),
            blocks_view(out@) == api_blocks(sv.take(i as int)),
        decreases msg.content.len() - i,
    {
        assert(sv.take(i + 1).drop_last() =~= sv.take(i as int));
        assert(sv.take(i + 1).last() == msg.content@[i as int]@);
        match api_block_of(&msg.content[i]) {
            Some(b) => {
                let ghost prev = blocks_view(out@);
                let ghost bv = b@;
                out.push(b);
                assert(blocks_view(out@) =~= prev.push(bv));
            },
            None => {},
        }
        i = i + 1;
    }
    assert(sv.take(sv.len() as int) =~= sv);
    ChatMessage { role: copy_string(&msg.role), content: MessageContent::ContentBlocks(out) }
}

/// A thinking block as stored.
pub open spec fn stored_thinking(t: ThinkingBlock) -> StoredBlockView {
    match t {
        ThinkingBlock::Thinking { thinking, signature } => StoredBlockView::Thinking(thinking@, signature@),
        ThinkingBlock::RedactedThinking { data } => StoredBlockView::RedactedThinking(data@),
    }
}

/// A tool call as stored.
pub open spec fn stored_call(c: ToolCall) -> StoredBlockView {
    StoredBlockView::ToolUse(c.id@, c.name@, c.input@, None)
}

/// The blocks stored for a model's reply: its thinking blocks, then its text
/// when there is any, then its tool calls, each in order.
pub open spec fn response_blocks(content: Seq<char>, calls: Seq<ToolCall>, thinking: Seq<ThinkingBlock>) -> Seq<
    StoredBlockView,
> {
    thinking.map_values(|t: ThinkingBlock| stored_thinking(t)) + (if content.len() > 0 {
        seq![StoredBlockView::Text(content)]
    } else {
        Seq::empty()
    }) + calls.map_values(|c: ToolCall| stored_call(c))
}

/// The blocks to store for a model's reply (see [`response_blocks`]); it
/// never fails.
pub fn response_content_to_blocks(content: &str, tool_calls: &[ToolCall], thinking_blocks: &[ThinkingBlock]) -> (r:
    Result<Vec<chat_storage::ContentBlock>, String>)
    ensures
        r matches Ok(v) && stored_blocks_view(v@) == response_blocks(content@, tool_calls@, thinking_blocks@),
{
    let mut blocks: Vec<chat_storage::ContentBlock> = Vec::new();
    let mut i: usize = 0;
    while i < thinking_blocks.len()
        invariant
            i <= thinking_blocks@.len(),
            stored_blocks_view(blocks@) == thinking_blocks@.take(i as int).map_values(
                |t: ThinkingBlock| stored_thinking(t),
            ),
        decreases thinking_blocks.len() - i,
    {
        let ghost prev = stored_blocks_view(blocks@);
        let b = match &thinking_blocks[i] {
            ThinkingBlock::Thinking { thinking, signature } => chat_storage::ContentBlock::Thinking {
                thinking: copy_string(thinking),
                signature: copy_string(signature),
            },
            ThinkingBlock::RedactedThinking { data } => chat_storage::ContentBlock::RedactedThinking {
                data: copy_string(data),
            },
        };
        let ghost bv = b@;
        assert(bv == stored_thinking(thinking_blocks@[i as int]));
        blocks.push(b);
        assert(stored_blocks_view(blocks@) =~= prev.push(bv));
        assert(thinking_blocks@.take(i + 1) =~= thinking_blocks@.take(i as int).push(thinking_blocks@[i as int]));
        i = i + 1;
    }
    assert(thinking_blocks@.take(thinking_blocks@.len() as int) =~= thinking_blocks@);
    let ghost head = stored_blocks_view(blocks@);
    let cs = chars_of(content);
    if cs.len() > 0 {
        blocks.push(chat_storage::ContentBlock::Text { text: to_owned_string(content) });
        assert(stored_blocks_view(blocks@) =~= head.push(StoredBlockView::Text(content@)));
    } else {
        assert(stored_blocks_view(blocks@) =~= head);
    }
    let ghost mid = stored_blocks_view(blocks@);
    let mut j: usize = 0;
    while j < tool_calls.len()
        invariant
            j <= tool_calls@.len(),
            stored_blocks_view(blocks@) == mid + tool_calls@.take(j as int).map_values(|c: ToolCall| stored_call(c)),
        decreases tool_calls.len() - j,
    {
        let ghost prev = stored_blocks_view(blocks@);
        let c = &tool_calls[j];
        let b = chat_storage::ContentBlock::ToolUse {
            id: copy_string(&c.id),
            name: copy_string(&c.name),
            input: clone_json(&c.input),
            reason: None,
        };
        let ghost bv = b@;
        blocks.push(b);
        assert(stored_blocks_view(blocks@) =~= prev.push(bv));
        assert(tool_calls@.take(j + 1) =~= tool_calls@.take(j as int).push(tool_calls@[j as int]));
        j = j + 1;
    }
    assert(tool_calls@.take(tool_calls@.len() as int) =~= tool_calls@);
    assert(stored_blocks_view(blocks@) =~= response_blocks(content@, tool_calls@, thinking_blocks@));
    Ok(blocks)
}

// ---------------------------------------------------------------------------
// File summaries written by the model
// ---------------------------------------------------------------------------

/// The opening of a summary tag.
pub const SUMMARY_OPEN: &'static str = "<filesummary ";

/// The closing summary tag.
pub const SUMMARY_CLOSE: &'static str = "</filesummary>";

/// The file IRI named in the body of an opening summary tag (what lies
/// between `<filesummary ` and `>`): the text between `file="` and the next
/// `"`.
pub open spec fn summary_iri(body: Seq<char>) -> Option<Seq<char>> {
    match find(body, "file=\""@) {
        Some(p) => match find_char_from(body, '"', p + 6) {
            Some(q) => Some(body.subrange(p + 6, q)),
            None => None,
        },
        None => None,
    }
}

/// `s` from `pos` on with the summary tags taken out, and the summaries
/// found: `(IRI, summary)` for each complete tag that names a file and holds
/// a summary that is not blank. An opening tag without a `>` stops the
/// stripping and stays; one with a `>` but no closing tag is dropped and the
/// rest stays.
pub open spec fn strip_summaries_from(s: Seq<char>, pos: int) -> (Seq<char>, Seq<(Seq<char>, Seq<char>)>)
    decreases s.len() - pos,
{
    if pos < 0 || pos > s.len() {
        (Seq::empty(), Seq::empty())
    } else {
        match find_from(s, SUMMARY_OPEN@, pos) {
            None => (s.subrange(pos, s.len() as int), Seq::empty()),
            Some(start) => match find_char_from(s, '>', start) {
                None => (s.subrange(pos, s.len() as int), Seq::empty()),
                Some(te) => match find_from(s, SUMMARY_CLOSE@, te + 1) {
                    None => (s.subrange(pos, start) + s.subrange(te + 1, s.len() as int), Seq::empty()),
                    Some(close) => {
                        proof {
                            lemma_find_from_props(s, SUMMARY_OPEN@, pos);
                            lemma_find_from_props(s, seq!['>'], start);
                            lemma_find_from_props(s, SUMMARY_CLOSE@, te + 1);
                            reveal_strlit("</filesummary>");
                        }
                        let summary = trim(s.subrange(te + 1, close));
                        let iri = summary_iri(s.subrange(start + 13, te));
                        let rest = strip_summaries_from(s, close + 14);
                        (
                            s.subrange(pos, start) + rest.0,
                            if iri is Some && summary.len() > 0 {
                                seq![(iri->0, summary)] + rest.1
                            } else {
                                rest.1
                            },
                        )
                    },
                },
            },
        }
    }
}

/// The text with its summary tags taken out and then trimmed.
pub open spec fn stripped_text(t: Seq<char>) -> Seq<char> {
    trim(strip_summaries_from(t, 0).0)
}

/// The pairs of strings as mathematical values.
pub open spec fn pairs_view(v: Seq<(String, String)>) -> Seq<(Seq<char>, Seq<char>)> {
    v.map_values(|p: (String, String)| (p.0@, p.1@))
}

/// A `>` found after an opening summary tag lies past the tag's opening.
proof fn lemma_tag_end_after_open(s: Seq<char>, start: int)
    requires
        occurs_at(s, SUMMARY_OPEN@, start),
    ensures
        find_char_from(s, '>', start) matches Some(te) ==> start + 13 <= te < s.len(),
{
    reveal_strlit("<filesummary ");
    lemma_find_from_props(s, seq!['>'], start);
    if let Some(te) = find_char_from(s, '>', start) {
        assert(s.subrange(te, te + 1)[0] == '>');
        if te < start + 13 {
            assert(s.subrange(start, start + 13)[te - start] == s[te]);
            assert(SUMMARY_OPEN@[te - start] != '>');
        }
    }
}

fn summary_iri_of(s: &Vec<char>, lo: usize, hi: usize) -> (r: Option<String>)
    requires
        lo <= hi <= s@.len(),
    ensures
        chat_storage::opt_string_view(r) == summary_iri(s@.subrange(lo as int, hi as int)),
{
    let body = slice_chars(s, lo, hi);
    let pat = chars_of("file=\"");
    proof {
        reveal_strlit("file=\"");
    }
    match find_chars(&body, &pat) {
        Some(p) => {
            let quote = vec!['"'];
            assert(quote@ =~= seq!['"']);
            match find_chars_from(&body, &quote, p + 6) {
                Some(q) => {
                    proof {
                        lemma_find_from_props(body@, seq!['"'], p + 6);
                    }
                    Some(string_of(&slice_chars(&body, p + 6, q)))
                },
                None => None,
            }
        },
        None => None,
    }
}

/// Takes the summary tags out of `text` and trims it; returns the text left
/// and the `(IRI, summary)` pairs found (see [`strip_summaries_from`]).
pub fn strip_file_summaries(text: &str) -> (r: (String, Vec<(String, String)>))
    ensures
        r.0@ == stripped_text(text@),
        pairs_view(r.1@) == strip_summaries_from(text@, 0).1,
{
    let s = chars_of(text);
    let open = chars_of(SUMMARY_OPEN);
    let close_tag = chars_of(SUMMARY_CLOSE);
    let gt = vec!['>'];
    proof {
        reveal_strlit("<filesummary ");
        reveal_strlit("</filesummary>");
        assert(gt@ =~= seq!['>']);
    }
    let ghost whole = strip_summaries_from(s@, 0);
    let mut out: Vec<char> = Vec::new();
    let mut saves: Vec<(String, String)> = Vec::new();
    let mut pos: usize = 0;
    loop
        invariant_except_break
            out@ + strip_summaries_from(s@, pos as int).0 == whole.0,
            pairs_view(saves@) + strip_summaries_from(s@, pos as int).1 == whole.1,
        invariant
            pos <= s@.len(),
            s@ == text@,
            open@ == SUMMARY_OPEN@,
            close_tag@ == SUMMARY_CLOSE@,
            gt@ == seq!['>'],
            whole == strip_summaries_from(s@, 0),
        ensures
            out@ == whole.0,
            pairs_view(saves@) == whole.1,
        decreases s@.len() - pos,
    {
        let ghost here = strip_summaries_from(s@, pos as int);
        let ghost saved = pairs_view(saves@);
        let n = s.len();
        match find_chars_from(&s, &open, pos) {
            None => {
                let tail = slice_chars(&s, pos, n);
                push_all(&mut out, &tail);
                assert(saved + Seq::<(Seq<char>, Seq<char>)>::empty() =~= saved);
                break;
            },
            Some(start) => {
                proof {
                    lemma_find_from_props(s@, SUMMARY_OPEN@, pos as int);
                    lemma_tag_end_after_open(s@, start as int);
                }
                match find_chars_from(&s, &gt, start) {
                    None => {
                        let tail = slice_chars(&s, pos, n);
                        push_all(&mut out, &tail);
                        assert(saved + Seq::<(Seq<char>, Seq<char>)>::empty() =~= saved);
                        break;
                    },
                    Some(te) => {
                        match find_chars_from(&s, &close_tag, te + 1) {
                            None => {
                                let head = slice_chars(&s, pos, start);
                                let tail = slice_chars(&s, te + 1, n);
                                let ghost o = out@;
                                push_all(&mut out, &head);
                                push_all(&mut out, &tail);
                                assert(out@ =~= o + (head@ + tail@));
                                assert(saved + Seq::<(Seq<char>, Seq<char>)>::empty() =~= saved);
                                break;
                            },
                            Some(close) => {
                                proof {
                                    lemma_find_from_props(s@, SUMMARY_CLOSE@, te + 1);
                                    reveal_strlit("</filesummary>");
                                }
                                let head = slice_chars(&s, pos, start);
                                let ghost o = out@;
                                push_all(&mut out, &head);
                                let summary = crate::text::trim_range(&s, te + 1, close);
                                let iri = summary_iri_of(&s, start + 13, te);
                                let ghost next = strip_summaries_from(s@, close + 14);
                                match iri {
                                    Some(iri) => {
                                        if summary.len() > 0 {
                                            let ghost iv = iri@;
                                            saves.push((iri, string_of(&summary)));
                                            assert(pairs_view(saves@) =~= saved.push((iv, summary@)));
                                            assert(saved.push((iv, summary@)) + next.1 =~= saved + (seq![(iv, summary@)] + next.1));
                                        }
                                    },
                                    None => {},
                                }
                                assert(out@ + next.0 =~= o + (head@ + next.0));
                                pos = close + 14;
                            },
                        }
                    },
                }
            },
        }
    }
    let ghost w = strip_summaries_from(s@, 0);
    assert(out@ == w.0);
    let t = crate::text::trim_chars(&out);
    (string_of(&t), saves)
}

/// A stored block with the summary tags taken out of its text.
pub open spec fn summary_stripped_block(b: StoredBlockView) -> StoredBlockView {
    match b {
        StoredBlockView::Text(t) => StoredBlockView::Text(stripped_text(t)),
        _ => b,
    }
}

pub open spec fn is_empty_text(b: StoredBlockView) -> bool {
    match b {
        StoredBlockView::Text(t) => t.len() == 0,
        _ => false,
    }
}

/// The blocks with the summary tags taken out of their texts, text blocks
/// left empty dropped.
pub open spec fn summary_stripped_blocks(bs: Seq<StoredBlockView>) -> Seq<StoredBlockView>
    decreases bs.len(),
{
    if bs.len() == 0 {
        Seq::empty()
    } else if is_empty_text(summary_stripped_block(bs.last())) {
        summary_stripped_blocks(bs.drop_last())
    } else {
        summary_stripped_blocks(bs.drop_last()).push(summary_stripped_block(bs.last()))
    }
}

/// The `(IRI, summary)` pairs found in the text blocks, in order.
pub open spec fn block_summaries(bs: Seq<StoredBlockView>) -> Seq<(Seq<char>, Seq<char>)>
    decreases bs.len(),
{
    if bs.len() == 0 {
        Seq::empty()
    } else {
        match bs.last() {
            StoredBlockView::Text(t) => block_summaries(bs.drop_last()) + strip_summaries_from(t, 0).1,
            _ => block_summaries(bs.drop_last()),
        }
    }
}

/// Takes the `<filesummary file="IRI">summary</filesummary>` tags out of
/// the text blocks of an assistant's reply. Returns the blocks to store, text
/// blocks left empty removed, and the summaries to save for the files they
/// name.
pub fn extract_file_summaries(blocks: Vec<chat_storage::ContentBlock>) -> (r: (
    Vec<chat_storage::ContentBlock>,
    Vec<(String, String)>,
))
    ensures
        stored_blocks_view(r.0@) == summary_stripped_blocks(stored_blocks_view(blocks@)),
        pairs_view(r.1@) == block_summaries(stored_blocks_view(blocks@)),
{
    let ghost bv = stored_blocks_view(blocks@);
    let mut kept: Vec<chat_storage::ContentBlock> = Vec::new();
    let mut saves: Vec<(String, String)> = Vec::new();
    let mut rest = blocks;
    let ghost mut k: int = 0;
    assert(bv.skip(0) =~= bv);
    assert(stored_blocks_view(kept@) =~= summary_stripped_blocks(bv.take(0)));
    assert(pairs_view(saves@) =~= block_summaries(bv.take(0)));
    while rest.len() > 0
        invariant
            0 <= k <= bv.len(),
            rest@.len() + k == bv.len(),
            stored_blocks_view(rest@) == bv.skip(k),
            stored_blocks_view(kept@) == summary_stripped_blocks(bv.take(k)),
            pairs_view(saves@) == block_summaries(bv.take(k)),
        decreases rest.len(),
    {
        let ghost r0 = rest@;
        assert(stored_blocks_view(r0)[0] == r0[0]@);
        let b = rest.remove(0);
        assert(rest@ =~= r0.subrange(1, r0.len() as int));
        assert(stored_blocks_view(rest@) =~= stored_blocks_view(r0).subrange(1, r0.len() as int));
        assert(bv.skip(k)[0] == b@);
        assert(bv.take(k + 1).drop_last() =~= bv.take(k));
        assert(bv.take(k + 1).last() == b@);
        assert(stored_blocks_view(rest@) =~= bv.skip(k + 1));
        let ghost prev_kept = stored_blocks_view(kept@);
        let ghost prev_saves = pairs_view(saves@);
        match b {
            chat_storage::ContentBlock::Text { text } => {
                let (t, found) = strip_file_summaries(text.as_str());
                let mut found = found;
                let ghost fv = pairs_view(found@);
                let mut i: usize = 0;
                while i < found.len()
                    invariant
                        i <= found@.len(),
                        pairs_view(saves@) == prev_saves + fv.take(i as int),
                        fv == pairs_view(found@),
                    decreases found.len() - i,
                {
                    let ghost sv = pairs_view(saves@);
                    let pair = (copy_string(&found[i].0), copy_string(&found[i].1));
                    saves.push(pair);
                    assert(pairs_view(saves@) =~= sv.push(fv[i as int]));
                    assert(fv.take(i + 1) =~= fv.take(i as int).push(fv[i as int]));
                    i = i + 1;
                }
                assert(fv.take(fv.len() as int) =~= fv);
                let is_empty = chars_of(t.as_str()).len() == 0;
                if !is_empty {
                    let ghost tv = t@;
                    kept.push(chat_storage::ContentBlock::Text { text: t });
                    assert(stored_blocks_view(kept@) =~= prev_kept.push(StoredBlockView::Text(tv)));
                }
            },
            other => {
                let ghost ov = other@;
                kept.push(other);
                assert(stored_blocks_view(kept@) =~= prev_kept.push(ov));
            },
        }
        proof {
            k = k + 1;
        }
    }
    assert(bv.take(k) =~= bv);
    (kept, saves)
}

// ---------------------------------------------------------------------------
// Attachments of the current turn
// ---------------------------------------------------------------------------

/// The bytes that base64's `STANDARD` engine (standard alphabet, canonical
/// padding required) decodes from `text`; `None` when it reports an error.
pub uninterp spec fn base64_standard_decode(text: Seq<char>) -> Option<Seq<u8>>;

/// The text whose UTF-8 encoding is `bytes`, as `String::from_utf8` reads
/// it; `None` when the bytes are not valid UTF-8.
pub uninterp spec fn utf8_decode(bytes: Seq<u8>) -> Option<Seq<char>>;

/// `base64::engine::general_purpose::STANDARD.decode`: the decoded bytes, or
/// `None` on a decoding error. Its result is stated by name only.
#[verifier::external_body]
fn base64_decode(data: &str) -> (r: Option<Vec<u8>>)
    ensures
        match r {
            Some(b) => base64_standard_decode(data@) == Some(b@),
            None => base64_standard_decode(data@) is None,
        },
{
    base64::Engine::decode(&base64::engine::general_purpose::STANDARD, data).ok()
}

/// `String::from_utf8`: the text, or `None` when the bytes are not valid
/// UTF-8. Its result is stated by name only.
#[verifier::external_body]
fn utf8_string(bytes: Vec<u8>) -> (r: Option<String>)
    ensures
        match r {
            Some(s) => utf8_decode(bytes@) == Some(s@),
            None => utf8_decode(bytes@) is None,
        },
{
    String::from_utf8(bytes).ok()
}

/// The text of a base64 text attachment; empty when it does not decode.
pub open spec fn decoded_text(data: Seq<char>) -> Seq<char> {
    match base64_standard_decode(data) {
        Some(b) => match utf8_decode(b) {
            Some(t) => t,
            None => Seq::empty(),
        },
        None => Seq::empty(),
    }
}

/// Decodes a base64 text attachment (see [`decoded_text`]).
pub fn decode_text_attachment(data: &str) -> (r: String)
    ensures
        r@ == decoded_text(data@),
{
    match base64_decode(data) {
        Some(bytes) => match utf8_string(bytes) {
            Some(t) => t,
            None => {
                proof {
                    reveal_strlit("");
                }
                let e = to_owned_string("");
                assert(e@ =~= Seq::<char>::empty());
                e
            },
        },
        None => {
            proof {
                reveal_strlit("");
            }
            let e = to_owned_string("");
            assert(e@ =~= Seq::<char>::empty());
            e
        },
    }
}

/// How the text of a text attachment is given to the model.
pub open spec fn file_content_text(mime_type: Seq<char>, decoded: Seq<char>) -> Seq<char> {
    "<file_content mime_type=\""@ + mime_type + "\">\n"@ + decoded + "\n</file_content>"@
}

/// The text of a text attachment wrapped for the model (see
/// [`file_content_text`]).
pub fn file_content_block_text(mime_type: &str, decoded: &str) -> (r: String)
    ensures
        r@ == file_content_text(mime_type@, decoded@),
{
    let a = str_concat("<file_content mime_type=\"", mime_type);
    let b = str_concat(a.as_str(), "\">\n");
    let c = str_concat(b.as_str(), decoded);
    str_concat(c.as_str(), "\n</file_content>")
}

/// The block an attachment `(MIME type, base64 data)` becomes: an image, a
/// PDF document, or the decoded text of a text file; other types give none.
pub open spec fn attachment_block(mime_type: Seq<char>, data: Seq<char>) -> Option<BlockView> {
    if crate::text::starts_with(mime_type, "image/"@) {
        Some(BlockView::Image("base64"@, mime_type, data))
    } else if mime_type == "application/pdf"@ {
        Some(BlockView::Document("base64"@, mime_type, data))
    } else if crate::text::starts_with(mime_type, "text/"@) {
        Some(BlockView::Text(file_content_text(mime_type, decoded_text(data))))
    } else {
        None
    }
}

pub open spec fn attachment_blocks(bins: Seq<(Seq<char>, Seq<char>)>) -> Seq<BlockView>
    decreases bins.len(),
{
    if bins.len() == 0 {
        Seq::empty()
    } else {
        match attachment_block(bins.last().0, bins.last().1) {
            Some(b) => attachment_blocks(bins.drop_last()).push(b),
            None => attachment_blocks(bins.drop_last()),
        }
    }
}

/// A camera frame as an image block.
pub open spec fn frame_block(frame: Seq<char>) -> BlockView {
    BlockView::Image("base64"@, "image/jpeg"@, frame)
}

fn attachment_to_block(mime_type: &String, data: &String) -> (r: Option<ContentBlock>)
    ensures
        match r {
            Some(b) => attachment_block(mime_type@, data@) == Some(b@),
            None => attachment_block(mime_type@, data@) is None,
        },
{
    let m = chars_of(mime_type.as_str());
    let image = chars_of("image/");
    let text = chars_of("text/");
    if crate::text::starts_with_chars(&m, &image) {
        Some(
            ContentBlock::Image {
                source: ImageSource {
                    source_type: to_owned_string("base64"),
                    media_type: copy_string(mime_type),
                    data: copy_string(data),
                },
            },
        )
    } else if str_eq(mime_type.as_str(), "application/pdf") {
        Some(
            ContentBlock::Document {
                source: DocumentSource {
                    source_type: to_owned_string("base64"),
                    media_type: copy_string(mime_type),
                    data: copy_string(data),
                },
            },
        )
    } else if crate::text::starts_with_chars(&m, &text) {
        let decoded = decode_text_attachment(data.as_str());
        Some(ContentBlock::Text { text: file_content_block_text(mime_type.as_str(), decoded.as_str()) })
    } else {
        None
    }
}

/// The start of the request for summaries of attached files.
pub const SUMMARY_REQUEST_HEAD: &'static str = "[System: The following attached files have no AI summary yet:\n";

/// The end of the request for summaries of attached files.
pub const SUMMARY_REQUEST_TAIL: &'static str = "\nFor each, include a tag in your response: <filesummary file=\"IRI\">summary</filesummary>. Summaries are saved automatically for future conversations.]";

/// What is asked of the first camera frame.
pub const FIRST_FRAME_NOTE: &'static str = ") — user's emotional/body state in 1-3 words + one-line environment note";

/// What is asked of every later camera frame.
pub const NEXT_FRAME_NOTE: &'static str = ") — user's emotional/body state in 1-3 words; omit environment unless it changed";

/// A file `(IRI, name)` is a camera frame when its name says so.
pub open spec fn is_camera_frame(f: (Seq<char>, Seq<char>)) -> bool {
    crate::text::starts_with(f.1, "camera_frame_"@)
}

pub open spec fn camera_files(files: Seq<(Seq<char>, Seq<char>)>) -> Seq<(Seq<char>, Seq<char>)>
    decreases files.len(),
{
    if files.len() == 0 {
        Seq::empty()
    } else if is_camera_frame(files.last()) {
        camera_files(files.drop_last()).push(files.last())
    } else {
        camera_files(files.drop_last())
    }
}

pub open spec fn other_files(files: Seq<(Seq<char>, Seq<char>)>) -> Seq<(Seq<char>, Seq<char>)>
    decreases files.len(),
{
    if files.len() == 0 {
        Seq::empty()
    } else if !is_camera_frame(files.last()) {
        other_files(files.drop_last()).push(files.last())
    } else {
        other_files(files.drop_last())
    }
}

/// The line asking for a summary of the `i`-th camera frame.
pub open spec fn frame_line(i: int, f: (Seq<char>, Seq<char>)) -> Seq<char> {
    "- "@ + f.1 + " (IRI: "@ + f.0 + (if i == 0 {
        FIRST_FRAME_NOTE@
    } else {
        NEXT_FRAME_NOTE@
    })
}

/// The line asking for a summary of another file.
pub open spec fn file_line(f: (Seq<char>, Seq<char>)) -> Seq<char> {
    "- "@ + f.1 + " (IRI: "@ + f.0 + ")"@
}

/// The sections of the request: camera frames first, then the other files,
/// each only when there is one.
pub open spec fn summary_parts(files: Seq<(Seq<char>, Seq<char>)>) -> Seq<Seq<char>> {
    let c = camera_files(files);
    let o = other_files(files);
    (if c.len() > 0 {
        seq!["Camera frames:\n"@ + crate::text::join(Seq::new(c.len(), |i: int| frame_line(i, c[i])), "\n"@)]
    } else {
        Seq::empty()
    }) + (if o.len() > 0 {
        seq![
            "Other files (concise summary):\n"@ + crate::text::join(
                o.map_values(|f: (Seq<char>, Seq<char>)| file_line(f)),
                "\n"@,
            ),
        ]
    } else {
        Seq::empty()
    })
}

/// The request to summarize the attached files that have no summary yet.
pub open spec fn summary_request_text(files: Seq<(Seq<char>, Seq<char>)>) -> Seq<char> {
    SUMMARY_REQUEST_HEAD@ + crate::text::join(summary_parts(files), "\n"@) + SUMMARY_REQUEST_TAIL@
}

fn file_line_text(name: &str, iri: &str, end: &str) -> (r: String)
    ensures
        r@ == "- "@ + name@ + " (IRI: "@ + iri@ + end@,
{
    let a = str_concat("- ", name);
    let b = str_concat(a.as_str(), " (IRI: ");
    let c = str_concat(b.as_str(), iri);
    str_concat(c.as_str(), end)
}

/// The request to summarize the files `(IRI, name)` (see
/// [`summary_request_text`]).
pub fn summary_request(files: &[(String, String)]) -> (r: String)
    ensures
        r@ == summary_request_text(pairs_view(files@)),
{
    let ghost fv = pairs_view(files@);
    let mut frame_lines: Vec<String> = Vec::new();
    let mut file_lines: Vec<String> = Vec::new();
    let mut i: usize = 0;
    assert(camera_files(fv.take(0)) =~= Seq::<(Seq<char>, Seq<char>)>::empty());
    assert(other_files(fv.take(0)) =~= Seq::<(Seq<char>, Seq<char>)>::empty());
    while i < files.len()
        invariant
            i <= files@.len(),
            fv == pairs_view(files@),
            strings_view(frame_lines@) == Seq::new(
                camera_files(fv.take(i as int)).len(),
                |k: int| frame_line(k, camera_files(fv.take(i as int))[k]),
            ),
            strings_view(file_lines@) == other_files(fv.take(i as int)).map_values(
                |f: (Seq<char>, Seq<char>)| file_line(f),
            ),
        decreases files.len() - i,
    {
        let ghost cf = camera_files(fv.take(i as int));
        let ghost of = other_files(fv.take(i as int));
        assert(fv.take(i + 1).drop_last() =~= fv.take(i as int));
        assert(fv.take(i + 1).last() == fv[i as int]);
        let iri = files[i].0.as_str();
        let name = files[i].1.as_str();
        let is_frame = crate::text::starts_with_chars(&chars_of(name), &chars_of("camera_frame_"));
        if is_frame {
            let note = if frame_lines.len() == 0 {
                FIRST_FRAME_NOTE
            } else {
                NEXT_FRAME_NOTE
            };
            assert(strings_view(frame_lines@).len() == frame_lines@.len());
            assert(frame_lines@.len() == cf.len());
            assert(note@ == (if cf.len() == 0 { FIRST_FRAME_NOTE@ } else { NEXT_FRAME_NOTE@ }));
            let line = file_line_text(name, iri, note);
            assert(fv[i as int] == (files@[i as int].0@, files@[i as int].1@));
            assert(line@ == frame_line(cf.len() as int, fv[i as int]));
            let ghost before = strings_view(frame_lines@);
            let ghost lv = line@;
            frame_lines.push(line);
            proof {
                let ncf = camera_files(fv.take(i + 1));
                assert(ncf == cf.push(fv[i as int]));
                assert(strings_view(frame_lines@) =~= before.push(lv));
                assert(strings_view(frame_lines@) =~= Seq::new(ncf.len(), |k: int| frame_line(k, ncf[k])));
                assert(other_files(fv.take(i + 1)) == of);
            }
        } else {
            let line = file_line_text(name, iri, ")");
            assert(line@ == file_line(fv[i as int]));
            let ghost before = strings_view(file_lines@);
            let ghost lv = line@;
            file_lines.push(line);
            proof {
                let nof = other_files(fv.take(i + 1));
                assert(nof == of.push(fv[i as int]));
                assert(strings_view(file_lines@) =~= before.push(lv));
                assert(strings_view(file_lines@) =~= nof.map_values(|f: (Seq<char>, Seq<char>)| file_line(f)));
                assert(camera_files(fv.take(i + 1)) == cf);
            }
        }
        i = i + 1;
    }
    assert(fv.take(fv.len() as int) =~= fv);
    let mut parts: Vec<String> = Vec::new();
    if frame_lines.len() > 0 {
        let body = crate::text::join_strings(&frame_lines, "\n");
        parts.push(str_concat("Camera frames:\n", body.as_str()));
    }
    let ghost mid = strings_view(parts@);
    if file_lines.len() > 0 {
        let body = crate::text::join_strings(&file_lines, "\n");
        parts.push(str_concat("Other files (concise summary):\n", body.as_str()));
    }
    assert(strings_view(parts@) =~= summary_parts(fv));
    let joined = crate::text::join_strings(&parts, "\n");
    let head = str_concat(SUMMARY_REQUEST_HEAD, joined.as_str());
    str_concat(head.as_str(), SUMMARY_REQUEST_TAIL)
}

/// The camera frames given, if any.
pub open spec fn frames_view(frames: Option<&[String]>) -> Seq<Seq<char>> {
    match frames {
        Some(f) => strings_view(f@),
        None => Seq::empty(),
    }
}

/// The blocks put into the current turn: the attachments, then the camera
/// frames, then a request for file summaries when some file lacks one.
pub open spec fn injected_blocks(
    bins: Seq<(Seq<char>, Seq<char>)>,
    frames: Seq<Seq<char>>,
    files: Seq<(Seq<char>, Seq<char>)>,
) -> Seq<BlockView> {
    attachment_blocks(bins) + frames.map_values(|f: Seq<char>| frame_block(f)) + (if files.len() > 0 {
        seq![BlockView::Text(summary_request_text(files))]
    } else {
        Seq::empty()
    })
}

/// A text block that stands for an attached file.
pub open spec fn is_file_placeholder(b: BlockView) -> bool {
    match b {
        BlockView::Text(t) => crate::text::starts_with(t, "[Attached file:"@),
        _ => false,
    }
}

pub open spec fn without_placeholders(bs: Seq<BlockView>) -> Seq<BlockView>
    decreases bs.len(),
{
    if bs.len() == 0 {
        Seq::empty()
    } else if is_file_placeholder(bs.last()) {
        without_placeholders(bs.drop_last())
    } else {
        without_placeholders(bs.drop_last()).push(bs.last())
    }
}

/// The index of the first block from `i` on that is not a tool result.
pub open spec fn first_non_result_from(bs: Seq<BlockView>, i: int) -> int
    decreases bs.len() - i,
{
    if i >= bs.len() || i < 0 {
        bs.len() as int
    } else if bs[i] is ToolResult {
        first_non_result_from(bs, i + 1)
    } else {
        i
    }
}

/// The message with `inject` placed after its leading tool results; when
/// `strip`, the placeholders of attached files go first. A text message
/// becomes `inject` followed by its text.
pub open spec fn with_injected(m: MessageView, inject: Seq<BlockView>, strip: bool) -> MessageView {
    MessageView {
        role: m.role,
        content: ContentView::Blocks(
            match m.content {
                ContentView::Blocks(bs) => {
                    let kept = if strip {
                        without_placeholders(bs)
                    } else {
                        bs
                    };
                    let p = first_non_result_from(kept, 0);
                    kept.take(p) + inject + kept.skip(p)
                },
                ContentView::Text(t) => inject.push(BlockView::Text(t)),
            },
        ),
    }
}

proof fn lemma_first_non_result_bounds(bs: Seq<BlockView>, i: int)
    requires
        0 <= i <= bs.len(),
    ensures
        i <= first_non_result_from(bs, i) <= bs.len(),
    decreases bs.len() - i,
{
    if i < bs.len() && bs[i] is ToolResult {
        lemma_first_non_result_bounds(bs, i + 1);
    }
}

fn drop_placeholders(bs: Vec<ContentBlock>) -> (r: Vec<ContentBlock>)
    ensures
        blocks_view(r@) == without_placeholders(blocks_view(bs@)),
{
    let ghost bv = blocks_view(bs@);
    let mut kept: Vec<ContentBlock> = Vec::new();
    let mut rest = bs;
    let ghost mut k: int = 0;
    assert(bv.skip(0) =~= bv);
    assert(blocks_view(kept@) =~= without_placeholders(bv.take(0)));
    let prefix = chars_of("[Attached file:");
    while rest.len() > 0
        invariant
            0 <= k <= bv.len(),
            rest@.len() + k == bv.len(),
            blocks_view(rest@) == bv.skip(k),
            blocks_view(kept@) == without_placeholders(bv.take(k)),
            prefix@ == "[Attached file:"@,
        decreases rest.len(),
    {
        let ghost r0 = rest@;
        assert(blocks_view(r0)[0] == r0[0]@);
        let b = rest.remove(0);
        assert(rest@ =~= r0.subrange(1, r0.len() as int));
        assert(blocks_view(rest@) =~= blocks_view(r0).subrange(1, r0.len() as int));
        assert(bv.skip(k)[0] == b@);
        assert(bv.take(k + 1).drop_last() =~= bv.take(k));
        assert(bv.take(k + 1).last() == b@);
        assert(blocks_view(rest@) =~= bv.skip(k + 1));
        let placeholder = match &b {
            ContentBlock::Text { text } => crate::text::starts_with_chars(&chars_of(text.as_str()), &prefix),
            _ => false,
        };
        if !placeholder {
            let ghost prev_kept = blocks_view(kept@);
            let ghost bw = b@;
            kept.push(b);
            assert(blocks_view(kept@) =~= prev_kept.push(bw));
        }
        proof {
            k = k + 1;
        }
    }
    assert(bv.take(k) =~= bv);
    kept
}

fn is_tool_result(b: &ContentBlock) -> (r: bool)
    ensures
        r == b@ is ToolResult,
{
    match b {
        ContentBlock::ToolResult { .. } => true,
        _ => false,
    }
}

fn insert_after_results(bs: Vec<ContentBlock>, inject: Vec<ContentBlock>) -> (r: Vec<ContentBlock>)
    ensures
        blocks_view(r@) == ({
            let p = first_non_result_from(blocks_view(bs@), 0);
            blocks_view(bs@).take(p) + blocks_view(inject@) + blocks_view(bs@).skip(p)
        }),
{
    let ghost bv = blocks_view(bs@);
    let ghost iv = blocks_view(inject@);
    let mut p: usize = 0;
    while p < bs.len() && is_tool_result(&bs[p])
        invariant
            p <= bs@.len(),
            bv == blocks_view(bs@),
            first_non_result_from(bv, 0) == first_non_result_from(bv, p as int),
        decreases bs.len() - p,
    {
        assert(bv[p as int] == bs@[p as int]@);
        p = p + 1;
    }
    proof {
        if p < bs@.len() {
            assert(bv[p as int] == bs@[p as int]@);
        }
    }
    let mut out: Vec<ContentBlock> = Vec::new();
    let mut rest = bs;
    let mut i: usize = 0;
    assert(bv.skip(0) =~= bv);
    while i < p
        invariant
            i <= p <= bv.len(),
            rest@.len() + i == bv.len(),
            blocks_view(rest@) == bv.skip(i as int),
            blocks_view(out@) == bv.take(i as int),
        decreases p - i,
    {
        let ghost r0 = rest@;
        assert(blocks_view(r0)[0] == r0[0]@);
        let b = rest.remove(0);
        assert(rest@ =~= r0.subrange(1, r0.len() as int));
        assert(blocks_view(rest@) =~= blocks_view(r0).subrange(1, r0.len() as int));
        let ghost prev = blocks_view(out@);
        let ghost bw = b@;
        out.push(b);
        assert(blocks_view(out@) =~= prev.push(bw));
        assert(bv.take(i + 1) =~= bv.take(i as int).push(bv[i as int]));
        assert(bv.skip(i as int)[0] == bv[i as int]);
        assert(blocks_view(rest@) =~= bv.skip(i + 1));
        i = i + 1;
    }
    let mut inject = inject;
    let ghost o1 = blocks_view(out@);
    out.append(&mut inject);
    assert(blocks_view(out@) =~= o1 + iv);
    let ghost o2 = blocks_view(out@);
    let ghost rv = blocks_view(rest@);
    out.append(&mut rest);
    assert(blocks_view(out@) =~= o2 + rv);
    out
}

/// Puts the camera frames and attachments of the current turn into the last
/// user message, and asks for summaries of the attached files that have none
/// (see [`injected_blocks`]). Binary content goes only into the current
/// turn. The blocks go after the message's leading tool results, which must
/// come first; when there are attachments, the text placeholders that stood
/// for the files are taken out, as the blocks themselves now stand for them.
/// Nothing changes when there is no user message or nothing to put in.
pub fn inject_attachments_for_current_turn(
    messages: &mut Vec<ChatMessage>,
    camera_frames: Option<&[String]>,
    attachment_binaries: &[(String, String)],
    files_needing_summary: &[(String, String)],
)
    ensures
        ({
            let ov = messages_view(old(messages)@);
            let inject = injected_blocks(
                pairs_view(attachment_binaries@),
                frames_view(camera_frames),
                pairs_view(files_needing_summary@),
            );
            messages_view(final(messages)@) == match last_user(ov) {
                Some(i) => if inject.len() == 0 {
                    ov
                } else {
                    ov.update(i, with_injected(ov[i], inject, attachment_binaries@.len() > 0))
                },
                None => ov,
            }
        }),
{
    let ghost bins = pairs_view(attachment_binaries@);
    let mut inject: Vec<ContentBlock> = Vec::new();
    let mut k: usize = 0;
    assert(attachment_blocks(bins.take(0)) =~= Seq::<BlockView>::empty());
    while k < attachment_binaries.len()
        invariant
            k <= attachment_binaries@.len(),
            bins == pairs_view(attachment_binaries@),
            blocks_view(inject@) == attachment_blocks(bins.take(k as int)),
        decreases attachment_binaries.len() - k,
    {
        assert(bins.take(k + 1).drop_last() =~= bins.take(k as int));
        assert(bins.take(k + 1).last() == bins[k as int]);
        match attachment_to_block(&attachment_binaries[k].0, &attachment_binaries[k].1) {
            Some(b) => {
                let ghost prev = blocks_view(inject@);
                let ghost bw = b@;
                inject.push(b);
                assert(blocks_view(inject@) =~= prev.push(bw));
            },
            None => {},
        }
        k = k + 1;
    }
    assert(bins.take(bins.len() as int) =~= bins);
    let ghost after_bins = blocks_view(inject@);
    let ghost fr = frames_view(camera_frames);
    match camera_frames {
        Some(frames) => {
            let mut f: usize = 0;
            while f < frames.len()
                invariant
                    f <= frames@.len(),
                    fr == strings_view(frames@),
                    blocks_view(inject@) == after_bins + fr.take(f as int).map_values(|x: Seq<char>| frame_block(x)),
                decreases frames.len() - f,
            {
                let ghost prev = blocks_view(inject@);
                let b = ContentBlock::Image {
                    source: ImageSource {
                        source_type: to_owned_string("base64"),
                        media_type: to_owned_string("image/jpeg"),
                        data: copy_string(&frames[f]),
                    },
                };
                let ghost bw = b@;
                inject.push(b);
                assert(blocks_view(inject@) =~= prev.push(bw));
                assert(fr.take(f + 1) =~= fr.take(f as int).push(fr[f as int]));
                f = f + 1;
            }
            assert(fr.take(fr.len() as int) =~= fr);
        },
        None => {
            assert(fr.map_values(|x: Seq<char>| frame_block(x)) =~= Seq::<BlockView>::empty());
            assert(blocks_view(inject@) =~= after_bins + fr.map_values(|x: Seq<char>| frame_block(x)));
        },
    }
    let ghost before_request = blocks_view(inject@);
    if files_needing_summary.len() > 0 {
        let text = summary_request(files_needing_summary);
        let b = ContentBlock::Text { text };
        let ghost bw = b@;
        inject.push(b);
        assert(blocks_view(inject@) =~= before_request.push(bw));
    }
    assert(blocks_view(inject@) =~= injected_blocks(bins, fr, pairs_view(files_needing_summary@)));
    if inject.len() == 0 {
        return;
    }
    let i = match find_last_user(messages) {
        Some(i) => i,
        None => {
            return;
        },
    };
    let ghost before = messages@;
    let ghost iv = blocks_view(inject@);
    let strip = attachment_binaries.len() > 0;
    let ChatMessage { role, content } = messages.remove(i);
    let new_content = match content {
        MessageContent::ContentBlocks(bs) => {
            let kept = if strip {
                drop_placeholders(bs)
            } else {
                bs
            };
            MessageContent::ContentBlocks(insert_after_results(kept, inject))
        },
        MessageContent::Text(text) => {
            let mut v = inject;
            v.push(ContentBlock::Text { text });
            assert(blocks_view(v@) =~= iv.push(v@.last()@));
            MessageContent::ContentBlocks(v)
        },
    };
    let m = ChatMessage { role, content: new_content };
    assert(m@ == with_injected(before[i as int]@, iv, strip));
    messages.insert(i, m);
    proof {
        lemma_replace_message(before, i as int, m);
        assert(messages_view(before)[i as int] == before[i as int]@);
    }
}

} // verus!
