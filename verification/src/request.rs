//! The message list of one call to the model, assembled from the stored
//! history: the attachments and recalled context of a new turn, repaired
//! tool-call pairs, the date and time, the nudge after an empty reply, and
//! the removal of thinking blocks when the provider refused them.
use vstd::prelude::*;
use crate::chat_storage::{AIConversationMessage, stored_blocks_view};
use crate::engine::{
    nudge_message, strip_thinking_blocks, thinking_stripped, EMPTY_REPLY_NUDGE, is_thinking,
    law_stripped_history_has_no_thinking,
};
use crate::message_utils::{
    api_blocks, datetime_block, frames_view, inject_attachments_for_current_turn, inject_datetime_text,
    inject_subconscious_context, injected_blocks, last_user, message_to_api_format, pairs_view, sanitize_tool_pairs,
    sanitized, with_block_appended, with_block_in_front, with_injected,
};
use crate::providers::{BlockView, ChatMessage, ContentView, MessageView, messages_view};
use crate::recovery::FirstTurnContext;
use crate::text::strings_view;

verus! {

/// The stored history in the form sent to a model.
pub open spec fn api_history(h: Seq<AIConversationMessage>) -> Seq<MessageView> {
    h.map_values(
        |m: AIConversationMessage|
            MessageView { role: m.role@, content: ContentView::Blocks(api_blocks(stored_blocks_view(m.content@))) },
    )
}

/// The camera frames of a new turn.
pub open spec fn turn_frames(f: FirstTurnContext) -> Seq<Seq<char>> {
    match f.camera_images {
        Some(v) => strings_view(v@),
        None => Seq::empty(),
    }
}

/// The attachments, camera frames and summary request of a new turn put
/// into its last user message.
pub open spec fn with_turn_inputs(ms: Seq<MessageView>, f: FirstTurnContext) -> Seq<MessageView> {
    let inject = injected_blocks(pairs_view(f.attachment_binaries@), turn_frames(f), pairs_view(f.files_needing_summary@));
    match last_user(ms) {
        Some(i) => if inject.len() == 0 {
            ms
        } else {
            ms.update(i, with_injected(ms[i], inject, f.attachment_binaries@.len() > 0))
        },
        None => ms,
    }
}

/// A text block appended to the last user message.
pub open spec fn with_context(ms: Seq<MessageView>, context: Seq<char>) -> Seq<MessageView> {
    match last_user(ms) {
        Some(i) => ms.update(i, with_block_appended(ms[i], BlockView::Text(context))),
        None => ms,
    }
}

/// The date and time put in front of the last user message.
pub open spec fn with_datetime(ms: Seq<MessageView>, date_time: Seq<char>) -> Seq<MessageView> {
    match last_user(ms) {
        Some(i) => ms.update(i, with_block_in_front(ms[i], datetime_block(date_time))),
        None => ms,
    }
}

/// The messages of one call to the model: the history in the form sent to
/// a model; on the first call of a new turn, its attachments, camera
/// frames and summary request, then its recalled context; tool-call pairs
/// repaired; the date and time; the nudge after an empty reply; and, when
/// the provider refused them, no thinking blocks.
pub open spec fn request_spec(
    history: Seq<AIConversationMessage>,
    first_turn: Option<FirstTurnContext>,
    date_time: Seq<char>,
    nudge: bool,
    strip_thinking: bool,
) -> Seq<MessageView> {
    let base = api_history(history);
    let turned = match first_turn {
        Some(f) => {
            let a = with_turn_inputs(base, f);
            match f.subconscious_context {
                Some(sc) => with_context(a, sc@),
                None => a,
            }
        },
        None => base,
    };
    let dated = with_datetime(sanitized(turned), date_time);
    let nudged = if nudge {
        dated.push(MessageView { role: "user"@, content: ContentView::Text(EMPTY_REPLY_NUDGE@) })
    } else {
        dated
    };
    if strip_thinking {
        thinking_stripped(nudged)
    } else {
        nudged
    }
}

/// The messages of one call to the model (see [`request_spec`]).
pub fn request_messages(
    history: &Vec<AIConversationMessage>,
    first_turn: Option<&FirstTurnContext>,
    date_time: &str,
    nudge: bool,
    strip_thinking: bool,
) -> (r: Vec<ChatMessage>)
    ensures
        messages_view(r@) == request_spec(
            history@,
            match first_turn {
                Some(f) => Some(*f),
                None => None,
            },
            date_time@,
            nudge,
            strip_thinking,
        ),
{
    let mut ms: Vec<ChatMessage> = Vec::new();
    let mut i: usize = 0;
    while i < history.len()
        invariant
            i <= history@.len(),
            messages_view(ms@) == api_history(history@.take(i as int)),
        decreases history.len() - i,
    {
        let m = message_to_api_format(&history[i]);
        let ghost prev = messages_view(ms@);
        ms.push(m);
        assert(messages_view(ms@) =~= prev.push(m@));
        assert(api_history(history@.take(i + 1)) =~= api_history(history@.take(i as int)).push(m@));
        i = i + 1;
    }
    assert(history@.take(history@.len() as int) =~= history@);
    if let Some(f) = first_turn {
        let frames: Option<&[String]> = match &f.camera_images {
            Some(v) => Some(v.as_slice()),
            None => None,
        };
        assert(frames_view(frames) == turn_frames(*f));
        inject_attachments_for_current_turn(
            &mut ms,
            frames,
            f.attachment_binaries.as_slice(),
            f.files_needing_summary.as_slice(),
        );
        if let Some(sc) = &f.subconscious_context {
            inject_subconscious_context(&mut ms, sc.as_str());
        }
    }
    sanitize_tool_pairs(&mut ms);
    inject_datetime_text(&mut ms, date_time);
    if nudge {
        let n = nudge_message();
        let ghost prev = messages_view(ms@);
        ms.push(n);
        assert(messages_view(ms@) =~= prev.push(n@));
    }
    if strip_thinking {
        strip_thinking_blocks(&mut ms);
    }
    ms
}

/// Law: once the provider has refused the thinking blocks, no assistant
/// message of a request holds a thinking or redacted thinking block, nor is
/// sent without blocks, whether or not the nudge is added and whatever the
/// history and the turn bring.
pub proof fn law_stripped_request_has_no_thinking(
    history: Seq<AIConversationMessage>,
    first_turn: Option<FirstTurnContext>,
    date_time: Seq<char>,
    nudge: bool,
)
    ensures
        ({
            let r = request_spec(history, first_turn, date_time, nudge, true);
            forall|i: int|
                0 <= i < r.len() && (#[trigger] r[i]).role == "assistant"@ && r[i].content is Blocks ==> {
                    &&& r[i].content->Blocks_0.len() > 0
                    &&& forall|j: int|
                        0 <= j < r[i].content->Blocks_0.len() ==> !is_thinking(#[trigger] r[i].content->Blocks_0[j])
                }
        }),
{
    let base = api_history(history);
    let turned = match first_turn {
        Some(f) => {
            let a = with_turn_inputs(base, f);
            match f.subconscious_context {
                Some(sc) => with_context(a, sc@),
                None => a,
            }
        },
        None => base,
    };
    let dated = with_datetime(sanitized(turned), date_time);
    let nudged = if nudge {
        dated.push(MessageView { role: "user"@, content: ContentView::Text(EMPTY_REPLY_NUDGE@) })
    } else {
        dated
    };
    law_stripped_history_has_no_thinking(nudged);
}

} // verus!
