//! Recovery of interrupted conversations: the stored messages of a
//! conversation, which of them a retry removes, and whether a user message
//! still awaits a reply.
use vstd::prelude::*;
use crate::graph::GraphObject;
use crate::subconscious::{SubconsciousEntity, format_context, context_spec};
use crate::text::{str_eq, chars_of};

verus! {

/// Context injected only on the first model call of a new user turn.
#[derive(Debug)]
pub struct FirstTurnContext {
    pub camera_images: Option<Vec<String>>,
    pub attachment_binaries: Vec<(String, String)>,
    pub files_needing_summary: Vec<(String, String)>,
    pub subconscious_context: Option<String>,
    pub blackboard_context: Option<String>,
}

/// A conversation message as the graph stores it.
#[derive(Debug)]
pub struct StoredMessage {
    pub iri: String,
    /// The conversation it is `partOfConversation`.
    pub conversation: String,
    /// Its `role` literal.
    pub role: Option<String>,
    /// Its `sentAt` value.
    pub sent_at: Option<GraphObject>,
    /// The `rdf:type` of each of its content blocks.
    pub block_types: Vec<String>,
}

/// The current (not retracted) conversation messages of the graph.
#[derive(Debug)]
pub struct MessageStore {
    pub messages: Vec<StoredMessage>,
}

/// What `chrono::DateTime::parse_from_rfc3339(text)` followed by
/// `timestamp_millis` yields (`None` when the text is not RFC 3339).
pub uninterp spec fn rfc3339_millis(text: Seq<char>) -> Option<i64>;

/// `chrono::DateTime::parse_from_rfc3339(text).ok().map(|dt| dt.timestamp_millis())`:
/// the instant of an RFC 3339 timestamp in milliseconds since the Unix epoch.
/// The parse is stated by name only.
#[verifier::external_body]
pub(crate) fn parse_rfc3339_millis(text: &str) -> (r: Option<i64>)
    ensures
        r == rfc3339_millis(text@),
{
    chrono::DateTime::parse_from_rfc3339(text).ok().map(|dt| dt.timestamp_millis())
}

/// `parse_timestamp`: the instant of a `DateTime` object; none for others.
pub open spec fn timestamp_of(o: Option<GraphObject>) -> Option<i64> {
    match o {
        Some(GraphObject::DateTime(t)) => rfc3339_millis(t@),
        _ => None,
    }
}

pub fn parse_timestamp(obj: &GraphObject) -> (r: Option<i64>)
    ensures
        r == timestamp_of(Some(*obj)),
{
    match obj {
        GraphObject::DateTime(t) => parse_rfc3339_millis(t.as_str()),
        _ => None,
    }
}

fn sent_at_millis(m: &StoredMessage) -> (r: Option<i64>)
    ensures
        r == timestamp_of(m.sent_at),
{
    match &m.sent_at {
        Some(o) => parse_timestamp(o),
        None => None,
    }
}

/// Whether `delete_messages_from_timestamp` removes the message: one of the
/// conversation's, sent after `from` (or at `from`, unless `exclude_exact`).
pub open spec fn deleted_by(m: StoredMessage, conversation: Seq<char>, from: i64, exclude_exact: bool) -> bool {
    &&& m.conversation@ == conversation
    &&& match timestamp_of(m.sent_at) {
        Some(t) => if exclude_exact {
            t > from
        } else {
            t >= from
        },
        None => false,
    }
}

/// The messages `delete_messages_from_timestamp` keeps, in order.
pub open spec fn kept_messages(s: Seq<StoredMessage>, conversation: Seq<char>, from: i64, exclude_exact: bool) -> Seq<StoredMessage>
    decreases s.len(),
{
    if s.len() == 0 {
        Seq::empty()
    } else if deleted_by(s.last(), conversation, from, exclude_exact) {
        kept_messages(s.drop_last(), conversation, from, exclude_exact)
    } else {
        kept_messages(s.drop_last(), conversation, from, exclude_exact).push(s.last())
    }
}

/// Retracts the conversation's messages sent from `from_timestamp` on
/// (strictly after it with `exclude_exact`); messages without a readable
/// `sentAt` and other conversations' messages stay.
pub fn delete_messages_from_timestamp(
    store: &mut MessageStore,
    conversation_iri: &str,
    from_timestamp: i64,
    exclude_exact: bool,
) -> (r: Result<(), String>)
    ensures
        r is Ok,
        final(store).messages@ == kept_messages(old(store).messages@, conversation_iri@, from_timestamp, exclude_exact),
{
    let ghost orig = store.messages@;
    let mut pending: Vec<StoredMessage> = Vec::new();
    std::mem::swap(&mut pending, &mut store.messages);
    let mut kept: Vec<StoredMessage> = Vec::new();
    let ghost mut k: int = 0;
    assert(orig.skip(0) =~= orig);
    while pending.len() > 0
        invariant
            0 <= k <= orig.len(),
            pending@ == orig.skip(k),
            kept@ == kept_messages(orig.take(k), conversation_iri@, from_timestamp, exclude_exact),
        decreases pending.len(),
    {
        let m = pending.remove(0);
        assert(orig.take(k + 1).drop_last() =~= orig.take(k));
        assert(orig.take(k + 1).last() == m);
        assert(orig.skip(k + 1) =~= orig.skip(k).drop_first());
        let same_conversation = str_eq(m.conversation.as_str(), conversation_iri);
        let ts = sent_at_millis(&m);
        let delete = same_conversation && match ts {
            Some(t) => if exclude_exact {
                t > from_timestamp
            } else {
                t >= from_timestamp
            },
            None => false,
        };
        if !delete {
            kept.push(m);
        }
        proof {
            k = k + 1;
        }
    }
    assert(orig.take(k) =~= orig);
    store.messages = kept;
    Ok(())
}

/// Whether a message is a user message with a block other than a tool
/// result (tool results also carry the user role).
pub open spec fn is_pending_user_message(m: StoredMessage) -> bool {
    &&& m.role matches Some(r) && r@ == "user"@
    &&& exists|i: int| 0 <= i < m.block_types@.len() && (#[trigger] m.block_types@[i])@ != "anthropic:ToolResultBlock"@
}

/// The newest message of the conversation among `s`: the first of those
/// with the latest readable `sentAt`.
pub open spec fn newest_index(s: Seq<StoredMessage>, conversation: Seq<char>) -> Option<int>
    decreases s.len(),
{
    if s.len() == 0 {
        None
    } else {
        let prev = newest_index(s.drop_last(), conversation);
        let m = s.last();
        if m.conversation@ == conversation && timestamp_of(m.sent_at) is Some {
            match prev {
                Some(p) => if timestamp_of(m.sent_at)->0 > timestamp_of(s[p].sent_at)->0 {
                    Some(s.len() - 1)
                } else {
                    Some(p)
                },
                None => Some(s.len() - 1),
            }
        } else {
            prev
        }
    }
}

pub proof fn lemma_newest_index_bounds(s: Seq<StoredMessage>, conversation: Seq<char>)
    ensures
        newest_index(s, conversation) matches Some(i) ==> 0 <= i < s.len() && s[i].conversation@
            == conversation && timestamp_of(s[i].sent_at) is Some,
    decreases s.len(),
{
    if s.len() > 0 {
        lemma_newest_index_bounds(s.drop_last(), conversation);
    }
}

/// Returns true if the newest message of the conversation is a real
/// user-typed message that has not been answered yet. Tool-result messages
/// also carry the user role but hold only tool results; they are not
/// pending (treating them so would re-run the engine forever).
#[verifier::loop_isolation(false)]
pub fn has_pending_user_message(store: &MessageStore, conversation_iri: &str) -> (r: bool)
    ensures
        r == match newest_index(store.messages@, conversation_iri@) {
            Some(i) => is_pending_user_message(store.messages@[i]),
            None => false,
        },
{
    let msgs = &store.messages;
    let mut best: Option<usize> = None;
    let mut best_ts: i64 = 0;
    let mut i: usize = 0;
    while i < msgs.len()
        invariant
            i <= msgs@.len(),
            best == match newest_index(msgs@.take(i as int), conversation_iri@) {
                Some(b) => Some(b as usize),
                None => None::<usize>,
            },
            newest_index(msgs@.take(i as int), conversation_iri@) matches Some(b) ==> 0 <= b < i
                && timestamp_of(msgs@[b].sent_at) == Some(best_ts),
        decreases msgs.len() - i,
    {
        proof {
            lemma_newest_index_bounds(msgs@.take(i as int), conversation_iri@);
        }
        assert(msgs@.take(i + 1).drop_last() =~= msgs@.take(i as int));
        assert(msgs@.take(i + 1).last() == msgs@[i as int]);
        let m = &msgs[i];
        if str_eq(m.conversation.as_str(), conversation_iri) {
            match sent_at_millis(m) {
                Some(t) => {
                    let better = match best {
                        Some(_) => t > best_ts,
                        None => true,
                    };
                    if better {
                        best = Some(i);
                        best_ts = t;
                    }
                    proof {
                        match newest_index(msgs@.take(i as int), conversation_iri@) {
                            Some(b) => {
                                assert(msgs@.take(i + 1)[b] == msgs@[b]);
                            },
                            None => {},
                        }
                    }
                },
                None => {},
            }
        }
        i = i + 1;
    }
    assert(msgs@.take(msgs@.len() as int) =~= msgs@);
    proof {
        lemma_newest_index_bounds(msgs@, conversation_iri@);
    }
    match best {
        Some(b) => {
            let m = &msgs[b];
            let is_user = match &m.role {
                Some(r) => str_eq(r.as_str(), "user"),
                None => false,
            };
            if !is_user {
                return false;
            }
            let mut j: usize = 0;
            while j < m.block_types.len()
                invariant
                    j <= m.block_types@.len(),
                    m.role matches Some(r) && r@ == "user"@,
                    forall|x: int| 0 <= x < j ==> (#[trigger] m.block_types@[x])@ == "anthropic:ToolResultBlock"@,
                decreases m.block_types.len() - j,
            {
                if !str_eq(m.block_types[j].as_str(), "anthropic:ToolResultBlock") {
                    assert((m.block_types@[j as int])@ != "anthropic:ToolResultBlock"@);
                    return true;
                }
                j = j + 1;
            }
            false
        },
        None => false,
    }
}

/// The first-turn context a recovered conversation starts with: the memory
/// context of the entities recalled for its last user message, when any.
pub fn recovery_first_turn_ctx(entities: &[SubconsciousEntity]) -> (r: Option<FirstTurnContext>)
    ensures
        match r {
            Some(c) => context_spec(entities@) == Some(c.subconscious_context->0@) && c.subconscious_context
                is Some && c.camera_images is None && c.attachment_binaries@.len() == 0
                && c.files_needing_summary@.len() == 0 && c.blackboard_context is None,
            None => context_spec(entities@) is None,
        },
{
    match format_context(entities) {
        Some(formatted) => Some(
            FirstTurnContext {
                camera_images: None,
                attachment_binaries: Vec::new(),
                files_needing_summary: Vec::new(),
                subconscious_context: Some(formatted),
                blackboard_context: None,
            },
        ),
        None => None,
    }
}

} // verus!
