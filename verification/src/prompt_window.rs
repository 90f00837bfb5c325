//! Fitting the prompt of a local model into its context window.
use vstd::prelude::*;
use crate::text;

verus! {

/// Context window of the local model, in tokens.
pub const LOCAL_CONTEXT_WINDOW: usize = 65536;

/// Maximum output tokens per turn.
pub const LOCAL_MAX_OUTPUT_TOKENS: usize = 2048;

/// Input budget: the context minus output headroom, expressed in estimated
/// bytes of text (about 3.5 bytes per token).
pub const MAX_PROMPT_CHARS: usize = (LOCAL_CONTEXT_WINDOW - LOCAL_MAX_OUTPUT_TOKENS) * 35 / 10;

/// Total UTF-8 byte length of the message contents.
pub open spec fn total_bytes(ms: Seq<(String, String)>) -> nat
    decreases ms.len(),
{
    if ms.len() == 0 {
        0
    } else {
        text::utf8_len(ms[0].1@) + total_bytes(ms.drop_first())
    }
}

/// The messages after truncation: while the contents exceed the budget and
/// more than two messages remain, the oldest message after the first (the
/// system prompt) is removed.
pub open spec fn truncate_spec(ms: Seq<(String, String)>) -> Seq<(String, String)>
    decreases ms.len(),
{
    if total_bytes(ms) <= MAX_PROMPT_CHARS || ms.len() <= 2 {
        ms
    } else {
        truncate_spec(ms.remove(1))
    }
}

proof fn lemma_total_bytes_take(ms: Seq<(String, String)>, i: int)
    requires
        0 <= i < ms.len(),
    ensures
        total_bytes(ms.take(i + 1)) == total_bytes(ms.take(i)) + text::utf8_len(ms[i].1@),
    decreases i,
{
    if i == 0 {
        assert(ms.take(1).drop_first() =~= Seq::<(String, String)>::empty());
        assert(total_bytes(Seq::<(String, String)>::empty()) == 0);
    } else {
        assert(ms.take(i + 1).drop_first() =~= ms.drop_first().take(i));
        assert(ms.take(i).drop_first() =~= ms.drop_first().take(i - 1));
        lemma_total_bytes_take(ms.drop_first(), i - 1);
    }
}

fn total_message_bytes(ms: &Vec<(String, String)>) -> (n: usize)
    requires
        total_bytes(ms@) <= usize::MAX,
    ensures
        n == total_bytes(ms@),
{
    let mut total: usize = 0;
    let mut i: usize = 0;
    while i < ms.len()
        invariant
            i <= ms.len(),
            total == total_bytes(ms@.take(i as int)),
            total_bytes(ms@) <= usize::MAX,
        decreases ms.len() - i,
    {
        proof {
            lemma_total_bytes_take(ms@, i as int);
            lemma_total_bytes_prefix_le(ms@, i as int + 1);
            text::lemma_utf8_len_is_encoding_len(ms@[i as int].1@);
        }
        let len = ms[i].1.as_str().len();
        total = total + len;
        i = i + 1;
    }
    assert(ms@.take(i as int) =~= ms@);
    total
}

proof fn lemma_total_bytes_prefix_le(ms: Seq<(String, String)>, i: int)
    requires
        0 <= i <= ms.len(),
    ensures
        total_bytes(ms.take(i)) <= total_bytes(ms),
    decreases ms.len() - i,
{
    if i < ms.len() {
        lemma_total_bytes_take(ms, i);
        lemma_total_bytes_prefix_le(ms, i + 1);
    } else {
        assert(ms.take(i) =~= ms);
    }
}

proof fn lemma_total_bytes_remove(ms: Seq<(String, String)>, k: int)
    requires
        0 <= k < ms.len(),
    ensures
        total_bytes(ms.remove(k)) + text::utf8_len(ms[k].1@) == total_bytes(ms),
    decreases k,
{
    if k == 0 {
        assert(ms.remove(0) =~= ms.drop_first());
    } else {
        assert(ms.remove(k).drop_first() =~= ms.drop_first().remove(k - 1));
        lemma_total_bytes_remove(ms.drop_first(), k - 1);
    }
}

/// Removes the oldest non-system messages until the total estimated prompt
/// size fits the input budget. Keeps the system message (index 0) and the
/// last message (the most recent user turn).
pub fn truncate_messages_if_needed(messages: &mut Vec<(String, String)>)
    requires
        total_bytes(old(messages)@) <= usize::MAX,
    ensures
        final(messages)@ == truncate_spec(old(messages)@),
{
    let total = total_message_bytes(messages);
    if total <= MAX_PROMPT_CHARS {
        return;
    }
    while messages.len() > 2
        invariant
            truncate_spec(old(messages)@) == truncate_spec(messages@),
            total_bytes(messages@) <= usize::MAX,
        ensures
            truncate_spec(old(messages)@) == truncate_spec(messages@),
            messages.len() <= 2 || total_bytes(messages@) <= MAX_PROMPT_CHARS,
        decreases messages.len(),
    {
        let current = total_message_bytes(messages);
        if current <= MAX_PROMPT_CHARS {
            break;
        }
        proof {
            lemma_total_bytes_remove(messages@, 1);
        }
        messages.remove(1);
    }
}

/// Law: truncation keeps the system message and the last message, keeps the
/// order of what remains, removes only a contiguous run of the oldest
/// non-system messages, and leaves the prompt within budget unless only the
/// system message and the last message remain. It removes nothing more than
/// needed: with one message fewer removed the prompt would not fit.
pub proof fn law_truncate_keeps_ends(ms: Seq<(String, String)>)
    requires
        ms.len() >= 1,
    ensures
        ({
            let r = truncate_spec(ms);
            &&& r.len() >= 1
            &&& r[0] == ms[0]
            &&& r.last() == ms.last()
            &&& total_bytes(r) <= MAX_PROMPT_CHARS || r.len() <= 2
            &&& exists|k: int|
                1 <= k <= ms.len() && #[trigger] ms.subrange(k, ms.len() as int) == r.drop_first()
                    && (k > 1 ==> total_bytes(seq![ms[0]] + ms.subrange(k - 1, ms.len() as int))
                    > MAX_PROMPT_CHARS && ms.len() - k + 2 > 2)
        }),
    decreases ms.len(),
{
    let r = truncate_spec(ms);
    if total_bytes(ms) <= MAX_PROMPT_CHARS || ms.len() <= 2 {
        assert(ms.subrange(1, ms.len() as int) =~= r.drop_first());
    } else {
        let m2 = ms.remove(1);
        law_truncate_keeps_ends(m2);
        let k = choose|k: int|
            1 <= k <= m2.len() && #[trigger] m2.subrange(k, m2.len() as int) == r.drop_first() && (k > 1
                ==> total_bytes(seq![m2[0]] + m2.subrange(k - 1, m2.len() as int)) > MAX_PROMPT_CHARS
                && m2.len() - k + 2 > 2);
        assert(m2.subrange(k, m2.len() as int) =~= ms.subrange(k + 1, ms.len() as int));
        assert(m2[0] == ms[0]);
        if k > 1 {
            assert(m2.subrange(k - 1, m2.len() as int) =~= ms.subrange(k, ms.len() as int));
        } else {
            assert(seq![ms[0]] + ms.subrange(1, ms.len() as int) =~= ms);
        }
        assert(ms.subrange(k + 1, ms.len() as int) == r.drop_first());
    }
}

} // verus!
