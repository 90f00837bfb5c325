//! Streaming filter for model output that wraps tool calls in
//! `<tool_call>…</tool_call>` tags.
//!
//! Tokens are fed one at a time; plain text is passed through for display,
//! while tool call blocks are held back. A short lookahead buffer is kept
//! whenever the text might be the start of a tag.
use vstd::prelude::*;
use crate::text;
use crate::text::{
    chars_of, concat_chars, find_chars, push_all, slice_chars, string_of, utf8_len_exceeds,
};
use crate::tag_guard::{safe_cut, safe_cut_chars, showable, safe_ended, lemma_safe_cut, lemma_showable_concat,
    lemma_no_lt_showable, lemma_free_prefix};

verus! {

/// Longest lookahead (in UTF-8 bytes) kept before it is flushed as plain text.
pub const LOOKAHEAD_FLUSH_THRESHOLD: usize = 20;

#[derive(Debug, PartialEq, Eq, Clone, Copy, Structural)]
pub enum StreamState {
    /// Normal text: each token is emitted immediately.
    Text,
    /// Saw `<`: buffering until we know whether this is a `<tool_call>` tag.
    MaybeTool,
    /// Inside `<tool_call>…</tool_call>`: all output is suppressed.
    InToolCall,
}

pub struct StreamProcessor {
    pub state: StreamState,
    /// Buffered text that might start a tag; inside a tool call it accumulates
    /// the block until the closing tag shows up.
    pub lookahead: Vec<char>,
}

pub open spec fn open_tag() -> Seq<char> {
    "<tool_call>"@
}

pub open spec fn close_tag() -> Seq<char> {
    "</tool_call>"@
}

pub open spec fn opt_view(o: Option<String>) -> Option<Seq<char>> {
    match o {
        Some(s) => Some(s@),
        None => None,
    }
}

pub open spec fn combine_spec(a: Option<Seq<char>>, b: Option<Seq<char>>) -> Option<Seq<char>> {
    match (a, b) {
        (Some(x), Some(y)) => Some(x + y),
        (Some(x), None) => Some(x),
        (None, y) => y,
    }
}

pub open spec fn nonempty_prefix(s: Seq<char>, p: int) -> Option<Seq<char>> {
    if p > 0 {
        Some(s.take(p))
    } else {
        None
    }
}

/// Result of examining the lookahead buffer `la`:
/// the new state, the new buffer and the text to emit.
/// Before the tag, the text up to it is shown, less any end of it that
/// could begin the tag; a buffer grown past the threshold is shown likewise,
/// and such an end of it is kept back.
pub open spec fn resolve_spec(la: Seq<char>) -> (StreamState, Seq<char>, Option<Seq<char>>) {
    match text::find(la, open_tag()) {
        Some(p) => (StreamState::InToolCall, Seq::empty(), nonempty_prefix(la, shown_upto(la, p))),
        None => if text::utf8_len(la) > LOOKAHEAD_FLUSH_THRESHOLD {
            let q = shown_upto(la, la.len() as int);
            if q == la.len() {
                (StreamState::Text, Seq::empty(), Some(la))
            } else {
                (StreamState::MaybeTool, la.skip(q), nonempty_prefix(la, q))
            }
        } else {
            (StreamState::MaybeTool, la, None)
        },
    }
}

/// How much of `la[..p]` may be shown: the longest start that does not end
/// with the beginning of the opening tag.
pub open spec fn shown_upto(la: Seq<char>, p: int) -> int {
    safe_cut(la, p, open_tag(), open_tag())
}

/// One step of the filter: state `st` with buffer `la` receives `tok`.
pub open spec fn feed_spec(st: StreamState, la: Seq<char>, tok: Seq<char>) -> (
    StreamState,
    Seq<char>,
    Option<Seq<char>>,
) {
    match st {
        StreamState::Text => match text::find(tok, seq!['<']) {
            Some(p) => {
                let (st2, la2, post) = resolve_spec(la + tok.skip(p));
                (st2, la2, combine_spec(nonempty_prefix(tok, p), post))
            },
            None => (StreamState::Text, la, Some(tok)),
        },
        StreamState::MaybeTool => resolve_spec(la + tok),
        StreamState::InToolCall => {
            let l = la + tok;
            if text::contains(l, close_tag()) {
                (StreamState::Text, Seq::empty(), None)
            } else {
                (StreamState::InToolCall, l, None)
            }
        },
    }
}

pub open spec fn pending_spec(st: StreamState, la: Seq<char>) -> Option<Seq<char>> {
    if st != StreamState::InToolCall && la.len() > 0 {
        Some(la)
    } else {
        None
    }
}

fn combine_text(a: Option<String>, b: Option<String>) -> (r: Option<String>)
    ensures
        opt_view(r) == combine_spec(opt_view(a), opt_view(b)),
{
    match (a, b) {
        (Some(x), Some(y)) => {
            let xs = chars_of(x.as_str());
            let ys = chars_of(y.as_str());
            Some(string_of(&concat_chars(&xs, &ys)))
        },
        (Some(x), None) => Some(x),
        (None, y) => y,
    }
}

fn opt_prefix(s: &Vec<char>, p: usize) -> (r: Option<String>)
    requires
        p <= s.len(),
    ensures
        opt_view(r) == nonempty_prefix(s@, p as int),
{
    if p > 0 {
        Some(string_of(&slice_chars(s, 0, p)))
    } else {
        None
    }
}

impl StreamProcessor {
    pub fn new() -> (r: Self)
        ensures
            r.state == StreamState::Text,
            r.lookahead@ == Seq::<char>::empty(),
    {
        StreamProcessor { state: StreamState::Text, lookahead: Vec::new() }
    }

    /// Examines the lookahead buffer: confirms a `<tool_call>` tag, flushes it
    /// as plain text (false alarm), or keeps buffering.
    pub fn resolve_lookahead(&mut self) -> (r: (Option<String>, bool))
        requires
            old(self).state == StreamState::MaybeTool,
        ensures
            ({
                let (st, la, e) = resolve_spec(old(self).lookahead@);
                final(self).state == st && final(self).lookahead@ == la && opt_view(r.0) == e
            }),
            !r.1,
    {
        let tag = chars_of("<tool_call>");
        if let Some(p) = find_chars(&self.lookahead, &tag) {
            let q = safe_cut_chars(&self.lookahead, p, &tag, &tag);
            proof {
                lemma_safe_cut(self.lookahead@, p as int, tag@, tag@);
            }
            let before = opt_prefix(&self.lookahead, q);
            self.lookahead = Vec::new();
            self.state = StreamState::InToolCall;
            (before, false)
        } else if utf8_len_exceeds(&self.lookahead, LOOKAHEAD_FLUSH_THRESHOLD) {
            let n = self.lookahead.len();
            let q = safe_cut_chars(&self.lookahead, n, &tag, &tag);
            proof {
                lemma_safe_cut(self.lookahead@, n as int, tag@, tag@);
            }
            if q == n {
                let flushed = string_of(&self.lookahead);
                self.lookahead = Vec::new();
                self.state = StreamState::Text;
                (Some(flushed), false)
            } else {
                let before = opt_prefix(&self.lookahead, q);
                self.lookahead = slice_chars(&self.lookahead, q, n);
                assert(self.lookahead@ =~= old(self).lookahead@.skip(q as int));
                (before, false)
            }
        } else {
            (None, false)
        }
    }

    /// Feeds one token. Returns `(text_to_emit, should_stop_inference)`.
    pub fn feed(&mut self, token: &str) -> (r: (Option<String>, bool))
        ensures
            ({
                let (st, la, e) = feed_spec(old(self).state, old(self).lookahead@, token@);
                final(self).state == st && final(self).lookahead@ == la && opt_view(r.0) == e
            }),
            !r.1,
    {
        let tok = chars_of(token);
        let lt = vec!['<'];
        assert(lt@ =~= seq!['<']);
        match self.state {
            StreamState::Text => {
                if let Some(p) = find_chars(&tok, &lt) {
                    let pre = opt_prefix(&tok, p);
                    let rest = slice_chars(&tok, p, tok.len());
                    push_all(&mut self.lookahead, &rest);
                    self.state = StreamState::MaybeTool;
                    let (post, stop) = self.resolve_lookahead();
                    (combine_text(pre, post), stop)
                } else {
                    (Some(string_of(&tok)), false)
                }
            },
            StreamState::MaybeTool => {
                push_all(&mut self.lookahead, &tok);
                self.resolve_lookahead()
            },
            StreamState::InToolCall => {
                push_all(&mut self.lookahead, &tok);
                let close = chars_of("</tool_call>");
                if find_chars(&self.lookahead, &close).is_some() {
                    self.lookahead = Vec::new();
                    self.state = StreamState::Text;
                    (None, false)
                } else {
                    (None, false)
                }
            },
        }
    }

    /// The buffered text that was held back for lookahead but never confirmed
    /// as a tag. Called after the stream ends.
    pub fn flush_pending_text(&self) -> (r: Option<String>)
        ensures
            opt_view(r) == pending_spec(self.state, self.lookahead@),
    {
        if self.state != StreamState::InToolCall && self.lookahead.len() > 0 {
            Some(string_of(&self.lookahead))
        } else {
            None
        }
    }
}

// ---------------------------------------------------------------------------
// Laws
// ---------------------------------------------------------------------------

pub open spec fn stream_wf(st: StreamState, la: Seq<char>) -> bool {
    st == StreamState::Text ==> la.len() == 0
}

pub open spec fn emitted(e: Option<Seq<char>>) -> Seq<char> {
    match e {
        Some(x) => x,
        None => Seq::empty(),
    }
}

proof fn lemma_find_occurs(s: Seq<char>, pat: Seq<char>)
    ensures
        text::find(s, pat) matches Some(i) ==> 0 <= i && text::occurs_at(s, pat, i),
        text::find(s, pat) is None ==> forall|j: int| 0 <= j ==> !text::occurs_at(s, pat, j),
{
    text::lemma_find_from_props(s, pat, 0);
}

/// `emitted` is a start of `l` that ends at or before an opening tag.
pub open spec fn shown_before_tag(emitted: Seq<char>, l: Seq<char>) -> bool {
    exists|k: int|
        0 <= k <= l.len() && emitted.len() <= k && emitted == l.take(emitted.len() as int)
            && #[trigger] text::starts_with(l.skip(k), open_tag())
}

proof fn lemma_resolve_shape(la: Seq<char>)
    ensures
        ({
            let (st, la2, e) = resolve_spec(la);
            &&& stream_wf(st, la2)
            &&& st != StreamState::InToolCall ==> emitted(e) + la2 == la
            &&& st == StreamState::InToolCall ==> shown_before_tag(emitted(e), la)
            &&& st == StreamState::InToolCall ==> la2.len() == 0
            &&& showable(emitted(e), open_tag(), open_tag())
        }),
{
    reveal_strlit("<tool_call>");
    assert(open_tag().len() == 11 && open_tag()[0] == '<');
    lemma_find_occurs(la, open_tag());
    let (st, la2, e) = resolve_spec(la);
    match text::find(la, open_tag()) {
        Some(p) => {
            text::lemma_find_from_props(la, open_tag(), 0);
            assert(la.skip(p).subrange(0, open_tag().len() as int) =~= la.subrange(
                p,
                p + open_tag().len(),
            ));
            assert(text::starts_with(la.skip(p), open_tag()));
            lemma_safe_cut(la, p, open_tag(), open_tag());
            let q = shown_upto(la, p);
            assert(emitted(e) =~= la.take(q));
            assert(emitted(e) == la.take(emitted(e).len() as int));
            lemma_free_prefix(la, q, open_tag(), open_tag());
        },
        None => {
            if text::utf8_len(la) > LOOKAHEAD_FLUSH_THRESHOLD {
                lemma_safe_cut(la, la.len() as int, open_tag(), open_tag());
                let q = shown_upto(la, la.len() as int);
                lemma_free_prefix(la, q, open_tag(), open_tag());
                if q == la.len() {
                    assert(la.take(q) =~= la);
                    assert(emitted(e) + la2 =~= la);
                } else {
                    assert(emitted(e) =~= la.take(q));
                    assert(emitted(e) + la2 =~= la);
                }
            } else {
                assert(emitted(e) + la2 =~= la);
                assert(emitted(e) =~= Seq::<char>::empty());
            }
        },
    }
    if emitted(e).len() == 0 {
        lemma_no_lt_showable(emitted(e), open_tag(), open_tag());
    }
}

/// Before the first `<` there is none.
proof fn lemma_lt_first(l: Seq<char>, p: int)
    requires
        text::find(l, seq!['<']) == Some(p),
    ensures
        0 <= p < l.len(),
        forall|i: int| 0 <= i < p ==> l[i] != '<',
{
    text::lemma_find_from_props(l, seq!['<'], 0);
    assert forall|i: int| 0 <= i < p implies l[i] != '<' by {
        if l[i] == '<' {
            assert(l.subrange(i, i + 1) =~= seq!['<']);
            assert(text::occurs_at(l, seq!['<'], i));
        }
    }
}

/// A token without `<` holds none.
proof fn lemma_no_lt_of_find(t: Seq<char>)
    requires
        text::find(t, seq!['<']) is None,
    ensures
        forall|i: int| 0 <= i < t.len() ==> t[i] != '<',
{
    text::lemma_find_from_props(t, seq!['<'], 0);
    assert forall|i: int| 0 <= i < t.len() implies t[i] != '<' by {
        if t[i] == '<' {
            assert(t.subrange(i, i + 1) =~= seq!['<']);
            assert(text::occurs_at(t, seq!['<'], i));
        }
    }
}

/// Law: one step of the filter, from a state that is not inside a tool call,
/// either passes text through without losing or reordering anything (the
/// emitted text followed by the new buffer is the old buffer followed by the
/// token), or it enters a tool call, in which case what it emitted is a
/// start of the text before the `<tool_call>` tag. Inside a tool call
/// nothing is emitted. The buffer stays empty while text passes through.
pub proof fn law_feed_conserves_text(st: StreamState, la: Seq<char>, tok: Seq<char>)
    requires
        stream_wf(st, la),
    ensures
        ({
            let (st2, la2, e) = feed_spec(st, la, tok);
            &&& stream_wf(st2, la2)
            &&& st == StreamState::InToolCall ==> e is None
            &&& st != StreamState::InToolCall && st2 != StreamState::InToolCall ==> emitted(e) + la2 == la + tok
            &&& st != StreamState::InToolCall && st2 == StreamState::InToolCall ==> shown_before_tag(
                emitted(e),
                la + tok,
            )
        }),
{
    let (st2, la2, e) = feed_spec(st, la, tok);
    match st {
        StreamState::Text => {
            lemma_find_occurs(tok, seq!['<']);
            assert(la + tok =~= tok);
            match text::find(tok, seq!['<']) {
                Some(p) => {
                    let rest = la + tok.skip(p);
                    assert(rest =~= tok.skip(p));
                    lemma_resolve_shape(rest);
                    let (s3, la3, post) = resolve_spec(rest);
                    assert(emitted(e) =~= tok.take(p) + emitted(post));
                    if s3 != StreamState::InToolCall {
                        assert(tok.take(p) + rest =~= tok);
                        assert(emitted(e) + la3 =~= tok.take(p) + (emitted(post) + la3));
                    } else {
                        let k = choose|k: int|
                            0 <= k <= rest.len() && emitted(post).len() <= k && emitted(post) == rest.take(
                                emitted(post).len() as int,
                            ) && #[trigger] text::starts_with(rest.skip(k), open_tag());
                        assert(tok.take(p) + rest.take(emitted(post).len() as int) =~= tok.take(
                            p + emitted(post).len(),
                        ));
                        assert(rest.skip(k) =~= tok.skip(p + k));
                        assert(text::starts_with((la + tok).skip(p + k), open_tag()));
                        assert(emitted(e) == (la + tok).take(emitted(e).len() as int));
                    }
                },
                None => {
                    assert(emitted(e) + la2 =~= la + tok);
                },
            }
        },
        StreamState::MaybeTool => {
            lemma_resolve_shape(la + tok);
        },
        StreamState::InToolCall => {},
    }
}

/// Whatever one step emits holds no `<tool_call>` and does not end with the
/// start of one.
#[verifier::spinoff_prover]
proof fn lemma_feed_showable(st: StreamState, la: Seq<char>, tok: Seq<char>)
    ensures
        showable(emitted(feed_spec(st, la, tok).2), open_tag(), open_tag()),
{
    reveal_strlit("<tool_call>");
    assert(open_tag()[0] == '<');
    let e = feed_spec(st, la, tok).2;
    match st {
        StreamState::Text => {
            match text::find(tok, seq!['<']) {
                Some(p) => {
                    lemma_lt_first(tok, p);
                    lemma_resolve_shape(la + tok.skip(p));
                    lemma_no_lt_showable(tok.take(p), open_tag(), open_tag());
                    let post = resolve_spec(la + tok.skip(p)).2;
                    lemma_showable_concat(tok.take(p), emitted(post), open_tag(), open_tag());
                    assert(emitted(e) =~= tok.take(p) + emitted(post));
                },
                None => {
                    lemma_no_lt_of_find(tok);
                    lemma_no_lt_showable(tok, open_tag(), open_tag());
                },
            }
        },
        StreamState::MaybeTool => {
            lemma_resolve_shape(la + tok);
        },
        StreamState::InToolCall => {},
    }
    if emitted(e).len() == 0 {
        lemma_no_lt_showable(emitted(e), open_tag(), open_tag());
    }
}

/// The filter run over a sequence of tokens from state `st` with buffer `la`:
/// the final state, the final buffer and everything emitted, in order.
pub open spec fn run_spec(st: StreamState, la: Seq<char>, toks: Seq<Seq<char>>) -> (
    StreamState,
    Seq<char>,
    Seq<char>,
)
    decreases toks.len(),
{
    if toks.len() == 0 {
        (st, la, Seq::empty())
    } else {
        let (st1, la1, e1) = feed_spec(st, la, toks[0]);
        let (st2, la2, out) = run_spec(st1, la1, toks.drop_first());
        (st2, la2, emitted(e1) + out)
    }
}

proof fn lemma_run_showable(st: StreamState, la: Seq<char>, toks: Seq<Seq<char>>)
    ensures
        showable(run_spec(st, la, toks).2, open_tag(), open_tag()),
    decreases toks.len(),
{
    reveal_strlit("<tool_call>");
    if toks.len() == 0 {
        lemma_no_lt_showable(Seq::<char>::empty(), open_tag(), open_tag());
    } else {
        let (st1, la1, e1) = feed_spec(st, la, toks[0]);
        lemma_feed_showable(st, la, toks[0]);
        lemma_run_showable(st1, la1, toks.drop_first());
        lemma_showable_concat(emitted(e1), run_spec(st1, la1, toks.drop_first()).2, open_tag(), open_tag());
    }
}

/// What resolving keeps back, outside a tool call, holds no `<tool_call>`.
proof fn lemma_resolve_free(la: Seq<char>)
    ensures
        ({
            let (st2, la2, e) = resolve_spec(la);
            st2 != StreamState::InToolCall ==> !text::contains(la2, open_tag())
        }),
{
    reveal_strlit("<tool_call>");
    lemma_find_occurs(la, open_tag());
    lemma_find_occurs(Seq::<char>::empty(), open_tag());
    let (st2, la2, e) = resolve_spec(la);
    if text::find(la, open_tag()) is None && text::utf8_len(la) > LOOKAHEAD_FLUSH_THRESHOLD {
        let q = shown_upto(la, la.len() as int);
        lemma_safe_cut(la, la.len() as int, open_tag(), open_tag());
        if q != la.len() {
            let s2 = la.skip(q);
            lemma_find_occurs(s2, open_tag());
            if let Some(j) = text::find(s2, open_tag()) {
                assert(la.subrange(q + j, q + j + open_tag().len()) =~= s2.subrange(j, j + open_tag().len()));
                assert(text::occurs_at(la, open_tag(), q + j));
            }
        }
    }
}

/// What the filter keeps back, outside a tool call, holds no `<tool_call>`.
proof fn lemma_feed_keeps_free(st: StreamState, la: Seq<char>, tok: Seq<char>)
    requires
        st != StreamState::InToolCall ==> !text::contains(la, open_tag()),
    ensures
        ({
            let (st2, la2, e) = feed_spec(st, la, tok);
            st2 != StreamState::InToolCall ==> !text::contains(la2, open_tag())
        }),
{
    reveal_strlit("<tool_call>");
    lemma_find_occurs(Seq::<char>::empty(), open_tag());
    match st {
        StreamState::Text => {
            if let Some(p) = text::find(tok, seq!['<']) {
                lemma_resolve_free(la + tok.skip(p));
            }
        },
        StreamState::MaybeTool => {
            lemma_resolve_free(la + tok);
        },
        StreamState::InToolCall => {},
    }
}

proof fn lemma_run_keeps_free(st: StreamState, la: Seq<char>, toks: Seq<Seq<char>>)
    requires
        st != StreamState::InToolCall ==> !text::contains(la, open_tag()),
    ensures
        ({
            let (st2, la2, out) = run_spec(st, la, toks);
            st2 != StreamState::InToolCall ==> !text::contains(la2, open_tag())
        }),
    decreases toks.len(),
{
    if toks.len() > 0 {
        let (st1, la1, e1) = feed_spec(st, la, toks[0]);
        lemma_feed_keeps_free(st, la, toks[0]);
        lemma_run_keeps_free(st1, la1, toks.drop_first());
    }
}

/// Law: tool-call markup is never shown. Whatever tokens a fresh filter is
/// fed, in whatever pieces, the text it emits, taken together, holds no
/// `<tool_call>`, nor does it end with the start of one, so no later text
/// can complete the tag across it. Nor does the tag appear once the text
/// still held back, which `flush_pending_text` returns at the end of the
/// stream, is added.
pub proof fn law_markup_never_emitted(toks: Seq<Seq<char>>)
    ensures
        ({
            let (st, la, out) = run_spec(StreamState::Text, Seq::empty(), toks);
            &&& !text::contains(out, open_tag())
            &&& safe_ended(out, open_tag(), open_tag())
            &&& !text::contains(out + emitted(pending_spec(st, la)), open_tag())
        }),
{
    reveal_strlit("<tool_call>");
    lemma_run_showable(StreamState::Text, Seq::empty(), toks);
    lemma_find_occurs(Seq::<char>::empty(), open_tag());
    lemma_run_keeps_free(StreamState::Text, Seq::empty(), toks);
    let (st, la, out) = run_spec(StreamState::Text, Seq::empty(), toks);
    let pend = emitted(pending_spec(st, la));
    assert(!text::contains(pend, open_tag()));
    crate::tag_guard::lemma_concat_free(out, pend, open_tag(), open_tag(), open_tag());
}

} // verus!
