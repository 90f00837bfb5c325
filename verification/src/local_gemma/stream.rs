//! Streaming filter for model output in the Gemma native tool-call format.
//!
//! Tokens are fed one at a time; plain text is passed through for display,
//! while `<|tool_call>…<tool_call|>` (and `<tool_call>…</tool_call>`) blocks
//! are held back. A short lookahead buffer is kept whenever the text might be
//! the start of such a tag.
use vstd::prelude::*;
use crate::text;
use crate::text::{
    chars_of, concat_chars, find_chars, push_all, slice_chars, starts_with_chars, string_of,
    utf8_len_exceeds,
};
use crate::tag_guard::{safe_cut, safe_cut_chars, showable, lemma_safe_cut, lemma_showable_concat,
    lemma_no_lt_showable, lemma_free_prefix};

verus! {

/// Longest lookahead (in UTF-8 bytes) kept before it is flushed as plain text.
pub const LOOKAHEAD_FLUSH_THRESHOLD: usize = 20;

#[derive(Debug, PartialEq, Eq, Clone, Copy, Structural)]
pub enum StreamState {
    /// First tokens: buffer until we can confirm or deny the `<|tool_call>` prefix.
    InitialLookahead,
    /// Normal text: each token is emitted immediately.
    Text,
    /// Saw `<`: buffering until we know whether this is a tool call tag.
    MaybeTool,
    /// Inside a tool call block: all output is suppressed.
    InToolCall,
}

pub struct StreamProcessor {
    pub state: StreamState,
    /// Buffered text that might start a tag; inside a tool call it accumulates
    /// the block until its closing tag shows up.
    pub lookahead: Vec<char>,
}

pub open spec fn native_open() -> Seq<char> {
    "<|tool_call>"@
}

pub open spec fn xml_open() -> Seq<char> {
    "<tool_call>"@
}

pub open spec fn native_close() -> Seq<char> {
    "<tool_call|>"@
}

pub open spec fn xml_close() -> Seq<char> {
    "</tool_call>"@
}

/// The view of an optional string.
pub open spec fn opt_view(o: Option<String>) -> Option<Seq<char>> {
    match o {
        Some(s) => Some(s@),
        None => None,
    }
}

/// Concatenation of two optional pieces of text (`None` is "nothing").
pub open spec fn combine_spec(a: Option<Seq<char>>, b: Option<Seq<char>>) -> Option<Seq<char>> {
    match (a, b) {
        (Some(x), Some(y)) => Some(x + y),
        (Some(x), None) => Some(x),
        (None, y) => y,
    }
}

/// `s[..p]` when it is non-empty.
pub open spec fn nonempty_prefix(s: Seq<char>, p: int) -> Option<Seq<char>> {
    if p > 0 {
        Some(s.take(p))
    } else {
        None
    }
}

/// Where the first opening tag of either kind starts in `la`.
pub open spec fn first_tag(la: Seq<char>) -> Option<int> {
    match (text::find(la, native_open()), text::find(la, xml_open())) {
        (Some(p), Some(q)) => Some(if p <= q { p } else { q }),
        (Some(p), None) => Some(p),
        (None, Some(q)) => Some(q),
        (None, None) => None,
    }
}

/// How much of `la[..p]` may be shown: the longest start that does not end
/// with the beginning of an opening tag.
pub open spec fn shown_upto(la: Seq<char>, p: int) -> int {
    safe_cut(la, p, native_open(), xml_open())
}

/// Result of examining the lookahead buffer `la`:
/// the new state, the new buffer and the text to emit. Before an opening
/// tag, the text up to the tag is shown, less any end of it that could
/// begin a tag; a buffer grown past the threshold is shown likewise, and
/// such an end of it is kept back.
pub open spec fn resolve_spec(la: Seq<char>) -> (StreamState, Seq<char>, Option<Seq<char>>) {
    match first_tag(la) {
        Some(p) => (StreamState::InToolCall, Seq::empty(), nonempty_prefix(la, shown_upto(la, p))),
        None => if text::utf8_len(la) > LOOKAHEAD_FLUSH_THRESHOLD {
            let q = shown_upto(la, la.len() as int);
            if q == la.len() {
                (StreamState::Text, Seq::empty(), Some(la))
            } else {
                (StreamState::MaybeTool, la.skip(q), nonempty_prefix(la, q))
            }
        } else {
            (StreamState::MaybeTool, la, None)
        },
    }
}

/// Resolving after the text before a `<` at index `p` of `s` is split off.
pub open spec fn split_at_lt_spec(before: Option<Seq<char>>, rest: Seq<char>) -> (
    StreamState,
    Seq<char>,
    Option<Seq<char>>,
) {
    let (st, la, post) = resolve_spec(rest);
    (st, la, combine_spec(before, post))
}

/// One step of the filter: state `st` with buffer `la` receives `tok`.
/// Yields the new state, the new buffer and the text to emit.
pub open spec fn feed_spec(st: StreamState, la: Seq<char>, tok: Seq<char>) -> (
    StreamState,
    Seq<char>,
    Option<Seq<char>>,
) {
    match st {
        StreamState::InitialLookahead => {
            let l = la + tok;
            if text::starts_with(l, native_open()) {
                (StreamState::InToolCall, Seq::empty(), None)
            } else if !text::starts_with(native_open(), l) {
                match text::find(l, seq!['<']) {
                    Some(p) => split_at_lt_spec(nonempty_prefix(l, p), l.skip(p)),
                    None => (StreamState::Text, Seq::empty(), if l.len() == 0 { None } else { Some(l) }),
                }
            } else {
                (StreamState::InitialLookahead, l, None)
            }
        },
        StreamState::Text => match text::find(tok, seq!['<']) {
            Some(p) => split_at_lt_spec(nonempty_prefix(tok, p), la + tok.skip(p)),
            None => (StreamState::Text, la, Some(tok)),
        },
        StreamState::MaybeTool => resolve_spec(la + tok),
        StreamState::InToolCall => {
            let l = la + tok;
            if text::contains(l, native_close()) || text::contains(l, xml_close()) {
                (StreamState::Text, Seq::empty(), None)
            } else {
                (StreamState::InToolCall, l, None)
            }
        },
    }
}

/// What `flush_pending_text` hands back in state `st` with buffer `la`.
pub open spec fn pending_spec(st: StreamState, la: Seq<char>) -> Option<Seq<char>> {
    if st != StreamState::InToolCall && la.len() > 0 {
        Some(la)
    } else {
        None
    }
}

/// Joins two optional pieces of text.
pub fn combine_text(a: Option<String>, b: Option<String>) -> (r: Option<String>)
    ensures
        opt_view(r) == combine_spec(opt_view(a), opt_view(b)),
{
    match (a, b) {
        (Some(x), Some(y)) => {
            let xs = chars_of(x.as_str());
            let ys = chars_of(y.as_str());
            Some(string_of(&concat_chars(&xs, &ys)))
        },
        (Some(x), None) => Some(x),
        (None, y) => y,
    }
}

fn opt_prefix(s: &Vec<char>, p: usize) -> (r: Option<String>)
    requires
        p <= s.len(),
    ensures
        opt_view(r) == nonempty_prefix(s@, p as int),
{
    if p > 0 {
        Some(string_of(&slice_chars(s, 0, p)))
    } else {
        None
    }
}

impl StreamProcessor {
    pub fn new() -> (r: Self)
        ensures
            r.state == StreamState::InitialLookahead,
            r.lookahead@ == Seq::<char>::empty(),
    {
        StreamProcessor { state: StreamState::InitialLookahead, lookahead: Vec::new() }
    }

    /// Examines the lookahead buffer: confirms a tool call tag, flushes it as
    /// plain text (false alarm), or keeps buffering.
    pub fn resolve_lookahead(&mut self) -> (r: (Option<String>, bool))
        requires
            old(self).state == StreamState::MaybeTool,
        ensures
            ({
                let (st, la, e) = resolve_spec(old(self).lookahead@);
                final(self).state == st && final(self).lookahead@ == la && opt_view(r.0) == e
            }),
            !r.1,
    {
        let native = chars_of("<|tool_call>");
        let xml = chars_of("<tool_call>");
        let first = match (find_chars(&self.lookahead, &native), find_chars(&self.lookahead, &xml)) {
            (Some(p), Some(q)) => Some(if p <= q { p } else { q }),
            (Some(p), None) => Some(p),
            (None, Some(q)) => Some(q),
            (None, None) => None,
        };
        if let Some(p) = first {
            let q = safe_cut_chars(&self.lookahead, p, &native, &xml);
            proof {
                lemma_safe_cut(self.lookahead@, p as int, native@, xml@);
            }
            let before = opt_prefix(&self.lookahead, q);
            self.lookahead = Vec::new();
            self.state = StreamState::InToolCall;
            return (before, false);
        }
        if utf8_len_exceeds(&self.lookahead, LOOKAHEAD_FLUSH_THRESHOLD) {
            let n = self.lookahead.len();
            let q = safe_cut_chars(&self.lookahead, n, &native, &xml);
            proof {
                lemma_safe_cut(self.lookahead@, n as int, native@, xml@);
            }
            if q == n {
                let flushed = string_of(&self.lookahead);
                self.lookahead = Vec::new();
                self.state = StreamState::Text;
                (Some(flushed), false)
            } else {
                let before = opt_prefix(&self.lookahead, q);
                self.lookahead = slice_chars(&self.lookahead, q, n);
                assert(self.lookahead@ =~= old(self).lookahead@.skip(q as int));
                (before, false)
            }
        } else {
            (None, false)
        }
    }

    /// Feeds one token. Returns `(text_to_emit, should_stop_inference)`.
    pub fn feed(&mut self, token: &str) -> (r: (Option<String>, bool))
        ensures
            ({
                let (st, la, e) = feed_spec(old(self).state, old(self).lookahead@, token@);
                final(self).state == st && final(self).lookahead@ == la && opt_view(r.0) == e
            }),
            !r.1,
    {
        let tok = chars_of(token);
        let lt = vec!['<'];
        assert(lt@ =~= seq!['<']);
        match self.state {
            StreamState::InitialLookahead => {
                let native = chars_of("<|tool_call>");
                push_all(&mut self.lookahead, &tok);
                if starts_with_chars(&self.lookahead, &native) {
                    self.lookahead = Vec::new();
                    self.state = StreamState::InToolCall;
                    return (None, false);
                }
                if !starts_with_chars(&native, &self.lookahead) {
                    let flushed = slice_chars(&self.lookahead, 0, self.lookahead.len());
                    assert(flushed@ =~= old(self).lookahead@ + tok@);
                    self.lookahead = Vec::new();
                    if let Some(p) = find_chars(&flushed, &lt) {
                        let before = opt_prefix(&flushed, p);
                        self.lookahead = slice_chars(&flushed, p, flushed.len());
                        self.state = StreamState::MaybeTool;
                        let (post, stop) = self.resolve_lookahead();
                        return (combine_text(before, post), stop);
                    } else {
                        self.state = StreamState::Text;
                        return (if flushed.len() == 0 { None } else { Some(string_of(&flushed)) }, false);
                    }
                }
                (None, false)
            },
            StreamState::Text => {
                if let Some(p) = find_chars(&tok, &lt) {
                    let pre = opt_prefix(&tok, p);
                    let rest = slice_chars(&tok, p, tok.len());
                    push_all(&mut self.lookahead, &rest);
                    self.state = StreamState::MaybeTool;
                    let (post, stop) = self.resolve_lookahead();
                    (combine_text(pre, post), stop)
                } else {
                    (Some(string_of(&tok)), false)
                }
            },
            StreamState::MaybeTool => {
                push_all(&mut self.lookahead, &tok);
                self.resolve_lookahead()
            },
            StreamState::InToolCall => {
                push_all(&mut self.lookahead, &tok);
                let nclose = chars_of("<tool_call|>");
                let xclose = chars_of("</tool_call>");
                if find_chars(&self.lookahead, &nclose).is_some() || find_chars(
                    &self.lookahead,
                    &xclose,
                ).is_some() {
                    self.lookahead = Vec::new();
                    self.state = StreamState::Text;
                    (None, false)
                } else {
                    (None, false)
                }
            },
        }
    }

    /// The buffered text that was held back for lookahead but never confirmed
    /// as a tag. Called after the stream ends.
    pub fn flush_pending_text(&self) -> (r: Option<String>)
        ensures
            opt_view(r) == pending_spec(self.state, self.lookahead@),
    {
        if self.state != StreamState::InToolCall && self.lookahead.len() > 0 {
            Some(string_of(&self.lookahead))
        } else {
            None
        }
    }
}


// ---------------------------------------------------------------------------
// Laws
// ---------------------------------------------------------------------------

/// The buffer is empty whenever the filter is passing text through.
pub open spec fn stream_wf(st: StreamState, la: Seq<char>) -> bool {
    st == StreamState::Text ==> la.len() == 0
}

/// The emitted text, with `None` read as the empty text.
pub open spec fn emitted(e: Option<Seq<char>>) -> Seq<char> {
    match e {
        Some(x) => x,
        None => Seq::empty(),
    }
}

/// `s` starts with one of the opening tool call tags.
pub open spec fn starts_with_open_tag(s: Seq<char>) -> bool {
    text::starts_with(s, native_open()) || text::starts_with(s, xml_open())
}

proof fn lemma_find_occurs(s: Seq<char>, pat: Seq<char>)
    ensures
        text::find(s, pat) matches Some(i) ==> 0 <= i && text::occurs_at(s, pat, i),
        text::find(s, pat) is None ==> forall|j: int| 0 <= j ==> !text::occurs_at(s, pat, j),
{
    crate::text::lemma_find_from_props(s, pat, 0);
}

proof fn lemma_occurs_starts(s: Seq<char>, pat: Seq<char>, i: int)
    requires
        text::occurs_at(s, pat, i),
    ensures
        text::starts_with(s.skip(i), pat),
{
    assert(s.skip(i).subrange(0, pat.len() as int) =~= s.subrange(i, i + pat.len()));
}

/// What the first tag search finds: an opening tag at `p`, and none before.
proof fn lemma_first_tag(la: Seq<char>)
    ensures
        first_tag(la) matches Some(p) ==> 0 <= p && (text::occurs_at(la, native_open(), p)
            || text::occurs_at(la, xml_open(), p)) && forall|j: int|
            0 <= j < p ==> !text::occurs_at(la, native_open(), j) && !text::occurs_at(la, xml_open(), j),
        first_tag(la) is None ==> forall|j: int|
            0 <= j ==> !text::occurs_at(la, native_open(), j) && !text::occurs_at(la, xml_open(), j),
{
    crate::text::lemma_find_from_props(la, native_open(), 0);
    crate::text::lemma_find_from_props(la, xml_open(), 0);
}

/// `emitted` is a start of `l` that ends at or before an opening tag.
pub open spec fn shown_before_tag(emitted: Seq<char>, l: Seq<char>) -> bool {
    exists|k: int|
        0 <= k <= l.len() && emitted.len() <= k && emitted == l.take(emitted.len() as int)
            && #[trigger] starts_with_open_tag(l.skip(k))
}

/// Before the first `<` there is none.
proof fn lemma_lt_first(l: Seq<char>, p: int)
    requires
        text::find(l, seq!['<']) == Some(p),
    ensures
        0 <= p < l.len(),
        forall|i: int| 0 <= i < p ==> l[i] != '<',
{
    crate::text::lemma_find_from_props(l, seq!['<'], 0);
    assert forall|i: int| 0 <= i < p implies l[i] != '<' by {
        if l[i] == '<' {
            assert(l.subrange(i, i + 1) =~= seq!['<']);
            assert(text::occurs_at(l, seq!['<'], i));
        }
    }
}

proof fn lemma_resolve_shape(la: Seq<char>)
    ensures
        ({
            let (st, la2, e) = resolve_spec(la);
            &&& st != StreamState::InitialLookahead
            &&& stream_wf(st, la2)
            &&& st != StreamState::InToolCall ==> emitted(e) + la2 == la
            &&& st == StreamState::InToolCall ==> shown_before_tag(emitted(e), la)
            &&& st == StreamState::InToolCall ==> la2.len() == 0
            &&& showable(emitted(e), native_open(), xml_open())
        }),
{
    reveal_strlit("<|tool_call>");
    reveal_strlit("<tool_call>");
    assert(native_open().len() == 12 && native_open()[0] == '<');
    assert(xml_open().len() == 11 && xml_open()[0] == '<');
    lemma_first_tag(la);
    let (st, la2, e) = resolve_spec(la);
    match first_tag(la) {
        Some(p) => {
            if text::occurs_at(la, native_open(), p) {
                lemma_occurs_starts(la, native_open(), p);
            } else {
                lemma_occurs_starts(la, xml_open(), p);
            }
            assert(p + 1 <= la.len()) by {
                reveal_strlit("<|tool_call>");
                reveal_strlit("<tool_call>");
            }
            assert(starts_with_open_tag(la.skip(p)));
            lemma_safe_cut(la, p, native_open(), xml_open());
            let q = shown_upto(la, p);
            assert(emitted(e) =~= la.take(q));
            assert(emitted(e) == la.take(emitted(e).len() as int));
            lemma_free_prefix(la, q, native_open(), xml_open());
        },
        None => {
            if text::utf8_len(la) > LOOKAHEAD_FLUSH_THRESHOLD {
                lemma_safe_cut(la, la.len() as int, native_open(), xml_open());
                let q = shown_upto(la, la.len() as int);
                lemma_free_prefix(la, q, native_open(), xml_open());
                if q == la.len() {
                    assert(la.take(q) =~= la);
                    assert(emitted(e) + la2 =~= la);
                } else {
                    assert(emitted(e) =~= la.take(q));
                    assert(emitted(e) + la2 =~= la);
                }
            } else {
                assert(emitted(e) + la2 =~= la);
                assert(emitted(e) =~= Seq::<char>::empty());
                lemma_no_lt_showable(emitted(e), native_open(), xml_open());
            }
        },
    }
    if emitted(e).len() == 0 {
        lemma_no_lt_showable(emitted(e), native_open(), xml_open());
    }
}

proof fn lemma_split_shape(l: Seq<char>, p: int)
    requires
        0 <= p <= l.len(),
        forall|i: int| 0 <= i < p ==> l[i] != '<',
    ensures
        ({
            let (st, la2, e) = split_at_lt_spec(nonempty_prefix(l, p), l.skip(p));
            &&& stream_wf(st, la2)
            &&& st != StreamState::InitialLookahead
            &&& st != StreamState::InToolCall ==> emitted(e) + la2 == l
            &&& st == StreamState::InToolCall ==> shown_before_tag(emitted(e), l)
            &&& st == StreamState::InToolCall ==> la2.len() == 0
            &&& showable(emitted(e), native_open(), xml_open())
        }),
{
    reveal_strlit("<|tool_call>");
    reveal_strlit("<tool_call>");
    let rest = l.skip(p);
    lemma_resolve_shape(rest);
    let (st, la2, post) = resolve_spec(rest);
    let (st2, la3, e) = split_at_lt_spec(nonempty_prefix(l, p), rest);
    assert(emitted(e) =~= l.take(p) + emitted(post));
    lemma_no_lt_showable(l.take(p), native_open(), xml_open());
    lemma_showable_concat(l.take(p), emitted(post), native_open(), xml_open());
    if st != StreamState::InToolCall {
        assert(l.take(p) + rest =~= l);
        assert(emitted(e) + la2 =~= l.take(p) + (emitted(post) + la2));
    } else {
        let k = choose|k: int|
            0 <= k <= rest.len() && emitted(post).len() <= k && emitted(post) == rest.take(emitted(post).len() as int)
                && #[trigger] starts_with_open_tag(rest.skip(k));
        assert(l.take(p) + rest.take(emitted(post).len() as int) =~= l.take(p + emitted(post).len()));
        assert(rest.skip(k) =~= l.skip(p + k));
        assert(starts_with_open_tag(l.skip(p + k)));
        assert(emitted(e) == l.take(emitted(e).len() as int));
    }
}

/// Law: one step of the filter, from a state that is not inside a tool call,
/// either passes text through without losing or reordering anything (the
/// emitted text followed by the new buffer is the old buffer followed by the
/// token), or it enters a tool call, in which case what it emitted is a start
/// of the text before an opening tag. Inside a tool call nothing is emitted.
/// The buffer stays empty while text passes through.
pub proof fn law_feed_conserves_text(st: StreamState, la: Seq<char>, tok: Seq<char>)
    requires
        stream_wf(st, la),
    ensures
        ({
            let (st2, la2, e) = feed_spec(st, la, tok);
            &&& stream_wf(st2, la2)
            &&& st == StreamState::InToolCall ==> e is None
            &&& st != StreamState::InToolCall && st2 != StreamState::InToolCall ==> emitted(e) + la2 == la + tok
            &&& st != StreamState::InToolCall && st2 == StreamState::InToolCall ==> shown_before_tag(
                emitted(e),
                la + tok,
            )
        }),
{
    let (st2, la2, e) = feed_spec(st, la, tok);
    match st {
        StreamState::InitialLookahead => {
            let l = la + tok;
            if text::starts_with(l, native_open()) {
                assert(emitted(e) =~= l.take(0));
                assert(l.skip(0) =~= l);
                assert(starts_with_open_tag((la + tok).skip(0)));
            } else if !text::starts_with(native_open(), l) {
                lemma_find_occurs(l, seq!['<']);
                match text::find(l, seq!['<']) {
                    Some(p) => {
                        lemma_lt_first(l, p);
                        lemma_split_shape(l, p);
                    },
                    None => {
                        assert(emitted(e) + la2 =~= l);
                    },
                }
            } else {
                assert(emitted(e) + la2 =~= l);
            }
        },
        StreamState::Text => {
            lemma_find_occurs(tok, seq!['<']);
            assert(la + tok =~= tok);
            match text::find(tok, seq!['<']) {
                Some(p) => {
                    assert(la + tok.skip(p) =~= tok.skip(p));
                    lemma_lt_first(tok, p);
                    lemma_split_shape(tok, p);
                },
                None => {
                    assert(emitted(e) + la2 =~= la + tok);
                },
            }
        },
        StreamState::MaybeTool => {
            lemma_resolve_shape(la + tok);
        },
        StreamState::InToolCall => {},
    }
}

/// The filter run over a sequence of tokens from state `st` with buffer `la`:
/// the final state, the final buffer and everything emitted, in order.
pub open spec fn run_spec(st: StreamState, la: Seq<char>, toks: Seq<Seq<char>>) -> (
    StreamState,
    Seq<char>,
    Seq<char>,
)
    decreases toks.len(),
{
    if toks.len() == 0 {
        (st, la, Seq::empty())
    } else {
        let (st1, la1, e1) = feed_spec(st, la, toks[0]);
        let (st2, la2, out) = run_spec(st1, la1, toks.drop_first());
        (st2, la2, emitted(e1) + out)
    }
}

/// The concatenation of all tokens.
pub open spec fn concat_all(toks: Seq<Seq<char>>) -> Seq<char>
    decreases toks.len(),
{
    if toks.len() == 0 {
        Seq::empty()
    } else {
        toks[0] + concat_all(toks.drop_first())
    }
}

pub open spec fn has_no_lt(s: Seq<char>) -> bool {
    forall|i: int| 0 <= i < s.len() ==> s[i] != '<'
}

proof fn lemma_no_lt_no_tag(s: Seq<char>)
    requires
        has_no_lt(s),
    ensures
        text::find(s, seq!['<']) is None,
        text::find(s, native_open()) is None,
        text::find(s, xml_open()) is None,
        !text::starts_with(s, native_open()),
        s.len() > 0 ==> !text::starts_with(native_open(), s),
{
    reveal_strlit("<|tool_call>");
    reveal_strlit("<tool_call>");
    lemma_find_occurs(s, seq!['<']);
    lemma_find_occurs(s, native_open());
    lemma_find_occurs(s, xml_open());
    if let Some(i) = text::find(s, seq!['<']) {
        assert(s.subrange(i, i + 1)[0] == s[i]);
    }
    if let Some(i) = text::find(s, native_open()) {
        assert(s.subrange(i, i + 12)[0] == s[i]);
    }
    if let Some(i) = text::find(s, xml_open()) {
        assert(s.subrange(i, i + 11)[0] == s[i]);
    }
    if s.len() > 0 && text::starts_with(native_open(), s) {
        assert(native_open().subrange(0, s.len() as int)[0] == s[0]);
    }
}

proof fn lemma_run_plain(st: StreamState, la: Seq<char>, toks: Seq<Seq<char>>)
    requires
        st == StreamState::InitialLookahead || st == StreamState::Text,
        la.len() == 0,
        forall|i: int| 0 <= i < toks.len() ==> has_no_lt(#[trigger] toks[i]),
    ensures
        ({
            let (st2, la2, out) = run_spec(st, la, toks);
            st2 != StreamState::InToolCall && out + la2 == la + concat_all(toks)
        }),
    decreases toks.len(),
{
    if toks.len() > 0 {
        let tok = toks[0];
        assert(has_no_lt(tok));
        let l = la + tok;
        assert(l =~= tok);
        lemma_no_lt_no_tag(l);
        if l.len() == 0 {
            assert(native_open().subrange(0, 0) =~= l);
        }
        lemma_no_lt_no_tag(tok);
        law_feed_conserves_text(st, la, tok);
        let (st1, la1, e1) = feed_spec(st, la, tok);
        assert(st1 == StreamState::Text || (st1 == StreamState::InitialLookahead && la1.len() == 0));
        let rest = toks.drop_first();
        assert forall|i: int| 0 <= i < rest.len() implies has_no_lt(#[trigger] rest[i]) by {
            assert(rest[i] == toks[i + 1]);
        }
        lemma_run_plain(st1, la1, rest);
        let (st2, la2, out) = run_spec(st1, la1, rest);
        assert(emitted(e1) =~= la + tok);
        assert(emitted(e1) + out + la2 =~= emitted(e1) + (out + la2));
        assert(la + concat_all(toks) =~= (la + tok) + concat_all(rest));
    }
}

/// Law: text without any `<` passes through unchanged. Feeding a fresh
/// filter any sequence of such tokens emits the concatenated tokens, in
/// order; whatever is not yet emitted is what `flush_pending_text` returns.
pub proof fn law_plain_text_passes_through(toks: Seq<Seq<char>>)
    requires
        forall|i: int| 0 <= i < toks.len() ==> has_no_lt(#[trigger] toks[i]),
    ensures
        ({
            let (st, la, out) = run_spec(StreamState::InitialLookahead, Seq::empty(), toks);
            out + emitted(pending_spec(st, la)) == concat_all(toks)
        }),
{
    lemma_run_plain(StreamState::InitialLookahead, Seq::empty(), toks);
    let (st, la, out) = run_spec(StreamState::InitialLookahead, Seq::empty(), toks);
    assert(Seq::<char>::empty() + concat_all(toks) =~= concat_all(toks));
    if la.len() == 0 {
        assert(out + emitted(pending_spec(st, la)) =~= out + la);
    }
}

/// An occurrence inside `b` is an occurrence inside `a + b`, shifted by the
/// length of `a`; an occurrence inside `a` stays one in `a + b`.
proof fn lemma_occurs_in_concat(a: Seq<char>, b: Seq<char>, pat: Seq<char>, j: int)
    ensures
        text::occurs_at(b, pat, j) ==> text::occurs_at(a + b, pat, a.len() + j),
        text::occurs_at(a, pat, j) ==> text::occurs_at(a + b, pat, j),
{
    if text::occurs_at(b, pat, j) {
        assert((a + b).subrange(a.len() + j, a.len() + j + pat.len()) =~= b.subrange(j, j + pat.len()));
    }
    if text::occurs_at(a, pat, j) {
        assert((a + b).subrange(j, j + pat.len()) =~= a.subrange(j, j + pat.len()));
    }
}

/// `s` holds neither opening tag.
pub open spec fn tag_free(s: Seq<char>) -> bool {
    !text::contains(s, native_open()) && !text::contains(s, xml_open())
}

proof fn lemma_tag_free_parts(a: Seq<char>, b: Seq<char>)
    requires
        tag_free(a + b),
    ensures
        tag_free(a),
        tag_free(b),
{
    lemma_find_occurs(a + b, native_open());
    lemma_find_occurs(a + b, xml_open());
    lemma_find_occurs(a, native_open());
    lemma_find_occurs(a, xml_open());
    lemma_find_occurs(b, native_open());
    lemma_find_occurs(b, xml_open());
    if let Some(j) = text::find(a, native_open()) {
        lemma_occurs_in_concat(a, b, native_open(), j);
    }
    if let Some(j) = text::find(a, xml_open()) {
        lemma_occurs_in_concat(a, b, xml_open(), j);
    }
    if let Some(j) = text::find(b, native_open()) {
        lemma_occurs_in_concat(a, b, native_open(), j);
    }
    if let Some(j) = text::find(b, xml_open()) {
        lemma_occurs_in_concat(a, b, xml_open(), j);
    }
}

/// A text with an opening tag in its start `l` is not tag free.
proof fn lemma_tag_blocks_free(l: Seq<char>, rest: Seq<char>, e: Seq<char>)
    requires
        shown_before_tag(e, l),
    ensures
        !tag_free(l + rest),
{
    let k = choose|k: int|
        0 <= k <= l.len() && e.len() <= k && e == l.take(e.len() as int) && #[trigger] starts_with_open_tag(
            l.skip(k),
        );
    if tag_free(l + rest) {
        lemma_tag_free_parts(l, rest);
        lemma_find_occurs(l, native_open());
        lemma_find_occurs(l, xml_open());
        if text::starts_with(l.skip(k), native_open()) {
            assert(l.skip(k).subrange(0, native_open().len() as int) =~= l.subrange(k, k + native_open().len()));
            assert(text::occurs_at(l, native_open(), k));
        } else {
            assert(l.skip(k).subrange(0, xml_open().len() as int) =~= l.subrange(k, k + xml_open().len()));
            assert(text::occurs_at(l, xml_open(), k));
        }
    }
}

#[verifier::spinoff_prover]
proof fn lemma_run_tag_free(st: StreamState, la: Seq<char>, toks: Seq<Seq<char>>)
    requires
        st != StreamState::InToolCall,
        stream_wf(st, la),
        tag_free(la + concat_all(toks)),
    ensures
        ({
            let (st2, la2, out) = run_spec(st, la, toks);
            st2 != StreamState::InToolCall && out + la2 == la + concat_all(toks)
        }),
    decreases toks.len(),
{
    if toks.len() == 0 {
        assert(la + concat_all(toks) =~= la);
    } else {
        let tok = toks[0];
        let rest = toks.drop_first();
        let whole = la + concat_all(toks);
        assert(whole =~= (la + tok) + concat_all(rest));
        law_feed_conserves_text(st, la, tok);
        let (st1, la1, e1) = feed_spec(st, la, tok);
        if st1 == StreamState::InToolCall {
            lemma_tag_blocks_free(la + tok, concat_all(rest), emitted(e1));
        }
        assert(whole =~= emitted(e1) + (la1 + concat_all(rest)));
        lemma_tag_free_parts(emitted(e1), la1 + concat_all(rest));
        lemma_run_tag_free(st1, la1, rest);
        let (st2, la2, out) = run_spec(st1, la1, rest);
        assert(emitted(e1) + out + la2 =~= emitted(e1) + (out + la2));
    }
}

/// Law: without a tool call tag the filter passes the text through
/// unchanged. Feeding a fresh filter any tokens whose concatenation holds
/// neither `<|tool_call>` nor `<tool_call>` emits that concatenation, in
/// order, up to what is still held back, which `flush_pending_text` returns:
/// nothing is lost, doubled or reordered.
pub proof fn law_tag_free_text_passes_through(toks: Seq<Seq<char>>)
    requires
        tag_free(concat_all(toks)),
    ensures
        ({
            let (st, la, out) = run_spec(StreamState::InitialLookahead, Seq::empty(), toks);
            out + emitted(pending_spec(st, la)) == concat_all(toks)
        }),
{
    assert(Seq::<char>::empty() + concat_all(toks) =~= concat_all(toks));
    lemma_run_tag_free(StreamState::InitialLookahead, Seq::empty(), toks);
    let (st, la, out) = run_spec(StreamState::InitialLookahead, Seq::empty(), toks);
    if la.len() == 0 {
        assert(out + emitted(pending_spec(st, la)) =~= out + la);
    }
}

/// A token without `<` holds none.
proof fn lemma_no_lt_of_find(t: Seq<char>)
    requires
        text::find(t, seq!['<']) is None,
    ensures
        forall|i: int| 0 <= i < t.len() ==> t[i] != '<',
{
    crate::text::lemma_find_from_props(t, seq!['<'], 0);
    assert forall|i: int| 0 <= i < t.len() implies t[i] != '<' by {
        if t[i] == '<' {
            assert(t.subrange(i, i + 1) =~= seq!['<']);
            assert(text::occurs_at(t, seq!['<'], i));
        }
    }
}

/// Whatever one step emits holds no opening tag and does not end with the
/// start of one.
#[verifier::spinoff_prover]
proof fn lemma_feed_showable(st: StreamState, la: Seq<char>, tok: Seq<char>)
    ensures
        showable(emitted(feed_spec(st, la, tok).2), native_open(), xml_open()),
{
    reveal_strlit("<|tool_call>");
    reveal_strlit("<tool_call>");
    assert(native_open()[0] == '<' && xml_open()[0] == '<');
    let e = feed_spec(st, la, tok).2;
    match st {
        StreamState::InitialLookahead => {
            let l = la + tok;
            if text::starts_with(l, native_open()) {
            } else if !text::starts_with(native_open(), l) {
                match text::find(l, seq!['<']) {
                    Some(p) => {
                        lemma_lt_first(l, p);
                        lemma_split_shape(l, p);
                    },
                    None => {
                        lemma_no_lt_of_find(l);
                        lemma_no_lt_showable(l, native_open(), xml_open());
                    },
                }
            }
        },
        StreamState::Text => {
            match text::find(tok, seq!['<']) {
                Some(p) => {
                    lemma_lt_first(tok, p);
                    lemma_resolve_shape(la + tok.skip(p));
                    lemma_no_lt_showable(tok.take(p), native_open(), xml_open());
                    let post = resolve_spec(la + tok.skip(p)).2;
                    lemma_showable_concat(tok.take(p), emitted(post), native_open(), xml_open());
                    assert(emitted(e) =~= tok.take(p) + emitted(post));
                },
                None => {
                    lemma_no_lt_of_find(tok);
                    lemma_no_lt_showable(tok, native_open(), xml_open());
                },
            }
        },
        StreamState::MaybeTool => {
            lemma_resolve_shape(la + tok);
        },
        StreamState::InToolCall => {},
    }
    if emitted(e).len() == 0 {
        lemma_no_lt_showable(emitted(e), native_open(), xml_open());
    }
}

/// Everything a run emits, taken together, holds no opening tag and does
/// not end with the start of one.
proof fn lemma_run_showable(st: StreamState, la: Seq<char>, toks: Seq<Seq<char>>)
    ensures
        showable(run_spec(st, la, toks).2, native_open(), xml_open()),
    decreases toks.len(),
{
    reveal_strlit("<|tool_call>");
    reveal_strlit("<tool_call>");
    if toks.len() == 0 {
        lemma_no_lt_showable(Seq::<char>::empty(), native_open(), xml_open());
    } else {
        let (st1, la1, e1) = feed_spec(st, la, toks[0]);
        lemma_feed_showable(st, la, toks[0]);
        lemma_run_showable(st1, la1, toks.drop_first());
        lemma_showable_concat(emitted(e1), run_spec(st1, la1, toks.drop_first()).2, native_open(), xml_open());
    }
}

/// After any run, what the filter keeps back outside a tool call holds no
/// opening tag.
proof fn lemma_run_keeps_free(st: StreamState, la: Seq<char>, toks: Seq<Seq<char>>)
    requires
        st != StreamState::InToolCall ==> tag_free(la),
    ensures
        ({
            let (st2, la2, out) = run_spec(st, la, toks);
            st2 != StreamState::InToolCall ==> tag_free(la2)
        }),
    decreases toks.len(),
{
    if toks.len() > 0 {
        let (st1, la1, e1) = feed_spec(st, la, toks[0]);
        lemma_feed_keeps_free(st, la, toks[0]);
        lemma_run_keeps_free(st1, la1, toks.drop_first());
    }
}

/// Law: tool-call markup is never shown. Whatever tokens a fresh filter is
/// fed, in whatever pieces, the text it emits, taken together, holds neither
/// `<|tool_call>` nor `<tool_call>`; nor does it end with the start of one,
/// so no later text can complete a tag across it. Nor does a tag appear once
/// the text still held back, which `flush_pending_text` returns at the end
/// of the stream, is added.
pub proof fn law_markup_never_emitted(toks: Seq<Seq<char>>)
    ensures
        ({
            let (st, la, out) = run_spec(StreamState::InitialLookahead, Seq::empty(), toks);
            &&& !text::contains(out, native_open())
            &&& !text::contains(out, xml_open())
            &&& crate::tag_guard::safe_ended(out, native_open(), xml_open())
            &&& !text::contains(out + emitted(pending_spec(st, la)), native_open())
            &&& !text::contains(out + emitted(pending_spec(st, la)), xml_open())
        }),
{
    reveal_strlit("<|tool_call>");
    reveal_strlit("<tool_call>");
    lemma_run_showable(StreamState::InitialLookahead, Seq::empty(), toks);
    lemma_no_tag_empty();
    lemma_run_keeps_free(StreamState::InitialLookahead, Seq::empty(), toks);
    let (st, la, out) = run_spec(StreamState::InitialLookahead, Seq::empty(), toks);
    let pend = emitted(pending_spec(st, la));
    assert(tag_free(pend));
    crate::tag_guard::lemma_concat_free(out, pend, native_open(), xml_open(), native_open());
    crate::tag_guard::lemma_concat_free(out, pend, native_open(), xml_open(), xml_open());
}

/// A start of `<|tool_call>` shorter than the tag holds no opening tag.
proof fn lemma_native_start_free(l: Seq<char>)
    requires
        text::starts_with(native_open(), l),
        !text::starts_with(l, native_open()),
    ensures
        tag_free(l),
{
    reveal_strlit("<|tool_call>");
    reveal_strlit("<tool_call>");
    let n = native_open();
    assert(l.len() < 12) by {
        if l.len() >= 12 {
            assert(l =~= n.subrange(0, l.len() as int));
            assert(l.subrange(0, 12) =~= n);
        }
    }
    assert forall|i: int| 0 <= i < l.len() implies l[i] == n[i] by {
        assert(n.subrange(0, l.len() as int)[i] == n[i]);
    }
    lemma_find_occurs(l, native_open());
    lemma_find_occurs(l, xml_open());
    if let Some(j) = text::find(l, native_open()) {
        assert(l.subrange(j, j + 12).len() == 12);
    }
    if let Some(j) = text::find(l, xml_open()) {
        assert(l.subrange(j, j + 11)[0] == l[j]);
        assert(l.subrange(j, j + 11)[1] == l[j + 1]);
        if j == 0 {
            assert(l[1] == '|');
        } else {
            assert(l[j] == n[j]);
        }
    }
}

/// The empty text holds no tag.
proof fn lemma_no_tag_empty()
    ensures
        tag_free(Seq::<char>::empty()),
{
    lemma_find_occurs(Seq::<char>::empty(), native_open());
    lemma_find_occurs(Seq::<char>::empty(), xml_open());
    reveal_strlit("<|tool_call>");
    reveal_strlit("<tool_call>");
}

/// What resolving keeps back, outside a tool call, holds no opening tag.
proof fn lemma_resolve_free(la: Seq<char>)
    ensures
        ({
            let (st2, la2, e) = resolve_spec(la);
            st2 != StreamState::InToolCall ==> tag_free(la2)
        }),
{
    lemma_first_tag(la);
    lemma_no_tag_empty();
    lemma_find_occurs(la, native_open());
    lemma_find_occurs(la, xml_open());
    let (st2, la2, e) = resolve_spec(la);
    if first_tag(la) is None {
        assert(tag_free(la));
        if text::utf8_len(la) > LOOKAHEAD_FLUSH_THRESHOLD {
            let q = shown_upto(la, la.len() as int);
            lemma_safe_cut(la, la.len() as int, native_open(), xml_open());
            if q != la.len() {
                assert(la =~= la.take(q) + la.skip(q));
                lemma_tag_free_parts(la.take(q), la.skip(q));
            }
        }
    }
}

/// What the filter keeps back, outside a tool call, holds no opening tag.
proof fn lemma_feed_keeps_free(st: StreamState, la: Seq<char>, tok: Seq<char>)
    requires
        st != StreamState::InToolCall ==> tag_free(la),
    ensures
        ({
            let (st2, la2, e) = feed_spec(st, la, tok);
            st2 != StreamState::InToolCall ==> tag_free(la2)
        }),
{
    reveal_strlit("<|tool_call>");
    reveal_strlit("<tool_call>");
    let (st2, la2, e) = feed_spec(st, la, tok);
    match st {
        StreamState::InitialLookahead => {
            let l = la + tok;
            if text::starts_with(l, native_open()) {
            } else if !text::starts_with(native_open(), l) {
                match text::find(l, seq!['<']) {
                    Some(p) => {
                        lemma_resolve_free(l.skip(p));
                    },
                    None => {
                        lemma_no_tag_empty();
                    },
                }
            } else {
                lemma_native_start_free(l);
            }
        },
        StreamState::Text => {
            match text::find(tok, seq!['<']) {
                Some(p) => {
                    lemma_resolve_free(la + tok.skip(p));
                },
                None => {},
            }
        },
        StreamState::MaybeTool => {
            lemma_resolve_free(la + tok);
        },
        StreamState::InToolCall => {
            lemma_no_tag_empty();
        },
    }
}

} // verus!
