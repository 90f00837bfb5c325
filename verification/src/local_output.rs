//! Helpers shared by the parsers of local model output: suffix stripping and
//! Python-style `key="value"` argument extraction.
use vstd::prelude::*;
use crate::text;
use crate::text::{chars_of, ends_with_chars, find_chars, slice_chars, string_of};

verus! {

/// `str::trim_end_matches(pat)`: removes every trailing repetition of `pat`.
pub open spec fn strip_suffix_all(s: Seq<char>, pat: Seq<char>) -> Seq<char>
    decreases s.len(),
{
    if pat.len() > 0 && text::ends_with(s, pat) {
        strip_suffix_all(s.take(s.len() - pat.len()), pat)
    } else {
        s
    }
}

/// `s[..len]` with every trailing repetition of `pat` removed.
pub fn strip_suffix_all_chars(s: &Vec<char>, pat: &Vec<char>) -> (r: Vec<char>)
    ensures
        r@ == strip_suffix_all(s@, pat@),
{
    let mut cur = slice_chars(s, 0, s.len());
    assert(cur@ =~= s@);
    if pat.len() == 0 {
        return cur;
    }
    while ends_with_chars(&cur, pat)
        invariant
            pat.len() > 0,
            strip_suffix_all(s@, pat@) == strip_suffix_all(cur@, pat@),
        decreases cur.len(),
    {
        let n = cur.len() - pat.len();
        cur = slice_chars(&cur, 0, n);
    }
    cur
}

/// Reads a quoted value up to the closing `q`, resolving backslash escapes
/// (a backslash makes the next character literal). `None` when the value is
/// not closed.
pub open spec fn unescape_until(c: Seq<char>, q: char) -> Option<Seq<char>>
    decreases c.len(),
{
    if c.len() == 0 {
        None
    } else if c[0] == '\\' {
        if c.len() == 1 {
            None
        } else {
            match unescape_until(c.skip(2), q) {
                Some(r) => Some(seq![c[1]] + r),
                None => None,
            }
        }
    } else if c[0] == q {
        Some(Seq::empty())
    } else {
        match unescape_until(c.drop_first(), q) {
            Some(r) => Some(seq![c[0]] + r),
            None => None,
        }
    }
}

pub open spec fn prepend_opt(acc: Seq<char>, o: Option<Seq<char>>) -> Option<Seq<char>> {
    match o {
        Some(r) => Some(acc + r),
        None => None,
    }
}

/// The value of `key=<q>...<q>` at its first occurrence in `args`.
pub open spec fn quoted_with(args: Seq<char>, key: Seq<char>, q: char) -> Option<Seq<char>> {
    let needle = key + seq!['=', q];
    match text::find(args, needle) {
        Some(start) => unescape_until(args.skip(start + needle.len()), q),
        None => None,
    }
}

/// The value of the named argument: double-quoted first, then single-quoted.
pub open spec fn extract_quoted_arg_spec(args: Seq<char>, key: Seq<char>) -> Option<Seq<char>> {
    match quoted_with(args, key, '"') {
        Some(v) => Some(v),
        None => quoted_with(args, key, '\''),
    }
}

fn unescape_until_chars(c: &Vec<char>, from: usize, q: char) -> (r: Option<Vec<char>>)
    requires
        from <= c.len(),
    ensures
        match r {
            Some(v) => unescape_until(c@.skip(from as int), q) == Some(v@),
            None => unescape_until(c@.skip(from as int), q) is None,
        },
{
    let mut acc: Vec<char> = Vec::new();
    let mut i = from;
    while i < c.len()
        invariant
            from <= i <= c.len(),
            unescape_until(c@.skip(from as int), q) == prepend_opt(
                acc@,
                unescape_until(c@.skip(i as int), q),
            ),
        decreases c.len() - i,
    {
        let ghost rest = c@.skip(i as int);
        assert(rest[0] == c@[i as int]);
        if c[i] == '\\' {
            if i + 1 < c.len() {
                assert(rest.skip(2) =~= c@.skip(i + 2));
                assert(rest[1] == c@[i + 1]);
                acc.push(c[i + 1]);
                i = i + 2;
                proof {
                    let o = unescape_until(c@.skip(i as int), q);
                    if let Some(t) = o {
                        assert(acc@ + t =~= old_acc_plus(acc@, t));
                    }
                }
            } else {
                assert(rest.len() == 1);
                return None;
            }
        } else if c[i] == q {
            assert(acc@ + Seq::<char>::empty() =~= acc@);
            return Some(acc);
        } else {
            assert(rest.drop_first() =~= c@.skip(i + 1));
            acc.push(c[i]);
            i = i + 1;
        }
        proof {
            let o = unescape_until(c@.skip(i as int), q);
            if let Some(t) = o {
                assert((acc@.drop_last() + seq![acc@.last()]) + t =~= acc@ + t);
                assert(acc@.drop_last() + (seq![acc@.last()] + t) =~= acc@ + t);
            }
        }
    }
    assert(c@.skip(i as int).len() == 0);
    None
}

spec fn old_acc_plus(a: Seq<char>, t: Seq<char>) -> Seq<char> {
    a + t
}

fn quoted_with_chars(args: &Vec<char>, key: &Vec<char>, q: char) -> (r: Option<Vec<char>>)
    ensures
        match r {
            Some(v) => quoted_with(args@, key@, q) == Some(v@),
            None => quoted_with(args@, key@, q) is None,
        },
{
    let mut needle = slice_chars(key, 0, key.len());
    needle.push('=');
    needle.push(q);
    assert(needle@ =~= key@ + seq!['=', q]);
    match find_chars(args, &needle) {
        Some(start) => {
            let n = args.len();
            assert(start + needle@.len() <= n);
            unescape_until_chars(args, start + needle.len(), q)
        },
        None => None,
    }
}

/// Extracts a named string argument from Python-style function call
/// arguments (`key="value"` or `key='value'`), resolving backslash escapes.
pub fn extract_quoted_arg(args: &str, key: &str) -> (r: Option<String>)
    ensures
        match r {
            Some(v) => extract_quoted_arg_spec(args@, key@) == Some(v@),
            None => extract_quoted_arg_spec(args@, key@) is None,
        },
{
    let a = chars_of(args);
    let k = chars_of(key);
    match quoted_with_chars(&a, &k, '"') {
        Some(v) => Some(string_of(&v)),
        None => match quoted_with_chars(&a, &k, '\'') {
            Some(v) => Some(string_of(&v)),
            None => None,
        },
    }
}

/// The message of the last `speak(message=...)` call in `t`, or `t` itself.
pub open spec fn speak_message_or_text(t: Seq<char>) -> Seq<char> {
    match text::rfind(t, "speak("@) {
        Some(pos) => match extract_quoted_arg_spec(t.skip(pos + 6), "message"@) {
            Some(m) => m,
            None => t,
        },
        None => t,
    }
}

pub fn speak_message_or_text_chars(t: &Vec<char>) -> (r: Vec<char>)
    ensures
        r@ == speak_message_or_text(t@),
{
    let pat = chars_of("speak(");
    proof {
        reveal_strlit("speak(");
    }
    assert(pat@.len() == 6);
    let n = t.len();
    match text::rfind_chars(t, &pat) {
        Some(pos) => {
            let key = chars_of("message");
            let after = slice_chars(t, pos + 6, t.len());
            assert(after@ =~= t@.skip(pos + 6));
            match quoted_with_chars(&after, &key, '"') {
                Some(v) => v,
                None => match quoted_with_chars(&after, &key, '\'') {
                    Some(v) => v,
                    None => slice_chars(t, 0, t.len()),
                },
            }
        },
        None => slice_chars(t, 0, t.len()),
    }
}

} // verus!
