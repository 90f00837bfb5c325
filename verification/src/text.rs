//! Character-level text primitives shared by the parsers and prompt builders.
//!
//! Text is handled as sequences of Unicode scalar values (`Seq<char>`). The
//! executable helpers work on `Vec<char>`; `chars_of` and `string_of` convert
//! at the boundary with `&str` / `String`.
use vstd::prelude::*;

verus! {

// ---------------------------------------------------------------------------
// Unicode character classes (named results of std's `char` methods)
// ---------------------------------------------------------------------------

/// Whether `c` has the Unicode `White_Space` property (`char::is_whitespace`):
/// U+0009 to U+000D, U+0020, U+0085, U+00A0, U+1680, U+2000 to U+200A,
/// U+2028, U+2029, U+202F, U+205F and U+3000.
#[verifier::opaque]
pub open spec fn unicode_whitespace(c: char) -> bool {
    let n = c as u32;
    (0x9 <= n <= 0xD) || n == 0x20 || n == 0x85 || n == 0xA0 || n == 0x1680 || (0x2000 <= n <= 0x200A)
        || n == 0x2028 || n == 0x2029 || n == 0x202F || n == 0x205F || n == 0x3000
}

/// Among ASCII characters, the whitespace is space, tab, line feed,
/// vertical tab, form feed and carriage return.
pub proof fn lemma_ascii_whitespace(c: char)
    requires
        is_ascii_char(c),
    ensures
        unicode_whitespace(c) == is_ascii_whitespace_char(c),
{
    reveal(unicode_whitespace);
}

/// Whether `c` is alphabetic or numeric in the Unicode sense (`char::is_alphanumeric`).
pub uninterp spec fn unicode_alphanumeric(c: char) -> bool;

/// Whether `c` has the Unicode `Alphabetic` property (`char::is_alphabetic`).
pub uninterp spec fn unicode_alphabetic(c: char) -> bool;

/// Whether `c` has the Unicode `Uppercase` property (`char::is_uppercase`).
pub uninterp spec fn unicode_uppercase(c: char) -> bool;

/// The characters that `char::to_lowercase` yields for `c`.
pub uninterp spec fn unicode_lowercase(c: char) -> Seq<char>;

pub open spec fn is_ascii_char(c: char) -> bool {
    (c as u32) < 128
}

pub open spec fn is_ascii_digit(c: char) -> bool {
    '0' <= c && c <= '9'
}

pub open spec fn is_ascii_upper(c: char) -> bool {
    'A' <= c && c <= 'Z'
}

pub open spec fn is_ascii_lower(c: char) -> bool {
    'a' <= c && c <= 'z'
}

pub open spec fn is_ascii_alphanumeric(c: char) -> bool {
    is_ascii_digit(c) || is_ascii_upper(c) || is_ascii_lower(c)
}

pub open spec fn is_ascii_whitespace_char(c: char) -> bool {
    c == ' ' || c == '\t' || c == '\n' || c == '\r' || c == '\x0B' || c == '\x0C'
}

/// `char::is_whitespace`: true exactly for characters with the Unicode
/// `White_Space` property; among ASCII characters these are space, tab, line
/// feed, vertical tab, form feed and carriage return.
#[verifier::external_body]
pub(crate) fn char_is_whitespace(c: char) -> (r: bool)
    ensures
        r == unicode_whitespace(c),
        is_ascii_char(c) ==> (r == is_ascii_whitespace_char(c)),
{
    c.is_whitespace()
}

/// `char::is_alphanumeric`: alphabetic or numeric in the Unicode sense; among
/// ASCII characters exactly the letters and the digits.
#[verifier::external_body]
pub(crate) fn char_is_alphanumeric(c: char) -> (r: bool)
    ensures
        r == unicode_alphanumeric(c),
        is_ascii_char(c) ==> (r == is_ascii_alphanumeric(c)),
{
    c.is_alphanumeric()
}

/// `char::is_alphabetic`: the Unicode `Alphabetic` property; among ASCII
/// characters exactly the letters.
#[verifier::external_body]
pub(crate) fn char_is_alphabetic(c: char) -> (r: bool)
    ensures
        r == unicode_alphabetic(c),
        is_ascii_char(c) ==> (r == (is_ascii_upper(c) || is_ascii_lower(c))),
{
    c.is_alphabetic()
}

/// `char::is_uppercase`: the Unicode `Uppercase` property; among ASCII
/// characters exactly `A`..=`Z`.
#[verifier::external_body]
pub(crate) fn char_is_uppercase(c: char) -> (r: bool)
    ensures
        r == unicode_uppercase(c),
        is_ascii_char(c) ==> (r == is_ascii_upper(c)),
{
    c.is_uppercase()
}

/// `char::to_lowercase`, collected: the lowercase mapping of `c`. For an ASCII
/// character it is the single ASCII lowercase letter for `A`..=`Z` and the
/// character itself otherwise.
#[verifier::external_body]
pub(crate) fn char_to_lowercase(c: char) -> (r: Vec<char>)
    ensures
        r@ == unicode_lowercase(c),
        is_ascii_char(c) && is_ascii_upper(c) ==> r@ == seq![((c as u32) + 32) as char],
        is_ascii_char(c) && !is_ascii_upper(c) ==> r@ == seq![c],
{
    c.to_lowercase().collect()
}

// ---------------------------------------------------------------------------
// Conversions between `str` and character vectors
// ---------------------------------------------------------------------------

/// `str::chars`, collected into a vector.
#[verifier::external_body]
pub(crate) fn chars_of(s: &str) -> (r: Vec<char>)
    ensures
        r@ == s@,
{
    s.chars().collect()
}

/// `String::from_iter` over the characters of `v`.
#[verifier::external_body]
pub(crate) fn string_of(v: &Vec<char>) -> (r: String)
    ensures
        r@ == v@,
{
    v.iter().collect()
}

// ---------------------------------------------------------------------------
// UTF-8 byte lengths
// ---------------------------------------------------------------------------

/// Number of bytes of the UTF-8 encoding of `c`.
pub open spec fn char_utf8_len(c: char) -> nat {
    if (c as u32) < 0x80 {
        1
    } else if (c as u32) < 0x800 {
        2
    } else if (c as u32) < 0x10000 {
        3
    } else {
        4
    }
}

/// Number of bytes of the UTF-8 encoding of `s` (what `str::len` reports).
pub open spec fn utf8_len(s: Seq<char>) -> nat
    decreases s.len(),
{
    if s.len() == 0 {
        0
    } else {
        char_utf8_len(s[0]) + utf8_len(s.drop_first())
    }
}

pub proof fn lemma_utf8_len_concat(a: Seq<char>, b: Seq<char>)
    ensures
        utf8_len(a + b) == utf8_len(a) + utf8_len(b),
    decreases a.len(),
{
    if a.len() == 0 {
        assert(a + b =~= b);
    } else {
        assert((a + b).drop_first() =~= a.drop_first() + b);
        lemma_utf8_len_concat(a.drop_first(), b);
    }
}

pub proof fn lemma_utf8_len_push(a: Seq<char>, c: char)
    ensures
        utf8_len(a.push(c)) == utf8_len(a) + char_utf8_len(c),
{
    assert(a.push(c) =~= a + seq![c]);
    lemma_utf8_len_concat(a, seq![c]);
    assert(seq![c].drop_first() =~= Seq::<char>::empty());
    assert(utf8_len(Seq::<char>::empty()) == 0);
    assert(utf8_len(seq![c]) == char_utf8_len(c) + utf8_len(seq![c].drop_first()));
}

pub proof fn lemma_utf8_len_bounds(s: Seq<char>)
    ensures
        s.len() <= utf8_len(s) <= 4 * s.len(),
    decreases s.len(),
{
    if s.len() > 0 {
        lemma_utf8_len_bounds(s.drop_first());
    }
}

/// The byte count used here is the length of vstd's UTF-8 encoding.
pub proof fn lemma_utf8_len_is_encoding_len(s: Seq<char>)
    ensures
        vstd::utf8::encode_utf8(s).len() == utf8_len(s),
    decreases s.len(),
{
    broadcast use vstd::utf8::char_is_scalar;
    if s.len() > 0 {
        lemma_utf8_len_is_encoding_len(s.drop_first());
        let u = s[0] as u32;
        vstd::utf8::char_is_scalar(s[0]);
        assert(vstd::utf8::encode_scalar(u).len() == char_utf8_len(s[0]));
    }
}

pub fn char_utf8_width(c: char) -> (n: usize)
    ensures
        n == char_utf8_len(c),
{
    let u = c as u32;
    if u < 0x80 {
        1
    } else if u < 0x800 {
        2
    } else if u < 0x10000 {
        3
    } else {
        4
    }
}

/// Whether the UTF-8 encoding of `s` is longer than `limit` bytes.
pub fn utf8_len_exceeds(s: &Vec<char>, limit: usize) -> (r: bool)
    ensures
        r == (utf8_len(s@) > limit),
{
    let mut total: usize = 0;
    let mut i: usize = 0;
    while i < s.len()
        invariant
            i <= s.len(),
            total == utf8_len(s@.take(i as int)),
            total <= limit,
        decreases s.len() - i,
    {
        proof {
            assert(s@.take(i as int + 1) =~= s@.take(i as int).push(s@[i as int]));
            lemma_utf8_len_push(s@.take(i as int), s@[i as int]);
        }
        let w = char_utf8_width(s[i]);
        if w > limit - total {
            proof {
                assert(s@ =~= s@.take(i as int + 1) + s@.skip(i as int + 1));
                lemma_utf8_len_concat(s@.take(i as int + 1), s@.skip(i as int + 1));
            }
            return true;
        }
        total = total + w;
        i = i + 1;
    }
    assert(s@.take(i as int) =~= s@);
    false
}

/// Byte length of the UTF-8 encoding of `s`.
pub fn utf8_byte_len(s: &Vec<char>) -> (n: usize)
    requires
        utf8_len(s@) <= usize::MAX,
    ensures
        n == utf8_len(s@),
{
    let mut total: usize = 0;
    let mut i: usize = 0;
    while i < s.len()
        invariant
            i <= s.len(),
            total == utf8_len(s@.take(i as int)),
            utf8_len(s@) <= usize::MAX,
        decreases s.len() - i,
    {
        proof {
            assert(s@.take(i as int + 1) =~= s@.take(i as int).push(s@[i as int]));
            lemma_utf8_len_push(s@.take(i as int), s@[i as int]);
            assert(s@ =~= s@.take(i as int + 1) + s@.skip(i as int + 1));
            lemma_utf8_len_concat(s@.take(i as int + 1), s@.skip(i as int + 1));
        }
        let w = char_utf8_width(s[i]);
        total = total + w;
        i = i + 1;
    }
    assert(s@.take(i as int) =~= s@);
    total
}

// ---------------------------------------------------------------------------
// Searching
// ---------------------------------------------------------------------------

/// `pat` occurs in `s` starting at index `i`.
pub open spec fn occurs_at(s: Seq<char>, pat: Seq<char>, i: int) -> bool {
    0 <= i && i + pat.len() <= s.len() && s.subrange(i, i + pat.len()) == pat
}

/// The first index `i >= from` at which `pat` occurs in `s`.
pub open spec fn find_from(s: Seq<char>, pat: Seq<char>, from: int) -> Option<int>
    decreases s.len() + 1 - from,
{
    if from < 0 || from + pat.len() > s.len() {
        None
    } else if occurs_at(s, pat, from) {
        Some(from)
    } else {
        find_from(s, pat, from + 1)
    }
}

/// The first index at which `pat` occurs in `s` (`str::find`).
pub open spec fn find(s: Seq<char>, pat: Seq<char>) -> Option<int> {
    find_from(s, pat, 0)
}

/// `str::contains`.
pub open spec fn contains(s: Seq<char>, pat: Seq<char>) -> bool {
    find(s, pat) is Some
}

/// The last index `i <= hi` at which `pat` occurs in `s`.
pub open spec fn rfind_upto(s: Seq<char>, pat: Seq<char>, hi: int) -> Option<int>
    decreases hi + 1,
{
    if hi < 0 {
        None
    } else if occurs_at(s, pat, hi) {
        Some(hi)
    } else {
        rfind_upto(s, pat, hi - 1)
    }
}

/// The last index at which `pat` occurs in `s` (`str::rfind`).
pub open spec fn rfind(s: Seq<char>, pat: Seq<char>) -> Option<int> {
    rfind_upto(s, pat, s.len() - pat.len())
}

/// The first index `i >= from` at which the character `c` occurs.
pub open spec fn find_char_from(s: Seq<char>, c: char, from: int) -> Option<int> {
    find_from(s, seq![c], from)
}

pub proof fn lemma_find_from_props(s: Seq<char>, pat: Seq<char>, from: int)
    requires
        0 <= from,
    ensures
        match find_from(s, pat, from) {
            Some(i) => from <= i && occurs_at(s, pat, i) && forall|j: int|
                from <= j < i ==> !occurs_at(s, pat, j),
            None => forall|j: int| from <= j ==> !occurs_at(s, pat, j),
        },
    decreases s.len() + 1 - from,
{
    if from + pat.len() > s.len() {
    } else if occurs_at(s, pat, from) {
    } else {
        lemma_find_from_props(s, pat, from + 1);
    }
}

/// A match in `p` is still the first match once `q` follows `p`.
pub proof fn lemma_find_from_extend(p: Seq<char>, q: Seq<char>, pat: Seq<char>, from: int)
    requires
        0 <= from,
    ensures
        find_from(p, pat, from) matches Some(i) ==> find_from(p + q, pat, from) == Some(i),
    decreases p.len() + 1 - from,
{
    if from + pat.len() <= p.len() {
        assert((p + q).subrange(from, from + pat.len()) =~= p.subrange(from, from + pat.len()));
        if !occurs_at(p, pat, from) {
            lemma_find_from_extend(p, q, pat, from + 1);
        }
    }
}

/// `s` from index `from` on, with every occurrence of `pat` (taken from
/// left to right, without overlap) replaced by `rep`.
pub open spec fn replace_from(s: Seq<char>, pat: Seq<char>, rep: Seq<char>, from: int) -> Seq<char>
    decreases s.len() + 1 - from,
{
    if from < 0 || pat.len() == 0 {
        s
    } else {
        match find_from(s, pat, from) {
            None => s.subrange(from, s.len() as int),
            Some(i) => {
                proof {
                    lemma_find_from_props(s, pat, from);
                }
                s.subrange(from, i) + rep + replace_from(s, pat, rep, i + pat.len())
            },
        }
    }
}

/// `str::replace` for a non-empty pattern: every occurrence of `pat`,
/// taken from left to right without overlap, replaced by `rep`.
pub open spec fn replace_all(s: Seq<char>, pat: Seq<char>, rep: Seq<char>) -> Seq<char> {
    replace_from(s, pat, rep, 0)
}

/// `str::replace` (see [`replace_all`]).
pub fn replace_chars(s: &Vec<char>, pat: &Vec<char>, rep: &Vec<char>) -> (r: Vec<char>)
    requires
        pat@.len() > 0,
    ensures
        r@ == replace_all(s@, pat@, rep@),
{
    let mut out: Vec<char> = Vec::new();
    let mut from: usize = 0;
    loop
        invariant
            from <= s@.len(),
            pat@.len() > 0,
            replace_all(s@, pat@, rep@) == out@ + replace_from(s@, pat@, rep@, from as int),
        decreases s@.len() + 1 - from,
    {
        match find_chars_from(s, pat, from) {
            None => {
                let tail = slice_chars(s, from, s.len());
                push_all(&mut out, &tail);
                return out;
            },
            Some(i) => {
                let n = s.len();
                assert(i + pat@.len() <= n);
                let next: usize = i + pat.len();
                proof {
                    lemma_find_from_props(s@, pat@, from as int);
                }
                let part = slice_chars(s, from, i);
                let ghost before = out@;
                push_all(&mut out, &part);
                push_all(&mut out, rep);
                assert(before + (s@.subrange(from as int, i as int) + rep@ + replace_from(
                    s@,
                    pat@,
                    rep@,
                    i + pat@.len(),
                )) =~= out@ + replace_from(s@, pat@, rep@, i + pat@.len()));
                from = next;
            },
        }
    }
}

/// `str::replace` on strings (see [`replace_all`]).
pub fn replace_str(s: &str, pat: &str, rep: &str) -> (r: String)
    requires
        pat@.len() > 0,
    ensures
        r@ == replace_all(s@, pat@, rep@),
{
    string_of(&replace_chars(&chars_of(s), &chars_of(pat), &chars_of(rep)))
}

/// Whether `pat` occurs in `s` at index `i`.
pub fn matches_at(s: &Vec<char>, pat: &Vec<char>, i: usize) -> (r: bool)
    ensures
        r == occurs_at(s@, pat@, i as int),
{
    if i > s.len() || pat.len() > s.len() - i {
        return false;
    }
    let mut k: usize = 0;
    while k < pat.len()
        invariant
            k <= pat.len(),
            i + pat.len() <= s.len(),
            forall|t: int| 0 <= t < k ==> s@[i + t] == pat@[t],
        decreases pat.len() - k,
    {
        if s[i + k] != pat[k] {
            assert(s@.subrange(i as int, i + pat.len())[k as int] != pat@[k as int]);
            return false;
        }
        k = k + 1;
    }
    assert(s@.subrange(i as int, i + pat.len()) =~= pat@);
    true
}

/// `str::find` starting at character index `from`.
pub fn find_chars_from(s: &Vec<char>, pat: &Vec<char>, from: usize) -> (r: Option<usize>)
    ensures
        match r {
            Some(i) => find_from(s@, pat@, from as int) == Some(i as int),
            None => find_from(s@, pat@, from as int) is None,
        },
        r matches Some(i) ==> from <= i && i + pat@.len() <= s@.len() && occurs_at(s@, pat@, i as int),
{
    let mut i = from;
    while i <= s.len() && pat.len() <= s.len() - i
        invariant
            from <= i,
            find_from(s@, pat@, from as int) == find_from(s@, pat@, i as int),
        decreases s.len() + 1 - i,
    {
        if matches_at(s, pat, i) {
            return Some(i);
        }
        if i == s.len() {
            assert(find_from(s@, pat@, i as int + 1) is None);
            return None;
        }
        i = i + 1;
    }
    None
}

/// `str::find`.
pub fn find_chars(s: &Vec<char>, pat: &Vec<char>) -> (r: Option<usize>)
    ensures
        match r {
            Some(i) => find(s@, pat@) == Some(i as int),
            None => find(s@, pat@) is None,
        },
        r matches Some(i) ==> i + pat@.len() <= s@.len() && occurs_at(s@, pat@, i as int),
{
    find_chars_from(s, pat, 0)
}

/// `str::rfind`.
pub fn rfind_chars(s: &Vec<char>, pat: &Vec<char>) -> (r: Option<usize>)
    ensures
        match r {
            Some(i) => rfind(s@, pat@) == Some(i as int),
            None => rfind(s@, pat@) is None,
        },
        r matches Some(i) ==> i + pat@.len() <= s@.len() && occurs_at(s@, pat@, i as int),
{
    if pat.len() > s.len() {
        return None;
    }
    let mut i = s.len() - pat.len();
    loop
        invariant
            i <= s.len() - pat.len(),
            pat.len() <= s.len(),
            rfind(s@, pat@) == rfind_upto(s@, pat@, i as int),
        decreases i,
    {
        if matches_at(s, pat, i) {
            return Some(i);
        }
        if i == 0 {
            assert(rfind_upto(s@, pat@, -1) is None);
            return None;
        }
        i = i - 1;
    }
}

/// The characters `s[lo..hi]`.
pub fn slice_chars(s: &Vec<char>, lo: usize, hi: usize) -> (r: Vec<char>)
    requires
        lo <= hi <= s.len(),
    ensures
        r@ == s@.subrange(lo as int, hi as int),
{
    let mut r: Vec<char> = Vec::new();
    let mut i = lo;
    while i < hi
        invariant
            lo <= i <= hi,
            hi <= s.len(),
            r@ == s@.subrange(lo as int, i as int),
        decreases hi - i,
    {
        r.push(s[i]);
        i = i + 1;
        assert(r@ =~= s@.subrange(lo as int, i as int));
    }
    r
}

/// Appends the characters of `b` to `a`.
pub fn push_all(a: &mut Vec<char>, b: &Vec<char>)
    ensures
        final(a)@ == old(a)@ + b@,
{
    let mut i: usize = 0;
    while i < b.len()
        invariant
            i <= b.len(),
            a@ == old(a)@ + b@.take(i as int),
        decreases b.len() - i,
    {
        a.push(b[i]);
        i = i + 1;
        assert(a@ =~= old(a)@ + b@.take(i as int));
    }
    assert(b@.take(i as int) =~= b@);
}

/// The concatenation `a + b`.
pub fn concat_chars(a: &Vec<char>, b: &Vec<char>) -> (r: Vec<char>)
    ensures
        r@ == a@ + b@,
{
    let mut r = slice_chars(a, 0, a.len());
    assert(a@.subrange(0, a@.len() as int) =~= a@);
    push_all(&mut r, b);
    r
}

/// Whether `a` and `b` hold the same characters.
pub fn chars_eq(a: &Vec<char>, b: &Vec<char>) -> (r: bool)
    ensures
        r == (a@ == b@),
{
    if a.len() != b.len() {
        return false;
    }
    let mut i: usize = 0;
    while i < a.len()
        invariant
            i <= a.len(),
            a.len() == b.len(),
            forall|t: int| 0 <= t < i ==> a@[t] == b@[t],
        decreases a.len() - i,
    {
        if a[i] != b[i] {
            return false;
        }
        i = i + 1;
    }
    assert(a@ =~= b@);
    true
}

// ---------------------------------------------------------------------------
// Prefixes, suffixes and trimming
// ---------------------------------------------------------------------------

/// `str::starts_with`.
pub open spec fn starts_with(s: Seq<char>, pat: Seq<char>) -> bool {
    pat.len() <= s.len() && s.subrange(0, pat.len() as int) == pat
}

/// `str::ends_with`.
pub open spec fn ends_with(s: Seq<char>, pat: Seq<char>) -> bool {
    pat.len() <= s.len() && s.subrange(s.len() - pat.len(), s.len() as int) == pat
}

pub fn starts_with_chars(s: &Vec<char>, pat: &Vec<char>) -> (r: bool)
    ensures
        r == starts_with(s@, pat@),
{
    matches_at(s, pat, 0)
}

pub fn ends_with_chars(s: &Vec<char>, pat: &Vec<char>) -> (r: bool)
    ensures
        r == ends_with(s@, pat@),
{
    if pat.len() > s.len() {
        return false;
    }
    matches_at(s, pat, s.len() - pat.len())
}

/// `str::trim_start`: drops leading Unicode whitespace.
pub open spec fn trim_start(s: Seq<char>) -> Seq<char>
    decreases s.len(),
{
    if s.len() > 0 && unicode_whitespace(s[0]) {
        trim_start(s.drop_first())
    } else {
        s
    }
}

/// `str::trim_end`: drops trailing Unicode whitespace.
pub open spec fn trim_end(s: Seq<char>) -> Seq<char>
    decreases s.len(),
{
    if s.len() > 0 && unicode_whitespace(s.last()) {
        trim_end(s.drop_last())
    } else {
        s
    }
}

/// `str::trim`.
pub open spec fn trim(s: Seq<char>) -> Seq<char> {
    trim_end(trim_start(s))
}

/// Index of the first non-whitespace character of `s[from..]`, or `s.len()`.
pub open spec fn skip_ws_from(s: Seq<char>, from: int) -> int
    decreases s.len() - from,
{
    if from < s.len() && unicode_whitespace(s[from]) {
        skip_ws_from(s, from + 1)
    } else {
        from
    }
}

pub proof fn lemma_trim_start_skip(s: Seq<char>, from: int)
    requires
        0 <= from <= s.len(),
    ensures
        from <= skip_ws_from(s, from) <= s.len(),
        trim_start(s.subrange(from, s.len() as int)) == s.subrange(skip_ws_from(s, from), s.len() as int),
    decreases s.len() - from,
{
    let t = s.subrange(from, s.len() as int);
    if from < s.len() && unicode_whitespace(s[from]) {
        assert(t.drop_first() =~= s.subrange(from + 1, s.len() as int));
        lemma_trim_start_skip(s, from + 1);
    }
}

/// Index one past the last non-whitespace character of `s[..to]`, or 0.
pub open spec fn skip_ws_back(s: Seq<char>, to: int) -> int
    decreases to,
{
    if 0 < to <= s.len() && unicode_whitespace(s[to - 1]) {
        skip_ws_back(s, to - 1)
    } else {
        to
    }
}

pub proof fn lemma_trim_end_skip(s: Seq<char>, to: int)
    requires
        0 <= to <= s.len(),
    ensures
        0 <= skip_ws_back(s, to) <= to,
        trim_end(s.subrange(0, to)) == s.subrange(0, skip_ws_back(s, to)),
    decreases to,
{
    let t = s.subrange(0, to);
    if 0 < to && unicode_whitespace(s[to - 1]) {
        assert(t.drop_last() =~= s.subrange(0, to - 1));
        lemma_trim_end_skip(s, to - 1);
    }
}

pub proof fn lemma_trim_start_len(s: Seq<char>)
    ensures
        trim_start(s).len() <= s.len(),
    decreases s.len(),
{
    if s.len() > 0 && unicode_whitespace(s[0]) {
        lemma_trim_start_len(s.drop_first());
    }
}

pub proof fn lemma_trim_end_len(s: Seq<char>)
    ensures
        trim_end(s).len() <= s.len(),
    decreases s.len(),
{
    if s.len() > 0 && unicode_whitespace(s.last()) {
        lemma_trim_end_len(s.drop_last());
    }
}

pub proof fn lemma_trim_len(s: Seq<char>)
    ensures
        trim(s).len() <= s.len(),
{
    lemma_trim_start_len(s);
    lemma_trim_end_len(trim_start(s));
}

/// `s[from..]` with leading Unicode whitespace removed.
pub fn trim_start_from(s: &Vec<char>, from: usize) -> (r: Vec<char>)
    requires
        from <= s.len(),
    ensures
        r@ == trim_start(s@.subrange(from as int, s@.len() as int)),
{
    let mut a = from;
    while a < s.len() && char_is_whitespace(s[a])
        invariant
            from <= a <= s.len(),
            skip_ws_from(s@, from as int) == skip_ws_from(s@, a as int),
        decreases s.len() - a,
    {
        a = a + 1;
    }
    proof {
        lemma_trim_start_skip(s@, from as int);
    }
    slice_chars(s, a, s.len())
}

/// `s[lo..hi]` with surrounding Unicode whitespace removed.
pub fn trim_range(s: &Vec<char>, lo: usize, hi: usize) -> (r: Vec<char>)
    requires
        lo <= hi <= s.len(),
    ensures
        r@ == trim(s@.subrange(lo as int, hi as int)),
{
    let ghost t = s@.subrange(lo as int, hi as int);
    let mut a = lo;
    while a < hi && char_is_whitespace(s[a])
        invariant
            lo <= a <= hi,
            hi <= s.len(),
            t == s@.subrange(lo as int, hi as int),
            skip_ws_from(t, 0) == skip_ws_from(t, a - lo),
        decreases hi - a,
    {
        assert(t[a - lo] == s@[a as int]);
        a = a + 1;
    }
    proof {
        if a < hi {
            assert(t[a - lo] == s@[a as int]);
        }
        assert(skip_ws_from(t, a - lo) == a - lo);
        lemma_trim_start_skip(t, 0);
        assert(t.subrange(0, t.len() as int) =~= t);
    }
    let ghost u = t.subrange(a - lo, t.len() as int);
    assert(trim_start(t) == u);
    let mut b = hi;
    while b > a && char_is_whitespace(s[b - 1])
        invariant
            a <= b <= hi,
            hi <= s.len(),
            lo <= a,
            u == s@.subrange(a as int, hi as int),
            skip_ws_back(u, u.len() as int) == skip_ws_back(u, b - a),
        decreases b,
    {
        assert(u[b - a - 1] == s@[b - 1]);
        b = b - 1;
    }
    proof {
        if b > a {
            assert(u[b - a - 1] == s@[b - 1]);
        }
        assert(skip_ws_back(u, b - a) == b - a);
        lemma_trim_end_skip(u, u.len() as int);
        assert(u.subrange(0, u.len() as int) =~= u);
        assert(u.subrange(0, b - a) =~= s@.subrange(a as int, b as int));
    }
    slice_chars(s, a, b)
}

/// `str::trim`.
pub fn trim_chars(s: &Vec<char>) -> (r: Vec<char>)
    ensures
        r@ == trim(s@),
{
    assert(s@.subrange(0, s@.len() as int) =~= s@);
    trim_range(s, 0, s.len())
}

/// Whether two strings hold the same characters.
pub fn str_eq(a: &str, b: &str) -> (r: bool)
    ensures
        r == (a@ == b@),
{
    chars_eq(&chars_of(a), &chars_of(b))
}

/// A copy of `s`.
pub fn copy_string(s: &String) -> (r: String)
    ensures
        r@ == s@,
{
    s.clone()
}

/// The concatenation of `a` and `b`.
pub fn str_concat(a: &str, b: &str) -> (r: String)
    ensures
        r@ == a@ + b@,
{
    string_of(&concat_chars(&chars_of(a), &chars_of(b)))
}

/// `str::to_string`.
pub fn to_owned_string(s: &str) -> (r: String)
    ensures
        r@ == s@,
{
    string_of(&chars_of(s))
}

// ---------------------------------------------------------------------------
// Joining and cutting
// ---------------------------------------------------------------------------

/// The views of a sequence of strings.
pub open spec fn strings_view(v: Seq<String>) -> Seq<Seq<char>> {
    v.map_values(|s: String| s@)
}

/// `[T]::join(sep)` on strings: the parts with `sep` between consecutive ones.
pub open spec fn join(parts: Seq<Seq<char>>, sep: Seq<char>) -> Seq<char>
    decreases parts.len(),
{
    if parts.len() == 0 {
        Seq::empty()
    } else if parts.len() == 1 {
        parts[0]
    } else {
        join(parts.drop_last(), sep) + sep + parts.last()
    }
}

/// The parts concatenated.
pub open spec fn concat_all(parts: Seq<Seq<char>>) -> Seq<char>
    decreases parts.len(),
{
    if parts.len() == 0 {
        Seq::empty()
    } else {
        concat_all(parts.drop_last()) + parts.last()
    }
}

/// `parts.join(sep)`.
pub fn join_strings(parts: &Vec<String>, sep: &str) -> (r: String)
    ensures
        r@ == join(strings_view(parts@), sep@),
{
    let sepc = chars_of(sep);
    let mut out: Vec<char> = Vec::new();
    let mut i: usize = 0;
    while i < parts.len()
        invariant
            i <= parts@.len(),
            sepc@ == sep@,
            out@ == join(strings_view(parts@.take(i as int)), sep@),
        decreases parts.len() - i,
    {
        let ghost before = strings_view(parts@.take(i as int));
        assert(strings_view(parts@.take(i + 1)).drop_last() =~= before);
        assert(strings_view(parts@.take(i + 1)).last() == parts@[i as int]@);
        if i > 0 {
            push_all(&mut out, &sepc);
        }
        push_all(&mut out, &chars_of(parts[i].as_str()));
        i = i + 1;
        proof {
            if i == 1 {
                assert(before.len() == 0);
                assert(out@ =~= strings_view(parts@.take(i as int))[0]);
            }
        }
    }
    assert(parts@.take(parts@.len() as int) =~= parts@);
    string_of(&out)
}

/// `parts.concat()`.
pub fn concat_strings(parts: &Vec<String>) -> (r: String)
    ensures
        r@ == concat_all(strings_view(parts@)),
{
    let mut out: Vec<char> = Vec::new();
    let mut i: usize = 0;
    while i < parts.len()
        invariant
            i <= parts@.len(),
            out@ == concat_all(strings_view(parts@.take(i as int))),
        decreases parts.len() - i,
    {
        assert(strings_view(parts@.take(i + 1)).drop_last() =~= strings_view(parts@.take(i as int)));
        push_all(&mut out, &chars_of(parts[i].as_str()));
        i = i + 1;
    }
    assert(parts@.take(parts@.len() as int) =~= parts@);
    string_of(&out)
}

/// The prefix of `s` whose UTF-8 encoding is exactly `n` bytes long: what
/// `&s[..n]` returns; `None` when byte `n` falls inside a character (the
/// slice panics) or past the end.
pub open spec fn byte_prefix(s: Seq<char>, n: int) -> Option<Seq<char>>
    decreases s.len(),
{
    if n == 0 {
        Some(Seq::empty())
    } else if n < 0 || s.len() == 0 {
        None
    } else if char_utf8_len(s[0]) <= n {
        match byte_prefix(s.drop_first(), n - char_utf8_len(s[0])) {
            Some(p) => Some(seq![s[0]] + p),
            None => None,
        }
    } else {
        None
    }
}

/// `&s[..n]` on characters, `None` where the slice would panic.
pub fn byte_prefix_chars(s: &Vec<char>, n: usize) -> (r: Option<Vec<char>>)
    ensures
        match r {
            Some(p) => byte_prefix(s@, n as int) == Some(p@),
            None => byte_prefix(s@, n as int) is None,
        },
{
    let mut i: usize = 0;
    let mut total: usize = 0;
    assert(s@.skip(0) =~= s@);
    proof {
        match byte_prefix(s@, n as int) {
            Some(p) => {
                assert(s@.take(0) + p =~= p);
            },
            None => {},
        }
    }
    while total < n && i < s.len()
        invariant
            i <= s.len(),
            total <= n,
            byte_prefix(s@, n as int) == match byte_prefix(s@.skip(i as int), n - total) {
                Some(p) => Some(s@.take(i as int) + p),
                None => None::<Seq<char>>,
            },
        decreases s.len() - i,
    {
        let w = char_utf8_width(s[i]);
        let ghost t = s@.skip(i as int);
        assert(t[0] == s@[i as int]);
        assert(t.drop_first() =~= s@.skip(i + 1));
        if w > n - total {
            return None;
        }
        proof {
            match byte_prefix(s@.skip(i + 1), n - total - w) {
                Some(p) => {
                    assert(s@.take(i as int) + (seq![s@[i as int]] + p) =~= s@.take(i + 1) + p);
                },
                None => {},
            }
        }
        total = total + w;
        i = i + 1;
    }
    if total == n {
        assert(s@.take(i as int) + Seq::<char>::empty() =~= s@.take(i as int));
        Some(slice_chars(s, 0, i))
    } else {
        None
    }
}

} // verus!
