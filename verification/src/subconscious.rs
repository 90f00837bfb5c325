//! The text side of the "subconscious" recall: the query terms drawn from a
//! user message, the re-match of property values against them, and the
//! memory-context block that lists the entities recalled.
use vstd::prelude::*;
use crate::json::{Json, JsonValue, get_str_spec, as_str_spec, json_parse, parse_json, json_get_str,
    json_as_str, items_view};
use crate::text::{
    trim, join, strings_view, contains, unicode_whitespace, unicode_alphanumeric, unicode_uppercase,
    unicode_lowercase, is_ascii_digit, chars_of, string_of, push_all, copy_string, join_strings,
    trim_chars, str_eq, char_is_whitespace, char_is_alphanumeric, char_is_uppercase,
    char_to_lowercase, slice_chars, find_chars, to_owned_string, rfind, rfind_chars,
};

verus! {

/// Short words (three characters at most) with no value for search, in
/// Portuguese, English and Spanish.
pub open spec fn is_stopword(w: Seq<char>) -> bool {
    w == "com"@
    || w == "por"@
    || w == "dos"@
    || w == "das"@
    || w == "nos"@
    || w == "nas"@
    || w == "num"@
    || w == "dum"@
    || w == "pra"@
    || w == "pro"@
    || w == "mas"@
    || w == "nem"@
    || w == "que"@
    || w == "ele"@
    || w == "ela"@
    || w == "seu"@
    || w == "sua"@
    || w == "lhe"@
    || w == "nós"@
    || w == "vai"@
    || w == "vou"@
    || w == "tem"@
    || w == "ter"@
    || w == "ser"@
    || w == "foi"@
    || w == "era"@
    || w == "são"@
    || w == "dão"@
    || w == "hei"@
    || w == "diz"@
    || w == "sim"@
    || w == "ora"@
    || w == "bem"@
    || w == "aí"@
    || w == "eis"@
    || w == "uns"@
    || w == "the"@
    || w == "all"@
    || w == "any"@
    || w == "few"@
    || w == "own"@
    || w == "and"@
    || w == "but"@
    || w == "nor"@
    || w == "yet"@
    || w == "for"@
    || w == "via"@
    || w == "per"@
    || w == "she"@
    || w == "her"@
    || w == "him"@
    || w == "his"@
    || w == "its"@
    || w == "our"@
    || w == "are"@
    || w == "was"@
    || w == "has"@
    || w == "had"@
    || w == "did"@
    || w == "can"@
    || w == "may"@
    || w == "let"@
    || w == "got"@
    || w == "put"@
    || w == "set"@
    || w == "run"@
    || w == "get"@
    || w == "not"@
    || w == "too"@
    || w == "how"@
    || w == "why"@
    || w == "who"@
    || w == "yes"@
    || w == "now"@
    || w == "new"@
    || w == "old"@
    || w == "etc"@
    || w == "los"@
    || w == "las"@
    || w == "del"@
    || w == "una"@
    || w == "uno"@
    || w == "con"@
    || w == "sin"@
    || w == "sus"@
    || w == "mis"@
    || w == "tus"@
    || w == "les"@
    || w == "ese"@
    || w == "esa"@
    || w == "eso"@
    || w == "fue"@
    || w == "hay"@
    || w == "son"@
    || w == "han"@
    || w == "así"@
    || w == "aún"@
    || w == "más"@
    || w == "muy"@
    || w == "tan"@
    || w == "tal"@
}

/// Whether `w` is one of the stopwords.
pub fn stopword_check(w: &str) -> (r: bool)
    ensures
        r == is_stopword(w@),
{
    str_eq(w, "com")
    || str_eq(w, "por")
    || str_eq(w, "dos")
    || str_eq(w, "das")
    || str_eq(w, "nos")
    || str_eq(w, "nas")
    || str_eq(w, "num")
    || str_eq(w, "dum")
    || str_eq(w, "pra")
    || str_eq(w, "pro")
    || str_eq(w, "mas")
    || str_eq(w, "nem")
    || str_eq(w, "que")
    || str_eq(w, "ele")
    || str_eq(w, "ela")
    || str_eq(w, "seu")
    || str_eq(w, "sua")
    || str_eq(w, "lhe")
    || str_eq(w, "nós")
    || str_eq(w, "vai")
    || str_eq(w, "vou")
    || str_eq(w, "tem")
    || str_eq(w, "ter")
    || str_eq(w, "ser")
    || str_eq(w, "foi")
    || str_eq(w, "era")
    || str_eq(w, "são")
    || str_eq(w, "dão")
    || str_eq(w, "hei")
    || str_eq(w, "diz")
    || str_eq(w, "sim")
    || str_eq(w, "ora")
    || str_eq(w, "bem")
    || str_eq(w, "aí")
    || str_eq(w, "eis")
    || str_eq(w, "uns")
    || str_eq(w, "the")
    || str_eq(w, "all")
    || str_eq(w, "any")
    || str_eq(w, "few")
    || str_eq(w, "own")
    || str_eq(w, "and")
    || str_eq(w, "but")
    || str_eq(w, "nor")
    || str_eq(w, "yet")
    || str_eq(w, "for")
    || str_eq(w, "via")
    || str_eq(w, "per")
    || str_eq(w, "she")
    || str_eq(w, "her")
    || str_eq(w, "him")
    || str_eq(w, "his")
    || str_eq(w, "its")
    || str_eq(w, "our")
    || str_eq(w, "are")
    || str_eq(w, "was")
    || str_eq(w, "has")
    || str_eq(w, "had")
    || str_eq(w, "did")
    || str_eq(w, "can")
    || str_eq(w, "may")
    || str_eq(w, "let")
    || str_eq(w, "got")
    || str_eq(w, "put")
    || str_eq(w, "set")
    || str_eq(w, "run")
    || str_eq(w, "get")
    || str_eq(w, "not")
    || str_eq(w, "too")
    || str_eq(w, "how")
    || str_eq(w, "why")
    || str_eq(w, "who")
    || str_eq(w, "yes")
    || str_eq(w, "now")
    || str_eq(w, "new")
    || str_eq(w, "old")
    || str_eq(w, "etc")
    || str_eq(w, "los")
    || str_eq(w, "las")
    || str_eq(w, "del")
    || str_eq(w, "una")
    || str_eq(w, "uno")
    || str_eq(w, "con")
    || str_eq(w, "sin")
    || str_eq(w, "sus")
    || str_eq(w, "mis")
    || str_eq(w, "tus")
    || str_eq(w, "les")
    || str_eq(w, "ese")
    || str_eq(w, "esa")
    || str_eq(w, "eso")
    || str_eq(w, "fue")
    || str_eq(w, "hay")
    || str_eq(w, "son")
    || str_eq(w, "han")
    || str_eq(w, "así")
    || str_eq(w, "aún")
    || str_eq(w, "más")
    || str_eq(w, "muy")
    || str_eq(w, "tan")
    || str_eq(w, "tal")
}

// ---------------------------------------------------------------------------
// Splitting
// ---------------------------------------------------------------------------

/// A character that ends a chunk of a message.
pub open spec fn is_chunk_sep(c: char) -> bool {
    c == '.' || c == '!' || c == '?' || c == '\n' || c == ';' || c == ','
}

/// `str::split(sep)`: the pieces between separator characters, empty pieces
/// included (there is always at least one).
pub open spec fn split_pieces(s: Seq<char>, sep: spec_fn(char) -> bool) -> Seq<Seq<char>>
    decreases s.len(),
{
    if s.len() == 0 {
        seq![Seq::empty()]
    } else {
        let r = split_pieces(s.drop_last(), sep);
        if sep(s.last()) {
            r.push(Seq::empty())
        } else {
            r.update(r.len() - 1, r.last().push(s.last()))
        }
    }
}

pub proof fn lemma_split_pieces_nonempty(s: Seq<char>, sep: spec_fn(char) -> bool)
    ensures
        split_pieces(s, sep).len() >= 1,
    decreases s.len(),
{
    if s.len() > 0 {
        lemma_split_pieces_nonempty(s.drop_last(), sep);
    }
}

/// The trimmed pieces, empty ones dropped.
pub open spec fn trimmed_nonempty(pieces: Seq<Seq<char>>) -> Seq<Seq<char>>
    decreases pieces.len(),
{
    if pieces.len() == 0 {
        Seq::empty()
    } else if trim(pieces.last()).len() > 0 {
        trimmed_nonempty(pieces.drop_last()).push(trim(pieces.last()))
    } else {
        trimmed_nonempty(pieces.drop_last())
    }
}

/// The pieces that are not empty.
pub open spec fn nonempty_pieces(pieces: Seq<Seq<char>>) -> Seq<Seq<char>>
    decreases pieces.len(),
{
    if pieces.len() == 0 {
        Seq::empty()
    } else if pieces.last().len() > 0 {
        nonempty_pieces(pieces.drop_last()).push(pieces.last())
    } else {
        nonempty_pieces(pieces.drop_last())
    }
}

/// `split_into_chunks`: the message cut at `. ! ? ; ,` and line breaks, each
/// piece trimmed, empty pieces dropped.
pub open spec fn chunks_spec(content: Seq<char>) -> Seq<Seq<char>> {
    trimmed_nonempty(split_pieces(content, |c: char| is_chunk_sep(c)))
}

/// `str::split_whitespace`: the maximal runs of non-whitespace characters.
pub open spec fn words(s: Seq<char>) -> Seq<Seq<char>> {
    nonempty_pieces(split_pieces(s, |c: char| unicode_whitespace(c)))
}

/// Splits a message into chunks at sentence and clause boundaries.
pub fn split_into_chunks(content: &str) -> (r: Vec<String>)
    ensures
        strings_view(r@) == chunks_spec(content@),
{
    let s = chars_of(content);
    let ghost sep = |c: char| is_chunk_sep(c);
    let mut out: Vec<String> = Vec::new();
    let mut cur: Vec<char> = Vec::new();
    let mut i: usize = 0;
    assert(s@.take(0) =~= Seq::<char>::empty());
    assert(strings_view(out@) =~= Seq::<Seq<char>>::empty());
    while i < s.len()
        invariant
            i <= s@.len(),
            sep == (|c: char| is_chunk_sep(c)),
            cur@ == split_pieces(s@.take(i as int), sep).last(),
            split_pieces(s@.take(i as int), sep).len() >= 1,
            strings_view(out@) == trimmed_nonempty(split_pieces(s@.take(i as int), sep).drop_last()),
        decreases s.len() - i,
    {
        let ghost p = split_pieces(s@.take(i as int), sep);
        assert(s@.take(i + 1).drop_last() =~= s@.take(i as int));
        assert(s@.take(i + 1).last() == s@[i as int]);
        let c = s[i];
        if c == '.' || c == '!' || c == '?' || c == '\n' || c == ';' || c == ',' {
            let t = trim_chars(&cur);
            if t.len() > 0 {
                out.push(string_of(&t));
            }
            cur = Vec::new();
            proof {
                let p2 = split_pieces(s@.take(i + 1), sep);
                assert(p2 == p.push(Seq::<char>::empty()));
                assert(p2.drop_last() =~= p);
                assert(p.drop_last().push(p.last()) =~= p);
                assert(strings_view(out@) =~= trimmed_nonempty(p2.drop_last()));
                assert(cur@ =~= p2.last());
            }
        } else {
            cur.push(c);
            proof {
                let p2 = split_pieces(s@.take(i + 1), sep);
                assert(p2 == p.update(p.len() - 1, p.last().push(c)));
                assert(p2.drop_last() =~= p.drop_last());
            }
        }
        i = i + 1;
    }
    proof {
        assert(s@.take(s@.len() as int) =~= s@);
        let p = split_pieces(s@, sep);
        assert(p.drop_last().push(p.last()) =~= p);
    }
    let t = trim_chars(&cur);
    if t.len() > 0 {
        out.push(string_of(&t));
    }
    out
}

/// `str::split_whitespace`.
pub fn words_of(s: &Vec<char>) -> (r: Vec<Vec<char>>)
    ensures
        r@.map_values(|w: Vec<char>| w@) == words(s@),
{
    let ghost sep = |c: char| unicode_whitespace(c);
    let mut out: Vec<Vec<char>> = Vec::new();
    let mut cur: Vec<char> = Vec::new();
    let mut i: usize = 0;
    assert(s@.take(0) =~= Seq::<char>::empty());
    assert(out@.map_values(|w: Vec<char>| w@) =~= Seq::<Seq<char>>::empty());
    while i < s.len()
        invariant
            i <= s@.len(),
            sep == (|c: char| unicode_whitespace(c)),
            cur@ == split_pieces(s@.take(i as int), sep).last(),
            split_pieces(s@.take(i as int), sep).len() >= 1,
            out@.map_values(|w: Vec<char>| w@) == nonempty_pieces(
                split_pieces(s@.take(i as int), sep).drop_last(),
            ),
        decreases s.len() - i,
    {
        let ghost p = split_pieces(s@.take(i as int), sep);
        assert(s@.take(i + 1).drop_last() =~= s@.take(i as int));
        assert(s@.take(i + 1).last() == s@[i as int]);
        let c = s[i];
        if char_is_whitespace(c) {
            let ghost before = out@;
            if cur.len() > 0 {
                out.push(cur);
                assert(out@.map_values(|w: Vec<char>| w@) =~= before.map_values(|w: Vec<char>| w@).push(p.last()));
            }
            cur = Vec::new();
            proof {
                let p2 = split_pieces(s@.take(i + 1), sep);
                assert(p2 == p.push(Seq::<char>::empty()));
                assert(p2.drop_last() =~= p);
                assert(p.drop_last().push(p.last()) =~= p);
                assert(out@.map_values(|w: Vec<char>| w@) =~= nonempty_pieces(p2.drop_last()));
                assert(cur@ =~= p2.last());
            }
        } else {
            cur.push(c);
            proof {
                let p2 = split_pieces(s@.take(i + 1), sep);
                assert(p2 == p.update(p.len() - 1, p.last().push(c)));
                assert(p2.drop_last() =~= p.drop_last());
            }
        }
        i = i + 1;
    }
    proof {
        assert(s@.take(s@.len() as int) =~= s@);
        let p = split_pieces(s@, sep);
        assert(p.drop_last().push(p.last()) =~= p);
    }
    let ghost before = out@;
    if cur.len() > 0 {
        out.push(cur);
        assert(out@.map_values(|w: Vec<char>| w@) =~= before.map_values(|w: Vec<char>| w@).push(
            split_pieces(s@, sep).last(),
        ));
    }
    out
}

// ---------------------------------------------------------------------------
// Query terms
// ---------------------------------------------------------------------------

/// `str::trim_matches(|c| !c.is_alphanumeric())`.
pub open spec fn trim_nonalnum_start(s: Seq<char>) -> Seq<char>
    decreases s.len(),
{
    if s.len() > 0 && !unicode_alphanumeric(s[0]) {
        trim_nonalnum_start(s.drop_first())
    } else {
        s
    }
}

pub open spec fn trim_nonalnum_end(s: Seq<char>) -> Seq<char>
    decreases s.len(),
{
    if s.len() > 0 && !unicode_alphanumeric(s.last()) {
        trim_nonalnum_end(s.drop_last())
    } else {
        s
    }
}

pub open spec fn trim_nonalnum(s: Seq<char>) -> Seq<char> {
    trim_nonalnum_end(trim_nonalnum_start(s))
}

/// The lowercase mapping of each character, concatenated.
pub open spec fn lower_chars(s: Seq<char>) -> Seq<char>
    decreases s.len(),
{
    if s.len() == 0 {
        Seq::empty()
    } else {
        lower_chars(s.drop_last()) + unicode_lowercase(s.last())
    }
}

pub open spec fn all_uppercase(s: Seq<char>) -> bool {
    forall|i: int| 0 <= i < s.len() ==> unicode_uppercase(#[trigger] s[i])
}

pub open spec fn any_ascii_digit(s: Seq<char>) -> bool {
    exists|i: int| 0 <= i < s.len() && is_ascii_digit(#[trigger] s[i])
}

/// A word kept in a search query: not empty; all uppercase (an acronym) or
/// not a stopword; at least three characters long or holding a digit.
pub open spec fn query_word(t: Seq<char>) -> bool {
    &&& t.len() > 0
    &&& all_uppercase(t) || !is_stopword(lower_chars(t))
    &&& t.len() >= 3 || any_ascii_digit(t)
}

/// The words of `ws` stripped of surrounding punctuation, those that are
/// kept in a query.
pub open spec fn query_words(ws: Seq<Seq<char>>) -> Seq<Seq<char>>
    decreases ws.len(),
{
    if ws.len() == 0 {
        Seq::empty()
    } else if query_word(trim_nonalnum(ws.last())) {
        query_words(ws.drop_last()).push(trim_nonalnum(ws.last()))
    } else {
        query_words(ws.drop_last())
    }
}

/// `extract_chunk_query`: the kept words of a chunk, separated by spaces.
pub open spec fn chunk_query(chunk: Seq<char>) -> Seq<char> {
    join(query_words(words(chunk)), " "@)
}

/// A lowercase Latin-1 letter with a diacritic folded to its base letter
/// (`ã` to `a`, `ç` to `c`); other characters unchanged.
pub open spec fn fold_char(c: char) -> char {
    let u = c as u32;
    if 0xE0 <= u <= 0xE5 {
        'a'
    } else if u == 0xE7 {
        'c'
    } else if 0xE8 <= u <= 0xEB {
        'e'
    } else if 0xEC <= u <= 0xEF {
        'i'
    } else if u == 0xF1 {
        'n'
    } else if 0xF2 <= u <= 0xF6 {
        'o'
    } else if 0xF9 <= u <= 0xFC {
        'u'
    } else if u == 0xFD || u == 0xFF {
        'y'
    } else {
        c
    }
}

pub open spec fn fold_chars(s: Seq<char>) -> Seq<char> {
    s.map_values(|c: char| fold_char(c))
}

/// `normalize_for_match`: the alphanumeric characters, lowercased, with
/// Latin-1 diacritics folded (`São Paulo` gives `saopaulo`).
pub open spec fn norm_text(s: Seq<char>) -> Seq<char>
    decreases s.len(),
{
    if s.len() == 0 {
        Seq::empty()
    } else if unicode_alphanumeric(s.last()) {
        norm_text(s.drop_last()) + fold_chars(unicode_lowercase(s.last()))
    } else {
        norm_text(s.drop_last())
    }
}

fn fold_char_of(c: char) -> (r: char)
    ensures
        r == fold_char(c),
{
    let u = c as u32;
    if 0xE0 <= u && u <= 0xE5 {
        'a'
    } else if u == 0xE7 {
        'c'
    } else if 0xE8 <= u && u <= 0xEB {
        'e'
    } else if 0xEC <= u && u <= 0xEF {
        'i'
    } else if u == 0xF1 {
        'n'
    } else if 0xF2 <= u && u <= 0xF6 {
        'o'
    } else if 0xF9 <= u && u <= 0xFC {
        'u'
    } else if u == 0xFD || u == 0xFF {
        'y'
    } else {
        c
    }
}

fn fold_chars_of(s: &Vec<char>) -> (r: Vec<char>)
    ensures
        r@ == fold_chars(s@),
{
    let mut out: Vec<char> = Vec::new();
    let mut i: usize = 0;
    while i < s.len()
        invariant
            i <= s@.len(),
            out@ == fold_chars(s@.take(i as int)),
        decreases s.len() - i,
    {
        out.push(fold_char_of(s[i]));
        i = i + 1;
        assert(out@ =~= fold_chars(s@.take(i as int)));
    }
    assert(s@.take(s@.len() as int) =~= s@);
    out
}

/// The normalized words of a query, empty ones dropped.
pub open spec fn token_terms(q: Seq<char>) -> Seq<Seq<char>> {
    nonempty_pieces(words(q).map_values(|w: Seq<char>| norm_text(w)))
}

/// The terms of the chunks' queries, chunk by chunk.
pub open spec fn chunk_terms(chunks: Seq<Seq<char>>) -> Seq<Seq<char>>
    decreases chunks.len(),
{
    if chunks.len() == 0 {
        Seq::empty()
    } else {
        chunk_terms(chunks.drop_last()) + token_terms(chunk_query(chunks.last()))
    }
}

/// Every term `derive_query_terms` collects, repeats included: those of each
/// chunk's query, then those of the whole message's query.
pub open spec fn candidate_terms(content: Seq<char>) -> Seq<Seq<char>> {
    chunk_terms(chunks_spec(content)) + token_terms(chunk_query(content))
}

fn trim_nonalnum_chars(s: &Vec<char>) -> (r: Vec<char>)
    ensures
        r@ == trim_nonalnum(s@),
{
    let mut a: usize = 0;
    assert(s@.skip(0) =~= s@);
    while a < s.len() && !char_is_alphanumeric(s[a])
        invariant
            a <= s.len(),
            trim_nonalnum_start(s@) == trim_nonalnum_start(s@.skip(a as int)),
        decreases s.len() - a,
    {
        assert(s@.skip(a as int).drop_first() =~= s@.skip(a + 1));
        a = a + 1;
    }
    assert(s@.skip(0) =~= s@);
    let t = slice_chars(s, a, s.len());
    assert(t@ =~= s@.skip(a as int));
    let mut b: usize = t.len();
    assert(t@.take(t@.len() as int) =~= t@);
    while b > 0 && !char_is_alphanumeric(t[b - 1])
        invariant
            b <= t.len(),
            trim_nonalnum_end(t@) == trim_nonalnum_end(t@.take(b as int)),
        decreases b,
    {
        assert(t@.take(b as int).drop_last() =~= t@.take(b - 1));
        b = b - 1;
    }
    assert(t@.take(t@.len() as int) =~= t@);
    assert(t@.take(b as int) =~= t@.subrange(0, b as int));
    slice_chars(&t, 0, b)
}

fn lower_chars_of(s: &Vec<char>) -> (r: Vec<char>)
    ensures
        r@ == lower_chars(s@),
{
    let mut out: Vec<char> = Vec::new();
    let mut i: usize = 0;
    while i < s.len()
        invariant
            i <= s@.len(),
            out@ == lower_chars(s@.take(i as int)),
        decreases s.len() - i,
    {
        assert(s@.take(i + 1).drop_last() =~= s@.take(i as int));
        push_all(&mut out, &char_to_lowercase(s[i]));
        i = i + 1;
    }
    assert(s@.take(s@.len() as int) =~= s@);
    out
}

fn is_query_word(t: &Vec<char>) -> (r: bool)
    ensures
        r == query_word(t@),
{
    if t.len() == 0 {
        return false;
    }
    let mut upper = true;
    let mut digit = false;
    let mut i: usize = 0;
    while i < t.len()
        invariant
            i <= t@.len(),
            upper == (forall|j: int| 0 <= j < i ==> unicode_uppercase(#[trigger] t@[j])),
            digit == (exists|j: int| 0 <= j < i && is_ascii_digit(#[trigger] t@[j])),
        decreases t.len() - i,
    {
        if !char_is_uppercase(t[i]) {
            upper = false;
        }
        if '0' <= t[i] && t[i] <= '9' {
            digit = true;
        }
        i = i + 1;
    }
    let keep = upper || !stopword_check(string_of(&lower_chars_of(t)).as_str());
    keep && (t.len() >= 3 || digit)
}

/// Extracts the search query of a chunk: its words stripped of surrounding
/// punctuation, keeping acronyms and non-stopwords that are at least three
/// characters long or hold a digit.
pub fn extract_chunk_query(chunk: &str) -> (r: String)
    ensures
        r@ == chunk_query(chunk@),
{
    let ws = words_of(&chars_of(chunk));
    let ghost wv = ws@.map_values(|w: Vec<char>| w@);
    let mut kept: Vec<String> = Vec::new();
    let mut i: usize = 0;
    assert(strings_view(kept@) =~= query_words(wv.take(0)));
    while i < ws.len()
        invariant
            i <= ws@.len(),
            wv == ws@.map_values(|w: Vec<char>| w@),
            strings_view(kept@) == query_words(wv.take(i as int)),
        decreases ws.len() - i,
    {
        assert(wv.take(i + 1).drop_last() =~= wv.take(i as int));
        assert(wv.take(i + 1).last() == ws@[i as int]@);
        let t = trim_nonalnum_chars(&ws[i]);
        if is_query_word(&t) {
            kept.push(string_of(&t));
            assert(strings_view(kept@) =~= query_words(wv.take(i + 1)));
        }
        i = i + 1;
    }
    assert(wv.take(wv.len() as int) =~= wv);
    join_strings(&kept, " ")
}

fn norm_chars(s: &Vec<char>) -> (r: Vec<char>)
    ensures
        r@ == norm_text(s@),
{
    let mut out: Vec<char> = Vec::new();
    let mut i: usize = 0;
    while i < s.len()
        invariant
            i <= s@.len(),
            out@ == norm_text(s@.take(i as int)),
        decreases s.len() - i,
    {
        assert(s@.take(i + 1).drop_last() =~= s@.take(i as int));
        if char_is_alphanumeric(s[i]) {
            push_all(&mut out, &fold_chars_of(&char_to_lowercase(s[i])));
        }
        i = i + 1;
    }
    assert(s@.take(s@.len() as int) =~= s@);
    out
}

/// Normalizes a string for re-match: keeps only alphanumeric characters,
/// lowercased, with Latin-1 diacritics folded to their base letters.
pub fn normalize_for_match(s: &str) -> (r: String)
    ensures
        r@ == norm_text(s@),
{
    string_of(&norm_chars(&chars_of(s)))
}

/// Appends the normalized, non-empty words of `q`.
fn push_token_terms(q: &str, out: &mut Vec<String>)
    ensures
        strings_view(final(out)@) == strings_view(old(out)@) + token_terms(q@),
{
    let ws = words_of(&chars_of(q));
    let ghost normed = ws@.map_values(|w: Vec<char>| w@).map_values(|w: Seq<char>| norm_text(w));
    let mut i: usize = 0;
    assert(strings_view(out@) =~= strings_view(old(out)@) + nonempty_pieces(normed.take(0)));
    while i < ws.len()
        invariant
            i <= ws@.len(),
            normed == ws@.map_values(|w: Vec<char>| w@).map_values(|w: Seq<char>| norm_text(w)),
            strings_view(out@) == strings_view(old(out)@) + nonempty_pieces(normed.take(i as int)),
        decreases ws.len() - i,
    {
        assert(normed.take(i + 1).drop_last() =~= normed.take(i as int));
        assert(normed.take(i + 1).last() == norm_text(ws@[i as int]@));
        let n = norm_chars(&ws[i]);
        let ghost prev = strings_view(out@);
        let ghost done = nonempty_pieces(normed.take(i as int));
        if n.len() > 0 {
            out.push(string_of(&n));
            assert(strings_view(out@) =~= prev.push(n@));
            assert(nonempty_pieces(normed.take(i + 1)) == done.push(n@));
            assert(strings_view(out@) =~= strings_view(old(out)@) + done.push(n@));
        } else {
            assert(nonempty_pieces(normed.take(i + 1)) == done);
        }
        i = i + 1;
    }
    assert(normed.take(normed.len() as int) =~= normed);
}

/// The query terms of a message, each once: the normalized words of every
/// chunk's query and of the whole message's query. Their order is not part
/// of the contract (the terms are a set).
pub fn derive_query_terms(content: &str) -> (r: Vec<String>)
    ensures
        strings_view(r@).no_duplicates(),
        forall|t: Seq<char>| strings_view(r@).contains(t) <==> candidate_terms(content@).contains(t),
{
    let chunks = split_into_chunks(content);
    let mut cands: Vec<String> = Vec::new();
    let mut i: usize = 0;
    assert(strings_view(cands@) =~= chunk_terms(strings_view(chunks@).take(0)));
    while i < chunks.len()
        invariant
            i <= chunks@.len(),
            strings_view(cands@) == chunk_terms(strings_view(chunks@).take(i as int)),
        decreases chunks.len() - i,
    {
        assert(strings_view(chunks@).take(i + 1).drop_last() =~= strings_view(chunks@).take(i as int));
        assert(strings_view(chunks@).take(i + 1).last() == chunks@[i as int]@);
        let q = extract_chunk_query(chunks[i].as_str());
        push_token_terms(q.as_str(), &mut cands);
        i = i + 1;
    }
    assert(strings_view(chunks@).take(chunks@.len() as int) =~= strings_view(chunks@));
    let full = extract_chunk_query(content);
    push_token_terms(full.as_str(), &mut cands);
    let ghost cv = strings_view(cands@);
    assert(cv == candidate_terms(content@));
    let mut terms: Vec<String> = Vec::new();
    let mut k: usize = 0;
    while k < cands.len()
        invariant
            k <= cands@.len(),
            cv == strings_view(cands@),
            strings_view(terms@).no_duplicates(),
            forall|t: Seq<char>| strings_view(terms@).contains(t) <==> cv.take(k as int).contains(t),
        decreases cands.len() - k,
    {
        let ghost before = strings_view(terms@);
        assert(cv.take(k + 1) =~= cv.take(k as int).push(cv[k as int]));
        let mut seen = false;
        let mut j: usize = 0;
        while j < terms.len()
            invariant
                k < cands@.len(),
                j <= terms@.len(),
                before == strings_view(terms@),
                seen == (exists|x: int| 0 <= x < j && before[x] == cands@[k as int]@),
            decreases terms.len() - j,
        {
            assert(before[j as int] == terms@[j as int]@);
            if str_eq(terms[j].as_str(), cands[k].as_str()) {
                seen = true;
            }
            j = j + 1;
        }
        if !seen {
            terms.push(copy_string(&cands[k]));
            assert(strings_view(terms@) =~= before.push(cv[k as int]));
        }
        proof {
            let nxt = cv.take(k + 1);
            let prv = cv.take(k as int);
            let now = strings_view(terms@);
            assert(nxt =~= prv.push(cv[k as int]));
            assert forall|t: Seq<char>| now.contains(t) <==> nxt.contains(t) by {
                if now.contains(t) {
                    let x = choose|x: int| 0 <= x < now.len() && now[x] == t;
                    if x < before.len() {
                        assert(before[x] == t);
                        assert(before.contains(t));
                        assert(prv.contains(t));
                        let y = choose|y: int| 0 <= y < prv.len() && prv[y] == t;
                        assert(nxt[y] == t);
                    } else {
                        assert(nxt[k as int] == t);
                    }
                }
                if nxt.contains(t) {
                    let y = choose|y: int| 0 <= y < nxt.len() && nxt[y] == t;
                    if y < k {
                        assert(prv[y] == t);
                        assert(prv.contains(t));
                        assert(before.contains(t));
                        let x = choose|x: int| 0 <= x < before.len() && before[x] == t;
                        assert(now[x] == t);
                    } else if seen {
                        let x = choose|x: int| 0 <= x < j && before[x] == cands@[k as int]@;
                        assert(now[x] == t);
                    } else {
                        assert(now[before.len() as int] == t);
                    }
                }
            }
        }
        k = k + 1;
    }
    assert(cv.take(cv.len() as int) =~= cv);
    terms
}

/// Whether any (already normalized) term is a substring of the normalized
/// form of `text`.
pub fn any_term_matches(query_terms: &[String], text: &str) -> (r: bool)
    ensures
        r == term_matches(strings_view(query_terms@), text@),
{
    let ghost terms = strings_view(query_terms@);
    let norm = norm_chars(&chars_of(text));
    let mut i: usize = 0;
    while i < query_terms.len()
        invariant
            i <= query_terms@.len(),
            terms == strings_view(query_terms@),
            norm@ == norm_text(text@),
            forall|j: int| 0 <= j < i ==> !contains(norm_text(text@), #[trigger] terms[j]),
        decreases query_terms.len() - i,
    {
        assert(terms[i as int] == query_terms@[i as int]@);
        if find_chars(&norm, &chars_of(query_terms[i].as_str())).is_some() {
            return true;
        }
        i = i + 1;
    }
    false
}

// ---------------------------------------------------------------------------
// Property hits
// ---------------------------------------------------------------------------

/// Longest a property value is shown, in characters.
pub const PROPERTY_TRUNCATE_LEN: usize = 255;

/// Most property hits kept per entity.
pub const MAX_PROPERTY_HITS_PER_ENTITY: usize = 8;

/// A property of a recalled entity whose label or value matched the query.
#[derive(Debug)]
pub struct PropertyHit {
    pub prop_label: String,
    pub prop_iri: String,
    pub value: String,
}

/// A property of an entity as the graph gives it: the predicate, its label,
/// and its value as text (an IRI object by its label); `None` for a value
/// that is neither an IRI nor a literal.
#[derive(Debug)]
pub struct PropertyCandidate {
    pub prop_iri: String,
    pub prop_label: String,
    pub raw_value: Option<String>,
}

/// Predicates never shown as property hits.
pub open spec fn is_excluded_predicate(p: Seq<char>) -> bool {
    p == "rdf:type"@
    || p == "rdfs:label"@
    || p == "foundation:content"@
    || p == "foundation:subconsciousContext"@
    || p == "foundation:role"@
    || p == "foundation:sentAt"@
    || p == "foundation:partOfConversation"@
    || p == "foundation:sender"@
    || p == "foundation:receiver"@
}

pub fn excluded_predicate(p: &str) -> (r: bool)
    ensures
        r == is_excluded_predicate(p@),
{
    str_eq(p, "rdf:type")
    || str_eq(p, "rdfs:label")
    || str_eq(p, "foundation:content")
    || str_eq(p, "foundation:subconsciousContext")
    || str_eq(p, "foundation:role")
    || str_eq(p, "foundation:sentAt")
    || str_eq(p, "foundation:partOfConversation")
    || str_eq(p, "foundation:sender")
    || str_eq(p, "foundation:receiver")
}

/// Line breaks turned into spaces.
pub open spec fn flatten_lines(s: Seq<char>) -> Seq<char> {
    s.map_values(|c: char| if c == '\n' || c == '\r' { ' ' } else { c })
}

/// `truncate`: the value on one line with runs of whitespace collapsed to a
/// single space, cut to 255 characters with a marker when longer.
pub open spec fn truncate_spec(value: Seq<char>) -> Seq<char> {
    let flat = join(words(flatten_lines(value)), " "@);
    if flat.len() <= 255 {
        flat
    } else {
        flat.take(255) + "...[truncated content]"@
    }
}

/// Puts a property value on one line and cuts it to 255 characters.
pub fn truncate(value: &str) -> (r: String)
    ensures
        r@ == truncate_spec(value@),
{
    let v = chars_of(value);
    let mut flat: Vec<char> = Vec::new();
    let mut i: usize = 0;
    while i < v.len()
        invariant
            i <= v@.len(),
            flat@ == flatten_lines(v@.take(i as int)),
        decreases v.len() - i,
    {
        let c = v[i];
        if c == '\n' || c == '\r' {
            flat.push(' ');
        } else {
            flat.push(c);
        }
        i = i + 1;
        assert(flat@ =~= flatten_lines(v@.take(i as int)));
    }
    assert(v@.take(v@.len() as int) =~= v@);
    let ws = words_of(&flat);
    let ghost wv = ws@.map_values(|w: Vec<char>| w@);
    let mut parts: Vec<String> = Vec::new();
    let mut k: usize = 0;
    while k < ws.len()
        invariant
            k <= ws@.len(),
            wv == ws@.map_values(|w: Vec<char>| w@),
            strings_view(parts@) == wv.take(k as int),
        decreases ws.len() - k,
    {
        let ghost prev = strings_view(parts@);
        parts.push(string_of(&ws[k]));
        assert(strings_view(parts@) =~= prev.push(ws@[k as int]@));
        assert(wv.take(k + 1) =~= wv.take(k as int).push(wv[k as int]));
        k = k + 1;
    }
    assert(wv.take(wv.len() as int) =~= wv);
    let joined = chars_of(join_strings(&parts, " ").as_str());
    if joined.len() <= PROPERTY_TRUNCATE_LEN {
        string_of(&joined)
    } else {
        let mut head = slice_chars(&joined, 0, PROPERTY_TRUNCATE_LEN);
        push_all(&mut head, &chars_of("...[truncated content]"));
        string_of(&head)
    }
}

/// Some term occurs in the normalized text.
pub open spec fn term_matches(terms: Seq<Seq<char>>, text: Seq<char>) -> bool {
    exists|i: int| 0 <= i < terms.len() && contains(norm_text(text), #[trigger] terms[i])
}

/// The property hit a candidate gives: none for an excluded predicate, a
/// value that is not text, or when no query term matches its label or value.
pub open spec fn candidate_hit(label: Seq<char>, iri: Seq<char>, raw: Option<String>, terms: Seq<Seq<char>>) -> Option<(Seq<char>, Seq<char>, Seq<char>)> {
    if is_excluded_predicate(iri) {
        None
    } else {
        match raw {
            None => None,
            Some(v) => if term_matches(terms, label) || term_matches(terms, v@) {
                Some((label, iri, truncate_spec(v@)))
            } else {
                None
            },
        }
    }
}

pub open spec fn hit_view(h: PropertyHit) -> (Seq<char>, Seq<char>, Seq<char>) {
    (h.prop_label@, h.prop_iri@, h.value@)
}

/// The hits of the candidates, in order.
pub open spec fn candidate_hits(cands: Seq<PropertyCandidate>, terms: Seq<Seq<char>>) -> Seq<(Seq<char>, Seq<char>, Seq<char>)>
    decreases cands.len(),
{
    if cands.len() == 0 {
        Seq::empty()
    } else {
        let c = cands.last();
        match candidate_hit(c.prop_label@, c.prop_iri@, c.raw_value, terms) {
            Some(h) => candidate_hits(cands.drop_last(), terms).push(h),
            None => candidate_hits(cands.drop_last(), terms),
        }
    }
}

/// The property hits of an entity: the candidates that are not excluded,
/// have a text value and match a query term by label or value, with the
/// value put on one line and cut; the first eight of them.
pub fn select_property_hits(candidates: &[PropertyCandidate], query_terms: &[String]) -> (r: Vec<PropertyHit>)
    ensures
        r@.map_values(|h: PropertyHit| hit_view(h)) == (if candidate_hits(candidates@, strings_view(query_terms@)).len() > 8 {
            candidate_hits(candidates@, strings_view(query_terms@)).take(8)
        } else {
            candidate_hits(candidates@, strings_view(query_terms@))
        }),
{
    let ghost terms = strings_view(query_terms@);
    let mut hits: Vec<PropertyHit> = Vec::new();
    let mut i: usize = 0;
    assert(hits@.map_values(|h: PropertyHit| hit_view(h)) =~= candidate_hits(candidates@.take(0), terms));
    while i < candidates.len()
        invariant
            i <= candidates@.len(),
            terms == strings_view(query_terms@),
            hits@.map_values(|h: PropertyHit| hit_view(h)) == candidate_hits(candidates@.take(i as int), terms),
        decreases candidates.len() - i,
    {
        let c = &candidates[i];
        assert(candidates@.take(i + 1).drop_last() =~= candidates@.take(i as int));
        assert(candidates@.take(i + 1).last() == candidates@[i as int]);
        let ghost before = hits@;
        if !excluded_predicate(c.prop_iri.as_str()) {
            match &c.raw_value {
                Some(v) => {
                    let m1 = any_term_matches(query_terms, c.prop_label.as_str());
                    let m2 = any_term_matches(query_terms, v.as_str());
                    if m1 || m2 {
                        hits.push(PropertyHit {
                            prop_label: copy_string(&c.prop_label),
                            prop_iri: copy_string(&c.prop_iri),
                            value: truncate(v.as_str()),
                        });
                        assert(hits@.map_values(|h: PropertyHit| hit_view(h)) =~= before.map_values(
                            |h: PropertyHit| hit_view(h),
                        ).push((c.prop_label@, c.prop_iri@, truncate_spec(v@))));
                    }
                },
                None => {},
            }
        }
        i = i + 1;
    }
    assert(candidates@.take(candidates@.len() as int) =~= candidates@);
    if hits.len() > MAX_PROPERTY_HITS_PER_ENTITY {
        let ghost all = hits@;
        hits.truncate(MAX_PROPERTY_HITS_PER_ENTITY);
        assert(hits@.map_values(|h: PropertyHit| hit_view(h)) =~= all.map_values(|h: PropertyHit| hit_view(h)).take(8));
    }
    hits
}

// ---------------------------------------------------------------------------
// Entities
// ---------------------------------------------------------------------------

/// An entity recalled for a message. Its relevance score, an `f32`, is kept
/// as its bit pattern (`f32::to_bits`).
#[derive(Debug)]
pub struct SubconsciousEntity {
    pub iri: String,
    pub label: String,
    pub type_iri: String,
    pub type_label: String,
    pub icon: Option<String>,
    pub score_bits: u32,
    pub property_hits: Vec<PropertyHit>,
    pub is_open_loop: Option<bool>,
}

/// The text after the last `:` of an IRI, or the whole IRI.
pub open spec fn local_name(iri: Seq<char>) -> Seq<char> {
    match rfind(iri, seq![':']) {
        Some(i) => iri.skip(i + 1),
        None => iri,
    }
}

pub fn local_name_of(iri: &str) -> (r: String)
    ensures
        r@ == local_name(iri@),
{
    let v = chars_of(iri);
    let colon = vec![':'];
    assert(colon@ =~= seq![':']);
    let vl = v.len();
    match rfind_chars(&v, &colon) {
        Some(i) => {
            assert(v@.skip(i + 1) =~= v@.subrange(i + 1, v@.len() as int));
            string_of(&slice_chars(&v, i + 1, vl))
        },
        None => string_of(&v),
    }
}

/// `predicate_label`: the predicate's stored `rdfs:label`, or its local name.
pub fn predicate_label(stored_label: Option<String>, predicate: &str) -> (r: String)
    ensures
        r@ == match stored_label {
            Some(l) => l@,
            None => local_name(predicate@),
        },
{
    match stored_label {
        Some(l) => l,
        None => local_name_of(predicate),
    }
}

/// The label of a type without a stored label: a readable name for the OWL
/// meta-types, else the local name of its IRI.
pub open spec fn fallback_type_label(type_iri: Seq<char>) -> Seq<char> {
    if type_iri == "owl:Class"@ {
        "Class"@
    } else if type_iri == "owl:ObjectProperty"@ {
        "Object Property"@
    } else if type_iri == "owl:DatatypeProperty"@ {
        "Datatype Property"@
    } else if type_iri == "owl:AnnotationProperty"@ {
        "Annotation Property"@
    } else {
        local_name(type_iri)
    }
}

pub fn type_label_or_fallback(stored_label: Option<String>, type_iri: &str) -> (r: String)
    ensures
        r@ == match stored_label {
            Some(l) => l@,
            None => fallback_type_label(type_iri@),
        },
{
    match stored_label {
        Some(l) => l,
        None => if str_eq(type_iri, "owl:Class") {
            to_owned_string("Class")
        } else if str_eq(type_iri, "owl:ObjectProperty") {
            to_owned_string("Object Property")
        } else if str_eq(type_iri, "owl:DatatypeProperty") {
            to_owned_string("Datatype Property")
        } else if str_eq(type_iri, "owl:AnnotationProperty") {
            to_owned_string("Annotation Property")
        } else {
            local_name_of(type_iri)
        },
    }
}

/// The label of a conversation message entity: the first 120 characters of
/// its text, prefixed by who sent it.
pub open spec fn message_label(text: Seq<char>, role: Option<Seq<char>>) -> Seq<char> {
    let preview = if text.len() <= 120 { text } else { text.take(120) };
    if role == Some("user"@) {
        "You: "@ + preview
    } else if role == Some("assistant"@) {
        "Assistant: "@ + preview
    } else {
        preview
    }
}

pub fn message_entity_label(text: &str, role: Option<&str>) -> (r: String)
    ensures
        r@ == message_label(text@, match role {
            Some(x) => Some(x@),
            None => None,
        }),
{
    let t = chars_of(text);
    let preview = if t.len() <= 120 {
        t
    } else {
        slice_chars(&t, 0, 120)
    };
    assert(t@.len() > 120 ==> t@.take(120) =~= t@.subrange(0, 120));
    match role {
        Some(r) => if str_eq(r, "user") {
            let mut v = chars_of("You: ");
            push_all(&mut v, &preview);
            string_of(&v)
        } else if str_eq(r, "assistant") {
            let mut v = chars_of("Assistant: ");
            push_all(&mut v, &preview);
            string_of(&v)
        } else {
            string_of(&preview)
        },
        None => string_of(&preview),
    }
}

/// `extract_content_text`: the text of stored message content: the `text`
/// fields of a JSON array of blocks joined by spaces, a JSON string, or the
/// raw content.
pub open spec fn content_text_spec(raw: Seq<char>) -> Seq<char> {
    match json_parse(raw) {
        Some(Json::Array(a)) => if join(crate::message_text::item_texts(a), " "@).len() > 0 {
            join(crate::message_text::item_texts(a), " "@)
        } else {
            raw
        },
        Some(Json::Str(s)) => s,
        _ => raw,
    }
}

/// The text of stored message content.
pub fn extract_content_text(raw: &str) -> (r: String)
    ensures
        r@ == content_text_spec(raw@),
{
    match parse_json(raw) {
        Some(v) => match &v {
            JsonValue::Array(_) => {
                let text = space_joined_texts(&v);
                if chars_of(text.as_str()).len() > 0 {
                    text
                } else {
                    to_owned_string(raw)
                }
            },
            JsonValue::Str(s) => copy_string(s),
            _ => to_owned_string(raw),
        },
        None => to_owned_string(raw),
    }
}

/// The `text` fields of an array's items joined by spaces.
fn space_joined_texts(v: &JsonValue) -> (r: String)
    requires
        v@ is Array,
    ensures
        r@ == join(crate::message_text::item_texts(v@->Array_0), " "@),
{
    match v {
        JsonValue::Array(arr) => {
            let ghost items = items_view(arr@);
            proof {
                crate::json::lemma_items_view(arr@);
            }
            let mut texts: Vec<String> = Vec::new();
            let mut i: usize = 0;
            assert(strings_view(texts@) =~= crate::message_text::item_texts(items.take(0)));
            while i < arr.len()
                invariant
                    i <= arr@.len(),
                    items == arr@.map_values(|x: JsonValue| crate::json::json_view(x)),
                    strings_view(texts@) == crate::message_text::item_texts(items.take(i as int)),
                decreases arr.len() - i,
            {
                assert(items.take(i + 1).drop_last() =~= items.take(i as int));
                assert(items.take(i + 1).last() == arr@[i as int]@);
                match json_get_str(&arr[i], "text") {
                    Some(t) => {
                        texts.push(copy_string(t));
                        assert(strings_view(texts@) =~= crate::message_text::item_texts(items.take(i + 1)));
                    },
                    None => {},
                }
                i = i + 1;
            }
            assert(items.take(items.len() as int) =~= items);
            join_strings(&texts, " ")
        },
        _ => String::new(),
    }
}

// ---------------------------------------------------------------------------
// Memory context
// ---------------------------------------------------------------------------

/// The first line of the memory context block.
pub open spec fn context_header() -> Seq<char> {
    "## Memory Context — Relevant entities from your knowledge graph (ranked by relevance):"@
}

/// The line of an entity without property hits.
pub open spec fn anchor_line(e: SubconsciousEntity) -> Seq<char> {
    "- entity_label=\""@ + e.label@ + "\" entity_iri="@ + e.iri@ + " type="@ + e.type_iri@
}

/// The line of one property hit of an entity.
pub open spec fn hit_line(e: SubconsciousEntity, h: PropertyHit) -> Seq<char> {
    "- entity_label=\""@ + e.label@ + "\" entity_iri="@ + e.iri@ + " prop_label=\""@ + h.prop_label@
        + "\" prop_iri="@ + h.prop_iri@ + " value=\""@ + h.value@ + "\""@
}

/// The lines of an entity: one per property hit, or its anchor line.
pub open spec fn entity_lines(e: SubconsciousEntity) -> Seq<Seq<char>> {
    if e.property_hits@.len() == 0 {
        seq![anchor_line(e)]
    } else {
        e.property_hits@.map_values(|h: PropertyHit| hit_line(e, h))
    }
}

/// The lines of the entities, in order.
pub open spec fn entities_lines(es: Seq<SubconsciousEntity>) -> Seq<Seq<char>>
    decreases es.len(),
{
    if es.len() == 0 {
        Seq::empty()
    } else {
        entities_lines(es.drop_last()) + entity_lines(es.last())
    }
}

/// `format_context`: nothing for no entities, else the header followed by
/// the entities' lines, one per line.
pub open spec fn context_spec(es: Seq<SubconsciousEntity>) -> Option<Seq<char>> {
    if es.len() == 0 {
        None
    } else {
        Some(join(seq![context_header()] + entities_lines(es), "\n"@))
    }
}

fn anchor_line_of(e: &SubconsciousEntity) -> (r: String)
    ensures
        r@ == anchor_line(*e),
{
    let mut v = chars_of("- entity_label=\"");
    push_all(&mut v, &chars_of(e.label.as_str()));
    push_all(&mut v, &chars_of("\" entity_iri="));
    push_all(&mut v, &chars_of(e.iri.as_str()));
    push_all(&mut v, &chars_of(" type="));
    push_all(&mut v, &chars_of(e.type_iri.as_str()));
    string_of(&v)
}

fn hit_line_of(e: &SubconsciousEntity, h: &PropertyHit) -> (r: String)
    ensures
        r@ == hit_line(*e, *h),
{
    let mut v = chars_of("- entity_label=\"");
    push_all(&mut v, &chars_of(e.label.as_str()));
    push_all(&mut v, &chars_of("\" entity_iri="));
    push_all(&mut v, &chars_of(e.iri.as_str()));
    push_all(&mut v, &chars_of(" prop_label=\""));
    push_all(&mut v, &chars_of(h.prop_label.as_str()));
    push_all(&mut v, &chars_of("\" prop_iri="));
    push_all(&mut v, &chars_of(h.prop_iri.as_str()));
    push_all(&mut v, &chars_of(" value=\""));
    push_all(&mut v, &chars_of(h.value.as_str()));
    push_all(&mut v, &chars_of("\""));
    string_of(&v)
}

/// Formats the recalled entities as a memory context block: a header line,
/// then one line per property hit (repeating the entity's identity), or a
/// single anchor line for an entity without hits.
pub fn format_context(entities: &[SubconsciousEntity]) -> (r: Option<String>)
    ensures
        match r {
            Some(c) => context_spec(entities@) == Some(c@),
            None => context_spec(entities@) is None,
        },
{
    if entities.len() == 0 {
        return None;
    }
    let mut lines: Vec<String> = Vec::new();
    lines.push(to_owned_string("## Memory Context — Relevant entities from your knowledge graph (ranked by relevance):"));
    let mut i: usize = 0;
    assert(strings_view(lines@) =~= seq![context_header()] + entities_lines(entities@.take(0)));
    while i < entities.len()
        invariant
            i <= entities@.len(),
            strings_view(lines@) == seq![context_header()] + entities_lines(entities@.take(i as int)),
        decreases entities.len() - i,
    {
        let e = &entities[i];
        assert(entities@.take(i + 1).drop_last() =~= entities@.take(i as int));
        assert(entities@.take(i + 1).last() == entities@[i as int]);
        let ghost before = strings_view(lines@);
        if e.property_hits.len() == 0 {
            lines.push(anchor_line_of(e));
            assert(strings_view(lines@) =~= before + entity_lines(*e));
        } else {
            let mut k: usize = 0;
            while k < e.property_hits.len()
                invariant
                    k <= e.property_hits@.len(),
                    e.property_hits@.len() > 0,
                    strings_view(lines@) == before + e.property_hits@.take(k as int).map_values(
                        |h: PropertyHit| hit_line(*e, h),
                    ),
                decreases e.property_hits.len() - k,
            {
                let ghost mid = strings_view(lines@);
                lines.push(hit_line_of(e, &e.property_hits[k]));
                assert(e.property_hits@.take(k + 1).map_values(|h: PropertyHit| hit_line(*e, h))
                    =~= e.property_hits@.take(k as int).map_values(|h: PropertyHit| hit_line(*e, h)).push(
                    hit_line(*e, e.property_hits@[k as int]),
                ));
                assert(strings_view(lines@) =~= mid.push(hit_line(*e, e.property_hits@[k as int])));
                k = k + 1;
            }
            assert(e.property_hits@.take(e.property_hits@.len() as int) =~= e.property_hits@);
        }
        i = i + 1;
        assert(strings_view(lines@) =~= seq![context_header()] + entities_lines(entities@.take(i as int)));
    }
    assert(entities@.take(entities@.len() as int) =~= entities@);
    Some(join_strings(&lines, "\n"))
}

// ---------------------------------------------------------------------------
// Possessives: "my X" points at what the user's own entity relates to
// ---------------------------------------------------------------------------

/// The words of a message, trimmed of what is not a letter or digit and in
/// lower case; empty words dropped.
pub open spec fn lower_words(ws: Seq<Seq<char>>) -> Seq<Seq<char>>
    decreases ws.len(),
{
    if ws.len() == 0 {
        Seq::empty()
    } else {
        let w = lower_chars(trim_nonalnum(ws.last()));
        if w.len() > 0 {
            lower_words(ws.drop_last()).push(w)
        } else {
            lower_words(ws.drop_last())
        }
    }
}

/// The possessive pronouns that point at the user's own entities.
pub open spec fn is_possessive(w: Seq<char>) -> bool {
    w == "meu"@ || w == "minha"@ || w == "meus"@ || w == "minhas"@ || w == "my"@ || w == "mi"@ || w == "mis"@
}

/// A property of the user's entity: its predicate, the entity it points
/// to, the predicate's label and, when its domain names one, the label of
/// the inverse relation.
#[derive(Debug)]
pub struct UserRelation {
    pub predicate: String,
    pub object_iri: String,
    pub predicate_label: String,
    pub inverse_label: Option<String>,
}

/// The predicates a possessive never resolves through.
pub open spec fn possessive_excluded(p: Seq<char>) -> bool {
    p == "rdf:type"@ || p == "foundation:hasStatus"@ || p == "foundation:hasIcon"@
}

/// The entities a possessive message points at: when the message holds a
/// possessive pronoun, each relation of the user (not one of the excluded
/// predicates) whose label, in lower case, is a word of the message; with
/// the relation's name (its inverse label, else its label). In order.
pub open spec fn possessive_targets(words: Seq<Seq<char>>, rels: Seq<UserRelation>) -> Seq<(Seq<char>, Seq<char>)>
    decreases rels.len(),
{
    if rels.len() == 0 || !(exists|i: int| 0 <= i < words.len() && is_possessive(#[trigger] words[i])) {
        Seq::empty()
    } else {
        let r = rels.last();
        let rest = possessive_targets(words, rels.drop_last());
        if !possessive_excluded(r.predicate@) && words.contains(lower_chars(r.predicate_label@)) {
            rest.push(
                (
                    r.object_iri@,
                    match r.inverse_label {
                        Some(l) => l@,
                        None => r.predicate_label@,
                    },
                ),
            )
        } else {
            rest
        }
    }
}

/// The lower-cased words of a message (see [`lower_words`]).
pub fn lower_words_of(content: &str) -> (r: Vec<Vec<char>>)
    ensures
        r@.map_values(|w: Vec<char>| w@) == lower_words(words(content@)),
{
    let ws = words_of(&chars_of(content));
    let ghost wv = ws@.map_values(|w: Vec<char>| w@);
    let mut out: Vec<Vec<char>> = Vec::new();
    let mut i: usize = 0;
    assert(out@.map_values(|w: Vec<char>| w@) =~= lower_words(wv.take(0)));
    while i < ws.len()
        invariant
            i <= ws@.len(),
            wv == ws@.map_values(|w: Vec<char>| w@),
            out@.map_values(|w: Vec<char>| w@) == lower_words(wv.take(i as int)),
        decreases ws.len() - i,
    {
        assert(wv.take(i + 1).drop_last() =~= wv.take(i as int));
        assert(wv.take(i + 1).last() == ws@[i as int]@);
        let w = lower_chars_of(&trim_nonalnum_chars(&ws[i]));
        if w.len() > 0 {
            let ghost prev = out@.map_values(|w: Vec<char>| w@);
            let ghost x = w@;
            out.push(w);
            assert(out@.map_values(|w: Vec<char>| w@) =~= prev.push(x));
        }
        i = i + 1;
    }
    assert(wv.take(i as int) =~= wv);
    out
}

fn is_possessive_word(w: &Vec<char>) -> (r: bool)
    ensures
        r == is_possessive(w@),
{
    let s = string_of(w);
    str_eq(s.as_str(), "meu") || str_eq(s.as_str(), "minha") || str_eq(s.as_str(), "meus") || str_eq(
        s.as_str(),
        "minhas",
    ) || str_eq(s.as_str(), "my") || str_eq(s.as_str(), "mi") || str_eq(s.as_str(), "mis")
}

fn has_word(words: &Vec<Vec<char>>, w: &Vec<char>) -> (r: bool)
    ensures
        r == words@.map_values(|x: Vec<char>| x@).contains(w@),
{
    let ghost wv = words@.map_values(|x: Vec<char>| x@);
    let mut i: usize = 0;
    while i < words.len()
        invariant
            i <= words@.len(),
            wv == words@.map_values(|x: Vec<char>| x@),
            forall|k: int| 0 <= k < i ==> wv[k] != w@,
        decreases words.len() - i,
    {
        if crate::text::chars_eq(&words[i], w) {
            assert(wv[i as int] == w@);
            return true;
        }
        i = i + 1;
    }
    false
}

/// The entities a possessive message points at (see
/// [`possessive_targets`]): each with the name of the relation.
pub fn resolve_possessive_entities(content: &str, relations: &[UserRelation]) -> (r: Vec<(String, String)>)
    ensures
        r@.map_values(|p: (String, String)| (p.0@, p.1@)) == possessive_targets(
            lower_words(words(content@)),
            relations@,
        ),
{
    let ws = lower_words_of(content);
    let ghost wv = ws@.map_values(|w: Vec<char>| w@);
    let mut any = false;
    let mut k: usize = 0;
    while k < ws.len()
        invariant
            k <= ws@.len(),
            wv == ws@.map_values(|w: Vec<char>| w@),
            any == exists|j: int| 0 <= j < k && is_possessive(#[trigger] wv[j]),
        decreases ws.len() - k,
    {
        assert(wv[k as int] == ws@[k as int]@);
        if is_possessive_word(&ws[k]) {
            any = true;
        }
        k = k + 1;
    }
    let mut out: Vec<(String, String)> = Vec::new();
    if !any {
        proof {
            if relations@.len() > 0 {
                assert(!(exists|i: int| 0 <= i < wv.len() && is_possessive(#[trigger] wv[i])));
            }
        }
        assert(out@.map_values(|p: (String, String)| (p.0@, p.1@)) =~= Seq::<(Seq<char>, Seq<char>)>::empty());
        return out;
    }
    let mut i: usize = 0;
    assert(out@.map_values(|p: (String, String)| (p.0@, p.1@)) =~= possessive_targets(wv, relations@.take(0)));
    while i < relations.len()
        invariant
            i <= relations@.len(),
            wv == ws@.map_values(|w: Vec<char>| w@),
            exists|j: int| 0 <= j < wv.len() && is_possessive(#[trigger] wv[j]),
            out@.map_values(|p: (String, String)| (p.0@, p.1@)) == possessive_targets(wv, relations@.take(i as int)),
        decreases relations.len() - i,
    {
        let r = &relations[i];
        assert(relations@.take(i + 1).drop_last() =~= relations@.take(i as int));
        assert(relations@.take(i + 1).last() == relations@[i as int]);
        let excluded = str_eq(r.predicate.as_str(), "rdf:type") || str_eq(r.predicate.as_str(), "foundation:hasStatus")
            || str_eq(r.predicate.as_str(), "foundation:hasIcon");
        if !excluded && has_word(&ws, &lower_chars_of(&chars_of(r.predicate_label.as_str()))) {
            let name = match &r.inverse_label {
                Some(l) => copy_string(l),
                None => copy_string(&r.predicate_label),
            };
            let ghost prev = out@.map_values(|p: (String, String)| (p.0@, p.1@));
            let ghost item = (r.object_iri@, name@);
            out.push((copy_string(&r.object_iri), name));
            assert(out@.map_values(|p: (String, String)| (p.0@, p.1@)) =~= prev.push(item));
        }
        i = i + 1;
    }
    assert(relations@.take(i as int) =~= relations@);
    out
}

} // verus!
