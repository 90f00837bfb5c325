//! Portable file paths: how a stored path to an attachment or an icon is
//! rewritten so that it no longer depends on where the data folder sits on
//! one machine. Paths follow Unix conventions: absolute paths start with
//! `/`, and a path lies inside a folder when it is the folder or starts with
//! the folder and a `/`.
use vstd::prelude::*;
use crate::text::{
    chars_of, string_of, starts_with, starts_with_chars, rfind, rfind_chars, replace_all, replace_chars,
    slice_chars, chars_eq, concat_chars, find, find_chars,
};

verus! {

/// What becomes of a stored path.
#[derive(Debug, PartialEq, Eq)]
pub enum PathAction {
    /// A web address or inline data, not a file: left as it is.
    NotAFile,
    /// Already relative to the data folder: left as it is.
    AlreadyPortable,
    /// Rewritten to this path, relative to the data folder.
    Convert(String),
    /// A file outside the data folder: kept absolute.
    External,
}

pub enum PathActionView {
    NotAFile,
    AlreadyPortable,
    Convert(Seq<char>),
    External,
}

impl View for PathAction {
    type V = PathActionView;

    open spec fn view(&self) -> PathActionView {
        match self {
            PathAction::NotAFile => PathActionView::NotAFile,
            PathAction::AlreadyPortable => PathActionView::AlreadyPortable,
            PathAction::Convert(p) => PathActionView::Convert(p@),
            PathAction::External => PathActionView::External,
        }
    }
}

/// The folder under the data folder that attachments live in, with its
/// separator.
pub const ATTACHMENTS_DIR: &'static str = "attachments/";

/// Where attachments sit inside a data folder, wherever that folder is.
pub const ANCHOR: &'static str = "/Foundation/attachments/";

/// Where attachments sit inside a data folder kept under `Documents`.
pub const DOCUMENTS_ANCHOR: &'static str = "/Documents/Foundation/attachments/";

/// A web address or inline data.
pub open spec fn is_url(s: Seq<char>) -> bool {
    starts_with(s, "http://"@) || starts_with(s, "https://"@) || starts_with(s, "data:"@)
}

/// The path without a leading `file://`.
pub open spec fn strip_file(s: Seq<char>) -> Seq<char> {
    if starts_with(s, "file://"@) {
        s.skip(7)
    } else {
        s
    }
}

/// Backslashes written as slashes.
pub open spec fn slashes(s: Seq<char>) -> Seq<char> {
    replace_all(s, seq!['\\'], seq!['/'])
}

/// The folder without one trailing `/` (the root stays `/`).
pub open spec fn folder(dir: Seq<char>) -> Seq<char> {
    if dir.len() > 1 && dir.last() == '/' {
        dir.drop_last()
    } else {
        dir
    }
}

/// The path relative to the folder, when it lies inside it.
pub open spec fn relative_to(p: Seq<char>, dir: Seq<char>) -> Option<Seq<char>> {
    let d = folder(dir);
    if p == d {
        Some(Seq::empty())
    } else if starts_with(p, d + seq!['/']) {
        Some(p.skip(d.len() as int + 1))
    } else {
        None
    }
}

/// The tail from `attachments/` on, after the last anchor in the path (the
/// shorter anchor is tried first).
pub open spec fn anchored(n: Seq<char>) -> Option<Seq<char>> {
    match rfind(n, ANCHOR@) {
        Some(idx) => Some(n.skip(idx + 12)),
        None => match rfind(n, DOCUMENTS_ANCHOR@) {
            Some(idx) => Some(n.skip(idx + 22)),
            None => None,
        },
    }
}

/// The portable form of a stored file path: relative to the data folder
/// when it lies inside it, else the part from a known attachments folder
/// on, with slashes for backslashes; none for a file elsewhere.
pub open spec fn portable_spec(stored: Seq<char>, data_dir: Seq<char>) -> Option<Seq<char>> {
    let stripped = strip_file(stored);
    match relative_to(stripped, data_dir) {
        Some(rel) => Some(slashes(rel)),
        None => anchored(slashes(stripped)),
    }
}

/// What becomes of a stored path: web addresses and inline data stay, as do
/// relative paths; other paths are made portable when they can be, and are
/// external otherwise.
pub open spec fn path_action_spec(stored: Seq<char>, data_dir: Seq<char>) -> PathActionView {
    if is_url(stored) {
        PathActionView::NotAFile
    } else if !starts_with(strip_file(stored), "/"@) && !starts_with(stored, "file://"@) {
        PathActionView::AlreadyPortable
    } else {
        match portable_spec(stored, data_dir) {
            Some(p) => PathActionView::Convert(p),
            None => PathActionView::External,
        }
    }
}

/// A path under `attachments/` without a further folder, as the bare file
/// name; none for any other path.
pub open spec fn collapse_spec(stored: Seq<char>) -> Option<Seq<char>> {
    let n = slashes(stored);
    if starts_with(n, ATTACHMENTS_DIR@) && find(n.skip(12), seq!['/']) is None {
        Some(n.skip(12))
    } else {
        None
    }
}

fn has_prefix(s: &Vec<char>, p: &str) -> (r: bool)
    ensures
        r == starts_with(s@, p@),
{
    starts_with_chars(s, &chars_of(p))
}

fn slashes_of(s: &Vec<char>) -> (r: Vec<char>)
    ensures
        r@ == slashes(s@),
{
    let back = vec!['\\'];
    let slash = vec!['/'];
    assert(back@ =~= seq!['\\']);
    assert(slash@ =~= seq!['/']);
    replace_chars(s, &back, &slash)
}

fn relative_to_chars(p: &Vec<char>, dir: &Vec<char>) -> (r: Option<Vec<char>>)
    ensures
        match r {
            Some(x) => relative_to(p@, dir@) == Some(x@),
            None => relative_to(p@, dir@) is None,
        },
{
    let d = if dir.len() > 1 && dir[dir.len() - 1] == '/' {
        slice_chars(dir, 0, dir.len() - 1)
    } else {
        slice_chars(dir, 0, dir.len())
    };
    assert(d@ == folder(dir@)) by {
        if dir@.len() > 1 && dir@.last() == '/' {
            assert(dir@.subrange(0, dir@.len() - 1) =~= dir@.drop_last());
        } else {
            assert(dir@.subrange(0, dir@.len() as int) =~= dir@);
        }
    }
    if chars_eq(p, &d) {
        return Some(Vec::new());
    }
    let sl = vec!['/'];
    assert(sl@ =~= seq!['/']);
    let ds = concat_chars(&d, &sl);
    if starts_with_chars(p, &ds) {
        Some(slice_chars(p, d.len() + 1, p.len()))
    } else {
        None
    }
}

fn anchored_chars(n: &Vec<char>) -> (r: Option<Vec<char>>)
    ensures
        match r {
            Some(x) => anchored(n@) == Some(x@),
            None => anchored(n@) is None,
        },
{
    proof {
        reveal_strlit("/Foundation/attachments/");
        reveal_strlit("/Documents/Foundation/attachments/");
    }
    let a = chars_of("/Foundation/attachments/");
    let b = chars_of("/Documents/Foundation/attachments/");
    assert(a@.len() == 24);
    assert(b@.len() == 34);
    let m = n.len();
    match rfind_chars(n, &a) {
        Some(idx) => {
            assert(idx + 24 <= m);
            Some(slice_chars(n, idx + 12, m))
        },
        None => match rfind_chars(n, &b) {
            Some(idx) => {
                assert(idx + 34 <= m);
                Some(slice_chars(n, idx + 22, m))
            },
            None => None,
        },
    }
}

/// The portable form of a stored file path (see [`portable_spec`]).
pub fn portable_path(stored: &str, data_dir: &str) -> (r: Option<String>)
    ensures
        match r {
            Some(p) => portable_spec(stored@, data_dir@) == Some(p@),
            None => portable_spec(stored@, data_dir@) is None,
        },
{
    let s = chars_of(stored);
    let stripped = if has_prefix(&s, "file://") {
        proof {
            reveal_strlit("file://");
        }
        slice_chars(&s, 7, s.len())
    } else {
        slice_chars(&s, 0, s.len())
    };
    assert(stripped@ == strip_file(stored@)) by {
        reveal_strlit("file://");
        assert(s@.subrange(0, s@.len() as int) =~= s@);
        assert(s@.subrange(7, s@.len() as int) =~= s@.skip(7));
    }
    match relative_to_chars(&stripped, &chars_of(data_dir)) {
        Some(rel) => Some(string_of(&slashes_of(&rel))),
        None => match anchored_chars(&slashes_of(&stripped)) {
            Some(x) => Some(string_of(&x)),
            None => None,
        },
    }
}

/// What becomes of a stored path (see [`path_action_spec`]).
pub fn path_action(stored: &str, data_dir: &str) -> (r: PathAction)
    ensures
        r@ == path_action_spec(stored@, data_dir@),
{
    let s = chars_of(stored);
    if has_prefix(&s, "http://") || has_prefix(&s, "https://") || has_prefix(&s, "data:") {
        return PathAction::NotAFile;
    }
    let file = has_prefix(&s, "file://");
    let stripped = if file {
        proof {
            reveal_strlit("file://");
        }
        slice_chars(&s, 7, s.len())
    } else {
        slice_chars(&s, 0, s.len())
    };
    assert(stripped@ == strip_file(stored@)) by {
        reveal_strlit("file://");
        assert(s@.subrange(0, s@.len() as int) =~= s@);
        assert(s@.subrange(7, s@.len() as int) =~= s@.skip(7));
    }
    if !has_prefix(&stripped, "/") && !file {
        return PathAction::AlreadyPortable;
    }
    match portable_path(stored, data_dir) {
        Some(p) => PathAction::Convert(p),
        None => PathAction::External,
    }
}

/// A path under `attachments/` as its bare file name (see [`collapse_spec`]).
pub fn collapse_attachment_path(stored: &str) -> (r: Option<String>)
    ensures
        match r {
            Some(p) => collapse_spec(stored@) == Some(p@),
            None => collapse_spec(stored@) is None,
        },
{
    proof {
        reveal_strlit("attachments/");
    }
    let n = slashes_of(&chars_of(stored));
    if has_prefix(&n, ATTACHMENTS_DIR) {
        let rest = slice_chars(&n, 12, n.len());
        assert(rest@ =~= n@.skip(12));
        let slash = vec!['/'];
        assert(slash@ =~= seq!['/']);
        if find_chars(&rest, &slash).is_none() {
            return Some(string_of(&rest));
        }
    }
    None
}

} // verus!
