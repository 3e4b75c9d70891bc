//! The executable search path: its directories, and the file that is probed
//! for a shell in one of them.

use vstd::prelude::*;
use vstd::string::StringExecFns;
use crate::text::{chars_of, split, split_on, string_of, texts};

verus! {

/// What separates the directories of a search path.
pub const PATH_LIST_SEPARATOR: char = ';';

/// The directory separator that is trimmed from the end of a search directory.
pub const TRAILING_SEPARATOR: char = '\\';

/// `s` without the run of `c` at its end.
pub open spec fn trim_trailing(s: Seq<char>, c: char) -> Seq<char>
    decreases s.len(),
{
    if s.len() > 0 && s.last() == c {
        trim_trailing(s.drop_last(), c)
    } else {
        s
    }
}

/// The directories that a search path names, in order. An empty search path
/// names none; in any other, every piece between two separators counts, an
/// empty one too.
pub open spec fn search_directories(path: Seq<char>) -> Seq<Seq<char>> {
    if path.len() == 0 {
        Seq::empty()
    } else {
        split(path, PATH_LIST_SEPARATOR)
    }
}

/// The file that is probed for the executable `exe` in the directory `dir`:
/// the directory without its trailing separators, a slash, and the
/// executable's name.
pub open spec fn candidate(dir: Seq<char>, exe: Seq<char>) -> Seq<char> {
    trim_trailing(dir, TRAILING_SEPARATOR) + seq!['/'] + exe
}

/// The directories of the search path `path`, in order.
pub fn search_directories_of(path: &str) -> (out: Vec<String>)
    ensures
        texts(out@) == search_directories(path@),
{
    if path.unicode_len() == 0 {
        let out: Vec<String> = Vec::new();
        assert(texts(out@) =~= Seq::<Seq<char>>::empty());
        out
    } else {
        split_on(path, PATH_LIST_SEPARATOR)
    }
}

/// `dir` without the directory separators at its end.
pub fn trim_directory(dir: &str) -> (out: String)
    ensures
        out@ == trim_trailing(dir@, TRAILING_SEPARATOR),
{
    let chars = chars_of(dir);
    let mut end: usize = chars.len();
    assert(chars@.subrange(0, end as int) =~= dir@);
    while end > 0 && chars[end - 1] == TRAILING_SEPARATOR
        invariant
            end <= chars.len(),
            chars@ == dir@,
            trim_trailing(dir@, TRAILING_SEPARATOR) == trim_trailing(
                chars@.subrange(0, end as int),
                TRAILING_SEPARATOR,
            ),
        decreases end,
    {
        assert(chars@.subrange(0, end as int).drop_last() =~= chars@.subrange(0, end - 1));
        end -= 1;
    }
    string_of(&chars, 0, end)
}

/// The path of the file to probe for `exe` in `dir`.
pub fn candidate_path(dir: &str, exe: &str) -> (out: String)
    ensures
        out@ == candidate(dir@, exe@),
{
    let mut out = trim_directory(dir);
    proof {
        reveal_strlit("/");
        assert("/"@ =~= seq!['/']);
    }
    out.append("/");
    out.append(exe);
    out
}

} // verus!
