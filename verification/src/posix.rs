//! Discovery on a POSIX-like host: the shells are the absolute paths that the
//! system's shell registry lists, one to a line.

use vstd::prelude::*;
use crate::text::{chars_of, first_index, lemma_first_index, lemma_first_index_is, string_of, texts};

verus! {

/// What ends a line.
pub const LINE_FEED: char = '\n';

/// What may stand before a line feed as part of the line's ending.
pub const CARRIAGE_RETURN: char = '\r';

/// What a registered shell's line begins with.
pub const PATH_ROOT: char = '/';

/// `line` without the carriage return at its end, if it has one.
pub open spec fn without_carriage_return(line: Seq<char>) -> Seq<char> {
    if line.len() > 0 && line.last() == CARRIAGE_RETURN {
        line.drop_last()
    } else {
        line
    }
}

/// The lines of a text. A line ends at a line feed, or at a carriage return
/// followed by one; the ending is no part of the line. What follows the last
/// line feed is a line of its own, taken as it stands, unless it is empty.
pub open spec fn lines(s: Seq<char>) -> Seq<Seq<char>>
    decreases s.len(),
{
    let k = first_index(s, LINE_FEED);
    if s.len() == 0 {
        Seq::empty()
    } else if 0 <= k < s.len() {
        seq![without_carriage_return(s.subrange(0, k))] + lines(
            s.subrange(k + 1, s.len() as int),
        )
    } else {
        seq![s]
    }
}

/// Whether a line names a shell: it begins at the root of the file system.
pub open spec fn is_registered(line: Seq<char>) -> bool {
    line.len() > 0 && line[0] == PATH_ROOT
}

/// `is_registered` as a predicate on lines.
pub open spec fn registered() -> spec_fn(Seq<char>) -> bool {
    |line: Seq<char>| is_registered(line)
}

/// What a registry holds: its text, or nothing where it is missing or cannot
/// be read.
pub open spec fn registry_text(registry: Option<&str>) -> Seq<char> {
    match registry {
        Some(content) => content@,
        None => Seq::empty(),
    }
}

/// The shells that a registry with the text `content` lists: its lines that
/// begin with the path root, as they stand and in their order. A line that
/// occurs twice is listed twice.
pub open spec fn registered_shells(content: Seq<char>) -> Seq<Seq<char>> {
    lines(content).filter(registered())
}

/// The lines of `s`, in order.
pub fn lines_of(s: &str) -> (out: Vec<String>)
    ensures
        texts(out@) == lines(s@),
{
    let chars = chars_of(s);
    let n = chars.len();
    let mut out: Vec<String> = Vec::new();
    let mut start: usize = 0;
    let mut i: usize = 0;
    proof {
        assert(chars@.subrange(0, n as int) =~= s@);
        assert(texts(out@) + lines(s@) =~= lines(s@));
    }
    while i < n
        invariant
            chars@ == s@,
            n == chars.len(),
            start <= i <= n,
            forall|j: int| start <= j < i ==> chars@[j] != LINE_FEED,
            lines(s@) == texts(out@) + lines(chars@.subrange(start as int, n as int)),
        decreases n - i,
    {
        if chars[i] == LINE_FEED {
            let end: usize = if start < i && chars[i - 1] == CARRIAGE_RETURN {
                i - 1
            } else {
                i
            };
            let line = string_of(&chars, start, end);
            proof {
                let tail = chars@.subrange(start as int, n as int);
                let k = i - start;
                lemma_first_index_is(tail, LINE_FEED, k);
                let raw = tail.subrange(0, k);
                assert(raw =~= chars@.subrange(start as int, i as int));
                assert(without_carriage_return(raw) =~= line@);
                assert(tail.subrange(k + 1, tail.len() as int) =~= chars@.subrange(
                    i + 1,
                    n as int,
                ));
                assert(texts(out@.push(line)) + lines(chars@.subrange(i + 1, n as int))
                    =~= texts(out@) + lines(tail));
            }
            out.push(line);
            start = i + 1;
        }
        i += 1;
    }
    proof {
        let tail = chars@.subrange(start as int, n as int);
        lemma_first_index_is(tail, LINE_FEED, tail.len() as int);
    }
    if start < n {
        let line = string_of(&chars, start, n);
        assert(texts(out@.push(line)) =~= texts(out@) + seq![line@]);
        out.push(line);
    } else {
        assert(texts(out@) + Seq::<Seq<char>>::empty() =~= texts(out@));
    }
    out
}

/// Whether `line` begins with the path root.
pub fn begins_at_root(line: &str) -> (yes: bool)
    ensures
        yes == is_registered(line@),
{
    line.unicode_len() > 0 && line.get_char(0) == PATH_ROOT
}

/// The shells that the registry lists. A registry that is missing or could
/// not be read lists none.
pub fn registered_shells_of(registry: Option<&str>) -> (out: Vec<String>)
    ensures
        texts(out@) == registered_shells(registry_text(registry)),
{
    let all = match registry {
        Some(content) => lines_of(content),
        None => {
            let none: Vec<String> = Vec::new();
            assert(texts(none@) =~= lines(Seq::empty()));
            none
        },
    };
    let mut out: Vec<String> = Vec::new();
    let mut i: usize = 0;
    proof {
        reveal(Seq::filter);
        assert(texts(all@).take(0) =~= Seq::empty());
        assert(texts(out@) =~= Seq::<Seq<char>>::empty());
    }
    while i < all.len()
        invariant
            i <= all.len(),
            texts(all@) == lines(registry_text(registry)),
            texts(out@) == texts(all@).take(i as int).filter(registered()),
        decreases all.len() - i,
    {
        proof {
            let seen = texts(all@).take(i as int);
            seen.lemma_filter_push(all@[i as int]@, registered());
            assert(texts(all@).take(i + 1) =~= seen.push(all@[i as int]@));
        }
        if begins_at_root(all[i].as_str()) {
            let line = all[i].clone();
            assert(texts(out@.push(line)) =~= texts(out@).push(line@));
            out.push(line);
        }
        i += 1;
    }
    assert(texts(all@).take(all.len() as int) =~= texts(all@));
    out
}

/// No line holds a line feed, and no text has more lines than characters.
pub proof fn lemma_lines_hold_no_line_feed(s: Seq<char>)
    ensures
        lines(s).len() <= s.len(),
        forall|i: int, j: int|
            0 <= i < lines(s).len() && 0 <= j < lines(s)[i].len() ==> lines(s)[i][j] != LINE_FEED,
    decreases s.len(),
{
    lemma_first_index(s, LINE_FEED);
    let k = first_index(s, LINE_FEED);
    if s.len() > 0 && k < s.len() {
        let rest = s.subrange(k + 1, s.len() as int);
        lemma_lines_hold_no_line_feed(rest);
        let all = lines(s);
        assert forall|i: int, j: int|
            0 <= i < all.len() && 0 <= j < all[i].len() implies all[i][j] != LINE_FEED by {
            if i > 0 {
                assert(all[i] == lines(rest)[i - 1]);
            }
        }
    }
}

/// A text without a line feed is its own one line, unless it is empty.
pub proof fn lemma_plain_text_is_one_line(s: Seq<char>)
    requires
        s.len() > 0,
        forall|j: int| 0 <= j < s.len() ==> s[j] != LINE_FEED,
    ensures
        lines(s) == seq![s],
{
    lemma_first_index_is(s, LINE_FEED, s.len() as int);
}

/// An empty registry lists no shell, and neither does one that is missing.
pub proof fn lemma_empty_registry_lists_nothing()
    ensures
        registered_shells(Seq::empty()) == Seq::<Seq<char>>::empty(),
        registered_shells(registry_text(None)) == Seq::<Seq<char>>::empty(),
{
    reveal(Seq::filter);
    assert(lines(Seq::empty()) =~= Seq::<Seq<char>>::empty());
}

/// Every listed shell is a line of the registry that begins with the path
/// root, and every such line is listed.
pub proof fn lemma_registered_shells_are_rooted_lines(content: Seq<char>)
    ensures
        forall|i: int|
            0 <= i < registered_shells(content).len() ==> is_registered(
                #[trigger] registered_shells(content)[i],
            ) && lines(content).contains(registered_shells(content)[i]),
        forall|i: int|
            0 <= i < lines(content).len() && is_registered(#[trigger] lines(content)[i])
                ==> registered_shells(content).contains(lines(content)[i]),
        registered_shells(content).len() <= lines(content).len(),
{
    let all = lines(content);
    let listed = registered_shells(content);
    assert forall|i: int| 0 <= i < listed.len() implies is_registered(#[trigger] listed[i])
        && all.contains(listed[i]) by {
        all.lemma_filter_pred(registered(), i);
        assert(listed.contains(listed[i]));
        all.lemma_filter_contains_rev(registered(), listed[i]);
    }
    assert forall|i: int| 0 <= i < all.len() && is_registered(#[trigger] all[i]) implies listed.contains(
        all[i],
    ) by {
        all.lemma_filter_contains(registered(), i);
    }
    all.lemma_filter_len(registered());
}

} // verus!
