//! Searching, splitting and trimming text.
//!
//! Text is modelled as the sequence of its characters.

use vstd::prelude::*;

verus! {

/// The contents of a list of strings.
pub open spec fn views(list: Seq<String>) -> Seq<Seq<char>> {
    list.map_values(|s: String| s@)
}

/// Position of the first `c` in `s`, or the length of `s` if there is none.
pub open spec fn first_of(s: Seq<char>, c: char) -> int
    decreases s.len(),
{
    if s.len() == 0 || s[0] == c {
        0
    } else {
        1 + first_of(s.drop_first(), c)
    }
}

/// Position of the last `c` in `s`, or `-1` if there is none.
pub open spec fn last_of(s: Seq<char>, c: char) -> int
    decreases s.len(),
{
    if s.len() == 0 || s.last() == c {
        s.len() - 1
    } else {
        last_of(s.drop_last(), c)
    }
}

/// The pieces of `s` between the occurrences of `sep`: one more piece than
/// there are separators, empty pieces included.
pub open spec fn split(s: Seq<char>, sep: char) -> Seq<Seq<char>>
    decreases s.len(),
{
    let i = first_of(s, sep);
    if 0 <= i < s.len() {
        seq![s.take(i)] + split(s.skip(i + 1), sep)
    } else {
        seq![s]
    }
}

/// What stands before and after the first `sep`, if there is one.
pub open spec fn split_once(s: Seq<char>, sep: char) -> Option<(Seq<char>, Seq<char>)> {
    let i = first_of(s, sep);
    if i < s.len() {
        Some((s.take(i), s.skip(i + 1)))
    } else {
        None
    }
}

/// `s` without the run of `c` at its start.
pub open spec fn trim_start_matches(s: Seq<char>, c: char) -> Seq<char>
    decreases s.len(),
{
    if s.len() > 0 && s[0] == c {
        trim_start_matches(s.drop_first(), c)
    } else {
        s
    }
}

/// `s` without the run of `c` at its end.
pub open spec fn trim_end_matches(s: Seq<char>, c: char) -> Seq<char>
    decreases s.len(),
{
    if s.len() > 0 && s.last() == c {
        trim_end_matches(s.drop_last(), c)
    } else {
        s
    }
}

/// The characters with the Unicode property `White_Space`.
pub open spec fn white_space(c: char) -> bool {
    ||| '\u{9}' <= c <= '\u{d}'
    ||| c == ' '
    ||| c == '\u{85}'
    ||| c == '\u{a0}'
    ||| c == '\u{1680}'
    ||| '\u{2000}' <= c <= '\u{200a}'
    ||| c == '\u{2028}'
    ||| c == '\u{2029}'
    ||| c == '\u{202f}'
    ||| c == '\u{205f}'
    ||| c == '\u{3000}'
}

/// `s` without the white space at its start.
pub open spec fn trim_start(s: Seq<char>) -> Seq<char>
    decreases s.len(),
{
    if s.len() > 0 && white_space(s[0]) {
        trim_start(s.drop_first())
    } else {
        s
    }
}

/// `s` without the white space at its end.
pub open spec fn trim_end(s: Seq<char>) -> Seq<char>
    decreases s.len(),
{
    if s.len() > 0 && white_space(s.last()) {
        trim_end(s.drop_last())
    } else {
        s
    }
}

/// `s` without the white space at either end.
pub open spec fn trim(s: Seq<char>) -> Seq<char> {
    trim_end(trim_start(s))
}

/// What [`first_of`] finds.
pub proof fn lemma_first_of(s: Seq<char>, c: char)
    ensures
        0 <= first_of(s, c) <= s.len(),
        first_of(s, c) < s.len() ==> s[first_of(s, c)] == c,
        forall|k: int| 0 <= k < first_of(s, c) ==> s[k] != c,
        s.contains(c) <==> first_of(s, c) < s.len(),
    decreases s.len(),
{
    if s.len() == 0 || s[0] == c {
        if s.len() > 0 {
            assert(s.contains(s[0]));
        }
    } else {
        let t = s.drop_first();
        lemma_first_of(t, c);
        assert forall|k: int| 0 <= k < first_of(s, c) implies s[k] != c by {
            if k > 0 {
                assert(s[k] == t[k - 1]);
            }
        }
        if first_of(s, c) < s.len() {
            assert(s[first_of(s, c)] == t[first_of(t, c)]);
        }
        if s.contains(c) {
            let k = choose|k: int| 0 <= k < s.len() && s[k] == c;
            assert(t[k - 1] == c);
            assert(t.contains(c));
        }
    }
}

/// A position with no `c` before it, that holds `c` or is the end, is the
/// first one.
pub proof fn lemma_first_of_is(s: Seq<char>, c: char, i: int)
    requires
        0 <= i <= s.len(),
        forall|k: int| 0 <= k < i ==> s[k] != c,
        i < s.len() ==> s[i] == c,
    ensures
        first_of(s, c) == i,
{
    lemma_first_of(s, c);
    let f = first_of(s, c);
    if f < i {
        assert(s[f] != c);
    }
}

/// What [`last_of`] finds.
pub proof fn lemma_last_of(s: Seq<char>, c: char)
    ensures
        -1 <= last_of(s, c) < s.len(),
        last_of(s, c) >= 0 ==> s[last_of(s, c)] == c,
        forall|k: int| last_of(s, c) < k < s.len() ==> s[k] != c,
        s.contains(c) <==> last_of(s, c) >= 0,
    decreases s.len(),
{
    if s.len() == 0 || s.last() == c {
        if s.len() > 0 {
            assert(s.contains(s.last()));
        }
    } else {
        let t = s.drop_last();
        lemma_last_of(t, c);
        if last_of(s, c) >= 0 {
            assert(s[last_of(s, c)] == t[last_of(t, c)]);
        }
        assert forall|k: int| last_of(s, c) < k < s.len() implies s[k] != c by {
            if k < t.len() {
                assert(s[k] == t[k]);
            }
        }
    }
}

/// A position that holds `c`, with no `c` after it, is the last one.
pub proof fn lemma_last_of_is(s: Seq<char>, c: char, i: int)
    requires
        -1 <= i < s.len(),
        forall|k: int| i < k < s.len() ==> s[k] != c,
        i >= 0 ==> s[i] == c,
    ensures
        last_of(s, c) == i,
{
    lemma_last_of(s, c);
    let f = last_of(s, c);
    if f > i {
        assert(s[f] != c);
    }
}

/// Text without the separator is one piece.
pub proof fn lemma_split_whole(s: Seq<char>, sep: char)
    requires
        !s.contains(sep),
    ensures
        split(s, sep) == seq![s],
{
    lemma_first_of(s, sep);
}

/// The pieces of two texts joined by the separator are the pieces of the one
/// and of the other.
pub proof fn lemma_split_join(a: Seq<char>, b: Seq<char>, sep: char)
    ensures
        split(a + seq![sep] + b, sep) == split(a, sep) + split(b, sep),
    decreases a.len(),
{
    let s = a + seq![sep] + b;
    lemma_first_of(a, sep);
    let i = first_of(a, sep);
    assert forall|k: int| 0 <= k < i implies s[k] != sep by {
        assert(s[k] == a[k]);
    }
    if i < a.len() {
        assert(s[i] == a[i]);
        lemma_first_of_is(s, sep, i);
        assert(s.take(i) =~= a.take(i));
        assert(s.skip(i + 1) =~= a.skip(i + 1) + seq![sep] + b);
        lemma_split_join(a.skip(i + 1), b, sep);
        assert(split(s, sep) =~= split(a, sep) + split(b, sep));
    } else {
        lemma_first_of_is(s, sep, i);
        assert(s.take(i) =~= a);
        assert(s.skip(i + 1) =~= b);
    }
}

/// Trimming takes away the white space at either end, and nothing else.
pub proof fn lemma_trim_parts(before: Seq<char>, middle: Seq<char>, after: Seq<char>)
    requires
        forall|k: int| 0 <= k < before.len() ==> white_space(#[trigger] before[k]),
        forall|k: int| 0 <= k < after.len() ==> white_space(#[trigger] after[k]),
        middle.len() > 0,
        !white_space(middle[0]),
        !white_space(middle.last()),
    ensures
        trim(before + middle + after) == middle,
    decreases before.len() + after.len(),
{
    let s = before + middle + after;
    if before.len() > 0 {
        assert(s[0] == before[0]);
        let r = before.drop_first();
        assert forall|k: int| 0 <= k < r.len() implies white_space(#[trigger] r[k]) by {
            assert(white_space(before[k + 1]));
        }
        lemma_trim_parts(r, middle, after);
        assert(s.drop_first() =~= r + middle + after);
    } else {
        assert(s =~= middle + after);
        assert(s[0] == middle[0]);
        assert(trim_start(s) == s);
        lemma_trim_end_parts(middle, after);
    }
}

proof fn lemma_trim_end_parts(middle: Seq<char>, after: Seq<char>)
    requires
        forall|k: int| 0 <= k < after.len() ==> white_space(#[trigger] after[k]),
        middle.len() > 0,
        !white_space(middle.last()),
    ensures
        trim_end(middle + after) == middle,
    decreases after.len(),
{
    let s = middle + after;
    if after.len() > 0 {
        assert(s.last() == after.last());
        let r = after.drop_last();
        assert forall|k: int| 0 <= k < r.len() implies white_space(#[trigger] r[k]) by {
            assert(white_space(after[k]));
        }
        lemma_trim_end_parts(middle, r);
        assert(s.drop_last() =~= middle + r);
    } else {
        assert(s =~= middle);
    }
}

/// The text without the run of a character at its start is what follows that
/// run.
pub proof fn lemma_trim_start_matches(run: nat, rest: Seq<char>, c: char)
    requires
        rest.len() == 0 || rest[0] != c,
    ensures
        trim_start_matches(Seq::new(run, |k: int| c) + rest, c) == rest,
    decreases run,
{
    let s = Seq::new(run, |k: int| c) + rest;
    if run > 0 {
        lemma_trim_start_matches((run - 1) as nat, rest, c);
        assert(s.drop_first() =~= Seq::new((run - 1) as nat, |k: int| c) + rest);
        assert(s[0] == c);
    } else {
        assert(s =~= rest);
    }
}

/// The text without the run of a character at its end is what precedes that
/// run.
pub proof fn lemma_trim_end_matches(rest: Seq<char>, run: nat, c: char)
    requires
        rest.len() == 0 || rest.last() != c,
    ensures
        trim_end_matches(rest + Seq::new(run, |k: int| c), c) == rest,
    decreases run,
{
    let s = rest + Seq::new(run, |k: int| c);
    if run > 0 {
        lemma_trim_end_matches(rest, (run - 1) as nat, c);
        assert(s.drop_last() =~= rest + Seq::new((run - 1) as nat, |k: int| c));
        assert(s.last() == c);
    } else {
        assert(s =~= rest);
    }
}

/// The white space of Unicode, by code point.
pub proof fn law_white_space_by_code_point(c: char)
    ensures
        white_space(c) <==> {
            let code = c as int;
            9 <= code <= 13 || code == 0x20 || code == 0x85 || code == 0xa0 || code == 0x1680
                || 0x2000 <= code <= 0x200a || code == 0x2028 || code == 0x2029 || code == 0x202f
                || code == 0x205f || code == 0x3000
        },
{
}

/// The characters of a string.
pub fn chars_of(s: &str) -> (chars: Vec<char>)
    ensures
        chars@ == s@,
{
    let mut chars: Vec<char> = Vec::new();
    for c in it: s.chars()
        invariant
            it.seq() == s@,
            chars@ == s@.take(it.index()),
    {
        chars.push(c);
    }
    chars
}

/// Whether two strings hold the same text.
pub fn same_text(a: &str, b: &str) -> (same: bool)
    ensures
        same == (a@ == b@),
{
    let left: String = a.to_owned();
    let right: String = b.to_owned();
    left == right
}

/// Position, in characters, of the first `c`.
pub fn find_char(s: &str, c: char) -> (found: Option<usize>)
    ensures
        match found {
            Some(i) => i == first_of(s@, c) && i < s@.len() <= usize::MAX,
            None => first_of(s@, c) == s@.len(),
        },
{
    let chars: Vec<char> = chars_of(s);
    let mut i: usize = 0;
    while i < chars.len()
        invariant
            chars@ == s@,
            i <= chars.len(),
            forall|k: int| 0 <= k < i ==> s@[k] != c,
        decreases chars.len() - i,
    {
        if chars[i] == c {
            proof {
                lemma_first_of_is(s@, c, i as int);
            }
            return Some(i);
        }
        i = i + 1;
    }
    proof {
        lemma_first_of_is(s@, c, i as int);
    }
    None
}

/// Position, in characters, of the last `c`.
pub fn rfind_char(s: &str, c: char) -> (found: Option<usize>)
    ensures
        match found {
            Some(i) => i == last_of(s@, c) && i < s@.len() <= usize::MAX,
            None => last_of(s@, c) == -1,
        },
{
    let chars: Vec<char> = chars_of(s);
    let mut i: usize = chars.len();
    while i > 0
        invariant
            chars@ == s@,
            i <= chars.len(),
            forall|k: int| i <= k < s@.len() ==> s@[k] != c,
        decreases i,
    {
        i = i - 1;
        if chars[i] == c {
            proof {
                lemma_last_of_is(s@, c, i as int);
            }
            return Some(i);
        }
    }
    proof {
        lemma_last_of_is(s@, c, -1);
    }
    None
}

/// Splits at the first `sep`.
pub fn split_text_once<'a>(s: &'a str, sep: char) -> (halves: Option<(&'a str, &'a str)>)
    ensures
        match halves {
            Some((before, after)) => split_once(s@, sep) == Some((before@, after@)),
            None => split_once(s@, sep) is None,
        },
{
    match find_char(s, sep) {
        Some(i) => {
            let n: usize = s.unicode_len();
            let before = s.substring_char(0, i);
            let after = s.substring_char(i + 1, n);
            assert(before@ == s@.take(i as int));
            assert(after@ == s@.skip(i + 1));
            Some((before, after))
        },
        None => None,
    }
}

/// Splits at every `sep`.
pub fn split_text(s: &str, sep: char) -> (pieces: Vec<String>)
    ensures
        views(pieces@) == split(s@, sep),
{
    let chars: Vec<char> = chars_of(s);
    let mut pieces: Vec<String> = Vec::new();
    let mut start: usize = 0;
    let mut i: usize = 0;
    assert(s@.skip(0) == s@);
    assert(views(pieces@) + split(s@.skip(0), sep) == split(s@, sep));
    while i < chars.len()
        invariant
            chars@ == s@,
            start <= i <= chars.len(),
            forall|k: int| start <= k < i ==> s@[k] != sep,
            views(pieces@) + split(s@.skip(start as int), sep) == split(s@, sep),
        decreases chars.len() - i,
    {
        if chars[i] == sep {
            let piece: String = s.substring_char(start, i).to_owned();
            let ghost rest = s@.skip(start as int);
            let ghost done = pieces@;
            proof {
                lemma_first_of_is(rest, sep, i - start);
                assert(piece@ == rest.take(i - start));
                assert(rest.skip(i - start + 1) == s@.skip(i + 1));
            }
            pieces.push(piece);
            proof {
                assert(views(pieces@) == views(done).push(piece@));
                assert(views(pieces@) + split(s@.skip(i + 1), sep) == views(done) + (seq![piece@]
                    + split(s@.skip(i + 1), sep)));
            }
            start = i + 1;
        }
        i = i + 1;
    }
    let piece: String = s.substring_char(start, i).to_owned();
    let ghost rest = s@.skip(start as int);
    let ghost done = pieces@;
    proof {
        lemma_first_of_is(rest, sep, i - start);
        assert(piece@ == rest);
    }
    pieces.push(piece);
    assert(views(pieces@) == views(done) + seq![piece@]);
    pieces
}

/// Removes the run of `c` at the start.
pub fn trim_text_start_matches<'a>(s: &'a str, c: char) -> (rest: &'a str)
    ensures
        rest@ == trim_start_matches(s@, c),
{
    let chars: Vec<char> = chars_of(s);
    let mut i: usize = 0;
    assert(s@.skip(0) == s@);
    while i < chars.len() && chars[i] == c
        invariant
            chars@ == s@,
            i <= chars.len(),
            trim_start_matches(s@.skip(i as int), c) == trim_start_matches(s@, c),
        decreases chars.len() - i,
    {
        assert(s@.skip(i as int).drop_first() == s@.skip(i + 1));
        i = i + 1;
    }
    s.substring_char(i, chars.len())
}

/// Removes the run of `c` at the end.
pub fn trim_text_end_matches<'a>(s: &'a str, c: char) -> (rest: &'a str)
    ensures
        rest@ == trim_end_matches(s@, c),
{
    let chars: Vec<char> = chars_of(s);
    let mut end: usize = chars.len();
    assert(s@.take(end as int) == s@);
    while end > 0 && chars[end - 1] == c
        invariant
            chars@ == s@,
            end <= chars.len(),
            trim_end_matches(s@.take(end as int), c) == trim_end_matches(s@, c),
        decreases end,
    {
        assert(s@.take(end as int).drop_last() == s@.take(end - 1));
        end = end - 1;
    }
    s.substring_char(0, end)
}

/// Whether `c` has the Unicode property `White_Space`.
pub fn is_white_space(c: char) -> (yes: bool)
    ensures
        yes == white_space(c),
{
    ('\u{9}' <= c && c <= '\u{d}') || c == ' ' || c == '\u{85}' || c == '\u{a0}' || c == '\u{1680}'
        || ('\u{2000}' <= c && c <= '\u{200a}') || c == '\u{2028}' || c == '\u{2029}' || c
        == '\u{202f}' || c == '\u{205f}' || c == '\u{3000}'
}

/// Removes the white space at either end.
pub fn trim_text<'a>(s: &'a str) -> (rest: &'a str)
    ensures
        rest@ == trim(s@),
{
    let chars: Vec<char> = chars_of(s);
    let mut i: usize = 0;
    assert(s@.skip(0) == s@);
    while i < chars.len() && is_white_space(chars[i])
        invariant
            chars@ == s@,
            i <= chars.len(),
            trim_start(s@.skip(i as int)) == trim_start(s@),
        decreases chars.len() - i,
    {
        assert(s@.skip(i as int).drop_first() == s@.skip(i + 1));
        i = i + 1;
    }
    let ghost t = s@.skip(i as int);
    assert(t == trim_start(s@));
    let mut end: usize = chars.len();
    assert(t.take(end - i) == t);
    while end > i && is_white_space(chars[end - 1])
        invariant
            chars@ == s@,
            i <= end <= chars.len(),
            t == s@.skip(i as int),
            trim_end(t.take(end - i)) == trim_end(t),
        decreases end,
    {
        assert(t.take(end - i).drop_last() == t.take(end - i - 1));
        end = end - 1;
    }
    assert(t.take(end - i) == s@.subrange(i as int, end as int));
    s.substring_char(i, end)
}

} // verus!
