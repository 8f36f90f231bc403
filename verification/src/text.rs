//! Searching and splitting of character sequences.
//!
//! Text is handled as `Vec<char>` inside the library, so that every position
//! is a character position and the contracts can speak of `Seq<char>` directly.

use vstd::prelude::*;

verus! {

/// `String::push` appends one character to the end of the string.
pub assume_specification[ String::push ](s: &mut String, c: char)
    ensures
        final(s)@ == old(s)@.push(c),
;

/// Whether `pat` stands in `s` at index `i`.
pub open spec fn occurs_at<T>(s: Seq<T>, pat: Seq<T>, i: int) -> bool {
    &&& 0 <= i
    &&& i + pat.len() <= s.len()
    &&& s.subrange(i, i + pat.len()) == pat
}

/// The index of the first occurrence of `pat` in `s` at or after `from`.
pub open spec fn find_from<T>(s: Seq<T>, pat: Seq<T>, from: int) -> Option<int>
    decreases s.len() - from + 1,
{
    if from < 0 || from + pat.len() > s.len() {
        None
    } else if occurs_at(s, pat, from) {
        Some(from)
    } else {
        find_from(s, pat, from + 1)
    }
}

/// The index of the first occurrence of `pat` in `s`.
pub open spec fn find<T>(s: Seq<T>, pat: Seq<T>) -> Option<int> {
    find_from(s, pat, 0)
}

/// The pieces of `s` from index `from` on, cut at each occurrence of `pat`,
/// taken from left to right without overlap. The separators are dropped.
pub open spec fn split_from<T>(s: Seq<T>, pat: Seq<T>, from: int) -> Seq<Seq<T>>
    decreases s.len() - from,
{
    match find_from(s, pat, from) {
        Some(i) if pat.len() > 0 && from <= i && i + pat.len() <= s.len() => seq![
            s.subrange(from, i),
        ] + split_from(s, pat, i + pat.len()),
        _ => seq![s.subrange(from, s.len() as int)],
    }
}

/// The pieces of `s` between the occurrences of `pat`. There is always at
/// least one piece; an empty `s` gives one empty piece.
pub open spec fn split<T>(s: Seq<T>, pat: Seq<T>) -> Seq<Seq<T>> {
    split_from(s, pat, 0)
}

/// Whether `s` begins with `prefix`.
pub open spec fn starts_with<T>(s: Seq<T>, prefix: Seq<T>) -> bool {
    occurs_at(s, prefix, 0)
}

/// The character sequences held by a vector of character vectors.
pub open spec fn views(parts: Seq<Vec<char>>) -> Seq<Seq<char>> {
    parts.map_values(|v: Vec<char>| v@)
}

/// The character sequences held by a vector of strings.
pub open spec fn string_views(lines: Seq<String>) -> Seq<Seq<char>> {
    lines.map_values(|s: String| s@)
}

/// The text of an optional string.
pub open spec fn option_view(text: Option<String>) -> Option<Seq<char>> {
    match text {
        Some(t) => Some(t@),
        None => None,
    }
}

/// The texts of a sequence of pairs of strings.
pub open spec fn pair_views(pairs: Seq<(String, String)>) -> Seq<(Seq<char>, Seq<char>)> {
    pairs.map_values(|p: (String, String)| (p.0@, p.1@))
}

/// `find_from` returns the least index at or after `from` at which `pat`
/// stands, and `None` exactly when there is no such index.
pub proof fn lemma_find_from<T>(s: Seq<T>, pat: Seq<T>, from: int)
    requires
        0 <= from,
    ensures
        match find_from(s, pat, from) {
            Some(i) => {
                &&& from <= i
                &&& occurs_at(s, pat, i)
                &&& forall|j: int| from <= j < i ==> !occurs_at(s, pat, j)
            },
            None => forall|j: int| from <= j ==> !occurs_at(s, pat, j),
        },
    decreases s.len() - from + 1,
{
    if from + pat.len() > s.len() {
    } else if occurs_at(s, pat, from) {
    } else {
        lemma_find_from(s, pat, from + 1);
    }
}

/// An occurrence at `i` with none between `from` and `i` is the one that
/// `find_from` returns.
pub proof fn lemma_find_from_is<T>(s: Seq<T>, pat: Seq<T>, from: int, i: int)
    requires
        0 <= from <= i,
        occurs_at(s, pat, i),
        forall|j: int| from <= j < i ==> !occurs_at(s, pat, j),
    ensures
        find_from(s, pat, from) == Some(i),
    decreases i - from,
{
    if from < i {
        lemma_find_from_is(s, pat, from + 1, i);
    }
}

/// The pieces put together again, with `pat` between each two of them.
pub open spec fn join<T>(pieces: Seq<Seq<T>>, pat: Seq<T>) -> Seq<T>
    decreases pieces.len(),
{
    if pieces.len() == 0 {
        Seq::empty()
    } else if pieces.len() == 1 {
        pieces[0]
    } else {
        pieces[0] + pat + join(pieces.drop_first(), pat)
    }
}

/// The pieces of a split, joined with the separator, are what was split, and
/// no piece holds the separator.
pub proof fn lemma_split_from<T>(s: Seq<T>, pat: Seq<T>, from: int)
    requires
        0 <= from <= s.len(),
        pat.len() > 0,
    ensures
        split_from(s, pat, from).len() > 0,
        join(split_from(s, pat, from), pat) == s.skip(from),
        forall|k: int|
            0 <= k < split_from(s, pat, from).len() ==> find(
                #[trigger] split_from(s, pat, from)[k],
                pat,
            ) is None,
    decreases s.len() - from,
{
    let pieces = split_from(s, pat, from);
    lemma_find_from(s, pat, from);
    match find_from(s, pat, from) {
        Some(i) => {
            let piece = s.subrange(from, i);
            let rest = split_from(s, pat, i + pat.len());
            lemma_split_from(s, pat, i + pat.len());
            lemma_piece_without(s, pat, from, i);
            assert(pieces.drop_first() =~= rest);
            assert(piece + pat + s.skip(i + pat.len()) =~= s.skip(from));
            assert forall|k: int| 0 <= k < pieces.len() implies find(#[trigger] pieces[k], pat)
                is None by {
                if k > 0 {
                    assert(pieces[k] == rest[k - 1]);
                }
            }
        },
        None => {
            lemma_piece_without(s, pat, from, s.len() as int);
            assert(s.subrange(from, s.len() as int) =~= s.skip(from));
        },
    }
}

/// A part of `s` in which `pat` stands nowhere, as a part of `s`, does not
/// hold `pat`.
proof fn lemma_piece_without<T>(s: Seq<T>, pat: Seq<T>, from: int, to: int)
    requires
        0 <= from <= to <= s.len(),
        forall|j: int| from <= j && j + pat.len() <= to ==> !occurs_at(s, pat, j),
    ensures
        find(s.subrange(from, to), pat) is None,
{
    let piece = s.subrange(from, to);
    lemma_find_from(piece, pat, 0);
    if find(piece, pat) is Some {
        let j = find(piece, pat)->0;
        assert(piece.subrange(j, j + pat.len()) =~= s.subrange(from + j, from + j + pat.len()));
        assert(occurs_at(s, pat, from + j));
    }
}

/// The pieces of a split, joined with the separator, are what was split, and
/// no piece holds the separator.
pub proof fn lemma_split<T>(s: Seq<T>, pat: Seq<T>)
    requires
        pat.len() > 0,
    ensures
        split(s, pat).len() > 0,
        join(split(s, pat), pat) == s,
        forall|k: int|
            0 <= k < split(s, pat).len() ==> find(#[trigger] split(s, pat)[k], pat) is None,
{
    lemma_split_from(s, pat, 0);
    assert(s.skip(0) =~= s);
}

/// The characters of a string.
pub fn to_chars(s: &str) -> (v: Vec<char>)
    ensures
        v@ == s@,
{
    let mut v: Vec<char> = Vec::new();
    for c in it: s.chars()
        invariant
            v@ == it.seq().take(it.index() as int),
            it.seq() == s@,
    {
        v.push(c);
    }
    v
}

/// The string made of the characters of `v` from index `from` up to `to`.
pub fn chars_to_string(v: &Vec<char>, from: usize, to: usize) -> (s: String)
    requires
        from <= to <= v.len(),
    ensures
        s@ == v@.subrange(from as int, to as int),
{
    let mut s = String::new();
    let mut i: usize = from;
    while i < to
        invariant
            from <= i <= to <= v.len(),
            s@ == v@.subrange(from as int, i as int),
        decreases to - i,
    {
        s.push(v[i]);
        i += 1;
    }
    s
}

/// The characters of `v` from index `from` up to `to`.
pub fn slice(v: &Vec<char>, from: usize, to: usize) -> (r: Vec<char>)
    requires
        from <= to <= v.len(),
    ensures
        r@ == v@.subrange(from as int, to as int),
{
    let mut r: Vec<char> = Vec::new();
    let mut i: usize = from;
    while i < to
        invariant
            from <= i <= to <= v.len(),
            r@ == v@.subrange(from as int, i as int),
        decreases to - i,
    {
        r.push(v[i]);
        i += 1;
    }
    r
}

/// Whether two character vectors hold the same text.
pub fn same_chars(a: &Vec<char>, b: &Vec<char>) -> (r: bool)
    ensures
        r == (a@ == b@),
{
    if a.len() != b.len() {
        return false;
    }
    let mut i: usize = 0;
    while i < a.len()
        invariant
            i <= a.len() == b.len(),
            forall|k: int| 0 <= k < i ==> a@[k] == b@[k],
        decreases a.len() - i,
    {
        if a[i] != b[i] {
            return false;
        }
        i += 1;
    }
    assert(a@ =~= b@);
    true
}

/// Whether `pat` stands in `s` at index `i`.
pub fn matches_at(s: &Vec<char>, pat: &Vec<char>, i: usize) -> (r: bool)
    ensures
        r == occurs_at(s@, pat@, i as int),
{
    if pat.len() > s.len() || i > s.len() - pat.len() {
        return false;
    }
    let mut k: usize = 0;
    while k < pat.len()
        invariant
            k <= pat.len(),
            i + pat.len() <= s.len(),
            forall|j: int| 0 <= j < k ==> s@[i + j] == pat@[j],
        decreases pat.len() - k,
    {
        if s[i + k] != pat[k] {
            assert(s@.subrange(i as int, i + pat.len())[k as int] != pat@[k as int]);
            return false;
        }
        k += 1;
    }
    assert(s@.subrange(i as int, i + pat.len()) =~= pat@);
    true
}

/// The index of the first occurrence of `pat` in `s` at or after `from`.
pub fn find_chars(s: &Vec<char>, pat: &Vec<char>, from: usize) -> (r: Option<usize>)
    ensures
        match r {
            Some(i) => find_from(s@, pat@, from as int) == Some(i as int),
            None => find_from(s@, pat@, from as int) is None,
        },
{
    if pat.len() > s.len() {
        return None;
    }
    let last: usize = s.len() - pat.len();
    let mut i: usize = from;
    while i <= last
        invariant
            from <= i,
            last == s.len() - pat.len(),
            find_from(s@, pat@, from as int) == find_from(s@, pat@, i as int),
        decreases last - i,
    {
        if matches_at(s, pat, i) {
            return Some(i);
        }
        if i == last {
            assert(find_from(s@, pat@, i + 1) is None);
            return None;
        }
        i += 1;
    }
    None
}

/// The pieces of `s` between the occurrences of `pat`.
pub fn split_chars(s: &Vec<char>, pat: &Vec<char>) -> (parts: Vec<Vec<char>>)
    requires
        pat@.len() > 0,
    ensures
        views(parts@) == split(s@, pat@),
{
    let mut parts: Vec<Vec<char>> = Vec::new();
    let mut start: usize = 0;
    loop
        invariant
            start <= s.len(),
            pat@.len() > 0,
            split(s@, pat@) == views(parts@) + split_from(s@, pat@, start as int),
        decreases s.len() - start,
    {
        proof {
            lemma_find_from(s@, pat@, start as int);
        }
        let ghost before = views(parts@);
        match find_chars(s, pat, start) {
            Some(i) => {
                parts.push(slice(s, start, i));
                assert(views(parts@) =~= before.push(s@.subrange(start as int, i as int)));
                assert(before + (seq![s@.subrange(start as int, i as int)] + split_from(
                    s@,
                    pat@,
                    i + pat@.len(),
                )) =~= before.push(s@.subrange(start as int, i as int)) + split_from(
                    s@,
                    pat@,
                    i + pat@.len(),
                ));
                start = i + pat.len();
            },
            None => {
                parts.push(slice(s, start, s.len()));
                assert(views(parts@) =~= before.push(s@.subrange(start as int, s@.len() as int)));
                assert(views(parts@) =~= before + split_from(s@, pat@, start as int));
                return parts;
            },
        }
    }
}

} // verus!
