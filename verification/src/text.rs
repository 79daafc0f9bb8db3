//! Text and sequence handling shared by the loader, the recency store and
//! the search engine.
//!
//! Text is modelled as `Seq<char>`. Executable code works on `Vec<char>` so
//! that positions are character positions, and converts from and to `String`
//! at the edges.

use vstd::prelude::*;

verus! {

/// The first `limit` items of `s`, or all of `s` when it holds fewer.
pub open spec fn first<T>(s: Seq<T>, limit: nat) -> Seq<T> {
    if limit < s.len() {
        s.take(limit as int)
    } else {
        s
    }
}

/// Position of the first `x` in `s`, or `s.len()` when `s` holds none.
pub open spec fn first_index<T>(s: Seq<T>, x: T) -> int
    decreases s.len(),
{
    if s.len() == 0 {
        0
    } else if s[0] == x {
        0
    } else {
        1 + first_index(s.skip(1), x)
    }
}

/// The pieces of `s` between occurrences of `sep`. There is always at least
/// one piece; neighbouring separators give an empty piece between them.
pub open spec fn split(s: Seq<char>, sep: char) -> Seq<Seq<char>>
    decreases s.len(),
{
    let i = first_index(s, sep);
    if 0 <= i < s.len() {
        seq![s.take(i)] + split(s.skip(i + 1), sep)
    } else {
        seq![s]
    }
}

/// `ls` with one `sep` between neighbours.
pub open spec fn join(ls: Seq<Seq<char>>, sep: char) -> Seq<char>
    decreases ls.len(),
{
    if ls.len() == 0 {
        seq![]
    } else if ls.len() == 1 {
        ls[0]
    } else {
        join(ls.drop_last(), sep) + seq![sep] + ls.last()
    }
}

/// `l` without one trailing carriage return.
pub open spec fn strip_cr(l: Seq<char>) -> Seq<char> {
    if l.len() > 0 && l.last() == '\r' {
        l.drop_last()
    } else {
        l
    }
}

/// The lines of `s`. A line ends at `"\n"` or `"\r\n"`; the ending is not part
/// of the line. The last line needs no ending, and an empty remainder after
/// the last ending is no line. A carriage return that is not followed by a
/// line feed stays in its line.
pub open spec fn lines(s: Seq<char>) -> Seq<Seq<char>> {
    let parts = split(s, '\n');
    let ended = parts.drop_last().map_values(|l: Seq<char>| strip_cr(l));
    if parts.last().len() == 0 {
        ended
    } else {
        ended.push(parts.last())
    }
}

/// What one character of a name becomes when the name is stored.
pub open spec fn sanitize_char(c: char) -> Seq<char> {
    if c == '&' {
        seq!['a', 'n', 'd']
    } else {
        seq![c]
    }
}

/// `s` with every `&` replaced by the word `and`.
pub open spec fn sanitize(s: Seq<char>) -> Seq<char>
    decreases s.len(),
{
    if s.len() == 0 {
        seq![]
    } else {
        sanitize(s.drop_last()) + sanitize_char(s.last())
    }
}

/// `needle` stands in `hay` at position `i`.
pub open spec fn occurs_at(needle: Seq<char>, hay: Seq<char>, i: int) -> bool {
    &&& 0 <= i
    &&& i + needle.len() <= hay.len()
    &&& hay.subrange(i, i + needle.len()) == needle
}

/// `needle` is a contiguous part of `hay`. The empty text is part of every
/// text.
pub open spec fn occurs_in(needle: Seq<char>, hay: Seq<char>) -> bool {
    exists|i: int| occurs_at(needle, hay, i)
}

/// The views of the rows of `v`.
pub open spec fn rows(v: Seq<Vec<char>>) -> Seq<Seq<char>> {
    v.map_values(|r: Vec<char>| r@)
}

/// A position `k` is the first index of `x` once nothing before it equals `x`
/// and it is either the end or holds `x`.
pub proof fn lemma_first_index_is<T>(s: Seq<T>, x: T, k: int)
    requires
        0 <= k <= s.len(),
        forall|j: int| 0 <= j < k ==> s[j] != x,
        k < s.len() ==> s[k] == x,
    ensures
        first_index(s, x) == k,
    decreases s.len(),
{
    if s.len() > 0 && k > 0 {
        lemma_first_index_is(s.skip(1), x, k - 1);
    }
}

/// The first index is in range, holds `x` when it is not the end, and nothing
/// before it equals `x`.
pub proof fn lemma_first_index_bounds<T>(s: Seq<T>, x: T)
    ensures
        0 <= first_index(s, x) <= s.len(),
        first_index(s, x) < s.len() ==> s[first_index(s, x)] == x,
        forall|j: int| 0 <= j < first_index(s, x) ==> s[j] != x,
    decreases s.len(),
{
    if s.len() > 0 && s[0] != x {
        lemma_first_index_bounds(s.skip(1), x);
        let k = first_index(s.skip(1), x);
        assert forall|j: int| 0 <= j < 1 + k implies s[j] != x by {
            if j > 0 {
                assert(s.skip(1)[j - 1] == s[j]);
            }
        }
    }
}

/// `x` occurs in `s` exactly when its first index is a position of `s`.
pub proof fn lemma_first_index_contains<T>(s: Seq<T>, x: T)
    ensures
        s.contains(x) <==> first_index(s, x) < s.len(),
{
    lemma_first_index_bounds(s, x);
}

/// Appending an item moves no first index that lies in `s`, and puts the
/// first index of a new item at the old end.
pub proof fn lemma_first_index_push<T>(s: Seq<T>, x: T, y: T)
    ensures
        s.contains(y) ==> first_index(s.push(x), y) == first_index(s, y),
        !s.contains(y) && x == y ==> first_index(s.push(x), y) == s.len(),
{
    lemma_first_index_bounds(s, y);
    lemma_first_index_contains(s, y);
    let k = first_index(s, y);
    if s.contains(y) {
        lemma_first_index_is(s.push(x), y, k);
    } else if x == y {
        lemma_first_index_is(s.push(x), y, s.len() as int);
    }
}

/// A text without the separator is a single piece.
pub proof fn lemma_split_whole(s: Seq<char>, sep: char)
    requires
        !s.contains(sep),
    ensures
        split(s, sep) == seq![s],
{
    lemma_first_index_contains(s, sep);
}

/// Splitting two texts joined by a separator gives the pieces of the first
/// followed by the pieces of the second.
pub proof fn lemma_split_concat(a: Seq<char>, b: Seq<char>, sep: char)
    ensures
        split(a + seq![sep] + b, sep) == split(a, sep) + split(b, sep),
    decreases a.len(),
{
    let whole = a + seq![sep] + b;
    lemma_first_index_bounds(a, sep);
    let i = first_index(a, sep);
    if i < a.len() {
        lemma_first_index_is(whole, sep, i);
        assert(whole.take(i) =~= a.take(i));
        assert(whole.skip(i + 1) =~= a.skip(i + 1) + seq![sep] + b);
        lemma_split_concat(a.skip(i + 1), b, sep);
    } else {
        lemma_first_index_is(whole, sep, i);
        assert(whole.take(i) =~= a);
        assert(whole.skip(i + 1) =~= b);
    }
}

/// Splitting what `join` made gives the pieces back, provided there is at
/// least one piece and no piece holds the separator.
pub proof fn lemma_split_join(ls: Seq<Seq<char>>, sep: char)
    requires
        ls.len() >= 1,
        forall|i: int| 0 <= i < ls.len() ==> !(#[trigger] ls[i]).contains(sep),
    ensures
        split(join(ls, sep), sep) == ls,
    decreases ls.len(),
{
    if ls.len() == 1 {
        lemma_split_whole(ls[0], sep);
    } else {
        let init = ls.drop_last();
        lemma_split_join(init, sep);
        lemma_split_concat(join(init, sep), ls.last(), sep);
        lemma_split_whole(ls.last(), sep);
    }
}

/// Reading the lines of what `join` made with line feeds gives the lines
/// back, provided no line holds a line feed, no line but the last ends in a
/// carriage return, and the last line is not empty.
pub proof fn lemma_lines_join(ls: Seq<Seq<char>>)
    requires
        forall|i: int| 0 <= i < ls.len() ==> !(#[trigger] ls[i]).contains('\n'),
        forall|i: int|
            0 <= i < ls.len() - 1 ==> (#[trigger] ls[i]).len() == 0 || ls[i].last() != '\r',
        ls.len() > 0 ==> ls.last().len() > 0,
    ensures
        lines(join(ls, '\n')) == ls,
{
    if ls.len() > 0 {
        lemma_split_join(ls, '\n');
    }
}

/// A sanitized text holds no `&`.
pub proof fn lemma_sanitize_removes_ampersand(s: Seq<char>)
    ensures
        !sanitize(s).contains('&'),
    decreases s.len(),
{
    if s.len() > 0 {
        lemma_sanitize_removes_ampersand(s.drop_last());
    }
}

/// Sanitizing leaves a text without `&` as it is.
pub proof fn lemma_sanitize_clean(s: Seq<char>)
    requires
        !s.contains('&'),
    ensures
        sanitize(s) == s,
    decreases s.len(),
{
    if s.len() > 0 {
        lemma_sanitize_clean(s.drop_last());
    }
}

/// Sanitizing twice is the same as sanitizing once.
pub proof fn lemma_sanitize_idempotent(s: Seq<char>)
    ensures
        sanitize(sanitize(s)) == sanitize(s),
{
    lemma_sanitize_removes_ampersand(s);
    lemma_sanitize_clean(sanitize(s));
}

/// The characters of `s`, in order.
pub fn chars_of(s: &str) -> (out: Vec<char>)
    ensures
        out@ == s@,
{
    let mut out: Vec<char> = Vec::new();
    for c in it: s.chars()
        invariant
            out@ == it.seq().take(it.index()),
    {
        out.push(c);
    }
    out
}

/// Appends one character to a string: `String::push` of the standard
/// library. The contract claims that the string afterwards is the string
/// before followed by `c`.
#[verifier::external_body]
pub(crate) fn push_char(s: &mut String, c: char)
    ensures
        final(s)@ == old(s)@.push(c),
{
    s.push(c)
}

/// The string made of the characters `v[from..to]`.
pub fn string_of(v: &Vec<char>, from: usize, to: usize) -> (out: String)
    requires
        from <= to <= v.len(),
    ensures
        out@ == v@.subrange(from as int, to as int),
{
    let mut out = String::new();
    let mut i: usize = from;
    while i < to
        invariant
            from <= i <= to <= v.len(),
            out@ == v@.subrange(from as int, i as int),
        decreases to - i,
    {
        push_char(&mut out, v[i]);
        i += 1;
    }
    out
}

/// A copy of the characters `v[from..to]`.
pub fn copy_range(v: &Vec<char>, from: usize, to: usize) -> (out: Vec<char>)
    requires
        from <= to <= v.len(),
    ensures
        out@ == v@.subrange(from as int, to as int),
{
    let mut out: Vec<char> = Vec::new();
    let mut i: usize = from;
    while i < to
        invariant
            from <= i <= to <= v.len(),
            out@ == v@.subrange(from as int, i as int),
        decreases to - i,
    {
        out.push(v[i]);
        i += 1;
    }
    out
}

/// Position of the first `c` at or after `start`, or `v.len()` when there is
/// none.
pub fn find_from(v: &Vec<char>, start: usize, c: char) -> (i: usize)
    requires
        start <= v.len(),
    ensures
        start <= i <= v.len(),
        i == start + first_index(v@.skip(start as int), c),
{
    let mut i: usize = start;
    while i < v.len() && v[i] != c
        invariant
            start <= i <= v.len(),
            forall|j: int| start <= j < i ==> v@[j] != c,
        decreases v.len() - i,
    {
        i += 1;
    }
    proof {
        lemma_first_index_is(v@.skip(start as int), c, i - start);
    }
    i
}

/// Whether two texts hold the same characters.
pub fn same_chars(a: &Vec<char>, b: &Vec<char>) -> (same: bool)
    ensures
        same == (a@ == b@),
{
    if a.len() != b.len() {
        return false;
    }
    let mut i: usize = 0;
    while i < a.len()
        invariant
            a.len() == b.len(),
            i <= a.len(),
            forall|j: int| 0 <= j < i ==> a@[j] == b@[j],
        decreases a.len() - i,
    {
        if a[i] != b[i] {
            return false;
        }
        i += 1;
    }
    assert(a@ =~= b@);
    true
}

/// Mapping rows to their views commutes with `push`.
pub proof fn lemma_rows_push(v: Seq<Vec<char>>, r: Vec<char>)
    ensures
        rows(v.push(r)) == rows(v).push(r@),
{
}

/// The pieces of `v` between occurrences of `sep`.
pub fn split_on(v: &Vec<char>, sep: char) -> (out: Vec<Vec<char>>)
    ensures
        rows(out@) == split(v@, sep),
{
    let mut out: Vec<Vec<char>> = Vec::new();
    let mut pos: usize = 0;
    let mut i: usize = find_from(v, 0, sep);
    assert(v@.skip(0) =~= v@);
    while i < v.len()
        invariant
            pos <= i <= v.len(),
            i == pos + first_index(v@.skip(pos as int), sep),
            rows(out@) + split(v@.skip(pos as int), sep) == split(v@, sep),
        decreases v.len() - pos,
    {
        let piece = copy_range(v, pos, i);
        proof {
            let rest = v@.skip(pos as int);
            lemma_rows_push(out@, piece);
            assert(rest.take(i - pos) =~= piece@);
            assert(rest.skip(i - pos + 1) =~= v@.skip(i + 1));
        }
        out.push(piece);
        pos = i + 1;
        i = find_from(v, pos, sep);
    }
    let piece = copy_range(v, pos, v.len());
    proof {
        lemma_rows_push(out@, piece);
    }
    out.push(piece);
    out
}

/// Whether `needle` stands in `hay` at position `i`.
pub fn matches_at(needle: &Vec<char>, hay: &Vec<char>, i: usize) -> (found: bool)
    requires
        i + needle.len() <= hay.len(),
    ensures
        found == occurs_at(needle@, hay@, i as int),
{
    let mut k: usize = 0;
    while k < needle.len()
        invariant
            i + needle.len() <= hay.len(),
            k <= needle.len(),
            forall|j: int| 0 <= j < k ==> hay@[i + j] == needle@[j],
        decreases needle.len() - k,
    {
        if hay[i + k] != needle[k] {
            return false;
        }
        k += 1;
    }
    assert(hay@.subrange(i as int, i + needle.len()) =~= needle@);
    true
}

/// Whether `needle` is a contiguous part of `hay`.
pub fn occurs(needle: &Vec<char>, hay: &Vec<char>) -> (found: bool)
    ensures
        found == occurs_in(needle@, hay@),
{
    if needle.len() > hay.len() {
        return false;
    }
    let last: usize = hay.len() - needle.len();
    let mut i: usize = 0;
    loop
        invariant
            needle.len() <= hay.len(),
            last == hay.len() - needle.len(),
            i <= last,
            forall|k: int| 0 <= k < i ==> !occurs_at(needle@, hay@, k),
        decreases last - i,
    {
        if matches_at(needle, hay, i) {
            return true;
        }
        if i == last {
            return false;
        }
        i += 1;
    }
}

/// `v[from..to]` with every `&` replaced by the word `and`.
pub fn sanitized(v: &Vec<char>, from: usize, to: usize) -> (out: String)
    requires
        from <= to <= v.len(),
    ensures
        out@ == sanitize(v@.subrange(from as int, to as int)),
{
    let mut out = String::new();
    let mut i: usize = from;
    while i < to
        invariant
            from <= i <= to <= v.len(),
            out@ == sanitize(v@.subrange(from as int, i as int)),
        decreases to - i,
    {
        let c = v[i];
        proof {
            let next = v@.subrange(from as int, i + 1);
            assert(next.drop_last() =~= v@.subrange(from as int, i as int));
        }
        if c == '&' {
            push_char(&mut out, 'a');
            push_char(&mut out, 'n');
            push_char(&mut out, 'd');
        } else {
            push_char(&mut out, c);
        }
        i += 1;
    }
    out
}

/// The lowercase form of a text, as the standard library's Unicode case
/// mapping gives it.
pub uninterp spec fn lowercase(s: Seq<char>) -> Seq<char>;

/// Lowercases a text: `str::to_lowercase` of the standard library. The
/// contract only names the result; nothing is claimed about which characters
/// it holds.
#[verifier::external_body]
fn to_lowercase(s: &str) -> (out: String)
    ensures
        out@ == lowercase(s@),
{
    s.to_lowercase()
}

/// The lowercase form of `s`, as characters.
pub fn fold_case(s: &str) -> (out: Vec<char>)
    ensures
        out@ == lowercase(s@),
{
    let lower = to_lowercase(s);
    chars_of(lower.as_str())
}


} // verus!
