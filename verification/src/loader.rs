//! The catalog loader: from newline-delimited text to emoji records.
//!
//! Every line reads `<glyph> <name>`. The same format serves the bundled
//! catalog and the stored recently-used list.

use vstd::prelude::*;
use crate::structs::{records, Emoji, EmojiView};
use crate::text::{
    chars_of, copy_range, find_from, first_index, lemma_first_index_bounds,
    lemma_first_index_contains, lemma_first_index_push, lemma_rows_push,
    lemma_sanitize_removes_ampersand, lines, rows, same_chars, sanitize, sanitized, split_on,
    string_of, strip_cr,
};

verus! {

/// `ls` without the lines that repeat an earlier one. The first occurrence
/// stays, and the order of what stays is unchanged.
pub open spec fn dedup(ls: Seq<Seq<char>>) -> Seq<Seq<char>>
    decreases ls.len(),
{
    if ls.len() == 0 {
        ls
    } else if ls.drop_last().contains(ls.last()) {
        dedup(ls.drop_last())
    } else {
        dedup(ls.drop_last()).push(ls.last())
    }
}

/// The record that a line stands for. The glyph is what precedes the first
/// space and the name is all that follows it, with `&` spelled out. A line
/// without a space is all glyph and has an empty name.
pub open spec fn parse_line(line: Seq<char>) -> EmojiView {
    let i = first_index(line, ' ');
    if 0 <= i < line.len() {
        EmojiView { emoji: line.take(i), name: sanitize(line.skip(i + 1)) }
    } else {
        EmojiView { emoji: line, name: seq![] }
    }
}

/// The records of a text: one for each distinct line, in the order of first
/// appearance.
pub open spec fn parse(text: Seq<char>) -> Seq<EmojiView> {
    dedup(lines(text)).map_values(|l: Seq<char>| parse_line(l))
}

/// Removing repeats keeps exactly the lines that were there.
pub proof fn lemma_dedup_same_lines(ls: Seq<Seq<char>>)
    ensures
        forall|l: Seq<char>| dedup(ls).contains(l) <==> ls.contains(l),
        dedup(ls).len() <= ls.len(),
    decreases ls.len(),
{
    if ls.len() > 0 {
        let init = ls.drop_last();
        lemma_dedup_same_lines(init);
        assert forall|l: Seq<char>| dedup(ls).contains(l) <==> ls.contains(l) by {
            if dedup(ls).contains(l) {
                let k = choose|k: int| 0 <= k < dedup(ls).len() && dedup(ls)[k] == l;
                if k < dedup(init).len() {
                    assert(dedup(init)[k] == l);
                    assert(init.contains(l));
                    let m = choose|m: int| 0 <= m < init.len() && init[m] == l;
                    assert(ls[m] == l);
                } else {
                    assert(ls[ls.len() - 1] == l);
                }
            }
            if ls.contains(l) {
                let m = choose|m: int| 0 <= m < ls.len() && ls[m] == l;
                if m < init.len() {
                    assert(init[m] == l);
                    assert(init.contains(l));
                    let k = choose|k: int| 0 <= k < dedup(init).len() && dedup(init)[k] == l;
                    assert(dedup(ls)[k] == l);
                } else if !init.contains(l) {
                    assert(dedup(ls)[dedup(ls).len() - 1] == l);
                }
            }
        }
    }
}

/// After removing repeats no line occurs twice, and there are as many lines
/// as the input has distinct ones.
pub proof fn lemma_dedup_distinct(ls: Seq<Seq<char>>)
    ensures
        dedup(ls).no_duplicates(),
        dedup(ls).to_set() == ls.to_set(),
        dedup(ls).len() == ls.to_set().len(),
    decreases ls.len(),
{
    lemma_dedup_same_lines(ls);
    if ls.len() > 0 {
        let init = ls.drop_last();
        lemma_dedup_distinct(init);
        lemma_dedup_same_lines(init);
    }
    dedup(ls).unique_seq_to_set();
}

/// Removing repeats keeps the order of first appearance: of two lines that
/// stay, the one that stands first is the one that was seen first.
pub proof fn lemma_dedup_keeps_first_seen_order(ls: Seq<Seq<char>>, i: int, j: int)
    requires
        0 <= i < j < dedup(ls).len(),
    ensures
        first_index(ls, dedup(ls)[i]) < first_index(ls, dedup(ls)[j]) < ls.len(),
    decreases ls.len(),
{
    let init = ls.drop_last();
    let x = ls.last();
    let a = dedup(ls)[i];
    let b = dedup(ls)[j];
    lemma_dedup_same_lines(init);
    assert(init.push(x) =~= ls);
    lemma_first_index_push(init, x, a);
    lemma_first_index_push(init, x, b);
    lemma_first_index_contains(init, a);
    lemma_first_index_contains(init, b);
    lemma_first_index_bounds(init, a);
    if init.contains(x) || j < dedup(init).len() {
        lemma_dedup_keeps_first_seen_order(init, i, j);
    }
}

/// Lines that are all different stay as they are.
pub proof fn lemma_dedup_of_distinct(ls: Seq<Seq<char>>)
    requires
        ls.no_duplicates(),
    ensures
        dedup(ls) == ls,
    decreases ls.len(),
{
    if ls.len() > 0 {
        let init = ls.drop_last();
        lemma_dedup_of_distinct(init);
        assert(!init.contains(ls.last()));
    }
}

/// A text gives as many records as it has distinct lines.
pub proof fn lemma_parse_len(text: Seq<char>)
    ensures
        parse(text).len() == lines(text).to_set().len(),
{
    lemma_dedup_distinct(lines(text));
}

/// No loaded name holds `&`.
pub proof fn lemma_parsed_names_clean(text: Seq<char>, i: int)
    requires
        0 <= i < parse(text).len(),
    ensures
        !parse(text)[i].name.contains('&'),
{
    let line = dedup(lines(text))[i];
    let k = first_index(line, ' ');
    if 0 <= k < line.len() {
        lemma_sanitize_removes_ampersand(line.skip(k + 1));
    }
}

/// The lines of `v`.
pub fn split_lines(v: &Vec<char>) -> (out: Vec<Vec<char>>)
    ensures
        rows(out@) == lines(v@),
{
    let parts = split_on(v, '\n');
    let ghost ended = rows(parts@).drop_last().map_values(|l: Seq<char>| strip_cr(l));
    let mut out: Vec<Vec<char>> = Vec::new();
    let n: usize = parts.len();
    let mut i: usize = 0;
    while i < n - 1
        invariant
            n == parts.len(),
            n >= 1,
            i <= n - 1,
            ended == rows(parts@).drop_last().map_values(|l: Seq<char>| strip_cr(l)),
            rows(out@) == ended.take(i as int),
        decreases n - i,
    {
        let part = &parts[i];
        let len: usize = part.len();
        let piece = if len > 0 && part[len - 1] == '\r' {
            copy_range(part, 0, len - 1)
        } else {
            copy_range(part, 0, len)
        };
        proof {
            lemma_rows_push(out@, piece);
            assert(piece@ =~= strip_cr(part@));
        }
        out.push(piece);
        i += 1;
    }
    let tail = &parts[n - 1];
    if tail.len() > 0 {
        let piece = copy_range(tail, 0, tail.len());
        proof {
            lemma_rows_push(out@, piece);
            assert(piece@ =~= tail@);
        }
        out.push(piece);
    }
    out
}

/// The record that `line` stands for.
pub fn parse_record(line: &Vec<char>) -> (out: Emoji)
    ensures
        out@ == parse_line(line@),
{
    let i = find_from(line, 0, ' ');
    assert(line@.skip(0) =~= line@);
    if i < line.len() {
        let glyph = string_of(line, 0, i);
        let name = sanitized(line, i + 1, line.len());
        Emoji { emoji: glyph, name }
    } else {
        let glyph = string_of(line, 0, line.len());
        Emoji { emoji: glyph, name: String::new() }
    }
}

/// Whether line `i` repeats an earlier line.
fn seen_before(all: &Vec<Vec<char>>, i: usize) -> (seen: bool)
    requires
        i < all.len(),
    ensures
        seen == rows(all@).take(i as int).contains(rows(all@)[i as int]),
{
    let ghost earlier = rows(all@).take(i as int);
    let mut j: usize = 0;
    while j < i
        invariant
            j <= i < all.len(),
            earlier == rows(all@).take(i as int),
            forall|k: int| 0 <= k < j ==> earlier[k] != rows(all@)[i as int],
        decreases i - j,
    {
        if same_chars(&all[j], &all[i]) {
            assert(earlier[j as int] == rows(all@)[i as int]);
            return true;
        }
        j += 1;
    }
    false
}

/// Appends to `emojis` the records of `data`, one for each distinct line in
/// the order of first appearance. Lines are compared among themselves, not
/// with what `emojis` already holds.
pub fn load_emojis(emojis: &mut Vec<Emoji>, data: &str)
    ensures
        records(final(emojis)@) == records(old(emojis)@) + parse(data@),
{
    let text = chars_of(data);
    let all = split_lines(&text);
    let ghost ls = rows(all@);
    let mut i: usize = 0;
    while i < all.len()
        invariant
            i <= all.len(),
            ls == rows(all@),
            ls == lines(data@),
            records(emojis@) == records(old(emojis)@) + dedup(ls.take(i as int)).map_values(
                |l: Seq<char>| parse_line(l),
            ),
        decreases all.len() - i,
    {
        let ghost before = ls.take(i as int);
        let ghost next = ls.take(i + 1);
        proof {
            assert(next.drop_last() =~= before);
        }
        if !seen_before(&all, i) {
            let record = parse_record(&all[i]);
            proof {
                assert(records(emojis@.push(record)) =~= records(emojis@).push(record@));
            }
            emojis.push(record);
        }
        i += 1;
    }
    assert(ls.take(i as int) =~= ls);
}

} // verus!
