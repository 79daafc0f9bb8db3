//! The recency store: the text that keeps the recently-used list between
//! sessions.
//!
//! The list is most-recent-first. In memory it may grow past
//! [`MAX_RESULTS`]; what is stored never holds more than that many lines.
//! Reading and writing the storage itself is the caller's part: this module
//! turns records into the text to write and the text read into records.

use vstd::prelude::*;
use crate::loader::{lemma_dedup_of_distinct, load_emojis, parse, parse_line};
use crate::structs::{line_of, records, Emoji, EmojiView};
use crate::text::{
    first, join, lemma_first_index_is, lemma_lines_join, lemma_sanitize_clean, lines, push_char,
    sanitize,
};
use crate::ui_options::MAX_RESULTS;

verus! {

/// The lines that storage holds for a list: one for each of its first
/// [`MAX_RESULTS`] records.
pub open spec fn stored_lines(recents: Seq<EmojiView>) -> Seq<Seq<char>> {
    first(recents, MAX_RESULTS as nat).map_values(|r: EmojiView| line_of(r))
}

/// The text that storage holds for a list: its stored lines with a line feed
/// between neighbours and none at the end.
pub open spec fn stored_text(recents: Seq<EmojiView>) -> Seq<char> {
    join(stored_lines(recents), '\n')
}

/// A list with one more record at its front.
pub open spec fn pushed(recents: Seq<EmojiView>, r: EmojiView) -> Seq<EmojiView> {
    seq![r] + recents
}

/// A record whose line reads back as one line with the same glyph: the glyph
/// holds neither a space nor a line feed, and the name holds no line feed.
pub open spec fn storable(r: EmojiView) -> bool {
    &&& !r.emoji.contains(' ')
    &&& !r.emoji.contains('\n')
    &&& !r.name.contains('\n')
}

/// What loading makes of a stored record: the name is sanitized once more.
pub open spec fn reloaded(r: EmojiView) -> EmojiView {
    EmojiView { emoji: r.emoji, name: sanitize(r.name) }
}

/// Pushing `x` and then `y` leaves `y` first and `x` second, in memory and in
/// what is stored; what was there before follows, repeats included.
pub proof fn lemma_push_twice(recents: Seq<EmojiView>, x: EmojiView, y: EmojiView)
    ensures
        pushed(pushed(recents, x), y) == seq![y, x] + recents,
        stored_lines(pushed(pushed(recents, x), y)).len() >= 2,
        stored_lines(pushed(pushed(recents, x), y))[0] == line_of(y),
        stored_lines(pushed(pushed(recents, x), y))[1] == line_of(x),
{
}

/// Storage never holds more than [`MAX_RESULTS`] lines. A longer list is
/// stored as exactly that many: its first records, in order.
pub proof fn lemma_stored_lines_capped(recents: Seq<EmojiView>)
    ensures
        stored_lines(recents).len() <= MAX_RESULTS,
        recents.len() <= MAX_RESULTS ==> stored_lines(recents).len() == recents.len(),
        recents.len() > MAX_RESULTS ==> stored_lines(recents).len() == MAX_RESULTS,
        forall|i: int|
            0 <= i < stored_lines(recents).len() ==> #[trigger] stored_lines(recents)[i]
                == line_of(recents[i]),
{
}

/// The line of a record whose glyph holds no space reads back as that record,
/// with the name sanitized.
pub proof fn lemma_parse_line_of(r: EmojiView)
    requires
        !r.emoji.contains(' '),
    ensures
        parse_line(line_of(r)) == reloaded(r),
{
    let line = line_of(r);
    let k = r.emoji.len() as int;
    lemma_first_index_is(line, ' ', k);
    assert(line.take(k) =~= r.emoji);
    assert(line.skip(k + 1) =~= r.name);
}

/// The stored text has exactly the stored lines, provided the records that
/// are kept are storable and none but the last has a name that ends in a
/// carriage return.
pub proof fn lemma_stored_text_lines(recents: Seq<EmojiView>)
    requires
        forall|i: int| 0 <= i < stored_lines(recents).len() ==> storable(#[trigger] recents[i]),
        forall|i: int|
            0 <= i < stored_lines(recents).len() - 1 ==> (#[trigger] recents[i]).name.len() == 0
                || recents[i].name.last() != '\r',
    ensures
        lines(stored_text(recents)) == stored_lines(recents),
{
    lemma_lines_join(stored_lines(recents));
}

/// Saving a list and loading what was saved gives back the records that were
/// kept, glyph for glyph and name for name, the names sanitized; where no
/// kept name holds `&`, it gives back the kept records themselves. This holds
/// for lists whose kept records are storable and give lines that are all
/// different, and in which no name but the last ends in a carriage return.
pub proof fn lemma_save_load_round_trip(recents: Seq<EmojiView>)
    requires
        forall|i: int| 0 <= i < stored_lines(recents).len() ==> storable(#[trigger] recents[i]),
        forall|i: int|
            0 <= i < stored_lines(recents).len() - 1 ==> (#[trigger] recents[i]).name.len() == 0
                || recents[i].name.last() != '\r',
        stored_lines(recents).no_duplicates(),
    ensures
        parse(stored_text(recents)) == first(recents, MAX_RESULTS as nat).map_values(
            |r: EmojiView| reloaded(r),
        ),
        (forall|i: int|
            0 <= i < stored_lines(recents).len() ==> !(#[trigger] recents[i]).name.contains('&'))
            ==> parse(stored_text(recents)) == first(recents, MAX_RESULTS as nat),
{
    let ls = stored_lines(recents);
    lemma_stored_text_lines(recents);
    lemma_dedup_of_distinct(ls);
    let kept = first(recents, MAX_RESULTS as nat);
    assert forall|i: int| 0 <= i < ls.len() implies parse_line(#[trigger] ls[i]) == reloaded(
        kept[i],
    ) by {
        lemma_parse_line_of(kept[i]);
    }
    if forall|i: int| 0 <= i < ls.len() ==> !(#[trigger] recents[i]).name.contains('&') {
        assert forall|i: int| 0 <= i < kept.len() implies reloaded(kept[i]) == kept[i] by {
            lemma_sanitize_clean(kept[i].name);
        }
    }
}

/// The text to store for `recent_emojis`. It replaces whatever the storage
/// held before.
pub fn save_recent_emojis(recent_emojis: &Vec<Emoji>) -> (data: String)
    ensures
        data@ == stored_text(records(recent_emojis@)),
{
    let n: usize = if MAX_RESULTS < recent_emojis.len() {
        MAX_RESULTS
    } else {
        recent_emojis.len()
    };
    let ghost ls = stored_lines(records(recent_emojis@));
    let mut data = String::new();
    let mut i: usize = 0;
    while i < n
        invariant
            i <= n <= recent_emojis.len(),
            n == ls.len(),
            ls == stored_lines(records(recent_emojis@)),
            data@ == join(ls.take(i as int), '\n'),
        decreases n - i,
    {
        let line = recent_emojis[i].as_string();
        proof {
            let next = ls.take(i + 1);
            assert(next.drop_last() =~= ls.take(i as int));
        }
        if i > 0 {
            push_char(&mut data, '\n');
        }
        data.append(line.as_str());
        i += 1;
    }
    assert(ls.take(i as int) =~= ls);
    data
}

/// Fills `recent_emojis` from what storage held. `stored` is the text read,
/// or `None` when there was nothing to read; then the list stays as it is and
/// the result tells the caller to create an empty storage.
pub fn load_recent_emojis(recent_emojis: &mut Vec<Emoji>, stored: Option<&str>) -> (create: bool)
    ensures
        create == (stored is None),
        stored is None ==> *final(recent_emojis) == *old(recent_emojis),
        stored matches Some(data) ==> records(final(recent_emojis)@) == records(
            old(recent_emojis)@,
        ) + parse(data@),
{
    match stored {
        None => true,
        Some(data) => {
            load_emojis(recent_emojis, data);
            false
        },
    }
}

} // verus!
