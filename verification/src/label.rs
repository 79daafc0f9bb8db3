//! The text of a result row.
//!
//! A row shows the glyph, a dash and the name. A name that takes more than
//! [`MAX_EMOJI_NAME`] bytes is cut short and marked with three dots. Lengths
//! are counted in bytes of the UTF-8 form; the cut never splits a character.
//! The record itself is never changed.

use vstd::prelude::*;
use vstd::utf8::{char_is_scalar, encode_scalar, encode_utf8};
use crate::structs::{Emoji, EmojiView};
use crate::text::{chars_of, push_char};
use crate::ui_options::MAX_EMOJI_NAME;

verus! {

/// How many bytes the UTF-8 form of `c` takes.
pub open spec fn char_width(c: char) -> nat {
    if (c as u32) < 0x80 {
        1
    } else if (c as u32) < 0x800 {
        2
    } else if (c as u32) < 0x10000 {
        3
    } else {
        4
    }
}

/// How many bytes the UTF-8 form of `s` takes.
pub open spec fn byte_len(s: Seq<char>) -> nat
    decreases s.len(),
{
    if s.len() == 0 {
        0
    } else {
        char_width(s[0]) + byte_len(s.skip(1))
    }
}

/// How many leading characters of `s` fit into `budget` bytes.
pub open spec fn fitting(s: Seq<char>, budget: nat) -> int
    decreases s.len(),
{
    if s.len() == 0 || char_width(s[0]) > budget {
        0
    } else {
        1 + fitting(s.skip(1), (budget - char_width(s[0])) as nat)
    }
}

/// The name as a row shows it.
pub open spec fn shown_name(name: Seq<char>) -> Seq<char> {
    if byte_len(name) > MAX_EMOJI_NAME {
        name.take(fitting(name, (MAX_EMOJI_NAME - 1) as nat)) + seq!['.', '.', '.']
    } else {
        name
    }
}

/// The text of the row for a record.
pub open spec fn label_of(r: EmojiView) -> Seq<char> {
    r.emoji + seq![' ', '-', ' '] + shown_name(r.name)
}

/// `byte_len` is the length of the UTF-8 encoding.
pub proof fn lemma_byte_len_is_encoded_len(s: Seq<char>)
    ensures
        byte_len(s) == encode_utf8(s).len(),
    decreases s.len(),
{
    if s.len() > 0 {
        char_is_scalar(s[0]);
        lemma_byte_len_is_encoded_len(s.skip(1));
    }
}

/// The characters that fit are a prefix within the budget, and no longer
/// prefix stays within it.
pub proof fn lemma_fitting(s: Seq<char>, budget: nat)
    ensures
        0 <= fitting(s, budget) <= s.len(),
        byte_len(s.take(fitting(s, budget))) <= budget,
        fitting(s, budget) < s.len() ==> byte_len(s.take(fitting(s, budget) + 1)) > budget,
    decreases s.len(),
{
    if s.len() == 0 || char_width(s[0]) > budget {
        if s.len() > 0 {
            assert(byte_len(s.take(1).skip(1)) == 0);
        }
    } else {
        let rest = s.skip(1);
        let left = (budget - char_width(s[0])) as nat;
        lemma_fitting(rest, left);
        let k = fitting(rest, left);
        assert(s.take(k + 1).skip(1) =~= rest.take(k));
        if k < rest.len() {
            assert(s.take(k + 2).skip(1) =~= rest.take(k + 1));
        }
    }
}

/// How many bytes the UTF-8 form of `c` takes.
pub fn utf8_width(c: char) -> (w: usize)
    ensures
        w == char_width(c),
        1 <= w <= 4,
{
    let u: u32 = c as u32;
    if u < 0x80 {
        1
    } else if u < 0x800 {
        2
    } else if u < 0x10000 {
        3
    } else {
        4
    }
}

/// Whether the UTF-8 form of `chars` takes more than `limit` bytes.
pub fn exceeds(chars: &Vec<char>, limit: usize) -> (over: bool)
    requires
        limit <= usize::MAX - 4,
    ensures
        over == (byte_len(chars@) > limit),
{
    let mut used: usize = 0;
    let mut i: usize = 0;
    assert(chars@.skip(0) =~= chars@);
    while i < chars.len()
        invariant
            i <= chars.len(),
            used <= limit <= usize::MAX - 4,
            used + byte_len(chars@.skip(i as int)) == byte_len(chars@),
        decreases chars.len() - i,
    {
        let w = utf8_width(chars[i]);
        proof {
            assert(chars@.skip(i as int).skip(1) =~= chars@.skip(i + 1));
        }
        if w > limit - used {
            return true;
        }
        used += w;
        i += 1;
    }
    false
}

/// The text of the row for `emoji`.
pub fn entry_label(emoji: &Emoji) -> (out: String)
    ensures
        out@ == label_of(emoji@),
{
    let mut out = emoji.emoji.clone();
    proof {
        reveal_strlit(" - ");
        reveal_strlit("...");
    }
    out.append(" - ");
    let ghost head = out@;
    let name = chars_of(emoji.name.as_str());
    if exceeds(&name, MAX_EMOJI_NAME) {
        let budget: usize = MAX_EMOJI_NAME - 1;
        let mut used: usize = 0;
        let mut i: usize = 0;
        assert(name@.skip(0) =~= name@);
        while i < name.len() && utf8_width(name[i]) <= budget - used
            invariant
                i <= name.len(),
                used <= budget,
                i + fitting(name@.skip(i as int), (budget - used) as nat) == fitting(
                    name@,
                    budget as nat,
                ),
                out@ == head + name@.take(i as int),
            decreases name.len() - i,
        {
            let c = name[i];
            proof {
                assert(name@.skip(i as int).skip(1) =~= name@.skip(i + 1));
            }
            push_char(&mut out, c);
            used += utf8_width(c);
            i += 1;
        }
        out.append("...");
    } else {
        out.append(emoji.name.as_str());
    }
    out
}

} // verus!
