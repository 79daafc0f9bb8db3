use emoji_picker::label::{entry_label, exceeds, utf8_width};
use emoji_picker::structs::Emoji;
use emoji_picker::ui_options::MAX_EMOJI_NAME;

fn cs(s: &str) -> Vec<char> {
    s.chars().collect()
}

#[test]
fn a_short_name_is_shown_in_full() {
    assert_eq!(entry_label(&Emoji::new("grinning face", "😀")), "😀 - grinning face");
    assert_eq!(entry_label(&Emoji::new("", "😀")), "😀 - ");
}

#[test]
fn a_name_of_exactly_the_maximum_is_shown_in_full() {
    let name = "x".repeat(MAX_EMOJI_NAME);
    assert_eq!(entry_label(&Emoji::new(&name, "G")), format!("G - {}", name));
}

#[test]
fn a_longer_name_is_cut_and_marked() {
    let name = "x".repeat(MAX_EMOJI_NAME + 1);
    let expected = format!("G - {}...", "x".repeat(MAX_EMOJI_NAME - 1));
    assert_eq!(entry_label(&Emoji::new(&name, "G")), expected);
    let long = "abcdefghijklmnopqrstuvwxyz0123456789";
    assert_eq!(
        entry_label(&Emoji::new(long, "G")),
        format!("G - {}...", &long[..MAX_EMOJI_NAME - 1])
    );
}

#[test]
fn the_record_is_not_changed_by_making_its_label() {
    let name = "y".repeat(MAX_EMOJI_NAME + 10);
    let e = Emoji::new(&name, "G");
    let _ = entry_label(&e);
    assert_eq!(e.name, name);
}

#[test]
fn the_cut_never_splits_a_character() {
    // every é takes two bytes: 16 of them are 32 bytes, and 14 fit into 29
    let name = "é".repeat(16);
    assert!(name.len() > MAX_EMOJI_NAME);
    let expected = format!("G - {}...", "é".repeat((MAX_EMOJI_NAME - 1) / 2));
    assert_eq!(entry_label(&Emoji::new(&name, "G")), expected);
}

#[test]
fn the_length_is_counted_in_bytes() {
    // 15 two-byte characters are 30 bytes: not over
    let name = "é".repeat(MAX_EMOJI_NAME / 2);
    assert_eq!(entry_label(&Emoji::new(&name, "G")), format!("G - {}", name));
    // 8 four-byte characters are 32 bytes: over, and 7 fit into 29
    let name = "😀".repeat(8);
    assert_eq!(entry_label(&Emoji::new(&name, "G")), format!("G - {}...", "😀".repeat(7)));
}

#[test]
fn utf8_width_agrees_with_the_standard_library() {
    for c in ['a', '\0', '\u{7f}', '\u{80}', 'é', '\u{7ff}', '\u{800}', '€', '\u{ffff}', '\u{10000}', '😀', '\u{10ffff}'] {
        assert_eq!(utf8_width(c), c.len_utf8(), "char {:?}", c);
    }
}

#[test]
fn exceeds_compares_the_byte_length() {
    assert!(!exceeds(&cs(""), 0));
    assert!(exceeds(&cs("a"), 0));
    assert!(!exceeds(&cs("abc"), 3));
    assert!(exceeds(&cs("abcd"), 3));
    assert!(!exceeds(&cs("é"), 2));
    assert!(exceeds(&cs("é"), 1));
    assert!(exceeds(&cs("😀"), 3));
    assert!(!exceeds(&cs("😀"), 4));
    for text in ["", "abc", "ééé", "a😀b€"] {
        for limit in 0..12 {
            assert_eq!(exceeds(&cs(text), limit), text.len() > limit);
        }
    }
}
