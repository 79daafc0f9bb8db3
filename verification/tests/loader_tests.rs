use emoji_picker::loader::{load_emojis, parse_record, split_lines};
use emoji_picker::structs::Emoji;

fn load(text: &str) -> Vec<(String, String)> {
    let mut out: Vec<Emoji> = Vec::new();
    load_emojis(&mut out, text);
    out.into_iter().map(|e| (e.emoji, e.name)).collect()
}

fn pair(glyph: &str, name: &str) -> (String, String) {
    (glyph.to_string(), name.to_string())
}

fn chars(s: &str) -> Vec<char> {
    s.chars().collect()
}

fn strings(v: Vec<Vec<char>>) -> Vec<String> {
    v.into_iter().map(|l| l.into_iter().collect()).collect()
}

#[test]
fn repeated_lines_are_loaded_once_in_first_seen_order() {
    let got = load("😀 grin\n😀 grin\n😎 cool");
    assert_eq!(got, vec![pair("😀", "grin"), pair("😎", "cool")]);
}

#[test]
fn a_repeat_far_from_its_first_occurrence_is_dropped() {
    let got = load("a one\nb two\nc three\na one\nd four\nb two");
    assert_eq!(
        got,
        vec![pair("a", "one"), pair("b", "two"), pair("c", "three"), pair("d", "four")]
    );
}

#[test]
fn lines_that_differ_only_in_the_name_are_both_kept() {
    let got = load("😀 grin\n😀 grinning");
    assert_eq!(got, vec![pair("😀", "grin"), pair("😀", "grinning")]);
}

#[test]
fn ampersand_in_a_name_becomes_the_word_and() {
    let got = load("🤝 hand & hand");
    assert_eq!(got, vec![pair("🤝", "hand and hand")]);
}

#[test]
fn every_ampersand_is_replaced() {
    let got = load("x &&a&");
    assert_eq!(got, vec![pair("x", "andandaand")]);
}

#[test]
fn ampersand_in_the_glyph_is_left_alone() {
    let got = load("& name");
    assert_eq!(got, vec![pair("&", "name")]);
}

#[test]
fn the_name_is_everything_after_the_first_space() {
    let got = load("👍 thumbs up  sign ");
    assert_eq!(got, vec![pair("👍", "thumbs up  sign ")]);
}

#[test]
fn a_line_without_a_space_is_all_glyph() {
    let got = load("😀");
    assert_eq!(got, vec![pair("😀", "")]);
}

#[test]
fn a_line_that_starts_with_a_space_has_an_empty_glyph() {
    let got = load(" name");
    assert_eq!(got, vec![pair("", "name")]);
}

#[test]
fn an_empty_text_has_no_records() {
    assert_eq!(load(""), Vec::<(String, String)>::new());
}

#[test]
fn a_final_line_feed_adds_no_record() {
    assert_eq!(load("a b\n"), vec![pair("a", "b")]);
}

#[test]
fn an_empty_line_in_the_middle_is_a_record_of_its_own() {
    assert_eq!(load("a b\n\nc d"), vec![pair("a", "b"), pair("", ""), pair("c", "d")]);
}

#[test]
fn a_carriage_return_before_a_line_feed_belongs_to_the_ending() {
    assert_eq!(load("a b\r\nc d\r\n"), vec![pair("a", "b"), pair("c", "d")]);
}

#[test]
fn a_carriage_return_at_the_very_end_stays_in_the_name() {
    assert_eq!(load("a b\nc d\r"), vec![pair("a", "b"), pair("c", "d\r")]);
}

#[test]
fn loading_appends_and_does_not_compare_with_what_is_there() {
    let mut out = vec![Emoji::new("grin", "😀")];
    load_emojis(&mut out, "😀 grin\n😎 cool");
    let got: Vec<(String, String)> = out.into_iter().map(|e| (e.emoji, e.name)).collect();
    assert_eq!(got, vec![pair("😀", "grin"), pair("😀", "grin"), pair("😎", "cool")]);
}

#[test]
fn split_lines_agrees_with_the_standard_library() {
    let samples = [
        "",
        "\n",
        "\n\n",
        "a",
        "a\n",
        "a\nb",
        "a\r\nb",
        "a\r\n",
        "a\r",
        "a\r\r\n",
        "\r\n",
        "\r",
        "a\n\nb\n",
        "foo\r\nbar\n\nbaz\r",
        "😀 grin\n😎 cool\n",
    ];
    for text in samples {
        let expected: Vec<String> = text.lines().map(|l| l.to_string()).collect();
        assert_eq!(strings(split_lines(&chars(text))), expected, "text {:?}", text);
    }
}

#[test]
fn parse_record_reads_one_line() {
    let e = parse_record(&chars("🎉 party & fun"));
    assert_eq!(e.emoji, "🎉");
    assert_eq!(e.name, "party and fun");
}

#[test]
fn loaded_count_equals_number_of_distinct_lines() {
    let text = "a 1\nb 2\na 1\nc 3\nb 2\na 1\n";
    let distinct: std::collections::HashSet<&str> = text.lines().collect();
    assert_eq!(load(text).len(), distinct.len());
    assert_eq!(load(text).len(), 3);
}
