use emoji_picker::search::{
    count_matches, first_records, order_by_score, rank, rank_folded, update_entries,
};
use emoji_picker::structs::Emoji;
use emoji_picker::ui_options::MAX_RESULTS;

fn cs(s: &str) -> Vec<char> {
    s.chars().collect()
}

fn named(names: &[&str]) -> Vec<Emoji> {
    names.iter().enumerate().map(|(i, n)| Emoji::new(n, &format!("g{}", i))).collect()
}

fn names(v: &[Emoji]) -> Vec<String> {
    v.iter().map(|e| e.name.clone()).collect()
}

fn glyphs(v: &[Emoji]) -> Vec<String> {
    v.iter().map(|e| e.emoji.clone()).collect()
}

#[test]
fn records_without_a_matching_token_are_left_out() {
    let cands = named(&["cat face", "cats eye", "dog"]);
    let got = rank("cat", &cands, 10);
    assert_eq!(names(&got), vec!["cat face", "cats eye"]);
}

#[test]
fn equal_scores_keep_the_input_order() {
    let cands = vec![Emoji::new("red cat", "A"), Emoji::new("blue cat", "B")];
    let got = rank("cat", &cands, 10);
    assert_eq!(glyphs(&got), vec!["A", "B"]);
    assert_eq!(names(&got), vec!["red cat", "blue cat"]);
}

#[test]
fn higher_scores_come_first() {
    let cands = named(&["cat", "black dog", "black cat", "dog", "cat black cat"]);
    let got = rank("black cat", &cands, 10);
    assert_eq!(names(&got), vec!["black cat", "cat black cat", "cat", "black dog"]);
}

#[test]
fn ranking_never_returns_more_than_the_limit() {
    let cands = named(&["cat 1", "cat 2", "cat 3", "cat 4", "cat 5"]);
    assert_eq!(names(&rank("cat", &cands, 3)), vec!["cat 1", "cat 2", "cat 3"]);
    assert_eq!(rank("cat", &cands, 0).len(), 0);
    assert_eq!(rank("cat", &cands, 5).len(), 5);
    assert_eq!(rank("cat", &cands, 6).len(), 5);
}

#[test]
fn the_cut_is_made_after_sorting() {
    let cands = named(&["cat", "cat", "cat", "black cat"]);
    let got = rank("black cat", &cands, 2);
    assert_eq!(glyphs(&got), vec!["g3", "g0"]);
}

#[test]
fn empty_query_returns_the_first_candidates_unchanged() {
    let recents = vec![
        Emoji::new("zebra", "🦓"),
        Emoji::new("", "🍎"),
        Emoji::new("zebra", "🦓"),
        Emoji::new("ant", "🐜"),
    ];
    let got = rank("", &recents, 3);
    assert_eq!(glyphs(&got), vec!["🦓", "🍎", "🦓"]);
    assert_eq!(names(&got), vec!["zebra", "", "zebra"]);
    let all = rank("", &recents, 10);
    assert_eq!(glyphs(&all), vec!["🦓", "🍎", "🦓", "🐜"]);
    assert_eq!(rank("", &recents, 0).len(), 0);
}

#[test]
fn matching_ignores_letter_case() {
    let cands = named(&["Cat Face", "DOG"]);
    assert_eq!(names(&rank("CAT", &cands, 10)), vec!["Cat Face"]);
    assert_eq!(names(&rank("dog", &cands, 10)), vec!["DOG"]);
    assert_eq!(names(&rank("cAt fAcE", &cands, 10)), vec!["Cat Face"]);
}

#[test]
fn returned_records_keep_their_stored_name() {
    let cands = named(&["Grinning FACE"]);
    let got = rank("face", &cands, 10);
    assert_eq!(got[0].name, "Grinning FACE");
    assert_eq!(got[0].emoji, "g0");
}

#[test]
fn the_glyph_is_not_searched() {
    let cands = vec![Emoji::new("smile", "cat")];
    assert_eq!(rank("cat", &cands, 10).len(), 0);
}

#[test]
fn a_token_counts_once_however_often_it_occurs() {
    let cands = named(&["cat", "cat cat cat"]);
    let got = rank("cat", &cands, 10);
    assert_eq!(glyphs(&got), vec!["g0", "g1"]);
}

#[test]
fn empty_tokens_score_nothing() {
    let cands = named(&["cat", "dog"]);
    assert_eq!(names(&rank("cat ", &cands, 10)), vec!["cat"]);
    assert_eq!(names(&rank(" cat", &cands, 10)), vec!["cat"]);
    assert_eq!(names(&rank("cat  dog", &cands, 10)), vec!["cat", "dog"]);
    assert_eq!(rank(" ", &cands, 10).len(), 0);
    assert_eq!(rank("   ", &cands, 10).len(), 0);
}

#[test]
fn a_token_may_span_part_of_a_word() {
    let cands = named(&["concatenate", "dog"]);
    assert_eq!(names(&rank("cat", &cands, 10)), vec!["concatenate"]);
}

#[test]
fn no_candidates_give_no_results() {
    let cands: Vec<Emoji> = Vec::new();
    assert_eq!(rank("cat", &cands, 10).len(), 0);
    assert_eq!(rank("", &cands, 10).len(), 0);
}

#[test]
fn count_matches_counts_tokens_that_occur() {
    let name = cs("black cat");
    assert_eq!(count_matches(&name, &vec![cs("cat")]), 1);
    assert_eq!(count_matches(&name, &vec![cs("cat"), cs("black")]), 2);
    assert_eq!(count_matches(&name, &vec![cs("cat"), cs("dog"), cs("k c")]), 2);
    assert_eq!(count_matches(&name, &vec![cs("cat"), cs("cat")]), 2);
    assert_eq!(count_matches(&name, &vec![cs(""), cs("")]), 0);
    assert_eq!(count_matches(&name, &vec![]), 0);
    assert_eq!(count_matches(&name, &vec![cs("Cat")]), 0);
}

#[test]
fn order_by_score_lists_by_falling_score_then_rising_position() {
    assert_eq!(order_by_score(&vec![1, 0, 2, 1], 2), vec![2, 0, 3]);
    assert_eq!(order_by_score(&vec![0, 0], 3), Vec::<usize>::new());
    assert_eq!(order_by_score(&vec![3, 3, 1, 2, 3], 3), vec![0, 1, 4, 3, 2]);
    assert_eq!(order_by_score(&vec![3, 1, 2], 2), vec![2, 1]);
    assert_eq!(order_by_score(&vec![], 2), Vec::<usize>::new());
}

#[test]
fn rank_folded_compares_exactly_what_it_is_given() {
    let cands = named(&["Cat", "cat", "dog"]);
    let folded_names = vec![cs("Cat"), cs("cat"), cs("dog")];
    let got = rank_folded(&folded_names, &vec![cs("cat")], &cands, 10);
    assert_eq!(glyphs(&got), vec!["g1"]);
    let got = rank_folded(&folded_names, &vec![cs("cat"), cs("C")], &cands, 1);
    assert_eq!(glyphs(&got), vec!["g0"]);
}

#[test]
fn first_records_takes_a_prefix() {
    let cands = named(&["a", "b", "c"]);
    assert_eq!(names(&first_records(&cands, 2)), vec!["a", "b"]);
    assert_eq!(names(&first_records(&cands, 3)), vec!["a", "b", "c"]);
    assert_eq!(names(&first_records(&cands, 9)), vec!["a", "b", "c"]);
    assert_eq!(first_records(&cands, 0).len(), 0);
}

#[test]
fn update_entries_caps_at_max_results() {
    let many: Vec<String> = (0..MAX_RESULTS + 7).map(|i| format!("cat {}", i)).collect();
    let refs: Vec<&str> = many.iter().map(|s| s.as_str()).collect();
    let cands = named(&refs);
    let got = update_entries("cat", &cands);
    assert_eq!(got.len(), MAX_RESULTS);
    assert_eq!(got[0].name, "cat 0");
    assert_eq!(got[MAX_RESULTS - 1].name, format!("cat {}", MAX_RESULTS - 1));
    assert_eq!(update_entries("", &cands).len(), MAX_RESULTS);
}

#[test]
fn update_entries_finds_a_late_best_match() {
    let mut many: Vec<String> = (0..MAX_RESULTS + 5).map(|i| format!("cat {}", i)).collect();
    many.push("black cat".to_string());
    let refs: Vec<&str> = many.iter().map(|s| s.as_str()).collect();
    let cands = named(&refs);
    let got = update_entries("black cat", &cands);
    assert_eq!(got.len(), MAX_RESULTS);
    assert_eq!(got[0].name, "black cat");
    assert_eq!(got[1].name, "cat 0");
}
