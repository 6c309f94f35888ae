use firmware_setup::layout::{scale, window_size, wrap_words};

fn wrap(words: &[&str], width: u32) -> Vec<String> {
    let lines = wrap_words(words.len(), width, |s: usize, e: usize| words[s..e].join(" ").len() as u32);
    lines.iter().map(|(s, e)| words[*s..*e].join(" ")).collect()
}

#[test]
fn wraps_greedily() {
    let words = ["the", "quick", "brown", "fox", "jumps"];
    assert_eq!(wrap(&words, 10), vec!["the quick", "brown fox", "jumps"]);
    assert_eq!(wrap(&words, 100), vec!["the quick brown fox jumps"]);
}

#[test]
fn overlong_word_gets_its_own_line() {
    let words = ["a", "tremendously", "b"];
    assert_eq!(wrap(&words, 5), vec!["a", "tremendously", "b"]);
    assert_eq!(wrap(&["tremendously"], 5), vec!["tremendously"]);
}

#[test]
fn no_words_no_lines() {
    assert!(wrap(&[], 10).is_empty());
}

#[test]
fn window_holds_whole_rows() {
    assert_eq!(window_size(40, 400, 16, 4), 18);
    assert_eq!(window_size(40, 419, 16, 4), 18);
    assert_eq!(window_size(400, 40, 16, 4), 0);
    assert_eq!(window_size(0, 100, 0, 0), 0);
}

#[test]
fn scale_grows_with_display_height() {
    assert_eq!(scale(720), 1);
    assert_eq!(scale(1080), 2);
    assert_eq!(scale(2160), 4);
}
