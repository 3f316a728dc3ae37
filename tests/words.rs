use scriptlets::words::{frequencies_of, mask_except, most_common_char, word_frequencies, word_infos};

const LYRICS: &str = "… So, so you think you can tell heaven from hell?
Blue skies from pain?
Can you tell a green field from a cold steel rail?
A smile from a veil?
Do you think you can tell?
";

fn pairs(v: &[(&str, usize)]) -> Vec<(String, usize)> {
    v.iter().map(|(w, n)| (w.to_string(), *n)).collect()
}

#[test]
fn counts_words_in_byte_order() {
    let got = word_frequencies("b a  b\nc\ta b");
    assert_eq!(got, pairs(&[("a", 2), ("b", 3), ("c", 1)]));
}

#[test]
fn empty_text_has_no_words() {
    assert_eq!(word_frequencies(""), vec![]);
    assert_eq!(word_frequencies(" \n\t "), vec![]);
}

#[test]
fn lyrics_frequencies() {
    let got = word_frequencies(LYRICS);
    assert_eq!(got.len(), 25);
    assert_eq!(got[0], ("A".to_string(), 1));
    assert_eq!(got[5], ("a".to_string(), 3));
    assert_eq!(got[9], ("from".to_string(), 4));
    assert_eq!(got[23], ("you".to_string(), 5));
    assert_eq!(got[24], ("…".to_string(), 1));
}

#[test]
fn frequencies_of_a_list() {
    let words: Vec<String> = vec!["x".into(), "y".into(), "x".into()];
    assert_eq!(frequencies_of(&words), pairs(&[("x", 2), ("y", 1)]));
}

#[test]
fn most_common_characters() {
    assert_eq!(most_common_char("hello"), 'l');
    assert_eq!(most_common_char("abab"), 'b');
    assert_eq!(most_common_char("Blue"), 'u');
    assert_eq!(most_common_char("z"), 'z');
    assert_eq!(most_common_char(""), '\0');
}

#[test]
fn word_rows() {
    let rows = word_infos(&word_frequencies(LYRICS));
    assert_eq!(rows.len(), 25);
    assert_eq!(rows[1].word, "Blue");
    assert_eq!(rows[1].frequency, 1);
    assert_eq!(rows[1].length, 4);
    assert_eq!(rows[1].most_common_char, 'u');
    assert_eq!(rows[24].word, "…");
    assert_eq!(rows[24].length, 3);
    assert_eq!(rows[24].most_common_char, '…');
}

#[test]
fn masking_keeps_only_one_character() {
    let grid = [['Q', 'A', 'Z'], ['A', 'A', 'A'], ['A', 'A', 'A'], ['A', 'Z', 'Z']];
    assert_eq!(
        mask_except(grid, 'A'),
        [['.', 'A', '.'], ['A', 'A', 'A'], ['A', 'A', 'A'], ['A', '.', '.']]
    );
}
