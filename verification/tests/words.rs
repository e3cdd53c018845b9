use textbox::{split_words, wrap_words, BorderStyle, LayoutError};

fn strings(words: &[&str]) -> Vec<String> {
    words.iter().map(|w| w.to_string()).collect()
}

#[test]
fn splits_at_every_space() {
    assert_eq!(split_words(""), vec![""]);
    assert_eq!(split_words("a"), vec!["a"]);
    assert_eq!(split_words("a b"), vec!["a", "b"]);
    assert_eq!(split_words(" a"), vec!["", "a"]);
    assert_eq!(split_words("a "), vec!["a", ""]);
    assert_eq!(split_words("a  b"), vec!["a", "", "b"]);
    assert_eq!(split_words("   "), vec!["", "", "", ""]);
    assert_eq!(split_words("one\ntwo\tthree"), vec!["one\ntwo\tthree"]);
    assert_eq!(split_words("é ñ"), vec!["é", "ñ"]);
}

#[test]
fn splits_as_the_standard_library_does() {
    for text in ["", " ", "a b  c ", "Some children are playing", " \n x"] {
        let expected: Vec<&str> = text.split(' ').collect();
        assert_eq!(split_words(text), expected);
    }
}

#[test]
fn packs_words_greedily() {
    let words = strings(&["Some", "children", "are", "playing"]);
    assert_eq!(wrap_words(&words, 15).unwrap(), vec!["Some children ", "are playing "]);
    assert_eq!(wrap_words(&words, 8).unwrap(), vec!["Some ", "children ", "are ", "playing "]);
}

#[test]
fn packs_no_words_into_one_empty_line() {
    let words: Vec<String> = Vec::new();
    assert_eq!(wrap_words(&words, 5).unwrap(), vec![""]);
}

#[test]
fn packing_stops_at_the_first_word_that_is_too_long() {
    let words = strings(&["ab", "abcd", "abcdef"]);
    assert_eq!(
        wrap_words(&words, 3).unwrap_err(),
        LayoutError::WordTooLong { word: "abcd".to_string() }
    );
}

#[test]
fn packing_drops_break_tokens_and_keeps_empty_words() {
    let words = strings(&["a", "", "b", "\n", "", "\n", "c"]);
    assert_eq!(wrap_words(&words, 4).unwrap(), vec!["a  b ", " ", "c "]);
}

#[test]
fn decodes_style_codes() {
    assert_eq!(BorderStyle::from_code(0), BorderStyle::Blank);
    assert_eq!(BorderStyle::from_code(1), BorderStyle::Light);
    assert_eq!(BorderStyle::from_code(2), BorderStyle::Double);
    assert_eq!(BorderStyle::from_code(3), BorderStyle::Blank);
    assert_eq!(BorderStyle::from_code(255), BorderStyle::Blank);
}

#[test]
fn each_style_has_its_glyphs() {
    let g = BorderStyle::Light.glyphs();
    assert_eq!(
        (g.horizontal, g.vertical, g.top_left, g.top_right, g.bottom_right, g.bottom_left),
        ('─', '│', '┌', '┐', '┘', '└')
    );
    let g = BorderStyle::Double.glyphs();
    assert_eq!(
        (g.horizontal, g.vertical, g.top_left, g.top_right, g.bottom_right, g.bottom_left),
        ('═', '║', '╔', '╗', '╝', '╚')
    );
    let g = BorderStyle::Blank.glyphs();
    assert_eq!(
        (g.horizontal, g.vertical, g.top_left, g.top_right, g.bottom_right, g.bottom_left),
        (' ', ' ', ' ', ' ', ' ', ' ')
    );
}
