use textbox::{LayoutError, TextBox};

fn lines_of(b: &TextBox) -> Vec<&str> {
    b.lines().iter().map(|l| l.as_str()).collect()
}

fn body(width: u8, height: u8, text: &str) -> Result<Vec<String>, LayoutError> {
    TextBox::new(1, 1, width, height, 0, "", text).map(|b| b.lines().clone())
}

#[test]
fn wraps_the_danger_notice() {
    let b = TextBox::new(
        10,
        10,
        15,
        6,
        2,
        "DANGER",
        "Some children are playing with dangerous weapons.",
    )
    .unwrap();
    assert_eq!(
        lines_of(&b),
        vec!["Some children ", "are playing ", "with dangerous ", "weapons. "]
    );
    assert_eq!(b.title(), "DANGER");
    assert_eq!((b.x(), b.y(), b.width(), b.height()), (10, 10, 15, 6));
    assert_eq!(b.border(), textbox::BorderStyle::Double);
}

#[test]
fn rejects_a_word_wider_than_the_panel() {
    let r = TextBox::new(1, 1, 5, 3, 0, "HI", "supercalifragilistic");
    assert_eq!(
        r.unwrap_err(),
        LayoutError::WordTooLong { word: "supercalifragilistic".to_string() }
    );
}

#[test]
fn rejects_a_body_higher_than_the_panel() {
    let r = TextBox::new(1, 1, 10, 1, 0, "X", "one two three four five");
    assert_eq!(r.unwrap_err(), LayoutError::TooManyLines { count: 3 });
    assert_eq!(
        body(10, 3, "one two three four five").unwrap(),
        vec!["one two ", "three four ", "five "]
    );
}

#[test]
fn rejects_a_title_wider_than_the_panel_whatever_the_body() {
    for text in ["", "fits", "supercalifragilistic", "a b c d e f g h"] {
        let r = TextBox::new(1, 1, 3, 1, 1, "LONG", text);
        assert_eq!(r.unwrap_err(), LayoutError::TitleTooLong { title: "LONG".to_string() });
    }
}

#[test]
fn a_title_as_wide_as_the_panel_fits() {
    let b = TextBox::new(1, 1, 4, 1, 1, "LONG", "").unwrap();
    assert_eq!(b.title(), "LONG");
}

#[test]
fn reports_the_first_word_that_is_too_long() {
    assert_eq!(
        body(3, 9, "ab toolong cd evenlonger").unwrap_err(),
        LayoutError::WordTooLong { word: "toolong".to_string() }
    );
}

#[test]
fn a_long_word_is_reported_before_the_line_count() {
    assert_eq!(
        body(3, 1, "a b c d e f toolong").unwrap_err(),
        LayoutError::WordTooLong { word: "toolong".to_string() }
    );
}

#[test]
fn an_empty_body_is_one_line_that_shows_nothing() {
    assert_eq!(body(5, 1, "").unwrap(), vec![" "]);
    assert_eq!(body(0, 1, "").unwrap(), vec![" "]);
}

#[test]
fn a_panel_without_rows_holds_no_body() {
    assert_eq!(body(5, 0, "").unwrap_err(), LayoutError::TooManyLines { count: 1 });
}

#[test]
fn a_word_as_wide_as_the_panel_fills_a_line() {
    assert_eq!(body(5, 2, "hello world").unwrap(), vec!["hello ", "world "]);
}

#[test]
fn words_that_fill_the_width_exactly_share_a_line() {
    assert_eq!(body(5, 1, "ab cd").unwrap(), vec!["ab cd "]);
    assert_eq!(body(4, 2, "ab cd").unwrap(), vec!["ab ", "cd "]);
}

#[test]
fn a_lone_line_feed_breaks_the_line() {
    assert_eq!(body(10, 2, "a \n b").unwrap(), vec!["a ", "b "]);
    assert_eq!(body(10, 2, "a \n").unwrap(), vec!["a ", ""]);
    assert_eq!(body(10, 2, "\n a").unwrap(), vec!["", "a "]);
    assert_eq!(body(10, 3, "\n \n").unwrap(), vec!["", "", ""]);
}

#[test]
fn a_line_feed_inside_a_word_breaks_nothing() {
    assert_eq!(body(10, 1, "a\nb c").unwrap(), vec!["a\nb c "]);
}

#[test]
fn a_line_feed_is_a_word_too_long_for_no_width() {
    assert_eq!(
        body(0, 5, "\n").unwrap_err(),
        LayoutError::WordTooLong { word: "\n".to_string() }
    );
}

#[test]
fn spaces_in_a_row_give_empty_words() {
    assert_eq!(body(10, 1, "a  b").unwrap(), vec!["a  b "]);
    assert_eq!(body(10, 1, " a").unwrap(), vec![" a "]);
    assert_eq!(body(10, 1, "a ").unwrap(), vec!["a  "]);
    assert_eq!(body(1, 3, "a  b").unwrap(), vec!["a ", " ", "b "]);
}

#[test]
fn lengths_count_characters() {
    let b = TextBox::new(1, 1, 3, 1, 0, "ééé", "ñañ").unwrap();
    assert_eq!(b.title(), "ééé");
    assert_eq!(lines_of(&b), vec!["ñañ "]);
    assert_eq!(
        TextBox::new(1, 1, 3, 1, 0, "éééé", "").unwrap_err(),
        LayoutError::TitleTooLong { title: "éééé".to_string() }
    );
}

#[test]
fn lengths_beyond_the_widest_panel_do_not_wrap_around() {
    let long = "a".repeat(256);
    assert_eq!(
        TextBox::new(1, 1, 0, 1, 0, &long, "").unwrap_err(),
        LayoutError::TitleTooLong { title: long.clone() }
    );
    assert_eq!(body(255, 1, &long).unwrap_err(), LayoutError::WordTooLong { word: long });
    let many = vec!["a"; 300].join(" ");
    assert_eq!(body(1, 255, &many).unwrap_err(), LayoutError::TooManyLines { count: 300 });
}

#[test]
fn the_widest_and_highest_panel_is_laid_out() {
    let word = "a".repeat(255);
    let text = vec![word.as_str(); 255].join(" ");
    let lines = body(255, 255, &text).unwrap();
    assert_eq!(lines.len(), 255);
    assert!(lines.iter().all(|l| l.len() == 256 && l.ends_with(' ')));
}

#[test]
fn every_line_shows_at_most_the_width() {
    let text = "the quick brown fox jumps over the lazy dog and runs far away";
    for width in 5..=20u8 {
        let lines = body(width, 255, text).unwrap();
        assert!(!lines.is_empty());
        for line in &lines {
            assert!(line.ends_with(' '));
            assert!(line.chars().count() - 1 <= width as usize);
        }
    }
}

#[test]
fn wrapping_what_the_lines_show_gives_the_same_lines() {
    let text = "Some children are playing with dangerous weapons.";
    for width in 10..=30u8 {
        let lines = body(width, 255, text).unwrap();
        let shown: Vec<&str> = lines.iter().map(|l| l.strip_suffix(' ').unwrap()).collect();
        let rejoined = shown.join(" ");
        assert_eq!(rejoined, text);
        assert_eq!(body(width, 255, &rejoined).unwrap(), lines);
    }
}

#[test]
fn an_idle_break_does_not_change_what_wrapping_again_gives() {
    let lines = body(3, 2, "a \n bbb").unwrap();
    assert_eq!(lines, vec!["a ", "bbb "]);
    assert_eq!(body(3, 2, "a bbb").unwrap(), lines);
}

#[test]
fn a_break_that_splits_a_line_is_lost_when_wrapping_again() {
    assert_eq!(body(3, 2, "a \n b").unwrap(), vec!["a ", "b "]);
    assert_eq!(body(3, 2, "a b").unwrap(), vec!["a b "]);
}

#[test]
fn a_body_as_high_as_the_panel_fits() {
    let text = "Some children are playing with dangerous weapons.";
    assert_eq!(body(15, 4, text).unwrap().len(), 4);
    assert_eq!(body(15, 3, text).unwrap_err(), LayoutError::TooManyLines { count: 4 });
}

#[test]
fn every_layout_has_at_least_one_line_and_no_more_than_its_height() {
    let texts = ["", " ", "a", "\n", "a \n \n b", "one two three four five six seven"];
    for text in texts {
        for width in 1..=12u8 {
            for height in 0..=6u8 {
                match body(width, height, text) {
                    Ok(lines) => {
                        assert!(1 <= lines.len() && lines.len() <= height as usize);
                    }
                    Err(LayoutError::TooManyLines { count }) => assert!(count > height as usize),
                    Err(LayoutError::WordTooLong { word }) => {
                        assert!(word.chars().count() > width as usize);
                    }
                    Err(LayoutError::TitleTooLong { .. }) => unreachable!(),
                }
            }
        }
    }
}
