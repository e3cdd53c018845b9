use textbox::{encode, glyph_at, Placement, TextBox};

fn at(col: u16, row: u16, text: &str) -> Placement {
    Placement { col, row, text: text.to_string() }
}

fn row_of(b: &TextBox, row: u16, from: u16, to: u16) -> String {
    (from..=to).map(|col| b.glyph_at(col, row).unwrap_or(' ')).collect()
}

fn danger() -> TextBox {
    TextBox::new(
        10,
        10,
        15,
        6,
        2,
        "DANGER",
        "Some children are playing with dangerous weapons.",
    )
    .unwrap()
}

#[test]
fn places_the_corners_of_a_double_frame() {
    let commands = danger().render();
    assert!(commands.contains(&at(10, 10, "╔")));
    assert!(commands.contains(&at(26, 10, "╗")));
    assert!(commands.contains(&at(26, 17, "╝")));
    assert!(commands.contains(&at(10, 17, "╚")));
}

#[test]
fn counts_the_placements_of_a_panel() {
    let commands = danger().render();
    assert_eq!(commands.len(), 4 + 2 * 15 + 2 * 6 + 4 + 1);
    assert_eq!(commands[commands.len() - 1], at(11, 10, "DANGER"));
}

#[test]
fn renders_a_small_panel_in_order() {
    let b = TextBox::new(3, 4, 2, 1, 1, "T", "ab").unwrap();
    assert_eq!(
        b.render(),
        vec![
            at(3, 4, "┌"),
            at(6, 4, "┐"),
            at(6, 6, "┘"),
            at(3, 6, "└"),
            at(4, 4, "─"),
            at(4, 6, "─"),
            at(5, 4, "─"),
            at(5, 6, "─"),
            at(3, 5, "│"),
            at(4, 5, "ab "),
            at(6, 5, "│"),
            at(4, 4, "T"),
        ]
    );
}

#[test]
fn renders_rows_without_a_line_as_sides_only() {
    let b = TextBox::new(1, 1, 1, 2, 0, "", "a").unwrap();
    assert_eq!(
        b.render(),
        vec![
            at(1, 1, " "),
            at(3, 1, " "),
            at(3, 4, " "),
            at(1, 4, " "),
            at(2, 1, " "),
            at(2, 4, " "),
            at(1, 2, " "),
            at(2, 2, "a "),
            at(3, 2, " "),
            at(1, 3, " "),
            at(3, 3, " "),
            at(2, 1, ""),
        ]
    );
}

#[test]
fn renders_the_largest_panel_at_the_farthest_anchor() {
    let b = TextBox::new(255, 255, 255, 255, 2, "", "").unwrap();
    let commands = b.render();
    assert!(commands.contains(&at(511, 511, "╝")));
    assert!(commands.contains(&at(510, 255, "═")));
    assert!(commands.contains(&at(511, 510, "║")));
}

#[test]
fn draws_the_danger_notice() {
    let b = danger();
    let expected = [
        "╔DANGER═════════╗",
        "║Some children  ║",
        "║are playing    ║",
        "║with dangerous ║",
        "║weapons.       ║",
        "║               ║",
        "║               ║",
        "╚═══════════════╝",
    ];
    for (i, line) in expected.iter().enumerate() {
        assert_eq!(row_of(&b, 10 + i as u16, 10, 26), *line);
    }
}

#[test]
fn leaves_the_cells_round_the_frame_alone() {
    let b = danger();
    for col in 9..=27 {
        assert_eq!(b.glyph_at(col, 9), None);
        assert_eq!(b.glyph_at(col, 18), None);
    }
    for row in 9..=18 {
        assert_eq!(b.glyph_at(9, row), None);
        assert_eq!(b.glyph_at(27, row), None);
    }
    assert_eq!(b.glyph_at(25, 11), None);
    assert_eq!(b.glyph_at(11, 15), None);
}

#[test]
fn the_right_side_stands_over_the_space_that_ends_a_full_line() {
    let b = TextBox::new(3, 4, 2, 1, 1, "T", "ab").unwrap();
    assert_eq!(row_of(&b, 4, 3, 6), "┌T─┐");
    assert_eq!(row_of(&b, 5, 3, 6), "│ab│");
    assert_eq!(row_of(&b, 6, 3, 6), "└──┘");
    assert_eq!(b.glyph_at(7, 5), None);
}

#[test]
fn the_last_placement_over_a_cell_wins() {
    let commands = vec![at(1, 1, "abc"), at(2, 1, "X"), at(1, 2, "z")];
    assert_eq!(glyph_at(&commands, 1, 1), Some('a'));
    assert_eq!(glyph_at(&commands, 2, 1), Some('X'));
    assert_eq!(glyph_at(&commands, 3, 1), Some('c'));
    assert_eq!(glyph_at(&commands, 4, 1), None);
    assert_eq!(glyph_at(&commands, 1, 2), Some('z'));
    assert_eq!(glyph_at(&commands, 0, 1), None);
    assert_eq!(glyph_at(&Vec::new(), 1, 1), None);
}

#[test]
fn encodes_each_placement_as_a_cursor_move_and_its_text() {
    assert_eq!(encode(&Vec::new()), "");
    assert_eq!(encode(&vec![at(10, 10, "╔")]), "\x1b[10;10H╔");
    assert_eq!(encode(&vec![at(3, 120, "hi"), at(511, 7, "")]), "\x1b[120;3Hhi\x1b[7;511H");
    assert_eq!(encode(&vec![at(0, 1, "a"), at(65535, 0, "b")]), "\x1b[1;0Ha\x1b[0;65535Hb");
}

#[test]
fn encodes_a_small_panel() {
    let b = TextBox::new(1, 1, 1, 1, 2, "", "a").unwrap();
    let expected = [
        "\x1b[1;1H╔\x1b[1;3H╗\x1b[3;3H╝\x1b[3;1H╚",
        "\x1b[1;2H═\x1b[3;2H═",
        "\x1b[2;1H║\x1b[2;2Ha \x1b[2;3H║",
        "\x1b[1;2H",
    ];
    assert_eq!(b.to_ansi(), expected.concat());
    assert_eq!(b.to_ansi(), encode(&b.render()));
}

#[test]
fn rendering_again_gives_the_same_placements() {
    let b = danger();
    assert_eq!(b.render(), b.render());
}

#[test]
fn the_title_stands_over_the_top_edge() {
    let b = TextBox::new(1, 1, 4, 1, 1, "full", "").unwrap();
    assert_eq!(row_of(&b, 1, 1, 6), "┌full┐");
    let b = TextBox::new(1, 1, 4, 1, 1, "", "").unwrap();
    assert_eq!(row_of(&b, 1, 1, 6), "┌────┐");
}

#[test]
fn a_blank_frame_is_drawn_with_spaces() {
    let b = TextBox::new(2, 2, 3, 1, 7, "", "abc").unwrap();
    assert_eq!(row_of(&b, 2, 2, 6), "     ");
    assert_eq!(row_of(&b, 3, 2, 6), " abc ");
    assert_eq!(b.glyph_at(2, 3), Some(' '));
    assert_eq!(b.glyph_at(1, 3), None);
}
