use kou::screen::Screen;

#[test]
fn feeds_text_into_the_grid() {
    let mut s = Screen::new(10, 3);
    s.feed(b"hello\nworld");
    assert_eq!(s.cell(0, 0).ch, 'h');
    assert_eq!(s.cell(0, 4).ch, 'o');
    assert_eq!(s.cell(1, 0).ch, 'w');
    assert_eq!(s.text(), "hello\nworld");
}

#[test]
fn cursor_position_is_1_based() {
    let mut s = Screen::new(10, 10);
    s.feed(b"\x1b[3;5HX");
    assert_eq!(s.cell(2, 4).ch, 'X');
}

#[test]
fn sgr_paints_the_palette() {
    let mut s = Screen::new(10, 1);
    s.feed(b"\x1b[31mR");
    assert_eq!(s.cell(0, 0).fg, 1);
    assert_eq!(s.cell(0, 0).ch, 'R');
}

#[test]
fn erase_in_line_clears_to_end() {
    let mut s = Screen::new(5, 1);
    s.feed(b"hello\x1b[2G\x1b[K");
    assert_eq!(s.cell(0, 0).ch, 'h');
    assert_eq!(s.cell(0, 1).ch, '\0');
    assert_eq!(s.cell(0, 4).ch, '\0');
}

#[test]
fn cjk_chars_are_double_width_on_the_grid() {
    let mut s = Screen::new(12, 1);
    s.feed("ab中".as_bytes());
    assert_eq!(s.cell(0, 0).ch, 'a');
    assert_eq!(s.cell(0, 1).ch, 'b');
    assert_eq!(s.cell(0, 2).ch, '中');
    assert!(s.cell(0, 3).wide_cont, "continuation cell not marked");
    assert_eq!(s.cursor_col, 4);
}

#[test]
fn wide_char_does_not_split_across_lines() {
    let mut s = Screen::new(3, 2);
    s.feed("ab中".as_bytes());
    assert_eq!(s.cell(0, 2).ch, '\0', "col 2 of row 0 should be empty");
    assert_eq!(s.cell(1, 0).ch, '中');
    assert!(s.cell(1, 1).wide_cont);
}

#[test]
fn full_line_wraps_instead_of_overwriting() {
    let mut s = Screen::new(3, 2);
    s.feed("abcdef".as_bytes());
    assert_eq!(s.cell(0, 0).ch, 'a');
    assert_eq!(s.cell(0, 2).ch, 'c');
    assert_eq!(s.cell(1, 0).ch, 'd');
    assert_eq!(s.cell(1, 2).ch, 'f');
}

#[test]
fn zero_dimension_screen_does_not_panic() {
    let mut s = Screen::new(0, 0);
    s.feed("anything".as_bytes());
    s.resize(2, 2);
    s.feed("ab".as_bytes());
    assert_eq!(s.cell(0, 0).ch, 'a');
}

#[test]
fn overwriting_a_wide_char_makes_the_new_char_visible() {
    let mut s = Screen::new(4, 1);
    s.feed("ab中".as_bytes());
    s.feed(b"\x1b[1;4Hc");
    assert_eq!(s.cell(0, 2).ch, '\0');
    assert_eq!(s.cell(0, 3).ch, 'c');
    assert!(!s.cell(0, 3).wide_cont);
}

#[test]
fn sgr_256_colour_does_not_invent_styles() {
    let mut s = Screen::new(4, 1);
    s.feed(b"\x1b[38;5;1mR");
    assert_eq!(s.cell(0, 0).fg, 1);
    assert!(!s.cell(0, 0).bold, "256-colour must not set bold");
    assert!(!s.cell(0, 0).italic, "256-colour must not set italic");
}

#[test]
fn partial_escape_across_feed_calls() {
    let mut s = Screen::new(10, 3);
    s.feed(b"\x1b[3");
    s.feed(b"1mR");
    assert_eq!(s.cell(0, 0).fg, 1, "should parse red SGR from split sequence");
    assert_eq!(s.cell(0, 0).ch, 'R');
}

#[test]
fn sgr_truecolour_is_consumed_without_side_effects() {
    let mut s = Screen::new(4, 1);
    s.feed(b"\x1b[38;2;1;2;3mT\x1b[0mX");
    assert!(!s.cell(0, 0).bold);
    assert_eq!(s.cell(0, 1).ch, 'X');
    assert_eq!(s.cell(0, 1).fg, 7);
}

#[test]
fn scrolled_lines_go_to_the_scrollback() {
    let mut s = Screen::new(5, 2);
    s.feed(b"l0\r\nl1\r\nl2\r\nl3");
    assert_eq!(s.text(), "l2\nl3");
    assert_eq!(s.scrollback_text(), "l0\nl1");
    assert_eq!(s.scrollback_with_screen(), "l0\nl1\nl2\nl3");
}

#[test]
fn scrollback_keeps_the_newest_thousand_lines() {
    let mut s = Screen::new(8, 1);
    for i in 0..1100 {
        s.feed(format!("{i}\r\n").as_bytes());
    }
    assert_eq!(s.scrollback.len(), 1000);
    assert_eq!(s.scrollback[0], "100");
    assert_eq!(s.scrollback[999], "1099");
}

#[test]
fn find_text_reports_every_hit_by_character() {
    let mut s = Screen::new(10, 3);
    s.feed("中ab ab\r\nxx\r\n  aaa".as_bytes());
    assert_eq!(s.find_text("ab"), vec![(0, 1), (0, 4)]);
    assert_eq!(s.find_text("aa"), vec![(2, 2), (2, 3)]);
    assert_eq!(s.find_text(""), Vec::<(usize, usize)>::new());
    assert_eq!(s.find_text("zz"), Vec::<(usize, usize)>::new());
}

#[test]
fn has_output_only_after_a_character() {
    let mut s = Screen::new(4, 2);
    assert!(!s.has_output());
    s.feed(b"\x1b[31m");
    assert!(!s.has_output());
    s.feed(b"x");
    assert!(s.has_output());
}

#[test]
fn resize_keeps_overlap_and_clamps_cursor() {
    let mut s = Screen::new(4, 3);
    s.feed(b"abcd\r\nefgh\r\nij");
    s.resize(2, 2);
    assert_eq!(s.cols, 2);
    assert_eq!(s.rows, 2);
    assert_eq!(s.cell(0, 0).ch, 'a');
    assert_eq!(s.cell(1, 1).ch, 'f');
    assert!(s.cursor_row < 2 && s.cursor_col < 2);
    assert_eq!(s.scrollback_text(), "ij");
}

#[test]
fn clone_keeps_the_grid() {
    let mut s = Screen::new(6, 2);
    s.feed(b"\x1b[32mhi\x1b[0m there");
    let c = s.clone();
    assert_eq!(c.text(), s.text());
    assert_eq!(c.cell(0, 0).fg, 2);
    assert_eq!(c.cursor_row, s.cursor_row);
}

#[test]
fn erase_display_clears_the_grid() {
    let mut s = Screen::new(4, 2);
    s.feed(b"ab\r\ncd\x1b[2J");
    assert!(!s.has_output());
}

#[test]
fn kitty_image_is_placed_at_the_cursor_when_its_sequence_arrives() {
    let mut s = Screen::new(20, 10);
    s.feed(b"\x1b[3;4H\x1b_Ga=t,c=4,r=4,i=1;QUJD\x1b\\");
    let p = &s.image_store.placements()[0];
    assert_eq!((p.row, p.col), (2, 3));
}

#[test]
fn two_images_in_one_chunk_take_their_own_cursors() {
    let mut s = Screen::new(20, 10);
    s.feed(b"\x1b_Ga=t,c=1,r=1,i=1;QUJD\x1b\\\x1b[5;7H\x1b_Ga=t,c=1,r=1,i=2;QUJD\x1b\\");
    let ps = s.image_store.placements();
    assert_eq!(ps.len(), 2);
    assert_eq!((ps[0].row, ps[0].col), (0, 0));
    assert_eq!((ps[1].row, ps[1].col), (4, 6));
}

#[test]
fn feeding_in_two_chunks_matches_one_chunk() {
    let mut a = Screen::new(10, 3);
    a.feed(b"ab\x1b[3");
    a.feed(b"1mR\r\nx");
    let mut b = Screen::new(10, 3);
    b.feed(b"ab\x1b[31mR\r\nx");
    assert_eq!(a.text(), b.text());
    assert_eq!(a.cell(0, 2).fg, 1);
    assert_eq!(a.cell(0, 2).fg, b.cell(0, 2).fg);
    assert_eq!((a.cursor_row, a.cursor_col), (b.cursor_row, b.cursor_col));
}
