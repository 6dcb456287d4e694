use kou::read::{
    boxed, content_bounds, disp_width, frame, pad_to, read, read_default, render_spans,
    structured, Attrs, ReadStyle, colour_name,
};
use kou::screen::Screen;

fn screen_with(frame: &str) -> Screen {
    let cols = frame.lines().map(|l| l.chars().count()).max().unwrap_or(0);
    let rows = frame.lines().count();
    let mut s = Screen::new(cols.max(1), rows.max(1));
    s.feed(frame.as_bytes());
    s
}

#[test]
fn boxed_wraps_content_in_a_frame() {
    let s = screen_with("hello\nworld");
    let out = boxed(&s);
    assert!(out.contains('┌'), "missing top border: {out}");
    assert!(out.contains("hello"));
    assert!(out.contains("world"));
    assert!(out.contains('└'));
}

#[test]
fn structured_includes_header_box_and_spans() {
    let mut s = screen_with("alpha OK\nbravo ERR");
    s.feed(b"\x1b[2;7H\x1b[31mERR\x1b[0m");
    let out = structured(&s);
    assert!(out.contains("## kou frame"), "missing header: {out}");
    assert!(out.contains("## lines"), "missing spans section: {out}");
    assert!(out.contains("fg=red"), "missing colour annotation: {out}");
}

#[test]
fn raw_matches_screen_text() {
    let s = screen_with("abc");
    assert_eq!(read(&s, ReadStyle::Raw), s.text());
}

#[test]
fn blank_screen_is_handled() {
    let s = Screen::new(10, 3);
    assert_eq!(boxed(&s), "(blank terminal)\n");
    assert!(structured(&s).contains("(blank terminal)"));
}

#[test]
fn disp_width_counts_cjk_as_two() {
    assert_eq!(disp_width("ab中"), 4);
    assert_eq!(pad_to("中", 4), "中  ".to_string());
}

#[test]
fn boxed_frame_is_exact() {
    let mut s = Screen::new(10, 4);
    s.feed(b"\x1b[2;3Hab\x1b[3;3Hc");
    assert_eq!(boxed(&s), "┌──┐\n│ab│\n│c │\n└──┘");
}

#[test]
fn wide_frame_carries_the_title() {
    let mut s = Screen::new(10, 1);
    s.feed(b"abcdefg");
    assert_eq!(boxed(&s), "┌─ kou ─┐\n│abcdefg│\n└───────┘");
}

#[test]
fn wide_glyphs_keep_the_frame_rectangular() {
    let mut s = Screen::new(6, 2);
    s.feed("中x\r\nab".as_bytes());
    assert_eq!(boxed(&s), "┌───┐\n│中x│\n│ab │\n└───┘");
}

#[test]
fn structured_is_exact() {
    let mut s = Screen::new(6, 2);
    s.feed(b"ok \x1b[1;31mERR");
    let out = structured(&s);
    assert_eq!(
        out,
        "## kou frame 6×2, cursor (row=0,col=5)\n\n┌─ kou ┐\n│ok ERR│\n└──────┘\n\n## lines (fg/bg = xterm colour; styles noted inline)\n1: \"ok \" \"ERR\" fg=red;bold"
            .to_string()
            + "\n"
    );
}

#[test]
fn content_bounds_cover_wide_glyphs() {
    let mut s = Screen::new(8, 3);
    assert_eq!(content_bounds(&s), None);
    s.feed("\x1b[2;3H中".as_bytes());
    assert_eq!(content_bounds(&s), Some((1, 1, 2, 3)));
}

#[test]
fn spans_coalesce_runs_and_annotate() {
    let mut s = Screen::new(8, 1);
    s.feed(b"a\x1b[44mbc\x1b[0m\x1b[3md");
    assert_eq!(
        render_spans(&s, 0, 0, 7),
        "\"a\" \"bc\" bg=blue \"d\" italic \"    \""
    );
}

#[test]
fn attrs_describe_lists_what_differs() {
    let a = Attrs { fg: 9, bg: 0, bold: true, italic: false, underline: true };
    assert_eq!(a.describe(), "fg=bright-red;bold;underline");
    let plain = Attrs { fg: 7, bg: 0, bold: false, italic: false, underline: false };
    assert!(plain.is_default());
    assert_eq!(plain.describe(), "");
}

#[test]
fn colour_names_use_the_low_four_bits() {
    assert_eq!(colour_name(1), "red");
    assert_eq!(colour_name(0x11), "red");
    assert_eq!(colour_name(15), "bright-white");
}

#[test]
fn frame_with_header_and_padding() {
    let lines = vec!["ab".to_string(), "".to_string()];
    assert_eq!(frame(&lines, 3, Some("hdr")), "hdr\n┌───┐\n│ab │\n│   │\n└───┘");
}

#[test]
fn read_style_from_env_values() {
    assert_eq!(ReadStyle::from_env(Some(" RAW ")), ReadStyle::Raw);
    assert_eq!(ReadStyle::from_env(Some("box")), ReadStyle::Boxed);
    assert_eq!(ReadStyle::from_env(Some("Boxed")), ReadStyle::Boxed);
    assert_eq!(ReadStyle::from_env(Some("other")), ReadStyle::Structured);
    assert_eq!(ReadStyle::from_env(None), ReadStyle::Structured);
}

#[test]
fn read_default_follows_the_mode() {
    let s = screen_with("xy");
    assert_eq!(read_default(&s, Some("raw")), "xy");
    assert_eq!(read_default(&s, Some("boxed")), boxed(&s));
    assert_eq!(read_default(&s, None), structured(&s));
}

#[test]
fn padding_fills_to_the_width() {
    assert_eq!(pad_to("abc", 2), "abc");
    assert_eq!(pad_to("", 3), "   ");
    assert_eq!(disp_width(&pad_to("中文", 7)), 7);
}
