use kou::paint::{canvas_size, paint_cells, Paint};
use kou::screen::Screen;
use kou::session::{parse_env_string, session_id, session_info};
use kou::theme::theme_by_name;

#[test]
fn session_ids_name_process_and_sequence() {
    assert_eq!(session_id(4242, 0), "kou-4242-0");
    assert_eq!(session_id(7, 31), "kou-7-31");
}

#[test]
fn session_info_defaults_the_name() {
    let i = session_info("kou-1-0", None, "bash", 80, 24, true, Some(9));
    assert_eq!(i.name, "");
    assert_eq!(i.command, "bash");
    assert_eq!((i.cols, i.rows, i.alive, i.pid), (80, 24, true, Some(9)));
    let j = session_info("kou-1-1", Some("main"), "sh", 10, 5, false, None);
    assert_eq!(j.name, "main");
    assert_eq!(j.id, "kou-1-1");
}

#[test]
fn painting_fills_backgrounds_and_draws_glyphs() {
    let theme = theme_by_name("campbell");
    let mut s = Screen::new(3, 1);
    s.feed("\x1b[41ma\x1b[0m中".as_bytes());
    assert_eq!(canvas_size(&s, 8, 16), (24, 16));
    let ops = paint_cells(&s, &theme, 8, 16);
    assert_eq!(
        ops,
        vec![
            Paint::Fill { x: 0, y: 0, w: 8, h: 16, rgb: theme.ansi[1] },
            Paint::Glyph { ch: 'a', x: 0, y: 0, w: 8, h: 16, rgb: theme.ansi[7] },
            Paint::Glyph { ch: '中', x: 8, y: 0, w: 16, h: 16, rgb: theme.ansi[7] },
        ]
    );
}

#[test]
fn a_blank_screen_paints_nothing() {
    let theme = theme_by_name("xterm");
    let s = Screen::new(4, 2);
    assert!(paint_cells(&s, &theme, 8, 16).is_empty());
}

#[test]
fn env_strings_split_on_commas_and_newlines() {
    let pairs = parse_env_string("A=1, B = two ,\nbad\n,C=x=y");
    let expect: Vec<(String, String)> = vec![
        ("A".to_string(), "1".to_string()),
        ("B".to_string(), " two".to_string()),
        ("C".to_string(), "x=y".to_string()),
    ];
    assert_eq!(pairs, expect);
    assert!(parse_env_string("").is_empty());
}
