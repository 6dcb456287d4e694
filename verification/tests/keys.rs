use kou::keys::{encode_input, parse_keys, parse_keys_checked, KeyFault};

#[test]
fn named_keys_map_to_escapes() {
    assert_eq!(parse_keys("ENTER").unwrap(), b"\r");
    assert_eq!(parse_keys("TAB").unwrap(), b"\t");
    assert_eq!(parse_keys("ESC").unwrap(), b"\x1b");
    assert_eq!(parse_keys("UP").unwrap(), b"\x1b[A");
    assert_eq!(parse_keys("F5").unwrap(), b"\x1b[15~");
}

#[test]
fn ctrl_and_alt_prefixes() {
    assert_eq!(parse_keys("CTRL+C").unwrap(), &[0x03]);
    assert_eq!(parse_keys("ALT+F").unwrap(), &[0x1b, b'F']);
}

#[test]
fn literal_text_passes_through() {
    assert_eq!(parse_keys("hello").unwrap(), b"hello");
    assert_eq!(&parse_keys("echo ENTER").unwrap()[..4], b"echo");
}

#[test]
fn encode_input_collapses_newlines() {
    assert_eq!(encode_input("a\nb"), b"a\rb");
    assert_eq!(encode_input("a\r\nb"), b"a\rb");
}

#[test]
fn key_names_are_case_insensitive() {
    assert_eq!(parse_keys("enter").unwrap(), b"\r");
    assert_eq!(parse_keys("Page_Down").unwrap(), b"\x1b[6~");
    assert_eq!(parse_keys("ctrl+z").unwrap(), &[26]);
    assert_eq!(parse_keys("shift+Ab").unwrap(), b"Ab");
    assert_eq!(parse_keys("alt+x").unwrap(), &[0x1b, b'x']);
}

#[test]
fn sequences_concatenate() {
    assert_eq!(parse_keys("ls SPACE -l ENTER").unwrap(), b"ls -l\r");
    assert_eq!(parse_keys("a  b").unwrap(), b"ab");
    assert_eq!(parse_keys("").unwrap(), b"");
}

#[test]
fn ctrl_errors() {
    let e = parse_keys("x CTRL+").unwrap_err();
    assert_eq!(e.fault, KeyFault::NoLetterAfterCtrl);
    assert_eq!(e.part, "CTRL+");
    assert_eq!(e.message(), "no letter after CTRL+ in 'CTRL+'");
    let e = parse_keys("CTRL+1 ENTER").unwrap_err();
    assert_eq!(e.fault, KeyFault::InvalidCtrlKey);
    assert_eq!(e.message(), "invalid CTRL+key: CTRL+1");
}

#[test]
fn literal_tokens_are_sent_as_utf8() {
    assert_eq!(parse_keys("é").unwrap(), vec![0xc3, 0xa9]);
    assert_eq!(parse_keys("x 中").unwrap(), vec![b'x', 0xe4, 0xb8, 0xad]);
}

#[test]
fn checked_parse_agrees() {
    assert_eq!(parse_keys_checked("UP DOWN").unwrap().unwrap(), b"\x1b[A\x1b[B");
    assert!(parse_keys_checked("CTRL+").unwrap().is_err());
}

#[test]
fn encoded_input_never_holds_a_line_feed() {
    let out = encode_input("one\r\ntwo\nthree\r\r\n中\n");
    assert!(!out.contains(&b'\n'));
    assert_eq!(out, "one\rtwo\rthree\r\r中\r".as_bytes());
}
