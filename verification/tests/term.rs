use easyjump::term::{decode_key, frame_text, read_key_timeout, Key, CLEAR_LINE, FRAME_START};

#[test]
fn decode_key_maps_bytes() {
    assert_eq!(decode_key(None, false), Key::Eof);
    assert_eq!(decode_key(Some(0x1b), false), Key::Esc);
    assert_eq!(decode_key(Some(0x1b), true), Key::Sequence);
    assert_eq!(decode_key(Some(0x03), false), Key::CtrlC);
    assert_eq!(decode_key(Some(0x0d), false), Key::Enter);
    assert_eq!(decode_key(Some(0x0a), false), Key::Enter);
    assert_eq!(decode_key(Some(0x7f), false), Key::Backspace);
    assert_eq!(decode_key(Some(0x08), false), Key::Backspace);
    assert_eq!(decode_key(Some(b'a'), false), Key::Char('a'));
    assert_eq!(decode_key(Some(b'`'), true), Key::Char('`'));
    assert_eq!(decode_key(Some(0x7e), false), Key::Char('~'));
    assert_eq!(decode_key(Some(0xc3), false), Key::Sequence);
    assert_eq!(decode_key(Some(0xff), true), Key::Sequence);
}

#[test]
fn read_key_timeout_outcomes() {
    assert_eq!(read_key_timeout(Some(Key::Char('a')), false), Some(Key::Char('a')));
    assert_eq!(read_key_timeout(Some(Key::Enter), true), Some(Key::Enter));
    assert_eq!(read_key_timeout(None, false), None);
    assert_eq!(read_key_timeout(None, true), Some(Key::Eof));
}

#[test]
fn frame_text_draws_from_the_top_left() {
    let lines = vec!["ab".to_string(), "cd".to_string(), "ef".to_string()];
    assert_eq!(
        frame_text(&lines, 10, 2),
        format!("{FRAME_START}ab\x1b[0m{CLEAR_LINE}\r\ncd\x1b[0m{CLEAR_LINE}")
    );
    assert_eq!(
        frame_text(&lines, 1, 5),
        "\x1b[?25l\x1b[Ha\x1b[0m\x1b[K\r\nc\x1b[0m\x1b[K\r\ne\x1b[0m\x1b[K"
    );
    assert_eq!(frame_text(&lines, 10, 0), FRAME_START);
    assert_eq!(frame_text(&Vec::new(), 10, 3), "\x1b[?25l\x1b[H");
}
