use eternal_terminal::terminal::{key_to_bytes, ConsoleEvent, Key, KeyPress, LocalConsole};

fn press(key: Key) -> KeyPress {
    KeyPress {
        key,
        control: false,
        released: false,
    }
}

fn control(c: char) -> Option<Vec<u8>> {
    key_to_bytes(KeyPress {
        key: Key::Char(c),
        control: true,
        released: false,
    })
}

#[test]
fn characters() {
    assert_eq!(key_to_bytes(press(Key::Char('a'))), Some(vec![b'a']));
    assert_eq!(key_to_bytes(press(Key::Char('\u{e9}'))), Some(vec![0xc3, 0xa9]));
    assert_eq!(
        key_to_bytes(press(Key::Char('\u{1f600}'))),
        Some(vec![0xf0, 0x9f, 0x98, 0x80])
    );
}

#[test]
fn control_characters() {
    assert_eq!(control('c'), Some(vec![3]));
    assert_eq!(control('Z'), Some(vec![26]));
    assert_eq!(control('a'), Some(vec![1]));
    assert_eq!(control('1'), Some(vec![b'1']));
    assert_eq!(control('{'), Some(vec![b'{']));
    // Only the low byte of the character counts.
    assert_eq!(control('\u{161}'), Some(vec![1]));
    assert_eq!(control('\u{141}'), Some(vec![0xc5, 0x81]));
}

#[test]
fn named_keys() {
    for (key, bytes) in [
        (Key::Enter, &b"\r"[..]),
        (Key::Backspace, b"\x7f"),
        (Key::Tab, b"\t"),
        (Key::Esc, b"\x1b"),
        (Key::Delete, b"\x1b[3~"),
        (Key::Home, b"\x1b[H"),
        (Key::End, b"\x1b[F"),
        (Key::PageUp, b"\x1b[5~"),
        (Key::PageDown, b"\x1b[6~"),
        (Key::Up, b"\x1b[A"),
        (Key::Down, b"\x1b[B"),
        (Key::Right, b"\x1b[C"),
        (Key::Left, b"\x1b[D"),
        (Key::Insert, b"\x1b[2~"),
        (Key::F(1), b"\x1bOP"),
        (Key::F(2), b"\x1bOQ"),
        (Key::F(3), b"\x1bOR"),
        (Key::F(4), b"\x1bOS"),
        (Key::F(5), b"\x1b[15~"),
        (Key::F(6), b"\x1b[17~"),
        (Key::F(7), b"\x1b[18~"),
        (Key::F(8), b"\x1b[19~"),
        (Key::F(9), b"\x1b[20~"),
        (Key::F(10), b"\x1b[21~"),
        (Key::F(11), b"\x1b[23~"),
        (Key::F(12), b"\x1b[24~"),
    ] {
        assert_eq!(key_to_bytes(press(key)), Some(bytes.to_vec()), "{key:?}");
    }
    assert_eq!(key_to_bytes(press(Key::F(13))), None);
    assert_eq!(key_to_bytes(press(Key::Other)), None);
}

#[test]
fn released_keys_send_nothing() {
    let up = KeyPress {
        released: true,
        ..press(Key::Enter)
    };
    assert_eq!(key_to_bytes(up), None);
}

#[test]
fn events_are_joined() {
    let console = LocalConsole::new();
    let events = vec![
        ConsoleEvent::Key(press(Key::Char('l'))),
        ConsoleEvent::Other,
        ConsoleEvent::Paste("s \u{e9}".into()),
        ConsoleEvent::Key(press(Key::Enter)),
    ];
    assert_eq!(console.poll_input(&events), Some(b"ls \xc3\xa9\r".to_vec()));
    let split: Vec<u8> = [&events[..2], &events[2..]]
        .iter()
        .filter_map(|e| console.poll_input(e))
        .flatten()
        .collect();
    assert_eq!(split, b"ls \xc3\xa9\r");
    assert!(String::from_utf8(split).is_ok());
    assert_eq!(console.poll_input(&[ConsoleEvent::Other]), None);
    assert_eq!(console.poll_input(&[]), None);
}

#[test]
fn window_sizes() {
    let console = LocalConsole::new();
    assert_eq!(console.setup(), Ok(()));
    let info = console.terminal_info(Some((120, 40)));
    assert_eq!((info.column, info.row), (Some(120), Some(40)));
    assert_eq!((info.id, info.width, info.height), (None, None, None));
    let info = console.terminal_info(Some((0, 0)));
    assert_eq!((info.column, info.row), (Some(1), Some(1)));
    let info = console.terminal_info(None);
    assert_eq!((info.column, info.row), (Some(80), Some(24)));
}

#[test]
fn raw_mode_is_left_once() {
    let mut console = LocalConsole::new();
    assert!(console.teardown());
    assert!(!console.teardown());
}
