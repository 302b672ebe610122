//! The local console: which bytes a key stands for, and the size of the window.

use vstd::prelude::*;
use vstd::utf8::*;

use crate::io::IoErrorKind;
use crate::proto::terminal::TerminalInfoView;
use crate::proto::wire;
use crate::proto::TerminalInfo;

verus! {

/// The size of a window that does not tell its own: columns and rows.
pub const DEFAULT_COLUMNS: u16 = 80;

pub const DEFAULT_ROWS: u16 = 24;

/// A key of the keyboard.
#[derive(Debug, Clone, Copy, PartialEq, Eq, Structural)]
pub enum Key {
    Char(char),
    Enter,
    Backspace,
    Tab,
    Esc,
    Delete,
    Home,
    End,
    PageUp,
    PageDown,
    Up,
    Down,
    Right,
    Left,
    Insert,
    /// A function key, by its number.
    F(u8),
    /// Any key that nothing is sent for.
    Other,
}

/// A key that goes down or up.
#[derive(Debug, Clone, Copy, PartialEq, Eq, Structural)]
pub struct KeyPress {
    pub key: Key,
    pub control: bool,
    /// Whether the key goes up.
    pub released: bool,
}

/// What the console reports.
#[derive(Debug)]
pub enum ConsoleEvent {
    Key(KeyPress),
    Paste(String),
    /// A new window size, a mouse movement or a change of focus: nothing to send.
    Other,
}

/// The lower-case letter of an ASCII capital, else the character itself.
pub open spec fn ascii_lowercase(c: char) -> u32 {
    if 'A' <= c <= 'Z' {
        (c as u32 + 32) as u32
    } else {
        c as u32
    }
}

/// The control character that goes with a letter: the low byte of the letter tells
/// which.
pub open spec fn control_code(c: char) -> Option<u8> {
    let low = ascii_lowercase(c) % 256;
    if 97 <= low <= 122 {
        Some((low - 96) as u8)
    } else {
        None
    }
}

/// An escape sequence that starts with `ESC [`.
pub open spec fn csi(end: Seq<u8>) -> Seq<u8> {
    seq![0x1bu8, 0x5b] + end
}

/// An escape sequence that starts with `ESC O`.
pub open spec fn ss3(end: u8) -> Seq<u8> {
    seq![0x1bu8, 0x4f, end]
}

/// The escape sequence of a function key.
pub open spec fn function_key(n: u8) -> Option<Seq<u8>> {
    match n {
        1u8 => Some(ss3(0x50)),
        2u8 => Some(ss3(0x51)),
        3u8 => Some(ss3(0x52)),
        4u8 => Some(ss3(0x53)),
        5u8 => Some(csi(seq![0x31, 0x35, 0x7e])),
        6u8 => Some(csi(seq![0x31, 0x37, 0x7e])),
        7u8 => Some(csi(seq![0x31, 0x38, 0x7e])),
        8u8 => Some(csi(seq![0x31, 0x39, 0x7e])),
        9u8 => Some(csi(seq![0x32, 0x30, 0x7e])),
        10u8 => Some(csi(seq![0x32, 0x31, 0x7e])),
        11u8 => Some(csi(seq![0x32, 0x33, 0x7e])),
        12u8 => Some(csi(seq![0x32, 0x34, 0x7e])),
        _ => None,
    }
}

/// What a key that goes down stands for.
pub open spec fn key_code(key: Key, control: bool) -> Option<Seq<u8>> {
    match key {
        Key::Char(c) => match control_code(c) {
            Some(b) if control => Some(seq![b]),
            _ => Some(encode_utf8(seq![c])),
        },
        Key::Enter => Some(seq![0x0d]),
        Key::Backspace => Some(seq![0x7f]),
        Key::Tab => Some(seq![0x09]),
        Key::Esc => Some(seq![0x1b]),
        Key::Delete => Some(csi(seq![0x33, 0x7e])),
        Key::Home => Some(csi(seq![0x48])),
        Key::End => Some(csi(seq![0x46])),
        Key::PageUp => Some(csi(seq![0x35, 0x7e])),
        Key::PageDown => Some(csi(seq![0x36, 0x7e])),
        Key::Up => Some(csi(seq![0x41])),
        Key::Down => Some(csi(seq![0x42])),
        Key::Right => Some(csi(seq![0x43])),
        Key::Left => Some(csi(seq![0x44])),
        Key::Insert => Some(csi(seq![0x32, 0x7e])),
        Key::F(n) => function_key(n),
        Key::Other => None,
    }
}

/// What is sent for a key: nothing where it goes up.
pub open spec fn key_bytes(press: KeyPress) -> Option<Seq<u8>> {
    if press.released {
        None
    } else {
        key_code(press.key, press.control)
    }
}

/// What is sent for an event.
pub open spec fn event_bytes(event: ConsoleEvent) -> Seq<u8> {
    match event {
        ConsoleEvent::Key(press) => match key_bytes(press) {
            Some(b) => b,
            None => Seq::empty(),
        },
        ConsoleEvent::Paste(s) => encode_utf8(s@),
        ConsoleEvent::Other => Seq::empty(),
    }
}

/// What is sent for some events, one after the other.
pub open spec fn input_bytes(events: Seq<ConsoleEvent>) -> Seq<u8>
    decreases events.len(),
{
    if events.len() == 0 {
        Seq::empty()
    } else {
        input_bytes(events.drop_last()) + event_bytes(events.last())
    }
}

fn control_byte(c: char) -> (r: Option<u8>)
    ensures
        r == control_code(c),
{
    let v: u32 = c as u32;
    let lower: u32 = if 'A' <= c && c <= 'Z' {
        v + 32
    } else {
        v
    };
    let low: u32 = lower % 256;
    if 97 <= low && low <= 122 {
        Some((low - 96) as u8)
    } else {
        None
    }
}

fn csi_bytes(end: &[u8]) -> (r: Vec<u8>)
    ensures
        r@ == csi(end@),
{
    let mut r: Vec<u8> = vec![0x1b, 0x5b];
    wire::put_slice(&mut r, end);
    assert(r@ =~= csi(end@));
    r
}

fn ss3_bytes(end: u8) -> (r: Vec<u8>)
    ensures
        r@ == ss3(end),
{
    let r: Vec<u8> = vec![0x1b, 0x4f, end];
    assert(r@ =~= ss3(end));
    r
}

fn csi_tilde(tens: u8, ones: u8) -> (r: Vec<u8>)
    ensures
        r@ == csi(seq![tens, ones, 0x7e]),
{
    let end: [u8; 3] = [tens, ones, 0x7e];
    assert(end@ =~= seq![tens, ones, 0x7e]);
    csi_bytes(end.as_slice())
}

fn csi_short(n: u8) -> (r: Vec<u8>)
    ensures
        r@ == csi(seq![n, 0x7e]),
{
    let end: [u8; 2] = [n, 0x7e];
    assert(end@ =~= seq![n, 0x7e]);
    csi_bytes(end.as_slice())
}

fn csi_letter(letter: u8) -> (r: Vec<u8>)
    ensures
        r@ == csi(seq![letter]),
{
    let end: [u8; 1] = [letter];
    assert(end@ =~= seq![letter]);
    csi_bytes(end.as_slice())
}

fn one_byte(b: u8) -> (r: Vec<u8>)
    ensures
        r@ == seq![b],
{
    let r: Vec<u8> = vec![b];
    assert(r@ =~= seq![b]);
    r
}

fn char_bytes(c: char) -> (r: Vec<u8>)
    ensures
        r@ == encode_utf8(seq![c]),
{
    let mut s: String = String::new();
    s.push(c);
    assert(s@ =~= seq![c]);
    vstd::slice::slice_to_vec(s.as_str().as_bytes())
}

fn function_key_bytes(n: u8) -> (r: Option<Vec<u8>>)
    ensures
        match r {
            Some(b) => function_key(n) == Some(b@),
            None => function_key(n) is None,
        },
{
    match n {
        1 => Some(ss3_bytes(0x50)),
        2 => Some(ss3_bytes(0x51)),
        3 => Some(ss3_bytes(0x52)),
        4 => Some(ss3_bytes(0x53)),
        5 => Some(csi_tilde(0x31, 0x35)),
        6 => Some(csi_tilde(0x31, 0x37)),
        7 => Some(csi_tilde(0x31, 0x38)),
        8 => Some(csi_tilde(0x31, 0x39)),
        9 => Some(csi_tilde(0x32, 0x30)),
        10 => Some(csi_tilde(0x32, 0x31)),
        11 => Some(csi_tilde(0x32, 0x33)),
        12 => Some(csi_tilde(0x32, 0x34)),
        _ => None,
    }
}

/// The bytes to send for a key.
pub fn key_to_bytes(press: KeyPress) -> (r: Option<Vec<u8>>)
    ensures
        match r {
            Some(b) => key_bytes(press) == Some(b@),
            None => key_bytes(press) is None,
        },
{
    if press.released {
        return None;
    }
    match press.key {
        Key::Char(c) => {
            if press.control {
                match control_byte(c) {
                    Some(b) => {
                        return Some(one_byte(b));
                    },
                    None => {},
                }
            }
            Some(char_bytes(c))
        },
        Key::Enter => Some(one_byte(0x0d)),
        Key::Backspace => Some(one_byte(0x7f)),
        Key::Tab => Some(one_byte(0x09)),
        Key::Esc => Some(one_byte(0x1b)),
        Key::Delete => Some(csi_short(0x33)),
        Key::Home => Some(csi_letter(0x48)),
        Key::End => Some(csi_letter(0x46)),
        Key::PageUp => Some(csi_short(0x35)),
        Key::PageDown => Some(csi_short(0x36)),
        Key::Up => Some(csi_letter(0x41)),
        Key::Down => Some(csi_letter(0x42)),
        Key::Right => Some(csi_letter(0x43)),
        Key::Left => Some(csi_letter(0x44)),
        Key::Insert => Some(csi_short(0x32)),
        Key::F(n) => function_key_bytes(n),
        Key::Other => None,
    }
}

/// The local console, which is in raw mode until it is torn down.
#[derive(Debug)]
pub struct LocalConsole {
    enabled: bool,
}

impl LocalConsole {
    /// Whether the console is in raw mode.
    pub closed spec fn is_enabled(&self) -> bool {
        self.enabled
    }

    /// The console once it is in raw mode.
    pub fn new() -> (r: LocalConsole)
        ensures
            r.is_enabled(),
    {
        LocalConsole { enabled: true }
    }

    /// Prepares the screen, which stays as it is.
    pub fn setup(&self) -> (r: Result<(), IoErrorKind>)
        ensures
            r == Ok::<(), IoErrorKind>(()),
    {
        Ok(())
    }

    /// Notes that the session is over. Says whether raw mode is to be left: that is
    /// so the first time only.
    pub fn teardown(&mut self) -> (r: bool)
        ensures
            r == old(self).is_enabled(),
            !final(self).is_enabled(),
    {
        let leave: bool = self.enabled;
        self.enabled = false;
        leave
    }

    /// The size of the window as the server is told it: never zero, and without
    /// pixels.
    pub fn terminal_info(&self, size: Option<(u16, u16)>) -> (r: TerminalInfo)
        ensures
            ({
                let (columns, rows) = match size {
                    Some(s) => s,
                    None => (DEFAULT_COLUMNS, DEFAULT_ROWS),
                };
                r@ == (TerminalInfoView {
                    id: None,
                    row: Some(
                        if rows == 0 {
                            1i32
                        } else {
                            rows as i32
                        },
                    ),
                    column: Some(
                        if columns == 0 {
                            1i32
                        } else {
                            columns as i32
                        },
                    ),
                    width: None,
                    height: None,
                })
            }),
            size matches Some((columns, rows)) ==> {
                &&& columns > 0 ==> r@.column == Some(columns as i32)
                &&& rows > 0 ==> r@.row == Some(rows as i32)
                &&& columns == 0 ==> r@.column == Some(1i32)
                &&& rows == 0 ==> r@.row == Some(1i32)
            },
            size is None ==> r@.column == Some(80i32) && r@.row == Some(24i32),
    {
        let (columns, rows): (u16, u16) = match size {
            Some(s) => s,
            None => (DEFAULT_COLUMNS, DEFAULT_ROWS),
        };
        let row: i32 = if rows == 0 {
            1
        } else {
            rows as i32
        };
        let column: i32 = if columns == 0 {
            1
        } else {
            columns as i32
        };
        TerminalInfo { id: None, row: Some(row), column: Some(column), width: None, height: None }
    }

    /// The bytes to send for what the console has reported, if there are any.
    pub fn poll_input(&self, events: &[ConsoleEvent]) -> (r: Option<Vec<u8>>)
        ensures
            match r {
                Some(b) => b@ == input_bytes(events@) && b@.len() > 0,
                None => input_bytes(events@).len() == 0,
            },
    {
        let mut out: Vec<u8> = Vec::new();
        let mut i: usize = 0;
        while i < events.len()
            invariant
                i <= events@.len(),
                out@ == input_bytes(events@.take(i as int)),
            decreases events@.len() - i,
        {
            assert(events@.take(i + 1).drop_last() =~= events@.take(i as int));
            let ghost before = out@;
            match &events[i] {
                ConsoleEvent::Key(press) => {
                    match key_to_bytes(*press) {
                        Some(b) => {
                            wire::put_slice(&mut out, b.as_slice());
                        },
                        None => {},
                    }
                },
                ConsoleEvent::Paste(s) => {
                    wire::put_slice(&mut out, s.as_str().as_bytes());
                },
                ConsoleEvent::Other => {},
            }
            assert(out@ =~= before + event_bytes(events@[i as int]));
            i = i + 1;
        }
        assert(events@.take(i as int) =~= events@);
        if out.len() == 0 {
            None
        } else {
            Some(out)
        }
    }
}

/// What is sent for events is the same however they are split over several calls.
pub proof fn input_comes_in_order(a: Seq<ConsoleEvent>, b: Seq<ConsoleEvent>)
    ensures
        input_bytes(a + b) == input_bytes(a) + input_bytes(b),
    decreases b.len(),
{
    if b.len() == 0 {
        assert(a + b =~= a);
    } else {
        input_comes_in_order(a, b.drop_last());
        assert((a + b).drop_last() =~= a + b.drop_last());
    }
    assert(input_bytes(a + b) =~= input_bytes(a) + input_bytes(b));
}

proof fn lemma_ascii_is_utf8(b: Seq<u8>)
    requires
        forall|i: int| 0 <= i < b.len() ==> #[trigger] b[i] < 0x80,
    ensures
        valid_utf8(b),
    decreases b.len(),
{
    if b.len() > 0 {
        let first = b[0];
        assert(first < 0x80);
        assert(codepoint_width_1(first) < 0x80) by {
            assert(first & 0x7f < 0x80) by (bit_vector);
        }
        lemma_ascii_is_utf8(pop_first_scalar(b));
    }
}

/// What is sent for events is UTF-8.
pub proof fn input_is_utf8(events: Seq<ConsoleEvent>)
    ensures
        valid_utf8(input_bytes(events)),
    decreases events.len(),
{
    if events.len() > 0 {
        input_is_utf8(events.drop_last());
        let last = event_bytes(events.last());
        assert(valid_utf8(last)) by {
            match events.last() {
                ConsoleEvent::Key(press) => {
                    match press.key {
                        Key::Char(c) => {
                            encode_utf8_valid_utf8(seq![c]);
                            if control_code(c) is Some {
                                lemma_ascii_is_utf8(seq![control_code(c)->Some_0]);
                            }
                        },
                        _ => {
                            lemma_ascii_is_utf8(last);
                        },
                    }
                },
                ConsoleEvent::Paste(s) => {
                    encode_utf8_valid_utf8(s@);
                },
                ConsoleEvent::Other => {},
            }
        }
        valid_utf8_concat(input_bytes(events.drop_last()), last);
    }
}

/// What is sent for one key that goes down.
pub open spec fn pressed(key: Key, control: bool) -> Seq<u8> {
    input_bytes(
        seq![ConsoleEvent::Key(KeyPress { key, control, released: false })],
    )
}

proof fn lemma_one_event(event: ConsoleEvent)
    ensures
        input_bytes(seq![event]) == event_bytes(event),
{
    assert(seq![event].drop_last() =~= Seq::empty());
    assert(input_bytes(Seq::empty()) =~= Seq::empty());
    assert(input_bytes(seq![event]) =~= event_bytes(event));
}

/// A character is sent in UTF-8. With the control key a letter is sent as the control
/// character of its number in the alphabet, and so is a character beyond ASCII whose low
/// byte is that of a small letter.
pub proof fn characters_are_sent(c: char)
    ensures
        pressed(Key::Char(c), false) == encode_utf8(seq![c]),
        'a' <= c <= 'z' ==> pressed(Key::Char(c), true) == seq![(c as u32 - 96) as u8],
        'A' <= c <= 'Z' ==> pressed(Key::Char(c), true) == seq![(c as u32 - 64) as u8],
        c as u32 <= 127 && !('a' <= c <= 'z') && !('A' <= c <= 'Z') ==> pressed(Key::Char(c), true)
            == encode_utf8(seq![c]),
        c as u32 > 127 && 97 <= c as u32 % 256 <= 122 ==> pressed(Key::Char(c), true)
            == seq![(c as u32 % 256 - 96) as u8],
        c as u32 > 127 && !(97 <= c as u32 % 256 <= 122) ==> pressed(Key::Char(c), true)
            == encode_utf8(seq![c]),
{
    lemma_one_event(
        ConsoleEvent::Key(KeyPress { key: Key::Char(c), control: false, released: false }),
    );
    lemma_one_event(
        ConsoleEvent::Key(KeyPress { key: Key::Char(c), control: true, released: false }),
    );
}

proof fn lemma_pressed(key: Key, control: bool)
    ensures
        key_code(key, control) matches Some(b) ==> pressed(key, control) == b,
        key_code(key, control) is None ==> pressed(key, control) == Seq::<u8>::empty(),
{
    lemma_one_event(ConsoleEvent::Key(KeyPress { key, control, released: false }));
}

/// What is sent for each key that has a name, with the control key or without it.
pub proof fn named_keys_are_sent(control: bool)
    ensures
        pressed(Key::Enter, control) == seq![0x0du8],
        pressed(Key::Backspace, control) == seq![0x7fu8],
        pressed(Key::Tab, control) == seq![0x09u8],
        pressed(Key::Esc, control) == seq![0x1bu8],
        pressed(Key::Delete, control) == seq![0x1bu8, 0x5b, 0x33, 0x7e],
        pressed(Key::Home, control) == seq![0x1bu8, 0x5b, 0x48],
        pressed(Key::End, control) == seq![0x1bu8, 0x5b, 0x46],
        pressed(Key::PageUp, control) == seq![0x1bu8, 0x5b, 0x35, 0x7e],
        pressed(Key::PageDown, control) == seq![0x1bu8, 0x5b, 0x36, 0x7e],
        pressed(Key::Up, control) == seq![0x1bu8, 0x5b, 0x41],
        pressed(Key::Down, control) == seq![0x1bu8, 0x5b, 0x42],
        pressed(Key::Right, control) == seq![0x1bu8, 0x5b, 0x43],
        pressed(Key::Left, control) == seq![0x1bu8, 0x5b, 0x44],
        pressed(Key::Insert, control) == seq![0x1bu8, 0x5b, 0x32, 0x7e],
        pressed(Key::Other, control) == Seq::<u8>::empty(),
{
    lemma_pressed(Key::Enter, control);
    lemma_pressed(Key::Backspace, control);
    lemma_pressed(Key::Tab, control);
    lemma_pressed(Key::Esc, control);
    lemma_pressed(Key::Delete, control);
    lemma_pressed(Key::Home, control);
    lemma_pressed(Key::End, control);
    lemma_pressed(Key::PageUp, control);
    lemma_pressed(Key::PageDown, control);
    lemma_pressed(Key::Up, control);
    lemma_pressed(Key::Down, control);
    lemma_pressed(Key::Right, control);
    lemma_pressed(Key::Left, control);
    lemma_pressed(Key::Insert, control);
    lemma_pressed(Key::Other, control);
}

/// What is sent for each function key, with the control key or without it. There are twelve.
pub proof fn function_keys_are_sent(n: u8, control: bool)
    ensures
        1 <= n <= 4 ==> pressed(Key::F(n), control) == seq![0x1bu8, 0x4f, (0x4f + n) as u8],
        n == 5 ==> pressed(Key::F(n), control) == seq![0x1bu8, 0x5b, 0x31, 0x35, 0x7e],
        6 <= n <= 8 ==> pressed(Key::F(n), control)
            == seq![0x1bu8, 0x5b, 0x31, (0x31 + n) as u8, 0x7e],
        9 <= n <= 10 ==> pressed(Key::F(n), control)
            == seq![0x1bu8, 0x5b, 0x32, (0x27 + n) as u8, 0x7e],
        11 <= n <= 12 ==> pressed(Key::F(n), control)
            == seq![0x1bu8, 0x5b, 0x32, (0x28 + n) as u8, 0x7e],
        n == 0 || n > 12 ==> pressed(Key::F(n), control) == Seq::<u8>::empty(),
{
    lemma_pressed(Key::F(n), control);
}

/// A pasted text is sent in UTF-8. Nothing is sent for a key that goes up, for any other
/// event, or for no event at all.
pub proof fn other_events_are_sent(key: Key, control: bool, text: String)
    ensures
        input_bytes(seq![ConsoleEvent::Paste(text)]) == encode_utf8(text@),
        input_bytes(seq![ConsoleEvent::Key(KeyPress { key, control, released: true })]) == Seq::<
            u8,
        >::empty(),
        input_bytes(seq![ConsoleEvent::Other]) == Seq::<u8>::empty(),
        input_bytes(Seq::empty()) == Seq::<u8>::empty(),
{
    lemma_one_event(ConsoleEvent::Paste(text));
    lemma_one_event(ConsoleEvent::Key(KeyPress { key, control, released: true }));
    lemma_one_event(ConsoleEvent::Other);
}

} // verus!
