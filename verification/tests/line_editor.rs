use cxsh::input::TermIO;
use cxsh::termio::{clear_command, cursor_to_left, KeyInput, KeyStep, LineReader, TermOutput};
use cxsh::text::string_slice;

fn text(s: &str) -> TermOutput {
    TermOutput::Text(s.to_string())
}

fn spaces(n: usize) -> Vec<TermOutput> {
    (0..n).map(|_| text(" ")).collect()
}

fn type_str(r: &mut LineReader, s: &str) {
    for c in s.chars() {
        r.try_key(KeyInput::Char(c)).unwrap();
    }
}

#[test]
fn string_slice_counts_characters() {
    assert_eq!(string_slice("héllo", 1, 3), "él");
    assert_eq!(string_slice("héllo", 3, 100), "lo");
    assert_eq!(string_slice("héllo", 4, 2), "");
    assert_eq!(string_slice("héllo", 9, 12), "");
    assert_eq!(string_slice("", 0, 5), "");
    // adjacent slices put together give the larger slice
    let s = "日本語テキスト";
    assert_eq!(string_slice(s, 0, 3) + &string_slice(s, 3, 6), string_slice(s, 0, 6));
}

#[test]
fn cursor_to_left_skips_zero() {
    assert_eq!(cursor_to_left(0), vec![]);
    assert_eq!(cursor_to_left(3), vec![TermOutput::CursorLeft(3)]);
    assert_eq!(cursor_to_left(65537), vec![TermOutput::CursorLeft(1)]);
}

#[test]
fn clear_command_uses_display_width() {
    let mut expected = vec![TermOutput::CursorLeft(2)];
    expected.extend(spaces(6));
    expected.push(TermOutput::CursorLeft(6));
    assert_eq!(clear_command("日本語", 1), expected);
    assert_eq!(clear_command("", 0), vec![]);
    let mut expected = spaces(2);
    expected.push(TermOutput::CursorLeft(2));
    assert_eq!(clear_command("ab", 0), expected);
}

#[test]
fn typing_and_enter() {
    let mut r = LineReader::new();
    type_str(&mut r, "ls -l");
    assert_eq!(r.buffer(), "ls -l");
    let step = r.try_key(KeyInput::Char('\n')).unwrap();
    assert_eq!(step.line, Some("ls -l".to_string()));
    assert_eq!(step.output, vec![text("\r\n"), TermOutput::Flush]);
}

#[test]
fn insert_redraws_the_line() {
    let mut r = LineReader::new();
    let step = r.try_key(KeyInput::Char('a')).unwrap();
    assert_eq!(step, KeyStep { output: vec![text("a"), TermOutput::Flush], line: None });
    r.try_key(KeyInput::Char('c')).unwrap();
    r.try_key(KeyInput::Left).unwrap();
    let step = r.try_key(KeyInput::Char('b')).unwrap();
    let mut expected = vec![TermOutput::CursorLeft(1)];
    expected.extend(spaces(2));
    expected.push(TermOutput::CursorLeft(2));
    expected.push(text("abc"));
    expected.push(TermOutput::CursorLeft(1));
    expected.push(TermOutput::Flush);
    assert_eq!(step.output, expected);
    assert_eq!(r.buffer(), "abc");
}

#[test]
fn tab_is_ignored_and_ctrl_c_gives_empty_line() {
    let mut r = LineReader::new();
    type_str(&mut r, "ab");
    assert_eq!(r.try_key(KeyInput::Char('\t')).unwrap().output, vec![]);
    assert_eq!(r.buffer(), "ab");
    assert_eq!(r.try_key(KeyInput::Ctrl('d')).unwrap().output, vec![]);
    let step = r.try_key(KeyInput::Ctrl('c')).unwrap();
    assert_eq!(step.line, Some(String::new()));
}

#[test]
fn insert_then_backspace_restores_the_line() {
    let mut r = LineReader::new();
    type_str(&mut r, "héllo");
    r.try_key(KeyInput::Left).unwrap();
    r.try_key(KeyInput::Left).unwrap();
    r.try_key(KeyInput::Char('X')).unwrap();
    assert_eq!(r.buffer(), "hélXlo");
    r.try_key(KeyInput::Backspace).unwrap();
    assert_eq!(r.buffer(), "héllo");
    r.try_key(KeyInput::Char('\n')).map(|s| assert_eq!(s.line, Some("héllo".to_string())));
}

#[test]
fn delete_removes_the_character_at_the_cursor() {
    let mut r = LineReader::new();
    type_str(&mut r, "abc");
    r.try_key(KeyInput::Left).unwrap();
    r.try_key(KeyInput::Left).unwrap();
    r.try_key(KeyInput::Delete).unwrap();
    assert_eq!(r.buffer(), "ac");
    // at the end nothing happens
    let mut r = LineReader::new();
    type_str(&mut r, "ab");
    assert_eq!(r.try_key(KeyInput::Delete).unwrap().output, vec![]);
    assert_eq!(r.buffer(), "ab");
}

#[test]
fn cursor_moves_by_character_width() {
    let mut r = LineReader::new();
    type_str(&mut r, "日a");
    assert_eq!(r.try_key(KeyInput::Left).unwrap().output, vec![TermOutput::CursorLeft(1), TermOutput::Flush]);
    assert_eq!(r.try_key(KeyInput::Left).unwrap().output, vec![TermOutput::CursorLeft(2), TermOutput::Flush]);
    assert_eq!(r.try_key(KeyInput::Left).unwrap().output, vec![]);
    assert_eq!(r.try_key(KeyInput::Right).unwrap().output, vec![TermOutput::CursorRight(2), TermOutput::Flush]);
    assert_eq!(r.try_key(KeyInput::Right).unwrap().output, vec![TermOutput::CursorRight(1), TermOutput::Flush]);
    // at the end of a line with multi-byte characters, Right cannot be taken
    assert!(r.try_key(KeyInput::Right).is_none());
    let mut r = LineReader::new();
    type_str(&mut r, "ab");
    assert_eq!(r.try_key(KeyInput::Right).unwrap().output, vec![]);
}

#[test]
fn keys_that_cannot_be_taken() {
    // moving right past the end of a line with multi-byte characters
    let mut r = LineReader::new();
    type_str(&mut r, "é");
    assert!(!r.can_take(KeyInput::Right));
    assert!(r.try_key(KeyInput::Right).is_none());
    assert_eq!(r.buffer(), "é");
    // moving over a control character
    let mut r = LineReader::new();
    r.try_key(KeyInput::Char('\u{1b}')).unwrap();
    assert!(r.try_key(KeyInput::Left).is_none());
}

#[test]
fn read_errors_are_reported() {
    let mut r = LineReader::new();
    let step = r.try_key(KeyInput::ReadError).unwrap();
    assert_eq!(step.output, vec![TermOutput::ErrorText("stdin read error\r\n".to_string())]);
    assert_eq!(r.try_key(KeyInput::Other).unwrap().output, vec![]);
}

#[test]
fn term_io_counts_bytes() {
    let mut t = TermIO::new();
    let step = t.try_key(KeyInput::Char('é')).unwrap();
    // the cursor is one past the character, the line is two bytes long
    assert_eq!(step.output, vec![text("é"), TermOutput::CursorLeft(1), TermOutput::Flush]);
    assert_eq!(t.try_key(KeyInput::Right).unwrap().output, vec![TermOutput::CursorRight(1), TermOutput::Flush]);
    assert_eq!(t.try_key(KeyInput::Right).unwrap().output, vec![]);
    let mut expected = vec![TermOutput::CursorLeft(2)];
    expected.extend(spaces(2));
    expected.push(TermOutput::CursorLeft(2));
    assert_eq!(t.clear_command(), expected);
    t.try_key(KeyInput::Char('x')).unwrap();
    assert_eq!(t.buffer(), "éx");
    // here Backspace does not undo the insertion: the cursor is past the last character
    t.try_key(KeyInput::Backspace).unwrap();
    assert_eq!(t.buffer(), "éx");
    let step = t.try_key(KeyInput::Char('\n')).unwrap();
    assert_eq!(step.line, Some("éx".to_string()));
}

#[test]
fn term_io_edits() {
    let mut t = TermIO::new();
    for c in "abc".chars() {
        t.try_key(KeyInput::Char(c)).unwrap();
    }
    assert_eq!(t.try_key(KeyInput::Left).unwrap().output, vec![TermOutput::CursorLeft(1), TermOutput::Flush]);
    t.try_key(KeyInput::Char('X')).unwrap();
    assert_eq!(t.buffer(), "abXc");
    t.try_key(KeyInput::Backspace).unwrap();
    assert_eq!(t.buffer(), "abc");
    t.try_key(KeyInput::Delete).unwrap();
    assert_eq!(t.buffer(), "ab");
    assert_eq!(t.try_key(KeyInput::ReadError).unwrap().output, vec![]);
    assert_eq!(t.cursor_to_left(0), vec![]);
    t.start_read();
    assert_eq!(t.buffer(), "");
    assert_eq!(t.try_key(KeyInput::Ctrl('c')).unwrap().line, Some(String::new()));
}

#[test]
fn editors_agree_and_follow_the_model_on_ascii_keys() {
    let keys = [
        KeyInput::Char('l'),
        KeyInput::Char('s'),
        KeyInput::Left,
        KeyInput::Left,
        KeyInput::Char('x'),
        KeyInput::Right,
        KeyInput::Delete,
        KeyInput::Backspace,
        KeyInput::Char(' '),
        KeyInput::Ctrl('a'),
        KeyInput::Other,
        KeyInput::Right,
        KeyInput::Right,
        KeyInput::Char('\t'),
        KeyInput::ReadError,
        KeyInput::Left,
        KeyInput::Delete,
        KeyInput::Char('\n'),
    ];
    let mut r = LineReader::new();
    let mut t = TermIO::new();
    t.start_read();
    let mut line = None;
    for k in keys {
        let a = r.try_key(k).unwrap();
        let b = t.try_key(k).unwrap();
        assert_eq!(r.buffer(), t.buffer());
        assert_eq!(a.line, b.line);
        if a.line.is_some() {
            line = a.line;
            break;
        }
    }
    // "ls", cursor to the start, "x" typed, right, delete "s", backspace "l",
    // then a space; Left and Delete remove the space again.
    assert_eq!(line, Some("x".to_string()));
}

#[test]
fn reading_starts_afresh() {
    let mut t1 = TermIO::new();
    for c in "old text".chars() {
        t1.try_key(KeyInput::Char(c)).unwrap();
    }
    t1.try_key(KeyInput::Left).unwrap();
    let mut t2 = TermIO::new();
    t1.start_read();
    t2.start_read();
    for k in [KeyInput::Char('h'), KeyInput::Char('i'), KeyInput::Left, KeyInput::Char('!')] {
        let a = t1.try_key(k).unwrap();
        let b = t2.try_key(k).unwrap();
        assert_eq!(a, b);
    }
    assert_eq!(t1.buffer(), "h!i");
    assert_eq!(t1.try_key(KeyInput::Ctrl('c')).unwrap().line, Some(String::new()));
}
