//! The line editor: how each key changes the line being typed and what is
//! written to the terminal in answer. Cursor moves and redraws are measured
//! in display columns.
//!
//! The editor does no I/O: a caller reads keys, hands each to
//! [`LineReader::try_key`], and writes the [`TermOutput`]s it gets back.

use vstd::prelude::*;
use crate::text::{string_slice, slice_spec, byte_len, lemma_byte_len_concat, lemma_byte_len_bounds, lemma_byte_len_single};
use crate::width::{char_width, str_width, width_of_char, width_of_str};

verus! {

/// A key as the editor sees it.
#[derive(Debug, Clone, Copy, PartialEq, Eq)]
pub enum KeyInput {
    /// A printable key, or Enter (`'\n'`) or Tab (`'\t'`).
    Char(char),
    /// A key pressed with Ctrl.
    Ctrl(char),
    Backspace,
    Delete,
    Left,
    Right,
    /// Any other key.
    Other,
    /// Reading the key failed.
    ReadError,
}

/// What to write to the terminal.
#[derive(Debug, PartialEq)]
pub enum TermOutput {
    /// Write this text to standard output.
    Text(String),
    /// Move the cursor this many columns left.
    CursorLeft(u16),
    /// Move the cursor this many columns right.
    CursorRight(u16),
    /// Flush standard output.
    Flush,
    /// Write this text to standard error.
    ErrorText(String),
}

pub enum SpecOutput {
    Text(Seq<char>),
    CursorLeft(u16),
    CursorRight(u16),
    Flush,
    ErrorText(Seq<char>),
}

impl View for TermOutput {
    type V = SpecOutput;

    open spec fn view(&self) -> SpecOutput {
        match self {
            TermOutput::Text(s) => SpecOutput::Text(s@),
            TermOutput::CursorLeft(n) => SpecOutput::CursorLeft(*n),
            TermOutput::CursorRight(n) => SpecOutput::CursorRight(*n),
            TermOutput::Flush => SpecOutput::Flush,
            TermOutput::ErrorText(s) => SpecOutput::ErrorText(s@),
        }
    }
}

/// The answer to one key: what to write, and the finished line when the key
/// ends the line.
#[derive(Debug, PartialEq)]
pub struct KeyStep {
    pub output: Vec<TermOutput>,
    pub line: Option<String>,
}

pub open spec fn outputs_view(v: Vec<TermOutput>) -> Seq<SpecOutput> {
    v@.map_values(|o: TermOutput| o@)
}

pub open spec fn line_view(o: Option<String>) -> Option<Seq<char>> {
    match o {
        Some(s) => Some(s@),
        None => None,
    }
}

pub open spec fn newline() -> Seq<char> {
    seq!['\r', '\n']
}

/// `n` writes of a single space.
pub open spec fn spaces_spec(n: nat) -> Seq<SpecOutput> {
    Seq::new(n, |i: int| SpecOutput::Text(seq![' ']))
}

/// Moving left by `n` columns, when `n` is not zero.
pub open spec fn left_spec(n: usize) -> Seq<SpecOutput> {
    if 0 < n {
        seq![SpecOutput::CursorLeft(n as u16)]
    } else {
        Seq::empty()
    }
}

/// Erasing the line `buf` drawn with the cursor at `cur`: back to its start,
/// spaces over its width, and back to its start again.
pub open spec fn clear_spec(buf: Seq<char>, cur: int) -> Seq<SpecOutput> {
    (if 0 < cur {
        seq![SpecOutput::CursorLeft(str_width(slice_spec(buf, 0, cur)) as u16)]
    } else {
        Seq::empty()
    }) + spaces_spec(str_width(buf) as nat) + (if 0 < buf.len() {
        seq![SpecOutput::CursorLeft(str_width(buf) as u16)]
    } else {
        Seq::empty()
    })
}

/// Redrawing after an edit of `buf` (cursor at `cur`) into `nb`, where `right`
/// is the text after the new cursor.
pub open spec fn redraw_spec(buf: Seq<char>, cur: int, nb: Seq<char>, right: Seq<char>) -> Seq<SpecOutput> {
    clear_spec(buf, cur) + seq![SpecOutput::Text(nb)] + left_spec(str_width(right)) + seq![SpecOutput::Flush]
}

/// How the editor answers `key` on the line `buf` with the cursor at
/// character `cur`: the new line, the new cursor, the output, and the
/// finished line if the key ends it.
///
/// Enter ends the line with its text; Ctrl-C ends it with empty text; Tab
/// is ignored; other characters are inserted at the cursor; Backspace and
/// Delete remove the character before and at the cursor; Left and Right
/// move over one character. A read error is reported on standard error.
pub open spec fn reader_next(buf: Seq<char>, cur: int, key: KeyInput) -> (Seq<char>, int, Seq<SpecOutput>, Option<Seq<char>>) {
    let blen = byte_len(buf) as int;
    match key {
        KeyInput::Char(c) => if c == '\n' {
            (buf, cur, seq![SpecOutput::Text(newline()), SpecOutput::Flush], Some(buf))
        } else if c == '\t' {
            (buf, cur, Seq::empty(), None)
        } else {
            let right = slice_spec(buf, cur, blen);
            let nb = slice_spec(buf, 0, cur).push(c) + right;
            (nb, cur + 1, redraw_spec(buf, cur, nb, right), None)
        },
        KeyInput::Ctrl(c) => if c == 'c' {
            (buf, cur, seq![SpecOutput::Text(newline()), SpecOutput::Flush], Some(Seq::empty()))
        } else {
            (buf, cur, Seq::empty(), None)
        },
        KeyInput::Backspace => if 0 < cur {
            let right = slice_spec(buf, cur, blen);
            let nb = slice_spec(buf, 0, cur - 1) + right;
            (nb, cur - 1, redraw_spec(buf, cur, nb, right), None)
        } else {
            (buf, cur, Seq::empty(), None)
        },
        KeyInput::Delete => if cur < blen {
            let right = slice_spec(buf, cur + 1, blen);
            let nb = slice_spec(buf, 0, cur) + right;
            (nb, cur, redraw_spec(buf, cur, nb, right), None)
        } else {
            (buf, cur, Seq::empty(), None)
        },
        KeyInput::Left => if 0 < cur {
            (
                buf,
                cur - 1,
                seq![SpecOutput::CursorLeft(char_width(buf[cur - 1])->0 as u16), SpecOutput::Flush],
                None,
            )
        } else {
            (buf, cur, Seq::empty(), None)
        },
        KeyInput::Right => if cur < blen {
            (
                buf,
                cur + 1,
                seq![SpecOutput::CursorRight(char_width(buf[cur])->0 as u16), SpecOutput::Flush],
                None,
            )
        } else {
            (buf, cur, Seq::empty(), None)
        },
        KeyInput::Other => (buf, cur, Seq::empty(), None),
        KeyInput::ReadError => (
            buf,
            cur,
            seq![SpecOutput::ErrorText("stdin read error\r\n"@)],
            None,
        ),
    }
}

/// The keys on which the editor cannot go on: moving over a control
/// character, which has no width; moving right past the last character
/// while the line's byte length is still larger than the cursor; and
/// inserting into a line that cannot grow.
pub open spec fn reader_panics(buf: Seq<char>, cur: int, key: KeyInput) -> bool {
    match key {
        KeyInput::Char(c) => c != '\n' && c != '\t' && byte_len(buf) + 4 > usize::MAX,
        KeyInput::Left => 0 < cur && char_width(buf[cur - 1]) is None,
        KeyInput::Right => cur < byte_len(buf) && (cur >= buf.len() || char_width(buf[cur]) is None),
        _ => false,
    }
}

proof fn lemma_outputs_concat(a: Vec<TermOutput>, b: Vec<TermOutput>, c: Seq<TermOutput>)
    requires
        c == a@ + b@,
    ensures
        c.map_values(|o: TermOutput| o@) == outputs_view(a) + outputs_view(b),
{
    assert(c.map_values(|o: TermOutput| o@) =~= outputs_view(a) + outputs_view(b));
}

/// Appends `n` writes of a single space.
fn push_spaces(out: &mut Vec<TermOutput>, n: usize)
    ensures
        outputs_view(*final(out)) == outputs_view(*old(out)) + spaces_spec(n as nat),
{
    let mut k: usize = 0;
    while k < n
        invariant
            k <= n,
            outputs_view(*out) == outputs_view(*old(out)) + spaces_spec(k as nat),
        decreases n - k,
    {
        let ghost before = outputs_view(*out);
        let sp = " ".to_owned();
        proof {
            reveal_strlit(" ");
        }
        assert(sp@ =~= seq![' ']);
        out.push(TermOutput::Text(sp));
        assert(outputs_view(*out) =~= before.push(SpecOutput::Text(seq![' '])));
        k += 1;
        assert(outputs_view(*out) =~= outputs_view(*old(out)) + spaces_spec(k as nat));
    }
}

/// Appends the outputs in `more`.
fn push_all(out: &mut Vec<TermOutput>, more: Vec<TermOutput>)
    ensures
        outputs_view(*final(out)) == outputs_view(*old(out)) + outputs_view(more),
{
    let mut more = more;
    let ghost a = *out;
    let ghost b = more;
    out.append(&mut more);
    proof {
        lemma_outputs_concat(a, b, out@);
    }
}

/// Moving the cursor `n` columns left: nothing when `n` is zero.
pub fn cursor_to_left(n: usize) -> (r: Vec<TermOutput>)
    ensures
        outputs_view(r) == left_spec(n),
{
    let mut r: Vec<TermOutput> = Vec::new();
    if 0 < n {
        r.push(TermOutput::CursorLeft(n as u16));
    }
    assert(outputs_view(r) =~= left_spec(n));
    r
}

/// Erasing the line `buffer` drawn with the cursor at character `cursor_pos`.
pub fn clear_command(buffer: &str, cursor_pos: usize) -> (r: Vec<TermOutput>)
    ensures
        outputs_view(r) == clear_spec(buffer@, cursor_pos as int),
{
    let mut r: Vec<TermOutput> = Vec::new();
    if 0 < cursor_pos {
        let cursor_left = string_slice(buffer, 0, cursor_pos);
        r.push(TermOutput::CursorLeft(width_of_str(cursor_left.as_str()) as u16));
    }
    let ghost first = outputs_view(r);
    assert(first =~= (if 0 < cursor_pos {
        seq![SpecOutput::CursorLeft(str_width(slice_spec(buffer@, 0, cursor_pos as int)) as u16)]
    } else {
        Seq::<SpecOutput>::empty()
    }));
    let w = width_of_str(buffer);
    push_spaces(&mut r, w);
    let ghost second = outputs_view(r);
    if !buffer.is_empty() {
        r.push(TermOutput::CursorLeft(w as u16));
    }
    assert(outputs_view(r) =~= clear_spec(buffer@, cursor_pos as int));
    r
}

/// Ending the line with `line`: a new line is written.
fn finish_line(line: String) -> (step: KeyStep)
    ensures
        outputs_view(step.output) == seq![SpecOutput::Text(newline()), SpecOutput::Flush],
        line_view(step.line) == Some(line@),
{
    let mut out: Vec<TermOutput> = Vec::new();
    let nl = "\r\n".to_owned();
    proof {
        reveal_strlit("\r\n");
    }
    assert(nl@ =~= newline());
    out.push(TermOutput::Text(nl));
    out.push(TermOutput::Flush);
    assert(outputs_view(out) =~= seq![SpecOutput::Text(newline()), SpecOutput::Flush]);
    KeyStep { output: out, line: Some(line) }
}

fn no_output() -> (step: KeyStep)
    ensures
        outputs_view(step.output) == Seq::<SpecOutput>::empty(),
        step.line is None,
{
    let out: Vec<TermOutput> = Vec::new();
    assert(outputs_view(out) =~= Seq::<SpecOutput>::empty());
    KeyStep { output: out, line: None }
}

fn read_error() -> (step: KeyStep)
    ensures
        outputs_view(step.output) == seq![SpecOutput::ErrorText("stdin read error\r\n"@)],
        step.line is None,
{
    let mut out: Vec<TermOutput> = Vec::new();
    out.push(TermOutput::ErrorText("stdin read error\r\n".to_owned()));
    assert(outputs_view(out) =~= seq![SpecOutput::ErrorText("stdin read error\r\n"@)]);
    KeyStep { output: out, line: None }
}

/// The line being typed and the cursor, counted in characters.
pub struct LineReader {
    buffer: String,
    cursor_pos: usize,
}

/// The line `buf` is `slice_spec(buf, 0, k)` followed by the rest.
proof fn lemma_split_at(buf: Seq<char>, k: int)
    requires
        0 <= k <= buf.len(),
    ensures
        slice_spec(buf, 0, k) == buf.subrange(0, k),
        slice_spec(buf, k, byte_len(buf) as int) == buf.subrange(k, buf.len() as int),
        buf.subrange(0, k) + buf.subrange(k, buf.len() as int) == buf,
        byte_len(buf) == byte_len(buf.subrange(0, k)) + byte_len(buf.subrange(k, buf.len() as int)),
{
    lemma_byte_len_bounds(buf);
    assert(buf.subrange(0, k) + buf.subrange(k, buf.len() as int) =~= buf);
    lemma_byte_len_concat(buf.subrange(0, k), buf.subrange(k, buf.len() as int));
}

impl LineReader {
    /// The text typed so far.
    pub closed spec fn text(&self) -> Seq<char> {
        self.buffer@
    }

    /// The cursor, as the index of the character it stands before.
    pub closed spec fn cursor(&self) -> int {
        self.cursor_pos as int
    }

    /// The cursor lies within the text, and the text's length fits a `usize`.
    pub closed spec fn wf(&self) -> bool {
        &&& self.cursor_pos <= self.buffer@.len()
        &&& byte_len(self.buffer@) <= usize::MAX
    }

    pub open spec fn panics_on(&self, key: KeyInput) -> bool {
        reader_panics(self.text(), self.cursor(), key)
    }

    /// An empty line with the cursor at its start.
    pub fn new() -> (r: Self)
        ensures
            r.wf(),
            r.text() == Seq::<char>::empty(),
            r.cursor() == 0,
    {
        let r = LineReader { buffer: String::new(), cursor_pos: 0 };
        assert(byte_len(r.buffer@) == 0) by {
            lemma_byte_len_bounds(r.buffer@);
        }
        r
    }

    /// The text typed so far.
    pub fn buffer(&self) -> (r: String)
        ensures
            r@ == self.text(),
    {
        self.buffer.clone()
    }

    /// Whether the editor can answer `key` (see [`reader_panics`]).
    pub fn can_take(&self, key: KeyInput) -> (r: bool)
        requires
            self.wf(),
        ensures
            r == !self.panics_on(key),
    {
        let blen = self.buffer.as_str().len();
        proof {
            lemma_byte_len_bounds(self.buffer@);
        }
        match key {
            KeyInput::Char(c) => c == '\n' || c == '\t' || blen <= usize::MAX - 4,
            KeyInput::Left => {
                if 0 < self.cursor_pos {
                    let c = self.buffer.as_str().get_char(self.cursor_pos - 1);
                    width_of_char(c).is_some()
                } else {
                    true
                }
            },
            KeyInput::Right => {
                if self.cursor_pos < blen {
                    let n = self.buffer.as_str().unicode_len();
                    if self.cursor_pos >= n {
                        false
                    } else {
                        let c = self.buffer.as_str().get_char(self.cursor_pos);
                        width_of_char(c).is_some()
                    }
                } else {
                    true
                }
            },
            _ => true,
        }
    }

    /// Answers `key` when the editor can (see [`reader_panics`]); otherwise
    /// returns `None` and leaves the line as it is.
    pub fn try_key(&mut self, key: KeyInput) -> (r: Option<KeyStep>)
        requires
            old(self).wf(),
        ensures
            final(self).wf(),
            r is None <==> old(self).panics_on(key),
            r is None ==> final(self).text() == old(self).text() && final(self).cursor() == old(self).cursor(),
            r matches Some(step) ==> {
                let next = reader_next(old(self).text(), old(self).cursor(), key);
                &&& final(self).text() == next.0
                &&& final(self).cursor() == next.1
                &&& outputs_view(step.output) == next.2
                &&& line_view(step.line) == next.3
            },
    {
        if self.can_take(key) {
            Some(self.key(key))
        } else {
            None
        }
    }

    /// Answers `key`: changes the line and cursor and returns what to write.
    pub fn key(&mut self, key: KeyInput) -> (step: KeyStep)
        requires
            old(self).wf(),
            !old(self).panics_on(key),
        ensures
            final(self).wf(),
            ({
                let next = reader_next(old(self).text(), old(self).cursor(), key);
                &&& final(self).text() == next.0
                &&& final(self).cursor() == next.1
                &&& outputs_view(step.output) == next.2
                &&& line_view(step.line) == next.3
            }),
    {
        match key {
            KeyInput::Char(c) => {
                if c == '\n' {
                    finish_line(self.buffer.clone())
                } else if c == '\t' {
                    no_output()
                } else {
                    self.insert(c)
                }
            },
            KeyInput::Ctrl(c) => {
                if c == 'c' {
                    finish_line(String::new())
                } else {
                    no_output()
                }
            },
            KeyInput::Backspace => self.backspace(),
            KeyInput::Delete => self.delete(),
            KeyInput::Left => self.move_left(),
            KeyInput::Right => self.move_right(),
            KeyInput::Other => no_output(),
            KeyInput::ReadError => read_error(),
        }
    }

    fn insert(&mut self, c: char) -> (step: KeyStep)
        requires
            old(self).wf(),
            c != '\n' && c != '\t',
            !old(self).panics_on(KeyInput::Char(c)),
        ensures
            final(self).wf(),
            ({
                let next = reader_next(old(self).text(), old(self).cursor(), KeyInput::Char(c));
                &&& final(self).text() == next.0
                &&& final(self).cursor() == next.1
                &&& outputs_view(step.output) == next.2
                &&& line_view(step.line) == next.3
            }),
    {
        let ghost buf = self.buffer@;
        let ghost cur = self.cursor_pos as int;
        let blen = self.buffer.as_str().len();
        proof {
            lemma_split_at(buf, cur);
        }
        let mut out = clear_command(self.buffer.as_str(), self.cursor_pos);
        let left = string_slice(self.buffer.as_str(), 0, self.cursor_pos);
        let right = string_slice(self.buffer.as_str(), self.cursor_pos, blen);
        let mut nb = left;
        nb.push(c);
        nb.append(right.as_str());
        let ghost next = reader_next(buf, cur, KeyInput::Char(c));
        proof {
            let l = buf.subrange(0, cur);
            let rr = buf.subrange(cur, buf.len() as int);
            assert(l.push(c) =~= l + seq![c]);
            lemma_byte_len_concat(l, seq![c]);
            lemma_byte_len_concat(l.push(c), rr);
            lemma_byte_len_single(c);
            lemma_byte_len_bounds(buf);
            assert(nb@ =~= next.0);
        }
        let ghost v0 = outputs_view(out);
        self.buffer = nb;
        out.push(TermOutput::Text(self.buffer.clone()));
        let ghost v1 = outputs_view(out);
        assert(v1 =~= v0.push(SpecOutput::Text(next.0)));
        self.cursor_pos = self.cursor_pos + 1;
        push_all(&mut out, cursor_to_left(width_of_str(right.as_str())));
        let ghost v2 = outputs_view(out);
        out.push(TermOutput::Flush);
        assert(outputs_view(out) =~= v2.push(SpecOutput::Flush));
        assert(v2 =~= v1 + left_spec(str_width(right@)));
        assert(outputs_view(out) =~= next.2);
        KeyStep { output: out, line: None }
    }

    fn backspace(&mut self) -> (step: KeyStep)
        requires
            old(self).wf(),
        ensures
            final(self).wf(),
            ({
                let next = reader_next(old(self).text(), old(self).cursor(), KeyInput::Backspace);
                &&& final(self).text() == next.0
                &&& final(self).cursor() == next.1
                &&& outputs_view(step.output) == next.2
                &&& line_view(step.line) == next.3
            }),
    {
        if self.cursor_pos == 0 {
            return no_output();
        }
        let ghost buf = self.buffer@;
        let ghost cur = self.cursor_pos as int;
        let blen = self.buffer.as_str().len();
        proof {
            lemma_split_at(buf, cur);
        }
        let mut out = clear_command(self.buffer.as_str(), self.cursor_pos);
        let left = string_slice(self.buffer.as_str(), 0, self.cursor_pos - 1);
        let right = string_slice(self.buffer.as_str(), self.cursor_pos, blen);
        let mut nb = left;
        nb.append(right.as_str());
        let ghost next = reader_next(buf, cur, KeyInput::Backspace);
        proof {
            let l = buf.subrange(0, cur - 1);
            let rr = buf.subrange(cur, buf.len() as int);
            assert(buf.subrange(0, cur) =~= l + seq![buf[cur - 1]]);
            lemma_byte_len_concat(l, seq![buf[cur - 1]]);
            lemma_byte_len_concat(l, rr);
            lemma_byte_len_bounds(l + rr);
            assert(nb@ =~= next.0);
        }
        let ghost v0 = outputs_view(out);
        self.buffer = nb;
        out.push(TermOutput::Text(self.buffer.clone()));
        let ghost v1 = outputs_view(out);
        assert(v1 =~= v0.push(SpecOutput::Text(next.0)));
        self.cursor_pos = self.cursor_pos - 1;
        push_all(&mut out, cursor_to_left(width_of_str(right.as_str())));
        let ghost v2 = outputs_view(out);
        out.push(TermOutput::Flush);
        assert(outputs_view(out) =~= v2.push(SpecOutput::Flush));
        assert(v2 =~= v1 + left_spec(str_width(right@)));
        assert(outputs_view(out) =~= next.2);
        KeyStep { output: out, line: None }
    }

    fn delete(&mut self) -> (step: KeyStep)
        requires
            old(self).wf(),
        ensures
            final(self).wf(),
            ({
                let next = reader_next(old(self).text(), old(self).cursor(), KeyInput::Delete);
                &&& final(self).text() == next.0
                &&& final(self).cursor() == next.1
                &&& outputs_view(step.output) == next.2
                &&& line_view(step.line) == next.3
            }),
    {
        let blen = self.buffer.as_str().len();
        if self.cursor_pos >= blen {
            return no_output();
        }
        let ghost buf = self.buffer@;
        let ghost cur = self.cursor_pos as int;
        proof {
            lemma_split_at(buf, cur);
        }
        let mut out = clear_command(self.buffer.as_str(), self.cursor_pos);
        let left = string_slice(self.buffer.as_str(), 0, self.cursor_pos);
        let right = string_slice(self.buffer.as_str(), self.cursor_pos + 1, blen);
        let mut nb = left;
        nb.append(right.as_str());
        let ghost next = reader_next(buf, cur, KeyInput::Delete);
        proof {
            let l = buf.subrange(0, cur);
            if cur < buf.len() {
                let rr = buf.subrange(cur + 1, buf.len() as int);
                assert(buf.subrange(cur, buf.len() as int) =~= seq![buf[cur]] + rr);
                lemma_byte_len_concat(seq![buf[cur]], rr);
                lemma_byte_len_concat(l, rr);
                assert(right@ =~= rr);
            } else {
                assert(right@ =~= Seq::<char>::empty());
                assert(l + right@ =~= buf);
            }
            lemma_byte_len_bounds(l + right@);
            assert(nb@ =~= next.0);
        }
        let ghost v0 = outputs_view(out);
        self.buffer = nb;
        out.push(TermOutput::Text(self.buffer.clone()));
        let ghost v1 = outputs_view(out);
        assert(v1 =~= v0.push(SpecOutput::Text(next.0)));
        push_all(&mut out, cursor_to_left(width_of_str(right.as_str())));
        let ghost v2 = outputs_view(out);
        out.push(TermOutput::Flush);
        assert(outputs_view(out) =~= v2.push(SpecOutput::Flush));
        assert(v2 =~= v1 + left_spec(str_width(right@)));
        assert(outputs_view(out) =~= next.2);
        KeyStep { output: out, line: None }
    }

    fn move_left(&mut self) -> (step: KeyStep)
        requires
            old(self).wf(),
            !old(self).panics_on(KeyInput::Left),
        ensures
            final(self).wf(),
            ({
                let next = reader_next(old(self).text(), old(self).cursor(), KeyInput::Left);
                &&& final(self).text() == next.0
                &&& final(self).cursor() == next.1
                &&& outputs_view(step.output) == next.2
                &&& line_view(step.line) == next.3
            }),
    {
        let ghost buf = self.buffer@;
        let ghost cur = self.cursor_pos as int;
        let mut out: Vec<TermOutput> = Vec::new();
        if 0 < self.cursor_pos {
            self.cursor_pos = self.cursor_pos - 1;
            let c = self.buffer.as_str().get_char(self.cursor_pos);
            let w = match width_of_char(c) {
                Some(w) => w,
                None => 0,
            };
            out.push(TermOutput::CursorLeft(w as u16));
            out.push(TermOutput::Flush);
        }
        let ghost next = reader_next(buf, cur, KeyInput::Left);
        assert(outputs_view(out) =~= next.2);
        KeyStep { output: out, line: None }
    }

    fn move_right(&mut self) -> (step: KeyStep)
        requires
            old(self).wf(),
            !old(self).panics_on(KeyInput::Right),
        ensures
            final(self).wf(),
            ({
                let next = reader_next(old(self).text(), old(self).cursor(), KeyInput::Right);
                &&& final(self).text() == next.0
                &&& final(self).cursor() == next.1
                &&& outputs_view(step.output) == next.2
                &&& line_view(step.line) == next.3
            }),
    {
        let ghost buf = self.buffer@;
        let ghost cur = self.cursor_pos as int;
        let blen = self.buffer.as_str().len();
        let mut out: Vec<TermOutput> = Vec::new();
        if self.cursor_pos < blen {
            let c = self.buffer.as_str().get_char(self.cursor_pos);
            let w = match width_of_char(c) {
                Some(w) => w,
                None => 0,
            };
            self.cursor_pos = self.cursor_pos + 1;
            out.push(TermOutput::CursorRight(w as u16));
            out.push(TermOutput::Flush);
        }
        let ghost next = reader_next(buf, cur, KeyInput::Right);
        assert(outputs_view(out) =~= next.2);
        KeyStep { output: out, line: None }
    }
}

/// The line and cursor after typing the characters `cs`, one key each.
pub open spec fn type_chars(buf: Seq<char>, cur: int, cs: Seq<char>) -> (Seq<char>, int)
    decreases cs.len(),
{
    if cs.len() == 0 {
        (buf, cur)
    } else {
        let next = reader_next(buf, cur, KeyInput::Char(cs[0]));
        type_chars(next.0, next.1, cs.drop_first())
    }
}

/// Law: with the cursor at the end of the line, typing characters other
/// than Enter and Tab appends exactly them and leaves the cursor at the end.
pub proof fn law_typing_appends(buf: Seq<char>, cs: Seq<char>)
    requires
        forall|k: int| 0 <= k < cs.len() ==> #[trigger] cs[k] != '\n' && cs[k] != '\t',
    ensures
        type_chars(buf, buf.len() as int, cs) == (buf + cs, (buf.len() + cs.len()) as int),
    decreases cs.len(),
{
    if cs.len() > 0 {
        let c = cs[0];
        lemma_split_at(buf, buf.len() as int);
        assert(buf.subrange(0, buf.len() as int) =~= buf);
        assert(buf.subrange(buf.len() as int, buf.len() as int) =~= Seq::<char>::empty());
        let next = reader_next(buf, buf.len() as int, KeyInput::Char(c));
        assert(next.0 =~= buf.push(c));
        assert forall|k: int| 0 <= k < cs.drop_first().len() implies #[trigger] cs.drop_first()[k] != '\n'
            && cs.drop_first()[k] != '\t' by {
            assert(cs.drop_first()[k] == cs[k + 1]);
        }
        law_typing_appends(buf.push(c), cs.drop_first());
        assert(buf.push(c) + cs.drop_first() =~= buf + cs);
    } else {
        assert(buf + cs =~= buf);
    }
}

/// Law: inserting a character other than Enter and Tab and then pressing
/// Backspace gives back the line and the cursor.
pub proof fn law_insert_backspace(buf: Seq<char>, cur: int, c: char)
    requires
        0 <= cur <= buf.len(),
        c != '\n' && c != '\t',
    ensures
        ({
            let a = reader_next(buf, cur, KeyInput::Char(c));
            let b = reader_next(a.0, a.1, KeyInput::Backspace);
            b.0 == buf && b.1 == cur
        }),
{
    lemma_split_at(buf, cur);
    let a = reader_next(buf, cur, KeyInput::Char(c));
    let nb = buf.subrange(0, cur).push(c) + buf.subrange(cur, buf.len() as int);
    assert(a.0 == nb);
    lemma_byte_len_bounds(nb);
    assert(slice_spec(nb, 0, cur) =~= buf.subrange(0, cur));
    assert(slice_spec(nb, cur + 1, byte_len(nb) as int) =~= buf.subrange(cur, buf.len() as int));
}

/// Law: moving left and then right gives back the cursor and the line, when
/// the character passed over has a width.
pub proof fn law_left_right(buf: Seq<char>, cur: int)
    requires
        0 < cur <= buf.len(),
        char_width(buf[cur - 1]) is Some,
    ensures
        !reader_panics(buf, cur, KeyInput::Left),
        !reader_panics(buf, cur - 1, KeyInput::Right),
        ({
            let a = reader_next(buf, cur, KeyInput::Left);
            let b = reader_next(a.0, a.1, KeyInput::Right);
            a.1 == cur - 1 && b.0 == buf && b.1 == cur
        }),
{
    lemma_byte_len_bounds(buf);
}

/// Law: Enter ends the line with exactly the text typed, and Ctrl-C ends
/// it with no text; neither changes the line or the cursor.
pub proof fn law_line_endings(buf: Seq<char>, cur: int)
    ensures
        reader_next(buf, cur, KeyInput::Char('\n')).3 == Some(buf),
        reader_next(buf, cur, KeyInput::Ctrl('c')).3 == Some(Seq::<char>::empty()),
        reader_next(buf, cur, KeyInput::Char('\n')).0 == buf,
        reader_next(buf, cur, KeyInput::Ctrl('c')).1 == cur,
{
}

/// Law: the keys the editor refuses are only these: a character other than
/// Enter and Tab when the line cannot grow, Left with a character before
/// the cursor, and Right with the cursor short of the line's byte length.
/// Every other key, Backspace and Delete anywhere included, is answered.
pub proof fn law_refused_keys(buf: Seq<char>, cur: int, key: KeyInput)
    ensures
        reader_panics(buf, cur, key) ==> ((key matches KeyInput::Char(c) && c != '\n' && c != '\t'
            && byte_len(buf) + 4 > usize::MAX) || (key == KeyInput::Left && 0 < cur) || (key
            == KeyInput::Right && cur < byte_len(buf))),
{
}

/// Law: Backspace with the cursor at the start of the line is answered and
/// changes nothing: the same line and cursor, no output, no line ended.
pub proof fn law_backspace_at_start(buf: Seq<char>)
    ensures
        !reader_panics(buf, 0, KeyInput::Backspace),
        reader_next(buf, 0, KeyInput::Backspace) == (buf, 0int, Seq::<SpecOutput>::empty(), None::<Seq<char>>),
{
}

} // verus!
