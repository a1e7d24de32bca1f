//! A simpler line editor that measures the line in bytes and moves the
//! cursor one column per key.

use vstd::prelude::*;
use crate::text::{string_slice, slice_spec, byte_len, lemma_byte_len_concat, lemma_byte_len_bounds, lemma_byte_len_single};
use crate::termio::{KeyInput, KeyStep, TermOutput, SpecOutput, outputs_view, line_view, newline, spaces_spec};

verus! {

/// Moving left by `n` columns, when `n` is not zero.
pub open spec fn left16_spec(n: u16) -> Seq<SpecOutput> {
    if 0 < n {
        seq![SpecOutput::CursorLeft(n)]
    } else {
        Seq::empty()
    }
}

/// Erasing the line `buf` drawn with the cursor at `cur`: back by `cur`
/// columns, one space per byte of the line, and back by its byte length.
pub open spec fn term_clear_spec(buf: Seq<char>, cur: int) -> Seq<SpecOutput> {
    (if 0 < cur {
        seq![SpecOutput::CursorLeft(cur as u16)]
    } else {
        Seq::empty()
    }) + spaces_spec(byte_len(buf)) + (if 0 < byte_len(buf) {
        seq![SpecOutput::CursorLeft(byte_len(buf) as u16)]
    } else {
        Seq::empty()
    })
}

/// Redrawing after an edit of `buf` (cursor at `cur`) into `nb` with the
/// cursor now at `ncur`: the cursor moves back by the bytes after it.
pub open spec fn term_redraw_spec(buf: Seq<char>, cur: int, nb: Seq<char>, ncur: int) -> Seq<SpecOutput> {
    term_clear_spec(buf, cur) + seq![SpecOutput::Text(nb)] + left16_spec((byte_len(nb) - ncur) as u16)
        + seq![SpecOutput::Flush]
}

/// How [`TermIO`] answers `key` on the line `buf` with the cursor at `cur`:
/// the new line, the new cursor, the output, and the finished line if the
/// key ends it. The cursor moves by one per Left or Right key and may go as
/// far as the line's byte length.
pub open spec fn term_next(buf: Seq<char>, cur: int, key: KeyInput) -> (Seq<char>, int, Seq<SpecOutput>, Option<Seq<char>>) {
    let blen = byte_len(buf) as int;
    match key {
        KeyInput::Char(c) => if c == '\n' {
            (buf, cur, seq![SpecOutput::Text(newline()), SpecOutput::Flush], Some(buf))
        } else if c == '\t' {
            (buf, cur, Seq::empty(), None)
        } else {
            let nb = slice_spec(buf, 0, cur).push(c) + slice_spec(buf, cur, blen);
            (nb, cur + 1, term_redraw_spec(buf, cur, nb, cur + 1), None)
        },
        KeyInput::Ctrl(c) => if c == 'c' {
            (buf, cur, seq![SpecOutput::Text(newline()), SpecOutput::Flush], Some(Seq::empty()))
        } else {
            (buf, cur, Seq::empty(), None)
        },
        KeyInput::Backspace => if 0 < cur {
            let nb = slice_spec(buf, 0, cur - 1) + slice_spec(buf, cur, blen);
            (nb, cur - 1, term_redraw_spec(buf, cur, nb, cur - 1), None)
        } else {
            (buf, cur, Seq::empty(), None)
        },
        KeyInput::Delete => if cur < blen {
            let nb = slice_spec(buf, 0, cur) + slice_spec(buf, cur + 1, blen);
            (nb, cur, term_redraw_spec(buf, cur, nb, cur), None)
        } else {
            (buf, cur, Seq::empty(), None)
        },
        KeyInput::Left => if 0 < cur {
            (buf, cur - 1, seq![SpecOutput::CursorLeft(1), SpecOutput::Flush], None)
        } else {
            (buf, cur, Seq::empty(), None)
        },
        KeyInput::Right => if cur < blen {
            (buf, cur + 1, seq![SpecOutput::CursorRight(1), SpecOutput::Flush], None)
        } else {
            (buf, cur, Seq::empty(), None)
        },
        _ => (buf, cur, Seq::empty(), None),
    }
}

/// The only key [`TermIO`] cannot answer: inserting into a line that
/// cannot grow.
pub open spec fn term_panics(buf: Seq<char>, key: KeyInput) -> bool {
    match key {
        KeyInput::Char(c) => c != '\n' && c != '\t' && byte_len(buf) + 4 > usize::MAX,
        _ => false,
    }
}

/// The line being typed, with a cursor counted against its bytes.
pub struct TermIO {
    buffer: String,
    cursor_pos: usize,
}

fn one_step(a: TermOutput, b: TermOutput) -> (r: Vec<TermOutput>)
    ensures
        outputs_view(r) == seq![a@, b@],
{
    let mut r: Vec<TermOutput> = Vec::new();
    r.push(a);
    r.push(b);
    assert(outputs_view(r) =~= seq![a@, b@]);
    r
}

impl TermIO {
    pub closed spec fn text(&self) -> Seq<char> {
        self.buffer@
    }

    pub closed spec fn cursor(&self) -> int {
        self.cursor_pos as int
    }

    /// The cursor is at most the line's byte length, which fits a `usize`.
    pub closed spec fn wf(&self) -> bool {
        &&& self.cursor_pos <= byte_len(self.buffer@)
        &&& byte_len(self.buffer@) <= usize::MAX
    }

    /// An empty line with the cursor at its start.
    pub fn new() -> (r: Self)
        ensures
            r.wf(),
            r.text() == Seq::<char>::empty(),
            r.cursor() == 0,
    {
        let r = TermIO { buffer: String::new(), cursor_pos: 0 };
        proof {
            lemma_byte_len_bounds(r.buffer@);
        }
        r
    }

    /// Starts reading a line: the line is emptied and the cursor put at its start.
    pub fn start_read(&mut self)
        ensures
            final(self).wf(),
            final(self).text() == Seq::<char>::empty(),
            final(self).cursor() == 0,
    {
        self.buffer = String::new();
        self.cursor_pos = 0;
        proof {
            lemma_byte_len_bounds(self.buffer@);
        }
    }

    /// The text typed so far.
    pub fn buffer(&self) -> (r: String)
        ensures
            r@ == self.text(),
    {
        self.buffer.clone()
    }

    /// Erasing the line as drawn, with the cursor where it is.
    pub fn clear_command(&self) -> (r: Vec<TermOutput>)
        requires
            self.wf(),
        ensures
            outputs_view(r) == term_clear_spec(self.text(), self.cursor()),
    {
        let mut r: Vec<TermOutput> = Vec::new();
        if 0 < self.cursor_pos {
            r.push(TermOutput::CursorLeft(self.cursor_pos as u16));
        }
        let n = self.buffer.as_str().len();
        let mut k: usize = 0;
        let ghost first = outputs_view(r);
        assert(first =~= (if 0 < self.cursor() {
            seq![SpecOutput::CursorLeft(self.cursor() as u16)]
        } else {
            Seq::<SpecOutput>::empty()
        }));
        while k < n
            invariant
                k <= n,
                n == byte_len(self.buffer@),
                outputs_view(r) == first + spaces_spec(k as nat),
            decreases n - k,
        {
            let ghost before = outputs_view(r);
            let sp = " ".to_owned();
            proof {
                reveal_strlit(" ");
            }
            assert(sp@ =~= seq![' ']);
            r.push(TermOutput::Text(sp));
            assert(outputs_view(r) =~= before.push(SpecOutput::Text(seq![' '])));
            k += 1;
            assert(outputs_view(r) =~= first + spaces_spec(k as nat));
        }
        let ghost second = outputs_view(r);
        if 0 < n {
            r.push(TermOutput::CursorLeft(n as u16));
        }
        assert(outputs_view(r) =~= second + (if 0 < byte_len(self.text()) {
            seq![SpecOutput::CursorLeft(byte_len(self.text()) as u16)]
        } else {
            Seq::<SpecOutput>::empty()
        }));
        assert(outputs_view(r) =~= term_clear_spec(self.text(), self.cursor()));
        r
    }

    /// Moving the cursor `n` columns left: nothing when `n` is zero.
    pub fn cursor_to_left(&self, n: u16) -> (r: Vec<TermOutput>)
        ensures
            outputs_view(r) == left16_spec(n),
    {
        let mut r: Vec<TermOutput> = Vec::new();
        if 0 < n {
            r.push(TermOutput::CursorLeft(n));
        }
        assert(outputs_view(r) =~= left16_spec(n));
        r
    }

    /// Whether the line can take `key` (see [`term_panics`]).
    pub fn can_take(&self, key: KeyInput) -> (r: bool)
        requires
            self.wf(),
        ensures
            r == !term_panics(self.text(), key),
    {
        match key {
            KeyInput::Char(c) => c == '\n' || c == '\t' || self.buffer.as_str().len() <= usize::MAX - 4,
            _ => true,
        }
    }

    /// Answers `key` when the line can take it; otherwise returns `None` and
    /// leaves the line as it is.
    pub fn try_key(&mut self, key: KeyInput) -> (r: Option<KeyStep>)
        requires
            old(self).wf(),
        ensures
            final(self).wf(),
            r is None <==> term_panics(old(self).text(), key),
            r is None ==> final(self).text() == old(self).text() && final(self).cursor() == old(self).cursor(),
            r matches Some(step) ==> {
                let next = term_next(old(self).text(), old(self).cursor(), key);
                &&& final(self).text() == next.0
                &&& final(self).cursor() == next.1
                &&& outputs_view(step.output) == next.2
                &&& line_view(step.line) == next.3
            },
    {
        if self.can_take(key) {
            Some(self.key(key))
        } else {
            None
        }
    }

    /// Answers `key`: changes the line and cursor and returns what to write.
    pub fn key(&mut self, key: KeyInput) -> (step: KeyStep)
        requires
            old(self).wf(),
            !term_panics(old(self).text(), key),
        ensures
            final(self).wf(),
            ({
                let next = term_next(old(self).text(), old(self).cursor(), key);
                &&& final(self).text() == next.0
                &&& final(self).cursor() == next.1
                &&& outputs_view(step.output) == next.2
                &&& line_view(step.line) == next.3
            }),
    {
        let ghost buf = self.buffer@;
        let ghost cur = self.cursor_pos as int;
        match key {
            KeyInput::Char(c) => {
                if c == '\n' || c == '\t' {
                    let mut out: Vec<TermOutput> = Vec::new();
                    let mut line: Option<String> = None;
                    if c == '\n' {
                        let nl = "\r\n".to_owned();
                        proof {
                            reveal_strlit("\r\n");
                        }
                        assert(nl@ =~= newline());
                        out = one_step(TermOutput::Text(nl), TermOutput::Flush);
                        line = Some(self.buffer.clone());
                    }
                    assert(c == '\t' ==> outputs_view(out) =~= Seq::<SpecOutput>::empty());
                    KeyStep { output: out, line }
                } else {
                    self.insert(c)
                }
            },
            KeyInput::Ctrl(c) => {
                let mut out: Vec<TermOutput> = Vec::new();
                let mut line: Option<String> = None;
                if c == 'c' {
                    let nl = "\r\n".to_owned();
                    proof {
                        reveal_strlit("\r\n");
                    }
                    assert(nl@ =~= newline());
                    out = one_step(TermOutput::Text(nl), TermOutput::Flush);
                    line = Some(String::new());
                }
                assert(c != 'c' ==> outputs_view(out) =~= Seq::<SpecOutput>::empty());
                KeyStep { output: out, line }
            },
            KeyInput::Backspace => self.backspace(),
            KeyInput::Delete => self.delete(),
            KeyInput::Left => {
                let mut out: Vec<TermOutput> = Vec::new();
                if 0 < self.cursor_pos {
                    self.cursor_pos = self.cursor_pos - 1;
                    out = one_step(TermOutput::CursorLeft(1), TermOutput::Flush);
                }
                assert(cur == 0 ==> outputs_view(out) =~= Seq::<SpecOutput>::empty());
                KeyStep { output: out, line: None }
            },
            KeyInput::Right => {
                let mut out: Vec<TermOutput> = Vec::new();
                if self.cursor_pos < self.buffer.as_str().len() {
                    self.cursor_pos = self.cursor_pos + 1;
                    out = one_step(TermOutput::CursorRight(1), TermOutput::Flush);
                }
                assert(cur >= byte_len(buf) ==> outputs_view(out) =~= Seq::<SpecOutput>::empty());
                KeyStep { output: out, line: None }
            },
            _ => {
                let out: Vec<TermOutput> = Vec::new();
                assert(outputs_view(out) =~= Seq::<SpecOutput>::empty());
                KeyStep { output: out, line: None }
            },
        }
    }

    /// Appends the redraw that follows an edit, given the output so far.
    fn finish_edit(&self, out: Vec<TermOutput>) -> (r: Vec<TermOutput>)
        requires
            self.wf(),
        ensures
            outputs_view(r) == outputs_view(out) + seq![SpecOutput::Text(self.text())]
                + left16_spec((byte_len(self.text()) - self.cursor()) as u16) + seq![SpecOutput::Flush],
    {
        let mut out = out;
        let ghost v0 = outputs_view(out);
        out.push(TermOutput::Text(self.buffer.clone()));
        let move_left = (self.buffer.as_str().len() - self.cursor_pos) as u16;
        let more = self.cursor_to_left(move_left);
        let ghost v1 = outputs_view(out);
        let mut more = more;
        let ghost m = more;
        out.append(&mut more);
        let ghost v2 = outputs_view(out);
        assert(v2 =~= v1 + outputs_view(m));
        out.push(TermOutput::Flush);
        assert(outputs_view(out) =~= v2.push(SpecOutput::Flush));
        assert(outputs_view(out) =~= v0 + seq![SpecOutput::Text(self.text())]
            + left16_spec((byte_len(self.text()) - self.cursor()) as u16) + seq![SpecOutput::Flush]);
        out
    }

    fn insert(&mut self, c: char) -> (step: KeyStep)
        requires
            old(self).wf(),
            c != '\n' && c != '\t',
            !term_panics(old(self).text(), KeyInput::Char(c)),
        ensures
            final(self).wf(),
            ({
                let next = term_next(old(self).text(), old(self).cursor(), KeyInput::Char(c));
                &&& final(self).text() == next.0
                &&& final(self).cursor() == next.1
                &&& outputs_view(step.output) == next.2
                &&& line_view(step.line) == next.3
            }),
    {
        let ghost buf = self.buffer@;
        let ghost cur = self.cursor_pos as int;
        let blen = self.buffer.as_str().len();
        let out = self.clear_command();
        let left = string_slice(self.buffer.as_str(), 0, self.cursor_pos);
        let right = string_slice(self.buffer.as_str(), self.cursor_pos, blen);
        let mut nb = left;
        nb.push(c);
        nb.append(right.as_str());
        let ghost next = term_next(buf, cur, KeyInput::Char(c));
        proof {
            lemma_byte_len_bounds(buf);
            assert(left@ + right@ =~= buf);
            assert(left@.push(c) =~= left@ + seq![c]);
            lemma_byte_len_concat(left@, seq![c]);
            lemma_byte_len_concat(left@.push(c), right@);
            lemma_byte_len_concat(left@, right@);
            lemma_byte_len_single(c);
            assert(nb@ =~= next.0);
        }
        self.buffer = nb;
        self.cursor_pos = self.cursor_pos + 1;
        let out = self.finish_edit(out);
        assert(outputs_view(out) =~= next.2);
        KeyStep { output: out, line: None }
    }

    fn backspace(&mut self) -> (step: KeyStep)
        requires
            old(self).wf(),
        ensures
            final(self).wf(),
            ({
                let next = term_next(old(self).text(), old(self).cursor(), KeyInput::Backspace);
                &&& final(self).text() == next.0
                &&& final(self).cursor() == next.1
                &&& outputs_view(step.output) == next.2
                &&& line_view(step.line) == next.3
            }),
    {
        let ghost buf = self.buffer@;
        let ghost cur = self.cursor_pos as int;
        if self.cursor_pos == 0 {
            let out: Vec<TermOutput> = Vec::new();
            assert(outputs_view(out) =~= Seq::<SpecOutput>::empty());
            return KeyStep { output: out, line: None };
        }
        let blen = self.buffer.as_str().len();
        let out = self.clear_command();
        let left = string_slice(self.buffer.as_str(), 0, self.cursor_pos - 1);
        let right = string_slice(self.buffer.as_str(), self.cursor_pos, blen);
        let mut nb = left;
        nb.append(right.as_str());
        let ghost next = term_next(buf, cur, KeyInput::Backspace);
        proof {
            lemma_byte_len_bounds(buf);
            if cur <= buf.len() {
                assert(buf =~= left@ + seq![buf[cur - 1]] + right@);
                lemma_byte_len_concat(left@, seq![buf[cur - 1]]);
                lemma_byte_len_concat(left@ + seq![buf[cur - 1]], right@);
                lemma_byte_len_concat(left@, right@);
                lemma_byte_len_bounds(left@ + right@);
            } else {
                assert(left@ =~= buf);
                assert(right@ =~= Seq::<char>::empty());
                assert(left@ + right@ =~= buf);
            }
            assert(nb@ =~= next.0);
        }
        self.buffer = nb;
        self.cursor_pos = self.cursor_pos - 1;
        let out = self.finish_edit(out);
        assert(outputs_view(out) =~= next.2);
        KeyStep { output: out, line: None }
    }

    fn delete(&mut self) -> (step: KeyStep)
        requires
            old(self).wf(),
        ensures
            final(self).wf(),
            ({
                let next = term_next(old(self).text(), old(self).cursor(), KeyInput::Delete);
                &&& final(self).text() == next.0
                &&& final(self).cursor() == next.1
                &&& outputs_view(step.output) == next.2
                &&& line_view(step.line) == next.3
            }),
    {
        let ghost buf = self.buffer@;
        let ghost cur = self.cursor_pos as int;
        let blen = self.buffer.as_str().len();
        if self.cursor_pos >= blen {
            let out: Vec<TermOutput> = Vec::new();
            assert(outputs_view(out) =~= Seq::<SpecOutput>::empty());
            return KeyStep { output: out, line: None };
        }
        let out = self.clear_command();
        let left = string_slice(self.buffer.as_str(), 0, self.cursor_pos);
        let right = string_slice(self.buffer.as_str(), self.cursor_pos + 1, blen);
        let mut nb = left;
        nb.append(right.as_str());
        let ghost next = term_next(buf, cur, KeyInput::Delete);
        proof {
            lemma_byte_len_bounds(buf);
            if cur < buf.len() {
                assert(buf =~= left@ + seq![buf[cur]] + right@);
                lemma_byte_len_concat(left@, seq![buf[cur]]);
                lemma_byte_len_concat(left@ + seq![buf[cur]], right@);
                lemma_byte_len_concat(left@, right@);
                lemma_byte_len_bounds(left@ + right@);
            } else {
                assert(left@ =~= buf);
                assert(right@ =~= Seq::<char>::empty());
                assert(left@ + right@ =~= buf);
            }
            assert(nb@ =~= next.0);
        }
        self.buffer = nb;
        let out = self.finish_edit(out);
        assert(outputs_view(out) =~= next.2);
        KeyStep { output: out, line: None }
    }
}

/// Law: inserting a character other than Enter and Tab and then pressing
/// Backspace gives back the line and the cursor, when the cursor is within
/// the line's characters. (The cursor of [`TermIO`] may pass the last
/// character of a line with multi-byte characters; there the law fails.)
pub proof fn law_term_insert_backspace(buf: Seq<char>, cur: int, c: char)
    requires
        0 <= cur <= buf.len(),
        c != '\n' && c != '\t',
    ensures
        ({
            let a = term_next(buf, cur, KeyInput::Char(c));
            let b = term_next(a.0, a.1, KeyInput::Backspace);
            b.0 == buf && b.1 == cur
        }),
{
    lemma_byte_len_bounds(buf);
    let a = term_next(buf, cur, KeyInput::Char(c));
    assert(slice_spec(buf, 0, cur) =~= buf.subrange(0, cur));
    assert(slice_spec(buf, cur, byte_len(buf) as int) =~= buf.subrange(cur, buf.len() as int));
    let nb = buf.subrange(0, cur).push(c) + buf.subrange(cur, buf.len() as int);
    assert(a.0 == nb);
    lemma_byte_len_bounds(nb);
    assert(slice_spec(nb, 0, cur) =~= buf.subrange(0, cur));
    assert(slice_spec(nb, cur + 1, byte_len(nb) as int) =~= buf.subrange(cur, buf.len() as int));
    assert(buf.subrange(0, cur) + buf.subrange(cur, buf.len() as int) =~= buf);
}

/// Law: moving left and then right gives back the cursor.
pub proof fn law_term_left_right(buf: Seq<char>, cur: int)
    requires
        0 < cur <= byte_len(buf),
    ensures
        ({
            let a = term_next(buf, cur, KeyInput::Left);
            let b = term_next(a.0, a.1, KeyInput::Right);
            a.1 == cur - 1 && b.0 == buf && b.1 == cur
        }),
{
}

/// Law: the only key [`TermIO`] refuses is a character other than Enter and
/// Tab when the line cannot grow; every other key, at any cursor, is answered.
pub proof fn law_term_refused_keys(buf: Seq<char>, key: KeyInput)
    ensures
        term_panics(buf, key) ==> (key matches KeyInput::Char(c) && c != '\n' && c != '\t'
            && byte_len(buf) + 4 > usize::MAX),
{
}

} // verus!
