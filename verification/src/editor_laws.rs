//! Laws over whole key sequences: both line editors follow a plain editing
//! model on characters, they agree with each other on the line and the
//! cursor, and a read starts afresh whatever came before.

use vstd::prelude::*;
use crate::text::{byte_len, slice_spec, lemma_byte_len_bounds};
use crate::termio::{KeyInput, reader_next, reader_panics};
use crate::input::{term_next, TermIO};

verus! {

/// Enter and Ctrl-C end the line.
pub open spec fn ends_line(key: KeyInput) -> bool {
    key == KeyInput::Char('\n') || key == KeyInput::Ctrl('c')
}

/// The editing model on characters: what `key` does to the text `b` with
/// the cursor before character `c`. A character other than Enter and Tab is
/// inserted at the cursor; Backspace removes the character before the
/// cursor and Delete the one after it; Left and Right move the cursor over
/// one character; every other key changes nothing.
pub open spec fn edit_step(b: Seq<char>, c: int, key: KeyInput) -> (Seq<char>, int) {
    match key {
        KeyInput::Char(x) => if x == '\n' || x == '\t' {
            (b, c)
        } else {
            (b.subrange(0, c).push(x) + b.subrange(c, b.len() as int), c + 1)
        },
        KeyInput::Backspace => if 0 < c {
            (b.subrange(0, c - 1) + b.subrange(c, b.len() as int), c - 1)
        } else {
            (b, c)
        },
        KeyInput::Delete => if c < b.len() {
            (b.subrange(0, c) + b.subrange(c + 1, b.len() as int), c)
        } else {
            (b, c)
        },
        KeyInput::Left => if 0 < c {
            (b, c - 1)
        } else {
            (b, c)
        },
        KeyInput::Right => if c < b.len() {
            (b, c + 1)
        } else {
            (b, c)
        },
        _ => (b, c),
    }
}

/// The model over the keys `ks` from the text `b` and the cursor `c`: the
/// text and cursor when the first key that ends the line comes (or the keys
/// run out), and the line given back: the text for Enter, the empty line
/// for Ctrl-C, `None` when no key ends the line.
pub open spec fn edit_run(b: Seq<char>, c: int, ks: Seq<KeyInput>) -> (Seq<char>, int, Option<Seq<char>>)
    decreases ks.len(),
{
    if ks.len() == 0 {
        (b, c, None)
    } else if ends_line(ks[0]) {
        (b, c, Some(if ks[0] == KeyInput::Ctrl('c') { Seq::empty() } else { b }))
    } else {
        let n = edit_step(b, c, ks[0]);
        edit_run(n.0, n.1, ks.drop_first())
    }
}

/// [`crate::termio::LineReader`] answering the keys `ks` one by one (see
/// [`reader_next`]) until one ends the line.
pub open spec fn reader_run(b: Seq<char>, c: int, ks: Seq<KeyInput>) -> (Seq<char>, int, Option<Seq<char>>)
    decreases ks.len(),
{
    if ks.len() == 0 {
        (b, c, None)
    } else {
        let n = reader_next(b, c, ks[0]);
        if n.3 is Some {
            (n.0, n.1, n.3)
        } else {
            reader_run(n.0, n.1, ks.drop_first())
        }
    }
}

/// Whether [`crate::termio::LineReader`] can answer each of the keys `ks`
/// (see [`reader_panics`]) up to the one that ends the line.
pub open spec fn reader_answers(b: Seq<char>, c: int, ks: Seq<KeyInput>) -> bool
    decreases ks.len(),
{
    if ks.len() == 0 {
        true
    } else {
        let n = reader_next(b, c, ks[0]);
        &&& !reader_panics(b, c, ks[0])
        &&& (n.3 is Some || reader_answers(n.0, n.1, ks.drop_first()))
    }
}

/// [`TermIO`] answering the keys `ks` one by one (see [`term_next`]) until
/// one ends the line.
pub open spec fn term_run(b: Seq<char>, c: int, ks: Seq<KeyInput>) -> (Seq<char>, int, Option<Seq<char>>)
    decreases ks.len(),
{
    if ks.len() == 0 {
        (b, c, None)
    } else {
        let n = term_next(b, c, ks[0]);
        if n.3 is Some {
            (n.0, n.1, n.3)
        } else {
            term_run(n.0, n.1, ks.drop_first())
        }
    }
}

/// Every character of `s` is ASCII.
pub open spec fn ascii_text(s: Seq<char>) -> bool {
    forall|i: int| 0 <= i < s.len() ==> (#[trigger] s[i] as u32) < 0x80
}

/// A key that types no character outside ASCII.
pub open spec fn ascii_key(key: KeyInput) -> bool {
    match key {
        KeyInput::Char(x) => (x as u32) < 0x80,
        _ => true,
    }
}

/// ASCII text takes one byte per character.
proof fn lemma_ascii_byte_len(s: Seq<char>)
    requires
        ascii_text(s),
    ensures
        byte_len(s) == s.len(),
    decreases s.len(),
{
    if s.len() > 0 {
        assert((s[0] as u32) < 0x80);
        assert forall|i: int| 0 <= i < s.drop_first().len() implies (#[trigger] s.drop_first()[i] as u32) < 0x80 by {
            assert(s.drop_first()[i] == s[i + 1]);
        }
        lemma_ascii_byte_len(s.drop_first());
    }
}

/// One key of [`LineReader`](crate::termio::LineReader) against the model:
/// the line and cursor agree, except where the cursor would move right past
/// the last character.
proof fn lemma_reader_step(b: Seq<char>, c: int, key: KeyInput)
    requires
        0 <= c <= b.len(),
        !(key == KeyInput::Right && b.len() <= c < byte_len(b)),
    ensures
        reader_next(b, c, key).3 is Some <==> ends_line(key),
        ends_line(key) ==> reader_next(b, c, key).0 == b && reader_next(b, c, key).1 == c
            && reader_next(b, c, key).3 == Some(if key == KeyInput::Ctrl('c') { Seq::<char>::empty() } else { b }),
        !ends_line(key) ==> (reader_next(b, c, key).0, reader_next(b, c, key).1) == edit_step(b, c, key),
        0 <= edit_step(b, c, key).1 <= edit_step(b, c, key).0.len(),
{
    lemma_byte_len_bounds(b);
    let blen = byte_len(b) as int;
    let len = b.len() as int;
    assert(slice_spec(b, 0, c) =~= b.subrange(0, c));
    assert(slice_spec(b, c, blen) =~= b.subrange(c, len));
    if 0 < c {
        assert(slice_spec(b, 0, c - 1) =~= b.subrange(0, c - 1));
    }
    if c < len {
        assert(slice_spec(b, c + 1, blen) =~= b.subrange(c + 1, len));
    } else {
        assert(slice_spec(b, c + 1, blen) =~= Seq::<char>::empty());
        assert(b.subrange(0, c) + Seq::<char>::empty() =~= b);
    }
}

/// Law: while [`LineReader`](crate::termio::LineReader) can answer the keys,
/// it follows the editing model: the same line comes back, or when no key
/// ends the line, the same text and cursor are left.
pub proof fn law_reader_follows_model(b: Seq<char>, c: int, ks: Seq<KeyInput>)
    requires
        0 <= c <= b.len(),
        reader_answers(b, c, ks),
    ensures
        reader_run(b, c, ks) == edit_run(b, c, ks),
    decreases ks.len(),
{
    if ks.len() > 0 {
        let key = ks[0];
        assert(!reader_panics(b, c, key));
        lemma_reader_step(b, c, key);
        if !ends_line(key) {
            let n = reader_next(b, c, key);
            law_reader_follows_model(n.0, n.1, ks.drop_first());
        }
    }
}

/// Law: the two editors give the same line and leave the same text and
/// cursor for every sequence of keys; they differ only in what they write,
/// and in where [`LineReader`](crate::termio::LineReader) cannot go on.
pub proof fn law_editors_agree(b: Seq<char>, c: int, ks: Seq<KeyInput>)
    ensures
        term_run(b, c, ks) == reader_run(b, c, ks),
    decreases ks.len(),
{
    if ks.len() > 0 {
        let r = reader_next(b, c, ks[0]);
        let t = term_next(b, c, ks[0]);
        assert(t.0 == r.0 && t.1 == r.1 && t.3 == r.3);
        law_editors_agree(r.0, r.1, ks.drop_first());
    }
}

/// Law: on ASCII text and keys that type only ASCII, [`TermIO`] follows the
/// editing model, and so, by [`law_editors_agree`], does
/// [`LineReader`](crate::termio::LineReader).
pub proof fn law_ascii_follows_model(b: Seq<char>, c: int, ks: Seq<KeyInput>)
    requires
        ascii_text(b),
        0 <= c <= b.len(),
        forall|i: int| 0 <= i < ks.len() ==> ascii_key(#[trigger] ks[i]),
    ensures
        term_run(b, c, ks) == edit_run(b, c, ks),
        reader_run(b, c, ks) == edit_run(b, c, ks),
    decreases ks.len(),
{
    law_editors_agree(b, c, ks);
    if ks.len() > 0 {
        let key = ks[0];
        assert(ascii_key(ks[0]));
        lemma_ascii_byte_len(b);
        lemma_reader_step(b, c, key);
        if !ends_line(key) {
            let n = reader_next(b, c, key);
            assert(ascii_text(n.0)) by {
                assert forall|i: int| 0 <= i < n.0.len() implies (#[trigger] n.0[i] as u32) < 0x80 by {
                    if 0 <= i < b.len() {
                        assert((b[i] as u32) < 0x80);
                    }
                    match key {
                        KeyInput::Char(x) => {
                            if x != '\n' && x != '\t' {
                                if i < c {
                                    assert(n.0[i] == b[i]);
                                } else if i > c {
                                    assert(n.0[i] == b[i - 1]);
                                    assert((b[i - 1] as u32) < 0x80);
                                }
                            }
                        },
                        KeyInput::Backspace => {
                            if i >= c - 1 && 0 < c {
                                assert(n.0[i] == b[i + 1]);
                                assert((b[i + 1] as u32) < 0x80);
                            }
                        },
                        KeyInput::Delete => {
                            if i >= c && c < b.len() {
                                assert(n.0[i] == b[i + 1]);
                                assert((b[i + 1] as u32) < 0x80);
                            }
                        },
                        _ => {},
                    }
                }
            }
            assert forall|i: int| 0 <= i < ks.drop_first().len() implies ascii_key(#[trigger] ks.drop_first()[i]) by {
                assert(ks.drop_first()[i] == ks[i + 1]);
            }
            law_ascii_follows_model(n.0, n.1, ks.drop_first());
        }
    }
}

/// Law: a read of [`TermIO`] starts from the empty line with the cursor at
/// its start (see [`TermIO::start_read`]), so the same keys give the same
/// line, text and cursor whatever either editor held before.
pub proof fn law_term_read_fresh(t1: TermIO, t2: TermIO, ks: Seq<KeyInput>)
    requires
        t1.text() == Seq::<char>::empty() && t1.cursor() == 0,
        t2.text() == Seq::<char>::empty() && t2.cursor() == 0,
    ensures
        term_run(t1.text(), t1.cursor(), ks) == term_run(t2.text(), t2.cursor(), ks),
        term_run(t1.text(), t1.cursor(), ks) == term_run(Seq::empty(), 0, ks),
{
}

} // verus!
