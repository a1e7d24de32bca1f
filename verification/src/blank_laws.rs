//! Blanks around a command line: blanks before it change nothing but where
//! the parse ends, and blanks after a line that parses to its end are taken
//! in by it.

use vstd::prelude::*;
use crate::parser::{
    SpecCommand, is_space, is_word_char, hex4, hex4_val, spec_skip_spaces, spec_word_end, spec_escape,
    spec_body, spec_string_content, spec_string_empty, spec_word, spec_atom, spec_atoms,
    spec_command, lemma_skip_bounds, lemma_word_end_bounds, lemma_body_bounds, lemma_atom_bounds,
    lemma_atoms_bounds, lemma_command_bounds,
};

verus! {

/// Every character of `w` is a blank.
pub open spec fn blanks(w: Seq<char>) -> bool {
    forall|m: int| 0 <= m < w.len() ==> is_space(#[trigger] w[m])
}

/// A text parse result with its end moved by `d`.
pub open spec fn shift_text(r: Result<(int, Seq<char>), ()>, d: int) -> Result<(int, Seq<char>), ()> {
    match r {
        Ok((j, o)) => Ok((j + d, o)),
        Err(e) => Err(e),
    }
}

/// A command parse result with its end moved by `d`.
pub open spec fn shift_command(r: Result<(int, SpecCommand), ()>, d: int) -> Result<(int, SpecCommand), ()> {
    match r {
        Ok((j, c)) => Ok((j + d, c)),
        Err(e) => Err(e),
    }
}

/// A command parse result whose end, when it is `n`, becomes `m`.
pub open spec fn move_end(r: Result<(int, SpecCommand), ()>, n: int, m: int) -> Result<(int, SpecCommand), ()> {
    match r {
        Ok((j, c)) => Ok((if j == n { m } else { j }, c)),
        Err(e) => Err(e),
    }
}

/// A text parse result whose end, when it is `n`, becomes `m`, with `tail`
/// added to the text.
pub open spec fn move_text_end(r: Result<(int, Seq<char>), ()>, n: int, m: int, tail: Seq<char>) -> Result<(int, Seq<char>), ()> {
    match r {
        Ok((j, o)) => if j == n {
            Ok((m, o + tail))
        } else {
            Ok((j, o))
        },
        Err(e) => Err(e),
    }
}

// ---------------------------------------------------------------------------
// Text before the position: the grammar reads only what follows it.
// ---------------------------------------------------------------------------

proof fn lemma_shift_skip(p: Seq<char>, s: Seq<char>, i: int)
    requires
        0 <= i <= s.len(),
    ensures
        spec_skip_spaces(p + s, p.len() + i) == p.len() + spec_skip_spaces(s, i),
    decreases s.len() - i,
{
    if i < s.len() {
        assert((p + s)[p.len() + i] == s[i]);
        if is_space(s[i]) {
            lemma_shift_skip(p, s, i + 1);
        }
    }
}

proof fn lemma_shift_word_end(p: Seq<char>, s: Seq<char>, i: int)
    requires
        0 <= i <= s.len(),
    ensures
        spec_word_end(p + s, p.len() + i) == p.len() + spec_word_end(s, i),
    decreases s.len() - i,
{
    if i < s.len() {
        assert((p + s)[p.len() + i] == s[i]);
        if is_word_char(s[i]) {
            lemma_shift_word_end(p, s, i + 1);
        }
    }
}

proof fn lemma_shift_hex4(p: Seq<char>, s: Seq<char>, i: int)
    requires
        0 <= i,
    ensures
        hex4(p + s, p.len() + i) == hex4(s, i),
        hex4(s, i) ==> hex4_val(p + s, p.len() + i) == hex4_val(s, i),
{
    let t = p + s;
    let d = p.len() as int;
    if i + 4 <= s.len() {
        assert(t[d + i] == s[i]);
        assert(t[d + i + 1] == s[i + 1]);
        assert(t[d + i + 2] == s[i + 2]);
        assert(t[d + i + 3] == s[i + 3]);
    }
}

proof fn lemma_shift_escape(p: Seq<char>, s: Seq<char>, i: int)
    requires
        0 <= i <= s.len(),
    ensures
        spec_escape(p + s, p.len() + i) == match spec_escape(s, i) {
            Some((k, c)) => Some((k + p.len(), c)),
            None => None,
        },
{
    let t = p + s;
    let d = p.len() as int;
    if i < s.len() {
        assert(t[d + i] == s[i]);
        lemma_shift_hex4(p, s, i + 1);
        lemma_shift_hex4(p, s, i);
        if i + 4 < s.len() {
            assert(t[d + i + 4] == s[i + 4]);
        }
    }
}

proof fn lemma_shift_body(p: Seq<char>, s: Seq<char>, start: int, i: int)
    requires
        0 <= i <= s.len(),
    ensures
        spec_body(p + s, p.len() + start, p.len() + i) == shift_text(spec_body(s, start, i), p.len() as int),
    decreases s.len() - i,
{
    let t = p + s;
    let d = p.len() as int;
    if i < s.len() {
        assert(t[d + i] == s[i]);
        if s[i] != '"' && s[i] != '\\' {
            lemma_shift_body(p, s, start, i + 1);
        } else if s[i] == '\\' {
            if i + 1 < s.len() {
                lemma_shift_escape(p, s, i + 1);
                if let Some((k, ch)) = spec_escape(s, i + 1) {
                    if i < k <= s.len() {
                        lemma_shift_body(p, s, start, k);
                    }
                }
            }
        }
    }
}

proof fn lemma_shift_string_content(p: Seq<char>, s: Seq<char>, i: int)
    requires
        0 <= i <= s.len(),
    ensures
        spec_string_content(p + s, p.len() + i) == shift_text(spec_string_content(s, i), p.len() as int),
{
    let t = p + s;
    let d = p.len() as int;
    if i < s.len() {
        assert(t[d + i] == s[i]);
        lemma_shift_body(p, s, i + 1, i + 1);
        lemma_body_bounds(s, i + 1, i + 1);
        if let Ok((j, o)) = spec_body(s, i + 1, i + 1) {
            if j < s.len() {
                assert(t[d + j] == s[j]);
            }
        }
    }
}

proof fn lemma_shift_string_empty(p: Seq<char>, s: Seq<char>, i: int)
    requires
        0 <= i <= s.len(),
    ensures
        spec_string_empty(p + s, p.len() + i) == shift_text(spec_string_empty(s, i), p.len() as int),
{
    let t = p + s;
    let d = p.len() as int;
    if i + 1 < s.len() {
        assert(t[d + i] == s[i]);
        assert(t[d + i + 1] == s[i + 1]);
    }
}

proof fn lemma_shift_word(p: Seq<char>, s: Seq<char>, i: int)
    requires
        0 <= i <= s.len(),
    ensures
        spec_word(p + s, p.len() + i) == shift_text(spec_word(s, i), p.len() as int),
{
    let t = p + s;
    let d = p.len() as int;
    if i < s.len() {
        assert(t[d + i] == s[i]);
        lemma_shift_word_end(p, s, i);
        lemma_word_end_bounds(s, i);
        let e = spec_word_end(s, i);
        assert(t.subrange(d + i, d + e) =~= s.subrange(i, e));
    }
}

proof fn lemma_shift_atom(p: Seq<char>, s: Seq<char>, i: int)
    requires
        0 <= i <= s.len(),
    ensures
        spec_atom(p + s, p.len() + i) == shift_text(spec_atom(s, i), p.len() as int),
{
    lemma_shift_string_content(p, s, i);
    lemma_shift_string_empty(p, s, i);
    lemma_shift_word(p, s, i);
}

proof fn lemma_shift_atoms(p: Seq<char>, s: Seq<char>, i: int)
    requires
        0 <= i <= s.len(),
    ensures
        spec_atoms(p + s, p.len() + i) == (p.len() + spec_atoms(s, i).0, spec_atoms(s, i).1),
    decreases s.len() - i,
{
    let k = spec_skip_spaces(s, i);
    lemma_shift_skip(p, s, i);
    lemma_skip_bounds(s, i);
    lemma_shift_atom(p, s, k);
    if let Ok((j, a)) = spec_atom(s, k) {
        if i < j <= s.len() {
            lemma_shift_atoms(p, s, j);
        }
    }
}

proof fn lemma_shift_command(p: Seq<char>, s: Seq<char>, i: int)
    requires
        0 <= i <= s.len(),
    ensures
        spec_command(p + s, p.len() + i) == shift_command(spec_command(s, i), p.len() as int),
    decreases s.len() - i,
{
    let t = p + s;
    let d = p.len() as int;
    let atoms = spec_atoms(s, i);
    lemma_shift_atoms(p, s, i);
    lemma_atoms_bounds(s, i);
    if atoms.1.len() > 0 {
        let k = spec_skip_spaces(s, atoms.0);
        lemma_shift_skip(p, s, atoms.0);
        lemma_skip_bounds(s, atoms.0);
        if k < s.len() {
            assert(t[d + k] == s[k]);
            if i <= k && (s[k] == '|' || s[k] == '>') {
                lemma_shift_command(p, s, k + 1);
            }
        }
    }
}

proof fn lemma_skip_blanks(t: Seq<char>, m: int, d: int)
    requires
        0 <= m <= d <= t.len(),
        forall|x: int| m <= x < d ==> is_space(#[trigger] t[x]),
    ensures
        spec_skip_spaces(t, m) == spec_skip_spaces(t, d),
    decreases d - m,
{
    if m < d {
        lemma_skip_blanks(t, m + 1, d);
    }
}

/// Law: blanks before a command line change nothing but where the parse
/// ends, which moves by their number: the same command comes back, with the
/// same text left after it.
pub proof fn law_leading_blanks(w: Seq<char>, s: Seq<char>)
    requires
        blanks(w),
    ensures
        spec_command(w + s, 0) == shift_command(spec_command(s, 0), w.len() as int),
        spec_command(s, 0) matches Ok((j, _)) ==> (w + s).subrange(j + w.len(), (w + s).len() as int)
            == s.subrange(j, s.len() as int),
{
    let t = w + s;
    let d = w.len() as int;
    assert forall|x: int| 0 <= x < d implies is_space(#[trigger] t[x]) by {
        assert(t[x] == w[x]);
    }
    lemma_skip_blanks(t, 0, d);
    lemma_shift_command(w, s, 0);
    let k = spec_skip_spaces(t, d);
    lemma_skip_bounds(t, d);
    lemma_atom_bounds(t, k);
    if let Ok((j, a)) = spec_atom(t, k) {
        assert(spec_atoms(t, 0) == spec_atoms(t, d));
    }
    lemma_atoms_bounds(t, d);
    let ad = spec_atoms(t, d);
    if ad.1.len() > 0 {
        lemma_skip_bounds(t, ad.0);
    }
    lemma_command_bounds(s, 0);
    if let Ok((j, _)) = spec_command(s, 0) {
        assert(t.subrange(j + d, t.len() as int) =~= s.subrange(j, s.len() as int));
    }
}

// ---------------------------------------------------------------------------
// Blanks after the text: the grammar stops where it stopped before, or, where
// it reached the end, takes the blanks in.
// ---------------------------------------------------------------------------

proof fn lemma_blank_tail(s: Seq<char>, w: Seq<char>, m: int)
    requires
        blanks(w),
        s.len() <= m < s.len() + w.len(),
    ensures
        is_space((s + w)[m]),
{
    assert((s + w)[m] == w[m - s.len()]);
}

proof fn lemma_skip_to_end(s: Seq<char>, w: Seq<char>, m: int)
    requires
        blanks(w),
        s.len() <= m <= s.len() + w.len(),
    ensures
        spec_skip_spaces(s + w, m) == s.len() + w.len(),
    decreases s.len() + w.len() - m,
{
    if m < s.len() + w.len() {
        lemma_blank_tail(s, w, m);
        lemma_skip_to_end(s, w, m + 1);
    }
}

proof fn lemma_ext_skip(s: Seq<char>, w: Seq<char>, i: int)
    requires
        blanks(w),
        0 <= i <= s.len(),
    ensures
        spec_skip_spaces(s + w, i) == if spec_skip_spaces(s, i) == s.len() {
            (s.len() + w.len()) as int
        } else {
            spec_skip_spaces(s, i)
        },
    decreases s.len() - i,
{
    if i < s.len() {
        assert((s + w)[i] == s[i]);
        if is_space(s[i]) {
            lemma_ext_skip(s, w, i + 1);
        }
    } else {
        lemma_skip_to_end(s, w, i);
    }
}

proof fn lemma_ext_word_end(s: Seq<char>, w: Seq<char>, i: int)
    requires
        blanks(w),
        0 <= i <= s.len(),
    ensures
        spec_word_end(s + w, i) == spec_word_end(s, i),
    decreases s.len() - i,
{
    if i < s.len() {
        assert((s + w)[i] == s[i]);
        if is_word_char(s[i]) {
            lemma_ext_word_end(s, w, i + 1);
        }
    } else if i < s.len() + w.len() {
        lemma_blank_tail(s, w, i);
    }
}

proof fn lemma_ext_hex4(s: Seq<char>, w: Seq<char>, i: int)
    requires
        blanks(w),
        0 <= i,
    ensures
        hex4(s + w, i) == hex4(s, i),
        hex4(s, i) ==> hex4_val(s + w, i) == hex4_val(s, i),
{
    let u = s + w;
    let n = s.len() as int;
    if i + 4 <= n {
        assert(u[i] == s[i]);
        assert(u[i + 1] == s[i + 1]);
        assert(u[i + 2] == s[i + 2]);
        assert(u[i + 3] == s[i + 3]);
    } else if i + 4 <= u.len() {
        let x = if i < n { n } else { i };
        lemma_blank_tail(s, w, x);
    }
}

proof fn lemma_escape_bounds(s: Seq<char>, i: int)
    requires
        0 <= i,
    ensures
        spec_escape(s, i) matches Some((k, _)) ==> i < k <= s.len(),
{
}

proof fn lemma_ext_escape(s: Seq<char>, w: Seq<char>, i: int)
    requires
        blanks(w),
        0 <= i <= s.len(),
    ensures
        spec_escape(s + w, i) == spec_escape(s, i),
{
    let u = s + w;
    let n = s.len() as int;
    lemma_ext_hex4(s, w, i + 1);
    lemma_ext_hex4(s, w, i);
    if i < n {
        assert(u[i] == s[i]);
        if i + 4 < n {
            assert(u[i + 4] == s[i + 4]);
        } else if i + 4 < u.len() {
            lemma_blank_tail(s, w, i + 4);
        }
    } else if i < u.len() {
        lemma_blank_tail(s, w, i);
    }
}

proof fn lemma_body_tail(s: Seq<char>, w: Seq<char>, start: int, m: int)
    requires
        blanks(w),
        s.len() <= m <= s.len() + w.len(),
    ensures
        spec_body(s + w, start, m) == Ok::<(int, Seq<char>), ()>(
            ((s + w).len() as int, (s + w).subrange(m, (s + w).len() as int)),
        ),
    decreases s.len() + w.len() - m,
{
    let u = s + w;
    if m < u.len() {
        lemma_blank_tail(s, w, m);
        lemma_body_tail(s, w, start, m + 1);
        assert(seq![u[m]] + u.subrange(m + 1, u.len() as int) =~= u.subrange(m, u.len() as int));
    } else {
        assert(u.subrange(m, m) =~= Seq::<char>::empty());
    }
}

proof fn lemma_ext_body(s: Seq<char>, w: Seq<char>, start: int, i: int)
    requires
        blanks(w),
        0 <= i <= s.len(),
    ensures
        spec_body(s + w, start, i) == move_text_end(spec_body(s, start, i), s.len() as int, (s + w).len() as int, w),
    decreases s.len() - i,
{
    let u = s + w;
    let n = s.len() as int;
    if i == n {
        lemma_body_tail(s, w, start, n);
        assert(u.subrange(n, u.len() as int) =~= w);
        assert(Seq::<char>::empty() + w =~= w);
    } else {
        assert(u[i] == s[i]);
        if s[i] != '"' && s[i] != '\\' {
            lemma_ext_body(s, w, start, i + 1);
            if let Ok((j, o)) = spec_body(s, start, i + 1) {
                assert(seq![s[i]] + (o + w) =~= (seq![s[i]] + o) + w);
            }
        } else if s[i] == '\\' {
            if i + 1 < n {
                lemma_ext_escape(s, w, i + 1);
                lemma_escape_bounds(s, i + 1);
                if let Some((k, ch)) = spec_escape(s, i + 1) {
                    lemma_ext_body(s, w, start, k);
                    if let Ok((j, o)) = spec_body(s, start, k) {
                        assert(seq![ch] + (o + w) =~= (seq![ch] + o) + w);
                    }
                }
            } else {
                lemma_ext_escape(s, w, n);
            }
        }
    }
}

proof fn lemma_ext_string_content(s: Seq<char>, w: Seq<char>, i: int)
    requires
        blanks(w),
        0 <= i <= s.len(),
    ensures
        spec_string_content(s + w, i) == spec_string_content(s, i),
{
    let u = s + w;
    let n = s.len() as int;
    if i < n {
        assert(u[i] == s[i]);
        if s[i] == '"' {
            lemma_ext_body(s, w, i + 1, i + 1);
            lemma_body_bounds(s, i + 1, i + 1);
            if let Ok((j, o)) = spec_body(s, i + 1, i + 1) {
                if j < n {
                    assert(u[j] == s[j]);
                }
            }
        }
    } else if i < u.len() {
        lemma_blank_tail(s, w, i);
    }
}

proof fn lemma_ext_string_empty(s: Seq<char>, w: Seq<char>, i: int)
    requires
        blanks(w),
        0 <= i <= s.len(),
    ensures
        spec_string_empty(s + w, i) == spec_string_empty(s, i),
{
    let u = s + w;
    let n = s.len() as int;
    if i + 1 < n {
        assert(u[i] == s[i]);
        assert(u[i + 1] == s[i + 1]);
    } else if i + 1 < u.len() {
        lemma_blank_tail(s, w, n);
        if i < n {
            assert(u[i] == s[i]);
        }
    }
}

proof fn lemma_ext_word(s: Seq<char>, w: Seq<char>, i: int)
    requires
        blanks(w),
        0 <= i <= s.len(),
    ensures
        spec_word(s + w, i) == spec_word(s, i),
{
    let u = s + w;
    let n = s.len() as int;
    if i < n {
        assert(u[i] == s[i]);
        lemma_ext_word_end(s, w, i);
        lemma_word_end_bounds(s, i);
        let e = spec_word_end(s, i);
        assert(u.subrange(i, e) =~= s.subrange(i, e));
    } else if i < u.len() {
        lemma_blank_tail(s, w, i);
    }
}

proof fn lemma_ext_atom(s: Seq<char>, w: Seq<char>, i: int)
    requires
        blanks(w),
        0 <= i <= s.len(),
    ensures
        spec_atom(s + w, i) == spec_atom(s, i),
{
    lemma_ext_string_content(s, w, i);
    lemma_ext_string_empty(s, w, i);
    lemma_ext_word(s, w, i);
}

proof fn lemma_ext_atoms(s: Seq<char>, w: Seq<char>, i: int)
    requires
        blanks(w),
        0 <= i <= s.len(),
    ensures
        spec_atoms(s + w, i) == spec_atoms(s, i),
    decreases s.len() - i,
{
    let u = s + w;
    let n = s.len() as int;
    let k = spec_skip_spaces(s, i);
    lemma_ext_skip(s, w, i);
    lemma_skip_bounds(s, i);
    lemma_atom_bounds(s, k);
    if k < n {
        lemma_ext_atom(s, w, k);
        if let Ok((j, a)) = spec_atom(s, k) {
            lemma_ext_atoms(s, w, j);
        }
    } else {
        lemma_atom_bounds(u, u.len() as int);
    }
}

proof fn lemma_ext_command(s: Seq<char>, w: Seq<char>, i: int)
    requires
        blanks(w),
        0 <= i <= s.len(),
    ensures
        spec_command(s + w, i) == move_end(spec_command(s, i), s.len() as int, (s + w).len() as int),
    decreases s.len() - i,
{
    let u = s + w;
    let n = s.len() as int;
    let atoms = spec_atoms(s, i);
    lemma_ext_atoms(s, w, i);
    lemma_atoms_bounds(s, i);
    if atoms.1.len() > 0 {
        let k = spec_skip_spaces(s, atoms.0);
        lemma_ext_skip(s, w, atoms.0);
        lemma_skip_bounds(s, atoms.0);
        if k < n {
            assert(u[k] == s[k]);
            if i <= k && (s[k] == '|' || s[k] == '>') {
                lemma_ext_command(s, w, k + 1);
            }
        }
    }
}

/// Law: blanks after a command line leave the parse where it stopped, and
/// a line that parses up to its end still does with the blanks added, into
/// the same command.
pub proof fn law_trailing_blanks(s: Seq<char>, w: Seq<char>)
    requires
        blanks(w),
    ensures
        spec_command(s + w, 0) == move_end(spec_command(s, 0), s.len() as int, (s + w).len() as int),
        spec_command(s, 0) matches Ok((j, c)) ==> (j == s.len() ==> spec_command(s + w, 0)
            == Ok::<(int, SpecCommand), ()>(((s + w).len() as int, c))),
{
    lemma_ext_command(s, w, 0);
}

} // verus!
