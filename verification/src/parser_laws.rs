//! What the grammar promises for every input: lines of plain words, pipelines
//! of them, and quoted strings parse as one would expect, and every stage of
//! a parsed line has at least one word.

use vstd::prelude::*;
use crate::parser::{SpecCommand, is_word_char, spec_word_end, spec_atoms, spec_atom, spec_skip_spaces, spec_command, spec_body, spec_escape, spec_string_content, hex4, hex4_val, unit_char, lemma_atom_bounds, lemma_atoms_bounds, lemma_skip_bounds};

verus! {

/// A character that ends an unquoted word: space, tab, carriage return,
/// line feed, `|`, `>` and `<`.
pub open spec fn word_stop(c: char) -> bool {
    c == ' ' || c == '\t' || c == '\r' || c == '\n' || c == '|' || c == '>' || c == '<'
}

/// A word that needs no quoting: non-empty, with no character that ends a
/// word, and not starting with a quote.
pub open spec fn plain_word(w: Seq<char>) -> bool {
    &&& w.len() > 0
    &&& w[0] != '"'
    &&& forall|k: int| 0 <= k < w.len() ==> !word_stop(#[trigger] w[k])
}

/// A non-empty list of plain words.
pub open spec fn plain_words(ws: Seq<Seq<char>>) -> bool {
    ws.len() > 0 && forall|k: int| 0 <= k < ws.len() ==> plain_word(#[trigger] ws[k])
}

/// The words separated by single spaces.
pub open spec fn join_words(ws: Seq<Seq<char>>) -> Seq<char>
    decreases ws.len(),
{
    if ws.len() == 0 {
        Seq::empty()
    } else if ws.len() == 1 {
        ws[0]
    } else {
        ws[0] + seq![' '] + join_words(ws.drop_first())
    }
}

/// Stages of plain words.
pub open spec fn plain_stages(stages: Seq<Seq<Seq<char>>>) -> bool {
    stages.len() > 0 && forall|k: int| 0 <= k < stages.len() ==> plain_words(#[trigger] stages[k])
}

/// The stages joined by `|`.
pub open spec fn join_pipeline(stages: Seq<Seq<Seq<char>>>) -> Seq<char>
    decreases stages.len(),
{
    if stages.len() == 0 {
        Seq::empty()
    } else if stages.len() == 1 {
        join_words(stages[0])
    } else {
        join_words(stages[0]) + seq!['|'] + join_pipeline(stages.drop_first())
    }
}

/// The command a pipeline of these stages stands for.
pub open spec fn pipeline_command(stages: Seq<Seq<Seq<char>>>) -> SpecCommand
    decreases stages.len(),
{
    if stages.len() <= 1 {
        SpecCommand::Command(stages[0])
    } else {
        SpecCommand::Pipe(stages[0], Box::new(pipeline_command(stages.drop_first())))
    }
}

/// Every stage of `c` has at least one word.
pub open spec fn stages_nonempty(c: SpecCommand) -> bool
    decreases c,
{
    match c {
        SpecCommand::Command(a) => a.len() > 0,
        SpecCommand::Pipe(a, r) => a.len() > 0 && stages_nonempty(*r),
        SpecCommand::Redirect(a, r) => a.len() > 0 && stages_nonempty(*r),
    }
}

proof fn lemma_word_end_run(s: Seq<char>, i: int, k: int)
    requires
        0 <= i <= k <= s.len(),
        forall|m: int| i <= m < k ==> is_word_char(#[trigger] s[m]),
        k == s.len() || !is_word_char(s[k]),
    ensures
        spec_word_end(s, i) == k,
    decreases k - i,
{
    if i < k {
        lemma_word_end_run(s, i + 1, k);
    }
}

proof fn lemma_join_words_shape(ws: Seq<Seq<char>>)
    requires
        plain_words(ws),
    ensures
        join_words(ws).len() >= ws[0].len(),
        join_words(ws).subrange(0, ws[0].len() as int) == ws[0],
        ws.len() == 1 ==> join_words(ws) == ws[0],
        ws.len() > 1 ==> join_words(ws)[ws[0].len() as int] == ' ',
        ws.len() > 1 ==> join_words(ws).subrange(ws[0].len() as int + 1, join_words(ws).len() as int)
            == join_words(ws.drop_first()),
        ws.len() > 1 ==> plain_words(ws.drop_first()),
{
    let w = ws[0];
    if ws.len() > 1 {
        let rest = join_words(ws.drop_first());
        assert(join_words(ws) == w + seq![' '] + rest);
        assert((w + seq![' '] + rest).subrange(0, w.len() as int) =~= w);
        assert((w + seq![' '] + rest).subrange(w.len() as int + 1, (w + seq![' '] + rest).len() as int) =~= rest);
        assert forall|k: int| 0 <= k < ws.drop_first().len() implies plain_word(#[trigger] ws.drop_first()[k]) by {
            assert(ws.drop_first()[k] == ws[k + 1]);
        }
    } else {
        assert(w.subrange(0, w.len() as int) =~= w);
    }
}

/// After the end of the text, or at `|`, `>` or `<`, no further word begins.
pub open spec fn stops_at(s: Seq<char>, e: int) -> bool {
    e == s.len() || s[e] == '|' || s[e] == '>' || s[e] == '<'
}

/// Plain words separated by single spaces, starting at `i` and followed by
/// the end or an operator, are the arguments found from `i`.
proof fn lemma_atoms_words(s: Seq<char>, i: int, ws: Seq<Seq<char>>)
    requires
        plain_words(ws),
        0 <= i,
        i + join_words(ws).len() <= s.len(),
        s.subrange(i, i + join_words(ws).len()) == join_words(ws),
        stops_at(s, i + join_words(ws).len()),
    ensures
        spec_atoms(s, i) == (i + join_words(ws).len(), ws),
    decreases ws.len(),
{
    let w = ws[0];
    let n = w.len() as int;
    let l = join_words(ws).len() as int;
    lemma_join_words_shape(ws);
    assert(plain_word(w));
    assert forall|m: int| i <= m < i + n implies is_word_char(#[trigger] s[m]) by {
        assert(s[m] == s.subrange(i, i + l)[m - i]);
        assert(join_words(ws).subrange(0, n)[m - i] == w[m - i]);
    }
    assert(s[i] == w[0]) by {
        assert(s[i] == s.subrange(i, i + l)[0]);
        assert(join_words(ws).subrange(0, n)[0] == w[0]);
    }
    if ws.len() == 1 {
        lemma_word_end_run(s, i, i + n);
    } else {
        assert(s[i + n] == ' ') by {
            assert(s[i + n] == s.subrange(i, i + l)[n]);
        }
        lemma_word_end_run(s, i, i + n);
    }
    assert(s.subrange(i, i + n) =~= w) by {
        assert forall|m: int| 0 <= m < n implies s.subrange(i, i + n)[m] == w[m] by {
            assert(s.subrange(i, i + n)[m] == s.subrange(i, i + l)[m]);
            assert(join_words(ws).subrange(0, n)[m] == join_words(ws)[m]);
        }
    }
    assert(spec_skip_spaces(s, i) == i);
    assert(spec_atom(s, i) == Ok::<(int, Seq<char>), ()>((i + n, w)));
    let j = i + n;
    if ws.len() == 1 {
        assert(spec_skip_spaces(s, j) == j);
        assert(spec_atom(s, j) is Err);
        assert(spec_atoms(s, j) == (j, Seq::<Seq<char>>::empty()));
        assert(seq![w] + Seq::<Seq<char>>::empty() =~= ws);
    } else {
        let rest = ws.drop_first();
        let lr = join_words(rest).len() as int;
        assert(l == n + 1 + lr);
        assert(s.subrange(j + 1, j + 1 + lr) =~= join_words(rest)) by {
            assert forall|m: int| 0 <= m < lr implies s.subrange(j + 1, j + 1 + lr)[m] == join_words(rest)[m] by {
                assert(s.subrange(j + 1, j + 1 + lr)[m] == s.subrange(i, i + l)[n + 1 + m]);
                assert(join_words(ws).subrange(n + 1, l)[m] == join_words(ws)[n + 1 + m]);
            }
        }
        lemma_atoms_words(s, j + 1, rest);
        assert(plain_word(rest[0]));
        assert(s[j + 1] == rest[0][0]) by {
            lemma_join_words_shape(rest);
            assert(s[j + 1] == s.subrange(j + 1, j + 1 + lr)[0]);
            assert(join_words(rest).subrange(0, rest[0].len() as int)[0] == join_words(rest)[0]);
        }
        assert(spec_skip_spaces(s, j + 1) == j + 1);
        assert(spec_skip_spaces(s, j) == j + 1);
        lemma_atom_bounds(s, j + 1);
        assert(spec_atoms(s, j) == spec_atoms(s, j + 1));
        assert(seq![w] + rest =~= ws);
    }
}

/// Law: a line of plain words separated by single spaces parses, as a
/// whole, into the command made of exactly those words.
pub proof fn law_words_parse(ws: Seq<Seq<char>>)
    requires
        plain_words(ws),
    ensures
        spec_command(join_words(ws), 0) == Ok::<(int, SpecCommand), ()>(
            (join_words(ws).len() as int, SpecCommand::Command(ws)),
        ),
{
    let s = join_words(ws);
    assert(s.subrange(0, s.len() as int) =~= s);
    lemma_atoms_words(s, 0, ws);
    lemma_join_words_shape(ws);
}

proof fn lemma_join_pipeline_shape(stages: Seq<Seq<Seq<char>>>)
    requires
        plain_stages(stages),
    ensures
        join_pipeline(stages).len() >= join_words(stages[0]).len(),
        join_pipeline(stages).subrange(0, join_words(stages[0]).len() as int) == join_words(stages[0]),
        stages.len() == 1 ==> join_pipeline(stages) == join_words(stages[0]),
        stages.len() > 1 ==> join_pipeline(stages)[join_words(stages[0]).len() as int] == '|',
        stages.len() > 1 ==> join_pipeline(stages).subrange(
            join_words(stages[0]).len() as int + 1,
            join_pipeline(stages).len() as int,
        ) == join_pipeline(stages.drop_first()),
        stages.len() > 1 ==> plain_stages(stages.drop_first()),
{
    let a = join_words(stages[0]);
    if stages.len() > 1 {
        let rest = join_pipeline(stages.drop_first());
        assert(join_pipeline(stages) == a + seq!['|'] + rest);
        assert((a + seq!['|'] + rest).subrange(0, a.len() as int) =~= a);
        assert((a + seq!['|'] + rest).subrange(a.len() as int + 1, (a + seq!['|'] + rest).len() as int) =~= rest);
        assert forall|k: int| 0 <= k < stages.drop_first().len() implies plain_words(#[trigger] stages.drop_first()[k]) by {
            assert(stages.drop_first()[k] == stages[k + 1]);
        }
    } else {
        assert(a.subrange(0, a.len() as int) =~= a);
    }
}

proof fn lemma_command_pipeline(s: Seq<char>, i: int, stages: Seq<Seq<Seq<char>>>)
    requires
        plain_stages(stages),
        0 <= i <= s.len(),
        s.subrange(i, s.len() as int) == join_pipeline(stages),
    ensures
        spec_command(s, i) == Ok::<(int, SpecCommand), ()>((s.len() as int, pipeline_command(stages))),
    decreases stages.len(),
{
    let ws = stages[0];
    assert(plain_words(ws));
    let l = join_words(ws).len() as int;
    lemma_join_pipeline_shape(stages);
    assert(s.subrange(i, i + l) =~= join_words(ws)) by {
        assert forall|m: int| 0 <= m < l implies s.subrange(i, i + l)[m] == join_words(ws)[m] by {
            assert(s.subrange(i, i + l)[m] == s.subrange(i, s.len() as int)[m]);
            assert(join_pipeline(stages).subrange(0, l)[m] == join_pipeline(stages)[m]);
        }
    }
    let e = i + l;
    if stages.len() == 1 {
        assert(e == s.len());
    } else {
        assert(s[e] == '|') by {
            assert(s[e] == s.subrange(i, s.len() as int)[l]);
        }
    }
    lemma_atoms_words(s, i, ws);
    assert(spec_skip_spaces(s, e) == e);
    if stages.len() > 1 {
        let rest = stages.drop_first();
        assert(s.subrange(e + 1, s.len() as int) =~= join_pipeline(rest)) by {
            let jp = join_pipeline(stages);
            assert forall|m: int| 0 <= m < s.len() - (e + 1) implies s.subrange(e + 1, s.len() as int)[m]
                == join_pipeline(rest)[m] by {
                assert(s.subrange(e + 1, s.len() as int)[m] == s.subrange(i, s.len() as int)[l + 1 + m]);
                assert(jp.subrange(l + 1, jp.len() as int)[m] == jp[l + 1 + m]);
            }
        }
        lemma_command_pipeline(s, e + 1, rest);
    }
}

/// Law: plain-word stages joined by `|` parse, as a whole, into the
/// pipeline of those stages, in order.
pub proof fn law_pipeline_parse(stages: Seq<Seq<Seq<char>>>)
    requires
        plain_stages(stages),
    ensures
        spec_command(join_pipeline(stages), 0) == Ok::<(int, SpecCommand), ()>(
            (join_pipeline(stages).len() as int, pipeline_command(stages)),
        ),
{
    let s = join_pipeline(stages);
    assert(s.subrange(0, s.len() as int) =~= s);
    lemma_command_pipeline(s, 0, stages);
}

proof fn lemma_body_plain(s: Seq<char>, start: int, i: int, e: int)
    requires
        0 <= start < e < s.len(),
        start <= i <= e,
        forall|m: int| i <= m < e ==> #[trigger] s[m] != '"' && s[m] != '\\',
        s[e] == '"',
    ensures
        spec_body(s, start, i) == Ok::<(int, Seq<char>), ()>((e, s.subrange(i, e))),
    decreases e - i,
{
    if i < e {
        lemma_body_plain(s, start, i + 1, e);
        assert(seq![s[i]] + s.subrange(i + 1, e) =~= s.subrange(i, e));
    } else {
        assert(s.subrange(i, e) =~= Seq::<char>::empty());
    }
}

/// Law: text without quotes or backslashes, put between quotes, is one
/// argument holding exactly that text, blanks and operators included.
pub proof fn law_quoted_text(s: Seq<char>, i: int, t: Seq<char>)
    requires
        t.len() > 0,
        forall|m: int| 0 <= m < t.len() ==> #[trigger] t[m] != '"' && t[m] != '\\',
        0 <= i,
        i + t.len() + 2 <= s.len(),
        s.subrange(i, i + t.len() + 2) == seq!['"'] + t + seq!['"'],
    ensures
        spec_atom(s, i) == Ok::<(int, Seq<char>), ()>((i + t.len() + 2, t)),
{
    let e = i + 1 + t.len();
    let q = seq!['"'] + t + seq!['"'];
    assert(s[i] == '"') by {
        assert(s[i] == s.subrange(i, i + t.len() + 2)[0]);
    }
    assert(s[e] == '"') by {
        assert(s[e] == s.subrange(i, i + t.len() + 2)[t.len() as int + 1]);
    }
    assert forall|m: int| i + 1 <= m < e implies #[trigger] s[m] != '"' && s[m] != '\\' by {
        assert(s[m] == s.subrange(i, i + t.len() + 2)[m - i]);
        assert(q[m - i] == t[m - i - 1]);
    }
    lemma_body_plain(s, i + 1, i + 1, e);
    assert(s.subrange(i + 1, e) =~= t) by {
        assert forall|m: int| 0 <= m < t.len() implies s.subrange(i + 1, e)[m] == t[m] by {
            assert(s.subrange(i + 1, e)[m] == s.subrange(i, i + t.len() + 2)[m + 1]);
            assert(q[m + 1] == t[m]);
        }
    }
}

/// Law: every stage of a parsed line, piped or redirected, has at least
/// one argument.
pub proof fn law_stages_nonempty(s: Seq<char>, i: int)
    requires
        0 <= i <= s.len(),
    ensures
        spec_command(s, i) matches Ok((_, c)) ==> stages_nonempty(c),
    decreases s.len() - i,
{
    let atoms = spec_atoms(s, i);
    lemma_atoms_bounds(s, i);
    if atoms.1.len() > 0 {
        let k = spec_skip_spaces(s, atoms.0);
        lemma_skip_bounds(s, atoms.0);
        if i <= k && k < s.len() && (s[k] == '|' || s[k] == '>') {
            law_stages_nonempty(s, k + 1);
        }
    }
}

/// How `c` is written inside a quoted string: a backslash before `\` and
/// `"`, `\n`, `\r` and `\t` for line feed, carriage return and tab, and the
/// character itself otherwise.
pub open spec fn escape_char(c: char) -> Seq<char> {
    if c == '\\' {
        seq!['\\', '\\']
    } else if c == '"' {
        seq!['\\', '"']
    } else if c == '\n' {
        seq!['\\', 'n']
    } else if c == '\r' {
        seq!['\\', 'r']
    } else if c == '\t' {
        seq!['\\', 't']
    } else {
        seq![c]
    }
}

/// The text `t` with each character written as [`escape_char`] gives.
pub open spec fn escape_text(t: Seq<char>) -> Seq<char>
    decreases t.len(),
{
    if t.len() == 0 {
        Seq::empty()
    } else {
        escape_char(t[0]) + escape_text(t.drop_first())
    }
}

proof fn lemma_body_escaped(s: Seq<char>, start: int, i: int, t: Seq<char>)
    requires
        0 <= start <= i,
        t.len() > 0 || start < i,
        i + escape_text(t).len() < s.len(),
        forall|m: int| 0 <= m < escape_text(t).len() ==> s[i + m] == #[trigger] escape_text(t)[m],
        s[i + escape_text(t).len()] == '"',
    ensures
        spec_body(s, start, i) == Ok::<(int, Seq<char>), ()>((i + escape_text(t).len(), t)),
    decreases t.len(),
{
    if t.len() == 0 {
        assert(t =~= Seq::<char>::empty());
    } else {
        let c = t[0];
        let e = escape_char(c);
        let rest = t.drop_first();
        let et = escape_text(t);
        let er = escape_text(rest);
        assert(et == e + er);
        let n = e.len() as int;
        assert forall|m: int| 0 <= m < er.len() implies s[i + n + m] == #[trigger] er[m] by {
            assert(et[n + m] == er[m]);
        }
        lemma_body_escaped(s, start, i + n, rest);
        assert(s[i] == et[0]);
        assert(seq![c] + rest =~= t);
        if n == 2 {
            assert(s[i + 1] == et[1]);
            assert(spec_escape(s, i + 1) == Some((i + 2, c)));
        }
    }
}

/// Law: any non-empty text, written with [`escape_text`] between quotes,
/// is read back as exactly that text, whatever follows the closing quote.
pub proof fn law_escaped_text(t: Seq<char>, rest: Seq<char>)
    requires
        t.len() > 0,
    ensures
        ({
            let s = seq!['"'] + escape_text(t) + seq!['"'] + rest;
            let j = escape_text(t).len() as int + 2;
            &&& spec_string_content(s, 0) == Ok::<(int, Seq<char>), ()>((j, t))
            &&& spec_atom(s, 0) == Ok::<(int, Seq<char>), ()>((j, t))
            &&& s.subrange(j, s.len() as int) == rest
        }),
{
    let et = escape_text(t);
    let s = seq!['"'] + et + seq!['"'] + rest;
    let n = et.len() as int;
    assert(et.len() >= escape_char(t[0]).len());
    assert forall|m: int| 0 <= m < et.len() implies s[1 + m] == #[trigger] et[m] by {}
    assert(s[1 + n] == '"');
    lemma_body_escaped(s, 1, 1, t);
    assert(s.subrange(n + 2, s.len() as int) =~= rest);
}

/// Law: every character that does not end a word belongs to one, so any
/// non-empty text without space, tab, carriage return, line feed, `|`, `>`
/// or `<`, and not starting with a quote, is one argument and, alone, a
/// whole command line of that one word.
pub proof fn law_single_word(w: Seq<char>)
    requires
        plain_word(w),
    ensures
        spec_atom(w, 0) == Ok::<(int, Seq<char>), ()>((w.len() as int, w)),
        spec_command(w, 0) == Ok::<(int, SpecCommand), ()>((w.len() as int, SpecCommand::Command(seq![w]))),
{
    let ws = seq![w];
    assert forall|k: int| 0 <= k < ws.len() implies plain_word(#[trigger] ws[k]) by {
        assert(ws[k] == w);
    }
    assert(join_words(ws) == w);
    law_words_parse(ws);
    assert forall|m: int| 0 <= m < w.len() implies is_word_char(#[trigger] w[m]) by {
        assert(!word_stop(w[m]));
    }
    lemma_word_end_run(w, 0, w.len() as int);
    assert(w.subrange(0, w.len() as int) =~= w);
}

/// Whether `c.is_ascii_hexdigit()`: `0`-`9`, `a`-`f` or `A`-`F`.
pub open spec fn ascii_hexdigit(c: char) -> bool {
    ('0' <= c && c <= '9') || ('a' <= c && c <= 'f') || ('A' <= c && c <= 'F')
}

/// The value `u16::from_str_radix(.., 16)` gives the hex digit `c`.
pub open spec fn radix16_digit(c: char) -> int {
    if c <= '9' {
        c as int - 48
    } else if c >= 'a' {
        c as int - 87
    } else {
        c as int - 55
    }
}

/// The value `u16::from_str_radix(.., 16)` gives four hex digits.
pub open spec fn radix16_value(ds: Seq<char>) -> int {
    ((radix16_digit(ds[0]) * 16 + radix16_digit(ds[1])) * 16 + radix16_digit(ds[2])) * 16 + radix16_digit(ds[3])
}

/// The code of the character one UTF-16 unit decodes to: the unit itself,
/// or U+FFFD for a lone surrogate.
pub open spec fn unit_code(v: int) -> int {
    if 0xD800 <= v && v <= 0xDFFF {
        0xFFFD
    } else {
        v
    }
}

/// Law: a `\u` escape of four hex digits, in either case and with the `u`
/// before or after them, stands for the UTF-16 unit that
/// `u16::from_str_radix` reads from the digits.
pub proof fn law_unicode_escape(ds: Seq<char>)
    requires
        ds.len() == 4,
        forall|k: int| 0 <= k < 4 ==> ascii_hexdigit(#[trigger] ds[k]),
    ensures
        spec_string_content(seq!['"', '\\', 'u'] + ds + seq!['"'], 0) matches Ok((j, o))
            && j == 8 && o.len() == 1 && o[0] as u32 == unit_code(radix16_value(ds)),
        spec_string_content(seq!['"', '\\'] + ds + seq!['u', '"'], 0) matches Ok((j, o))
            && j == 8 && o.len() == 1 && o[0] as u32 == unit_code(radix16_value(ds)),
{
    assert(ascii_hexdigit(ds[0]) && ascii_hexdigit(ds[1]) && ascii_hexdigit(ds[2]) && ascii_hexdigit(ds[3]));
    let a = seq!['"', '\\', 'u'] + ds + seq!['"'];
    let b = seq!['"', '\\'] + ds + seq!['u', '"'];
    assert(a[3] == ds[0] && a[4] == ds[1] && a[5] == ds[2] && a[6] == ds[3] && a[7] == '"');
    assert(b[2] == ds[0] && b[3] == ds[1] && b[4] == ds[2] && b[5] == ds[3] && b[6] == 'u' && b[7] == '"');
    assert(hex4(a, 3));
    assert(hex4(b, 2));
    let v = radix16_value(ds);
    assert(hex4_val(a, 3) == v);
    assert(hex4_val(b, 2) == v);
    assert(0 <= v < 0x10000);
    assert(spec_escape(a, 2) == Some((7int, unit_char(v as u32))));
    assert(spec_escape(b, 2) == Some((7int, unit_char(v as u32))));
    assert(spec_body(a, 1, 7) == Ok::<(int, Seq<char>), ()>((7, Seq::<char>::empty())));
    assert(spec_body(b, 1, 7) == Ok::<(int, Seq<char>), ()>((7, Seq::<char>::empty())));
    let ch = unit_char(v as u32);
    assert(seq![ch] + Seq::<char>::empty() =~= seq![ch]);
}

/// Law: a word ends right before a character that ends words, whatever
/// follows.
pub proof fn law_word_ends_at_stop(w: Seq<char>, c: char, rest: Seq<char>)
    requires
        plain_word(w),
        word_stop(c),
    ensures
        spec_atom(w + seq![c] + rest, 0) == Ok::<(int, Seq<char>), ()>((w.len() as int, w)),
{
    let s = w + seq![c] + rest;
    let n = w.len() as int;
    assert forall|m: int| 0 <= m < n implies is_word_char(#[trigger] s[m]) by {
        assert(s[m] == w[m]);
        assert(!word_stop(w[m]));
    }
    assert(s[n] == c);
    lemma_word_end_run(s, 0, n);
    assert(s[0] == w[0]);
    assert(s.subrange(0, n) =~= w);
}

/// The character the one-letter escape `\x` stands for, if `x` is one.
pub open spec fn letter_escape(x: char) -> Option<char> {
    if x == '\\' {
        Some('\\')
    } else if x == '"' {
        Some('"')
    } else if x == '\'' {
        Some('\'')
    } else if x == 'r' {
        Some('\r')
    } else if x == 'n' {
        Some('\n')
    } else if x == 't' {
        Some('\t')
    } else {
        None
    }
}

/// Law: `\\`, `\"`, `\'`, `\r`, `\n` and `\t` between quotes stand for a
/// backslash, a double quote, a single quote, carriage return, line feed
/// and tab.
pub proof fn law_letter_escapes(x: char)
    requires
        letter_escape(x) is Some,
    ensures
        spec_string_content(seq!['"', '\\', x, '"'], 0) == Ok::<(int, Seq<char>), ()>(
            (4, seq![letter_escape(x)->0]),
        ),
{
    let s = seq!['"', '\\', x, '"'];
    assert(spec_escape(s, 2) == Some((3int, letter_escape(x)->0)));
    assert(spec_body(s, 1, 3) == Ok::<(int, Seq<char>), ()>((3, Seq::<char>::empty())));
    assert(seq![letter_escape(x)->0] + Seq::<char>::empty() =~= seq![letter_escape(x)->0]);
}

} // verus!
