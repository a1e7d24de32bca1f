//! The command-line grammar: words, quoted strings with escapes, and
//! stages joined by `|` (pipe) or `>` (redirect).
//!
//! The grammar is stated as spec functions over the characters of the input
//! and a position in it; each parsing function is proved to follow it.

use vstd::prelude::*;

verus! {

/// `char::from_u32` returns the character with the given code point, and
/// `None` exactly for surrogates and values above `0x10FFFF` (std documents this).
pub assume_specification[ char::from_u32 ](i: u32) -> (r: Option<char>)
    ensures
        r is Some <==> (i < 0xD800 || (0xE000 <= i && i <= 0x10FFFF)),
        r matches Some(c) ==> c as u32 == i,
;

/// A parsed command line.
#[derive(Debug, PartialEq)]
pub enum Command {
    /// A single stage: the program and its arguments.
    Command(Vec<String>),
    /// A stage whose output feeds the rest of the line.
    Pipe(Vec<String>, Box<Command>),
    /// A stage whose output is redirected to the rest of the line.
    Redirect(Vec<String>, Box<Command>),
}

/// The mathematical form of a [`Command`].
pub enum SpecCommand {
    Command(Seq<Seq<char>>),
    Pipe(Seq<Seq<char>>, Box<SpecCommand>),
    Redirect(Seq<Seq<char>>, Box<SpecCommand>),
}

/// A parse that did not match; `input` is the text the failing parser was given.
#[derive(Debug, PartialEq)]
pub struct ParseError {
    pub input: String,
}

pub open spec fn atoms_view(v: Vec<String>) -> Seq<Seq<char>> {
    v@.map_values(|a: String| a@)
}

pub open spec fn command_view(c: Command) -> SpecCommand
    decreases c,
{
    match c {
        Command::Command(a) => SpecCommand::Command(atoms_view(a)),
        Command::Pipe(a, r) => SpecCommand::Pipe(atoms_view(a), Box::new(command_view(*r))),
        Command::Redirect(a, r) => SpecCommand::Redirect(atoms_view(a), Box::new(command_view(*r))),
    }
}

impl View for Command {
    type V = SpecCommand;

    open spec fn view(&self) -> SpecCommand {
        command_view(*self)
    }
}

/// A copy of the words `v`.
pub(crate) fn clone_args(v: &Vec<String>) -> (r: Vec<String>)
    ensures
        atoms_view(r) == atoms_view(*v),
{
    let mut r: Vec<String> = Vec::new();
    let mut i: usize = 0;
    while i < v.len()
        invariant
            i <= v@.len(),
            atoms_view(r) == atoms_view(*v).subrange(0, i as int),
        decreases v@.len() - i,
    {
        let ghost prev = atoms_view(r);
        r.push(v[i].clone());
        assert(atoms_view(r) =~= prev.push(v@[i as int]@));
        i += 1;
        assert(atoms_view(r) =~= atoms_view(*v).subrange(0, i as int));
    }
    assert(atoms_view(r) =~= atoms_view(*v));
    r
}

impl Clone for Command {
    /// A copy of the command, stage by stage.
    fn clone(&self) -> (r: Self)
        ensures
            r@ == self@,
        decreases self,
    {
        match self {
            Command::Command(a) => Command::Command(clone_args(a)),
            Command::Pipe(a, rest) => Command::Pipe(clone_args(a), Box::new((**rest).clone())),
            Command::Redirect(a, rest) => Command::Redirect(clone_args(a), Box::new((**rest).clone())),
        }
    }
}

// ---------------------------------------------------------------------------
// The grammar
// ---------------------------------------------------------------------------

/// Blank characters between words: space, tab, carriage return, line feed.
pub open spec fn is_space(c: char) -> bool {
    c == ' ' || c == '\t' || c == '\r' || c == '\n'
}

/// Characters that may appear in an unquoted word.
pub open spec fn is_word_char(c: char) -> bool {
    !is_space(c) && c != '|' && c != '>' && c != '<'
}

pub open spec fn is_hex(c: char) -> bool {
    ('0' <= c && c <= '9') || ('a' <= c && c <= 'f') || ('A' <= c && c <= 'F')
}

pub open spec fn hex_val(c: char) -> int {
    if '0' <= c && c <= '9' {
        c as int - '0' as int
    } else if 'a' <= c && c <= 'f' {
        c as int - 'a' as int + 10
    } else {
        c as int - 'A' as int + 10
    }
}

/// Four hexadecimal digits start at `i`.
pub open spec fn hex4(s: Seq<char>, i: int) -> bool {
    &&& 0 <= i
    &&& i + 4 <= s.len()
    &&& is_hex(s[i])
    &&& is_hex(s[i + 1])
    &&& is_hex(s[i + 2])
    &&& is_hex(s[i + 3])
}

pub open spec fn hex4_val(s: Seq<char>, i: int) -> int {
    hex_val(s[i]) * 4096 + hex_val(s[i + 1]) * 256 + hex_val(s[i + 2]) * 16 + hex_val(s[i + 3])
}

/// The character for one UTF-16 code unit: surrogates become U+FFFD.
pub open spec fn unit_char(v: u32) -> char {
    if 0xD800 <= v && v <= 0xDFFF {
        '\u{FFFD}'
    } else {
        v as char
    }
}

/// Index of the first non-blank character at or after `i`.
pub open spec fn spec_skip_spaces(s: Seq<char>, i: int) -> int
    decreases s.len() - i,
{
    if 0 <= i < s.len() && is_space(s[i]) {
        spec_skip_spaces(s, i + 1)
    } else {
        i
    }
}

/// Index of the first non-word character at or after `i`.
pub open spec fn spec_word_end(s: Seq<char>, i: int) -> int
    decreases s.len() - i,
{
    if 0 <= i < s.len() && is_word_char(s[i]) {
        spec_word_end(s, i + 1)
    } else {
        i
    }
}

/// The escape sequence that follows a backslash, starting at `i`: the index
/// after it and the character it stands for.
///
/// `\\`, `\"`, `\'`, `\r`, `\n`, `\t`, and a UTF-16 code unit written as
/// `u` followed by four hex digits or four hex digits followed by `u`.
pub open spec fn spec_escape(s: Seq<char>, i: int) -> Option<(int, char)> {
    if !(0 <= i < s.len()) {
        None
    } else {
        let c = s[i];
        if c == '\\' {
            Some((i + 1, '\\'))
        } else if c == '"' {
            Some((i + 1, '"'))
        } else if c == '\'' {
            Some((i + 1, '\''))
        } else if c == 'r' {
            Some((i + 1, '\r'))
        } else if c == 'n' {
            Some((i + 1, '\n'))
        } else if c == 't' {
            Some((i + 1, '\t'))
        } else if c == 'u' {
            if hex4(s, i + 1) {
                Some((i + 5, unit_char(hex4_val(s, i + 1) as u32)))
            } else {
                None
            }
        } else if hex4(s, i) && i + 4 < s.len() && s[i + 4] == 'u' {
            Some((i + 5, unit_char(hex4_val(s, i) as u32)))
        } else {
            None
        }
    }
}

/// The inside of a quoted string, from `i`, where the string's inside began
/// at `start`: ordinary characters and escapes, up to a `"` or the end.
/// It fails on a bad or unfinished escape, and on a `"` right at `start`.
pub open spec fn spec_body(s: Seq<char>, start: int, i: int) -> Result<(int, Seq<char>), ()>
    decreases s.len() - i,
{
    if i < 0 || i >= s.len() {
        Ok((i, Seq::empty()))
    } else if s[i] != '"' && s[i] != '\\' {
        match spec_body(s, start, i + 1) {
            Ok((j, o)) => Ok((j, seq![s[i]] + o)),
            Err(e) => Err(e),
        }
    } else if s[i] == '\\' {
        if i + 1 >= s.len() {
            Err(())
        } else {
            match spec_escape(s, i + 1) {
                Some((k, ch)) => if i < k <= s.len() {
                    match spec_body(s, start, k) {
                        Ok((j, o)) => Ok((j, seq![ch] + o)),
                        Err(e) => Err(e),
                    }
                } else {
                    Err(())
                },
                None => Err(()),
            }
        }
    } else if i == start {
        Err(())
    } else {
        Ok((i, Seq::empty()))
    }
}

/// A non-empty quoted string at `i`.
pub open spec fn spec_string_content(s: Seq<char>, i: int) -> Result<(int, Seq<char>), ()> {
    if 0 <= i < s.len() && s[i] == '"' {
        match spec_body(s, i + 1, i + 1) {
            Ok((j, o)) => if 0 <= j < s.len() && s[j] == '"' {
                Ok((j + 1, o))
            } else {
                Err(())
            },
            Err(e) => Err(e),
        }
    } else {
        Err(())
    }
}

/// The empty quoted string `""` at `i`.
pub open spec fn spec_string_empty(s: Seq<char>, i: int) -> Result<(int, Seq<char>), ()> {
    if 0 <= i && i + 1 < s.len() && s[i] == '"' && s[i + 1] == '"' {
        Ok((i + 2, Seq::empty()))
    } else {
        Err(())
    }
}

/// A quoted string at `i`: a non-empty one, else the empty one.
pub open spec fn spec_string(s: Seq<char>, i: int) -> Result<(int, Seq<char>), ()> {
    match spec_string_content(s, i) {
        Ok(r) => Ok(r),
        Err(_) => spec_string_empty(s, i),
    }
}

/// An unquoted word at `i`: the longest non-empty run of word characters.
pub open spec fn spec_word(s: Seq<char>, i: int) -> Result<(int, Seq<char>), ()> {
    if 0 <= i < s.len() && is_word_char(s[i]) {
        Ok((spec_word_end(s, i), s.subrange(i, spec_word_end(s, i))))
    } else {
        Err(())
    }
}

/// One argument at `i`: a quoted string, else an unquoted word.
pub open spec fn spec_atom(s: Seq<char>, i: int) -> Result<(int, Seq<char>), ()> {
    match spec_string(s, i) {
        Ok(r) => Ok(r),
        Err(_) => spec_word(s, i),
    }
}

/// The arguments from `i` on, each after optional blanks, as many as match;
/// the index after the last one (or `i` when none matches) and the list.
pub open spec fn spec_atoms(s: Seq<char>, i: int) -> (int, Seq<Seq<char>>)
    decreases s.len() - i,
{
    let k = spec_skip_spaces(s, i);
    match spec_atom(s, k) {
        Ok((j, a)) => if i < j <= s.len() {
            let rest = spec_atoms(s, j);
            (rest.0, seq![a] + rest.1)
        } else {
            (i, Seq::empty())
        },
        Err(_) => (i, Seq::empty()),
    }
}

/// A command line at `i`: at least one argument, then optional blanks, then
/// optionally `|` or `>` followed by a further command line. When what
/// follows the operator does not parse, the operator is left unconsumed.
pub open spec fn spec_command(s: Seq<char>, i: int) -> Result<(int, SpecCommand), ()>
    decreases s.len() - i,
{
    let atoms = spec_atoms(s, i);
    if atoms.1.len() == 0 {
        Err(())
    } else {
        let k = spec_skip_spaces(s, atoms.0);
        if i <= k && k < s.len() && (s[k] == '|' || s[k] == '>') {
            match spec_command(s, k + 1) {
                Ok((j, c)) => if s[k] == '|' {
                    Ok((j, SpecCommand::Pipe(atoms.1, Box::new(c))))
                } else {
                    Ok((j, SpecCommand::Redirect(atoms.1, Box::new(c))))
                },
                Err(_) => Ok((k, SpecCommand::Command(atoms.1))),
            }
        } else {
            Ok((k, SpecCommand::Command(atoms.1)))
        }
    }
}


// ---------------------------------------------------------------------------
// Facts about the grammar
// ---------------------------------------------------------------------------

pub(crate) proof fn lemma_skip_bounds(s: Seq<char>, i: int)
    requires
        0 <= i <= s.len(),
    ensures
        i <= spec_skip_spaces(s, i) <= s.len(),
    decreases s.len() - i,
{
    if i < s.len() && is_space(s[i]) {
        lemma_skip_bounds(s, i + 1);
    }
}

pub(crate) proof fn lemma_word_end_bounds(s: Seq<char>, i: int)
    requires
        0 <= i <= s.len(),
    ensures
        i <= spec_word_end(s, i) <= s.len(),
    decreases s.len() - i,
{
    if i < s.len() && is_word_char(s[i]) {
        lemma_word_end_bounds(s, i + 1);
    }
}

pub(crate) proof fn lemma_body_bounds(s: Seq<char>, start: int, i: int)
    requires
        0 <= i <= s.len(),
    ensures
        spec_body(s, start, i) matches Ok((j, _)) ==> i <= j <= s.len(),
    decreases s.len() - i,
{
    if i < s.len() {
        if s[i] != '"' && s[i] != '\\' {
            lemma_body_bounds(s, start, i + 1);
        } else if s[i] == '\\' && i + 1 < s.len() {
            if let Some((k, _)) = spec_escape(s, i + 1) {
                if i < k <= s.len() {
                    lemma_body_bounds(s, start, k);
                }
            }
        }
    }
}

/// A matched argument is never empty text: it consumes at least one character.
pub(crate) proof fn lemma_atom_bounds(s: Seq<char>, i: int)
    requires
        0 <= i,
    ensures
        spec_atom(s, i) matches Ok((j, _)) ==> i < j <= s.len(),
{
    if 0 <= i < s.len() && s[i] == '"' {
        lemma_body_bounds(s, i + 1, i + 1);
    }
    if 0 <= i < s.len() {
        lemma_word_end_bounds(s, i);
        if is_word_char(s[i]) {
            lemma_word_end_bounds(s, i + 1);
        }
    }
}

pub(crate) proof fn lemma_atoms_bounds(s: Seq<char>, i: int)
    requires
        0 <= i <= s.len(),
    ensures
        i <= spec_atoms(s, i).0 <= s.len(),
        spec_atoms(s, i).1.len() > 0 ==> i < spec_atoms(s, i).0,
    decreases s.len() - i,
{
    let k = spec_skip_spaces(s, i);
    lemma_skip_bounds(s, i);
    lemma_atom_bounds(s, k);
    if let Ok((j, a)) = spec_atom(s, k) {
        if i < j <= s.len() {
            lemma_atoms_bounds(s, j);
        }
    }
}

pub(crate) proof fn lemma_command_bounds(s: Seq<char>, i: int)
    requires
        0 <= i <= s.len(),
    ensures
        spec_command(s, i) matches Ok((j, _)) ==> i < j <= s.len(),
    decreases s.len() - i,
{
    let atoms = spec_atoms(s, i);
    lemma_atoms_bounds(s, i);
    if atoms.1.len() > 0 {
        let k = spec_skip_spaces(s, atoms.0);
        lemma_skip_bounds(s, atoms.0);
        if i <= k && k < s.len() && (s[k] == '|' || s[k] == '>') {
            lemma_command_bounds(s, k + 1);
        }
    }
}

// ---------------------------------------------------------------------------
// Parsing over a vector of characters
// ---------------------------------------------------------------------------

/// The executable result `r` agrees with the grammar's result `g`.
pub open spec fn text_result_is(r: Result<(usize, String), ()>, g: Result<(int, Seq<char>), ()>) -> bool {
    match g {
        Ok((j, o)) => r matches Ok((j2, out)) && j2 == j && out@ == o,
        Err(_) => r is Err,
    }
}

pub open spec fn command_result_is(r: Result<(usize, Command), ()>, g: Result<(int, SpecCommand), ()>) -> bool {
    match g {
        Ok((j, c)) => r matches Ok((j2, cmd)) && j2 == j && cmd@ == c,
        Err(_) => r is Err,
    }
}

pub open spec fn prepend_out(p: Seq<char>, r: Result<(int, Seq<char>), ()>) -> Result<(int, Seq<char>), ()> {
    match r {
        Ok((j, o)) => Ok((j, p + o)),
        Err(e) => Err(e),
    }
}

proof fn lemma_prepend_push(p: Seq<char>, c: char, r: Result<(int, Seq<char>), ()>)
    ensures
        prepend_out(p, prepend_out(seq![c], r)) == prepend_out(p.push(c), r),
{
    if let Ok((j, o)) = r {
        assert(p + (seq![c] + o) =~= p.push(c) + o);
    }
}

fn is_space_char(c: char) -> (r: bool)
    ensures
        r == is_space(c),
{
    c == ' ' || c == '\t' || c == '\r' || c == '\n'
}

fn is_word_character(c: char) -> (r: bool)
    ensures
        r == is_word_char(c),
{
    !is_space_char(c) && c != '|' && c != '>' && c != '<'
}

fn skip_spaces(cs: &Vec<char>, i: usize) -> (k: usize)
    requires
        i <= cs@.len(),
    ensures
        k == spec_skip_spaces(cs@, i as int),
        i <= k <= cs@.len(),
{
    let mut k = i;
    while k < cs.len() && is_space_char(cs[k])
        invariant
            i <= k <= cs@.len(),
            spec_skip_spaces(cs@, i as int) == spec_skip_spaces(cs@, k as int),
        decreases cs@.len() - k,
    {
        k += 1;
    }
    k
}

fn word_end(cs: &Vec<char>, i: usize) -> (k: usize)
    requires
        i <= cs@.len(),
    ensures
        k == spec_word_end(cs@, i as int),
        i <= k <= cs@.len(),
{
    let mut k = i;
    while k < cs.len() && is_word_character(cs[k])
        invariant
            i <= k <= cs@.len(),
            spec_word_end(cs@, i as int) == spec_word_end(cs@, k as int),
        decreases cs@.len() - k,
    {
        k += 1;
    }
    k
}

fn hex_digit(c: char) -> (r: Option<u32>)
    ensures
        r is Some <==> is_hex(c),
        r matches Some(v) ==> v == hex_val(c) && v < 16,
{
    if '0' <= c && c <= '9' {
        Some((c as u32) - ('0' as u32))
    } else if 'a' <= c && c <= 'f' {
        Some((c as u32) - ('a' as u32) + 10)
    } else if 'A' <= c && c <= 'F' {
        Some((c as u32) - ('A' as u32) + 10)
    } else {
        None
    }
}

fn hex4_at(cs: &Vec<char>, i: usize) -> (r: Option<u32>)
    requires
        i <= cs@.len(),
    ensures
        r is Some <==> hex4(cs@, i as int),
        r matches Some(v) ==> v == hex4_val(cs@, i as int) && v < 0x10000,
{
    if cs.len() < 4 || i > cs.len() - 4 {
        return None;
    }
    let a = hex_digit(cs[i]);
    let b = hex_digit(cs[i + 1]);
    let c = hex_digit(cs[i + 2]);
    let d = hex_digit(cs[i + 3]);
    match (a, b, c, d) {
        (Some(a), Some(b), Some(c), Some(d)) => Some(a * 4096 + b * 256 + c * 16 + d),
        _ => None,
    }
}

fn decode_unit(v: u32) -> (c: char)
    requires
        v < 0x10000,
    ensures
        c == unit_char(v),
{
    if 0xD800 <= v && v <= 0xDFFF {
        '\u{FFFD}'
    } else {
        match char::from_u32(v) {
            Some(c) => {
                proof {
                    vstd::utf8::char_u32_cast(c, v);
                }
                c
            },
            None => '\u{FFFD}',
        }
    }
}

fn escape(cs: &Vec<char>, i: usize) -> (r: Option<(usize, char)>)
    requires
        i <= cs@.len(),
    ensures
        match spec_escape(cs@, i as int) {
            Some((k, ch)) => r matches Some((k2, ch2)) && k2 == k && ch2 == ch,
            None => r is None,
        },
{
    if i >= cs.len() {
        return None;
    }
    let c = cs[i];
    if c == '\\' {
        Some((i + 1, '\\'))
    } else if c == '"' {
        Some((i + 1, '"'))
    } else if c == '\'' {
        Some((i + 1, '\''))
    } else if c == 'r' {
        Some((i + 1, '\r'))
    } else if c == 'n' {
        Some((i + 1, '\n'))
    } else if c == 't' {
        Some((i + 1, '\t'))
    } else if c == 'u' {
        match hex4_at(cs, i + 1) {
            Some(v) => Some((i + 5, decode_unit(v))),
            None => None,
        }
    } else {
        match hex4_at(cs, i) {
            Some(v) => if i + 4 < cs.len() && cs[i + 4] == 'u' {
                Some((i + 5, decode_unit(v)))
            } else {
                None
            },
            None => None,
        }
    }
}

fn body_at(cs: &Vec<char>, start: usize) -> (r: Result<(usize, String), ()>)
    requires
        start <= cs@.len(),
    ensures
        text_result_is(r, spec_body(cs@, start as int, start as int)),
{
    let mut out = String::new();
    let mut i = start;
    assert(prepend_out(out@, spec_body(cs@, start as int, start as int)) == spec_body(
        cs@,
        start as int,
        start as int,
    )) by {
        if let Ok((j, o)) = spec_body(cs@, start as int, start as int) {
            assert(out@ + o =~= o);
        }
    }
    while i < cs.len()
        invariant
            start <= i <= cs@.len(),
            spec_body(cs@, start as int, start as int) == prepend_out(
                out@,
                spec_body(cs@, start as int, i as int),
            ),
        decreases cs@.len() - i,
    {
        let c = cs[i];
        if c != '"' && c != '\\' {
            proof {
                lemma_prepend_push(out@, c, spec_body(cs@, start as int, i + 1));
            }
            out.push(c);
            i += 1;
        } else if c == '\\' {
            if i + 1 >= cs.len() {
                return Err(());
            }
            match escape(cs, i + 1) {
                Some((k, ch)) => {
                    proof {
                        lemma_prepend_push(out@, ch, spec_body(cs@, start as int, k as int));
                    }
                    out.push(ch);
                    i = k;
                },
                None => {
                    return Err(());
                },
            }
        } else {
            if i == start {
                return Err(());
            }
            proof {
                assert(out@ + Seq::<char>::empty() =~= out@);
            }
            return Ok((i, out));
        }
    }
    proof {
        assert(out@ + Seq::<char>::empty() =~= out@);
    }
    Ok((i, out))
}

fn string_content_at(cs: &Vec<char>, i: usize) -> (r: Result<(usize, String), ()>)
    requires
        i <= cs@.len(),
    ensures
        text_result_is(r, spec_string_content(cs@, i as int)),
{
    if i < cs.len() && cs[i] == '"' {
        match body_at(cs, i + 1) {
            Ok((j, out)) => {
                proof {
                    lemma_body_bounds(cs@, i + 1, i + 1);
                }
                if j < cs.len() && cs[j] == '"' {
                    Ok((j + 1, out))
                } else {
                    Err(())
                }
            },
            Err(()) => Err(()),
        }
    } else {
        Err(())
    }
}

fn string_empty_at(cs: &Vec<char>, i: usize) -> (r: Result<(usize, String), ()>)
    requires
        i <= cs@.len(),
    ensures
        text_result_is(r, spec_string_empty(cs@, i as int)),
{
    if cs.len() >= 2 && i < cs.len() - 1 && cs[i] == '"' && cs[i + 1] == '"' {
        Ok((i + 2, String::new()))
    } else {
        Err(())
    }
}

fn string_at(cs: &Vec<char>, i: usize) -> (r: Result<(usize, String), ()>)
    requires
        i <= cs@.len(),
    ensures
        text_result_is(r, spec_string(cs@, i as int)),
{
    match string_content_at(cs, i) {
        Ok(r) => Ok(r),
        Err(()) => string_empty_at(cs, i),
    }
}

fn word_at(cs: &Vec<char>, i: usize) -> (r: Result<(usize, String), ()>)
    requires
        i <= cs@.len(),
    ensures
        text_result_is(r, spec_word(cs@, i as int)),
{
    if i < cs.len() && is_word_character(cs[i]) {
        let e = word_end(cs, i);
        let mut out = String::new();
        let mut k = i;
        while k < e
            invariant
                i <= k <= e <= cs@.len(),
                out@ == cs@.subrange(i as int, k as int),
            decreases e - k,
        {
            out.push(cs[k]);
            k += 1;
            assert(out@ =~= cs@.subrange(i as int, k as int));
        }
        Ok((e, out))
    } else {
        Err(())
    }
}

fn atom_at(cs: &Vec<char>, i: usize) -> (r: Result<(usize, String), ()>)
    requires
        i <= cs@.len(),
    ensures
        text_result_is(r, spec_atom(cs@, i as int)),
{
    match string_at(cs, i) {
        Ok(r) => Ok(r),
        Err(()) => word_at(cs, i),
    }
}

fn atoms_at(cs: &Vec<char>, i: usize) -> (r: (usize, Vec<String>))
    requires
        i <= cs@.len(),
    ensures
        r.0 == spec_atoms(cs@, i as int).0,
        atoms_view(r.1) == spec_atoms(cs@, i as int).1,
{
    let mut acc: Vec<String> = Vec::new();
    let mut cur = i;
    proof {
        assert(atoms_view(acc) + spec_atoms(cs@, i as int).1 =~= spec_atoms(cs@, i as int).1);
    }
    loop
        invariant
            i <= cur <= cs@.len(),
            spec_atoms(cs@, i as int).0 == spec_atoms(cs@, cur as int).0,
            spec_atoms(cs@, i as int).1 == atoms_view(acc) + spec_atoms(cs@, cur as int).1,
        decreases cs@.len() - cur,
    {
        let k = skip_spaces(cs, cur);
        match atom_at(cs, k) {
            Ok((j, a)) => {
                proof {
                    lemma_atom_bounds(cs@, k as int);
                    let rest = spec_atoms(cs@, j as int);
                    assert(atoms_view(acc) + (seq![a@] + rest.1) =~= atoms_view(acc).push(a@) + rest.1);
                }
                let ghost prev = atoms_view(acc);
                acc.push(a);
                assert(atoms_view(acc) =~= prev.push(a@));
                cur = j;
            },
            Err(()) => {
                proof {
                    assert(atoms_view(acc) + Seq::<Seq<char>>::empty() =~= atoms_view(acc));
                }
                return (cur, acc);
            },
        }
    }
}

fn command_at(cs: &Vec<char>, i: usize) -> (r: Result<(usize, Command), ()>)
    requires
        i <= cs@.len(),
    ensures
        command_result_is(r, spec_command(cs@, i as int)),
    decreases cs@.len() - i,
{
    let (e, atoms) = atoms_at(cs, i);
    if atoms.len() == 0 {
        return Err(());
    }
    proof {
        lemma_atoms_bounds(cs@, i as int);
    }
    let k = skip_spaces(cs, e);
    if k < cs.len() && (cs[k] == '|' || cs[k] == '>') {
        match command_at(cs, k + 1) {
            Ok((j, c)) => {
                if cs[k] == '|' {
                    Ok((j, Command::Pipe(atoms, Box::new(c))))
                } else {
                    Ok((j, Command::Redirect(atoms, Box::new(c))))
                }
            },
            Err(()) => Ok((k, Command::Command(atoms))),
        }
    } else {
        Ok((k, Command::Command(atoms)))
    }
}

// ---------------------------------------------------------------------------
// Parsing a string
// ---------------------------------------------------------------------------

fn chars_of(s: &str) -> (v: Vec<char>)
    ensures
        v@ == s@,
{
    let mut v: Vec<char> = Vec::new();
    for c in it: s.chars()
        invariant
            it.seq() == s@,
            v@ == s@.subrange(0, it.index() as int),
    {
        v.push(c);
        assert(v@ =~= s@.subrange(0, it.index() + 1));
    }
    assert(v@ =~= s@);
    v
}

/// The characters of `s` from index `j` on, as a new string.
fn rest_of(s: &str, j: usize) -> (r: String)
    requires
        j <= s@.len(),
    ensures
        r@ == s@.subrange(j as int, s@.len() as int),
{
    let n = s.unicode_len();
    s.substring_char(j, n).to_owned()
}

fn error_at(s: &str) -> (e: ParseError)
    ensures
        e.input@ == s@,
{
    ParseError { input: s.to_owned() }
}

/// What a public parsing function returns for the grammar's result `g` on `s`:
/// on a match, the unconsumed rest of `s` and the parsed text; otherwise an
/// error that holds `s`.
pub open spec fn text_parse_is(
    r: Result<(String, String), ParseError>,
    s: Seq<char>,
    g: Result<(int, Seq<char>), ()>,
) -> bool {
    match g {
        Ok((j, o)) => r matches Ok((rest, out)) && rest@ == s.subrange(j, s.len() as int) && out@
            == o,
        Err(_) => r matches Err(e) && e.input@ == s,
    }
}

fn text_parse(s: &str, cs: &Vec<char>, r: Result<(usize, String), ()>, Ghost(g): Ghost<Result<(int, Seq<char>), ()>>) -> (res: Result<(String, String), ParseError>)
    requires
        cs@ == s@,
        text_result_is(r, g),
        g matches Ok((j, _)) ==> 0 <= j <= s@.len(),
    ensures
        text_parse_is(res, s@, g),
{
    match r {
        Ok((j, out)) => Ok((rest_of(s, j), out)),
        Err(()) => Err(error_at(s)),
    }
}

/// Parses a command line at the start of `s`, returning the unparsed rest
/// and the command.
///
/// A line is one or more arguments separated by blanks, optionally followed
/// by `|` or `>` and a further line. An argument is a quoted string, in
/// which backslash escapes are decoded, or else a run of characters other
/// than blanks and `|`, `>`, `<`.
pub fn command(s: &str) -> (r: Result<(String, Command), ParseError>)
    ensures
        match spec_command(s@, 0) {
            Ok((j, c)) => r matches Ok((rest, cmd)) && rest@ == s@.subrange(j, s@.len() as int)
                && cmd@ == c,
            Err(_) => r matches Err(e) && e.input@ == s@,
        },
{
    let cs = chars_of(s);
    proof {
        lemma_command_bounds(s@, 0);
    }
    match command_at(&cs, 0) {
        Ok((j, c)) => Ok((rest_of(s, j), c)),
        Err(()) => Err(error_at(s)),
    }
}

/// Parses a whole command line: succeeds exactly when [`command`] matches
/// all of `s`. When a command matches but text is left over, the error holds
/// the left-over text.
pub fn command_all_consuming(s: &str) -> (r: Result<(String, Command), ParseError>)
    ensures
        match spec_command(s@, 0) {
            Ok((j, c)) => if j == s@.len() {
                r matches Ok((rest, cmd)) && rest@ == Seq::<char>::empty() && cmd@ == c
            } else {
                r matches Err(e) && e.input@ == s@.subrange(j, s@.len() as int)
            },
            Err(_) => r matches Err(e) && e.input@ == s@,
        },
{
    proof {
        lemma_command_bounds(s@, 0);
    }
    match command(s) {
        Ok((rest, c)) => {
            if rest.as_str().unicode_len() == 0 {
                Ok((rest, c))
            } else {
                Err(ParseError { input: rest })
            }
        },
        Err(e) => Err(e),
    }
}

/// Parses one argument at the start of `s`: a quoted string, else an
/// unquoted word.
pub fn atom(s: &str) -> (r: Result<(String, String), ParseError>)
    ensures
        text_parse_is(r, s@, spec_atom(s@, 0)),
{
    let cs = chars_of(s);
    proof {
        lemma_atom_bounds(s@, 0);
    }
    let r = atom_at(&cs, 0);
    text_parse(s, &cs, r, Ghost(spec_atom(s@, 0)))
}

/// Parses a quoted string at the start of `s`: a non-empty one, else `""`.
pub fn string(s: &str) -> (r: Result<(String, String), ParseError>)
    ensures
        text_parse_is(r, s@, spec_string(s@, 0)),
{
    let cs = chars_of(s);
    proof {
        lemma_atom_bounds(s@, 0);
    }
    let r = string_at(&cs, 0);
    text_parse(s, &cs, r, Ghost(spec_string(s@, 0)))
}

/// Parses a non-empty quoted string at the start of `s`, decoding escapes.
pub fn string_content(s: &str) -> (r: Result<(String, String), ParseError>)
    ensures
        text_parse_is(r, s@, spec_string_content(s@, 0)),
{
    let cs = chars_of(s);
    proof {
        lemma_atom_bounds(s@, 0);
    }
    let r = string_content_at(&cs, 0);
    text_parse(s, &cs, r, Ghost(spec_string_content(s@, 0)))
}

/// Parses the empty quoted string `""` at the start of `s`.
pub fn string_empty(s: &str) -> (r: Result<(String, String), ParseError>)
    ensures
        text_parse_is(r, s@, spec_string_empty(s@, 0)),
{
    let cs = chars_of(s);
    let r = string_empty_at(&cs, 0);
    text_parse(s, &cs, r, Ghost(spec_string_empty(s@, 0)))
}

} // verus!
