use cxsh::parser::{atom, command, command_all_consuming, string, string_content, string_empty, Command};

use nom::branch::{alt, permutation};
use nom::bytes::complete::{escaped_transform, tag, take_while_m_n};
use nom::character::complete::{char, multispace0, none_of};
use nom::combinator::{all_consuming, opt, value};
use nom::error::VerboseError;
use nom::multi::many1;
use nom::sequence::{delimited, tuple};
use nom::IResult;
use std::char::{decode_utf16, REPLACEMENT_CHARACTER};

// The same grammar written with nom's combinators; the tests below check that both agree.

fn nom_command(s: &str) -> IResult<&str, Command, VerboseError<&str>> {
    nom::combinator::map(
        tuple((
            many1(nom::combinator::map(tuple((multispace0, nom_atom)), |(_, a)| a)),
            multispace0,
            opt(tuple((alt((tag("|"), tag(">"))), nom_command))),
        )),
        |(atoms, _, rest)| match rest {
            Some((op, c)) => {
                if op == "|" {
                    Command::Pipe(atoms, Box::new(c))
                } else {
                    Command::Redirect(atoms, Box::new(c))
                }
            }
            None => Command::Command(atoms),
        },
    )(s)
}

fn nom_atom(s: &str) -> IResult<&str, String, VerboseError<&str>> {
    alt((
        nom_string,
        nom::combinator::map(many1(none_of(" \t\r\n|><")), |v: Vec<char>| v.into_iter().collect()),
    ))(s)
}

fn nom_string(s: &str) -> IResult<&str, String, VerboseError<&str>> {
    alt((nom_string_content, nom_string_empty))(s)
}

fn decode(code: &str) -> char {
    decode_utf16(vec![u16::from_str_radix(code, 16).unwrap()])
        .nth(0)
        .unwrap()
        .unwrap_or(REPLACEMENT_CHARACTER)
}

fn nom_string_content(s: &str) -> IResult<&str, String, VerboseError<&str>> {
    delimited(
        char('"'),
        escaped_transform(
            none_of("\"\\"),
            '\\',
            alt((
                value('\\', char('\\')),
                value('\"', char('\"')),
                value('\'', char('\'')),
                value('\r', char('r')),
                value('\n', char('n')),
                value('\t', char('t')),
                nom::combinator::map(
                    permutation((char('u'), take_while_m_n(4, 4, |c: char| c.is_ascii_hexdigit()))),
                    |(_, code): (char, &str)| decode(code),
                ),
            )),
        ),
        char('"'),
    )(s)
}

fn nom_string_empty(s: &str) -> IResult<&str, String, VerboseError<&str>> {
    nom::combinator::map(tuple((char('"'), char('"'))), |(_, _)| String::new())(s)
}

fn words(ws: &[&str]) -> Vec<String> {
    ws.iter().map(|w| w.to_string()).collect()
}

fn check_command_agrees(s: &str) {
    let ours = command(s);
    let theirs = nom_command(s);
    match (ours, theirs) {
        (Ok((rest, c)), Ok((nrest, nc))) => {
            assert_eq!(rest, nrest, "rest differs on {:?}", s);
            assert_eq!(c, nc, "command differs on {:?}", s);
        }
        (Err(e), Err(_)) => assert_eq!(e.input, s),
        (a, b) => panic!("disagree on {:?}: {:?} vs {:?}", s, a, b.map(|(r, c)| (r.to_string(), c))),
    }
    let ours_all = command_all_consuming(s);
    let theirs_all = all_consuming(nom_command)(s);
    assert_eq!(ours_all.is_ok(), theirs_all.is_ok(), "all-consuming differs on {:?}", s);
    for (ours, theirs) in [
        (atom(s), nom_atom(s)),
        (string(s), nom_string(s)),
        (string_content(s), nom_string_content(s)),
        (string_empty(s), nom_string_empty(s)),
    ] {
        match (ours, theirs) {
            (Ok((rest, v)), Ok((nrest, nv))) => {
                assert_eq!(rest, nrest, "rest differs on {:?}", s);
                assert_eq!(v, nv, "value differs on {:?}", s);
            }
            (Err(_), Err(_)) => {}
            (a, b) => panic!("disagree on {:?}: {:?} vs {:?}", s, a, b.map(|(r, v)| (r.to_string(), v))),
        }
    }
}

#[test]
fn simple_words() {
    let (rest, c) = command("ls -l /tmp").unwrap();
    assert_eq!(rest, "");
    assert_eq!(c, Command::Command(words(&["ls", "-l", "/tmp"])));
}

#[test]
fn leading_and_trailing_blanks() {
    let (rest, c) = command("  echo\thi  \n").unwrap();
    assert_eq!(rest, "");
    assert_eq!(c, Command::Command(words(&["echo", "hi"])));
}

#[test]
fn pipe_and_redirect() {
    let (rest, c) = command("cat a | grep b > out").unwrap();
    assert_eq!(rest, "");
    assert_eq!(
        c,
        Command::Pipe(
            words(&["cat", "a"]),
            Box::new(Command::Redirect(words(&["grep", "b"]), Box::new(Command::Command(words(&["out"]))))),
        )
    );
}

#[test]
fn dangling_pipe_is_left_unconsumed() {
    let (rest, c) = command("ls | ").unwrap();
    assert_eq!(rest, "| ");
    assert_eq!(c, Command::Command(words(&["ls"])));
    assert!(command_all_consuming("ls | ").is_err());
    assert_eq!(command_all_consuming("ls | ").unwrap_err().input, "| ");
}

#[test]
fn input_redirection_stops_the_parse() {
    let (rest, c) = command("sort < file").unwrap();
    assert_eq!(rest, "< file");
    assert_eq!(c, Command::Command(words(&["sort"])));
}

#[test]
fn empty_and_blank_lines_fail() {
    assert_eq!(command("").unwrap_err().input, "");
    assert_eq!(command("   ").unwrap_err().input, "   ");
    assert!(command("|").is_err());
}

#[test]
fn quoted_strings_and_escapes() {
    let (rest, c) = command(r#"echo "a b" "" "x\ty\n" "\"q\"" '\''"#).unwrap();
    assert_eq!(rest, "");
    assert_eq!(
        c,
        Command::Command(vec![
            "echo".to_string(),
            "a b".to_string(),
            "".to_string(),
            "x\ty\n".to_string(),
            "\"q\"".to_string(),
            "'\\''".to_string(),
        ])
    );
}

#[test]
fn unicode_escapes_both_orders_and_surrogates() {
    assert_eq!(string_content(r#""\u0041""#).unwrap(), (String::new(), "A".to_string()));
    assert_eq!(string_content(r#""\00e9u""#).unwrap(), (String::new(), "é".to_string()));
    assert_eq!(string_content(r#""\ud800""#).unwrap(), (String::new(), "\u{FFFD}".to_string()));
    assert_eq!(string_content(r#""\u12345""#).unwrap(), (String::new(), "\u{1234}5".to_string()));
    assert!(string_content(r#""\u12""#).is_err());
    assert!(string_content(r#""\q""#).is_err());
}

#[test]
fn bad_quotes_fall_back_to_words() {
    assert_eq!(atom(r#""abc"#).unwrap(), (String::new(), "\"abc".to_string()));
    assert_eq!(atom(r#""\q" x"#).unwrap(), (" x".to_string(), "\"\\q\"".to_string()));
    assert_eq!(atom(r#""a"b"#).unwrap(), ("b".to_string(), "a".to_string()));
    let (_, c) = command(r#""a"b"#).unwrap();
    assert_eq!(c, Command::Command(words(&["a", "b"])));
}

#[test]
fn string_empty_only_matches_two_quotes() {
    assert_eq!(string_empty(r#""" rest"#).unwrap(), (" rest".to_string(), String::new()));
    assert!(string_empty(r#""a""#).is_err());
    assert!(string_content(r#""""#).is_err());
    assert_eq!(string(r#""""#).unwrap(), (String::new(), String::new()));
}

#[test]
fn all_consuming_accepts_whole_lines() {
    let (rest, c) = command_all_consuming("a | b").unwrap();
    assert_eq!(rest, "");
    assert_eq!(c, Command::Pipe(words(&["a"]), Box::new(Command::Command(words(&["b"])))));
}

#[test]
fn agrees_with_nom_grammar_on_samples() {
    let samples = [
        "", " ", "a", "a b", "a|b", "a | b | c", "a > b", "a >", "a |", "|", ">", "<", "a<b",
        "\"\"", "\"\" x", "\"a", "\"\\", "\"\\\"", "\"\\\\\"", "\"\\u0041\"", "\"\\0041u\"",
        "\"\\d800u\"", "\"\\uu\"", "\"a\"\"b\"", "é ü", "\"é\\n\"", "a\r\nb", "x\"y\"z",
        "\"a b\" | \"c\\t\" > \"\"",
    ];
    for s in samples.iter() {
        check_command_agrees(s);
    }
}

#[test]
fn agrees_with_nom_grammar_on_generated_lines() {
    let alphabet = [
        'a', 'b', ' ', '"', '\\', '|', '>', '<', 'u', '1', 'n', '\t', 'é', 'd', '8', '0', 'f', 't', '\'',
    ];
    let mut seed: u64 = 0x2545_F491_4F6C_DD1D;
    for _ in 0..4000 {
        seed = seed.wrapping_mul(6364136223846793005).wrapping_add(1442695040888963407);
        let len = (seed >> 33) % 14;
        let mut s = String::new();
        for _ in 0..len {
            seed = seed.wrapping_mul(6364136223846793005).wrapping_add(1442695040888963407);
            s.push(alphabet[((seed >> 33) % alphabet.len() as u64) as usize]);
        }
        check_command_agrees(&s);
    }
}

#[test]
fn command_clone() {
    let (_, c) = command("cat a | grep \"b c\" > out").unwrap();
    let d = c.clone();
    assert_eq!(c, d);
}

fn escape_text(t: &str) -> String {
    t.chars()
        .map(|c| match c {
            '\\' => "\\\\".to_string(),
            '"' => "\\\"".to_string(),
            '\n' => "\\n".to_string(),
            '\r' => "\\r".to_string(),
            '\t' => "\\t".to_string(),
            c => c.to_string(),
        })
        .collect()
}

#[test]
fn escaped_text_reads_back() {
    for t in ["a\\b\"c\nd\re\tf g|h", "\"", "\\", "x", "é ü < >"] {
        let s = format!("\"{}\" rest", escape_text(t));
        assert_eq!(string_content(&s).unwrap(), (" rest".to_string(), t.to_string()));
        assert_eq!(atom(&s).unwrap(), (" rest".to_string(), t.to_string()));
    }
}

#[test]
fn blanks_before_a_line_change_nothing() {
    for s in ["ls -l", "a | b > c", "\"x y\" z < f", "| bad", "", "a |"] {
        for w in ["", " ", " \t\r\n "] {
            match (command(&format!("{}{}", w, s)), command(s)) {
                (Ok(a), Ok(b)) => assert_eq!(a, b),
                (Err(_), Err(_)) => {}
                (a, b) => panic!("{:?} vs {:?}", a, b),
            }
        }
    }
}

#[test]
fn blanks_after_a_whole_line_are_taken_in() {
    for s in ["ls -l", "a | b > c", "\"x y\" z", "x\"y\""] {
        let (_, c) = command_all_consuming(s).unwrap();
        for w in [" ", "\t\r\n", "  \n"] {
            let (rest, d) = command(&format!("{}{}", s, w)).unwrap();
            assert_eq!(rest, "");
            assert_eq!(c, d);
        }
    }
    // a line that stops early stops at the same place
    let (rest, _) = command("sort < f  ").unwrap();
    assert_eq!(rest, "< f  ");
}
