//! The recognizers of single tokens, held against the parsers of `nom` that
//! recognize the same tokens, at every position of a set of ASCII inputs.

use nom::bytes::complete::{is_not, tag, tag_no_case, take_while1};
use nom::character::complete::{alpha1, digit1, multispace0, multispace1};
use nom::combinator::{opt, recognize};
use nom::error::Error;
use nom::sequence::{delimited, preceded, tuple};
use nom::IResult;
use sqlit::database::Value;
use sqlit::query::{comma, gap, ident, keyword, quoted_ident, terminator, value};
use sqlit::text::{is_valid_ident, scan, CharClass};

const INPUTS: [&str; 24] = [
    "",
    " ",
    "a",
    "abc def",
    "  \t\r\n x",
    "user_id2,other",
    "_",
    "123abc",
    "12.5 and 7.",
    "0.0.0",
    "9223372036854775807 9223372036854775808",
    "'text' rest",
    "'' 'a''b' 'open",
    "\"quoted\" \"half half\" \"\"",
    "SELECT DISTINCT a , b FROM \"t\" ;",
    "select*from t;",
    "CREATE TABLE IF NOT EXISTS t (id INTEGER PRIMARY KEY AUTOINCREMENT)",
    "name TEXT DEFAULT 'x' NOT NULL UNIQUE",
    "PrImArY kEy",
    "a,b ,c, d  ,  e",
    ";; ; x;",
    "[]{}@`^~-+=<>!?/\\|",
    "KEY key Key kEY ke",
    "x\t\ty\n\nz\r\r",
];

const WORDS: [&str; 8] = ["select", "key", "a", "NOT", "from", "text", "e", "distinct"];

fn chars(s: &str) -> Vec<char> {
    s.chars().collect()
}

fn end_of(input: &str, at: usize, found: IResult<&str, &str>) -> Option<usize> {
    found.ok().map(|(rest, _)| input.len() - rest.len()).map(|end| {
        assert!(end >= at);
        end
    })
}

#[test]
fn identifier_characters_agree() {
    for code in 0u8..128 {
        let c = code as char;
        assert_eq!(is_valid_ident(c), nom::character::is_alphanumeric(code) || c == '_', "{:?}", c);
    }
}

#[test]
fn runs_agree() {
    for input in INPUTS {
        let all = chars(input);
        for at in 0..=input.len() {
            let rest = &input[at..];
            let spaces: IResult<&str, &str> = multispace0::<&str, Error<&str>>(rest);
            assert_eq!(Some(scan(&all, CharClass::Space, at)), end_of(input, at, spaces));
            let gaps: IResult<&str, &str> = multispace1::<&str, Error<&str>>(rest);
            assert_eq!(gap(&all, at), end_of(input, at, gaps));
            let digits: IResult<&str, &str> = digit1::<&str, Error<&str>>(rest);
            let end = scan(&all, CharClass::Digit, at);
            assert_eq!(if end > at { Some(end) } else { None }, end_of(input, at, digits));
            let letters: IResult<&str, &str> = alpha1::<&str, Error<&str>>(rest);
            let end = scan(&all, CharClass::Letter, at);
            assert_eq!(if end > at { Some(end) } else { None }, end_of(input, at, letters));
            let unquoted: IResult<&str, &str> = is_not::<&str, &str, Error<&str>>("'")(rest);
            let end = scan(&all, CharClass::Unquoted, at);
            assert_eq!(if end > at { Some(end) } else { None }, end_of(input, at, unquoted));
        }
    }
}

#[test]
fn identifiers_agree() {
    for input in INPUTS {
        let all = chars(input);
        for at in 0..=input.len() {
            let rest = &input[at..];
            let expected: IResult<&str, &str> =
                take_while1::<_, &str, Error<&str>>(|c: char| is_valid_ident(c))(rest);
            assert_eq!(ident(&all, at), end_of(input, at, expected));
        }
    }
}

#[test]
fn quoted_identifiers_agree() {
    for input in INPUTS {
        let all = chars(input);
        for at in 0..=input.len() {
            let rest = &input[at..];
            let expected: IResult<&str, &str> = delimited(
                opt(tag::<&str, &str, Error<&str>>("\"")),
                take_while1(|c: char| is_valid_ident(c)),
                opt(tag("\"")),
            )(rest);
            let expected = expected.ok().map(|(rest, name)| (name.to_string(), input.len() - rest.len()));
            assert_eq!(quoted_ident(&all, at), expected);
        }
    }
}

#[test]
fn keywords_agree() {
    for input in INPUTS {
        let all = chars(input);
        for word in WORDS {
            for at in 0..=input.len() {
                let rest = &input[at..];
                let expected: IResult<&str, &str> = tag_no_case::<&str, &str, Error<&str>>(word)(rest);
                let expected = expected
                    .ok()
                    .map(|(rest, matched)| (matched.to_ascii_lowercase(), input.len() - rest.len()));
                assert_eq!(keyword(&all, at, word), expected);
            }
        }
    }
}

#[test]
fn commas_and_terminators_agree() {
    for input in INPUTS {
        let all = chars(input);
        for at in 0..=input.len() {
            let rest = &input[at..];
            let expected: IResult<&str, &str> = delimited(
                multispace0::<&str, Error<&str>>,
                tag(","),
                multispace0,
            )(rest);
            assert_eq!(comma(&all, at), end_of(input, at, expected));
            let expected: IResult<&str, Option<&str>> =
                opt(preceded(multispace0::<&str, Error<&str>>, tag(";")))(rest);
            let (rest, _) = expected.unwrap();
            assert_eq!(terminator(&all, at), input.len() - rest.len());
        }
    }
}

#[test]
fn values_agree() {
    for input in INPUTS {
        let all = chars(input);
        for at in 0..=input.len() {
            let rest = &input[at..];
            let text: IResult<&str, &str> = delimited(
                tag::<&str, &str, Error<&str>>("'"),
                is_not("'"),
                tag("'"),
            )(rest);
            let real: IResult<&str, &str> = recognize(tuple((
                digit1::<&str, Error<&str>>,
                tag("."),
                opt(digit1),
            )))(rest);
            let whole: IResult<&str, &str> = digit1::<&str, Error<&str>>(rest);
            let expected = if let Ok((rest, body)) = text {
                Some((Value::Text(body.to_string()), input.len() - rest.len()))
            } else if let Ok((rest, literal)) = real {
                assert!(literal.parse::<f64>().is_ok());
                Some((Value::Real(literal.to_string()), input.len() - rest.len()))
            } else if let Ok((_, digits)) = whole {
                digits.parse::<i64>().ok().map(|n| (Value::Integer(n), at + digits.len()))
            } else {
                None
            };
            assert_eq!(value(&all, at), expected, "{:?} at {}", input, at);
        }
    }
}
