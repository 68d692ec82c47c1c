//! The lexer's structural rules, exercised through `lex` and `gen_tas`.

use tasc::lex::lex;
use tasc::token::Token;
use tasc::TasError;

fn lex_err(text: &[u8]) -> (usize, usize, &'static str) {
    match lex(text, "script.tas") {
        Ok(_) => panic!("script should not scan"),
        Err(TasError::Syntax { l, c, e, p }) => {
            assert_eq!(p, "script.tas");
            (l, c, e)
        }
        Err(other) => panic!("expected a Syntax error, got {:?}", other),
    }
}

#[test]
fn tokens_of_a_simple_line() {
    let ts = lex(b"5 ON{A}", "script.tas").expect("should scan");
    assert_eq!(ts.len(), 6);
    assert!(matches!(ts[0], Token::Number(5, _)));
    assert!(matches!(ts[1], Token::Whitespace(_)));
    assert!(matches!(&ts[2], Token::Operation(n, _) if n.as_slice() == b"ON".as_slice()));
    assert!(matches!(ts[3], Token::BracketOpen(_)));
    assert!(matches!(&ts[4], Token::Key(n, _) if n.as_slice() == b"A".as_slice()));
    assert!(matches!(ts[5], Token::BracketClose(_)));
}

#[test]
fn plus_allowed_only_at_index_zero() {
    assert!(lex(b"+5 ON{A}", "p").is_ok());
    let (l, c, e) = lex_err(b"5+");
    assert_eq!((l, c), (1, 1));
    assert_eq!(e, "`+` can only appear at the start of the script");
    let (l, c, _) = lex_err(b"5\n1+");
    assert_eq!((l, c), (2, 1));
    // even right after a tolerated one
    let (_, c, _) = lex_err(b"++5");
    assert_eq!(c, 1);
}

#[test]
fn newline_inside_brackets_is_a_fault() {
    let (_, _, e) = lex_err(b"1 ON{A\nB}");
    assert_eq!(e, "Newlines cannot appear in brackets.");
}

#[test]
fn line_must_start_with_a_digit() {
    let (l, _, e) = lex_err(b"1\nON{A}");
    assert_eq!(e, "A frame number must appear at the start of each line.");
    assert_eq!(l, 1);
}

#[test]
fn first_line_must_begin_with_a_digit() {
    // passed-over bytes cannot stand in for the frame number on a
    // non-final first line
    let (l, _, e) = lex_err(b"qq\n5");
    assert_eq!(e, "A frame number must appear at the start of each line.");
    assert_eq!(l, 1);
    let (_, _, e) = lex_err(b"\n5");
    assert_eq!(e, "A frame number must appear at the start of each line.");
    // the final line is free of the rule, and `+` is looked past
    assert!(lex(b"qq", "p").is_ok());
    assert!(lex(b"+5\n6", "p").is_ok());
}

#[test]
fn trailing_line_break_is_tolerated() {
    assert!(lex(b"1 ON{A}\n", "p").is_ok());
}

#[test]
fn bracket_after_space_is_a_fault() {
    let (_, _, e) = lex_err(b"5 ON {A");
    assert_eq!(e, "Unexpected opening bracket.");
}

#[test]
fn unclosed_bracket_at_end_is_a_fault() {
    let (_, _, e) = lex_err(b"5 ON{A");
    assert_eq!(e, "Script ends inside brackets.");
}

#[test]
fn stray_closing_bracket_is_a_fault() {
    let (_, _, e) = lex_err(b"1 ON{}");
    assert_eq!(e, "Unexpected closing bracket.");
}

#[test]
fn comma_outside_brackets_is_a_fault() {
    let (_, _, e) = lex_err(b"1 ,");
    assert_eq!(e, "Commas can only appear inside brackets.");
}

#[test]
fn number_after_space_is_a_fault() {
    let (_, _, e) = lex_err(b"1 2");
    assert_eq!(e, "Frame numbers can only appear at the start of a line.");
}

#[test]
fn operation_needs_whitespace_before_it() {
    let (_, _, e) = lex_err(b"1ON{A}");
    assert_eq!(e, "Expected whitespace before operation.");
}

#[test]
fn key_outside_brackets_is_a_fault() {
    let (_, _, e) = lex_err(b"1 A");
    assert_eq!(e, "Expected one of `{` or `,` before key identifier.");
}

#[test]
fn number_too_large_is_a_fault() {
    let (_, _, e) = lex_err(b"99999999999999999999 ON{A}");
    assert_eq!(e, "Number does not fit in 64 bits.");
}

#[test]
fn largest_u64_still_scans() {
    assert!(lex(b"18446744073709551615", "p").is_ok());
}

#[test]
fn unrecognised_bytes_are_passed_over() {
    // lowercase letters carry no token and no fault
    let ts = lex(b"5 qq ON{A}", "p").expect("should scan");
    assert_eq!(ts.len(), 7);
}
