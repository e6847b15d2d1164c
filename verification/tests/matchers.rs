//! The leaf matchers, the error model, spans and stream adaptation.

use parsing::error::ParseError;
use parsing::matcher::{Any, Digit, Letter, Literal, One, OneOf, Whitespace};
use parsing::parser::Parse;
use parsing::span::Span;
use parsing::stream::Stream;
use parsing::{one_byte, one_char, str_seq, whitespace};

#[test]
fn any_consumes_one_byte() {
    let (v, end) = Any::new().parse(b"xy", 0).unwrap();
    assert_eq!(v, Span { at: 0, len: 1 });
    assert_eq!(end, 1);
    assert_eq!(Any::new().parse(b"", 0), Err(ParseError::EOF));
}

#[test]
fn digit_classifies() {
    assert_eq!(Digit::new().parse(b"7x", 0).unwrap().1, 1);
    assert_eq!(Digit::new().parse(b"x7", 0), Err(ParseError::Invalid));
    assert_eq!(Digit::new().parse(b"", 0), Err(ParseError::EOF));
}

#[test]
fn letter_classifies_alphabetic() {
    assert_eq!(Letter::new().parse(b"ab", 0).unwrap().1, 1);
    assert_eq!(Letter::new().parse(b"Zx", 0).unwrap().1, 1);
    // A digit is not a letter.
    assert_eq!(Letter::new().parse(b"7a", 0), Err(ParseError::Invalid));
    assert_eq!(Letter::new().parse(b"", 0), Err(ParseError::EOF));
}

#[test]
fn whitespace_classifies() {
    assert_eq!(whitespace().parse(b" x", 0).unwrap().1, 1);
    assert_eq!(Whitespace::new().parse(b"\tx", 0).unwrap().1, 1);
    assert_eq!(Whitespace::new().parse(b"x ", 0), Err(ParseError::Invalid));
    assert_eq!(Whitespace::new().parse(b"", 0), Err(ParseError::EOF));
}

#[test]
fn one_matches_a_single_byte() {
    let p = One::new(b':');
    assert_eq!(p.parse(b":v", 0).unwrap(), (Span { at: 0, len: 1 }, 1));
    assert_eq!(one_byte(b':').parse(b"v:", 0), Err(ParseError::Invalid));
    assert_eq!(one_byte(b':').parse(b"", 0), Err(ParseError::EOF));
}

#[test]
fn literal_exact_buffer_consumes_all() {
    let input = b"HTTP";
    let p = Literal::new(b"HTTP");
    let (v, end) = p.parse(input, 0).unwrap();
    assert_eq!(v.slice(input), b"HTTP");
    // The whole buffer is consumed: the remainder is empty.
    assert_eq!(end, input.len());
}

#[test]
fn literal_strict_prefix_is_indeterminate_not_invalid() {
    let p = Literal::new(b"HTTP");
    assert_eq!(p.parse(b"HT", 0), Err(ParseError::Indeterminate));
    let p = Literal::new(b"HTTP");
    assert_eq!(p.parse(b"", 0), Err(ParseError::Indeterminate));
    // Wrong content of sufficient length is a mismatch instead.
    let p = Literal::new(b"HTTP");
    assert_eq!(p.parse(b"HTXP", 0), Err(ParseError::Invalid));
}

#[test]
fn str_seq_matches_text_bytes() {
    let input = "version: HTTP/1.1".as_bytes();
    let p = str_seq("version");
    let (v, end) = p.parse(input, 0).unwrap();
    assert_eq!(v.slice(input), b"version");
    assert_eq!(end, 7);
}

#[test]
fn one_char_encodes_multibyte_characters() {
    let input = "é!".as_bytes();
    let p = one_char('é');
    let (v, end) = p.parse(input, 0).unwrap();
    assert_eq!(end, 2);
    assert_eq!(v.slice(input), "é".as_bytes());
    let p = one_char('!');
    assert_eq!(p.parse(input, 0), Err(ParseError::Invalid));
}

#[test]
fn one_of_literals_takes_first_match_in_order() {
    let input = b"abcde";
    let p = OneOf::<Vec<u8>>::from(&["ab", "abc"]);
    let (v, end) = p.parse(input, 0).unwrap();
    // Order matters when one alternative prefixes another.
    assert_eq!(v.slice(input), b"ab");
    assert_eq!(end, 2);

    let p = OneOf::<Vec<u8>>::from(&["abc", "ab"]);
    let (v, _) = p.parse(input, 0).unwrap();
    assert_eq!(v.slice(input), b"abc");

    let p = OneOf::<Vec<u8>>::from(&["xy", "zz"]);
    assert_eq!(p.parse(input, 0), Err(ParseError::Invalid));
}

#[test]
fn one_of_byte_class_is_bounds_safe() {
    let p = OneOf::<u8>::from(b"+-*/");
    assert_eq!(p.parse(b"-7", 0).unwrap(), (Span { at: 0, len: 1 }, 1));
    assert_eq!(OneOf::<u8>::from(b"+-").parse(b"7", 0), Err(ParseError::Invalid));
    // An exhausted cursor is reported, never read past.
    assert_eq!(OneOf::<u8>::from(b"+-").parse(b"", 0), Err(ParseError::EOF));
}

#[test]
fn error_messages_name_the_kind() {
    assert_eq!(ParseError::EOF.message(), "unexpected end of stream");
    assert_eq!(ParseError::Indeterminate.message(), "not enough data to parse");
    assert_eq!(ParseError::Invalid.message(), "match failed");
}

#[test]
fn spans_select_bytes() {
    let input = b"hello world";
    let sp = Span::new(6, 5);
    assert_eq!(sp.slice(input), b"world");
    assert_eq!(sp.to_vec(input), b"world".to_vec());
    assert_eq!(sp.end(), 11);
}

#[test]
fn streams_view_as_bytes() {
    let owned = String::from("abc");
    assert_eq!(owned.to_stream(), b"abc");
    let borrowed: &str = "xyé";
    assert_eq!(borrowed.to_stream(), "xyé".as_bytes());
    let raw: Vec<u8> = vec![1, 2, 3];
    assert_eq!(raw.to_stream(), &[1u8, 2, 3][..]);
}

#[test]
fn a_failing_matcher_consumes_nothing() {
    let input = b"x";
    for p in [Digit::new().parse(input, 0), Letter::new().parse(b"5", 0)] {
        assert!(p.is_err());
    }
    // The cursor handed to the caller on failure is the original one: a
    // retry from the same position can still succeed.
    let after = One::new(b'x').parse(input, 0).unwrap();
    assert_eq!(after, (Span { at: 0, len: 1 }, 1));
}
