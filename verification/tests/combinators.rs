//! The combinator layer, exercised on concrete inputs.

use parsing::cell::Cell;
use parsing::combinator::{And, Many0, Many1, ManyN, Optional, Or, SkipN, TakeWhile};
use parsing::error::ParseError;
use parsing::matcher::{Digit, DigitTest, Literal, One, SpaceTest};
use parsing::parser::Parse;
use parsing::span::Span;
use parsing::{many0, many1, one_byte, str_seq, take_until, take_while};

#[test]
fn take_until_splits_at_delimiter() {
    let input = b"name: value";
    let p = take_until(one_byte(b':'));
    let (prefix, end) = p.parse(input, 0).unwrap();
    assert_eq!(prefix, Span { at: 0, len: 4 });
    assert_eq!(prefix.slice(input), b"name");
    // The delimiter itself is left unconsumed, so prefix and remainder
    // together are the whole input.
    assert_eq!(end, 4);
    assert_eq!(input[end], b':');
}

#[test]
fn take_until_absent_delimiter_takes_everything() {
    let input = b"no delimiter here";
    let p = take_until(str_seq("!"));
    let (prefix, end) = p.parse(input, 0).unwrap();
    assert_eq!(prefix.slice(input), input);
    assert_eq!(end, input.len());
}

#[test]
fn take_until_empty_input_is_eof() {
    let p = take_until(one_byte(b':'));
    assert_eq!(p.parse(b"", 0), Err(ParseError::EOF));
}

#[test]
fn many0_never_fails() {
    let input = b"abc";
    let p = many0(Digit::new());
    let (items, end) = p.parse(input, 0).unwrap();
    assert_eq!(items.len(), 0);
    assert_eq!(end, 0);

    let input = b"12a";
    let p = many0(Digit::new());
    let (items, end) = p.parse(input, 0).unwrap();
    assert_eq!(items, vec![Span { at: 0, len: 1 }, Span { at: 1, len: 1 }]);
    assert_eq!(end, 2);
}

#[test]
fn many1_fails_only_on_empty_or_immediate_failure() {
    let p = many1(Digit::new());
    assert_eq!(p.parse(b"", 0), Err(ParseError::EOF));
    assert_eq!(p.parse(b"x1", 0), Err(ParseError::Invalid));
    let (items, end) = p.parse(b"19x", 0).unwrap();
    assert_eq!(items.len(), 2);
    assert_eq!(end, 2);
}

#[test]
fn alternation_takes_first_success() {
    let input = b"POST /";
    let p = Or::new(str_seq("GET"), str_seq("POST"));
    let (m, end) = p.parse(input, 0).unwrap();
    assert_eq!(m.slice(input), b"POST");
    assert_eq!(end, 4);

    let q = Or::new(str_seq("POST"), str_seq("PUT"));
    let (m2, _) = q.parse(input, 0).unwrap();
    assert_eq!(m2.slice(input), b"POST");
}

#[test]
fn alternation_fails_with_second_branch_error() {
    let input = b"DELETE";
    let p = Or::new(str_seq("GET"), str_seq("PUT"));
    // Both branches fail on enough input: the second branch's error surfaces.
    assert_eq!(p.parse(input, 0), Err(ParseError::Invalid));
}

#[test]
fn cell_or_equals_bare_alternation() {
    for input in [&b"GET x"[..], &b"PUT x"[..], &b"BAD x"[..], &b""[..]] {
        let fluent = Cell::new(str_seq("GET")).or(Cell::new(str_seq("PUT")));
        let bare = Or::new(str_seq("GET"), str_seq("PUT"));
        assert_eq!(fluent.parse(input, 0), bare.parse(input, 0));
    }
}

#[test]
fn exactly_n_discards_partial_progress() {
    let input = b"12x";
    let p = ManyN::new(Digit::new(), 3);
    // Two digits match, then the sub-parser fails: no partial result.
    assert_eq!(p.parse(input, 0), Err(ParseError::Invalid));

    let p = ManyN::new(Digit::new(), 3);
    assert_eq!(p.parse(b"12", 0), Err(ParseError::EOF));

    let p = ManyN::new(Digit::new(), 3);
    let (items, end) = p.parse(b"123x", 0).unwrap();
    assert_eq!(items.len(), 3);
    assert_eq!(end, 3);
}

#[test]
fn optional_restores_cursor_on_failure() {
    let p = Optional::new(Digit::new());
    let (v, end) = p.parse(b"x", 0).unwrap();
    assert_eq!(v, None);
    assert_eq!(end, 0);
    let (v, end) = p.parse(b"7", 0).unwrap();
    assert_eq!(v, Some(Span { at: 0, len: 1 }));
    assert_eq!(end, 1);
}

#[test]
fn sequence_requires_both() {
    let p = And::new(Digit::new(), Digit::new());
    let ((a, b), end) = p.parse(b"42x", 0).unwrap();
    assert_eq!((a, b), (Span { at: 0, len: 1 }, Span { at: 1, len: 1 }));
    assert_eq!(end, 2);
    let p = And::new(Digit::new(), Digit::new());
    assert_eq!(p.parse(b"4x", 0), Err(ParseError::Invalid));
}

#[test]
fn skip_discards_one_side() {
    let input = b"a:b";
    let keep_left = Cell::new(One::new(b'a')).skip(Cell::new(One::new(b':')));
    let (v, end) = keep_left.parse(input, 0).unwrap();
    assert_eq!(v, Span { at: 0, len: 1 });
    assert_eq!(end, 2);

    let keep_right = Cell::new(One::new(b':')).skip_left(Cell::new(One::new(b'a')));
    let (v, end) = keep_right.parse(input, 0).unwrap();
    assert_eq!(v, Span { at: 1, len: 1 });
    assert_eq!(end, 2);
}

#[test]
fn skip_n_advances_blindly_but_checks_bounds() {
    let input = b"ab??rest";
    let p = SkipN::new(Literal::new(b"ab"), 2);
    let (v, end) = p.parse(input, 0).unwrap();
    assert_eq!(v.slice(input), b"ab");
    assert_eq!(end, 4);

    let p = SkipN::new(Literal::new(b"ab"), 9);
    assert_eq!(p.parse(input, 0), Err(ParseError::EOF));
}

#[test]
fn take_while_splits_at_first_failing_byte() {
    let input = b"123ab";
    let p = take_while(DigitTest);
    let (run, end) = p.parse(input, 0).unwrap();
    assert_eq!(run.slice(input), b"123");
    assert_eq!(end, 3);

    let p = TakeWhile::new(SpaceTest);
    let (run, end) = p.parse(b" \t x", 0).unwrap();
    assert_eq!(run.len, 3);
    assert_eq!(end, 3);

    let p = take_while(DigitTest);
    let (run, end) = p.parse(b"", 0).unwrap();
    assert_eq!(run.len, 0);
    assert_eq!(end, 0);
}

#[test]
fn repetition_stops_at_nonconsuming_success() {
    // A zero-width sub-parser would never advance: the repetition stops
    // rather than loop, collecting nothing.
    let p = Many0::new(Literal::new(b""));
    let (items, end) = p.parse(b"abc", 0).unwrap();
    assert_eq!(items.len(), 0);
    assert_eq!(end, 0);

    let p = Many1::new(Literal::new(b""));
    let (items, end) = p.parse(b"abc", 0).unwrap();
    assert_eq!(items.len(), 1);
    assert_eq!(end, 0);
}
