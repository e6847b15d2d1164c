//! A small parser-combinator toolkit for fully-buffered byte input.
//!
//! A parser is any value implementing [`parser::Parse`]: it reads a borrowed
//! buffer from a given position and either matches a prefix, returning a
//! structured result together with the position just past what it consumed,
//! or reports a typed failure.  Composite parsers are built from leaf
//! matchers ([`matcher`]) through the generic combinators ([`combinator`]),
//! either directly or through the fluent wrapper [`cell::Cell`].
//!
//! Matched input is handed back as [`span::Span`] values: index/length views
//! into the caller's buffer, never copies.
//!
//! The guarantees the combinators give — how alternation picks a branch,
//! when repetition can fail, how literal matching tells short input from
//! wrong input, and how scanning partitions its input — are stated once
//! over every parser and input in [`laws`].  A reference HTTP/1.1 request
//! grammar ([`http`]) and a line-ending normalization pass ([`normalize`])
//! demonstrate the toolkit end to end.

pub mod cell;
pub mod combinator;
pub mod error;
pub mod http;
pub mod laws;
pub mod matcher;
pub mod normalize;
pub mod parser;
pub mod span;
pub mod stream;

use vstd::prelude::*;
use vstd::string::StringSliceAdditionalSpecFns;

use crate::combinator::{Many0, Many1, TakeUntil, TakeWhile};
use crate::matcher::{Literal, One, Whitespace};
use crate::parser::{Parse, Predicate};

verus! {

/// Zero-or-more repetitions of `p`.
pub fn many0<P: Parse>(p: P) -> (r: Many0<P>)
    ensures
        r == (Many0 { p }),
{
    Many0::new(p)
}

/// One-or-more repetitions of `p`.
pub fn many1<P: Parse>(p: P) -> (r: Many1<P>)
    ensures
        r == (Many1 { p }),
{
    Many1::new(p)
}

/// A matcher for the single byte `byte`.
pub fn one_byte(byte: u8) -> (r: One<u8>)
    ensures
        r == (One { val: byte }),
{
    One::<u8>::new(byte)
}

/// A matcher for the UTF-8 encoding of the single character `ch`.
pub fn one_char(ch: char) -> (r: Literal)
    ensures
        r.bytes@ == vstd::utf8::encode_scalar(ch as u32),
{
    Literal::from_char(ch)
}

/// A matcher for the UTF-8 bytes of the literal text `s`.
pub fn str_seq(s: &str) -> (r: Literal)
    ensures
        r.bytes@ == s.spec_bytes(),
{
    Literal::from_str(s)
}

/// Scan forward until `p` matches; the prefix before the match is the result.
pub fn take_until<P: Parse>(p: P) -> (r: TakeUntil<P>)
    ensures
        r == (TakeUntil { p }),
{
    TakeUntil::new(p)
}

/// Take the longest prefix whose bytes all satisfy `f`.
pub fn take_while<F: Predicate>(f: F) -> (r: TakeWhile<F>)
    ensures
        r == (TakeWhile { f }),
{
    TakeWhile::new(f)
}

/// A matcher for a single whitespace byte.
pub fn whitespace() -> (r: Whitespace)
    ensures
        r == (Whitespace {  }),
{
    Whitespace::new()
}

} // verus!
