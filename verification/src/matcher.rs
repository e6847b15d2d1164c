//! Leaf parsers: element, class, literal and one-of matching.
//!
//! Every matcher consumes a bounded piece of the buffer and hands it back as
//! a [`Span`].  A failing matcher consumes nothing.

use vstd::prelude::*;
use vstd::string::StringSliceAdditionalSpecFns;

use crate::error::ParseError;
use crate::parser::{Parse, SpecOutcome};
use crate::span::{Span, SpanV};

verus! {

/// True for the bytes `'0'` through `'9'`.
pub open spec fn is_digit_byte(b: u8) -> bool {
    ('0' as u8) <= b <= ('9' as u8)
}

/// True for the ASCII letters `'a'`..`'z'` and `'A'`..`'Z'`.
pub open spec fn is_letter_byte(b: u8) -> bool {
    (('a' as u8) <= b <= ('z' as u8)) || (('A' as u8) <= b <= ('Z' as u8))
}

/// True for the ASCII whitespace bytes: space, tab, line feed, form feed
/// and carriage return.
pub open spec fn is_space_byte(b: u8) -> bool {
    b == (' ' as u8) || b == ('\t' as u8) || b == ('\n' as u8) || b == 0x0c || b == ('\r' as u8)
}

/// What matching the fixed byte string `lit` at `from` in `s` means: with
/// fewer bytes left than `lit` is long there is not enough data to decide
/// (`Indeterminate`); otherwise the bytes either all agree, consuming the
/// whole literal, or the match fails (`Invalid`).
pub open spec fn spec_literal(lit: Seq<u8>, s: Seq<u8>, from: int) -> SpecOutcome<SpanV> {
    if s.len() - from < lit.len() {
        Err(ParseError::Indeterminate)
    } else if s.subrange(from, from + lit.len()) == lit {
        Ok((SpanV { at: from, len: lit.len() as int }, from + lit.len()))
    } else {
        Err(ParseError::Invalid)
    }
}

/// Matching a list of whole-literal alternatives in the order given: the
/// first literal that matches as a prefix wins; with no alternative left the
/// match fails.
pub open spec fn spec_alternatives(xs: Seq<Seq<u8>>, s: Seq<u8>, from: int) -> SpecOutcome<SpanV>
    decreases xs.len(),
{
    if xs.len() == 0 {
        Err(ParseError::Invalid)
    } else {
        match spec_literal(xs[0], s, from) {
            Ok(r) => Ok(r),
            Err(_) => spec_alternatives(xs.drop_first(), s, from),
        }
    }
}

/// Match `lit` as a prefix of `s` at `from`; shared by the literal and
/// one-of matchers.
fn match_literal(lit: &Vec<u8>, input: &[u8], from: usize) -> (r: Result<
    (Span, usize),
    ParseError,
>)
    requires
        from <= input@.len(),
    ensures
        match r {
            Ok((v, end)) => from <= end <= input@.len() && spec_literal(
                lit@,
                input@,
                from as int,
            ) == Ok::<_, ParseError>((v@, end as int)),
            Err(e) => spec_literal(lit@, input@, from as int) == Err::<(SpanV, int), _>(e),
        },
{
    let l = lit.len();
    if input.len() - from < l {
        return Err(ParseError::Indeterminate);
    }
    let mut i: usize = 0;
    #[verifier::loop_isolation(false)]
    while i < l
        invariant
            i <= l,
            forall|j: int| 0 <= j < i ==> input@[from + j] == lit@[j],
        decreases l - i,
    {
        let b = *vstd::slice::slice_index_get(input, from + i);
        if b != lit[i] {
            proof {
                assert(input@.subrange(from as int, from + lit@.len())[i as int] != lit@[i as int]);
            }
            return Err(ParseError::Invalid);
        }
        i = i + 1;
    }
    proof {
        assert(input@.subrange(from as int, from + lit@.len()) =~= lit@);
    }
    Ok((Span::new(from, l), from + l))
}

/// Consumes exactly one byte unconditionally; fails only at end of input.
pub struct Any;

impl Any {
    /// The any-byte matcher.
    pub fn new() -> (r: Self)
        ensures
            r == (Any {  }),
    {
        Any {  }
    }
}

impl Parse for Any {
    type Output = Span;

    open spec fn spec_parse(&self, s: Seq<u8>, from: int) -> SpecOutcome<SpanV> {
        if from < s.len() {
            Ok((SpanV { at: from, len: 1 }, from + 1))
        } else {
            Err(ParseError::EOF)
        }
    }

    proof fn lemma_parse_bounds(&self, s: Seq<u8>, from: int) {
    }

    fn parse(&self, input: &[u8], from: usize) -> (r: Result<(Self::Output, usize), ParseError>) {
        if from < input.len() {
            Ok((Span::new(from, 1), from + 1))
        } else {
            Err(ParseError::EOF)
        }
    }
}

/// Classifies the next byte as a decimal digit.
pub struct Digit;

impl Digit {
    /// The digit matcher.
    pub fn new() -> (r: Self)
        ensures
            r == (Digit {  }),
    {
        Digit {  }
    }
}

impl Parse for Digit {
    type Output = Span;

    open spec fn spec_parse(&self, s: Seq<u8>, from: int) -> SpecOutcome<SpanV> {
        if from >= s.len() {
            Err(ParseError::EOF)
        } else if is_digit_byte(s[from]) {
            Ok((SpanV { at: from, len: 1 }, from + 1))
        } else {
            Err(ParseError::Invalid)
        }
    }

    proof fn lemma_parse_bounds(&self, s: Seq<u8>, from: int) {
    }

    fn parse(&self, input: &[u8], from: usize) -> (r: Result<(Self::Output, usize), ParseError>) {
        if from >= input.len() {
            return Err(ParseError::EOF);
        }
        let b = *vstd::slice::slice_index_get(input, from);
        if b >= ('0' as u8) && b <= ('9' as u8) {
            Ok((Span::new(from, 1), from + 1))
        } else {
            Err(ParseError::Invalid)
        }
    }
}

/// Classifies the next byte as an ASCII letter.
pub struct Letter;

impl Letter {
    /// The letter matcher.
    pub fn new() -> (r: Self)
        ensures
            r == (Letter {  }),
    {
        Letter {  }
    }
}

impl Parse for Letter {
    type Output = Span;

    open spec fn spec_parse(&self, s: Seq<u8>, from: int) -> SpecOutcome<SpanV> {
        if from >= s.len() {
            Err(ParseError::EOF)
        } else if is_letter_byte(s[from]) {
            Ok((SpanV { at: from, len: 1 }, from + 1))
        } else {
            Err(ParseError::Invalid)
        }
    }

    proof fn lemma_parse_bounds(&self, s: Seq<u8>, from: int) {
    }

    fn parse(&self, input: &[u8], from: usize) -> (r: Result<(Self::Output, usize), ParseError>) {
        if from >= input.len() {
            return Err(ParseError::EOF);
        }
        let b = *vstd::slice::slice_index_get(input, from);
        if (b >= ('a' as u8) && b <= ('z' as u8)) || (b >= ('A' as u8) && b <= ('Z' as u8)) {
            Ok((Span::new(from, 1), from + 1))
        } else {
            Err(ParseError::Invalid)
        }
    }
}

/// Matches exactly one byte equal to a stored reference value.
pub struct One<T> {
    pub val: T,
}

impl One<u8> {
    /// Match the single byte `byte`.
    pub fn new(byte: u8) -> (r: Self)
        ensures
            r == (One { val: byte }),
    {
        One { val: byte }
    }
}

impl Parse for One<u8> {
    type Output = Span;

    open spec fn spec_parse(&self, s: Seq<u8>, from: int) -> SpecOutcome<SpanV> {
        if from >= s.len() {
            Err(ParseError::EOF)
        } else if s[from] == self.val {
            Ok((SpanV { at: from, len: 1 }, from + 1))
        } else {
            Err(ParseError::Invalid)
        }
    }

    proof fn lemma_parse_bounds(&self, s: Seq<u8>, from: int) {
    }

    fn parse(&self, input: &[u8], from: usize) -> (r: Result<(Self::Output, usize), ParseError>) {
        if from >= input.len() {
            return Err(ParseError::EOF);
        }
        let b = *vstd::slice::slice_index_get(input, from);
        if b == self.val {
            Ok((Span::new(from, 1), from + 1))
        } else {
            Err(ParseError::Invalid)
        }
    }
}

/// Matches one candidate out of a stored collection: either a list of
/// whole-literal alternatives tried in order, or a class of single bytes.
pub struct OneOf<T> {
    pub xs: Vec<T>,
}

impl OneOf<Vec<u8>> {
    /// The whole-literal alternatives `xs`, tried in the order given.
    pub fn from(xs: &[&str]) -> (r: Self)
        ensures
            r.xs@.len() == xs@.len(),
            forall|i: int| 0 <= i < xs@.len() ==> r.xs@[i]@ == xs@[i].spec_bytes(),
    {
        let mut out: Vec<Vec<u8>> = Vec::new();
        let mut i: usize = 0;
        #[verifier::loop_isolation(false)]
        while i < xs.len()
            invariant
                i <= xs@.len(),
                out@.len() == i,
                forall|j: int| 0 <= j < i ==> out@[j]@ == xs@[j].spec_bytes(),
            decreases xs@.len() - i,
        {
            let s: &str = *vstd::slice::slice_index_get(xs, i);
            out.push(vstd::slice::slice_to_vec(s.as_bytes()));
            i = i + 1;
        }
        OneOf { xs: out }
    }
}

impl Parse for OneOf<Vec<u8>> {
    type Output = Span;

    open spec fn spec_parse(&self, s: Seq<u8>, from: int) -> SpecOutcome<SpanV> {
        spec_alternatives(self.xs.deep_view(), s, from)
    }

    proof fn lemma_parse_bounds(&self, s: Seq<u8>, from: int) {
        lemma_alternatives_bounds(self.xs.deep_view(), s, from);
    }

    fn parse(&self, input: &[u8], from: usize) -> (r: Result<(Self::Output, usize), ParseError>) {
        let n = self.xs.len();
        proof {
            assert(self.xs.deep_view().skip(0) =~= self.xs.deep_view());
        }
        let mut i: usize = 0;
        #[verifier::loop_isolation(false)]
        while i < n
            invariant
                i <= n,
                spec_alternatives(self.xs.deep_view(), input@, from as int) == spec_alternatives(
                    self.xs.deep_view().skip(i as int),
                    input@,
                    from as int,
                ),
            decreases n - i,
        {
            proof {
                assert(self.xs.deep_view().skip(i as int)[0] == self.xs.deep_view()[i as int]);
                assert(self.xs@[i as int].deep_view() =~= self.xs@[i as int]@);
                assert(self.xs.deep_view().skip(i as int).drop_first() =~= self.xs.deep_view().skip(
                    i + 1,
                ));
            }
            match match_literal(&self.xs[i], input, from) {
                Ok((v, end)) => {
                    return Ok((v, end));
                },
                Err(_) => {
                    i = i + 1;
                },
            }
        }
        proof {
            assert(self.xs.deep_view().skip(n as int) =~= Seq::<Seq<u8>>::empty());
        }
        Err(ParseError::Invalid)
    }
}

/// A successful alternatives match starts at the tried position, stays in
/// bounds, and its view covers exactly the consumed bytes.
pub proof fn lemma_alternatives_bounds(xs: Seq<Seq<u8>>, s: Seq<u8>, from: int)
    requires
        0 <= from <= s.len(),
    ensures
        spec_alternatives(xs, s, from) matches Ok((v, end)) ==> from <= end <= s.len() && v.at
            == from && v.end() == end && v.wf(s),
    decreases xs.len(),
{
    if xs.len() > 0 {
        if spec_literal(xs[0], s, from) is Ok {
        } else {
            lemma_alternatives_bounds(xs.drop_first(), s, from);
        }
    }
}

impl OneOf<u8> {
    /// The class of single bytes listed in `s`.
    pub fn from(s: &[u8]) -> (r: Self)
        ensures
            r.xs@ == s@,
    {
        OneOf { xs: vstd::slice::slice_to_vec(s) }
    }
}

impl Parse for OneOf<u8> {
    type Output = Span;

    open spec fn spec_parse(&self, s: Seq<u8>, from: int) -> SpecOutcome<SpanV> {
        if from >= s.len() {
            Err(ParseError::EOF)
        } else if self.xs@.contains(s[from]) {
            Ok((SpanV { at: from, len: 1 }, from + 1))
        } else {
            Err(ParseError::Invalid)
        }
    }

    proof fn lemma_parse_bounds(&self, s: Seq<u8>, from: int) {
    }

    fn parse(&self, input: &[u8], from: usize) -> (r: Result<(Self::Output, usize), ParseError>) {
        if from >= input.len() {
            return Err(ParseError::EOF);
        }
        let b = *vstd::slice::slice_index_get(input, from);
        let n = self.xs.len();
        let mut i: usize = 0;
        #[verifier::loop_isolation(false)]
        while i < n
            invariant
                i <= n,
                forall|j: int| 0 <= j < i ==> self.xs@[j] != b,
            decreases n - i,
        {
            if self.xs[i] == b {
                return Ok((Span::new(from, 1), from + 1));
            }
            i = i + 1;
        }
        assert(!self.xs@.contains(b));
        Err(ParseError::Invalid)
    }
}

/// Matches a fixed ordered byte literal, distinguishing "not enough input
/// to decide" from "wrong content".
pub struct Literal {
    pub bytes: Vec<u8>,
}

impl Literal {
    /// The literal `s`.
    pub fn new(s: &[u8]) -> (r: Self)
        ensures
            r.bytes@ == s@,
    {
        Literal { bytes: vstd::slice::slice_to_vec(s) }
    }

    /// The literal holding the UTF-8 bytes of the text `s`.
    pub fn from_str(s: &str) -> (r: Self)
        ensures
            r.bytes@ == s.spec_bytes(),
    {
        Literal { bytes: vstd::slice::slice_to_vec(s.as_bytes()) }
    }

    /// The literal holding the UTF-8 encoding of the single character `ch`.
    pub fn from_char(ch: char) -> (r: Self)
        ensures
            r.bytes@ == vstd::utf8::encode_scalar(ch as u32),
    {
        let c = ch as u32;
        let mut bytes: Vec<u8> = Vec::new();
        if c <= 0x7f {
            bytes.push((c & 0x7f) as u8);
        } else if c <= 0x7ff {
            bytes.push(0xc0 | ((c >> 6) & 0x1f) as u8);
            bytes.push(0x80 | (c & 0x3f) as u8);
        } else if c <= 0xffff {
            bytes.push(0xe0 | ((c >> 12) & 0x0f) as u8);
            bytes.push(0x80 | ((c >> 6) & 0x3f) as u8);
            bytes.push(0x80 | (c & 0x3f) as u8);
        } else {
            bytes.push(0xf0 | ((c >> 18) & 0x7) as u8);
            bytes.push(0x80 | ((c >> 12) & 0x3f) as u8);
            bytes.push(0x80 | ((c >> 6) & 0x3f) as u8);
            bytes.push(0x80 | (c & 0x3f) as u8);
        }
        proof {
            assert(bytes@ =~= vstd::utf8::encode_scalar(ch as u32));
        }
        Literal { bytes }
    }
}

impl Parse for Literal {
    type Output = Span;

    open spec fn spec_parse(&self, s: Seq<u8>, from: int) -> SpecOutcome<SpanV> {
        spec_literal(self.bytes@, s, from)
    }

    proof fn lemma_parse_bounds(&self, s: Seq<u8>, from: int) {
    }

    fn parse(&self, input: &[u8], from: usize) -> (r: Result<(Self::Output, usize), ParseError>) {
        match_literal(&self.bytes, input, from)
    }
}

/// The digit test, for use with the take-while combinator.
pub struct DigitTest;

impl crate::parser::Predicate for DigitTest {
    open spec fn spec_test(&self, b: u8) -> bool {
        is_digit_byte(b)
    }

    fn test(&self, b: u8) -> (r: bool) {
        b >= ('0' as u8) && b <= ('9' as u8)
    }
}

/// The whitespace test, for use with the take-while combinator.
pub struct SpaceTest;

impl crate::parser::Predicate for SpaceTest {
    open spec fn spec_test(&self, b: u8) -> bool {
        is_space_byte(b)
    }

    fn test(&self, b: u8) -> (r: bool) {
        b == (' ' as u8) || b == ('\t' as u8) || b == ('\n' as u8) || b == 0x0c || b == ('\r'
            as u8)
    }
}

/// Classifies the next byte as whitespace.
pub struct Whitespace;

impl Whitespace {
    /// The whitespace matcher.
    pub fn new() -> (r: Self)
        ensures
            r == (Whitespace {  }),
    {
        Whitespace {  }
    }
}

impl Parse for Whitespace {
    type Output = Span;

    open spec fn spec_parse(&self, s: Seq<u8>, from: int) -> SpecOutcome<SpanV> {
        if from >= s.len() {
            Err(ParseError::EOF)
        } else if is_space_byte(s[from]) {
            Ok((SpanV { at: from, len: 1 }, from + 1))
        } else {
            Err(ParseError::Invalid)
        }
    }

    proof fn lemma_parse_bounds(&self, s: Seq<u8>, from: int) {
    }

    fn parse(&self, input: &[u8], from: usize) -> (r: Result<(Self::Output, usize), ParseError>) {
        if from >= input.len() {
            return Err(ParseError::EOF);
        }
        let b = *vstd::slice::slice_index_get(input, from);
        if b == (' ' as u8) || b == ('\t' as u8) || b == ('\n' as u8) || b == 0x0c || b == ('\r' as u8) {
            Ok((Span::new(from, 1), from + 1))
        } else {
            Err(ParseError::Invalid)
        }
    }
}

} // verus!
