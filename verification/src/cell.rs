//! A fluent chaining wrapper around one concrete parser.
//!
//! [`Cell`] owns a parser and re-exposes the combinator vocabulary as
//! chainable operations returning a new wrapper, so grammars can be composed
//! incrementally without spelling out deeply nested composed types at every
//! step.  Wrapping changes nothing about meaning: a cell parses exactly as
//! the parser it holds.

use vstd::prelude::*;

use crate::combinator::{And, Left, Mapped, Or, Right, Skip};
use crate::error::ParseError;
use crate::parser::{Parse, SpecOutcome, Transform};

verus! {

/// A wrapper owning one parser and offering the combinator vocabulary as
/// chainable methods.
pub struct Cell<P> {
    pub parser: P,
}

impl<P> Cell<P> {
    /// Wrap `parser`.
    pub fn new(parser: P) -> (r: Self)
        ensures
            r == (Cell { parser }),
    {
        Cell { parser }
    }

    /// Unwrap, handing the owned parser back.
    pub fn take(self) -> (r: P)
        ensures
            r == self.parser,
    {
        self.parser
    }
}

impl<P: Parse> Cell<P> {
    /// Transform the wrapped parser's result value through `f`.
    pub fn map<F: Transform<In = P::Output>>(self, f: F) -> (r: Cell<Mapped<P, F>>)
        ensures
            r == (Cell { parser: Mapped { p: self.parser, f } }),
    {
        Cell::new(Mapped::new(self.take(), f))
    }

    /// Alternation: this parser, or on its failure `rhs` from the same place.
    pub fn or<RHS: Parse<Output = P::Output>>(self, rhs: Cell<RHS>) -> (r: Cell<Or<P, RHS>>)
        ensures
            r == (Cell { parser: Or { p1: self.parser, p2: rhs.parser } }),
    {
        Cell::new(Or::new(self.take(), rhs.take()))
    }

    /// Sequence: this parser, then `rhs` on the remainder, keeping both
    /// results as a pair.
    pub fn then<RHS: Parse>(self, rhs: Cell<RHS>) -> (r: Cell<And<P, RHS>>)
        ensures
            r == (Cell { parser: And { p1: self.parser, p2: rhs.parser } }),
    {
        Cell::new(And::new(self.take(), rhs.take()))
    }

    /// Sequence with `rhs`, discarding `rhs`'s result.
    pub fn skip<RHS: Parse>(self, rhs: Cell<RHS>) -> (r: Cell<Skip<Right, P, RHS>>)
        ensures
            r.parser.p1 == self.parser && r.parser.p2 == rhs.parser,
    {
        Cell::new(Skip::<Right, _, _>::new(self.take(), rhs.take()))
    }

    /// Sequence with `rhs` run first, discarding `rhs`'s result.
    pub fn skip_left<RHS: Parse>(self, rhs: Cell<RHS>) -> (r: Cell<Skip<Left, RHS, P>>)
        ensures
            r.parser.p1 == rhs.parser && r.parser.p2 == self.parser,
    {
        Cell::new(Skip::<Left, _, _>::new(rhs.take(), self.take()))
    }
}

impl<P: Parse> Parse for Cell<P> {
    type Output = P::Output;

    open spec fn spec_parse(&self, s: Seq<u8>, from: int) -> SpecOutcome<
        <P::Output as DeepView>::V,
    > {
        self.parser.spec_parse(s, from)
    }

    proof fn lemma_parse_bounds(&self, s: Seq<u8>, from: int) {
        self.parser.lemma_parse_bounds(s, from);
    }

    fn parse(&self, input: &[u8], from: usize) -> (r: Result<(Self::Output, usize), ParseError>) {
        self.parser.parse(input, from)
    }
}

/// Building an alternation through the fluent wrapper is observably
/// equivalent to [`Or`] itself: on every input the wrapped alternation and
/// the bare one denote the same outcome.
pub proof fn lemma_cell_or_equiv<P1: Parse, P2: Parse<Output = P1::Output>>(
    p1: P1,
    p2: P2,
    s: Seq<u8>,
    from: int,
)
    ensures
        (Cell { parser: Or { p1, p2 } }).spec_parse(s, from) == (Or { p1, p2 }).spec_parse(s, from),
{
}

} // verus!
