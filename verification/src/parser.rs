//! The core parsing abstraction.
//!
//! A parser is any value implementing [`Parse`].  Its meaning is fixed by the
//! spec function [`Parse::spec_parse`]; the executable [`Parse::parse`] is
//! proved to return exactly that outcome.

use vstd::prelude::*;

use crate::error::ParseError;

verus! {

/// What a parser denotes on buffer `s` from position `from`: on success the
/// spec-level result value and the position just past the consumed prefix,
/// otherwise a failure kind.
pub type SpecOutcome<V> = Result<(V, int), ParseError>;

/// The capability contract every parser value implements.
///
/// `parse` threads a borrowed cursor (`input` plus start position) and
/// either succeeds with a result and the new position, or fails with a
/// [`ParseError`].  Failing parsers consume nothing: the caller's position
/// is untouched, so alternation can retry from the same place.
pub trait Parse {
    /// The executable result type of a successful parse.
    type Output: DeepView;

    /// The mathematical meaning of this parser on buffer `s` at `from`.
    spec fn spec_parse(&self, s: Seq<u8>, from: int) -> SpecOutcome<
        <Self::Output as DeepView>::V,
    >;

    /// A successful parse never moves backwards nor past the buffer's end.
    proof fn lemma_parse_bounds(&self, s: Seq<u8>, from: int)
        requires
            0 <= from <= s.len(),
        ensures
            self.spec_parse(s, from) matches Ok((v, end)) ==> from <= end <= s.len(),
    ;

    /// Run the parser over `input`, starting at `from`.
    fn parse(&self, input: &[u8], from: usize) -> (r: Result<(Self::Output, usize), ParseError>)
        requires
            from <= input@.len(),
        ensures
            match r {
                Ok((v, end)) => from <= end <= input@.len() && self.spec_parse(
                    input@,
                    from as int,
                ) == Ok::<_, ParseError>((v.deep_view(), end as int)),
                Err(e) => self.spec_parse(input@, from as int) == Err::<
                    (<Self::Output as DeepView>::V, int),
                    _,
                >(e),
            },
    ;

}

/// A pure transformation from one parse result to another, used by
/// [`crate::combinator::Mapped`].  An implementation plays the role of a
/// mapping function handed to the map combinator: `spec_apply` fixes its
/// meaning, and `apply` is proved to compute it.
pub trait Transform {
    /// The value consumed.
    type In: DeepView;

    /// The value produced.
    type Out: DeepView;

    /// The mathematical meaning of the transformation.
    spec fn spec_apply(&self, x: <Self::In as DeepView>::V) -> <Self::Out as DeepView>::V;

    /// Apply the transformation.
    fn apply(&self, x: Self::In) -> (r: Self::Out)
        ensures
            r.deep_view() == self.spec_apply(x.deep_view()),
    ;
}

/// A zero-argument generator producing the initial accumulator value for
/// [`crate::combinator::State`].
pub trait Seed {
    /// The value produced.
    type Out: DeepView;

    /// The mathematical meaning of the generated value.
    spec fn spec_seed(&self) -> <Self::Out as DeepView>::V;

    /// Produce the value.
    fn seed(&self) -> (r: Self::Out)
        ensures
            r.deep_view() == self.spec_seed(),
    ;
}

/// A pure test on a single byte, used by [`crate::combinator::TakeWhile`].
pub trait Predicate {
    /// The mathematical meaning of the test.
    spec fn spec_test(&self, b: u8) -> bool;

    /// Test one byte.
    fn test(&self, b: u8) -> (r: bool)
        ensures
            r == self.spec_test(b),
    ;
}

} // verus!
