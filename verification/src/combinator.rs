//! Generic, input-agnostic composition operators.
//!
//! Each combinator is a struct holding its sub-parsers; its meaning is the
//! spec function of its [`Parse`] impl, and its executable `parse` is proved
//! to return exactly that outcome.

use vstd::prelude::*;

use crate::error::ParseError;
use crate::matcher::{spec_literal, Literal};
use crate::parser::{Parse, Predicate, Seed, SpecOutcome, Transform};
use crate::span::{Span, SpanV};

verus! {

// ---------------------------------------------------------------------------
// Seed
// ---------------------------------------------------------------------------
/// Ignores the input and yields the generator's value with the cursor
/// unchanged.  Used to seed an accumulator before chaining further steps.
pub struct State<F> {
    pub init: F,
}

impl<F> State<F> {
    /// Wrap the generator `init`.
    pub fn new(init: F) -> (r: Self)
        ensures
            r == (State { init }),
    {
        State { init }
    }
}

impl<F: Seed> Parse for State<F> {
    type Output = F::Out;

    open spec fn spec_parse(&self, s: Seq<u8>, from: int) -> SpecOutcome<
        <F::Out as DeepView>::V,
    > {
        Ok((self.init.spec_seed(), from))
    }

    proof fn lemma_parse_bounds(&self, s: Seq<u8>, from: int) {
    }

    fn parse(&self, input: &[u8], from: usize) -> (r: Result<(Self::Output, usize), ParseError>) {
        Ok((self.init.seed(), from))
    }
}

// ---------------------------------------------------------------------------
// Map
// ---------------------------------------------------------------------------
/// Runs `p`, then transforms its output value through `f`; transparent to
/// consumption and failure.
pub struct Mapped<P, F> {
    pub p: P,
    pub f: F,
}

impl<P, F> Mapped<P, F> {
    /// Map the output of `p` through `f`.
    pub fn new(p: P, f: F) -> (r: Self)
        ensures
            r == (Mapped { p, f }),
    {
        Mapped { p, f }
    }
}

impl<P: Parse, F: Transform<In = P::Output>> Parse for Mapped<P, F> {
    type Output = F::Out;

    open spec fn spec_parse(&self, s: Seq<u8>, from: int) -> SpecOutcome<
        <F::Out as DeepView>::V,
    > {
        match self.p.spec_parse(s, from) {
            Ok((v, end)) => Ok((self.f.spec_apply(v), end)),
            Err(e) => Err(e),
        }
    }

    proof fn lemma_parse_bounds(&self, s: Seq<u8>, from: int) {
        self.p.lemma_parse_bounds(s, from);
    }

    fn parse(&self, input: &[u8], from: usize) -> (r: Result<(Self::Output, usize), ParseError>) {
        match self.p.parse(input, from) {
            Ok((v, end)) => Ok((self.f.apply(v), end)),
            Err(e) => Err(e),
        }
    }
}

// ---------------------------------------------------------------------------
// Repetition
// ---------------------------------------------------------------------------
/// The greedy repetition of `p` on `s` starting at `from`: the collected
/// results and the position where the repetition stopped.
///
/// The repetition ends at the first failure of `p`, or at the first success
/// that consumes nothing (a guard that keeps the scan advancing; such a
/// result is not collected).
pub open spec fn spec_repeat<P: Parse>(p: &P, s: Seq<u8>, from: int) -> (Seq<
    <P::Output as DeepView>::V,
>, int)
    decreases s.len() - from,
{
    match p.spec_parse(s, from) {
        Ok((v, end)) => if from < end <= s.len() {
            let (rest, fin) = spec_repeat(p, s, end);
            (seq![v] + rest, fin)
        } else {
            (seq![], from)
        },
        Err(_) => (seq![], from),
    }
}

/// The repetition never moves backwards nor past the end of the buffer.
pub proof fn lemma_repeat_bounds<P: Parse>(p: &P, s: Seq<u8>, from: int)
    requires
        0 <= from <= s.len(),
    ensures
        from <= spec_repeat(p, s, from).1 <= s.len(),
    decreases s.len() - from,
{
    if let Ok((v, end)) = p.spec_parse(s, from) {
        if from < end <= s.len() {
            lemma_repeat_bounds(p, s, end);
        }
    }
}

/// Run `p` repeatedly from `from`, appending each result to `acc`, until it
/// fails or stops consuming; returns the grown accumulator and the stop
/// position.
fn parse_repeat<P: Parse>(p: &P, input: &[u8], from: usize, acc: Vec<P::Output>) -> (r: (
    Vec<P::Output>,
    usize,
))
    requires
        from <= input@.len(),
    ensures
        from <= r.1 <= input@.len(),
        ({
            let (vs, fin) = spec_repeat(p, input@, from as int);
            r.0.deep_view() == acc.deep_view() + vs && r.1 == fin
        }),
{
    let ghost acc0 = acc.deep_view();
    let mut acc = acc;
    let mut at: usize = from;
    loop
        invariant
            from <= at <= input@.len(),
            ({
                let (vs, fin) = spec_repeat(p, input@, from as int);
                let (rest, rfin) = spec_repeat(p, input@, at as int);
                acc0 + vs == acc.deep_view() + rest && fin == rfin
            }),
        ensures
            spec_repeat(p, input@, at as int).0.len() == 0,
            spec_repeat(p, input@, at as int).1 == at as int,
        decreases input@.len() - at,
    {
        match p.parse(input, at) {
            Ok((v, end)) => {
                if end == at {
                    break ;
                }
                let ghost pre = acc.deep_view();
                acc.push(v);
                proof {
                    let (vs, fin) = spec_repeat(p, input@, from as int);
                    let (rest, rfin) = spec_repeat(p, input@, at as int);
                    let (rest2, rfin2) = spec_repeat(p, input@, end as int);
                    assert(rest == seq![v.deep_view()] + rest2);
                    assert(acc.deep_view() =~= pre + seq![v.deep_view()]);
                    assert(pre + rest =~= (pre + seq![v.deep_view()]) + rest2);
                }
                at = end;
            },
            Err(_) => {
                break ;
            },
        }
    }
    proof {
        let (vs, fin) = spec_repeat(p, input@, from as int);
        let (rest, rfin) = spec_repeat(p, input@, at as int);
        assert(rest =~= seq![]);
        assert(acc.deep_view() + rest =~= acc.deep_view());
        assert(acc.deep_view() =~= acc0 + vs);
    }
    (acc, at)
}

/// Zero-or-more repetitions of `p`: collects results until `p` fails, and
/// never itself fails.
pub struct Many0<P> {
    pub p: P,
}

impl<P> Many0<P> {
    /// Repeat `p` zero or more times.
    pub fn new(p: P) -> (r: Self)
        ensures
            r == (Many0 { p }),
    {
        Many0 { p }
    }
}

impl<P: Parse> Parse for Many0<P> {
    type Output = Vec<P::Output>;

    open spec fn spec_parse(&self, s: Seq<u8>, from: int) -> SpecOutcome<
        Seq<<P::Output as DeepView>::V>,
    > {
        let (vs, fin) = spec_repeat(&self.p, s, from);
        Ok((vs, fin))
    }

    proof fn lemma_parse_bounds(&self, s: Seq<u8>, from: int) {
        lemma_repeat_bounds(&self.p, s, from);
    }

    fn parse(&self, input: &[u8], from: usize) -> (r: Result<(Self::Output, usize), ParseError>) {
        let empty: Vec<P::Output> = Vec::new();
        let (acc, end) = parse_repeat(&self.p, input, from, empty);
        proof {
            let (vs, fin) = spec_repeat(&self.p, input@, from as int);
            assert(acc.deep_view() =~= vs);
        }
        Ok((acc, end))
    }
}

/// One-or-more repetitions of `p`: fails with `EOF` on an exhausted cursor,
/// fails with `p`'s error if `p` fails immediately, and otherwise collects
/// results like [`Many0`].
pub struct Many1<P> {
    pub p: P,
}

impl<P> Many1<P> {
    /// Repeat `p` one or more times.
    pub fn new(p: P) -> (r: Self)
        ensures
            r == (Many1 { p }),
    {
        Many1 { p }
    }
}

impl<P: Parse> Parse for Many1<P> {
    type Output = Vec<P::Output>;

    open spec fn spec_parse(&self, s: Seq<u8>, from: int) -> SpecOutcome<
        Seq<<P::Output as DeepView>::V>,
    > {
        if from == s.len() {
            Err(ParseError::EOF)
        } else {
            match self.p.spec_parse(s, from) {
                Err(e) => Err(e),
                Ok((v, end)) => if from < end <= s.len() {
                    let (rest, fin) = spec_repeat(&self.p, s, end);
                    Ok((seq![v] + rest, fin))
                } else {
                    Ok((seq![v], end))
                },
            }
        }
    }

    proof fn lemma_parse_bounds(&self, s: Seq<u8>, from: int) {
        self.p.lemma_parse_bounds(s, from);
        if from < s.len() {
            if let Ok((v, end)) = self.p.spec_parse(s, from) {
                if from < end <= s.len() {
                    lemma_repeat_bounds(&self.p, s, end);
                }
            }
        }
    }

    fn parse(&self, input: &[u8], from: usize) -> (r: Result<(Self::Output, usize), ParseError>) {
        if from == input.len() {
            return Err(ParseError::EOF);
        }
        match self.p.parse(input, from) {
            Err(e) => Err(e),
            Ok((v, end)) => {
                let ghost v0 = v.deep_view();
                let mut first: Vec<P::Output> = Vec::new();
                first.push(v);
                proof {
                    assert(first.deep_view() =~= seq![v0]);
                }
                if end == from {
                    return Ok((first, end));
                }
                let (acc, fin) = parse_repeat(&self.p, input, end, first);
                proof {
                    let (rest, rfin) = spec_repeat(&self.p, input@, end as int);
                    assert(acc.deep_view() == seq![v0] + rest);
                }
                Ok((acc, fin))
            },
        }
    }
}

/// Exactly `n` consecutive repetitions of `p` on `s` from `from`; the first
/// failure of `p` before `n` is reached is propagated unchanged, and any
/// partial progress is discarded.
pub open spec fn spec_repeat_n<P: Parse>(p: &P, n: int, s: Seq<u8>, from: int) -> Result<
    (Seq<<P::Output as DeepView>::V>, int),
    ParseError,
>
    decreases n,
{
    if n <= 0 {
        Ok((seq![], from))
    } else {
        match p.spec_parse(s, from) {
            Err(e) => Err(e),
            Ok((v, end)) => match spec_repeat_n(p, n - 1, s, end) {
                Ok((vs, fin)) => Ok((seq![v] + vs, fin)),
                Err(e) => Err(e),
            },
        }
    }
}

/// An exact-count repetition never moves backwards nor past the buffer's end.
pub proof fn lemma_repeat_n_bounds<P: Parse>(p: &P, n: int, s: Seq<u8>, from: int)
    requires
        0 <= from <= s.len(),
    ensures
        spec_repeat_n(p, n, s, from) matches Ok((vs, fin)) ==> from <= fin <= s.len(),
    decreases n,
{
    if n > 0 {
        p.lemma_parse_bounds(s, from);
        if let Ok((v, end)) = p.spec_parse(s, from) {
            lemma_repeat_n_bounds(p, n - 1, s, end);
        }
    }
}

/// Exactly `n` repetitions of `p`: all-or-nothing.
pub struct ManyN<P> {
    pub n: usize,
    pub p: P,
}

impl<P> ManyN<P> {
    /// Repeat `p` exactly `n` times.
    pub fn new(p: P, n: usize) -> (r: Self)
        ensures
            r == (ManyN { n, p }),
    {
        ManyN { n, p }
    }
}

impl<P: Parse> Parse for ManyN<P> {
    type Output = Vec<P::Output>;

    open spec fn spec_parse(&self, s: Seq<u8>, from: int) -> SpecOutcome<
        Seq<<P::Output as DeepView>::V>,
    > {
        spec_repeat_n(&self.p, self.n as int, s, from)
    }

    proof fn lemma_parse_bounds(&self, s: Seq<u8>, from: int) {
        lemma_repeat_n_bounds(&self.p, self.n as int, s, from);
    }

    fn parse(&self, input: &[u8], from: usize) -> (r: Result<(Self::Output, usize), ParseError>) {
        let mut acc: Vec<P::Output> = Vec::new();
        let mut at: usize = from;
        let mut i: usize = 0;
        #[verifier::loop_isolation(false)]
        while i < self.n
            invariant
                from <= at <= input@.len(),
                i <= self.n,
                ({
                    let whole = spec_repeat_n(&self.p, self.n as int, input@, from as int);
                    match spec_repeat_n(&self.p, self.n - i, input@, at as int) {
                        Ok((suffix, fin)) => whole matches Ok((vs, wfin)) && vs == acc.deep_view()
                            + suffix && wfin == fin,
                        Err(e) => whole == Err::<
                            (Seq<<P::Output as DeepView>::V>, int),
                            ParseError,
                        >(e),
                    }
                }),
            decreases self.n - i,
        {
            proof {
                lemma_repeat_n_bounds(&self.p, self.n - i, input@, at as int);
            }
            match self.p.parse(input, at) {
                Err(e) => {
                    return Err(e);
                },
                Ok((v, end)) => {
                    let ghost pre = acc.deep_view();
                    acc.push(v);
                    proof {
                        assert(acc.deep_view() =~= pre + seq![v.deep_view()]);
                        if let Ok((suffix2, fin2)) = spec_repeat_n(
                            &self.p,
                            self.n - i - 1,
                            input@,
                            end as int,
                        ) {
                            let (suffix, fin) = spec_repeat_n(
                                &self.p,
                                self.n - i,
                                input@,
                                at as int,
                            ).unwrap();
                            assert(suffix == seq![v.deep_view()] + suffix2);
                            assert(pre + suffix =~= (pre + seq![v.deep_view()]) + suffix2);
                        }
                    }
                    at = end;
                    i = i + 1;
                },
            }
        }
        proof {
            let whole = spec_repeat_n(&self.p, self.n as int, input@, from as int);
            if let Ok((vs, wfin)) = whole {
                assert(vs =~= acc.deep_view());
            }
        }
        Ok((acc, at))
    }
}

// ---------------------------------------------------------------------------
// Optional
// ---------------------------------------------------------------------------
/// Tries `p`; never fails.  On `p`'s failure the cursor is restored to the
/// position before the attempt and the result is absent.
pub struct Optional<P> {
    pub p: P,
}

impl<P> Optional<P> {
    /// Try `p`, succeeding either way.
    pub fn new(p: P) -> (r: Self)
        ensures
            r == (Optional { p }),
    {
        Optional { p }
    }
}

impl<P: Parse> Parse for Optional<P> {
    type Output = Option<P::Output>;

    open spec fn spec_parse(&self, s: Seq<u8>, from: int) -> SpecOutcome<
        Option<<P::Output as DeepView>::V>,
    > {
        match self.p.spec_parse(s, from) {
            Ok((v, end)) => Ok((Some(v), end)),
            Err(_) => Ok((None, from)),
        }
    }

    proof fn lemma_parse_bounds(&self, s: Seq<u8>, from: int) {
        self.p.lemma_parse_bounds(s, from);
    }

    fn parse(&self, input: &[u8], from: usize) -> (r: Result<(Self::Output, usize), ParseError>) {
        match self.p.parse(input, from) {
            Ok((v, end)) => Ok((Some(v), end)),
            Err(_) => Ok((None, from)),
        }
    }
}

// ---------------------------------------------------------------------------
// Sequence
// ---------------------------------------------------------------------------
/// Runs `p1` then `p2` on `p1`'s remainder; succeeds only if both succeed,
/// yielding the ordered pair of outputs.  On `p2`'s failure, `p1`'s
/// consumption is not rolled back.
pub struct And<P1, P2> {
    pub p1: P1,
    pub p2: P2,
}

impl<P1, P2> And<P1, P2> {
    /// Sequence `p1` before `p2`.
    pub fn new(p1: P1, p2: P2) -> (r: Self)
        ensures
            r == (And { p1, p2 }),
    {
        And { p1, p2 }
    }
}

impl<P1: Parse, P2: Parse> Parse for And<P1, P2> {
    type Output = (P1::Output, P2::Output);

    open spec fn spec_parse(&self, s: Seq<u8>, from: int) -> SpecOutcome<
        (<P1::Output as DeepView>::V, <P2::Output as DeepView>::V),
    > {
        match self.p1.spec_parse(s, from) {
            Ok((a, mid)) => match self.p2.spec_parse(s, mid) {
                Ok((b, end)) => Ok(((a, b), end)),
                Err(e) => Err(e),
            },
            Err(e) => Err(e),
        }
    }

    proof fn lemma_parse_bounds(&self, s: Seq<u8>, from: int) {
        self.p1.lemma_parse_bounds(s, from);
        if let Ok((a, mid)) = self.p1.spec_parse(s, from) {
            self.p2.lemma_parse_bounds(s, mid);
        }
    }

    fn parse(&self, input: &[u8], from: usize) -> (r: Result<(Self::Output, usize), ParseError>) {
        match self.p1.parse(input, from) {
            Ok((a, mid)) => match self.p2.parse(input, mid) {
                Ok((b, end)) => Ok(((a, b), end)),
                Err(e) => Err(e),
            },
            Err(e) => Err(e),
        }
    }
}

// ---------------------------------------------------------------------------
// Alternation
// ---------------------------------------------------------------------------
/// Tries `p1`; on its failure, tries `p2` against the original input.  Both
/// branches must produce the same output type.  Fails only if both fail,
/// with `p2`'s error.
pub struct Or<P1, P2> {
    pub p1: P1,
    pub p2: P2,
}

impl<P1, P2> Or<P1, P2> {
    /// Try `p1`, falling back to `p2` from the same position.
    pub fn new(p1: P1, p2: P2) -> (r: Self)
        ensures
            r == (Or { p1, p2 }),
    {
        Or { p1, p2 }
    }
}

impl<P1: Parse, P2: Parse<Output = P1::Output>> Parse for Or<P1, P2> {
    type Output = P1::Output;

    open spec fn spec_parse(&self, s: Seq<u8>, from: int) -> SpecOutcome<
        <P1::Output as DeepView>::V,
    > {
        match self.p1.spec_parse(s, from) {
            Ok((a, end)) => Ok((a, end)),
            Err(_) => self.p2.spec_parse(s, from),
        }
    }

    proof fn lemma_parse_bounds(&self, s: Seq<u8>, from: int) {
        self.p1.lemma_parse_bounds(s, from);
        self.p2.lemma_parse_bounds(s, from);
    }

    fn parse(&self, input: &[u8], from: usize) -> (r: Result<(Self::Output, usize), ParseError>) {
        match self.p1.parse(input, from) {
            Ok((a, end)) => Ok((a, end)),
            Err(_) => self.p2.parse(input, from),
        }
    }
}

// ---------------------------------------------------------------------------
// Skipping
// ---------------------------------------------------------------------------
/// The side of a [`Skip`] pair whose output is discarded: [`Left`] discards
/// the first sub-parser's output, [`Right`] the second's.
pub trait SkipDirection {

}

/// Discard the first sub-parser's output.
pub struct Left;

impl SkipDirection for Left {

}

/// Discard the second sub-parser's output.
pub struct Right;

impl SkipDirection for Right {

}

/// Runs both sub-parsers in sequence, discarding one side's output.  Used to
/// consume delimiters without surfacing them in the result tree.
pub struct Skip<S: SkipDirection, P1, P2> {
    pub p1: P1,
    pub p2: P2,
    pub dir: core::marker::PhantomData<S>,
}

impl<P1, P2> Skip<Left, P1, P2> {
    /// Sequence `p1` before `p2`, keeping only `p2`'s output.
    pub fn new(p1: P1, p2: P2) -> (r: Self)
        ensures
            r.p1 == p1 && r.p2 == p2,
    {
        Skip { p1, p2, dir: core::marker::PhantomData }
    }
}

impl<P1, P2> Skip<Right, P1, P2> {
    /// Sequence `p1` before `p2`, keeping only `p1`'s output.
    pub fn new(p1: P1, p2: P2) -> (r: Self)
        ensures
            r.p1 == p1 && r.p2 == p2,
    {
        Skip { p1, p2, dir: core::marker::PhantomData }
    }
}

impl<P1: Parse, P2: Parse> Parse for Skip<Left, P1, P2> {
    type Output = P2::Output;

    open spec fn spec_parse(&self, s: Seq<u8>, from: int) -> SpecOutcome<
        <P2::Output as DeepView>::V,
    > {
        match self.p1.spec_parse(s, from) {
            Ok((_, mid)) => self.p2.spec_parse(s, mid),
            Err(e) => Err(e),
        }
    }

    proof fn lemma_parse_bounds(&self, s: Seq<u8>, from: int) {
        self.p1.lemma_parse_bounds(s, from);
        if let Ok((_, mid)) = self.p1.spec_parse(s, from) {
            self.p2.lemma_parse_bounds(s, mid);
        }
    }

    fn parse(&self, input: &[u8], from: usize) -> (r: Result<(Self::Output, usize), ParseError>) {
        match self.p1.parse(input, from) {
            Ok((_, mid)) => self.p2.parse(input, mid),
            Err(e) => Err(e),
        }
    }
}

impl<P1: Parse, P2: Parse> Parse for Skip<Right, P1, P2> {
    type Output = P1::Output;

    open spec fn spec_parse(&self, s: Seq<u8>, from: int) -> SpecOutcome<
        <P1::Output as DeepView>::V,
    > {
        match self.p1.spec_parse(s, from) {
            Ok((a, mid)) => match self.p2.spec_parse(s, mid) {
                Ok((_, end)) => Ok((a, end)),
                Err(e) => Err(e),
            },
            Err(e) => Err(e),
        }
    }

    proof fn lemma_parse_bounds(&self, s: Seq<u8>, from: int) {
        self.p1.lemma_parse_bounds(s, from);
        if let Ok((a, mid)) = self.p1.spec_parse(s, from) {
            self.p2.lemma_parse_bounds(s, mid);
        }
    }

    fn parse(&self, input: &[u8], from: usize) -> (r: Result<(Self::Output, usize), ParseError>) {
        match self.p1.parse(input, from) {
            Ok((a, mid)) => match self.p2.parse(input, mid) {
                Ok((_, end)) => Ok((a, end)),
                Err(e) => Err(e),
            },
            Err(e) => Err(e),
        }
    }
}

/// Runs `p`, then advances the remainder by `n` further bytes without
/// looking at them — a fixed-width delimiter skip.  Unlike an unchecked
/// advance, it fails with `EOF` when fewer than `n` bytes remain.
pub struct SkipN<P> {
    pub p: P,
    pub n: usize,
}

impl<P> SkipN<P> {
    /// Run `p`, then skip `n` bytes.
    pub fn new(p: P, n: usize) -> (r: Self)
        ensures
            r == (SkipN { p, n }),
    {
        SkipN { p, n }
    }
}

impl<P: Parse> Parse for SkipN<P> {
    type Output = P::Output;

    open spec fn spec_parse(&self, s: Seq<u8>, from: int) -> SpecOutcome<
        <P::Output as DeepView>::V,
    > {
        match self.p.spec_parse(s, from) {
            Ok((v, mid)) => if mid + self.n <= s.len() {
                Ok((v, mid + self.n))
            } else {
                Err(ParseError::EOF)
            },
            Err(e) => Err(e),
        }
    }

    proof fn lemma_parse_bounds(&self, s: Seq<u8>, from: int) {
        self.p.lemma_parse_bounds(s, from);
    }

    fn parse(&self, input: &[u8], from: usize) -> (r: Result<(Self::Output, usize), ParseError>) {
        match self.p.parse(input, from) {
            Ok((v, mid)) => if self.n <= input.len() - mid {
                Ok((v, mid + self.n))
            } else {
                Err(ParseError::EOF)
            },
            Err(e) => Err(e),
        }
    }
}

// ---------------------------------------------------------------------------
// Scanning
// ---------------------------------------------------------------------------
/// The first position `k >= at` at which `p` matches in `s`, if any.
pub open spec fn spec_find_match<P: Parse>(p: &P, s: Seq<u8>, at: int) -> Option<int>
    decreases s.len() - at,
{
    if !(0 <= at <= s.len()) {
        None
    } else if p.spec_parse(s, at) is Ok {
        Some(at)
    } else if at == s.len() {
        None
    } else {
        spec_find_match(p, s, at + 1)
    }
}

/// What a found position means: `p` matches there, nowhere earlier, and the
/// position lies in the scanned range.
pub proof fn lemma_find_match<P: Parse>(p: &P, s: Seq<u8>, at: int)
    requires
        0 <= at <= s.len(),
    ensures
        spec_find_match(p, s, at) matches Some(k) ==> at <= k <= s.len() && p.spec_parse(s, k)
            is Ok && forall|j: int| at <= j < k ==> !(#[trigger] p.spec_parse(s, j) is Ok),
        spec_find_match(p, s, at) is None ==> forall|j: int|
            at <= j <= s.len() ==> !(#[trigger] p.spec_parse(s, j) is Ok),
    decreases s.len() - at,
{
    if p.spec_parse(s, at) is Ok {
    } else if at < s.len() {
        lemma_find_match(p, s, at + 1);
    }
}

/// Scans forward from the cursor, testing `p` at each successive position.
/// The prefix before the first match is the result; the delimiter itself is
/// left unconsumed.  If `p` never matches, the entire remaining input is the
/// result.  Fails with `EOF` only when the cursor is already exhausted.
pub struct TakeUntil<P> {
    pub p: P,
}

impl<P> TakeUntil<P> {
    /// Take everything up to the first match of `p`.
    pub fn new(p: P) -> (r: Self)
        ensures
            r == (TakeUntil { p }),
    {
        TakeUntil { p }
    }
}

impl<P: Parse> Parse for TakeUntil<P> {
    type Output = Span;

    open spec fn spec_parse(&self, s: Seq<u8>, from: int) -> SpecOutcome<SpanV> {
        if from == s.len() {
            Err(ParseError::EOF)
        } else {
            match spec_find_match(&self.p, s, from) {
                Some(k) => Ok((SpanV { at: from, len: k - from }, k)),
                None => Ok((SpanV { at: from, len: s.len() - from }, s.len() as int)),
            }
        }
    }

    proof fn lemma_parse_bounds(&self, s: Seq<u8>, from: int) {
        if from < s.len() {
            lemma_find_match(&self.p, s, from);
        }
    }

    fn parse(&self, input: &[u8], from: usize) -> (r: Result<(Self::Output, usize), ParseError>) {
        if from == input.len() {
            return Err(ParseError::EOF);
        }
        let mut at: usize = from;
        #[verifier::loop_isolation(false)]
        loop
            invariant
                from < input@.len(),
                from <= at <= input@.len(),
                spec_find_match(&self.p, input@, from as int) == spec_find_match(
                    &self.p,
                    input@,
                    at as int,
                ),
            decreases input@.len() - at,
        {
            match self.p.parse(input, at) {
                Ok(_) => {
                    return Ok((Span::new(from, at - from), at));
                },
                Err(_) => {
                    if at == input.len() {
                        return Ok((Span::new(from, at - from), at));
                    }
                    at = at + 1;
                },
            }
        }
    }
}

/// The first position `k >= at` at which the byte literal `lit` matches
/// in `s`, if any.
pub open spec fn spec_find_lit(lit: Seq<u8>, s: Seq<u8>, at: int) -> Option<int>
    decreases s.len() - at,
{
    if !(0 <= at <= s.len()) {
        None
    } else if spec_literal(lit, s, at) is Ok {
        Some(at)
    } else if at == s.len() {
        None
    } else {
        spec_find_lit(lit, s, at + 1)
    }
}

/// The literal-delimiter scan, written over the literal's bytes alone: the
/// prefix before the delimiter's first occurrence, or the whole remaining
/// input when it never occurs; `EOF` on an exhausted cursor.
pub open spec fn spec_take_until_lit(lit: Seq<u8>, s: Seq<u8>, from: int) -> SpecOutcome<SpanV> {
    if from == s.len() {
        Err(ParseError::EOF)
    } else {
        match spec_find_lit(lit, s, from) {
            Some(k) => Ok((SpanV { at: from, len: k - from }, k)),
            None => Ok((SpanV { at: from, len: s.len() - from }, s.len() as int)),
        }
    }
}

proof fn lemma_find_match_literal(p: &Literal, s: Seq<u8>, at: int)
    ensures
        spec_find_match(p, s, at) == spec_find_lit(p.bytes@, s, at),
    decreases s.len() - at,
{
    if 0 <= at <= s.len() && !(p.spec_parse(s, at) is Ok) && at < s.len() {
        lemma_find_match_literal(p, s, at + 1);
    }
}

/// Scanning for a literal matcher means exactly the literal-delimiter scan
/// over its bytes.
pub broadcast proof fn lemma_take_until_literal(tu: TakeUntil<Literal>, s: Seq<u8>, from: int)
    ensures
        #[trigger] tu.spec_parse(s, from) == spec_take_until_lit(tu.p.bytes@, s, from),
{
    lemma_find_match_literal(&tu.p, s, from);
}

/// The length of the longest run of bytes satisfying `f` in `s` from `at`.
pub open spec fn spec_run_len<F: Predicate>(f: &F, s: Seq<u8>, at: int) -> int
    decreases s.len() - at,
{
    if !(0 <= at < s.len()) {
        0
    } else if f.spec_test(s[at]) {
        1 + spec_run_len(f, s, at + 1)
    } else {
        0
    }
}

/// The run stays inside the buffer.
pub proof fn lemma_run_len_bounds<F: Predicate>(f: &F, s: Seq<u8>, at: int)
    requires
        0 <= at <= s.len(),
    ensures
        0 <= spec_run_len(f, s, at) <= s.len() - at,
    decreases s.len() - at,
{
    if at < s.len() && f.spec_test(s[at]) {
        lemma_run_len_bounds(f, s, at + 1);
    }
}

/// A successful scan yields the prefix view exactly: it starts at the scan
/// position, ends where the remainder begins, and lies inside the buffer.
pub proof fn lemma_take_until_wf<P: Parse>(tu: TakeUntil<P>, s: Seq<u8>, from: int)
    requires
        0 <= from <= s.len(),
    ensures
        tu.spec_parse(s, from) matches Ok((v, end)) ==> v.at == from && v.end() == end && v.wf(s)
            && from <= end <= s.len(),
{
    if from < s.len() {
        lemma_find_match(&tu.p, s, from);
    }
}

/// Takes the longest prefix whose bytes all satisfy the predicate `f`;
/// splits at the first failing byte or at exhaustion, and never fails.
pub struct TakeWhile<F> {
    pub f: F,
}

impl<F> TakeWhile<F> {
    /// Take bytes while `f` holds.
    pub fn new(f: F) -> (r: Self)
        ensures
            r == (TakeWhile { f }),
    {
        TakeWhile { f }
    }
}

impl<F: Predicate> Parse for TakeWhile<F> {
    type Output = Span;

    open spec fn spec_parse(&self, s: Seq<u8>, from: int) -> SpecOutcome<SpanV> {
        let n = spec_run_len(&self.f, s, from);
        Ok((SpanV { at: from, len: n }, from + n))
    }

    proof fn lemma_parse_bounds(&self, s: Seq<u8>, from: int) {
        lemma_run_len_bounds(&self.f, s, from);
    }

    fn parse(&self, input: &[u8], from: usize) -> (r: Result<(Self::Output, usize), ParseError>) {
        let mut at: usize = from;
        loop
            invariant
                from <= at <= input@.len(),
                spec_run_len(&self.f, input@, from as int) == (at - from) + spec_run_len(
                    &self.f,
                    input@,
                    at as int,
                ),
            ensures
                spec_run_len(&self.f, input@, at as int) == 0,
            decreases input@.len() - at,
        {
            if at == input.len() {
                break ;
            }
            let b = *vstd::slice::slice_index_get(input, at);
            if self.f.test(b) {
                at = at + 1;
            } else {
                break ;
            }
        }
        proof {
            lemma_run_len_bounds(&self.f, input@, at as int);
        }
        Ok((Span::new(from, at - from), at))
    }
}

} // verus!
