//! Properties the library guarantees, stated and proved once over every
//! parser and input.
//!
//! Each proof function here is a public statement about the spec-level
//! meaning of a combinator or matcher; the executable parsers are separately
//! proved to return exactly those meanings, so these laws carry over to
//! every run.

use vstd::prelude::*;

use crate::combinator::{
    lemma_find_match, spec_find_match, spec_repeat_n, Many0, Many1, ManyN, Or, TakeUntil,
};
use crate::error::ParseError;
use crate::matcher::{spec_literal, Literal};
use crate::parser::Parse;
use crate::span::SpanV;

verus! {

/// Scanning for a literal delimiter partitions the input: on success the
/// prefix and the remainder together are exactly the scanned input, the
/// remainder starts with the delimiter wherever one was found, and no
/// delimiter occurrence starts inside the prefix.  When the delimiter never
/// occurs, the whole remaining input is the prefix and the remainder is
/// empty.  Failure happens exactly on an exhausted cursor.
pub proof fn lemma_take_until_literal_partition(tu: TakeUntil<Literal>, s: Seq<u8>, from: int)
    requires
        0 <= from <= s.len(),
    ensures
        tu.spec_parse(s, from) matches Ok((prefix, end)) ==> {
            let lit = tu.p.bytes@;
            &&& prefix.at == from && from <= end <= s.len() && prefix.len == end - from
            &&& prefix.bytes(s) + s.skip(end) =~= s.skip(from)
            &&& forall|j: int|
                from <= j < end ==> s.len() - j >= lit.len() ==> #[trigger] s.subrange(
                    j,
                    j + lit.len(),
                ) != lit
            &&& (end == s.len() || (s.len() - end >= lit.len() && s.subrange(
                end,
                end + lit.len(),
            ) == lit))
        },
        tu.spec_parse(s, from) is Err <==> from == s.len(),
{
    if from < s.len() {
        lemma_find_match(&tu.p, s, from);
        match spec_find_match(&tu.p, s, from) {
            Some(k) => {
                let lit = tu.p.bytes@;
                let prefix = SpanV { at: from, len: k - from };
                assert(tu.p.spec_parse(s, k) is Ok);
                assert(s.len() - k >= lit.len() && s.subrange(k, k + lit.len()) == lit);
                assert(prefix.bytes(s) + s.skip(k) =~= s.skip(from));
                assert forall|j: int|
                    from <= j < k && s.len() - j >= lit.len() implies #[trigger] s.subrange(
                    j,
                    j + lit.len(),
                ) != lit by {
                    assert(!(tu.p.spec_parse(s, j) is Ok));
                }
            },
            None => {
                let prefix = SpanV { at: from, len: s.len() - from };
                assert(prefix.bytes(s) + s.skip(s.len() as int) =~= s.skip(from));
                let lit = tu.p.bytes@;
                assert forall|j: int|
                    from <= j < s.len() && s.len() - j >= lit.len() implies #[trigger] s.subrange(
                    j,
                    j + lit.len(),
                ) != lit by {
                    assert(!(tu.p.spec_parse(s, j) is Ok));
                }
            },
        }
    }
}

/// Zero-or-more repetition never fails, whatever the sub-parser and input.
pub proof fn lemma_many0_never_fails<P: Parse>(m: Many0<P>, s: Seq<u8>, from: int)
    ensures
        m.spec_parse(s, from) is Ok,
{
}

/// One-or-more repetition fails exactly when the cursor is already
/// exhausted (with `EOF`, before the sub-parser is even consulted) or when
/// the sub-parser fails immediately (with that failure).
pub proof fn lemma_many1_failure<P: Parse>(m: Many1<P>, s: Seq<u8>, from: int)
    requires
        0 <= from <= s.len(),
    ensures
        m.spec_parse(s, from) is Err <==> (from == s.len() || m.p.spec_parse(s, from) is Err),
        from == s.len() ==> m.spec_parse(s, from) == Err::<
            (Seq<<P::Output as DeepView>::V>, int),
            ParseError,
        >(ParseError::EOF),
        from < s.len() ==> (m.p.spec_parse(s, from) matches Err(e) ==> m.spec_parse(s, from)
            == Err::<(Seq<<P::Output as DeepView>::V>, int), ParseError>(e)),
{
}

/// Alternation with matching output types: where the first branch succeeds
/// the result is the first branch's; where it fails, the result is the
/// second branch's on the very same starting position — including, when
/// both branches fail, the second branch's failure.
pub proof fn lemma_or_alternation<P1: Parse, P2: Parse<Output = P1::Output>>(
    o: Or<P1, P2>,
    s: Seq<u8>,
    from: int,
)
    ensures
        o.p1.spec_parse(s, from) is Ok ==> o.spec_parse(s, from) == o.p1.spec_parse(s, from),
        o.p1.spec_parse(s, from) is Err ==> o.spec_parse(s, from) == o.p2.spec_parse(s, from),
{
}

/// Matching a buffer exactly equal to the literal consumes it all, leaving
/// an empty remainder; a buffer that is a strict prefix of the literal
/// reports `Indeterminate` — never `Invalid`.
pub proof fn lemma_literal_exact_or_short(l: Literal, s: Seq<u8>)
    ensures
        s == l.bytes@ ==> l.spec_parse(s, 0) == Ok::<_, ParseError>(
            (SpanV { at: 0, len: l.bytes@.len() as int }, s.len() as int),
        ),
        s.len() < l.bytes@.len() && s == l.bytes@.take(s.len() as int) ==> l.spec_parse(s, 0)
            == Err::<(SpanV, int), _>(ParseError::Indeterminate),
{
    if s == l.bytes@ {
        assert(s.subrange(0, l.bytes@.len() as int) =~= l.bytes@);
    }
}

/// Exact-count repetition is all-or-nothing: when the sub-parser succeeds
/// twice and then fails before a count of three is reached, the repetition
/// fails outright with the sub-parser's own error, handing back no partial
/// two-element result.
pub proof fn lemma_exact_repeat_discards_partial<P: Parse>(
    m: ManyN<P>,
    s: Seq<u8>,
    from: int,
    mid1: int,
    mid2: int,
    e: ParseError,
)
    requires
        m.n == 3,
        m.p.spec_parse(s, from) matches Ok((v, end)) && end == mid1,
        m.p.spec_parse(s, mid1) matches Ok((v, end)) && end == mid2,
        m.p.spec_parse(s, mid2) matches Err(e2) && e2 == e,
    ensures
        m.spec_parse(s, from) == Err::<(Seq<<P::Output as DeepView>::V>, int), ParseError>(e),
{
    assert(spec_repeat_n(&m.p, 1, s, mid2) == Err::<
        (Seq<<P::Output as DeepView>::V>, int),
        ParseError,
    >(e));
    assert(spec_repeat_n(&m.p, 2, s, mid1) == Err::<
        (Seq<<P::Output as DeepView>::V>, int),
        ParseError,
    >(e));
    assert(spec_repeat_n(&m.p, 3, s, from) == Err::<
        (Seq<<P::Output as DeepView>::V>, int),
        ParseError,
    >(e));
}

} // verus!
