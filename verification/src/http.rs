//! The reference HTTP/1.1 request grammar: one request line, one or more
//! colon-delimited headers, and a terminating blank line.
//!
//! This module carries the builder-accumulator realization of the grammar:
//! a result record is seeded through [`State`], filled field by field
//! through mapped, skip-chained steps, and finalized once the grammar has
//! matched.  The grammar itself is a demonstration of the combinator
//! toolkit, not a standards-complete HTTP implementation.

use vstd::prelude::*;
use vstd::string::StringSliceAdditionalSpecFns;

use crate::cell::Cell;
use crate::combinator::{
    spec_repeat, spec_take_until_lit, And, Many1, Mapped, Or, Right, Skip, SkipN, State, TakeUntil,
};
use crate::error::ParseError;
use crate::matcher::{lemma_alternatives_bounds, spec_alternatives, spec_literal, Literal, One, OneOf};
use crate::normalize::{CR, LF};
use crate::parser::{Parse, Seed, SpecOutcome, Transform};
use crate::span::{Span, SpanV};

verus! {

/// The space byte.
pub const SP: u8 = 32;

/// The colon byte.
pub const COLON: u8 = 58;

/// A two-byte matcher built from two single-byte matchers in sequence.
pub type BytePair = And<One<u8>, One<u8>>;

/// The parser recognizing one `NAME ":" SP VALUE CRLF` header line,
/// yielding the name and value spans.
pub type HeaderParser = Skip<
    Right,
    And<Skip<Right, TakeUntil<One<u8>>, BytePair>, TakeUntil<BytePair>>,
    BytePair,
>;

/// The request-line parser before reshaping: method, then path and version
/// delimited by spaces, terminated by CRLF.
pub type RequestLineCore = Skip<
    Right,
    And<
        Skip<Right, And<Skip<Right, OneOf<Vec<u8>>, One<u8>>, TakeUntil<One<u8>>>, One<u8>>,
        TakeUntil<BytePair>,
    >,
    BytePair,
>;

/// The request-line parser yielding the `(method, path, version)` triple.
pub type RequestLineParser = Mapped<RequestLineCore, FlattenRequestLine>;

/// The chain that seeds a builder and fills its request-line fields.
pub type SeededRequestLine = Mapped<And<State<NewBuilder>, RequestLineParser>, ApplyRequestLine>;

/// The chain that also fills the builder's header list.
pub type SeededHeaders = Mapped<And<SeededRequestLine, Many1<HeaderParser>>, ApplyHeaders>;

/// The whole-message parser: request line, headers, terminating blank line.
pub type MessageParser = Skip<Right, SeededHeaders, BytePair>;

/// The CRLF matcher.
pub open spec fn spec_crlf_pair() -> BytePair {
    And { p1: One { val: CR }, p2: One { val: LF } }
}

/// The `": "` matcher separating a header name from its value.
pub open spec fn spec_colon_sp() -> BytePair {
    And { p1: One { val: COLON }, p2: One { val: SP } }
}

/// The header-line parser value.
pub open spec fn spec_header_parser() -> HeaderParser {
    Skip {
        p1: And {
            p1: Skip {
                p1: TakeUntil { p: One { val: COLON } },
                p2: spec_colon_sp(),
                dir: core::marker::PhantomData,
            },
            p2: TakeUntil { p: spec_crlf_pair() },
        },
        p2: spec_crlf_pair(),
        dir: core::marker::PhantomData,
    }
}

/// The recognized method literals, tried in this fixed order.
pub open spec fn spec_methods() -> Seq<Seq<u8>> {
    seq![
        "GET".spec_bytes(),
        "POST".spec_bytes(),
        "PUT".spec_bytes(),
        "DELETE".spec_bytes(),
        "HEAD".spec_bytes(),
        "CONNECT".spec_bytes(),
        "OPTIONS".spec_bytes(),
        "TRACE".spec_bytes(),
        "PATCH".spec_bytes(),
    ]
}

/// What parsing the request line at `from` means: one method out of
/// [`spec_methods`], a space, the path up to the next space, a space, the
/// version up to CRLF, and the CRLF itself.
pub open spec fn spec_request_line(s: Seq<u8>, from: int) -> SpecOutcome<(SpanV, SpanV, SpanV)> {
    match spec_alternatives(spec_methods(), s, from) {
        Err(e) => Err(e),
        Ok((m, a)) => match (One { val: SP }).spec_parse(s, a) {
            Err(e) => Err(e),
            Ok((_, b)) => match (TakeUntil { p: One { val: SP } }).spec_parse(s, b) {
                Err(e) => Err(e),
                Ok((path, c)) => match (One { val: SP }).spec_parse(s, c) {
                    Err(e) => Err(e),
                    Ok((_, d)) => match (TakeUntil { p: spec_crlf_pair() }).spec_parse(s, d) {
                        Err(e) => Err(e),
                        Ok((ver, f)) => match spec_crlf_pair().spec_parse(s, f) {
                            Err(e) => Err(e),
                            Ok((_, g)) => Ok(((m, path, ver), g)),
                        },
                    },
                },
            },
        },
    }
}

/// What parsing the whole message at the buffer's start means: the request
/// line, one or more header lines, and a terminating blank line.
pub open spec fn spec_http(s: Seq<u8>) -> SpecOutcome<
    ((SpanV, SpanV, SpanV), Seq<(SpanV, SpanV)>),
> {
    match spec_request_line(s, 0) {
        Err(e) => Err(e),
        Ok((line, a)) => match (Many1 { p: spec_header_parser() }).spec_parse(s, a) {
            Err(e) => Err(e),
            Ok((hs, b)) => match spec_crlf_pair().spec_parse(s, b) {
                Err(e) => Err(e),
                Ok((_, c)) => Ok(((line, hs), c)),
            },
        },
    }
}

// ---------------------------------------------------------------------------
// The result record and its builder
// ---------------------------------------------------------------------------
/// A parsed request: the three request-line fields and the ordered header
/// list, copied out of the input buffer.
pub struct Request {
    pub method: Vec<u8>,
    pub path: Vec<u8>,
    pub http: Vec<u8>,
    pub headers: Vec<(Vec<u8>, Vec<u8>)>,
}

/// The spec-level counterpart of [`RequestBuilder`].
pub ghost struct RequestBuilderV {
    pub method: Option<SpanV>,
    pub path: Option<SpanV>,
    pub http: Option<SpanV>,
    pub headers: Seq<(SpanV, SpanV)>,
}

/// Accumulates the request fields as optional spans while the grammar
/// matches; finalizing with any field unset is a caller contract violation,
/// unreachable once the grammar has matched.
pub struct RequestBuilder {
    pub method: Option<Span>,
    pub path: Option<Span>,
    pub http: Option<Span>,
    pub headers: Vec<(Span, Span)>,
}

impl DeepView for RequestBuilder {
    type V = RequestBuilderV;

    open spec fn deep_view(&self) -> RequestBuilderV {
        RequestBuilderV {
            method: self.method.deep_view(),
            path: self.path.deep_view(),
            http: self.http.deep_view(),
            headers: self.headers.deep_view(),
        }
    }
}

impl RequestBuilder {
    /// An empty builder with no field set.
    pub fn new() -> (r: Self)
        ensures
            r.deep_view() == (RequestBuilderV {
                method: None,
                path: None,
                http: None,
                headers: Seq::<(SpanV, SpanV)>::empty(),
            }),
    {
        let r = RequestBuilder { method: None, path: None, http: None, headers: Vec::new() };
        proof {
            assert(r.headers.deep_view() =~= Seq::<(SpanV, SpanV)>::empty());
        }
        r
    }

    /// True when every field is set and every recorded span lies inside the
    /// buffer `s`.
    pub open spec fn complete(self, s: Seq<u8>) -> bool {
        &&& self.method matches Some(m) && m@.wf(s)
        &&& self.path matches Some(p) && p@.wf(s)
        &&& self.http matches Some(h) && h@.wf(s)
        &&& forall|i: int|
            0 <= i < self.headers@.len() ==> (#[trigger] self.headers@[i]).0@.wf(s)
                && self.headers@[i].1@.wf(s)
    }

    /// Finalize into a [`Request`], copying every recorded span out of
    /// `input`.
    pub fn build(self, input: &[u8]) -> (r: Request)
        requires
            self.complete(input@),
        ensures
            r.method@ == self.method.unwrap()@.bytes(input@),
            r.path@ == self.path.unwrap()@.bytes(input@),
            r.http@ == self.http.unwrap()@.bytes(input@),
            r.headers@.len() == self.headers@.len(),
            forall|i: int|
                0 <= i < self.headers@.len() ==> (#[trigger] r.headers@[i]).0@
                    == self.headers@[i].0@.bytes(input@) && r.headers@[i].1@
                    == self.headers@[i].1@.bytes(input@),
    {
        let method = match self.method {
            Some(m) => m.to_vec(input),
            None => Vec::new(),
        };
        let path = match self.path {
            Some(p) => p.to_vec(input),
            None => Vec::new(),
        };
        let http = match self.http {
            Some(h) => h.to_vec(input),
            None => Vec::new(),
        };
        let n = self.headers.len();
        let mut headers: Vec<(Vec<u8>, Vec<u8>)> = Vec::new();
        let mut i: usize = 0;
        #[verifier::loop_isolation(false)]
        while i < n
            invariant
                i <= n,
                headers@.len() == i,
                forall|j: int|
                    0 <= j < i ==> (#[trigger] headers@[j]).0@ == self.headers@[j].0@.bytes(input@)
                        && headers@[j].1@ == self.headers@[j].1@.bytes(input@),
            decreases n - i,
        {
            let (a, b) = self.headers[i];
            headers.push((a.to_vec(input), b.to_vec(input)));
            i = i + 1;
        }
        Request { method, path, http, headers }
    }
}

// ---------------------------------------------------------------------------
// The mapped steps of the builder chain
// ---------------------------------------------------------------------------
/// Produces the empty builder that seeds the chain.
pub struct NewBuilder;

impl Seed for NewBuilder {
    type Out = RequestBuilder;

    open spec fn spec_seed(&self) -> RequestBuilderV {
        RequestBuilderV {
            method: None,
            path: None,
            http: None,
            headers: Seq::<(SpanV, SpanV)>::empty(),
        }
    }

    fn seed(&self) -> (r: RequestBuilder) {
        RequestBuilder::new()
    }
}

/// Reshapes the nested request-line pair into a flat triple.
pub struct FlattenRequestLine;

impl Transform for FlattenRequestLine {
    type In = ((Span, Span), Span);

    type Out = (Span, Span, Span);

    open spec fn spec_apply(&self, x: ((SpanV, SpanV), SpanV)) -> (SpanV, SpanV, SpanV) {
        (x.0.0, x.0.1, x.1)
    }

    fn apply(&self, x: ((Span, Span), Span)) -> (r: (Span, Span, Span)) {
        let ((m, p), v) = x;
        (m, p, v)
    }
}

/// Records the parsed request-line triple in the builder.
pub struct ApplyRequestLine;

impl Transform for ApplyRequestLine {
    type In = (RequestBuilder, (Span, Span, Span));

    type Out = RequestBuilder;

    open spec fn spec_apply(&self, x: (RequestBuilderV, (SpanV, SpanV, SpanV))) -> RequestBuilderV {
        RequestBuilderV {
            method: Some(x.1.0),
            path: Some(x.1.1),
            http: Some(x.1.2),
            headers: x.0.headers,
        }
    }

    fn apply(&self, x: (RequestBuilder, (Span, Span, Span))) -> (r: RequestBuilder) {
        let (b, (m, p, v)) = x;
        RequestBuilder { method: Some(m), path: Some(p), http: Some(v), headers: b.headers }
    }
}

/// Records the parsed header list in the builder.
pub struct ApplyHeaders;

impl Transform for ApplyHeaders {
    type In = (RequestBuilder, Vec<(Span, Span)>);

    type Out = RequestBuilder;

    open spec fn spec_apply(&self, x: (RequestBuilderV, Seq<(SpanV, SpanV)>)) -> RequestBuilderV {
        RequestBuilderV { method: x.0.method, path: x.0.path, http: x.0.http, headers: x.1 }
    }

    fn apply(&self, x: (RequestBuilder, Vec<(Span, Span)>)) -> (r: RequestBuilder) {
        let (b, hs) = x;
        RequestBuilder { method: b.method, path: b.path, http: b.http, headers: hs }
    }
}

/// The method matcher: the nine literals of [`spec_methods`], tried in
/// that order.
pub fn http_methods() -> (r: OneOf<Vec<u8>>)
    ensures
        r.xs.deep_view() == spec_methods(),
{
    let mut xs: Vec<Vec<u8>> = Vec::new();
    xs.push(vstd::slice::slice_to_vec("GET".as_bytes()));
    xs.push(vstd::slice::slice_to_vec("POST".as_bytes()));
    xs.push(vstd::slice::slice_to_vec("PUT".as_bytes()));
    xs.push(vstd::slice::slice_to_vec("DELETE".as_bytes()));
    xs.push(vstd::slice::slice_to_vec("HEAD".as_bytes()));
    xs.push(vstd::slice::slice_to_vec("CONNECT".as_bytes()));
    xs.push(vstd::slice::slice_to_vec("OPTIONS".as_bytes()));
    xs.push(vstd::slice::slice_to_vec("TRACE".as_bytes()));
    xs.push(vstd::slice::slice_to_vec("PATCH".as_bytes()));
    proof {
        assert forall|i: int| 0 <= i < 9 implies xs.deep_view()[i] == spec_methods()[i] by {
            assert(xs@[i].deep_view() =~= xs@[i]@);
        }
        assert(xs.deep_view() =~= spec_methods());
    }
    OneOf { xs }
}


// ---------------------------------------------------------------------------
// The assembled parser and its meaning
// ---------------------------------------------------------------------------
/// The request-line parser built around the method matcher `m`, before
/// reshaping.
pub open spec fn spec_request_line_core(m: OneOf<Vec<u8>>) -> RequestLineCore {
    Skip {
        p1: And {
            p1: Skip {
                p1: And {
                    p1: Skip { p1: m, p2: One { val: SP }, dir: core::marker::PhantomData },
                    p2: TakeUntil { p: One { val: SP } },
                },
                p2: One { val: SP },
                dir: core::marker::PhantomData,
            },
            p2: TakeUntil { p: spec_crlf_pair() },
        },
        p2: spec_crlf_pair(),
        dir: core::marker::PhantomData,
    }
}

/// The request-line parser built around the method matcher `m`.
pub open spec fn spec_request_line_parser(m: OneOf<Vec<u8>>) -> RequestLineParser {
    Mapped { p: spec_request_line_core(m), f: FlattenRequestLine }
}

/// The whole-message parser built around the method matcher `m`.
pub open spec fn spec_message_parser(m: OneOf<Vec<u8>>) -> MessageParser {
    Skip {
        p1: Mapped {
            p: And {
                p1: Mapped {
                    p: And { p1: State { init: NewBuilder }, p2: spec_request_line_parser(m) },
                    f: ApplyRequestLine,
                },
                p2: Many1 { p: spec_header_parser() },
            },
            f: ApplyHeaders,
        },
        p2: spec_crlf_pair(),
        dir: core::marker::PhantomData,
    }
}

/// What the whole-message parse means for the builder: the filled record
/// on success, the grammar's failure otherwise.
pub open spec fn spec_http_builder(s: Seq<u8>) -> SpecOutcome<RequestBuilderV> {
    match spec_http(s) {
        Ok((v, end)) => Ok(
            (
                RequestBuilderV {
                    method: Some(v.0.0),
                    path: Some(v.0.1),
                    http: Some(v.0.2),
                    headers: v.1,
                },
                end,
            ),
        ),
        Err(e) => Err(e),
    }
}

/// With the method matcher holding exactly [`spec_methods`], the built
/// request-line parser denotes [`spec_request_line`].
pub proof fn lemma_request_line_spec(m: OneOf<Vec<u8>>, s: Seq<u8>, from: int)
    requires
        m.xs.deep_view() == spec_methods(),
    ensures
        spec_request_line_parser(m).spec_parse(s, from) == spec_request_line(s, from),
{
}

/// With the method matcher holding exactly [`spec_methods`], the built
/// whole-message parser denotes [`spec_http_builder`].
pub proof fn lemma_message_spec(m: OneOf<Vec<u8>>, s: Seq<u8>)
    requires
        m.xs.deep_view() == spec_methods(),
    ensures
        spec_message_parser(m).spec_parse(s, 0) == spec_http_builder(s),
{
    lemma_request_line_spec(m, s, 0);
}


/// A successfully parsed header line's spans lie inside the buffer.
pub proof fn lemma_header_wf(s: Seq<u8>, from: int)
    requires
        0 <= from <= s.len(),
    ensures
        spec_header_parser().spec_parse(s, from) matches Ok((h, end)) ==> from <= end <= s.len()
            && h.0.wf(s) && h.1.wf(s),
{
    let tu1 = TakeUntil { p: One { val: COLON } };
    crate::combinator::lemma_take_until_wf(tu1, s, from);
    if let Ok((name, a)) = tu1.spec_parse(s, from) {
        spec_colon_sp().lemma_parse_bounds(s, a);
        if let Ok((_, b)) = spec_colon_sp().spec_parse(s, a) {
            let tu2 = TakeUntil { p: spec_crlf_pair() };
            crate::combinator::lemma_take_until_wf(tu2, s, b);
            if let Ok((value, c)) = tu2.spec_parse(s, b) {
                spec_crlf_pair().lemma_parse_bounds(s, c);
            }
        }
    }
}

/// Every span collected by the repeated header parser lies inside the
/// buffer, and the repetition stays in bounds.
pub proof fn lemma_headers_wf(s: Seq<u8>, from: int)
    requires
        0 <= from <= s.len(),
    ensures
        ({
            let (hs, fin) = spec_repeat(&spec_header_parser(), s, from);
            &&& from <= fin <= s.len()
            &&& forall|i: int| 0 <= i < hs.len() ==> (#[trigger] hs[i]).0.wf(s) && hs[i].1.wf(s)
        }),
    decreases s.len() - from,
{
    lemma_header_wf(s, from);
    if let Ok((h, end)) = spec_header_parser().spec_parse(s, from) {
        if from < end <= s.len() {
            lemma_headers_wf(s, end);
            let (rest, fin) = spec_repeat(&spec_header_parser(), s, end);
            let hs = seq![h] + rest;
            assert forall|i: int| 0 <= i < hs.len() implies (#[trigger] hs[i]).0.wf(s)
                && hs[i].1.wf(s) by {
                if i > 0 {
                    assert(hs[i] == rest[i - 1]);
                }
            }
        }
    }
}

/// Every span a successful whole-message parse hands back lies inside the
/// buffer, and the final position is in bounds.
pub proof fn lemma_http_wf(s: Seq<u8>)
    ensures
        spec_http(s) matches Ok((v, end)) ==> 0 <= end <= s.len() && v.0.0.wf(s) && v.0.1.wf(s)
            && v.0.2.wf(s) && forall|i: int|
            0 <= i < v.1.len() ==> (#[trigger] v.1[i]).0.wf(s) && v.1[i].1.wf(s),
{
    lemma_alternatives_bounds(spec_methods(), s, 0);
    if let Ok((m, a)) = spec_alternatives(spec_methods(), s, 0) {
        (One { val: SP }).lemma_parse_bounds(s, a);
        if let Ok((_, b)) = (One { val: SP }).spec_parse(s, a) {
            let tu = TakeUntil { p: One { val: SP } };
            crate::combinator::lemma_take_until_wf(tu, s, b);
            if let Ok((path, c)) = tu.spec_parse(s, b) {
                (One { val: SP }).lemma_parse_bounds(s, c);
                if let Ok((_, d)) = (One { val: SP }).spec_parse(s, c) {
                    let tu2 = TakeUntil { p: spec_crlf_pair() };
                    crate::combinator::lemma_take_until_wf(tu2, s, d);
                    if let Ok((ver, f)) = tu2.spec_parse(s, d) {
                        spec_crlf_pair().lemma_parse_bounds(s, f);
                        if let Ok((_, g)) = spec_crlf_pair().spec_parse(s, f) {
                            if g < s.len() {
                                lemma_header_wf(s, g);
                                if let Ok((h0, e0)) = spec_header_parser().spec_parse(s, g) {
                                    if g < e0 <= s.len() {
                                        lemma_headers_wf(s, e0);
                                        let (rest, fin) = spec_repeat(
                                            &spec_header_parser(),
                                            s,
                                            e0,
                                        );
                                        let hs = seq![h0] + rest;
                                        assert forall|i: int|
                                            0 <= i < hs.len() implies (#[trigger] hs[i]).0.wf(s)
                                            && hs[i].1.wf(s) by {
                                            if i > 0 {
                                                assert(hs[i] == rest[i - 1]);
                                            }
                                        }
                                        spec_crlf_pair().lemma_parse_bounds(s, fin);
                                    } else {
                                        let hs = seq![h0];
                                        assert(forall|i: int|
                                            0 <= i < hs.len() ==> (#[trigger] hs[i]).0.wf(s)
                                                && hs[i].1.wf(s));
                                        spec_crlf_pair().lemma_parse_bounds(s, e0);
                                    }
                                }
                            }
                        }
                    }
                }
            }
        }
    }
}

/// True when `req` carries exactly the bytes the grammar's spans select
/// out of `s`.
pub open spec fn req_matches(
    req: Request,
    line: (SpanV, SpanV, SpanV),
    hs: Seq<(SpanV, SpanV)>,
    s: Seq<u8>,
) -> bool {
    &&& req.method@ == line.0.bytes(s)
    &&& req.path@ == line.1.bytes(s)
    &&& req.http@ == line.2.bytes(s)
    &&& req.headers@.len() == hs.len()
    &&& forall|i: int|
        0 <= i < hs.len() ==> (#[trigger] req.headers@[i]).0@ == hs[i].0.bytes(s)
            && req.headers@[i].1@ == hs[i].1.bytes(s)
}

/// Parse one whole request message from the start of `input` through the
/// builder-accumulator chain: on success the returned record holds exactly
/// the bytes the grammar matched, together with the position just past the
/// terminating blank line; on failure, the grammar's own failure.
pub fn parse_request(input: &[u8]) -> (r: Result<(Request, usize), ParseError>)
    ensures
        match r {
            Ok((req, end)) => spec_http(input@) matches Ok((v, e2)) && e2 == end && req_matches(
                req,
                v.0,
                v.1,
                input@,
            ),
            Err(e) => spec_http(input@) matches Err(e2) && e2 == e,
        },
{
    let m = http_methods();
    let ghost mg = m;
    let crlf1 = And::new(One::new(CR), One::new(LF));
    let crlf2 = And::new(One::new(CR), One::new(LF));
    let crlf3 = And::new(One::new(CR), One::new(LF));
    let crlf4 = And::new(One::new(CR), One::new(LF));
    let m_sp = Cell::new(m).skip(Cell::new(One::new(SP)));
    let with_path = Cell::new(And::new(m_sp.take(), TakeUntil::new(One::new(SP)))).skip(
        Cell::new(One::new(SP)),
    );
    let request_line = Cell::new(And::new(with_path.take(), TakeUntil::new(crlf1))).skip(
        Cell::new(crlf2),
    ).map(FlattenRequestLine);
    let hname = Cell::new(TakeUntil::new(One::new(COLON))).skip(
        Cell::new(And::new(One::new(COLON), One::new(SP))),
    );
    let header = Cell::new(And::new(hname.take(), TakeUntil::new(crlf3))).skip(Cell::new(crlf4));
    let seeded = Cell::new(And::new(State::new(NewBuilder), request_line.take())).map(
        ApplyRequestLine,
    );
    let with_headers = Cell::new(And::new(seeded.take(), Many1::new(header.take()))).map(
        ApplyHeaders,
    );
    let msg = with_headers.skip(Cell::new(And::new(One::new(CR), One::new(LF))));
    proof {
        assert(msg.parser == spec_message_parser(mg));
        lemma_message_spec(mg, input@);
        lemma_http_wf(input@);
    }
    match msg.parse(input, 0) {
        Err(e) => Err(e),
        Ok((builder, end)) => {
            proof {
                let v = spec_http(input@).unwrap().0;
                assert(builder.deep_view().headers == v.1);
                assert(builder.headers.deep_view() == v.1);
                assert forall|i: int| 0 <= i < builder.headers@.len() implies (#[trigger] builder
                    .headers@[i]).0@ == v.1[i].0 && builder.headers@[i].1@ == v.1[i].1 by {
                    assert(builder.headers.deep_view()[i] == builder.headers@[i].deep_view());
                }
                assert(builder.complete(input@));
            }
            let req = builder.build(input);
            proof {
                let v = spec_http(input@).unwrap().0;
                assert(req.headers@.len() == v.1.len());
                assert forall|i: int| 0 <= i < v.1.len() implies (#[trigger] req.headers@[i]).0@
                    == v.1[i].0.bytes(input@) && req.headers@[i].1@ == v.1[i].1.bytes(input@) by {
                    assert(builder.headers@[i].0@ == v.1[i].0 && builder.headers@[i].1@ == v.1[
                        i].1);
                }
            }
            Ok((req, end))
        },
    }
}


// ---------------------------------------------------------------------------
// The fixed-width realization
// ---------------------------------------------------------------------------
/// The header-line parser of the fixed-width realization: the name up to
/// the colon, a blind two-byte skip over `": "`, the value up to CRLF, and
/// a blind two-byte skip over the CRLF itself.
pub type FixedHeaderParser = SkipN<And<SkipN<TakeUntil<Literal>>, TakeUntil<Literal>>>;

/// The request-line parser of the fixed-width realization.
pub type FixedRequestLineParser = SkipN<
    And<SkipN<And<Skip<Right, OneOf<Vec<u8>>, Literal>, TakeUntil<Literal>>>, TakeUntil<Literal>>,
>;

/// The whole-message parser of the fixed-width realization.
pub type FixedMessageParser = SkipN<And<FixedRequestLineParser, Many1<FixedHeaderParser>>>;

/// The single-space literal's bytes.
pub open spec fn spec_sp_lit() -> Seq<u8> {
    seq![SP]
}

/// The single-colon literal's bytes.
pub open spec fn spec_colon_lit() -> Seq<u8> {
    seq![COLON]
}

/// The CRLF literal's bytes.
pub open spec fn spec_crlf_lit() -> Seq<u8> {
    seq![CR, LF]
}

/// What the fixed-width request line means: a method, one space, the path
/// up to the next space with a one-byte blind skip, the version up to CRLF
/// with a two-byte blind skip.
pub open spec fn spec_request_line_fixed(s: Seq<u8>, from: int) -> SpecOutcome<
    ((SpanV, SpanV), SpanV),
> {
    match spec_alternatives(spec_methods(), s, from) {
        Err(e) => Err(e),
        Ok((m, a)) => match spec_literal(spec_sp_lit(), s, a) {
            Err(e) => Err(e),
            Ok((_, b)) => match spec_take_until_lit(spec_sp_lit(), s, b) {
                Err(e) => Err(e),
                Ok((path, c)) => if c + 1 <= s.len() {
                    match spec_take_until_lit(spec_crlf_lit(), s, c + 1) {
                        Err(e) => Err(e),
                        Ok((ver, d)) => if d + 2 <= s.len() {
                            Ok((((m, path), ver), d + 2))
                        } else {
                            Err(ParseError::EOF)
                        },
                    }
                } else {
                    Err(ParseError::EOF)
                },
            },
        },
    }
}

/// What one fixed-width header line means.
pub open spec fn spec_header_fixed(s: Seq<u8>, from: int) -> SpecOutcome<(SpanV, SpanV)> {
    match spec_take_until_lit(spec_colon_lit(), s, from) {
        Err(e) => Err(e),
        Ok((name, a)) => if a + 2 <= s.len() {
            match spec_take_until_lit(spec_crlf_lit(), s, a + 2) {
                Err(e) => Err(e),
                Ok((val, b)) => if b + 2 <= s.len() {
                    Ok(((name, val), b + 2))
                } else {
                    Err(ParseError::EOF)
                },
            }
        } else {
            Err(ParseError::EOF)
        },
    }
}

/// The greedy repetition of fixed-width header lines.
pub open spec fn spec_headers_fixed_rest(s: Seq<u8>, from: int) -> (Seq<(SpanV, SpanV)>, int)
    decreases s.len() - from,
{
    match spec_header_fixed(s, from) {
        Ok((h, end)) => if from < end <= s.len() {
            let (rest, fin) = spec_headers_fixed_rest(s, end);
            (seq![h] + rest, fin)
        } else {
            (seq![], from)
        },
        Err(_) => (seq![], from),
    }
}

/// One or more fixed-width header lines.
pub open spec fn spec_headers_fixed(s: Seq<u8>, from: int) -> SpecOutcome<Seq<(SpanV, SpanV)>> {
    if from == s.len() {
        Err(ParseError::EOF)
    } else {
        match spec_header_fixed(s, from) {
            Err(e) => Err(e),
            Ok((h, end)) => if from < end <= s.len() {
                let (rest, fin) = spec_headers_fixed_rest(s, end);
                Ok((seq![h] + rest, fin))
            } else {
                Ok((seq![h], end))
            },
        }
    }
}

/// What parsing a whole message under the fixed-width realization means:
/// the request line, one or more headers, and a final blind two-byte skip
/// over the terminating blank line.
pub open spec fn spec_http_fixed(s: Seq<u8>) -> SpecOutcome<
    (((SpanV, SpanV), SpanV), Seq<(SpanV, SpanV)>),
> {
    match spec_request_line_fixed(s, 0) {
        Err(e) => Err(e),
        Ok((line, a)) => match spec_headers_fixed(s, a) {
            Err(e) => Err(e),
            Ok((hs, b)) => if b + 2 <= s.len() {
                Ok(((line, hs), b + 2))
            } else {
                Err(ParseError::EOF)
            },
        },
    }
}

proof fn lemma_repeat_header_fixed<P: Parse<Output = (Span, Span)>>(p: &P, s: Seq<u8>, from: int)
    requires
        forall|x: int| #[trigger] p.spec_parse(s, x) == spec_header_fixed(s, x),
    ensures
        spec_repeat(p, s, from) == spec_headers_fixed_rest(s, from),
    decreases s.len() - from,
{
    if let Ok((h, end)) = p.spec_parse(s, from) {
        if from < end <= s.len() {
            lemma_repeat_header_fixed(p, s, end);
        }
    }
}

proof fn lemma_many1_header_fixed<P: Parse<Output = (Span, Span)>>(
    m: Many1<P>,
    s: Seq<u8>,
    from: int,
)
    requires
        forall|x: int| #[trigger] m.p.spec_parse(s, x) == spec_header_fixed(s, x),
    ensures
        m.spec_parse(s, from) == spec_headers_fixed(s, from),
{
    if from != s.len() {
        if let Ok((h, end)) = m.p.spec_parse(s, from) {
            if from < end <= s.len() {
                lemma_repeat_header_fixed(&m.p, s, end);
            }
        }
    }
}

/// A one-byte literal matcher.
fn lit1(a: u8) -> (r: Literal)
    ensures
        r.bytes@ == seq![a],
{
    let mut v: Vec<u8> = Vec::new();
    v.push(a);
    proof {
        assert(v@ =~= seq![a]);
    }
    Literal { bytes: v }
}

/// A two-byte literal matcher.
fn lit2(a: u8, b: u8) -> (r: Literal)
    ensures
        r.bytes@ == seq![a, b],
{
    let mut v: Vec<u8> = Vec::new();
    v.push(a);
    v.push(b);
    proof {
        assert(v@ =~= seq![a, b]);
    }
    Literal { bytes: v }
}

/// Parse one whole request message from the start of `input` under the
/// fixed-width realization: literal-delimited scans with blind fixed-width
/// delimiter skips, exactly as [`spec_http_fixed`] lays down.
pub fn parse_http_fixed(input: &[u8]) -> (r: Result<
    ((((Span, Span), Span), Vec<(Span, Span)>), usize),
    ParseError,
>)
    ensures
        match r {
            Ok((v, end)) => spec_http_fixed(input@) matches Ok((sv, se)) && sv == v.deep_view()
                && se == end && end <= input@.len(),
            Err(e) => spec_http_fixed(input@) matches Err(e2) && e2 == e,
        },
{
    broadcast use crate::combinator::lemma_take_until_literal;

    let m = http_methods();
    let ghost mg = m;
    let req = Cell::new(m).skip(Cell::new(lit1(SP)));
    let req = SkipN::new(And::new(req.take(), TakeUntil::new(lit1(SP))), 1);
    let req = SkipN::new(And::new(req, TakeUntil::new(lit2(CR, LF))), 2);
    let ghost reqg = req;
    let header = SkipN::new(TakeUntil::new(lit1(COLON)), 2);
    let header = SkipN::new(And::new(header, TakeUntil::new(lit2(CR, LF))), 2);
    let ghost headerg = header;
    let headers = Many1::new(header);
    let ghost headersg = headers;
    let msg = SkipN::new(And::new(req, headers), 2);
    proof {
        let s = input@;
        assert forall|x: int| #[trigger] headerg.spec_parse(s, x) == spec_header_fixed(s, x) by {}
        assert forall|x: int| #[trigger] headersg.spec_parse(s, x) == spec_headers_fixed(s, x) by {
            lemma_many1_header_fixed(headersg, s, x);
        }
        assert forall|x: int| #[trigger] reqg.spec_parse(s, x) == spec_request_line_fixed(
            s,
            x,
        ) by {}
        assert(msg.spec_parse(s, 0) == spec_http_fixed(s));
    }
    match msg.parse(input, 0) {
        Err(e) => Err(e),
        Ok((v, end)) => Ok((v, end)),
    }
}


// ---------------------------------------------------------------------------
// The combinator-chain realization
// ---------------------------------------------------------------------------
/// The alternation-chained method matcher: nine literals tried left to
/// right.
pub type MethodChain = Or<Or<Or<Or<Or<Or<Or<Or<Literal, Literal>, Literal>, Literal>, Literal>, Literal>, Literal>, Literal>, Literal>;

/// The header-line parser of the combinator-chain realization: the name up
/// to the colon, the colon itself, one whitespace byte, the value up to
/// CRLF, and the CRLF.
pub type ChainHeaderParser = Skip<
    Right,
    And<
        Skip<Right, Skip<Right, TakeUntil<Literal>, Literal>, crate::matcher::Whitespace>,
        TakeUntil<Literal>,
    >,
    Literal,
>;

/// Matching alternation-chained literals: the first literal that matches
/// as a prefix wins; when every branch fails, the failure is the last
/// branch's own, as alternation propagates its second operand's error.
pub open spec fn spec_or_chain(xs: Seq<Seq<u8>>, s: Seq<u8>, from: int) -> SpecOutcome<SpanV>
    decreases xs.len(),
{
    if xs.len() <= 1 {
        spec_literal(xs[0], s, from)
    } else {
        match spec_literal(xs[0], s, from) {
            Ok(r) => Ok(r),
            Err(_) => spec_or_chain(xs.drop_first(), s, from),
        }
    }
}

/// What the combinator-chain request line means: a method, a space, the
/// path up to the next space, a space, the version up to CRLF, and the
/// CRLF, flattened into a triple.
pub open spec fn spec_request_line_chain(s: Seq<u8>, from: int) -> SpecOutcome<
    (SpanV, SpanV, SpanV),
> {
    match spec_or_chain(spec_methods(), s, from) {
        Err(e) => Err(e),
        Ok((m, a)) => match spec_literal(spec_sp_lit(), s, a) {
            Err(e) => Err(e),
            Ok((_, b)) => match spec_take_until_lit(spec_sp_lit(), s, b) {
                Err(e) => Err(e),
                Ok((path, c)) => match spec_literal(spec_sp_lit(), s, c) {
                    Err(e) => Err(e),
                    Ok((_, d)) => match spec_take_until_lit(spec_crlf_lit(), s, d) {
                        Err(e) => Err(e),
                        Ok((ver, f)) => match spec_literal(spec_crlf_lit(), s, f) {
                            Err(e) => Err(e),
                            Ok((_, g)) => Ok(((m, path, ver), g)),
                        },
                    },
                },
            },
        },
    }
}

/// What one combinator-chain header line means.
pub open spec fn spec_header_chain(s: Seq<u8>, from: int) -> SpecOutcome<(SpanV, SpanV)> {
    match spec_take_until_lit(spec_colon_lit(), s, from) {
        Err(e) => Err(e),
        Ok((name, a)) => match spec_literal(spec_colon_lit(), s, a) {
            Err(e) => Err(e),
            Ok((_, b)) => match (crate::matcher::Whitespace {  }).spec_parse(s, b) {
                Err(e) => Err(e),
                Ok((_, c)) => match spec_take_until_lit(spec_crlf_lit(), s, c) {
                    Err(e) => Err(e),
                    Ok((val, d)) => match spec_literal(spec_crlf_lit(), s, d) {
                        Err(e) => Err(e),
                        Ok((_, g)) => Ok(((name, val), g)),
                    },
                },
            },
        },
    }
}

/// The greedy repetition of combinator-chain header lines.
pub open spec fn spec_headers_chain_rest(s: Seq<u8>, from: int) -> (Seq<(SpanV, SpanV)>, int)
    decreases s.len() - from,
{
    match spec_header_chain(s, from) {
        Ok((h, end)) => if from < end <= s.len() {
            let (rest, fin) = spec_headers_chain_rest(s, end);
            (seq![h] + rest, fin)
        } else {
            (seq![], from)
        },
        Err(_) => (seq![], from),
    }
}

/// One or more combinator-chain header lines.
pub open spec fn spec_headers_chain(s: Seq<u8>, from: int) -> SpecOutcome<Seq<(SpanV, SpanV)>> {
    if from == s.len() {
        Err(ParseError::EOF)
    } else {
        match spec_header_chain(s, from) {
            Err(e) => Err(e),
            Ok((h, end)) => if from < end <= s.len() {
                let (rest, fin) = spec_headers_chain_rest(s, end);
                Ok((seq![h] + rest, fin))
            } else {
                Ok((seq![h], end))
            },
        }
    }
}

/// What parsing a whole message under the combinator-chain realization
/// means: the request line, one or more headers, and the terminating blank
/// CRLF, matched rather than skipped blindly.
pub open spec fn spec_http_chain(s: Seq<u8>) -> SpecOutcome<
    ((SpanV, SpanV, SpanV), Seq<(SpanV, SpanV)>),
> {
    match spec_request_line_chain(s, 0) {
        Err(e) => Err(e),
        Ok((line, a)) => match spec_headers_chain(s, a) {
            Err(e) => Err(e),
            Ok((hs, b)) => match spec_literal(spec_crlf_lit(), s, b) {
                Err(e) => Err(e),
                Ok((_, c)) => Ok(((line, hs), c)),
            },
        },
    }
}

proof fn lemma_repeat_header_chain<P: Parse<Output = (Span, Span)>>(p: &P, s: Seq<u8>, from: int)
    requires
        forall|x: int| #[trigger] p.spec_parse(s, x) == spec_header_chain(s, x),
    ensures
        spec_repeat(p, s, from) == spec_headers_chain_rest(s, from),
    decreases s.len() - from,
{
    if let Ok((h, end)) = p.spec_parse(s, from) {
        if from < end <= s.len() {
            lemma_repeat_header_chain(p, s, end);
        }
    }
}

proof fn lemma_many1_header_chain<P: Parse<Output = (Span, Span)>>(
    m: Many1<P>,
    s: Seq<u8>,
    from: int,
)
    requires
        forall|x: int| #[trigger] m.p.spec_parse(s, x) == spec_header_chain(s, x),
    ensures
        m.spec_parse(s, from) == spec_headers_chain(s, from),
{
    if from != s.len() {
        if let Ok((h, end)) = m.p.spec_parse(s, from) {
            if from < end <= s.len() {
                lemma_repeat_header_chain(&m.p, s, end);
            }
        }
    }
}

#[verifier::rlimit(100)]
proof fn lemma_method_chain(c: MethodChain, s: Seq<u8>, from: int)
    requires
        c.p1.p1.p1.p1.p1.p1.p1.p1.bytes@ == spec_methods()[0],
        c.p1.p1.p1.p1.p1.p1.p1.p2.bytes@ == spec_methods()[1],
        c.p1.p1.p1.p1.p1.p1.p2.bytes@ == spec_methods()[2],
        c.p1.p1.p1.p1.p1.p2.bytes@ == spec_methods()[3],
        c.p1.p1.p1.p1.p2.bytes@ == spec_methods()[4],
        c.p1.p1.p1.p2.bytes@ == spec_methods()[5],
        c.p1.p1.p2.bytes@ == spec_methods()[6],
        c.p1.p2.bytes@ == spec_methods()[7],
        c.p2.bytes@ == spec_methods()[8],
    ensures
        c.spec_parse(s, from) == spec_or_chain(spec_methods(), s, from),
{
    reveal_with_fuel(spec_or_chain, 10);
    let ms = spec_methods();
    assert(ms.drop_first() =~= seq![
        "POST".spec_bytes(),
        "PUT".spec_bytes(),
        "DELETE".spec_bytes(),
        "HEAD".spec_bytes(),
        "CONNECT".spec_bytes(),
        "OPTIONS".spec_bytes(),
        "TRACE".spec_bytes(),
        "PATCH".spec_bytes(),
    ]);
    assert(ms.drop_first().drop_first() =~= seq![
        "PUT".spec_bytes(),
        "DELETE".spec_bytes(),
        "HEAD".spec_bytes(),
        "CONNECT".spec_bytes(),
        "OPTIONS".spec_bytes(),
        "TRACE".spec_bytes(),
        "PATCH".spec_bytes(),
    ]);
    assert(ms.drop_first().drop_first().drop_first() =~= seq![
        "DELETE".spec_bytes(),
        "HEAD".spec_bytes(),
        "CONNECT".spec_bytes(),
        "OPTIONS".spec_bytes(),
        "TRACE".spec_bytes(),
        "PATCH".spec_bytes(),
    ]);
    assert(ms.drop_first().drop_first().drop_first().drop_first() =~= seq![
        "HEAD".spec_bytes(),
        "CONNECT".spec_bytes(),
        "OPTIONS".spec_bytes(),
        "TRACE".spec_bytes(),
        "PATCH".spec_bytes(),
    ]);
    assert(ms.drop_first().drop_first().drop_first().drop_first().drop_first() =~= seq![
        "CONNECT".spec_bytes(),
        "OPTIONS".spec_bytes(),
        "TRACE".spec_bytes(),
        "PATCH".spec_bytes(),
    ]);
    assert(ms.drop_first().drop_first().drop_first().drop_first().drop_first().drop_first() =~= seq![
        "OPTIONS".spec_bytes(),
        "TRACE".spec_bytes(),
        "PATCH".spec_bytes(),
    ]);
    assert(ms.drop_first().drop_first().drop_first().drop_first().drop_first().drop_first().drop_first()
        =~= seq!["TRACE".spec_bytes(), "PATCH".spec_bytes()]);
    assert(ms.drop_first().drop_first().drop_first().drop_first().drop_first().drop_first().drop_first().drop_first()
        =~= seq!["PATCH".spec_bytes()]);
    assert(ms.drop_first().drop_first().drop_first().drop_first().drop_first().drop_first().drop_first().drop_first().drop_first()
        =~= Seq::<Seq<u8>>::empty());
}

/// Parse one whole request message from the start of `input` under the
/// combinator-chain realization, exactly as [`spec_http_chain`] lays down.
pub fn parse_http_chain(input: &[u8]) -> (r: Result<
    (((Span, Span, Span), Vec<(Span, Span)>), usize),
    ParseError,
>)
    ensures
        match r {
            Ok((v, end)) => spec_http_chain(input@) matches Ok((sv, se)) && sv == v.deep_view()
                && se == end && end <= input@.len(),
            Err(e) => spec_http_chain(input@) matches Err(e2) && e2 == e,
        },
{
    broadcast use crate::combinator::lemma_take_until_literal;

    let method = Cell::new(crate::str_seq("GET")).or(Cell::new(crate::str_seq("POST"))).or(
        Cell::new(crate::str_seq("PUT")),
    ).or(Cell::new(crate::str_seq("DELETE"))).or(Cell::new(crate::str_seq("HEAD"))).or(
        Cell::new(crate::str_seq("CONNECT")),
    ).or(Cell::new(crate::str_seq("OPTIONS"))).or(Cell::new(crate::str_seq("TRACE"))).or(
        Cell::new(crate::str_seq("PATCH")),
    );
    let ghost methodg = method.parser;
    let req = method.skip(Cell::new(lit1(SP)));
    let req = Cell::new(And::new(req.take(), TakeUntil::new(lit1(SP)))).skip(Cell::new(lit1(SP)));
    let req = Cell::new(And::new(req.take(), TakeUntil::new(lit2(CR, LF)))).skip(
        Cell::new(lit2(CR, LF)),
    ).map(FlattenRequestLine);
    let ghost reqg = req.parser;
    let header = Cell::new(TakeUntil::new(lit1(COLON))).skip(Cell::new(lit1(COLON))).skip(
        Cell::new(crate::matcher::Whitespace::new()),
    );
    let header = Cell::new(And::new(header.take(), TakeUntil::new(lit2(CR, LF)))).skip(
        Cell::new(lit2(CR, LF)),
    );
    let ghost headerg = header.parser;
    let headers = Many1::new(header.take());
    let ghost headersg = headers;
    let msg = Cell::new(And::new(req.take(), headers)).skip(Cell::new(lit2(CR, LF)));
    proof {
        let s = input@;
        assert forall|x: int| #[trigger] methodg.spec_parse(s, x) == spec_or_chain(
            spec_methods(),
            s,
            x,
        ) by {
            lemma_method_chain(methodg, s, x);
        }
        assert forall|x: int| #[trigger] reqg.spec_parse(s, x) == spec_request_line_chain(
            s,
            x,
        ) by {}
        assert forall|x: int| #[trigger] headerg.spec_parse(s, x) == spec_header_chain(s, x) by {}
        assert forall|x: int| #[trigger] headersg.spec_parse(s, x) == spec_headers_chain(
            s,
            x,
        ) by {
            lemma_many1_header_chain(headersg, s, x);
        }
        assert(msg.spec_parse(s, 0) == spec_http_chain(s));
    }
    match msg.parse(input, 0) {
        Err(e) => Err(e),
        Ok((v, end)) => Ok((v, end)),
    }
}

} // verus!




