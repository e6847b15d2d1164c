//! Index/length views into the caller's buffer.
//!
//! A parser never copies matched input: it hands back a [`Span`], an offset
//! and length into the very buffer the caller supplied.

use vstd::prelude::*;

verus! {

/// The spec-level counterpart of [`Span`], with unbounded integer fields.
pub ghost struct SpanV {
    pub at: int,
    pub len: int,
}

impl SpanV {
    /// The position just past the viewed range.
    pub open spec fn end(self) -> int {
        self.at + self.len
    }

    /// True when the viewed range lies inside the buffer `s`.
    pub open spec fn wf(self, s: Seq<u8>) -> bool {
        0 <= self.at && 0 <= self.len && self.at + self.len <= s.len()
    }

    /// The bytes of the buffer `s` that this view selects.
    pub open spec fn bytes(self, s: Seq<u8>) -> Seq<u8> {
        s.subrange(self.at, self.at + self.len)
    }
}

/// A borrowed view (offset + length) over a caller-owned buffer.
#[derive(Clone, Copy, Debug, PartialEq, Eq, Structural)]
pub struct Span {
    pub at: usize,
    pub len: usize,
}

impl View for Span {
    type V = SpanV;

    open spec fn view(&self) -> SpanV {
        SpanV { at: self.at as int, len: self.len as int }
    }
}

impl DeepView for Span {
    type V = SpanV;

    open spec fn deep_view(&self) -> SpanV {
        self@
    }
}

impl Span {
    /// The view starting at `at` and covering `len` bytes.
    pub fn new(at: usize, len: usize) -> (r: Span)
        ensures
            r@ == (SpanV { at: at as int, len: len as int }),
            r.deep_view() == (SpanV { at: at as int, len: len as int }),
            r == (Span { at, len }),
    {
        Span { at, len }
    }

    /// The position just past the viewed range.
    pub fn end(&self) -> (r: usize)
        requires
            self.at + self.len <= usize::MAX,
        ensures
            r == self@.end(),
    {
        self.at + self.len
    }

    /// Borrow the selected bytes out of `buf`.
    pub fn slice<'a>(&self, buf: &'a [u8]) -> (r: &'a [u8])
        requires
            self@.wf(buf@),
        ensures
            r@ == self@.bytes(buf@),
    {
        let n = buf.len();
        vstd::slice::slice_subrange(buf, self.at, self.at + self.len)
    }

    /// Copy the selected bytes out of `buf`.
    pub fn to_vec(&self, buf: &[u8]) -> (r: Vec<u8>)
        requires
            self@.wf(buf@),
        ensures
            r@ == self@.bytes(buf@),
    {
        vstd::slice::slice_to_vec(self.slice(buf))
    }
}

} // verus!
