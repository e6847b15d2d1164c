//! Stream adaptation: turning owned or borrowed text and byte containers
//! into the canonical borrowed byte view that every parser consumes.
//!
//! No validation is performed; text is handed on as its UTF-8 bytes.

use vstd::prelude::*;

verus! {

/// A container whose contents can be viewed as a byte buffer.
pub trait Stream {
    /// The byte sequence this container stands for.
    spec fn spec_stream(&self) -> Seq<u8>;

    /// Borrow the canonical byte view.
    fn to_stream<'a>(&'a self) -> (r: &'a [u8])
        ensures
            r@ == self.spec_stream(),
    ;
}

impl Stream for String {
    open spec fn spec_stream(&self) -> Seq<u8> {
        vstd::utf8::encode_utf8(self@)
    }

    fn to_stream<'a>(&'a self) -> (r: &'a [u8]) {
        self.as_str().as_bytes()
    }
}

impl Stream for &str {
    open spec fn spec_stream(&self) -> Seq<u8> {
        vstd::utf8::encode_utf8((*self)@)
    }

    fn to_stream<'a>(&'a self) -> (r: &'a [u8]) {
        self.as_bytes()
    }
}

impl Stream for Vec<u8> {
    open spec fn spec_stream(&self) -> Seq<u8> {
        self@
    }

    fn to_stream<'a>(&'a self) -> (r: &'a [u8]) {
        self.as_slice()
    }
}

} // verus!
