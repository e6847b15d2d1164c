//! Line-ending normalization for concatenated message corpora.
//!
//! A corpus is brought to canonical CRLF line endings in two passes: every
//! CRLF pair is first replaced by a bare line feed, then every remaining
//! line feed is replaced by CRLF.  On text already using CRLF exclusively
//! the round trip changes nothing ([`lemma_normalize_crlf_identity`]).

use vstd::prelude::*;

verus! {

/// The carriage-return byte.
pub const CR: u8 = 13;

/// The line-feed byte.
pub const LF: u8 = 10;

/// `s` with every CRLF pair replaced by a bare line feed, scanning left to
/// right over non-overlapping pairs.
pub open spec fn spec_crlf_to_lf(s: Seq<u8>) -> Seq<u8>
    decreases s.len(),
{
    if s.len() == 0 {
        seq![]
    } else if s.len() >= 2 && s[0] == CR && s[1] == LF {
        seq![LF] + spec_crlf_to_lf(s.skip(2))
    } else {
        seq![s[0]] + spec_crlf_to_lf(s.skip(1))
    }
}

/// `s` with every line feed replaced by a CRLF pair.
pub open spec fn spec_lf_to_crlf(s: Seq<u8>) -> Seq<u8>
    decreases s.len(),
{
    if s.len() == 0 {
        seq![]
    } else if s[0] == LF {
        seq![CR, LF] + spec_lf_to_crlf(s.skip(1))
    } else {
        seq![s[0]] + spec_lf_to_crlf(s.skip(1))
    }
}

/// Both normalization passes in order: CRLF to LF, then LF to CRLF.
pub open spec fn spec_normalize_crlf(s: Seq<u8>) -> Seq<u8> {
    spec_lf_to_crlf(spec_crlf_to_lf(s))
}

/// Replace every CRLF pair in `input` by a bare line feed.
pub fn crlf_to_lf(input: &[u8]) -> (r: Vec<u8>)
    ensures
        r@ == spec_crlf_to_lf(input@),
{
    let n = input.len();
    let mut out: Vec<u8> = Vec::new();
    let mut i: usize = 0;
    proof {
        assert(input@.skip(0) =~= input@);
    }
    while i < n
        invariant
            i <= n,
            n == input@.len(),
            spec_crlf_to_lf(input@) == out@ + spec_crlf_to_lf(input@.skip(i as int)),
        decreases n - i,
    {
        let ghost pre = out@;
        let b = *vstd::slice::slice_index_get(input, i);
        if i + 1 < n && b == CR && *vstd::slice::slice_index_get(input, i + 1) == LF {
            out.push(LF);
            proof {
                let tail = input@.skip(i as int);
                assert(tail[0] == input@[i as int] && tail[1] == input@[i + 1]);
                assert(tail.skip(2) =~= input@.skip(i + 2));
                assert(spec_crlf_to_lf(tail) == seq![LF] + spec_crlf_to_lf(input@.skip(i + 2)));
                assert(out@ =~= pre + seq![LF]);
                assert(pre + (seq![LF] + spec_crlf_to_lf(input@.skip(i + 2))) =~= out@
                    + spec_crlf_to_lf(input@.skip(i + 2)));
            }
            i = i + 2;
        } else {
            out.push(b);
            proof {
                let tail = input@.skip(i as int);
                assert(tail[0] == input@[i as int]);
                assert(tail.skip(1) =~= input@.skip(i + 1));
                assert(!(tail.len() >= 2 && tail[0] == CR && tail[1] == LF));
                assert(spec_crlf_to_lf(tail) == seq![b] + spec_crlf_to_lf(input@.skip(i + 1)));
                assert(out@ =~= pre + seq![b]);
                assert(pre + (seq![b] + spec_crlf_to_lf(input@.skip(i + 1))) =~= out@
                    + spec_crlf_to_lf(input@.skip(i + 1)));
            }
            i = i + 1;
        }
    }
    proof {
        assert(input@.skip(n as int) =~= Seq::<u8>::empty());
        assert(out@ + spec_crlf_to_lf(Seq::<u8>::empty()) =~= out@);
    }
    out
}

/// Replace every line feed in `input` by a CRLF pair.
pub fn lf_to_crlf(input: &[u8]) -> (r: Vec<u8>)
    ensures
        r@ == spec_lf_to_crlf(input@),
{
    let n = input.len();
    let mut out: Vec<u8> = Vec::new();
    let mut i: usize = 0;
    proof {
        assert(input@.skip(0) =~= input@);
    }
    while i < n
        invariant
            i <= n,
            n == input@.len(),
            spec_lf_to_crlf(input@) == out@ + spec_lf_to_crlf(input@.skip(i as int)),
        decreases n - i,
    {
        let ghost pre = out@;
        let b = *vstd::slice::slice_index_get(input, i);
        if b == LF {
            out.push(CR);
            out.push(LF);
            proof {
                let tail = input@.skip(i as int);
                assert(tail[0] == input@[i as int]);
                assert(tail.skip(1) =~= input@.skip(i + 1));
                assert(spec_lf_to_crlf(tail) == seq![CR, LF] + spec_lf_to_crlf(input@.skip(i + 1)));
                assert(out@ =~= pre + seq![CR, LF]);
                assert(pre + (seq![CR, LF] + spec_lf_to_crlf(input@.skip(i + 1))) =~= out@
                    + spec_lf_to_crlf(input@.skip(i + 1)));
            }
        } else {
            out.push(b);
            proof {
                let tail = input@.skip(i as int);
                assert(tail[0] == input@[i as int]);
                assert(tail.skip(1) =~= input@.skip(i + 1));
                assert(spec_lf_to_crlf(tail) == seq![b] + spec_lf_to_crlf(input@.skip(i + 1)));
                assert(out@ =~= pre + seq![b]);
                assert(pre + (seq![b] + spec_lf_to_crlf(input@.skip(i + 1))) =~= out@
                    + spec_lf_to_crlf(input@.skip(i + 1)));
            }
        }
        i = i + 1;
    }
    proof {
        assert(input@.skip(n as int) =~= Seq::<u8>::empty());
        assert(out@ + spec_lf_to_crlf(Seq::<u8>::empty()) =~= out@);
    }
    out
}

/// Normalize all line endings of `input` to canonical CRLF.
pub fn normalize_crlf(input: &[u8]) -> (r: Vec<u8>)
    ensures
        r@ == spec_normalize_crlf(input@),
{
    let pass1 = crlf_to_lf(input);
    lf_to_crlf(pass1.as_slice())
}

/// True when `s` uses CRLF line endings exclusively: every line feed is
/// preceded by a carriage return, and every carriage return is followed by
/// a line feed.
pub open spec fn is_crlf_text(s: Seq<u8>) -> bool {
    forall|i: int|
        0 <= i < s.len() ==> (((#[trigger] s[i]) == LF ==> i > 0 && s[i - 1] == CR) && (s[i] == CR
            ==> i + 1 < s.len() && s[i + 1] == LF))
}

/// On text already using CRLF exclusively, normalization changes nothing;
/// in particular it is idempotent, since its output always satisfies the
/// same discipline.
pub proof fn lemma_normalize_crlf_identity(s: Seq<u8>)
    requires
        is_crlf_text(s),
    ensures
        spec_normalize_crlf(s) == s,
    decreases s.len(),
{
    if s.len() == 0 {
        assert(spec_normalize_crlf(s) =~= s);
    } else if s[0] == CR {
        assert(s[1] == LF);
        let tail = s.skip(2);
        assert forall|i: int| 0 <= i < tail.len() implies (((#[trigger] tail[i]) == LF ==> i > 0
            && tail[i - 1] == CR) && (tail[i] == CR ==> i + 1 < tail.len() && tail[i
            + 1] == LF)) by {
            assert(tail[i] == s[i + 2]);
            if tail[i] == LF {
                assert(s[i + 2] == LF);
                assert(i + 2 > 0 && s[i + 1] == CR);
                if i == 0 {
                    assert(s[1] == CR);
                    assert(false);
                }
                assert(tail[i - 1] == s[i + 1]);
            }
            if tail[i] == CR {
                assert(s[i + 3] == LF);
                assert(tail[i + 1] == s[i + 3]);
            }
        }
        lemma_normalize_crlf_identity(tail);
        let x = spec_crlf_to_lf(tail);
        assert(spec_crlf_to_lf(s) == seq![LF] + x);
        assert((seq![LF] + x)[0] == LF);
        assert((seq![LF] + x).skip(1) =~= x);
        assert(spec_lf_to_crlf(seq![LF] + x) == seq![CR, LF] + spec_lf_to_crlf(x));
        assert(seq![CR, LF] + tail =~= s);
    } else {
        assert(s[0] != LF);
        assert(s[0] != CR || (s.len() >= 2 && s[1] == LF));
        assert(!(s.len() >= 2 && s[0] == CR && s[1] == LF));
        let tail = s.skip(1);
        assert forall|i: int| 0 <= i < tail.len() implies (((#[trigger] tail[i]) == LF ==> i > 0
            && tail[i - 1] == CR) && (tail[i] == CR ==> i + 1 < tail.len() && tail[i
            + 1] == LF)) by {
            assert(tail[i] == s[i + 1]);
            if tail[i] == LF {
                assert(s[i] == CR);
                if i == 0 {
                    assert(false);
                }
                assert(tail[i - 1] == s[i]);
            }
            if tail[i] == CR {
                assert(s[i + 2] == LF);
                assert(tail[i + 1] == s[i + 2]);
            }
        }
        lemma_normalize_crlf_identity(tail);
        let x = spec_crlf_to_lf(tail);
        assert(spec_crlf_to_lf(s) == seq![s[0]] + x);
        if x.len() == 0 {
            assert(spec_lf_to_crlf(seq![s[0]] + x) == seq![s[0]] + spec_lf_to_crlf(
                (seq![s[0]] + x).skip(1),
            ));
        }
        assert((seq![s[0]] + x)[0] == s[0]);
        assert((seq![s[0]] + x).skip(1) =~= x);
        assert(spec_lf_to_crlf(seq![s[0]] + x) == seq![s[0]] + spec_lf_to_crlf(x));
        assert(seq![s[0]] + tail =~= s);
    }
}

} // verus!
