//! The decoder: from a framing back to its bytes.

use crate::format::Header;
use crate::wire::{get_u8, put_u8};
use vstd::prelude::*;
use vstd::slice::slice_subrange;

verus! {

/// Why a framing could not be decoded.
#[derive(Clone, Copy, Debug, PartialEq, Eq, Structural)]
pub enum DecodeError {
    /// The input ended before a header, a run's value byte or the whole of a
    /// literal's bytes could be read.
    UnexpectedEof,
}

/// `head` in front of what decoding the rest gave, where it gave anything.
pub open spec fn followed_by(head: Seq<u8>, rest: Option<Seq<u8>>) -> Option<Seq<u8>> {
    match rest {
        Some(tail) => Some(head + tail),
        None => None,
    }
}

/// The bytes that the framing `s` stands for, or `None` where `s` ends in
/// the middle of a record or before its terminator.
///
/// Each record is expanded in turn: a run to its value byte repeated, a
/// literal to its own bytes. The first header with a length of zero ends the
/// stream, and what stands behind it is not looked at.
pub open spec fn decode(s: Seq<u8>) -> Option<Seq<u8>>
    decreases s.len(),
{
    if s.len() == 0 {
        None
    } else {
        match Header::of(s[0]) {
            Header::End => Some(Seq::empty()),
            Header::Run(count) => if s.len() < 2 {
                None
            } else {
                followed_by(Seq::new(count as nat, |k: int| s[1]), decode(s.skip(2)))
            },
            Header::Literal(len) => if s.len() < 1 + len {
                None
            } else {
                followed_by(s.subrange(1, 1 + len), decode(s.skip(1 + len)))
            },
        }
    }
}

/// Decodes `input`: reads header after header, expands each record into the
/// output, and stops at the terminator. Input that ends before then is an
/// error, and no part of the output is returned.
pub fn decompress(input: &[u8]) -> (r: Result<Vec<u8>, DecodeError>)
    ensures
        match decode(input@) {
            Some(bytes) => r is Ok && r->Ok_0@ == bytes,
            None => r == Err::<Vec<u8>, DecodeError>(DecodeError::UnexpectedEof),
        },
{
    let mut out: Vec<u8> = Vec::new();
    let mut pos: usize = 0;
    assert(input@.skip(0) =~= input@);
    assert(followed_by(out@, decode(input@)) =~= decode(input@)) by {
        if let Some(bytes) = decode(input@) {
            assert(out@ + bytes =~= bytes);
        }
    }
    loop
        invariant
            pos <= input.len(),
            decode(input@) == followed_by(out@, decode(input@.skip(pos as int))),
        decreases input.len() - pos,
    {
        let ghost rest = input@.skip(pos as int);
        let ghost written = out@;
        let header = match get_u8(slice_subrange(input, pos, input.len())) {
            Some(byte) => byte,
            None => {
                return Err(DecodeError::UnexpectedEof);
            },
        };
        pos += 1;
        match Header::parse(header) {
            Header::End => {
                assert(out@ + Seq::<u8>::empty() =~= out@);
                return Ok(out);
            },
            Header::Run(count) => {
                let value = match get_u8(slice_subrange(input, pos, input.len())) {
                    Some(byte) => byte,
                    None => {
                        return Err(DecodeError::UnexpectedEof);
                    },
                };
                pos += 1;
                let mut k: u8 = 0;
                while k < count
                    invariant
                        k <= count,
                        out@ == written + Seq::new(k as nat, |j: int| value),
                    decreases count - k,
                {
                    put_u8(&mut out, value);
                    k += 1;
                    assert(out@ =~= written + Seq::new(k as nat, |j: int| value));
                }
                proof {
                    assert(rest.skip(2) =~= input@.skip(pos as int));
                    assert(Seq::new(count as nat, |j: int| value) =~= Seq::new(
                        count as nat,
                        |j: int| rest[1],
                    ));
                    lemma_followed_by_twice(
                        written,
                        Seq::new(count as nat, |j: int| value),
                        decode(rest.skip(2)),
                    );
                }
            },
            Header::Literal(len) => {
                let len = len as usize;
                if input.len() - pos < len {
                    return Err(DecodeError::UnexpectedEof);
                }
                out.extend_from_slice(slice_subrange(input, pos, pos + len));
                proof {
                    assert(out@ =~= written + rest.subrange(1, 1 + len));
                    assert(rest.skip(1 + len) =~= input@.skip(pos + len));
                    lemma_followed_by_twice(
                        written,
                        rest.subrange(1, 1 + len),
                        decode(rest.skip(1 + len)),
                    );
                }
                pos += len;
            },
        }
    }
}

/// Putting two pieces in front, one after the other, is putting their
/// concatenation in front.
proof fn lemma_followed_by_twice(a: Seq<u8>, b: Seq<u8>, rest: Option<Seq<u8>>)
    ensures
        followed_by(a, followed_by(b, rest)) == followed_by(a + b, rest),
{
    if let Some(tail) = rest {
        assert(a + (b + tail) =~= (a + b) + tail);
    }
}

} // verus!
