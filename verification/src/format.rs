//! The framing format: what a header byte means.

use vstd::prelude::*;

verus! {

/// Largest count or length that the seven low bits of a header byte carry.
pub const MAX_COUNT: usize = 127;

/// Fewest equal bytes in a row that are written as a run record.
pub const MIN_RUN: usize = 3;

/// The bit of a header byte that marks a literal record.
pub const LITERAL_FLAG: u8 = 0x80;

/// The header byte that closes a stream.
pub const TERMINATOR: u8 = 0;

/// The length field of a header byte: its seven low bits.
pub open spec fn header_length(h: u8) -> nat {
    (h % 128) as nat
}

/// The literal flag of a header byte: its high bit.
pub open spec fn header_is_literal(h: u8) -> bool {
    h >= 128
}

/// The header byte of a run record of `count` bytes: the count itself,
/// under a literal flag of zero.
pub open spec fn run_header(count: nat) -> u8
    recommends
        1 <= count <= 127,
{
    count as u8
}

/// The header byte of a literal record of `len` bytes: the length under the
/// literal flag.
pub open spec fn literal_header(len: nat) -> u8
    recommends
        1 <= len <= 127,
{
    (128 + len) as u8
}

/// What a header byte announces.
#[derive(Clone, Copy, Debug, PartialEq, Eq, Structural)]
pub enum Header {
    /// The length field is zero: the stream ends here, whatever the flag.
    End,
    /// One value byte follows, to be repeated this many times.
    Run(u8),
    /// This many bytes follow, to be copied as they are.
    Literal(u8),
}

impl Header {
    /// The meaning of the header byte `h`.
    pub open spec fn of(h: u8) -> Header {
        if header_length(h) == 0 {
            Header::End
        } else if header_is_literal(h) {
            Header::Literal((h % 128) as u8)
        } else {
            Header::Run(h)
        }
    }

    /// The count or length that this header carries; zero at the end.
    pub open spec fn count(self) -> nat {
        match self {
            Header::End => 0,
            Header::Run(n) => n as nat,
            Header::Literal(n) => n as nat,
        }
    }

    /// Reads a header byte: the high bit is the literal flag, the seven low
    /// bits are the length, and a length of zero ends the stream.
    pub fn parse(h: u8) -> (r: Header)
        ensures
            r == Header::of(h),
            1 <= r.count() <= 127 || r == Header::End,
    {
        let literal = h & LITERAL_FLAG != 0;
        let length = h & 0x7f;
        assert(h & 0x80 != 0 <==> h >= 128) by (bit_vector);
        assert(h & 0x7f == h % 128) by (bit_vector);
        if length == 0 {
            Header::End
        } else if literal {
            Header::Literal(length)
        } else {
            Header::Run(length)
        }
    }
}

/// Whether `f` is a complete framing as the encoder writes it: records one
/// after the other, each a run header with a count of 3 to 127 and its value
/// byte, or a literal header with a length of 1 to 127 and that many bytes,
/// and behind the last record the terminator as the last byte of `f`. No
/// header in front of that last byte has a length field of zero.
pub open spec fn well_framed(f: Seq<u8>) -> bool
    decreases f.len(),
{
    if f.len() == 0 {
        false
    } else if f[0] == TERMINATOR {
        f.len() == 1
    } else {
        match Header::of(f[0]) {
            Header::End => false,
            Header::Run(count) => count >= 3 && f.len() >= 2 && well_framed(f.skip(2)),
            Header::Literal(len) => f.len() >= 1 + len && well_framed(f.skip(1 + len)),
        }
    }
}

} // verus!
