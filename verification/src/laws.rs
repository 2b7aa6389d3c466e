//! What holds of every encoding, and what decoding makes of it.

use crate::decoder::decode;
use crate::encoder::{encode, encode_from};
use crate::format::{well_framed, Header, TERMINATOR};
use crate::scan::{lemma_record, literal_length, run_length};
use vstd::prelude::*;

verus! {

/// Decoding the encoding of `s` from position `i` on gives the bytes of `s`
/// from `i` on.
pub proof fn lemma_round_trip_from(s: Seq<u8>, i: int)
    requires
        0 <= i <= s.len(),
    ensures
        decode(encode_from(s, i)) == Some(s.skip(i)),
    decreases s.len() - i,
{
    let framed = encode_from(s, i);
    if i < s.len() {
        lemma_record(s, i);
        let run = run_length(s, i, 127);
        let len = literal_length(s, i, 0) as int;
        if run >= 3 {
            lemma_round_trip_from(s, i + run);
            assert(Header::of(framed[0]) == Header::Run(run as u8));
            assert(framed.skip(2) =~= encode_from(s, i + run));
            assert(Seq::new(run, |k: int| framed[1]) + s.skip(i + run) =~= s.skip(i));
        } else {
            lemma_round_trip_from(s, i + len);
            assert(Header::of(framed[0]) == Header::Literal(len as u8));
            assert(framed.skip(1 + len) =~= encode_from(s, i + len));
            assert(framed.subrange(1, 1 + len) =~= s.subrange(i, i + len));
            assert(s.subrange(i, i + len) + s.skip(i + len) =~= s.skip(i));
        }
    } else {
        assert(Header::of(framed[0]) == Header::End);
        assert(s.skip(i) =~= Seq::<u8>::empty());
    }
}

/// The round trip: decoding the encoding of any byte sequence, the empty
/// one included, gives that sequence back.
pub proof fn lemma_round_trip(b: Seq<u8>)
    ensures
        decode(encode(b)) == Some(b),
{
    lemma_round_trip_from(b, 0);
    assert(b.skip(0) =~= b);
}

/// A second pass changes nothing: what came back from a round trip encodes
/// as the input did, and decodes to the input again.
pub proof fn lemma_round_trip_again(b: Seq<u8>)
    ensures
        encode(decode(encode(b))->Some_0) == encode(b),
        decode(encode(decode(encode(b))->Some_0)) == Some(b),
{
    lemma_round_trip(b);
}

/// The encoding of `s` from position `i` on is a complete framing.
pub proof fn lemma_encode_from_well_framed(s: Seq<u8>, i: int)
    ensures
        well_framed(encode_from(s, i)),
        encode_from(s, i).last() == TERMINATOR,
    decreases s.len() - i,
{
    let framed = encode_from(s, i);
    if 0 <= i < s.len() {
        lemma_record(s, i);
        let run = run_length(s, i, 127);
        let len = literal_length(s, i, 0) as int;
        if run >= 3 {
            lemma_encode_from_well_framed(s, i + run);
            assert(Header::of(framed[0]) == Header::Run(run as u8));
            assert(framed.skip(2) =~= encode_from(s, i + run));
        } else {
            lemma_encode_from_well_framed(s, i + len);
            assert(Header::of(framed[0]) == Header::Literal(len as u8));
            assert(framed.skip(1 + len) =~= encode_from(s, i + len));
        }
    }
}

/// Every encoding is a complete framing: each header in front of its last
/// byte carries a run count of 3 to 127 or a literal length of 1 to 127, and
/// its last byte is the one terminator.
pub proof fn lemma_encode_well_framed(b: Seq<u8>)
    ensures
        well_framed(encode(b)),
        encode(b).last() == TERMINATOR,
{
    lemma_encode_from_well_framed(b, 0);
}

/// A complete framing decodes.
pub proof fn lemma_well_framed_decodes(f: Seq<u8>)
    requires
        well_framed(f),
    ensures
        decode(f) is Some,
    decreases f.len(),
{
    match Header::of(f[0]) {
        Header::End => {},
        Header::Run(count) => {
            lemma_well_framed_decodes(f.skip(2));
        },
        Header::Literal(len) => {
            lemma_well_framed_decodes(f.skip(1 + len));
        },
    }
}

/// Decoding stops at the terminator: what stands behind a framing that
/// decodes changes nothing.
pub proof fn lemma_decode_ignores_trailing(framed: Seq<u8>, trailing: Seq<u8>)
    requires
        decode(framed) is Some,
    ensures
        decode(framed + trailing) == decode(framed),
    decreases framed.len(),
{
    let whole = framed + trailing;
    assert(whole[0] == framed[0]);
    match Header::of(framed[0]) {
        Header::End => {},
        Header::Run(count) => {
            assert(whole[1] == framed[1]);
            assert(whole.skip(2) =~= framed.skip(2) + trailing);
            lemma_decode_ignores_trailing(framed.skip(2), trailing);
        },
        Header::Literal(len) => {
            assert(whole.skip(1 + len) =~= framed.skip(1 + len) + trailing);
            assert(whole.subrange(1, 1 + len) =~= framed.subrange(1, 1 + len));
            lemma_decode_ignores_trailing(framed.skip(1 + len), trailing);
        },
    }
}

} // verus!
