//! The encoder: from bytes to their framing.

use crate::format::{
    literal_header, run_header, LITERAL_FLAG, MAX_COUNT, MIN_RUN, TERMINATOR,
};
use crate::scan::{lemma_record, literal_length, measure_literal, measure_run, run_length};
use crate::wire::put_u8;
use vstd::prelude::*;
use vstd::slice::slice_subrange;

verus! {

/// The framing of the bytes of `s` from position `i` on.
///
/// Where three or more equal bytes stand at `i`, a run record takes up to 127
/// of them: its header, then the byte. Otherwise a literal record takes the
/// bytes up to the next run: its header, then the bytes themselves. After the
/// last record comes the terminator.
pub open spec fn encode_from(s: Seq<u8>, i: int) -> Seq<u8>
    decreases s.len() - i,
    via encode_from_advances
{
    if 0 <= i < s.len() {
        let run = run_length(s, i, 127);
        if run >= 3 {
            seq![run_header(run), s[i]] + encode_from(s, i + run)
        } else {
            let len = literal_length(s, i, 0);
            seq![literal_header(len)] + s.subrange(i, i + len) + encode_from(s, i + len)
        }
    } else {
        seq![TERMINATOR]
    }
}

#[via_fn]
proof fn encode_from_advances(s: Seq<u8>, i: int) {
    if 0 <= i < s.len() {
        lemma_record(s, i);
    }
}

/// The framing of the byte sequence `s`.
pub open spec fn encode(s: Seq<u8>) -> Seq<u8> {
    encode_from(s, 0)
}

/// Encodes `input`: one left-to-right scan that writes a run record for
/// each stretch of three or more equal bytes, a literal record for what lies
/// between, and the terminator at the end.
pub fn compress(input: &[u8]) -> (out: Vec<u8>)
    ensures
        out@ == encode(input@),
{
    let mut out: Vec<u8> = Vec::new();
    let mut i: usize = 0;
    assert(out@ + encode_from(input@, 0) =~= encode(input@));
    while i < input.len()
        invariant
            i <= input.len(),
            out@ + encode_from(input@, i as int) == encode(input@),
        decreases input.len() - i,
    {
        let ghost written = out@;
        proof {
            lemma_record(input@, i as int);
        }
        let run_length = measure_run(input, i, MAX_COUNT);
        if run_length >= MIN_RUN {
            let header = run_length as u8;
            put_u8(&mut out, header);
            put_u8(&mut out, input[i]);
            assert(out@ + encode_from(input@, i + run_length) =~= written + encode_from(
                input@,
                i as int,
            ));
            i += run_length;
        } else {
            let literal_length = measure_literal(input, i);
            let header = LITERAL_FLAG | (literal_length as u8);
            proof {
                let low = literal_length as u8;
                assert(low <= 127 ==> 0x80u8 | low == 128u8 + low) by (bit_vector);
            }
            put_u8(&mut out, header);
            out.extend_from_slice(slice_subrange(input, i, i + literal_length));
            assert(out@ =~= written + seq![header] + input@.subrange(
                i as int,
                i + literal_length,
            ));
            assert(out@ + encode_from(input@, i + literal_length) =~= written + encode_from(
                input@,
                i as int,
            ));
            i += literal_length;
        }
    }
    put_u8(&mut out, TERMINATOR);
    out
}

} // verus!
