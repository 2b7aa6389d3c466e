//! Measuring the input: how long a run is, and where a literal ends.

use crate::format::{MAX_COUNT, MIN_RUN};
use vstd::prelude::*;

verus! {

/// The number of bytes of `s`, from position `i` on, that equal `s[i]`,
/// counted no further than `cap`. It is at least 1.
pub open spec fn run_length(s: Seq<u8>, i: int, cap: nat) -> nat
    decreases cap,
{
    if cap > 1 && 0 <= i && i + 1 < s.len() && s[i + 1] == s[i] {
        1 + run_length(s, i + 1, (cap - 1) as nat)
    } else {
        1
    }
}

/// The length of a literal that has taken `taken` bytes and stands at
/// position `i` of `s`. It grows by the single bytes and pairs that it meets,
/// takes of a pair only the byte that it still has room for, and stops before
/// three equal bytes, at the end of `s`, or once it holds 127 bytes.
pub open spec fn literal_length(s: Seq<u8>, i: int, taken: nat) -> nat
    decreases s.len() - i,
{
    if 0 <= i < s.len() && taken < 127 {
        let r = run_length(s, i, 3);
        if r >= 3 {
            taken
        } else {
            let step = if taken + r > 127 {
                (127 - taken) as nat
            } else {
                r
            };
            literal_length(s, i + step, taken + step)
        }
    } else {
        taken
    }
}

/// A run is what its definition counts: it stays inside `s` and under the
/// cap, its bytes are equal, and it ends only where it must.
pub proof fn lemma_run_length(s: Seq<u8>, i: int, cap: nat)
    requires
        0 <= i < s.len(),
        cap >= 1,
    ensures
        1 <= run_length(s, i, cap) <= cap,
        i + run_length(s, i, cap) <= s.len(),
        forall|k: int| i <= k < i + run_length(s, i, cap) ==> s[k] == s[i],
        run_length(s, i, cap) == cap || i + run_length(s, i, cap) == s.len() || s[i + run_length(
            s,
            i,
            cap,
        )] != s[i],
    decreases cap,
{
    if cap > 1 && i + 1 < s.len() && s[i + 1] == s[i] {
        lemma_run_length(s, i + 1, (cap - 1) as nat);
    }
}

/// Whether a run reaches three bytes does not depend on a cap of three or
/// more: it does where three equal bytes stand at `i`, and only there.
pub proof fn lemma_short_run(s: Seq<u8>, i: int, cap: nat)
    requires
        0 <= i < s.len(),
        cap >= 3,
    ensures
        run_length(s, i, cap) >= 3 <==> run_length(s, i, 3) >= 3,
        run_length(s, i, 3) >= 3 <==> i + 2 < s.len() && s[i + 1] == s[i] && s[i + 2] == s[i],
{
    lemma_run_length(s, i, cap);
    lemma_run_length(s, i, 3);
}

/// A literal only grows, stays inside `s`, never holds more than 127
/// bytes, and takes at least one byte where it has room and no run starts.
pub proof fn lemma_literal_length(s: Seq<u8>, i: int, taken: nat)
    requires
        0 <= i <= s.len(),
    ensures
        taken <= literal_length(s, i, taken),
        literal_length(s, i, taken) - taken <= s.len() - i,
        taken <= 127 ==> literal_length(s, i, taken) <= 127,
        i < s.len() && taken < 127 && run_length(s, i, 3) < 3 ==> literal_length(s, i, taken)
            > taken,
    decreases s.len() - i,
{
    if i < s.len() && taken < 127 {
        let r = run_length(s, i, 3);
        lemma_run_length(s, i, 3);
        if r < 3 {
            let step = if taken + r > 127 {
                (127 - taken) as nat
            } else {
                r
            };
            lemma_literal_length(s, i + step, taken + step);
        }
    }
}

/// The record that the encoder writes at position `i`: a run of 3 to 127
/// equal bytes where three equal bytes stand there, and otherwise a literal
/// of 1 to 127 bytes. Either stays inside `s`.
pub proof fn lemma_record(s: Seq<u8>, i: int)
    requires
        0 <= i < s.len(),
    ensures
        1 <= run_length(s, i, 127) <= 127,
        i + run_length(s, i, 127) <= s.len(),
        forall|k: int| i <= k < i + run_length(s, i, 127) ==> s[k] == s[i],
        run_length(s, i, 127) >= 3 <==> run_length(s, i, 3) >= 3,
        run_length(s, i, 127) < 3 ==> 1 <= literal_length(s, i, 0) <= 127,
        i + literal_length(s, i, 0) <= s.len(),
{
    lemma_run_length(s, i, 127);
    lemma_short_run(s, i, 127);
    lemma_literal_length(s, i, 0);
}

/// Counts the bytes of `input` that repeat `input[i]` from position `i` on,
/// and stops counting at `cap`.
pub fn measure_run(input: &[u8], i: usize, cap: usize) -> (n: usize)
    requires
        i < input.len(),
        cap >= 1,
    ensures
        n == run_length(input@, i as int, cap as nat),
        1 <= n <= cap,
        i + n <= input.len(),
        forall|k: int| i <= k < i + n ==> input@[k] == input@[i as int],
        n == cap || i + n == input.len() || input@[i + n] != input@[i as int],
{
    let current = input[i];
    let mut n: usize = 1;
    while n < cap && n < input.len() - i && input[i + n] == current
        invariant
            i < input.len(),
            current == input@[i as int],
            1 <= n <= cap,
            i + n <= input.len(),
            forall|k: int| i <= k < i + n ==> input@[k] == current,
            run_length(input@, i as int, cap as nat) == (n - 1) + run_length(
                input@,
                i + n - 1,
                (cap - n + 1) as nat,
            ),
        decreases cap - n,
    {
        n += 1;
    }
    n
}

/// Measures the literal that starts at position `start` of `input`: single
/// bytes and pairs are taken in turn, of a pair only what still fits, up to
/// three equal bytes, the end of the input, or a length of 127.
pub fn measure_literal(input: &[u8], start: usize) -> (len: usize)
    requires
        start <= input.len(),
    ensures
        len == literal_length(input@, start as int, 0),
        len <= 127,
        start + len <= input.len(),
        start < input.len() && run_length(input@, start as int, 3) < 3 ==> len >= 1,
{
    let mut i: usize = start;
    let mut len: usize = 0;
    proof {
        lemma_literal_length(input@, start as int, 0);
    }
    while i < input.len() && len < MAX_COUNT
        invariant
            start <= i <= input.len(),
            i == start + len,
            len <= 127,
            literal_length(input@, i as int, len as nat) == literal_length(
                input@,
                start as int,
                0,
            ),
        ensures
            start <= i <= input.len(),
            i == start + len,
            len <= 127,
            len == literal_length(input@, start as int, 0),
        decreases input.len() - i,
    {
        let next_run = measure_run(input, i, MIN_RUN);
        if next_run >= MIN_RUN {
            break;
        }
        let room = MAX_COUNT - len;
        let step = if next_run > room {
            room
        } else {
            next_run
        };
        i += step;
        len += step;
    }
    len
}

} // verus!
