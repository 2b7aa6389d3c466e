//! Single bytes in and out of memory buffers, moved by `byteorder`.

use byteorder::{ReadBytesExt, WriteBytesExt};
use vstd::prelude::*;

verus! {

/// Appends `byte` to `out` with `byteorder::WriteBytesExt::write_u8`.
///
/// Not proved, but taken from `byteorder` and the standard library: `write_u8`
/// hands the one byte to `write_all`, and a `Vec<u8>` written to takes the
/// bytes at its end and reports no error, so the result that is dropped
/// here is always `Ok`.
#[verifier::external_body]
pub(crate) fn put_u8(out: &mut Vec<u8>, byte: u8)
    ensures
        final(out)@ == old(out)@.push(byte),
{
    let _ = out.write_u8(byte);
}

/// Reads the first byte of `rest` with `byteorder::ReadBytesExt::read_u8`.
///
/// Not proved, but taken from `byteorder` and the standard library: `read_u8`
/// asks `read_exact` for one byte, and a byte slice that is read from gives
/// its bytes in order and fails with an unexpected end of input once none
/// is left. That failure is the `None` returned here.
#[verifier::external_body]
pub(crate) fn get_u8(rest: &[u8]) -> (byte: Option<u8>)
    ensures
        rest@.len() == 0 ==> byte is None,
        rest@.len() > 0 ==> byte == Some(rest@[0]),
{
    let mut reader = rest;
    reader.read_u8().ok()
}

} // verus!
