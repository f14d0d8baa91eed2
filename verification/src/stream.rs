//! Trusted boundary to the byte-stream collaborators.
//!
//! The read- and write-integrated header operations consume exactly one
//! fixed-size header from a byte source, or write one to a byte sink, and
//! inherit that collaborator's failures unchanged. Only these two
//! capabilities are consumed; the transform itself never does I/O.

use vstd::prelude::*;

verus! {

/// Declares `std::io::Error`, the failure value of the stream
/// collaborators, which this library passes through unchanged.
#[verifier::external_type_specification]
#[verifier::external_body]
pub struct ExIoError(std::io::Error);

/// Relies on `std::io::Read::read_exact`: on success the returned buffer
/// holds exactly `n` bytes read from the reader; on failure the reader's
/// error is returned and no bytes are handed out.
#[verifier::external_body]
pub(crate) fn read_exact_bytes<R: std::io::Read>(mut reader: R, n: usize) -> (r: Result<
    Vec<u8>,
    std::io::Error,
>)
    ensures
        r matches Ok(v) ==> v@.len() == n,
{
    let mut buf = vec![0u8; n];
    match reader.read_exact(&mut buf) {
        Ok(()) => Ok(buf),
        Err(e) => Err(e),
    }
}

/// Relies on `std::io::Write::write_all`: on success the whole buffer was
/// written to the writer; on failure the writer's error is returned.
#[verifier::external_body]
pub(crate) fn write_all_bytes<W: std::io::Write>(mut writer: W, data: &Vec<u8>) -> (r: Result<
    (),
    std::io::Error,
>) {
    writer.write_all(data.as_slice())
}

} // verus!
