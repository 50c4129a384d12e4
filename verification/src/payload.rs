//! Intake of an HTTP request body that arrives in chunks, with a cap on its
//! size.
use vstd::prelude::*;

verus! {

/// The largest request body accepted, in bytes (256 KiB).
pub const MAX_SIZE: usize = 262_144;

/// Why a request body was refused.
#[derive(Debug, PartialEq, Eq)]
pub enum PayloadError {
    /// The body would grow past `MAX_SIZE`.
    Overflow,
}

/// Adds the next chunk to the body read so far, or refuses it when the
/// body would then be longer than `MAX_SIZE`.
pub fn append_chunk(body: Vec<u8>, chunk: &[u8]) -> (r: Result<Vec<u8>, PayloadError>)
    ensures
        body@.len() + chunk@.len() > MAX_SIZE <==> r is Err,
        r matches Err(e) ==> e == PayloadError::Overflow,
        r matches Ok(b) ==> b@ == body@ + chunk@ && b@.len() <= MAX_SIZE,
{
    if chunk.len() > MAX_SIZE || body.len() > MAX_SIZE - chunk.len() {
        Err(PayloadError::Overflow)
    } else {
        let mut body = body;
        body.extend_from_slice(chunk);
        Ok(body)
    }
}

} // verus!
