//! The filesystem's answer: how many bytes are available at a path.

use vstd::prelude::*;

verus! {

/// Relies on fs2::available_space: the bytes available to the calling user
/// on the volume holding the path, or the operating system's error rendered
/// as text. The answer depends on the machine's state at the moment of the
/// call, so nothing is promised of it; callers state what holds of every
/// outcome.
#[verifier::external_body]
pub(crate) fn query_available_bytes(path: &str) -> (r: Result<u64, String>) {
    match fs2::available_space(std::path::Path::new(path)) {
        Ok(avail_bytes) => Ok(avail_bytes),
        Err(err) => Err(format!("{err}")),
    }
}

} // verus!
