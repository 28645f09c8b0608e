//! Error kinds reported by the connection driver.

use vstd::prelude::*;

verus! {

/// Every failure the driver can report.
///
/// - `MissingHandshake`: `write` or `read` was called before `open` completed.
/// - `ConnectionClosed`: the peer sent a close_notify alert.
/// - `EncodeError`: a decrypted application-data message is larger than the
///   space remaining in the caller's buffer.
/// - `DecodeError`: a wire record was malformed, arrived with an unexpected
///   sequence number, or did not fit the record buffer.
/// - `InternalError`: a protocol violation (unexpected change_cipher_spec,
///   a non-closing alert, or an unhandled post-handshake message).
/// - `IoError`: the transport failed to deliver or accept bytes.
#[derive(Clone, Copy, Debug, PartialEq, Eq, Structural)]
pub enum TlsError {
    MissingHandshake,
    ConnectionClosed,
    EncodeError,
    DecodeError,
    InternalError,
    IoError,
}

} // verus!
