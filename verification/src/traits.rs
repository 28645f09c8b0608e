//! Capabilities the caller supplies: the blocking byte-stream transport and
//! the entropy source.

use vstd::prelude::*;
use crate::error::TlsError;

verus! {

/// A blocking byte stream. `incoming` is the implementor's model of the
/// bytes the stream will still deliver; `sent` of the bytes delivered to
/// the peer so far. `read` hands incoming bytes out one at a time, in
/// order, and fails once the stream has nothing left to deliver; `write`
/// either appends the whole slice to `sent` or fails having delivered
/// nothing. Neither direction disturbs the other, and the one failure a
/// byte stream can report is an I/O failure.
pub trait Transport {
    spec fn incoming(&self) -> Seq<u8>;

    spec fn sent(&self) -> Seq<u8>;

    fn read(&mut self) -> (r: Result<u8, TlsError>)
        ensures
            final(self).sent() == old(self).sent(),
            old(self).incoming().len() > 0 ==> r == Ok::<u8, TlsError>(old(self).incoming()[0])
                && final(self).incoming() == old(self).incoming().skip(1),
            old(self).incoming().len() == 0 ==> r == Err::<u8, TlsError>(TlsError::IoError)
                && final(self).incoming() == old(self).incoming(),
    ;

    fn write(&mut self, data: &[u8]) -> (r: Result<(), TlsError>)
        ensures
            final(self).incoming() == old(self).incoming(),
            r.is_ok() ==> final(self).sent() == old(self).sent() + data@,
            r.is_err() ==> r == Err::<(), TlsError>(TlsError::IoError) && final(self).sent()
                == old(self).sent(),
    ;
}

/// A cryptographically secure source of random bytes. Nothing is promised
/// of the values, only that the requested number of bytes comes back.
pub trait EntropySource {
    fn random_bytes(&mut self, n: usize) -> (out: Vec<u8>)
        ensures
            out@.len() == n,
    ;
}

} // verus!
