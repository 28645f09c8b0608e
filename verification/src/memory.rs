//! In-memory implementations of the caller-supplied capabilities: a
//! loopback transport over preloaded bytes and a deterministic entropy
//! source. They are what the test suite drives the connection with.

use vstd::prelude::*;
use crate::error::TlsError;
use crate::traits::{EntropySource, Transport};

verus! {

/// A transport that replays a preloaded byte sequence on `read` and
/// collects everything handed to `write`.
pub struct MemoryTransport {
    input: Vec<u8>,
    pos: usize,
    output: Vec<u8>,
}

impl MemoryTransport {
    /// A transport that will deliver exactly `input`.
    pub fn new(input: Vec<u8>) -> (t: MemoryTransport)
        ensures
            t.incoming() == input@,
            t.sent() == Seq::<u8>::empty(),
    {
        let t = MemoryTransport { input, pos: 0, output: Vec::new() };
        proof {
            assert(t.incoming() =~= t.input@);
        }
        t
    }

    /// The bytes delivered to the peer so far.
    pub fn transmitted(&self) -> (s: &Vec<u8>)
        ensures
            s@ == self.sent(),
    {
        &self.output
    }

    /// How many preloaded bytes are still undelivered.
    pub fn remaining_input(&self) -> (n: usize)
        ensures
            n == self.incoming().len(),
    {
        if self.pos <= self.input.len() {
            self.input.len() - self.pos
        } else {
            0
        }
    }
}

impl Transport for MemoryTransport {
    closed spec fn incoming(&self) -> Seq<u8> {
        if self.pos <= self.input@.len() {
            self.input@.skip(self.pos as int)
        } else {
            Seq::<u8>::empty()
        }
    }

    closed spec fn sent(&self) -> Seq<u8> {
        self.output@
    }

    fn read(&mut self) -> (r: Result<u8, TlsError>) {
        if self.pos < self.input.len() {
            let b = self.input[self.pos];
            self.pos = self.pos + 1;
            proof {
                assert(final(self).incoming() =~= old(self).incoming().skip(1));
            }
            Ok(b)
        } else {
            Err(TlsError::IoError)
        }
    }

    fn write(&mut self, data: &[u8]) -> (r: Result<(), TlsError>) {
        let mut i: usize = 0;
        while i < data.len()
            invariant
                i <= data@.len(),
                self.output@ == old(self).output@ + data@.take(i as int),
                self.input == old(self).input,
                self.pos == old(self).pos,
            decreases data@.len() - i,
        {
            let b = *vstd::slice::slice_index_get(data, i);
            self.output.push(b);
            proof {
                assert(self.output@ =~= old(self).output@ + data@.take(i + 1));
            }
            i = i + 1;
        }
        proof {
            assert(data@.take(data@.len() as int) =~= data@);
        }
        Ok(())
    }
}

/// An entropy source that counts upward through byte values. It stands in
/// for a real generator where determinism is wanted, as in tests.
pub struct CountingEntropy {
    next: u8,
}

impl CountingEntropy {
    /// A source whose first byte will be `seed`.
    pub fn new(seed: u8) -> (e: CountingEntropy) {
        CountingEntropy { next: seed }
    }
}

impl EntropySource for CountingEntropy {
    fn random_bytes(&mut self, n: usize) -> (out: Vec<u8>) {
        let mut out: Vec<u8> = Vec::new();
        let mut i: usize = 0;
        while i < n
            invariant
                out@.len() == i,
                i <= n,
            decreases n - i,
        {
            out.push(self.next);
            self.next = if self.next == 255 {
                0
            } else {
                self.next + 1
            };
            i = i + 1;
        }
        out
    }
}

} // verus!
