//! Connection configuration, the shared record buffer, and the resource
//! bundle handed over at construction and recovered at close.

use vstd::prelude::*;
use crate::traits::EntropySource;

verus! {

/// Bytes of every record spent on framing in this codec: content type,
/// encryption flag, an eight-byte sequence number and a two-byte length.
pub const RECORD_HEADER_LEN: usize = 12;

/// Space reserved in the record buffer for per-record framing, padding and
/// the authentication tag. The usable application-data chunk of a record is
/// the buffer capacity minus this constant.
pub const TLS_RECORD_OVERHEAD: usize = 128;

/// Largest record buffer capacity the wire format supports: a record's
/// length field is two bytes, so the payload may not exceed 65535 bytes.
pub const MAX_RECORD_BUFFER: usize = 65547;

/// The cipher suites a configuration can select. The selection is threaded
/// through to the handshake; the driver itself never inspects it.
#[derive(Clone, Copy, Debug, PartialEq, Eq, Structural)]
pub enum CipherSuiteId {
    Aes128GcmSha256,
    Aes256GcmSha384,
}

/// Immutable, caller-constructed configuration.
#[derive(Clone, Copy, Debug, PartialEq, Eq, Structural)]
pub struct TlsConfig {
    pub cipher_suite: CipherSuiteId,
}

impl TlsConfig {
    pub fn new() -> (c: TlsConfig)
        ensures
            c.cipher_suite == CipherSuiteId::Aes128GcmSha256,
    {
        TlsConfig { cipher_suite: CipherSuiteId::Aes128GcmSha256 }
    }
}

/// The single fixed-capacity byte region every handshake message and every
/// data record is staged in. The capacity is chosen once by the caller and
/// never changes; the contents are overwritten by each record.
pub struct RecordBuffer {
    cap: usize,
    data: Vec<u8>,
}

impl RecordBuffer {
    /// Capacity chosen at construction.
    pub closed spec fn capacity_spec(&self) -> nat {
        self.cap as nat
    }

    /// Bytes currently staged in the buffer.
    pub closed spec fn bytes(&self) -> Seq<u8> {
        self.data@
    }

    /// A buffer is well formed when its capacity exceeds the reserved
    /// per-record overhead (so at least one payload byte fits in a record)
    /// and stays within what the two-byte length field can frame, and the
    /// staged record fits.
    pub open spec fn wf(&self) -> bool {
        TLS_RECORD_OVERHEAD < self.capacity_spec()
        && self.capacity_spec() <= MAX_RECORD_BUFFER
        && self.bytes().len() <= self.capacity_spec()
    }

    /// An empty buffer of the given capacity.
    pub fn new(capacity: usize) -> (b: RecordBuffer)
        requires
            TLS_RECORD_OVERHEAD < capacity <= MAX_RECORD_BUFFER,
        ensures
            b.wf(),
            b.capacity_spec() == capacity,
            b.bytes() == Seq::<u8>::empty(),
    {
        RecordBuffer { cap: capacity, data: Vec::new() }
    }

    pub fn capacity(&self) -> (c: usize)
        ensures
            c == self.capacity_spec(),
    {
        self.cap
    }

    /// Drop the staged record, keeping the capacity.
    pub fn clear(&mut self)
        ensures
            final(self).capacity_spec() == old(self).capacity_spec(),
            final(self).bytes() == Seq::<u8>::empty(),
    {
        self.data.clear();
    }

    /// Stage one more byte.
    pub fn push(&mut self, byte: u8)
        requires
            old(self).bytes().len() < old(self).capacity_spec(),
        ensures
            final(self).capacity_spec() == old(self).capacity_spec(),
            final(self).bytes() == old(self).bytes().push(byte),
    {
        self.data.push(byte);
    }

    /// Read one staged byte.
    pub fn byte_at(&self, i: usize) -> (b: u8)
        requires
            i < self.bytes().len(),
        ensures
            b == self.bytes()[i as int],
    {
        self.data[i]
    }

    /// The staged record, for handing to the transport.
    pub fn as_slice(&self) -> (s: &[u8])
        ensures
            s@ == self.bytes(),
    {
        self.data.as_slice()
    }

    /// Number of staged bytes.
    pub fn len(&self) -> (n: usize)
        ensures
            n == self.bytes().len(),
    {
        self.data.len()
    }
}

/// The bundle a connection is built from and gives back at a successful
/// close: configuration, entropy source and the record buffer. While a
/// connection holds the bundle, nobody else can touch the buffer.
pub struct TlsContext<Rng> where Rng: EntropySource {
    pub config: TlsConfig,
    pub rng: Rng,
    pub record_buf: RecordBuffer,
}

impl<Rng: EntropySource> TlsContext<Rng> {
    /// Assemble a context from an entropy source, a record buffer and a
    /// configuration.
    pub fn new_with_config(rng: Rng, record_buf: RecordBuffer, config: TlsConfig) -> (c:
        TlsContext<Rng>)
        ensures
            c.config == config,
            c.record_buf == record_buf,
            c.rng == rng,
    {
        TlsContext { config, rng, record_buf }
    }
}

} // verus!
