//! The connection orchestrator: lifecycle state, the chunking transmit
//! pump, the record receive pump, and the resource hand-back at close.

use vstd::prelude::*;
use crate::alert::{Alert, AlertDescription, AlertLevel};
use crate::config::{RecordBuffer, TlsConfig, TlsContext, RECORD_HEADER_LEN, TLS_RECORD_OVERHEAD};
use crate::error::TlsError;
use crate::handshake::{
    client_hello_payload,
    finished_payload,
    server_flight_model,
    Handshake,
    ServerFlightOutcome,
    State,
};
use crate::key_schedule::KeySchedule;
use crate::record::{
    announced_payload_len,
    decode_model,
    decode_record_blocking,
    decrypt_record,
    encode_record,
    msgs_view,
    parse_payload,
    record_bytes,
    ClientRecord,
    HandshakeType,
    MessageV,
    ServerHandshake,
    ServerRecord,
    CONTENT_APPLICATION_DATA,
    CONTENT_ALERT,
    CONTENT_HANDSHAKE,
};
use crate::traits::{EntropySource, Transport};

verus! {

/// Number of records a payload of `len` bytes is split into when each
/// record carries at most `max` payload bytes.
pub open spec fn num_chunks(len: int, max: int) -> int
    decreases len,
{
    if len <= 0 || max <= 0 {
        0
    } else if len <= max {
        1
    } else {
        1 + num_chunks(len - max, max)
    }
}

/// The contiguous, non-overlapping, in-order slices a payload is split
/// into, each of at most `max` bytes.
pub open spec fn chunks_of(p: Seq<u8>, max: int) -> Seq<Seq<u8>>
    decreases p.len(),
{
    if p.len() == 0 || max <= 0 {
        Seq::<Seq<u8>>::empty()
    } else if p.len() <= max {
        seq![p]
    } else {
        seq![p.take(max)] + chunks_of(p.skip(max), max)
    }
}

/// The wire bytes of the run of application-data records carrying the
/// given chunks, with consecutive sequence numbers from `wc` on.
pub open spec fn records_of(chunks: Seq<Seq<u8>>, wc: u64) -> Seq<u8>
    decreases chunks.len(),
{
    if chunks.len() == 0 {
        Seq::<u8>::empty()
    } else {
        record_bytes(CONTENT_APPLICATION_DATA, 1, wc, chunks[0]) + records_of(
            chunks.skip(1),
            (wc + 1) as u64,
        )
    }
}

/// A payload is never split into a negative number of records.
pub proof fn lemma_num_chunks_nonneg(len: int, max: int)
    ensures
        num_chunks(len, max) >= 0,
    decreases len,
{
    if !(len <= 0 || max <= 0) && len > max {
        lemma_num_chunks_nonneg(len - max, max);
    }
}

/// Appending one chunk to a run appends one record, carrying the next
/// sequence number after the run.
proof fn lemma_records_of_push(cs: Seq<Seq<u8>>, c: Seq<u8>, wc: u64)
    requires
        wc + cs.len() <= u64::MAX,
    ensures
        records_of(cs.push(c), wc) == records_of(cs, wc) + record_bytes(
            CONTENT_APPLICATION_DATA,
            1,
            (wc + cs.len()) as u64,
            c,
        ),
    decreases cs.len(),
{
    if cs.len() == 0 {
        assert(cs.push(c)[0] == c);
        assert(cs.push(c).skip(1) =~= Seq::<Seq<u8>>::empty());
        assert((wc + cs.len()) as u64 == wc);
        assert(records_of(Seq::<Seq<u8>>::empty(), (wc + 1) as u64) == Seq::<u8>::empty());
        assert(records_of(cs.push(c), wc) == record_bytes(CONTENT_APPLICATION_DATA, 1, wc, c)
            + records_of(cs.push(c).skip(1), (wc + 1) as u64));
        assert(records_of(cs, wc) == Seq::<u8>::empty());
        assert(records_of(cs.push(c), wc) =~= records_of(cs, wc) + record_bytes(
            CONTENT_APPLICATION_DATA,
            1,
            (wc + cs.len()) as u64,
            c,
        ));
    } else {
        assert(cs.push(c)[0] == cs[0]);
        assert(cs.push(c).skip(1) =~= cs.skip(1).push(c));
        lemma_records_of_push(cs.skip(1), c, (wc + 1) as u64);
        let rb0 = record_bytes(CONTENT_APPLICATION_DATA, 1, wc, cs[0]);
        let tail = records_of(cs.skip(1), (wc + 1) as u64);
        let rbc = record_bytes(CONTENT_APPLICATION_DATA, 1, (wc + cs.len()) as u64, c);
        assert(((wc + 1) + cs.skip(1).len()) as u64 == (wc + cs.len()) as u64);
        assert(records_of(cs.push(c), wc) == rb0 + (tail + rbc));
        assert(rb0 + (tail + rbc) =~= (rb0 + tail) + rbc);
        assert(records_of(cs, wc) == rb0 + tail);
    }
}

/// The concatenation of a run of chunks, in order.
pub open spec fn concat_of(chunks: Seq<Seq<u8>>) -> Seq<u8>
    decreases chunks.len(),
{
    if chunks.len() == 0 {
        Seq::<u8>::empty()
    } else {
        chunks[0] + concat_of(chunks.skip(1))
    }
}

/// The chunking law `write` obeys: a payload is split into exactly
/// `ceil(len / max)` chunks, in order; their concatenation is the payload
/// itself (so the chunks are contiguous and non-overlapping); every chunk
/// is non-empty and at most `max` bytes; and every chunk but the last is
/// exactly `max` bytes. One record is transmitted per chunk, so the write
/// counter advances `num_chunks` times per call.
pub proof fn lemma_write_chunking(p: Seq<u8>, max: int)
    requires
        max > 0,
    ensures
        chunks_of(p, max).len() == num_chunks(p.len() as int, max),
        num_chunks(p.len() as int, max) == (p.len() + max - 1) / max,
        concat_of(chunks_of(p, max)) == p,
        forall|i: int|
            0 <= i < chunks_of(p, max).len() ==> 1 <= (#[trigger] chunks_of(p, max)[i]).len()
                <= max,
        forall|i: int|
            0 <= i < chunks_of(p, max).len() - 1 ==> (#[trigger] chunks_of(p, max)[i]).len()
                == max,
    decreases p.len(),
{
    let cs = chunks_of(p, max);
    if p.len() == 0 {
        vstd::arithmetic::div_mod::lemma_basic_div(max - 1, max);
        assert(concat_of(cs) =~= p);
    } else if p.len() <= max {
        vstd::arithmetic::div_mod::lemma_basic_div(p.len() - 1, max);
        vstd::arithmetic::div_mod::lemma_div_plus_one(p.len() - 1, max);
        assert(cs == seq![p]);
        assert(cs.skip(1) =~= Seq::<Seq<u8>>::empty());
        assert(concat_of(cs) == cs[0] + concat_of(Seq::<Seq<u8>>::empty()));
        assert(concat_of(cs) =~= p);
    } else {
        let rest = chunks_of(p.skip(max), max);
        lemma_write_chunking(p.skip(max), max);
        vstd::arithmetic::div_mod::lemma_div_plus_one(p.len() - 1, max);
        assert(cs.skip(1) =~= rest);
        assert(p.take(max) + concat_of(rest) =~= p);
        assert forall|i: int| 0 <= i < cs.len() implies 1 <= (#[trigger] cs[i]).len() <= max by {
            if i > 0 {
                assert(cs[i] == rest[i - 1]);
            }
        }
        assert forall|i: int| 0 <= i < cs.len() - 1 implies (#[trigger] cs[i]).len() == max by {
            if i > 0 {
                assert(cs[i] == rest[i - 1]);
                if i - 1 < rest.len() - 1 {
                } else {
                    assert(rest[i - 1].len() == max);
                }
            }
        }
    }
}

/// Outcome of one `read` call on a given incoming stream: application
/// data delivered (with the stream and read counter left as stated); a
/// definite failure, with the application data the failing record had
/// already contributed before the failing message; or a stream too short
/// for the record it announces, which surfaces the transport's I/O error.
pub enum ReadOutcome {
    Success { data: Seq<u8>, rest: Seq<u8>, next_seq: u64 },
    Failure { err: TlsError, partial: Seq<u8> },
    Truncated,
}

/// Dispatch the queued messages of one record, from the `i`-th on, having
/// already accumulated `acc`: a close_notify alert means the connection is
/// closed; any other alert, a change_cipher_spec or a non-ticket handshake
/// message is a protocol violation; a session ticket is discarded; and
/// application data is appended as long as it fits the caller's space.
pub open spec fn drain_model(msgs: Seq<MessageV>, i: int, acc: Seq<u8>, cap: int) -> Result<
    Seq<u8>,
    (TlsError, Seq<u8>),
>
    decreases msgs.len() - i,
{
    if i < 0 || i >= msgs.len() {
        Ok(acc)
    } else {
        match msgs[i] {
            MessageV::AppData(d) => if acc.len() + d.len() > cap {
                Err((TlsError::EncodeError, acc))
            } else {
                drain_model(msgs, i + 1, acc + d, cap)
            },
            MessageV::Alert(_, desc) => if desc == AlertDescription::CloseNotify {
                Err((TlsError::ConnectionClosed, acc))
            } else {
                Err((TlsError::InternalError, acc))
            },
            MessageV::ChangeCipherSpec => Err((TlsError::InternalError, acc)),
            MessageV::Handshake(t, _) => if t == HandshakeType::NewSessionTicket {
                drain_model(msgs, i + 1, acc, cap)
            } else {
                Err((TlsError::InternalError, acc))
            },
        }
    }
}

/// What `read` yields on a given incoming stream, read counter, record
/// buffer capacity and caller buffer capacity: records are decoded,
/// checked against the counter and dispatched in arrival order, until one
/// contributes application data or fails.
pub open spec fn read_model(inc: Seq<u8>, rseq: u64, rcap: int, out_cap: int) -> ReadOutcome
    decreases inc.len(),
{
    if inc.len() >= RECORD_HEADER_LEN && announced_payload_len(inc) + RECORD_HEADER_LEN > rcap {
        (ReadOutcome::Failure { err: TlsError::DecodeError, partial: Seq::<u8>::empty() })
    } else {
        match decode_model(inc) {
            None => ReadOutcome::Truncated,
            Some((ty, flag, sq, p)) => {
                if sq != rseq || rseq == u64::MAX {
                    (ReadOutcome::Failure { err: TlsError::DecodeError, partial: Seq::<u8>::empty() })
                } else {
                    match parse_payload(ty, p) {
                        None => (ReadOutcome::Failure {
                            err: TlsError::DecodeError,
                            partial: Seq::<u8>::empty(),
                        }),
                        Some(msgs) => match drain_model(msgs, 0, Seq::<u8>::empty(), out_cap) {
                            Err((e, acc)) => (ReadOutcome::Failure { err: e, partial: acc }),
                            Ok(data) => if data.len() > 0 {
                                (ReadOutcome::Success {
                                    data,
                                    rest: inc.skip(RECORD_HEADER_LEN + p.len()),
                                    next_seq: (rseq + 1) as u64,
                                })
                            } else {
                                read_model(
                                    inc.skip(RECORD_HEADER_LEN + p.len()),
                                    (rseq + 1) as u64,
                                    rcap,
                                    out_cap,
                                )
                            },
                        },
                    }
                }
            },
        }
    }
}

/// How many write-counter increments the negotiation has performed once it
/// stands at the given phase: one per flight sent by the client.
pub open spec fn handshake_write_incs(phase: int) -> int {
    if phase == 0 {
        0
    } else if phase == 3 {
        2
    } else {
        1
    }
}

/// How many read-counter increments the negotiation has performed once it
/// stands at the given phase: one per accepted server flight.
pub open spec fn handshake_read_incs(phase: int) -> int {
    if phase <= 1 {
        0
    } else {
        1
    }
}

/// A TLS client connection over a blocking transport. An instance drives
/// the handshake to completion (`open`), then encrypts and transmits
/// (`write`) and receives and decrypts (`read`) application data one
/// record at a time, and finally hands its resources back (`close`).
pub struct TlsConnection<Rng, Socket> where Rng: EntropySource, Socket: Transport {
    delegate: Socket,
    rng: Rng,
    config: TlsConfig,
    key_schedule: KeySchedule,
    record_buf: RecordBuffer,
    opened: bool,
}

impl<Rng: EntropySource, Socket: Transport> TlsConnection<Rng, Socket> {
    /// Whether the handshake has completed on this connection.
    pub closed spec fn is_open(&self) -> bool {
        self.opened
    }

    pub closed spec fn config_spec(&self) -> TlsConfig {
        self.config
    }

    pub closed spec fn rng_spec(&self) -> Rng {
        self.rng
    }

    /// Capacity of the borrowed record buffer.
    pub closed spec fn buf_capacity(&self) -> nat {
        self.record_buf.capacity_spec()
    }

    /// Sequence number the next transmitted record will carry.
    pub closed spec fn write_count(&self) -> u64 {
        self.key_schedule.write_count()
    }

    /// Sequence number the next accepted record must carry.
    pub closed spec fn read_count(&self) -> u64 {
        self.key_schedule.read_count()
    }

    /// Bytes delivered to the peer so far.
    pub closed spec fn sent(&self) -> Seq<u8> {
        self.delegate.sent()
    }

    /// Bytes the transport will still deliver.
    pub closed spec fn incoming(&self) -> Seq<u8> {
        self.delegate.incoming()
    }

    /// A connection is well formed when its record buffer is.
    pub closed spec fn wf(&self) -> bool {
        self.record_buf.wf()
    }

    /// Payload bytes one record can carry: the buffer capacity less the
    /// reserved per-record overhead.
    pub open spec fn max_chunk(&self) -> int {
        self.buf_capacity() - TLS_RECORD_OVERHEAD
    }

    /// Create a connection from the resource bundle and a transport. No
    /// transport traffic happens; the connection starts unopened with a
    /// fresh key schedule.
    pub fn new(context: TlsContext<Rng>, delegate: Socket) -> (c: TlsConnection<Rng, Socket>)
        requires
            context.record_buf.wf(),
        ensures
            c.wf(),
            !c.is_open(),
            c.config_spec() == context.config,
            c.rng_spec() == context.rng,
            c.buf_capacity() == context.record_buf.capacity_spec(),
            c.write_count() == 0,
            c.read_count() == 0,
            c.sent() == delegate.sent(),
            c.incoming() == delegate.incoming(),
    {
        TlsConnection {
            delegate,
            config: context.config,
            rng: context.rng,
            opened: false,
            key_schedule: KeySchedule::new(),
            record_buf: context.record_buf,
        }
    }

    /// Drive the handshake state machine from its starting phase to the
    /// terminal phase: transmit the client hello, accept the server's
    /// reply exactly as `server_flight_model` decides, and transmit the
    /// finished message. On success the connection is open; on error it
    /// is left unopened (if it was unopened) and must be discarded, its
    /// key schedule and buffer contents being protocol-inconsistent.
    pub fn open(&mut self) -> (r: Result<(), TlsError>)
        requires
            old(self).wf(),
            old(self).write_count() + 2 <= u64::MAX,
        ensures
            final(self).wf(),
            final(self).config_spec() == old(self).config_spec(),
            final(self).buf_capacity() == old(self).buf_capacity(),
            r.is_ok() ==> final(self).is_open() && final(self).write_count() == old(
                self,
            ).write_count() + 2 && final(self).read_count() == old(self).read_count() + 1,
            r.is_err() ==> final(self).is_open() == old(self).is_open(),
            r.is_ok() ==> (server_flight_model(
                old(self).incoming(),
                old(self).read_count(),
                old(self).buf_capacity() as int,
            ) matches ServerFlightOutcome::Accepted { data, rest, next_seq }
                && final(self).incoming() == rest && final(self).read_count() == next_seq && (
            exists|rnd: Seq<u8>|
                #![auto]
                rnd.len() == 32 && final(self).sent() == old(self).sent() + record_bytes(
                    CONTENT_HANDSHAKE,
                    0,
                    old(self).write_count(),
                    client_hello_payload(rnd),
                ) + record_bytes(
                    CONTENT_HANDSHAKE,
                    1,
                    (old(self).write_count() + 1) as u64,
                    finished_payload(35 + data.len() as int),
                ))),
            server_flight_model(
                old(self).incoming(),
                old(self).read_count(),
                old(self).buf_capacity() as int,
            ) is Accepted ==> r.is_ok() || r == Err::<(), TlsError>(TlsError::IoError),
            server_flight_model(
                old(self).incoming(),
                old(self).read_count(),
                old(self).buf_capacity() as int,
            ) matches ServerFlightOutcome::Rejected { err } ==> r == Err::<(), TlsError>(err) || r
                == Err::<(), TlsError>(TlsError::IoError),
            server_flight_model(
                old(self).incoming(),
                old(self).read_count(),
                old(self).buf_capacity() as int,
            ) is Truncated ==> r == Err::<(), TlsError>(TlsError::IoError),
    {
        let mut handshake = Handshake::new();
        let mut state = State::ClientHello;
        let ghost inc0 = self.delegate.incoming();
        let ghost rc0 = self.key_schedule.read_count();
        let ghost wc0 = self.key_schedule.write_count();
        let ghost rcap0 = self.record_buf.capacity_spec() as int;
        while state != State::ApplicationData
            invariant
                self.wf(),
                self.config_spec() == old(self).config_spec(),
                self.buf_capacity() == old(self).buf_capacity(),
                self.is_open() == old(self).is_open(),
                0 <= state.phase() <= 3,
                old(self).write_count() + 2 <= u64::MAX,
                self.write_count() == old(self).write_count() + handshake_write_incs(
                    state.phase(),
                ),
                self.read_count() == old(self).read_count() + handshake_read_incs(state.phase()),
                inc0 == old(self).incoming(),
                rc0 == old(self).read_count(),
                wc0 == old(self).write_count(),
                rcap0 == old(self).buf_capacity() as int,
                state is ClientHello ==> self.delegate.sent() == old(self).sent()
                    && self.delegate.incoming() == inc0 && handshake.transcript@
                    == Seq::<u8>::empty(),
                state is ServerHello ==> self.delegate.incoming() == inc0 && (exists|rnd: Seq<u8>|
                    #![auto]
                    rnd.len() == 32 && self.delegate.sent() == old(self).sent() + record_bytes(
                        CONTENT_HANDSHAKE,
                        0,
                        wc0,
                        client_hello_payload(rnd),
                    ) && handshake.transcript@ == client_hello_payload(rnd)),
                state is ClientFinished ==> (server_flight_model(inc0, rc0, rcap0)
                    matches ServerFlightOutcome::Accepted { data, rest, next_seq }
                    && self.delegate.incoming() == rest && self.key_schedule.read_count()
                    == next_seq && (exists|rnd: Seq<u8>|
                    #![auto]
                    rnd.len() == 32 && self.delegate.sent() == old(self).sent() + record_bytes(
                        CONTENT_HANDSHAKE,
                        0,
                        wc0,
                        client_hello_payload(rnd),
                    ) && handshake.transcript@ == client_hello_payload(rnd) + data)),
                state is ApplicationData ==> (server_flight_model(inc0, rc0, rcap0)
                    matches ServerFlightOutcome::Accepted { data, rest, next_seq }
                    && self.delegate.incoming() == rest && self.key_schedule.read_count()
                    == next_seq && (exists|rnd: Seq<u8>|
                    #![auto]
                    rnd.len() == 32 && self.delegate.sent() == old(self).sent() + record_bytes(
                        CONTENT_HANDSHAKE,
                        0,
                        wc0,
                        client_hello_payload(rnd),
                    ) + record_bytes(
                        CONTENT_HANDSHAKE,
                        1,
                        (wc0 + 1) as u64,
                        finished_payload(35 + data.len() as int),
                    ))),
            decreases 3 - state.phase(),
        {
            let next = match state.process_blocking(
                &mut self.delegate,
                &mut handshake,
                &mut self.record_buf,
                &mut self.key_schedule,
                &self.config,
                &mut self.rng,
            ) {
                Ok(n) => n,
                Err(e) => {
                    return Err(e);
                },
            };
            state = next;
        }
        self.opened = true;
        Ok(())
    }

    /// Encrypt and transmit the whole input, one record per chunk of at
    /// most `max_chunk` bytes, in order, advancing the write counter once
    /// per record. On success the returned count is the input length. An
    /// error is always the transport's I/O failure, leaves exactly the
    /// records counted by the write counter transmitted, and entails an
    /// untransmitted remainder — so an empty input always succeeds.
    /// Before `open` has completed, fails with `MissingHandshake` and
    /// touches nothing.
    pub fn write(&mut self, buf: &[u8]) -> (r: Result<usize, TlsError>)
        requires
            old(self).wf(),
            old(self).is_open() ==> old(self).write_count() + num_chunks(
                buf@.len() as int,
                old(self).max_chunk(),
            ) <= u64::MAX,
        ensures
            final(self).wf(),
            !old(self).is_open() ==> r == Err::<usize, TlsError>(TlsError::MissingHandshake)
                && *final(self) == *old(self),
            final(self).config_spec() == old(self).config_spec(),
            final(self).buf_capacity() == old(self).buf_capacity(),
            final(self).is_open() == old(self).is_open(),
            final(self).read_count() == old(self).read_count(),
            final(self).incoming() == old(self).incoming(),
            old(self).is_open() ==> (r matches Ok(n) ==> n == buf@.len() && final(self).sent()
                == old(self).sent() + records_of(
                chunks_of(buf@, old(self).max_chunk()),
                old(self).write_count(),
            ) && final(self).write_count() == old(self).write_count() + num_chunks(
                buf@.len() as int,
                old(self).max_chunk(),
            )),
            old(self).is_open() ==> (r matches Err(e) ==> ({
                let k = final(self).write_count() - old(self).write_count();
                &&& e == TlsError::IoError
                &&& 0 <= k < num_chunks(buf@.len() as int, old(self).max_chunk())
                &&& final(self).sent() == old(self).sent() + records_of(
                    chunks_of(buf@, old(self).max_chunk()).take(k),
                    old(self).write_count(),
                )
            })),
    {
        if !self.opened {
            return Err(TlsError::MissingHandshake);
        }
        let max_block_size = self.record_buf.capacity() - TLS_RECORD_OVERHEAD;
        let mut wp: usize = 0;
        let ghost mut done: int = 0;
        proof {
            assert(buf@.skip(0) =~= buf@);
            lemma_num_chunks_nonneg(buf@.len() as int, self.max_chunk());
            assert(chunks_of(buf@, self.max_chunk()).skip(0) =~= chunks_of(
                buf@,
                self.max_chunk(),
            ));
            assert(chunks_of(buf@, self.max_chunk()).take(0) =~= Seq::<Seq<u8>>::empty());
        }
        while wp < buf.len()
            invariant
                self.wf(),
                self.is_open(),
                old(self).is_open(),
                wp <= buf@.len(),
                max_block_size == self.max_chunk(),
                max_block_size >= 1,
                self.config_spec() == old(self).config_spec(),
                self.buf_capacity() == old(self).buf_capacity(),
                self.read_count() == old(self).read_count(),
                self.incoming() == old(self).incoming(),
                old(self).write_count() + num_chunks(buf@.len() as int, self.max_chunk())
                    <= u64::MAX,
                self.write_count() == old(self).write_count() + num_chunks(
                    buf@.len() as int,
                    self.max_chunk(),
                ) - num_chunks(buf@.len() - wp, self.max_chunk()),
                old(self).sent() + records_of(
                    chunks_of(buf@, self.max_chunk()),
                    old(self).write_count(),
                ) == self.sent() + records_of(
                    chunks_of(buf@.skip(wp as int), self.max_chunk()),
                    self.write_count(),
                ),
                0 <= done <= num_chunks(buf@.len() as int, self.max_chunk()),
                self.write_count() == old(self).write_count() + done,
                chunks_of(buf@, self.max_chunk()).skip(done) == chunks_of(
                    buf@.skip(wp as int),
                    self.max_chunk(),
                ),
                self.sent() == old(self).sent() + records_of(
                    chunks_of(buf@, self.max_chunk()).take(done),
                    old(self).write_count(),
                ),
            decreases buf@.len() - wp,
        {
            let remaining = buf.len() - wp;
            let to_write = if remaining < max_block_size {
                remaining
            } else {
                max_block_size
            };
            let ghost rest = buf@.skip(wp as int);
            let ghost max = self.max_chunk();
            let ghost wc = self.write_count();
            proof {
                lemma_num_chunks_nonneg(buf@.len() - wp - max, max);
                assert(num_chunks(buf@.len() - wp, max) >= 1);
                if rest.len() <= max {
                    assert(chunks_of(rest, max) == seq![rest]);
                    assert(rest =~= buf@.subrange(wp as int, wp + to_write));
                    assert(chunks_of(rest, max).skip(1) =~= Seq::<Seq<u8>>::empty());
                } else {
                    assert(chunks_of(rest, max) == seq![rest.take(max)] + chunks_of(
                        rest.skip(max),
                        max,
                    ));
                    assert(rest.take(max) =~= buf@.subrange(wp as int, wp + to_write));
                    assert(rest.skip(max) =~= buf@.skip(wp + to_write));
                    assert((seq![rest.take(max)] + chunks_of(rest.skip(max), max)).skip(1)
                        =~= chunks_of(rest.skip(max), max));
                }
            }
            let chunk = vstd::slice::slice_subrange(buf, wp, wp + to_write);
            let record = ClientRecord::ApplicationData(chunk);
            match encode_record(&mut self.record_buf, &self.key_schedule, &record) {
                Ok(_) => (),
                Err(e) => {
                    return Err(e);
                },
            }
            match self.delegate.write(self.record_buf.as_slice()) {
                Ok(()) => (),
                Err(e) => {
                    return Err(e);
                },
            }
            self.key_schedule.increment_write_counter();
            proof {
                let cs = chunks_of(buf@, max);
                let head = if rest.len() <= max {
                    rest
                } else {
                    rest.take(max)
                };
                lemma_write_chunking(buf@, max);
                assert(done == num_chunks(buf@.len() as int, max) - num_chunks(
                    buf@.len() - wp,
                    max,
                ));
                assert(0 <= done < cs.len());
                assert(cs.skip(done)[0] == head);
                assert(cs[done] == head);
                assert(cs.take(done + 1) =~= cs.take(done).push(cs[done]));
                assert(cs.take(done).len() == done);
                lemma_records_of_push(cs.take(done), cs[done], old(self).write_count());
                assert((old(self).write_count() + done) as u64 == wc);
                assert((old(self).sent() + records_of(cs.take(done), old(self).write_count()))
                    + record_bytes(CONTENT_APPLICATION_DATA, 1, wc, cs[done]) =~= old(self).sent()
                    + records_of(cs.take(done + 1), old(self).write_count()));
                assert(cs.skip(done + 1) =~= cs.skip(done).skip(1));
                done = done + 1;
                if rest.len() <= max {
                    assert(records_of(chunks_of(rest, max), wc) == record_bytes(
                        CONTENT_APPLICATION_DATA,
                        1,
                        wc,
                        rest,
                    ) + records_of(Seq::<Seq<u8>>::empty(), (wc + 1) as u64));
                    assert(records_of(chunks_of(rest, max), wc) =~= record_bytes(
                        CONTENT_APPLICATION_DATA,
                        1,
                        wc,
                        rest,
                    ));
                    assert(buf@.skip(wp + to_write) =~= Seq::<u8>::empty());
                }
            }
            wp = wp + to_write;
        }
        proof {
            assert(buf@.skip(buf@.len() as int) =~= Seq::<u8>::empty());
            assert(num_chunks(0, self.max_chunk()) == 0);
            assert(records_of(chunks_of(Seq::<u8>::empty(), self.max_chunk()), self.write_count())
                == Seq::<u8>::empty());
            assert(old(self).sent() + records_of(
                chunks_of(buf@, self.max_chunk()),
                old(self).write_count(),
            ) =~= self.sent());
        }
        Ok(buf.len())
    }

    /// Receive and decrypt application data into the caller's buffer,
    /// filling its prefix and returning the byte count. Exactly one
    /// record's worth of application data is delivered per call: records
    /// are decoded from the transport until one contributes data or fails.
    /// An oversized message, a closing or other alert, an unexpected
    /// message kind or a malformed record fails as `read_model` states.
    /// Before `open` has completed, fails with `MissingHandshake` and
    /// touches nothing.
    pub fn read(&mut self, buf: &mut Vec<u8>) -> (r: Result<usize, TlsError>)
        requires
            old(self).wf(),
        ensures
            final(self).wf(),
            final(self).config_spec() == old(self).config_spec(),
            final(self).buf_capacity() == old(self).buf_capacity(),
            final(self).is_open() == old(self).is_open(),
            final(self).write_count() == old(self).write_count(),
            final(self).sent() == old(self).sent(),
            final(self).incoming().len() <= old(self).incoming().len(),
            exists|j: int|
                #![auto]
                0 <= j <= old(self).incoming().len() && final(self).incoming() == old(
                    self,
                ).incoming().skip(j),
            final(buf)@.len() == old(buf)@.len(),
            !old(self).is_open() ==> r == Err::<usize, TlsError>(TlsError::MissingHandshake)
                && *final(self) == *old(self) && final(buf)@ == old(buf)@,
            old(self).is_open() ==> (match read_model(
                old(self).incoming(),
                old(self).read_count(),
                old(self).buf_capacity() as int,
                old(buf)@.len() as int,
            ) {
                ReadOutcome::Success { data, rest, next_seq } => r == Ok::<usize, TlsError>(
                    data.len() as usize,
                ) && final(buf)@ == data + old(buf)@.skip(data.len() as int)
                    && final(self).incoming() == rest && final(self).read_count() == next_seq,
                ReadOutcome::Failure { err, partial } => r == Err::<usize, TlsError>(err)
                    && final(buf)@ == partial + old(buf)@.skip(partial.len() as int),
                ReadOutcome::Truncated => r == Err::<usize, TlsError>(TlsError::IoError)
                    && final(buf)@ == old(buf)@,
            }),
    {
        if !self.opened {
            proof {
                assert(self.delegate.incoming() == self.delegate.incoming().skip(0));
            }
            return Err(TlsError::MissingHandshake);
        }
        let out_cap = buf.len();
        let mut copied: usize = 0;
        let ghost inc0 = self.delegate.incoming();
        let ghost rc0 = self.key_schedule.read_count();
        let ghost rcap = self.record_buf.capacity_spec() as int;
        let ghost model = read_model(inc0, rc0, rcap, out_cap as int);
        proof {
            assert(inc0.skip(0) =~= inc0);
        }
        while copied == 0
            invariant
                self.wf(),
                self.is_open(),
                old(self).is_open(),
                self.config_spec() == old(self).config_spec(),
                self.buf_capacity() == old(self).buf_capacity(),
                self.write_count() == old(self).write_count(),
                self.sent() == old(self).sent(),
                self.delegate.incoming().len() <= old(self).incoming().len(),
                exists|j: int|
                    #![auto]
                    0 <= j <= inc0.len() && self.delegate.incoming() == inc0.skip(j),
                buf@.len() == out_cap,
                out_cap == old(buf)@.len(),
                rcap == old(self).buf_capacity() as int,
                rcap == self.buf_capacity() as int,
                model == read_model(inc0, rc0, rcap, out_cap as int),
                inc0 == old(self).incoming(),
                rc0 == old(self).read_count(),
                copied <= out_cap,
                copied == 0 ==> read_model(
                    self.delegate.incoming(),
                    self.key_schedule.read_count(),
                    rcap,
                    out_cap as int,
                ) == model && buf@ == old(buf)@,
                copied > 0 ==> (model matches ReadOutcome::Success { data, rest, next_seq }
                    && data == buf@.take(copied as int) && rest == self.delegate.incoming()
                    && next_seq == self.key_schedule.read_count()),
                forall|k: int| copied <= k < out_cap ==> buf@[k] == old(buf)@[k],
            decreases self.delegate.incoming().len(),
        {
            let ghost inc_e = self.delegate.incoming();
            let ghost rc_e = self.key_schedule.read_count();
            let raw = match decode_record_blocking(&mut self.delegate, &mut self.record_buf) {
                Ok(raw) => raw,
                Err(e) => {
                    proof {
                        assert(Seq::<u8>::empty() + old(buf)@.skip(0) =~= old(buf)@);
                        let j1 = choose|j: int| 0 <= j <= inc0.len() && inc_e == inc0.skip(j);
                        let j2 = choose|j: int|
                            0 <= j <= inc_e.len() && self.delegate.incoming() == inc_e.skip(j);
                        assert(inc0.skip(j1).skip(j2) =~= inc0.skip(j1 + j2));
                        assert(self.delegate.incoming() == inc0.skip(j1 + j2));
                    }
                    return Err(e);
                },
            };
            proof {
                let j1 = choose|j: int| 0 <= j <= inc0.len() && inc_e == inc0.skip(j);
                let j2 = choose|j: int|
                    0 <= j <= inc_e.len() && self.delegate.incoming() == inc_e.skip(j);
                assert(inc0.skip(j1).skip(j2) =~= inc0.skip(j1 + j2));
                assert(self.delegate.incoming() == inc0.skip(j1 + j2));
            }
            let ghost p = decode_model(inc_e).unwrap().3;
            let ghost ty = decode_model(inc_e).unwrap().0;
            let mut records: Vec<ServerRecord> = Vec::new();
            match decrypt_record(&mut self.key_schedule, &mut records, raw, &self.record_buf) {
                Ok(()) => (),
                Err(e) => {
                    proof {
                        assert(Seq::<u8>::empty() + old(buf)@.skip(0) =~= old(buf)@);
                    }
                    return Err(e);
                },
            }
            let ghost msgs = msgs_view(records@);
            proof {
                assert(msgs == parse_payload(ty, p).unwrap());
                assert(self.delegate.incoming() == inc_e.skip(RECORD_HEADER_LEN + p.len()));
                assert(self.key_schedule.read_count() == rc_e + 1);
                assert(buf@.take(0) =~= Seq::<u8>::empty());
            }
            let mut i: usize = 0;
            while i < records.len()
                invariant
                    i <= records@.len(),
                    msgs == msgs_view(records@),
                    self.wf(),
                    self.is_open(),
                    old(self).is_open(),
                    self.config_spec() == old(self).config_spec(),
                    self.buf_capacity() == old(self).buf_capacity(),
                    self.write_count() == old(self).write_count(),
                    self.sent() == old(self).sent(),
                    self.delegate.incoming().len() <= old(self).incoming().len(),
                    exists|j: int|
                        #![auto]
                        0 <= j <= inc0.len() && self.delegate.incoming() == inc0.skip(j),
                    buf@.len() == out_cap,
                    out_cap == old(buf)@.len(),
                    rcap == old(self).buf_capacity() as int,
                    rcap == self.buf_capacity() as int,
                    model == read_model(inc0, rc0, rcap, out_cap as int),
                    inc0 == old(self).incoming(),
                    rc0 == old(self).read_count(),
                    copied <= out_cap,
                    forall|k: int| copied <= k < out_cap ==> buf@[k] == old(buf)@[k],
                    drain_model(msgs, 0, Seq::<u8>::empty(), out_cap as int) == drain_model(
                        msgs,
                        i as int,
                        buf@.take(copied as int),
                        out_cap as int,
                    ),
                    (match drain_model(msgs, 0, Seq::<u8>::empty(), out_cap as int) {
                        Err((e, acc)) => model == (ReadOutcome::Failure { err: e, partial: acc }),
                        Ok(data) => if data.len() > 0 {
                            model == (ReadOutcome::Success {
                                data,
                                rest: self.delegate.incoming(),
                                next_seq: self.key_schedule.read_count(),
                            })
                        } else {
                            model == read_model(
                                self.delegate.incoming(),
                                self.key_schedule.read_count(),
                                rcap,
                                out_cap as int,
                            )
                        },
                    }),
                decreases records@.len() - i,
            {
                let rec = vstd::slice::slice_index_get(records.as_slice(), i);
                match rec {
                    ServerRecord::ApplicationData(d) => {
                        if d.len() > out_cap - copied {
                            proof {
                                assert(msgs[i as int] == MessageV::AppData(d@));
                                assert(buf@ =~= buf@.take(copied as int) + old(buf)@.skip(
                                    copied as int,
                                ));
                            }
                            return Err(TlsError::EncodeError);
                        }
                        let dn = d.len();
                        let ghost acc = buf@.take(copied as int);
                        let ghost buf_b = buf@;
                        let mut j: usize = 0;
                        while j < dn
                            invariant
                                j <= dn,
                                dn == d@.len(),
                                copied + dn <= out_cap,
                                buf@.len() == out_cap,
                                out_cap == buf_b.len(),
                                copied <= out_cap,
                                forall|k: int| 0 <= k < copied ==> buf@[k] == buf_b[k],
                                forall|k: int| 0 <= k < j ==> buf@[copied + k] == d@[k],
                                forall|k: int| copied + j <= k < out_cap ==> buf@[k] == buf_b[k],
                            decreases dn - j,
                        {
                            let b = d[j];
                            buf[copied + j] = b;
                            j = j + 1;
                        }
                        proof {
                            assert(buf@.take((copied + dn) as int) =~= acc + d@);
                            assert(forall|k: int| copied + dn <= k < out_cap ==> buf@[k] == old(
                                buf,
                            )@[k]);
                            assert(msgs[i as int] == MessageV::AppData(d@));
                        }
                        copied = copied + dn;
                    },
                    ServerRecord::Alert(a) => {
                        proof {
                            assert(msgs[i as int] == MessageV::Alert(a.level, a.description));
                            assert(buf@ =~= buf@.take(copied as int) + old(buf)@.skip(
                                copied as int,
                            ));
                        }
                        if a.description == AlertDescription::CloseNotify {
                            return Err(TlsError::ConnectionClosed);
                        } else {
                            return Err(TlsError::InternalError);
                        }
                    },
                    ServerRecord::ChangeCipherSpec => {
                        proof {
                            assert(msgs[i as int] == MessageV::ChangeCipherSpec);
                            assert(buf@ =~= buf@.take(copied as int) + old(buf)@.skip(
                                copied as int,
                            ));
                        }
                        return Err(TlsError::InternalError);
                    },
                    ServerRecord::Handshake(h) => {
                        match h {
                            ServerHandshake::NewSessionTicket(_) => {
                                proof {
                                    assert(msgs[i as int] matches MessageV::Handshake(t, _)
                                        && t == HandshakeType::NewSessionTicket);
                                }
                            },
                            _ => {
                                proof {
                                    assert(buf@ =~= buf@.take(copied as int) + old(buf)@.skip(
                                        copied as int,
                                    ));
                                }
                                return Err(TlsError::InternalError);
                            },
                        }
                    },
                }
                i = i + 1;
            }
            proof {
                if copied == 0 {
                    assert(buf@.take(0) =~= Seq::<u8>::empty());
                    assert(buf@ =~= old(buf)@);
                }
            }
        }
        proof {
            assert(buf@ =~= buf@.take(copied as int) + old(buf)@.skip(copied as int));
        }
        Ok(copied)
    }

    /// Consume the connection: send a close_notify alert — encrypted when
    /// the handshake had completed, plaintext otherwise — and, on success,
    /// hand the resource bundle and the transport back. On failure the
    /// resources are dropped with the connection.
    pub fn close(self) -> (r: Result<(TlsContext<Rng>, Socket), TlsError>)
        requires
            self.wf(),
            self.write_count() < u64::MAX,
        ensures
            r matches Ok(out) ==> out.0.config == self.config_spec() && out.0.rng
                == self.rng_spec() && out.0.record_buf.wf() && out.0.record_buf.capacity_spec()
                == self.buf_capacity() && out.1.incoming() == self.incoming() && out.1.sent()
                == self.sent() + record_bytes(
                CONTENT_ALERT,
                if self.is_open() {
                    1
                } else {
                    0
                },
                self.write_count(),
                seq![AlertLevel::Warning.spec_byte(), AlertDescription::CloseNotify.spec_byte()],
            ),
    {
        let TlsConnection { delegate, rng, config, key_schedule, record_buf, opened } = self;
        let mut key_schedule = key_schedule;
        let mut delegate = delegate;
        let mut record_buf = record_buf;
        let record = ClientRecord::Alert(
            Alert::new(AlertLevel::Warning, AlertDescription::CloseNotify),
            opened,
        );
        match encode_record(&mut record_buf, &key_schedule, &record) {
            Ok(_) => (),
            Err(e) => {
                return Err(e);
            },
        }
        match delegate.write(record_buf.as_slice()) {
            Ok(()) => (),
            Err(e) => {
                return Err(e);
            },
        }
        key_schedule.increment_write_counter();
        Ok((TlsContext::new_with_config(rng, record_buf, config), delegate))
    }
}

} // verus!
