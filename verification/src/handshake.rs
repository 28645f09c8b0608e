//! The handshake state machine: the fixed forward sequence of negotiation
//! phases `open` drives to completion.
//!
//! One transition sends or receives one flight: the client hello carries
//! fresh randomness, the server's reply is recorded in the transcript, and
//! the finished message carries a digest of the transcript. Every
//! transition advances the negotiation by exactly one phase or fails.

use vstd::prelude::*;
use crate::config::{RecordBuffer, TlsConfig};
use crate::error::TlsError;
use crate::key_schedule::KeySchedule;
use crate::record::{
    announced_payload_len,
    decode_model,
    decode_record_blocking,
    decrypt_record,
    encode_record,
    msgs_view,
    parse_payload,
    record_bytes,
    u16_be,
    ClientRecord,
    HandshakeType,
    MessageV,
    ServerHandshake,
    ServerRecord,
    CONTENT_HANDSHAKE,
    HANDSHAKE_CLIENT_HELLO,
    HANDSHAKE_FINISHED,
};
use crate::config::RECORD_HEADER_LEN;
use crate::traits::{EntropySource, Transport};

verus! {

/// The running transcript of handshake message bytes, accumulated across
/// the negotiation and digested into the finished message.
pub struct Handshake {
    pub transcript: Vec<u8>,
}

impl Handshake {
    pub fn new() -> (h: Handshake)
        ensures
            h.transcript@ == Seq::<u8>::empty(),
    {
        Handshake { transcript: Vec::new() }
    }
}

/// The payload of the client hello flight: the message header and the
/// 32 bytes of fresh randomness.
pub open spec fn client_hello_payload(rnd: Seq<u8>) -> Seq<u8> {
    seq![HANDSHAKE_CLIENT_HELLO, 0u8, 32u8] + rnd
}

/// The payload of the finished flight: the message header and the
/// two-byte digest of a transcript of the given length.
pub open spec fn finished_payload(transcript_len: int) -> Seq<u8> {
    seq![HANDSHAKE_FINISHED, 0u8, 2u8] + u16_be(transcript_len as u16)
}

/// The decision the negotiation takes on the server's reply: the reply is
/// accepted (one handshake record at the expected sequence number carrying
/// exactly one ServerHello, whose body, remaining stream and next sequence
/// number are given), rejected with the named error, or the stream is too
/// short for the record it announces, an I/O failure.
pub enum ServerFlightOutcome {
    Accepted { data: Seq<u8>, rest: Seq<u8>, next_seq: u64 },
    Rejected { err: TlsError },
    Truncated,
}

/// What the receiving phase of the negotiation yields on a given incoming
/// stream, read counter and record buffer capacity.
pub open spec fn server_flight_model(inc: Seq<u8>, rseq: u64, rcap: int) -> ServerFlightOutcome {
    if inc.len() >= RECORD_HEADER_LEN && announced_payload_len(inc) + RECORD_HEADER_LEN > rcap {
        (ServerFlightOutcome::Rejected { err: TlsError::DecodeError })
    } else {
        match decode_model(inc) {
            None => ServerFlightOutcome::Truncated,
            Some((ty, flag, sq, p)) => {
                if sq != rseq || rseq == u64::MAX {
                    (ServerFlightOutcome::Rejected { err: TlsError::DecodeError })
                } else {
                    match parse_payload(ty, p) {
                        None => (ServerFlightOutcome::Rejected { err: TlsError::DecodeError }),
                        Some(msgs) => if msgs.len() != 1 {
                            (ServerFlightOutcome::Rejected { err: TlsError::InternalError })
                        } else {
                            match msgs[0] {
                                MessageV::Handshake(t, data) => if t
                                    == HandshakeType::ServerHello {
                                    (ServerFlightOutcome::Accepted {
                                        data,
                                        rest: inc.skip(RECORD_HEADER_LEN + p.len()),
                                        next_seq: (rseq + 1) as u64,
                                    })
                                } else {
                                    (ServerFlightOutcome::Rejected {
                                        err: TlsError::InternalError,
                                    })
                                },
                                _ => (ServerFlightOutcome::Rejected {
                                    err: TlsError::InternalError,
                                }),
                            }
                        },
                    }
                }
            },
        }
    }
}

/// The phases of the negotiation, in their fixed forward order.
/// `ApplicationData` is the terminal, established-session phase.
#[derive(Clone, Copy, Debug, PartialEq, Eq, Structural)]
pub enum State {
    ClientHello,
    ServerHello,
    ClientFinished,
    ApplicationData,
}

impl State {
    /// Position of the phase in the forward order of the negotiation.
    pub open spec fn phase(&self) -> int {
        match self {
            State::ClientHello => 0,
            State::ServerHello => 1,
            State::ClientFinished => 2,
            State::ApplicationData => 3,
        }
    }

    /// Perform this phase's flight and yield the next phase. A successful
    /// transition advances the negotiation by exactly one phase; any error
    /// aborts it. Sending phases advance the write counter by one record;
    /// the receiving phase advances the read counter by one accepted
    /// record.
    pub fn process_blocking<Socket: Transport, Rng: EntropySource>(
        &self,
        delegate: &mut Socket,
        handshake: &mut Handshake,
        record_buf: &mut RecordBuffer,
        key_schedule: &mut KeySchedule,
        config: &TlsConfig,
        rng: &mut Rng,
    ) -> (r: Result<State, TlsError>)
        requires
            old(record_buf).wf(),
            self.phase() < 3 ==> old(key_schedule).write_count() < u64::MAX,
        ensures
            final(record_buf).wf(),
            final(record_buf).capacity_spec() == old(record_buf).capacity_spec(),
            r matches Ok(next) ==> next.phase() == self.phase() + 1,
            self is ClientHello || self is ClientFinished ==> final(key_schedule).read_count()
                == old(key_schedule).read_count()
                && (r.is_ok() ==> final(key_schedule).write_count()
                    == old(key_schedule).write_count() + 1)
                && (r.is_err() ==> *final(key_schedule) == *old(key_schedule)),
            self is ServerHello ==> final(key_schedule).write_count()
                == old(key_schedule).write_count()
                && final(key_schedule).read_count() <= old(key_schedule).read_count() + 1
                && (r.is_ok() ==> final(key_schedule).read_count()
                    == old(key_schedule).read_count() + 1),
            self is ApplicationData ==> r.is_err() && *final(key_schedule) == *old(key_schedule)
                && *final(delegate) == *old(delegate) && *final(handshake) == *old(handshake),
            self is ClientHello ==> final(delegate).incoming() == old(delegate).incoming() && (
            r.is_err() ==> r == Err::<State, TlsError>(TlsError::IoError) && final(delegate).sent()
                == old(delegate).sent()) && (r.is_ok() ==> (exists|rnd: Seq<u8>|
                #![auto]
                rnd.len() == 32 && final(delegate).sent() == old(delegate).sent() + record_bytes(
                    CONTENT_HANDSHAKE,
                    0,
                    old(key_schedule).write_count(),
                    client_hello_payload(rnd),
                ) && final(handshake).transcript@ == old(handshake).transcript@
                    + client_hello_payload(rnd))),
            self is ServerHello ==> final(delegate).sent() == old(delegate).sent() && (
            match server_flight_model(
                old(delegate).incoming(),
                old(key_schedule).read_count(),
                old(record_buf).capacity_spec() as int,
            ) {
                ServerFlightOutcome::Accepted { data, rest, next_seq } => r == Ok::<
                    State,
                    TlsError,
                >(State::ClientFinished) && final(delegate).incoming() == rest
                    && final(key_schedule).read_count() == next_seq && final(handshake).transcript@
                    == old(handshake).transcript@ + data,
                ServerFlightOutcome::Rejected { err } => r == Err::<State, TlsError>(err),
                ServerFlightOutcome::Truncated => r == Err::<State, TlsError>(TlsError::IoError),
            }),
            self is ClientFinished ==> final(delegate).incoming() == old(delegate).incoming()
                && final(handshake).transcript@ == old(handshake).transcript@ && (r.is_err() ==> r
                == Err::<State, TlsError>(TlsError::IoError) && final(delegate).sent() == old(
                delegate,
            ).sent()) && (r.is_ok() ==> final(delegate).sent() == old(delegate).sent()
                + record_bytes(
                CONTENT_HANDSHAKE,
                1,
                old(key_schedule).write_count(),
                finished_payload(old(handshake).transcript@.len() as int),
            )),
    {
        match self {
            State::ClientHello => {
                let random = rng.random_bytes(32);
                let mut msg: Vec<u8> = Vec::new();
                msg.push(HANDSHAKE_CLIENT_HELLO);
                msg.push(0);
                msg.push(32);
                proof {
                    assert(msg@ =~= seq![HANDSHAKE_CLIENT_HELLO, 0u8, 32u8] + random@.take(0));
                }
                let mut i: usize = 0;
                while i < 32
                    invariant
                        i <= 32,
                        random@.len() == 32,
                        msg@ == seq![HANDSHAKE_CLIENT_HELLO, 0u8, 32u8] + random@.take(i as int),
                    decreases 32 - i,
                {
                    msg.push(random[i]);
                    proof {
                        assert(msg@ =~= seq![HANDSHAKE_CLIENT_HELLO, 0u8, 32u8] + random@.take(
                            i + 1,
                        ));
                    }
                    i = i + 1;
                }
                proof {
                    assert(random@.take(32) =~= random@);
                    assert(msg@ =~= client_hello_payload(random@));
                    assert(handshake.transcript@ =~= old(handshake).transcript@ + msg@.take(0));
                }
                let mut j: usize = 0;
                while j < msg.len()
                    invariant
                        j <= msg@.len(),
                        msg@ == client_hello_payload(random@),
                        handshake.transcript@ == old(handshake).transcript@ + msg@.take(j as int),
                    decreases msg@.len() - j,
                {
                    handshake.transcript.push(msg[j]);
                    proof {
                        assert(handshake.transcript@ =~= old(handshake).transcript@ + msg@.take(
                            j + 1,
                        ));
                    }
                    j = j + 1;
                }
                proof {
                    assert(msg@.take(msg@.len() as int) =~= msg@);
                }
                let record = ClientRecord::Handshake(msg.as_slice(), false);
                match encode_record(record_buf, key_schedule, &record) {
                    Ok(_) => (),
                    Err(e) => {
                        return Err(e);
                    },
                }
                match delegate.write(record_buf.as_slice()) {
                    Ok(()) => (),
                    Err(e) => {
                        return Err(e);
                    },
                }
                key_schedule.increment_write_counter();
                Ok(State::ServerHello)
            },
            State::ServerHello => {
                let raw = match decode_record_blocking(delegate, record_buf) {
                    Ok(raw) => raw,
                    Err(e) => {
                        return Err(e);
                    },
                };
                let mut records: Vec<ServerRecord> = Vec::new();
                match decrypt_record(key_schedule, &mut records, raw, record_buf) {
                    Ok(()) => (),
                    Err(e) => {
                        return Err(e);
                    },
                }
                if records.len() != 1 {
                    return Err(TlsError::InternalError);
                }
                let ghost queued = records@;
                match records.pop() {
                    Some(ServerRecord::Handshake(ServerHandshake::ServerHello(data))) => {
                        proof {
                            assert(msgs_view(queued)[0] == queued[0]@);
                            assert(handshake.transcript@ =~= old(handshake).transcript@
                                + data@.take(0));
                        }
                        let mut j: usize = 0;
                        while j < data.len()
                            invariant
                                j <= data@.len(),
                                handshake.transcript@ == old(handshake).transcript@ + data@.take(
                                    j as int,
                                ),
                            decreases data@.len() - j,
                        {
                            handshake.transcript.push(data[j]);
                            proof {
                                assert(handshake.transcript@ =~= old(handshake).transcript@
                                    + data@.take(j + 1));
                            }
                            j = j + 1;
                        }
                        proof {
                            assert(data@.take(data@.len() as int) =~= data@);
                        }
                        Ok(State::ClientFinished)
                    },
                    _ => {
                        proof {
                            assert(msgs_view(queued)[0] == queued[0]@);
                        }
                        Err(TlsError::InternalError)
                    },
                }
            },
            State::ClientFinished => {
                let t16 = #[verifier::truncate] (handshake.transcript.len() as u16);
                let mut msg: Vec<u8> = Vec::new();
                msg.push(HANDSHAKE_FINISHED);
                msg.push(0);
                msg.push(2);
                msg.push((t16 >> 8) as u8);
                msg.push(#[verifier::truncate] (t16 as u8));
                proof {
                    assert(msg@ =~= finished_payload(old(handshake).transcript@.len() as int));
                }
                let record = ClientRecord::Handshake(msg.as_slice(), true);
                match encode_record(record_buf, key_schedule, &record) {
                    Ok(_) => (),
                    Err(e) => {
                        return Err(e);
                    },
                }
                match delegate.write(record_buf.as_slice()) {
                    Ok(()) => (),
                    Err(e) => {
                        return Err(e);
                    },
                }
                key_schedule.increment_write_counter();
                Ok(State::ApplicationData)
            },
            State::ApplicationData => Err(TlsError::InternalError),
        }
    }
}

} // verus!
