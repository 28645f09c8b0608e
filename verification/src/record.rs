//! The record codec: wire framing of records, and decoding of received
//! records into typed protocol messages.
//!
//! Wire layout of one record: a content-type byte, an encryption flag,
//! the eight-byte big-endian record sequence number, a two-byte big-endian
//! payload length, then the payload. A handshake payload is a run of
//! sub-messages, each a type byte, a two-byte length and a body; one
//! record may therefore carry several coalesced handshake messages.

use vstd::prelude::*;
use crate::alert::{Alert, AlertDescription, AlertLevel};
use crate::config::{RecordBuffer, RECORD_HEADER_LEN};
use crate::error::TlsError;
use crate::key_schedule::KeySchedule;
use crate::traits::Transport;

verus! {

pub const CONTENT_CHANGE_CIPHER_SPEC: u8 = 20;

pub const CONTENT_ALERT: u8 = 21;

pub const CONTENT_HANDSHAKE: u8 = 22;

pub const CONTENT_APPLICATION_DATA: u8 = 23;

pub const HANDSHAKE_CLIENT_HELLO: u8 = 1;

pub const HANDSHAKE_SERVER_HELLO: u8 = 2;

pub const HANDSHAKE_NEW_SESSION_TICKET: u8 = 4;

pub const HANDSHAKE_FINISHED: u8 = 20;

/// Big-endian bytes of a record sequence number.
pub open spec fn u64_be(n: u64) -> Seq<u8> {
    seq![
        (n >> 56) as u8,
        (n >> 48) as u8,
        (n >> 40) as u8,
        (n >> 32) as u8,
        (n >> 24) as u8,
        (n >> 16) as u8,
        (n >> 8) as u8,
        n as u8,
    ]
}

/// Big-endian bytes of a payload length.
pub open spec fn u16_be(n: u16) -> Seq<u8> {
    seq![(n >> 8) as u8, n as u8]
}

/// The sequence number eight wire bytes carry.
pub open spec fn u64_from_be(s: Seq<u8>) -> u64 {
    ((s[0] as u64) << 56) | ((s[1] as u64) << 48) | ((s[2] as u64) << 40) | ((s[3] as u64) << 32)
        | ((s[4] as u64) << 24) | ((s[5] as u64) << 16) | ((s[6] as u64) << 8) | (s[7] as u64)
}

/// The complete wire form of one record.
pub open spec fn record_bytes(ty: u8, flag: u8, seqno: u64, payload: Seq<u8>) -> Seq<u8> {
    seq![ty, flag] + u64_be(seqno) + u16_be(payload.len() as u16) + payload
}

/// A decoded protocol message, as contracts speak of it.
pub enum MessageV {
    AppData(Seq<u8>),
    Alert(AlertLevel, AlertDescription),
    ChangeCipherSpec,
    Handshake(HandshakeType, Seq<u8>),
}

/// The post-handshake message kinds this driver distinguishes.
#[derive(Clone, Copy, Debug, PartialEq, Eq, Structural)]
pub enum HandshakeType {
    ServerHello,
    NewSessionTicket,
    Finished,
}

/// A handshake message received from the peer, with its body.
pub enum ServerHandshake {
    ServerHello(Vec<u8>),
    NewSessionTicket(Vec<u8>),
    Finished(Vec<u8>),
}

/// A typed protocol message decoded from one wire record.
pub enum ServerRecord {
    ApplicationData(Vec<u8>),
    Alert(Alert),
    ChangeCipherSpec,
    Handshake(ServerHandshake),
}

impl View for ServerHandshake {
    type V = (HandshakeType, Seq<u8>);

    open spec fn view(&self) -> (HandshakeType, Seq<u8>) {
        match self {
            ServerHandshake::ServerHello(b) => (HandshakeType::ServerHello, b@),
            ServerHandshake::NewSessionTicket(b) => (HandshakeType::NewSessionTicket, b@),
            ServerHandshake::Finished(b) => (HandshakeType::Finished, b@),
        }
    }
}

impl View for ServerRecord {
    type V = MessageV;

    open spec fn view(&self) -> MessageV {
        match self {
            ServerRecord::ApplicationData(d) => MessageV::AppData(d@),
            ServerRecord::Alert(a) => MessageV::Alert(a.level, a.description),
            ServerRecord::ChangeCipherSpec => MessageV::ChangeCipherSpec,
            ServerRecord::Handshake(h) => MessageV::Handshake(h@.0, h@.1),
        }
    }
}

/// The messages a decoded queue holds, in order.
pub open spec fn msgs_view(records: Seq<ServerRecord>) -> Seq<MessageV> {
    records.map_values(|r: ServerRecord| r@)
}

/// The handshake message kind a wire byte names, if any.
pub open spec fn spec_handshake_type(b: u8) -> Option<HandshakeType> {
    if b == HANDSHAKE_SERVER_HELLO {
        Some(HandshakeType::ServerHello)
    } else if b == HANDSHAKE_NEW_SESSION_TICKET {
        Some(HandshakeType::NewSessionTicket)
    } else if b == HANDSHAKE_FINISHED {
        Some(HandshakeType::Finished)
    } else {
        None
    }
}

/// The alert message a two-byte alert payload carries, if well formed.
/// The level byte must name a level; any description byte is accepted.
pub open spec fn parse_alert(p: Seq<u8>) -> Option<MessageV> {
    if p.len() == 2 {
        match AlertLevel::spec_from_byte(p[0]) {
            Some(l) => Some(MessageV::Alert(l, AlertDescription::spec_from_byte(p[1]))),
            None => None,
        }
    } else {
        None
    }
}

/// The handshake sub-messages of a handshake payload, read from `pos` on;
/// `None` when the run is malformed.
pub open spec fn parse_handshakes_from(p: Seq<u8>, pos: int) -> Option<Seq<MessageV>>
    decreases p.len() - pos,
{
    if pos == p.len() {
        Some(Seq::<MessageV>::empty())
    } else if pos + 3 > p.len() {
        None
    } else {
        let l = (p[pos + 1] as int) * 256 + (p[pos + 2] as int);
        match spec_handshake_type(p[pos]) {
            None => None,
            Some(t) => if pos + 3 + l > p.len() {
                None
            } else {
                match parse_handshakes_from(p, pos + 3 + l) {
                    None => None,
                    Some(rest) => Some(
                        seq![MessageV::Handshake(t, p.subrange(pos + 3, pos + 3 + l))] + rest,
                    ),
                }
            },
        }
    }
}

/// The typed messages one record's payload carries, by content type;
/// `None` when the payload is malformed or the type unknown.
pub open spec fn parse_payload(ty: u8, p: Seq<u8>) -> Option<Seq<MessageV>> {
    if ty == CONTENT_APPLICATION_DATA {
        Some(seq![MessageV::AppData(p)])
    } else if ty == CONTENT_ALERT {
        match parse_alert(p) {
            Some(m) => Some(seq![m]),
            None => None,
        }
    } else if ty == CONTENT_CHANGE_CIPHER_SPEC {
        Some(seq![MessageV::ChangeCipherSpec])
    } else if ty == CONTENT_HANDSHAKE {
        parse_handshakes_from(p, 0)
    } else {
        None
    }
}

/// The payload length the framing of the record at the head of a stream
/// announces; meaningful once the full header is present.
pub open spec fn announced_payload_len(inc: Seq<u8>) -> int {
    (inc[10] as int) * 256 + (inc[11] as int)
}

/// The first record framed at the head of a byte stream: its content type,
/// encryption flag, sequence number and payload. `None` when the stream is
/// too short to hold it.
pub open spec fn decode_model(inc: Seq<u8>) -> Option<(u8, u8, u64, Seq<u8>)> {
    if inc.len() < RECORD_HEADER_LEN {
        None
    } else {
        let l = announced_payload_len(inc);
        if inc.len() < RECORD_HEADER_LEN + l {
            None
        } else {
            Some(
                (
                    inc[0],
                    inc[1],
                    u64_from_be(inc.subrange(2, 10)),
                    inc.subrange(RECORD_HEADER_LEN as int, RECORD_HEADER_LEN + l),
                ),
            )
        }
    }
}

/// A record to be transmitted: application data, an alert (with its
/// encryption flag), or a handshake message (with its encryption flag).
pub enum ClientRecord<'a> {
    ApplicationData(&'a [u8]),
    Alert(Alert, bool),
    Handshake(&'a [u8], bool),
}

impl<'a> ClientRecord<'a> {
    /// Content-type byte of the record.
    pub open spec fn content_type(&self) -> u8 {
        match self {
            ClientRecord::ApplicationData(_) => CONTENT_APPLICATION_DATA,
            ClientRecord::Alert(_, _) => CONTENT_ALERT,
            ClientRecord::Handshake(_, _) => CONTENT_HANDSHAKE,
        }
    }

    /// Encryption flag of the record: application data always travels
    /// encrypted; alerts and handshake messages say so themselves.
    pub open spec fn enc_flag(&self) -> u8 {
        match self {
            ClientRecord::ApplicationData(_) => 1,
            ClientRecord::Alert(_, e) => if *e {
                1
            } else {
                0
            },
            ClientRecord::Handshake(_, e) => if *e {
                1
            } else {
                0
            },
        }
    }

    /// Payload bytes of the record.
    pub open spec fn payload(&self) -> Seq<u8> {
        match self {
            ClientRecord::ApplicationData(d) => d@,
            ClientRecord::Alert(a, _) => seq![a.level.spec_byte(), a.description.spec_byte()],
            ClientRecord::Handshake(d, _) => d@,
        }
    }
}

/// Header fields of a record decoded from the transport; the payload stays
/// staged in the record buffer.
pub struct RawRecord {
    pub content_type: u8,
    pub encrypted: u8,
    pub sequence: u64,
}

/// Frame `record` into the record buffer, consulting the key schedule for
/// the sequence number the record will carry. Returns the framed length.
pub fn encode_record(buf: &mut RecordBuffer, key_schedule: &KeySchedule, record: &ClientRecord<'_>)
    -> (r: Result<usize, TlsError>)
    requires
        old(buf).wf(),
        record.payload().len() + RECORD_HEADER_LEN <= old(buf).capacity_spec(),
    ensures
        final(buf).wf(),
        final(buf).capacity_spec() == old(buf).capacity_spec(),
        final(buf).bytes() == record_bytes(
            record.content_type(),
            record.enc_flag(),
            key_schedule.write_count(),
            record.payload(),
        ),
        r == Ok::<usize, TlsError>((record.payload().len() + RECORD_HEADER_LEN) as usize),
{
    let plen: usize = match record {
        ClientRecord::ApplicationData(d) => d.len(),
        ClientRecord::Alert(_, _) => 2,
        ClientRecord::Handshake(d, _) => d.len(),
    };
    let ty: u8 = match record {
        ClientRecord::ApplicationData(_) => CONTENT_APPLICATION_DATA,
        ClientRecord::Alert(_, _) => CONTENT_ALERT,
        ClientRecord::Handshake(_, _) => CONTENT_HANDSHAKE,
    };
    let flag: u8 = match record {
        ClientRecord::ApplicationData(_) => 1,
        ClientRecord::Alert(_, e) => if *e {
            1
        } else {
            0
        },
        ClientRecord::Handshake(_, e) => if *e {
            1
        } else {
            0
        },
    };
    buf.clear();
    buf.push(ty);
    buf.push(flag);
    let sq = key_schedule.write_counter();
    buf.push(#[verifier::truncate] ((sq >> 56) as u8));
    buf.push(#[verifier::truncate] ((sq >> 48) as u8));
    buf.push(#[verifier::truncate] ((sq >> 40) as u8));
    buf.push(#[verifier::truncate] ((sq >> 32) as u8));
    buf.push(#[verifier::truncate] ((sq >> 24) as u8));
    buf.push(#[verifier::truncate] ((sq >> 16) as u8));
    buf.push(#[verifier::truncate] ((sq >> 8) as u8));
    buf.push(#[verifier::truncate] (sq as u8));
    let ln = #[verifier::truncate] (plen as u16);
    buf.push(#[verifier::truncate] ((ln >> 8) as u8));
    buf.push(#[verifier::truncate] (ln as u8));
    let ghost header = buf.bytes();
    proof {
        assert(header =~= seq![ty, flag] + u64_be(sq) + u16_be(record.payload().len() as u16));
    }
    match record {
        ClientRecord::ApplicationData(d) => {
            let mut i: usize = 0;
            while i < d.len()
                invariant
                    i <= d@.len(),
                    buf.bytes() == header + d@.take(i as int),
                    buf.capacity_spec() == old(buf).capacity_spec(),
                    header.len() == RECORD_HEADER_LEN,
                    d@.len() + RECORD_HEADER_LEN <= buf.capacity_spec(),
                decreases d@.len() - i,
            {
                buf.push(*vstd::slice::slice_index_get(d, i));
                proof {
                    assert(buf.bytes() =~= header + d@.take(i + 1));
                }
                i = i + 1;
            }
            proof {
                assert(d@.take(d@.len() as int) =~= d@);
            }
        },
        ClientRecord::Alert(a, _) => {
            buf.push(a.level.byte());
            buf.push(a.description.byte());
        },
        ClientRecord::Handshake(d, _) => {
            let mut i: usize = 0;
            while i < d.len()
                invariant
                    i <= d@.len(),
                    buf.bytes() == header + d@.take(i as int),
                    buf.capacity_spec() == old(buf).capacity_spec(),
                    header.len() == RECORD_HEADER_LEN,
                    d@.len() + RECORD_HEADER_LEN <= buf.capacity_spec(),
                decreases d@.len() - i,
            {
                buf.push(*vstd::slice::slice_index_get(d, i));
                proof {
                    assert(buf.bytes() =~= header + d@.take(i + 1));
                }
                i = i + 1;
            }
            proof {
                assert(d@.take(d@.len() as int) =~= d@);
            }
        },
    }
    proof {
        assert(buf.bytes() =~= record_bytes(
            record.content_type(),
            record.enc_flag(),
            key_schedule.write_count(),
            record.payload(),
        ));
    }
    Ok(plen + RECORD_HEADER_LEN)
}

/// Read one framing byte: the stream seen so far is `inc0`, of which `k`
/// bytes are already consumed.
fn read_framing_byte<Socket: Transport>(
    socket: &mut Socket,
    Ghost(inc0): Ghost<Seq<u8>>,
    Ghost(k): Ghost<int>,
) -> (r: Result<u8, TlsError>)
    requires
        0 <= k <= inc0.len(),
        old(socket).incoming() == inc0.skip(k),
    ensures
        final(socket).sent() == old(socket).sent(),
        inc0.len() > k ==> r == Ok::<u8, TlsError>(inc0[k]) && final(socket).incoming()
            == inc0.skip(k + 1),
        inc0.len() == k ==> r == Err::<u8, TlsError>(TlsError::IoError)
            && final(socket).incoming() == inc0.skip(k),
{
    let r = socket.read();
    proof {
        if inc0.len() > k {
            assert(inc0.skip(k).skip(1) =~= inc0.skip(k + 1));
        }
    }
    r
}

/// Gather exactly one wire record from the transport into the record
/// buffer, reading as many bytes as its framing announces. The payload is
/// left staged in the buffer; the header fields come back typed.
pub fn decode_record_blocking<Socket: Transport>(
    socket: &mut Socket,
    buf: &mut RecordBuffer,
) -> (r: Result<RawRecord, TlsError>)
    requires
        old(buf).wf(),
    ensures
        final(buf).wf(),
        final(buf).capacity_spec() == old(buf).capacity_spec(),
        final(socket).sent() == old(socket).sent(),
        final(socket).incoming().len() <= old(socket).incoming().len(),
        exists|k: int|
            #![auto]
            0 <= k <= old(socket).incoming().len() && final(socket).incoming() == old(
                socket,
            ).incoming().skip(k),
        decode_model(old(socket).incoming()) matches Some((ty, flag, sq, p)) ==> (p.len()
            + RECORD_HEADER_LEN <= old(buf).capacity_spec() ==> (r matches Ok(raw)
            && raw.content_type == ty && raw.encrypted == flag && raw.sequence == sq
            && final(buf).bytes() == p
            && final(socket).incoming() == old(socket).incoming().skip(RECORD_HEADER_LEN + p.len())
            && final(socket).incoming().len() < old(socket).incoming().len())),
        old(socket).incoming().len() >= RECORD_HEADER_LEN && announced_payload_len(
            old(socket).incoming(),
        ) + RECORD_HEADER_LEN > old(buf).capacity_spec() ==> r == Err::<RawRecord, TlsError>(
            TlsError::DecodeError,
        ),
        decode_model(old(socket).incoming()) is None && (old(socket).incoming().len()
            < RECORD_HEADER_LEN || announced_payload_len(old(socket).incoming())
            + RECORD_HEADER_LEN <= old(buf).capacity_spec()) ==> r == Err::<RawRecord, TlsError>(
            TlsError::IoError,
        ),
{
    let ghost inc0 = socket.incoming();
    proof {
        assert(inc0.skip(0) =~= inc0);
    }
    let b0 = match read_framing_byte(socket, Ghost(inc0), Ghost(0)) {
        Ok(b) => b,
        Err(e) => {
            return Err(e);
        },
    };
    let b1 = match read_framing_byte(socket, Ghost(inc0), Ghost(1)) {
        Ok(b) => b,
        Err(e) => {
            return Err(e);
        },
    };
    let b2 = match read_framing_byte(socket, Ghost(inc0), Ghost(2)) {
        Ok(b) => b,
        Err(e) => {
            return Err(e);
        },
    };
    let b3 = match read_framing_byte(socket, Ghost(inc0), Ghost(3)) {
        Ok(b) => b,
        Err(e) => {
            return Err(e);
        },
    };
    let b4 = match read_framing_byte(socket, Ghost(inc0), Ghost(4)) {
        Ok(b) => b,
        Err(e) => {
            return Err(e);
        },
    };
    let b5 = match read_framing_byte(socket, Ghost(inc0), Ghost(5)) {
        Ok(b) => b,
        Err(e) => {
            return Err(e);
        },
    };
    let b6 = match read_framing_byte(socket, Ghost(inc0), Ghost(6)) {
        Ok(b) => b,
        Err(e) => {
            return Err(e);
        },
    };
    let b7 = match read_framing_byte(socket, Ghost(inc0), Ghost(7)) {
        Ok(b) => b,
        Err(e) => {
            return Err(e);
        },
    };
    let b8 = match read_framing_byte(socket, Ghost(inc0), Ghost(8)) {
        Ok(b) => b,
        Err(e) => {
            return Err(e);
        },
    };
    let b9 = match read_framing_byte(socket, Ghost(inc0), Ghost(9)) {
        Ok(b) => b,
        Err(e) => {
            return Err(e);
        },
    };
    let b10 = match read_framing_byte(socket, Ghost(inc0), Ghost(10)) {
        Ok(b) => b,
        Err(e) => {
            return Err(e);
        },
    };
    let b11 = match read_framing_byte(socket, Ghost(inc0), Ghost(11)) {
        Ok(b) => b,
        Err(e) => {
            return Err(e);
        },
    };
    let l: usize = (b10 as usize) * 256 + (b11 as usize);
    if l > buf.capacity() - RECORD_HEADER_LEN {
        return Err(TlsError::DecodeError);
    }
    let seqno: u64 = ((b2 as u64) << 56) | ((b3 as u64) << 48) | ((b4 as u64) << 40) | ((
    b5 as u64) << 32) | ((b6 as u64) << 24) | ((b7 as u64) << 16) | ((b8 as u64) << 8) | (
    b9 as u64);
    buf.clear();
    let mut i: usize = 0;
    while i < l
        invariant
            i <= l,
            buf.wf(),
            inc0 == old(socket).incoming(),
            old(buf).wf(),
            inc0.len() >= RECORD_HEADER_LEN + i,
            RECORD_HEADER_LEN + l <= buf.capacity_spec(),
            buf.capacity_spec() == old(buf).capacity_spec(),
            socket.sent() == old(socket).sent(),
            socket.incoming() == inc0.skip(RECORD_HEADER_LEN + i),
            buf.bytes() == inc0.subrange(RECORD_HEADER_LEN as int, RECORD_HEADER_LEN + i),
            b0 == inc0[0],
            b1 == inc0[1],
            seqno == u64_from_be(inc0.subrange(2, 10)),
            l == (inc0[10] as int) * 256 + (inc0[11] as int),
        decreases l - i,
    {
        let b = match read_framing_byte(
            socket,
            Ghost(inc0),
            Ghost(RECORD_HEADER_LEN + i as int),
        ) {
            Ok(b) => b,
            Err(e) => {
                proof {
                    assert(inc0.len() < RECORD_HEADER_LEN + l);
                    assert(decode_model(inc0) is None);
                }
                return Err(e);
            },
        };
        buf.push(b);
        proof {
            assert(buf.bytes() =~= inc0.subrange(
                RECORD_HEADER_LEN as int,
                RECORD_HEADER_LEN + i + 1,
            ));
        }
        i = i + 1;
    }
    proof {
        let s = inc0.subrange(2, 10);
        assert(s[0] == inc0[2] && s[1] == inc0[3] && s[2] == inc0[4] && s[3] == inc0[5] && s[4]
            == inc0[6] && s[5] == inc0[7] && s[6] == inc0[8] && s[7] == inc0[9]);
    }
    Ok(RawRecord { content_type: b0, encrypted: b1, sequence: seqno })
}

/// Check a gathered record against the read-direction sequence counter,
/// advance the counter, and push the record's typed messages onto the
/// queue in order. A sequence mismatch, an exhausted counter or a
/// malformed payload is a `DecodeError` and leaves the counter untouched.
pub fn decrypt_record(
    key_schedule: &mut KeySchedule,
    records: &mut Vec<ServerRecord>,
    record: RawRecord,
    buf: &RecordBuffer,
) -> (r: Result<(), TlsError>)
    requires
        buf.wf(),
        old(records)@ == Seq::<ServerRecord>::empty(),
    ensures
        final(key_schedule).write_count() == old(key_schedule).write_count(),
        record.sequence != old(key_schedule).read_count() || old(key_schedule).read_count()
            == u64::MAX ==> r == Err::<(), TlsError>(TlsError::DecodeError) && *final(key_schedule)
            == *old(key_schedule),
        record.sequence == old(key_schedule).read_count() && old(key_schedule).read_count()
            != u64::MAX ==> (match parse_payload(record.content_type, buf.bytes()) {
            Some(msgs) => r == Ok::<(), TlsError>(()) && msgs_view(final(records)@) == msgs
                && final(key_schedule).read_count() == old(key_schedule).read_count() + 1,
            None => r == Err::<(), TlsError>(TlsError::DecodeError) && *final(key_schedule)
                == *old(key_schedule),
        }),
{
    let expected = key_schedule.read_counter();
    if record.sequence != expected || expected == u64::MAX {
        return Err(TlsError::DecodeError);
    }
    if record.content_type == CONTENT_APPLICATION_DATA {
        let mut data: Vec<u8> = Vec::new();
        let mut i: usize = 0;
        let n = buf.len();
        while i < n
            invariant
                i <= n,
                n == buf.bytes().len(),
                data@ == buf.bytes().take(i as int),
            decreases n - i,
        {
            data.push(buf.byte_at(i));
            proof {
                assert(data@ =~= buf.bytes().take(i + 1));
            }
            i = i + 1;
        }
        proof {
            assert(buf.bytes().take(buf.bytes().len() as int) =~= buf.bytes());
        }
        records.push(ServerRecord::ApplicationData(data));
        proof {
            assert(msgs_view(records@) =~= parse_payload(record.content_type, buf.bytes()).unwrap());
        }
    } else if record.content_type == CONTENT_ALERT {
        if buf.len() != 2 {
            return Err(TlsError::DecodeError);
        }
        let level = match AlertLevel::from_byte(buf.byte_at(0)) {
            Some(l) => l,
            None => {
                return Err(TlsError::DecodeError);
            },
        };
        let description = AlertDescription::from_byte(buf.byte_at(1));
        records.push(ServerRecord::Alert(Alert::new(level, description)));
        proof {
            assert(msgs_view(records@) =~= parse_payload(record.content_type, buf.bytes()).unwrap());
        }
    } else if record.content_type == CONTENT_CHANGE_CIPHER_SPEC {
        records.push(ServerRecord::ChangeCipherSpec);
        proof {
            assert(msgs_view(records@) =~= parse_payload(record.content_type, buf.bytes()).unwrap());
        }
    } else if record.content_type == CONTENT_HANDSHAKE {
        match parse_handshakes_exec(buf, 0, records) {
            Ok(()) => (),
            Err(e) => {
                return Err(e);
            },
        }
        proof {
            assert(msgs_view(old(records)@) + parse_handshakes_from(buf.bytes(), 0).unwrap()
                =~= parse_handshakes_from(buf.bytes(), 0).unwrap());
        }
    } else {
        return Err(TlsError::DecodeError);
    }
    key_schedule.increment_read_counter();
    Ok(())
}

/// Parse the run of handshake sub-messages staged in the buffer from
/// `pos` on, pushing each onto the queue.
fn parse_handshakes_exec(buf: &RecordBuffer, pos: usize, records: &mut Vec<ServerRecord>) -> (r:
    Result<(), TlsError>)
    requires
        buf.wf(),
        pos <= buf.bytes().len(),
    ensures
        match parse_handshakes_from(buf.bytes(), pos as int) {
            Some(msgs) => r == Ok::<(), TlsError>(()) && msgs_view(final(records)@) == msgs_view(
                old(records)@,
            ) + msgs,
            None => r == Err::<(), TlsError>(TlsError::DecodeError),
        },
    decreases buf.bytes().len() - pos,
{
    let n = buf.len();
    if pos == n {
        proof {
            assert(msgs_view(records@) =~= msgs_view(records@) + Seq::<MessageV>::empty());
        }
        return Ok(());
    }
    if pos + 3 > n {
        return Err(TlsError::DecodeError);
    }
    let tb = buf.byte_at(pos);
    let l: usize = (buf.byte_at(pos + 1) as usize) * 256 + (buf.byte_at(pos + 2) as usize);
    if !(tb == HANDSHAKE_SERVER_HELLO || tb == HANDSHAKE_NEW_SESSION_TICKET || tb
        == HANDSHAKE_FINISHED) {
        return Err(TlsError::DecodeError);
    }
    if l > n - pos - 3 {
        return Err(TlsError::DecodeError);
    }
    let mut body: Vec<u8> = Vec::new();
    let mut j: usize = 0;
    while j < l
        invariant
            j <= l,
            pos + 3 + l <= buf.bytes().len(),
            buf.bytes().len() <= 65547,
            body@ == buf.bytes().subrange(pos + 3, pos + 3 + j),
        decreases l - j,
    {
        body.push(buf.byte_at(pos + 3 + j));
        proof {
            assert(body@ =~= buf.bytes().subrange(pos + 3, pos + 3 + j + 1));
        }
        j = j + 1;
    }
    let msg = if tb == HANDSHAKE_SERVER_HELLO {
        ServerHandshake::ServerHello(body)
    } else if tb == HANDSHAKE_NEW_SESSION_TICKET {
        ServerHandshake::NewSessionTicket(body)
    } else {
        ServerHandshake::Finished(body)
    };
    records.push(ServerRecord::Handshake(msg));
    let ghost mid = records@;
    let r = parse_handshakes_exec(buf, pos + 3 + l, records);
    match r {
        Ok(()) => {
            proof {
                let p = buf.bytes();
                let head = seq![
                    MessageV::Handshake(
                        spec_handshake_type(p[pos as int]).unwrap(),
                        p.subrange(pos + 3, pos + 3 + l),
                    ),
                ];
                let rest = parse_handshakes_from(p, pos + 3 + l).unwrap();
                assert(msgs_view(mid) =~= msgs_view(old(records)@) + head);
                assert(msgs_view(records@) =~= msgs_view(old(records)@) + (head + rest));
            }
            Ok(())
        },
        Err(e) => Err(e),
    }
}

} // verus!
