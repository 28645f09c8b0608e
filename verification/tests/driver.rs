use blocking_tls::alert::{Alert, AlertDescription, AlertLevel};
use blocking_tls::blocking::TlsConnection;
use blocking_tls::config::{RecordBuffer, TlsConfig, TlsContext};
use blocking_tls::error::TlsError;
use blocking_tls::key_schedule::KeySchedule;
use blocking_tls::memory::{CountingEntropy, MemoryTransport};
use blocking_tls::record::{encode_record, ClientRecord};

/// Wire form of one record in the model codec:
/// [type, flag, seq (8 bytes BE), len (2 bytes BE), payload].
fn rec(ty: u8, flag: u8, seqno: u64, payload: &[u8]) -> Vec<u8> {
    let mut out = vec![ty, flag];
    out.extend_from_slice(&seqno.to_be_bytes());
    out.extend_from_slice(&(payload.len() as u16).to_be_bytes());
    out.extend_from_slice(payload);
    out
}

/// A server flight that completes the model handshake: one handshake
/// record at sequence 0 carrying a ServerHello sub-message.
fn server_hello() -> Vec<u8> {
    rec(22, 0, 0, &[2, 0, 2, 0xAB, 0xCD])
}

fn conn(
    cap: usize,
    incoming: Vec<u8>,
) -> TlsConnection<CountingEntropy, MemoryTransport> {
    let context = TlsContext::new_with_config(
        CountingEntropy::new(7),
        RecordBuffer::new(cap),
        TlsConfig::new(),
    );
    TlsConnection::new(context, MemoryTransport::new(incoming))
}

fn opened(cap: usize, extra_incoming: &[u8]) -> TlsConnection<CountingEntropy, MemoryTransport> {
    let mut incoming = server_hello();
    incoming.extend_from_slice(extra_incoming);
    let mut c = conn(cap, incoming);
    assert!(c.open().is_ok());
    c
}

/// Parse the (seq, payload) list of a transmitted byte stream.
fn parse_records(bytes: &[u8]) -> Vec<(u8, u64, Vec<u8>)> {
    let mut out = Vec::new();
    let mut pos = 0;
    while pos < bytes.len() {
        let ty = bytes[pos];
        let mut s = [0u8; 8];
        s.copy_from_slice(&bytes[pos + 2..pos + 10]);
        let seqno = u64::from_be_bytes(s);
        let l = ((bytes[pos + 10] as usize) << 8) | bytes[pos + 11] as usize;
        out.push((ty, seqno, bytes[pos + 12..pos + 12 + l].to_vec()));
        pos += 12 + l;
    }
    out
}

#[test]
fn write_before_open_fails_without_io() {
    let mut c = conn(200, Vec::new());
    assert_eq!(c.write(b"HELLO"), Err(TlsError::MissingHandshake));
    let (_, socket) = c.close().unwrap();
    // the only transmitted bytes are the closing alert itself
    assert_eq!(socket.transmitted().as_slice(), rec(21, 0, 0, &[1, 0]).as_slice());
}

#[test]
fn read_before_open_fails_without_io() {
    let mut c = conn(200, rec(23, 1, 0, b"DATA"));
    let mut buf = vec![0u8; 16];
    assert_eq!(c.read(&mut buf), Err(TlsError::MissingHandshake));
    assert_eq!(buf, vec![0u8; 16]);
    let (_, socket) = c.close().unwrap();
    assert_eq!(socket.transmitted().as_slice(), rec(21, 0, 0, &[1, 0]).as_slice());
}

#[test]
fn open_reaches_terminal_state() {
    let mut c = opened(200, &[]);
    // opened: a write no longer reports a missing handshake
    assert_eq!(c.write(b""), Ok(0));
}

#[test]
fn open_consumes_exactly_the_server_flight() {
    let mut incoming = server_hello();
    incoming.extend_from_slice(&[0xEE; 5]);
    let mut c = conn(200, incoming);
    assert!(c.open().is_ok());
    let (_, socket) = c.close().unwrap();
    // the handshake read exactly one record; later bytes are untouched
    assert_eq!(socket.remaining_input(), 5);
}

#[test]
fn open_transmits_hello_and_finished() {
    let c = opened(200, &[]);
    let (_, socket) = c.close().unwrap();
    let records = parse_records(socket.transmitted());
    assert_eq!(records.len(), 3);
    // client hello: type 22, sequence 0, a 3-byte header and 32 random bytes
    assert_eq!(records[0].0, 22);
    assert_eq!(records[0].1, 0);
    let mut hello = vec![1, 0, 32];
    hello.extend((7u8..39).collect::<Vec<u8>>());
    assert_eq!(records[0].2, hello);
    // finished: type 22, sequence 1, digest of the 37-byte transcript
    assert_eq!(records[1].0, 22);
    assert_eq!(records[1].1, 1);
    assert_eq!(records[1].2, vec![20, 0, 2, 0, 37]);
    // closing alert, encrypted, sequence 2
    assert_eq!(records[2].0, 21);
    assert_eq!(records[2].1, 2);
}

#[test]
fn open_failure_leaves_connection_unopened() {
    let mut c = conn(200, Vec::new());
    assert!(c.open().is_err());
    assert_eq!(c.write(b"X"), Err(TlsError::MissingHandshake));
}

#[test]
fn open_rejects_unexpected_reply() {
    // an alert instead of the server hello aborts the negotiation
    let mut c = conn(200, rec(21, 0, 0, &[2, 40]));
    assert!(c.open().is_err());
    assert_eq!(c.write(b"X"), Err(TlsError::MissingHandshake));
}

#[test]
fn write_single_record() {
    // capacity 200: "HELLO" fits one record; write returns 5
    let mut c = opened(200, &[]);
    assert_eq!(c.write(b"HELLO"), Ok(5));
    let (_, socket) = c.close().unwrap();
    let records = parse_records(socket.transmitted());
    assert_eq!(records.len(), 4);
    assert_eq!(records[2], (23, 2, b"HELLO".to_vec()));
}

#[test]
fn write_chunks_one_hundred_fifty_bytes() {
    // capacity 200, overhead 128: max chunk 72, so 150 bytes give
    // records of 72, 72 and 6 bytes, in order, counter advanced thrice
    let payload: Vec<u8> = (0..150u8).collect();
    let mut c = opened(200, &[]);
    assert_eq!(c.write(&payload), Ok(150));
    let (_, socket) = c.close().unwrap();
    let records = parse_records(socket.transmitted());
    assert_eq!(records.len(), 6);
    let chunks: Vec<&(u8, u64, Vec<u8>)> = records[2..5].iter().collect();
    assert_eq!(
        chunks.iter().map(|r| r.2.len()).collect::<Vec<usize>>(),
        vec![72, 72, 6]
    );
    assert_eq!(
        chunks.iter().map(|r| (r.0, r.1)).collect::<Vec<(u8, u64)>>(),
        vec![(23, 2), (23, 3), (23, 4)]
    );
    let mut joined = Vec::new();
    for r in chunks {
        joined.extend_from_slice(&r.2);
    }
    assert_eq!(joined, payload);
    // the closing alert carries sequence 5: three increments happened
    assert_eq!(records[5], (21, 5, vec![1, 0]));
}

#[test]
fn write_splits_at_the_largest_buffer() {
    // the largest capacity the length field admits: max chunk 65419
    let payload = vec![0x3Cu8; 70000];
    let mut c = opened(65547, &[]);
    assert_eq!(c.write(&payload), Ok(70000));
    let (_, socket) = c.close().unwrap();
    let records = parse_records(socket.transmitted());
    assert_eq!(records.len(), 5);
    assert_eq!(records[2].2.len(), 65419);
    assert_eq!(records[3].2.len(), 4581);
    let mut joined = records[2].2.clone();
    joined.extend_from_slice(&records[3].2);
    assert_eq!(joined, payload);
}

#[test]
fn read_returns_long_record() {
    // a payload above 255 bytes exercises the high length byte
    let payload = vec![0x42u8; 300];
    let mut c = opened(400, &rec(23, 1, 1, &payload));
    let mut buf = vec![0u8; 350];
    assert_eq!(c.read(&mut buf), Ok(300));
    assert_eq!(&buf[..300], payload.as_slice());
}

#[test]
fn read_returns_one_record_of_data() {
    let mut c = opened(200, &rec(23, 1, 1, b"DATA"));
    let mut buf = vec![0u8; 16];
    assert_eq!(c.read(&mut buf), Ok(4));
    assert_eq!(&buf[..4], b"DATA");
    assert_eq!(&buf[4..], &[0u8; 12]);
}

#[test]
fn read_oversized_data_fails_copying_nothing() {
    let mut c = opened(200, &rec(23, 1, 1, b"ELEVEN BYTE"));
    let mut buf = vec![0u8; 10];
    assert_eq!(c.read(&mut buf), Err(TlsError::EncodeError));
    assert_eq!(buf, vec![0u8; 10]);
}

#[test]
fn read_close_notify_reports_connection_closed() {
    let mut c = opened(200, &rec(21, 1, 1, &[1, 0]));
    let mut buf = vec![0u8; 8];
    assert_eq!(c.read(&mut buf), Err(TlsError::ConnectionClosed));
}

#[test]
fn read_other_alert_is_protocol_error() {
    let mut c = opened(200, &rec(21, 1, 1, &[2, 40]));
    let mut buf = vec![0u8; 8];
    assert_eq!(c.read(&mut buf), Err(TlsError::InternalError));
}

#[test]
fn read_change_cipher_spec_is_protocol_error() {
    let mut c = opened(200, &rec(20, 1, 1, &[1]));
    let mut buf = vec![0u8; 8];
    assert_eq!(c.read(&mut buf), Err(TlsError::InternalError));
}

#[test]
fn read_post_handshake_finished_is_protocol_error() {
    let mut c = opened(200, &rec(22, 1, 1, &[20, 0, 0]));
    let mut buf = vec![0u8; 8];
    assert_eq!(c.read(&mut buf), Err(TlsError::InternalError));
}

#[test]
fn read_skips_ticket_then_returns_data() {
    // a session ticket record, then a data record: the ticket is consumed
    // silently and the data comes back
    let mut incoming = rec(22, 1, 1, &[4, 0, 3, 9, 9, 9]);
    incoming.extend_from_slice(&rec(23, 1, 2, b"PAYLOAD"));
    let mut c = opened(200, &incoming);
    let mut buf = vec![0u8; 16];
    assert_eq!(c.read(&mut buf), Ok(7));
    assert_eq!(&buf[..7], b"PAYLOAD");
}

#[test]
fn read_skips_coalesced_tickets() {
    // one record carrying two coalesced session tickets, then data
    let mut incoming = rec(22, 1, 1, &[4, 0, 1, 5, 4, 0, 0]);
    incoming.extend_from_slice(&rec(23, 1, 2, b"OK"));
    let mut c = opened(200, &incoming);
    let mut buf = vec![0u8; 4];
    assert_eq!(c.read(&mut buf), Ok(2));
    assert_eq!(&buf[..2], b"OK");
}

#[test]
fn read_wrong_sequence_is_decode_error() {
    let mut c = opened(200, &rec(23, 1, 9, b"DATA"));
    let mut buf = vec![0u8; 8];
    assert_eq!(c.read(&mut buf), Err(TlsError::DecodeError));
}

#[test]
fn read_record_larger_than_buffer_is_decode_error() {
    // capacity 130: a 119-byte payload plus framing exceeds the buffer
    let payload = vec![0x55u8; 119];
    let mut c = opened(130, &rec(23, 1, 1, &payload));
    let mut buf = vec![0u8; 8];
    assert_eq!(c.read(&mut buf), Err(TlsError::DecodeError));
}

#[test]
fn read_truncated_stream_is_transport_error() {
    let mut c = opened(200, &[23, 1, 0]);
    let mut buf = vec![0u8; 8];
    assert_eq!(c.read(&mut buf), Err(TlsError::IoError));
}

#[test]
fn read_unlisted_alert_description_is_protocol_error() {
    // a fatal alert whose description byte names nothing this driver
    // lists is still an alert: a protocol error, not a decode failure
    let mut c = opened(200, &rec(21, 1, 1, &[2, 77]));
    let mut buf = vec![0u8; 8];
    assert_eq!(c.read(&mut buf), Err(TlsError::InternalError));
    assert_eq!(buf, vec![0u8; 8]);
}

#[test]
fn read_malformed_alert_is_decode_error() {
    let mut c = opened(200, &rec(21, 1, 1, &[9, 9]));
    let mut buf = vec![0u8; 8];
    assert_eq!(c.read(&mut buf), Err(TlsError::DecodeError));
}

#[test]
fn close_after_open_sends_encrypted_alert() {
    let c = opened(200, &[]);
    let (_, socket) = c.close().unwrap();
    let sent = socket.transmitted();
    // last record: close_notify alert with the encryption flag set
    let alert = rec(21, 1, 2, &[1, 0]);
    assert_eq!(&sent[sent.len() - alert.len()..], alert.as_slice());
}

#[test]
fn close_without_open_sends_plaintext_alert() {
    let c = conn(200, Vec::new());
    let (_, socket) = c.close().unwrap();
    assert_eq!(socket.transmitted().as_slice(), rec(21, 0, 0, &[1, 0]).as_slice());
}

#[test]
fn close_returns_reusable_context() {
    let c = opened(200, &[]);
    let (context, _) = c.close().unwrap();
    // the recovered bundle can drive a fresh connection
    let mut incoming = server_hello();
    incoming.extend_from_slice(&rec(23, 1, 1, b"AGAIN"));
    let mut c2 = TlsConnection::new(context, MemoryTransport::new(incoming));
    assert!(c2.open().is_ok());
    let mut buf = vec![0u8; 8];
    assert_eq!(c2.read(&mut buf), Ok(5));
    assert_eq!(&buf[..5], b"AGAIN");
}

#[test]
fn encode_record_frames_alert() {
    let mut buf = RecordBuffer::new(200);
    let ks = KeySchedule::new();
    let record = ClientRecord::Alert(
        Alert::new(AlertLevel::Fatal, AlertDescription::HandshakeFailure),
        true,
    );
    assert_eq!(encode_record(&mut buf, &ks, &record), Ok(14));
    assert_eq!(buf.as_slice(), rec(21, 1, 0, &[2, 40]).as_slice());
}
