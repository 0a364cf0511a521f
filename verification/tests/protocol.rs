// End-to-end tests of the wire protocol: frames in, replies out, through one
// connection's buffer and a store.

use redis_lite::command::{decode_request, Command, DecodeOutcome, Request};
use redis_lite::dispatch::Connection;
use redis_lite::encode::{encode_reply, Reply};
use redis_lite::resp::{decode_frame, FrameOutcome};
use redis_lite::store::KvStore;

fn feed(conn: &mut Connection, store: &mut KvStore, data: &[u8], now: u64) -> Vec<u8> {
    conn.feed(data, store, now)
}

#[test]
fn ping_replies_pong() {
    let mut conn = Connection::new();
    let mut store = KvStore::new();
    let out = feed(&mut conn, &mut store, b"*1\r\n$4\r\nPING\r\n", 0);
    assert_eq!(out, b"+PONG\r\n".to_vec());
    assert!(!conn.closed);
}

#[test]
fn ping_lowercase_and_with_arguments_replies_pong() {
    let mut conn = Connection::new();
    let mut store = KvStore::new();
    let out = feed(&mut conn, &mut store, b"*2\r\n$4\r\nping\r\n$3\r\nxyz\r\n", 0);
    assert_eq!(out, b"+PONG\r\n".to_vec());
}

#[test]
fn echo_replies_payload_as_bulk() {
    let mut conn = Connection::new();
    let mut store = KvStore::new();
    let out = feed(&mut conn, &mut store, b"*2\r\n$4\r\nECHO\r\n$5\r\nhello\r\n", 0);
    assert_eq!(out, b"$5\r\nhello\r\n".to_vec());
}

#[test]
fn echo_empty_payload() {
    let mut conn = Connection::new();
    let mut store = KvStore::new();
    let out = feed(&mut conn, &mut store, b"*2\r\n$4\r\necho\r\n$0\r\n\r\n", 0);
    assert_eq!(out, b"$0\r\n\r\n".to_vec());
}

#[test]
fn set_then_get_returns_value() {
    let mut conn = Connection::new();
    let mut store = KvStore::new();
    let out = feed(&mut conn, &mut store, b"*3\r\n$3\r\nSET\r\n$3\r\nfoo\r\n$3\r\nbar\r\n", 0);
    assert_eq!(out, b"+OK\r\n".to_vec());
    let out = feed(&mut conn, &mut store, b"*2\r\n$3\r\nGET\r\n$3\r\nfoo\r\n", 0);
    assert_eq!(out, b"$3\r\nbar\r\n".to_vec());
}

#[test]
fn get_absent_key_is_nil() {
    let mut conn = Connection::new();
    let mut store = KvStore::new();
    let out = feed(&mut conn, &mut store, b"*2\r\n$3\r\nGET\r\n$3\r\nxxx\r\n", 0);
    assert_eq!(out, b"$-1\r\n".to_vec());
}

#[test]
fn set_with_px_expires() {
    let mut conn = Connection::new();
    let mut store = KvStore::new();
    let out = feed(
        &mut conn,
        &mut store,
        b"*5\r\n$3\r\nSET\r\n$1\r\nk\r\n$1\r\nv\r\n$2\r\nPX\r\n$3\r\n100\r\n",
        0,
    );
    assert_eq!(out, b"+OK\r\n".to_vec());
    // Before the TTL elapses the value is readable.
    let out = feed(&mut conn, &mut store, b"*2\r\n$3\r\nGET\r\n$1\r\nk\r\n", 100);
    assert_eq!(out, b"$1\r\nv\r\n".to_vec());
    // Strictly after it, the key reads as absent.
    let out = feed(&mut conn, &mut store, b"*2\r\n$3\r\nGET\r\n$1\r\nk\r\n", 101);
    assert_eq!(out, b"$-1\r\n".to_vec());
}

#[test]
fn frame_split_across_reads_decodes_like_whole() {
    let whole: &[u8] = b"*3\r\n$3\r\nSET\r\n$3\r\nfoo\r\n$3\r\nbar\r\n";
    for cut in 0..whole.len() {
        let mut conn = Connection::new();
        let mut store = KvStore::new();
        let first = feed(&mut conn, &mut store, &whole[..cut], 0);
        assert_eq!(first, Vec::<u8>::new());
        assert!(!conn.closed);
        let second = feed(&mut conn, &mut store, &whole[cut..], 0);
        assert_eq!(second, b"+OK\r\n".to_vec());
        let got = feed(&mut conn, &mut store, b"*2\r\n$3\r\nGET\r\n$3\r\nfoo\r\n", 0);
        assert_eq!(got, b"$3\r\nbar\r\n".to_vec());
    }
}

#[test]
fn pipelined_frames_in_one_read_all_answered() {
    let mut conn = Connection::new();
    let mut store = KvStore::new();
    let out = feed(
        &mut conn,
        &mut store,
        b"*1\r\n$4\r\nPING\r\n*2\r\n$4\r\nECHO\r\n$2\r\nok\r\n",
        0,
    );
    assert_eq!(out, b"+PONG\r\n$2\r\nok\r\n".to_vec());
}

#[test]
fn unknown_command_errs_but_connection_stays_usable() {
    let mut conn = Connection::new();
    let mut store = KvStore::new();
    let out = feed(&mut conn, &mut store, b"*1\r\n$3\r\nFOO\r\n", 0);
    assert_eq!(out, b"-ERR unknown command 'FOO'\r\n".to_vec());
    assert!(!conn.closed);
    let out = feed(&mut conn, &mut store, b"*1\r\n$4\r\nPING\r\n", 0);
    assert_eq!(out, b"+PONG\r\n".to_vec());
}

#[test]
fn unknown_command_name_cannot_forge_a_reply_boundary() {
    // A command name is arbitrary bytes; CR and LF are dropped when it is
    // echoed into the error reply, so the reply stays one line.
    let mut conn = Connection::new();
    let mut store = KvStore::new();
    let out = feed(&mut conn, &mut store, b"*1\r\n$4\r\nA\r\nB\r\n", 0);
    assert_eq!(out, b"-ERR unknown command 'AB'\r\n".to_vec());
    assert!(!conn.closed);
}

#[test]
fn malformed_frame_closes_connection() {
    let mut conn = Connection::new();
    let mut store = KvStore::new();
    let out = feed(&mut conn, &mut store, b"PING\r\n", 0);
    assert_eq!(out, b"-ERR protocol error\r\n".to_vec());
    assert!(conn.closed);
    // A closed connection ignores further input.
    let out = feed(&mut conn, &mut store, b"*1\r\n$4\r\nPING\r\n", 0);
    assert_eq!(out, Vec::<u8>::new());
}

#[test]
fn negative_count_is_protocol_error() {
    let mut conn = Connection::new();
    let mut store = KvStore::new();
    let out = feed(&mut conn, &mut store, b"*-1\r\n", 0);
    assert_eq!(out, b"-ERR protocol error\r\n".to_vec());
    assert!(conn.closed);
}

#[test]
fn oversized_bulk_is_protocol_error() {
    let mut conn = Connection::new();
    let mut store = KvStore::new();
    let out = feed(&mut conn, &mut store, b"*2\r\n$4\r\nECHO\r\n$600000\r\n", 0);
    assert_eq!(out, b"-ERR protocol error\r\n".to_vec());
    assert!(conn.closed);
}

#[test]
fn overlong_length_line_is_protocol_error() {
    // A run of zero digits must not make the decoder ask for more bytes
    // forever: past the digit allowance the frame is malformed.
    let mut conn = Connection::new();
    let mut store = KvStore::new();
    let mut data = b"*".to_vec();
    data.extend(std::iter::repeat(b'0').take(64));
    let out = feed(&mut conn, &mut store, &data, 0);
    assert_eq!(out, b"-ERR protocol error\r\n".to_vec());
    assert!(conn.closed);

    assert!(matches!(decode_frame(b"*00000000"), FrameOutcome::ProtocolError));
    assert!(matches!(decode_frame(b"*1\r\n$00000000"), FrameOutcome::ProtocolError));
    // Up to seven digits the line is still fine.
    assert!(matches!(decode_frame(b"*0000001\r\n$0000000\r\n\r\n"), FrameOutcome::Parsed(..)));
}

#[test]
fn echo_without_payload_is_argument_error_and_keeps_connection() {
    let mut conn = Connection::new();
    let mut store = KvStore::new();
    let out = feed(&mut conn, &mut store, b"*1\r\n$4\r\nECHO\r\n", 0);
    assert_eq!(out, b"-ERR wrong number of arguments\r\n".to_vec());
    assert!(!conn.closed);
    let out = feed(&mut conn, &mut store, b"*1\r\n$4\r\nPING\r\n", 0);
    assert_eq!(out, b"+PONG\r\n".to_vec());
}

#[test]
fn get_without_key_is_argument_error() {
    let mut conn = Connection::new();
    let mut store = KvStore::new();
    let out = feed(&mut conn, &mut store, b"*1\r\n$3\r\nGET\r\n", 0);
    assert_eq!(out, b"-ERR wrong number of arguments\r\n".to_vec());
    assert!(!conn.closed);
}

#[test]
fn set_with_non_numeric_ttl_is_argument_error() {
    let mut conn = Connection::new();
    let mut store = KvStore::new();
    let out = feed(
        &mut conn,
        &mut store,
        b"*5\r\n$3\r\nSET\r\n$1\r\nk\r\n$1\r\nv\r\n$2\r\npx\r\n$3\r\nabc\r\n",
        0,
    );
    assert_eq!(out, b"-ERR value is not an integer\r\n".to_vec());
    assert!(!conn.closed);
}

#[test]
fn decode_frame_outcomes() {
    match decode_frame(b"*1\r\n$4\r\nPING\r\n") {
        FrameOutcome::Parsed(args, n) => {
            assert_eq!(n, 14);
            assert_eq!(args, vec![b"PING".to_vec()]);
        }
        _ => panic!("expected a parsed frame"),
    }
    assert!(matches!(decode_frame(b"*1\r\n$4\r\nPI"), FrameOutcome::NeedMoreData));
    assert!(matches!(decode_frame(b""), FrameOutcome::NeedMoreData));
    assert!(matches!(decode_frame(b"*a\r\n"), FrameOutcome::ProtocolError));
    assert!(matches!(decode_frame(b"*0\r\n"), FrameOutcome::ProtocolError));
}

#[test]
fn decode_request_parses_commands_and_ttl() {
    let data: &[u8] = b"*2\r\n$4\r\nECHO\r\n$2\r\nhi\r\n";
    match decode_request(data) {
        DecodeOutcome::Parsed(Request::Cmd(Command::Echo(p)), n) => {
            assert_eq!(p, b"hi".to_vec());
            assert_eq!(n, data.len());
        }
        _ => panic!("expected an ECHO command"),
    }
    match decode_request(b"*5\r\n$3\r\nset\r\n$1\r\nk\r\n$1\r\nv\r\n$2\r\npx\r\n$2\r\n50\r\n") {
        DecodeOutcome::Parsed(Request::Cmd(Command::Put(k, v, ttl)), _) => {
            assert_eq!(k, b"k".to_vec());
            assert_eq!(v, b"v".to_vec());
            assert_eq!(ttl, Some(50));
        }
        _ => panic!("expected a SET command"),
    }
    match decode_request(b"*2\r\n$4\r\nLPOP\r\n$1\r\nq\r\n") {
        DecodeOutcome::Parsed(Request::Cmd(Command::Unknown(name, rest)), _) => {
            assert_eq!(name, b"LPOP".to_vec());
            assert_eq!(rest, vec![b"q".to_vec()]);
        }
        _ => panic!("expected an unknown command"),
    }
}

#[test]
fn encode_reply_exact_bytes() {
    assert_eq!(encode_reply(&Reply::Simple(b"PONG".to_vec())), b"+PONG\r\n".to_vec());
    assert_eq!(encode_reply(&Reply::Bulk(b"bar".to_vec())), b"$3\r\nbar\r\n".to_vec());
    assert_eq!(encode_reply(&Reply::Bulk(Vec::new())), b"$0\r\n\r\n".to_vec());
    assert_eq!(encode_reply(&Reply::Nil), b"$-1\r\n".to_vec());
    assert_eq!(
        encode_reply(&Reply::Error(b"protocol error".to_vec())),
        b"-ERR protocol error\r\n".to_vec()
    );
    // A bulk long enough to need several length digits.
    let payload = vec![120u8; 12345];
    let encoded = encode_reply(&Reply::Bulk(payload.clone()));
    assert_eq!(&encoded[..8], b"$12345\r\n");
    assert_eq!(&encoded[8..8 + 12345], payload.as_slice());
    assert_eq!(&encoded[8 + 12345..], b"\r\n");
}
