use http_server::connection::{Connection, ReadFailure};
use http_server::reader::StreamStatus;
use http_server::request::Parsed;
use http_server::verb::HttpVerb;

#[test]
fn a_new_connection_wants_to_read() {
    let connection = Connection::new(8192);
    assert_eq!(connection.status(), StreamStatus::Open);
    assert_eq!(connection.reply(), None);
    assert!(matches!(connection.request(), Parsed::NeedMore));
}

#[test]
fn a_request_in_pieces_is_answered_once_it_is_whole() {
    let mut connection = Connection::new(8192);
    for piece in ["GET /a", "/b?x=1 HT", "TP/1.1\r\nHost", ": h\r\n"] {
        connection.on_read(Ok(piece.as_bytes()));
        assert_eq!(connection.reply(), None);
    }
    connection.on_read(Ok(b"\r\n"));
    assert_eq!(
        connection.reply(),
        Some(
            b"HTTP/1.1 200 Success\r\nConnection: close\r\nContent-Length: 18\r\n\r\n\
              GET request read.\n"
                .to_vec()
        )
    );
    match connection.request() {
        Parsed::Complete { request, consumed } => {
            assert_eq!(request.method, HttpVerb::GET);
            assert_eq!(request.url, "/a/b");
            assert_eq!(consumed, 34);
        },
        _ => panic!("the request is whole"),
    }
}

#[test]
fn a_read_without_bytes_is_the_end_of_the_stream() {
    let mut connection = Connection::new(8192);
    connection.on_read(Ok(b"GET / HTTP/1.1\r\nA: 1\r\n"));
    assert_eq!(connection.reply(), None);
    connection.on_read(Ok(b""));
    assert_eq!(connection.status(), StreamStatus::Eof);
    assert!(connection.reply().is_some());
}

#[test]
fn the_end_of_the_stream_within_the_request_line_is_payload_too_large() {
    let mut connection = Connection::new(8192);
    connection.on_read(Ok(b"GET /"));
    connection.on_read(Ok(&[]));
    assert_eq!(connection.reply(), Some(b"HTTP/1.1 413 Payload Too Large\r\n".to_vec()));
}

#[test]
fn an_interrupted_read_changes_nothing() {
    let mut connection = Connection::new(8192);
    connection.on_read(Ok(b"GET"));
    connection.on_read(Err(ReadFailure::Interrupted));
    assert_eq!(connection.status(), StreamStatus::Open);
    assert_eq!(connection.reply(), None);
    connection.on_read(Ok(b" / HTTP/1.1\r\n\r\n"));
    assert!(connection.reply().is_some());
}

#[test]
fn a_broken_read_within_the_request_line_is_a_server_error() {
    let mut connection = Connection::new(8192);
    connection.on_read(Ok(b"GET / HT"));
    connection.on_read(Err(ReadFailure::Broken));
    assert_eq!(connection.status(), StreamStatus::Failed);
    assert_eq!(
        connection.reply(),
        Some(b"HTTP/1.1 500 Internal Server Error\r\n".to_vec())
    );
}

#[test]
fn nothing_changes_once_the_stream_has_ended() {
    let mut connection = Connection::new(8192);
    connection.on_read(Ok(b"GET / HTTP/1.1\r\n"));
    connection.on_read(Ok(b""));
    let settled = connection.reply();
    connection.on_read(Ok(b"X: 1\r\n\r\n"));
    connection.on_read(Err(ReadFailure::Broken));
    assert_eq!(connection.status(), StreamStatus::Eof);
    assert_eq!(connection.reply(), settled);
}

#[test]
fn an_oversized_request_line_is_refused_while_the_stream_is_open() {
    let mut connection = Connection::new(16);
    connection.on_read(Ok(b"GET /a/rather/long/path"));
    assert_eq!(connection.status(), StreamStatus::Open);
    assert_eq!(connection.reply(), Some(b"HTTP/1.1 413 Payload Too Large\r\n".to_vec()));
}

#[test]
fn a_reply_does_not_change_with_what_comes_after() {
    let whole = b"POST /p?k=v HTTP/1.1\r\nContent-Length: 4\r\n\r\nbody";
    let mut at_once = Connection::new(8192);
    at_once.on_read(Ok(whole));
    let reply = at_once.reply();
    assert!(reply.is_some());
    for later in [&b"GET / HTTP/1.1\r\n\r\n"[..], &b"\n"[..], &[0xff, 0x00][..]] {
        at_once.on_read(Ok(later));
        assert_eq!(at_once.reply(), reply);
    }
    at_once.on_read(Ok(b""));
    assert_eq!(at_once.reply(), reply);
    for cut in 1..whole.len() {
        let mut in_two = Connection::new(8192);
        in_two.on_read(Ok(&whole[..cut]));
        in_two.on_read(Ok(&whole[cut..]));
        assert_eq!(in_two.reply(), reply, "cut at {}", cut);
    }
}
