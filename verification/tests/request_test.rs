use http_server::reader::StreamStatus;
use http_server::request::{read_header_lines, Parsed, Request, REQUEST_LINE_BUDGET};
use http_server::reader::ByteReader;
use http_server::response::{refuse, respond};
use http_server::status::HTTPStatusCode;
use http_server::verb::HttpVerb;

fn complete(input: &[u8]) -> (Request, usize) {
    match Request::parse_available(input, StreamStatus::Eof, REQUEST_LINE_BUDGET) {
        Parsed::Complete { request, consumed } => (request, consumed),
        Parsed::NeedMore => panic!("asked for more after the end of the stream"),
        Parsed::Failed(code) => panic!("failed with {}", code.code()),
    }
}

#[test]
fn get_with_query_and_no_body() {
    let input = b"GET /a/b?x=1&y=2 HTTP/1.1\r\n\r\n";
    let (request, consumed) = complete(input);
    assert_eq!(request.method, HttpVerb::GET);
    assert_eq!(request.url, "/a/b");
    assert_eq!(request.full_url, "/a/b?x=1&y=2");
    assert_eq!(request.params.len(), 2);
    assert_eq!(request.params.get("x", ""), "1");
    assert_eq!(request.params.get("y", ""), "2");
    assert_eq!(request.body, None);
    assert_eq!(consumed, input.len());
    let response = request.handle();
    assert!(response.starts_with(b"HTTP/1.1 200 Success\r\n"));
}

#[test]
fn oversized_request_line_is_payload_too_large() {
    let input = vec![b'a'; 9000];
    for status in [StreamStatus::Open, StreamStatus::Eof, StreamStatus::Failed] {
        match Request::parse_available(&input, status, 8192) {
            Parsed::Failed(code) => {
                assert_eq!(code, HTTPStatusCode::ClientError(413));
                assert_eq!(refuse(&code), b"HTTP/1.1 413 Payload Too Large\r\n".to_vec());
            },
            _ => panic!("an oversized request line was not refused"),
        }
        assert_eq!(
            respond(&input, status, 8192),
            Some(b"HTTP/1.1 413 Payload Too Large\r\n".to_vec())
        );
    }
}

#[test]
fn body_of_announced_length_is_read() {
    let input = b"POST /submit HTTP/1.1\r\nContent-Length: 5\r\n\r\nhello";
    let (request, consumed) = complete(input);
    assert_eq!(request.method, HttpVerb::POST);
    assert_eq!(request.body, Some(String::from("hello")));
    assert_eq!(request.headers.get("content-length"), Some(String::from("5")));
    assert_eq!(consumed, input.len());
}

#[test]
fn line_feed_just_within_the_budget_is_in_time() {
    let mut input = vec![b'a'; 8191];
    input.push(b'\n');
    input.extend_from_slice(b"\r\n");
    let (request, _) = complete(&input);
    assert_eq!(request.method, HttpVerb::UNKNOWN);
    assert_eq!(request.url, "");
}

#[test]
fn line_feed_just_beyond_the_budget_is_too_late() {
    let mut input = vec![b'a'; 8192];
    input.push(b'\n');
    assert!(matches!(
        Request::parse_available(&input, StreamStatus::Eof, 8192),
        Parsed::Failed(HTTPStatusCode::ClientError(413))
    ));
    assert!(matches!(
        Request::from_bytes(&input, 8192),
        Err(HTTPStatusCode::ClientError(413))
    ));
}

#[test]
fn stream_that_ends_within_the_request_line_is_payload_too_large() {
    assert!(matches!(
        Request::parse_available(b"GET /unfinished", StreamStatus::Eof, 8192),
        Parsed::Failed(HTTPStatusCode::ClientError(413))
    ));
    assert!(matches!(
        Request::parse_available(b"", StreamStatus::Eof, 8192),
        Parsed::Failed(HTTPStatusCode::ClientError(413))
    ));
}

#[test]
fn read_failure_within_the_request_line_is_a_server_error() {
    assert!(matches!(
        Request::parse_available(b"GET /unfinished", StreamStatus::Failed, 8192),
        Parsed::Failed(HTTPStatusCode::ServerError(500))
    ));
    assert_eq!(
        respond(b"GET", StreamStatus::Failed, 8192),
        Some(b"HTTP/1.1 500 Internal Server Error\r\n".to_vec())
    );
}

#[test]
fn unfinished_input_asks_for_more_while_more_may_come() {
    let whole = b"POST /x HTTP/1.1\r\nContent-Length: 3\r\n\r\nabc";
    for cut in 0..whole.len() {
        assert!(
            matches!(
                Request::parse_available(&whole[..cut], StreamStatus::Open, 8192),
                Parsed::NeedMore
            ),
            "cut at {}",
            cut
        );
        assert_eq!(respond(&whole[..cut], StreamStatus::Open, 8192), None);
    }
    assert!(matches!(
        Request::parse_available(whole, StreamStatus::Open, 8192),
        Parsed::Complete { .. }
    ));
}

#[test]
fn nothing_asks_for_more_once_the_stream_has_ended() {
    let whole = b"POST /x HTTP/1.1\r\nContent-Length: 3\r\n\r\nabc";
    for cut in 0..=whole.len() {
        for status in [StreamStatus::Eof, StreamStatus::Failed] {
            assert!(
                !matches!(
                    Request::parse_available(&whole[..cut], status, 8192),
                    Parsed::NeedMore
                ),
                "cut at {}",
                cut
            );
            assert!(respond(&whole[..cut], status, 8192).is_some());
        }
    }
}

#[test]
fn bytes_after_the_body_are_left_alone() {
    let input = b"PUT /x HTTP/1.1\r\ncontent-length:2\r\n\r\nabcdef";
    let (request, consumed) = complete(input);
    assert_eq!(request.body, Some(String::from("ab")));
    assert_eq!(consumed, input.len() - 4);
}

#[test]
fn body_that_is_no_text_is_the_empty_body() {
    let mut input = b"POST / HTTP/1.1\r\nContent-Length: 2\r\n\r\n".to_vec();
    input.extend_from_slice(&[0xff, 0xfe]);
    let (request, consumed) = complete(&input);
    assert_eq!(request.body, Some(String::new()));
    assert_eq!(consumed, input.len());
}

#[test]
fn no_body_without_a_usable_content_length() {
    for header in [
        "", "Content-Length: 0\r\n", "Content-Length: -5\r\n", "Content-Length: five\r\n",
        "Content-Length: 5 bytes\r\n", "Content-Length:\r\n", "Content-Lengths: 5\r\n",
        "Content-Length: 99999999999999999999999999\r\n",
    ] {
        let input = format!("POST / HTTP/1.1\r\n{}\r\nhello", header);
        let (request, consumed) = complete(input.as_bytes());
        assert_eq!(request.body, None, "with {:?}", header);
        assert_eq!(consumed, input.len() - 5);
    }
}

#[test]
fn content_length_may_carry_a_plus_sign() {
    let (request, _) = complete(b"POST / HTTP/1.1\r\nContent-Length: +5\r\n\r\nhello");
    assert_eq!(request.body, Some(String::from("hello")));
}

#[test]
fn body_cut_short_by_the_end_of_the_stream_is_no_body() {
    let input = b"POST / HTTP/1.1\r\nContent-Length: 5\r\n\r\nhel";
    let (request, consumed) = complete(input);
    assert_eq!(request.body, None);
    assert_eq!(consumed, input.len());
    match Request::parse_available(input, StreamStatus::Failed, 8192) {
        Parsed::Complete { request, .. } => assert_eq!(request.body, None),
        _ => panic!("a read failure within the body did not give a request"),
    }
}

#[test]
fn method_is_read_whatever_its_case() {
    let (request, _) = complete(b"dElEtE /item/7 HTTP/1.1\r\n\r\n");
    assert_eq!(request.method, HttpVerb::DELETE);
    assert_eq!(request.url, "/item/7");
}

#[test]
fn unknown_method_is_no_error() {
    let (request, _) = complete(b"BREW /pot HTCPCP/1.0\r\n\r\n");
    assert_eq!(request.method, HttpVerb::UNKNOWN);
    assert_eq!(request.url, "/pot");
    assert_eq!(
        request.handle(),
        b"HTTP/1.1 200 Success\r\nConnection: close\r\nContent-Length: 22\r\n\r\n\
          UNKNOWN request read.\n"
            .to_vec()
    );
}

#[test]
fn request_line_without_target_has_the_empty_target() {
    let (request, _) = complete(b"GET\r\n\r\n");
    assert_eq!(request.method, HttpVerb::GET);
    assert_eq!(request.full_url, "");
    assert_eq!(request.url, "");
    assert_eq!(request.params.len(), 0);
}

#[test]
fn empty_request_line_has_the_unknown_method() {
    let (request, _) = complete(b"\r\nHost: x\r\n\r\n");
    assert_eq!(request.method, HttpVerb::UNKNOWN);
    assert_eq!(request.full_url, "");
    assert_eq!(request.headers.get("host"), Some(String::from("x")));
}

#[test]
fn request_line_that_is_no_text_counts_as_empty() {
    let (request, _) = complete(&[b'G', 0xff, b' ', b'/', b'\n', b'\n']);
    assert_eq!(request.method, HttpVerb::UNKNOWN);
    assert_eq!(request.full_url, "");
}

#[test]
fn request_line_is_split_at_ascii_blanks_of_any_number() {
    let (request, _) = complete(b"  GET \t /x?a=1   HTTP/1.1 extra words \r\n\r\n");
    assert_eq!(request.method, HttpVerb::GET);
    assert_eq!(request.full_url, "/x?a=1");
    assert_eq!(request.url, "/x");
    assert_eq!(request.params.get("a", ""), "1");
}

#[test]
fn target_without_query_has_no_parameters() {
    let (request, _) = complete(b"GET /a/b HTTP/1.1\r\n\r\n");
    assert_eq!(request.url, "/a/b");
    assert_eq!(request.full_url, "/a/b");
    assert_eq!(request.params.len(), 0);
}

#[test]
fn target_of_separators_alone_has_no_parameters() {
    let (request, _) = complete(b"GET /?&&& HTTP/1.1\r\n\r\n");
    assert_eq!(request.url, "/");
    assert_eq!(request.params.len(), 0);
}

#[test]
fn headers_end_at_the_first_blank_line() {
    let input = b"GET / HTTP/1.1\r\nA: 1\r\nno colon here\r\nB: 2\r\n   \r\nC: 3\r\n\r\n";
    let (request, consumed) = complete(input);
    assert_eq!(request.headers.get("a"), Some(String::from("1")));
    assert_eq!(request.headers.get("b"), Some(String::from("2")));
    assert_eq!(request.headers.get("c"), None);
    assert_eq!(consumed, input.len() - 8);
}

#[test]
fn headers_end_with_the_stream() {
    let (request, consumed) = complete(b"GET / HTTP/1.1\nA: 1\nB: 2");
    assert_eq!(request.headers.get("a"), Some(String::from("1")));
    assert_eq!(request.headers.get("b"), Some(String::from("2")));
    assert_eq!(consumed, 24);
}

#[test]
fn headers_end_at_a_line_that_is_no_text() {
    let mut input = b"POST / HTTP/1.1\r\nContent-Length: 2\r\n".to_vec();
    input.extend_from_slice(&[0xff, b'\n']);
    input.extend_from_slice(b"okX-Late: 1\r\n");
    let (request, _) = complete(&input);
    assert_eq!(request.body, Some(String::from("ok")));
    assert_eq!(request.headers.get("x-late"), None);
}

#[test]
fn headers_end_where_reading_fails() {
    let input = b"GET / HTTP/1.1\r\nA: 1\r\nB: 2";
    match Request::parse_available(input, StreamStatus::Failed, 8192) {
        Parsed::Complete { request, consumed } => {
            assert_eq!(request.headers.get("a"), Some(String::from("1")));
            assert_eq!(request.headers.get("b"), None);
            assert_eq!(request.body, None);
            assert_eq!(consumed, input.len());
        },
        _ => panic!("a read failure within the headers did not give a request"),
    }
}

#[test]
fn header_lines_are_read_off_a_reader() {
    let mut reader = ByteReader::new(b" A: 1 \r\nB\n\nrest", StreamStatus::Open);
    let lines = read_header_lines(&mut reader);
    assert_eq!(lines, Some(vec![String::from("A: 1"), String::from("B")]));
    assert_eq!(reader.position(), 11);
    let mut unfinished = ByteReader::new(b"A: 1\r\nB: 2", StreamStatus::Open);
    assert_eq!(read_header_lines(&mut unfinished), None);
}

#[test]
fn request_line_parts() {
    assert_eq!(
        Request::parse_http_request_line("GET /index.html HTTP/1.1"),
        (HttpVerb::GET, String::from("/index.html"))
    );
    assert_eq!(
        Request::parse_http_request_line("post"),
        (HttpVerb::POST, String::new())
    );
    assert_eq!(Request::parse_http_request_line(""), (HttpVerb::UNKNOWN, String::new()));
    assert_eq!(
        Request::parse_http_request_line("x y z"),
        (HttpVerb::UNKNOWN, String::from("y"))
    );
}

#[test]
fn whole_request_from_memory() {
    match Request::from_bytes(b"HEAD /h?k HTTP/1.0\r\nHost: a\r\n\r\n", 64) {
        Ok(request) => {
            assert_eq!(request.method, HttpVerb::HEAD);
            assert_eq!(request.url, "/h");
            assert_eq!(request.params.get("k", "absent"), "");
            assert_eq!(request.headers.get("HOST"), Some(String::from("a")));
        },
        Err(code) => panic!("failed with {}", code.code()),
    }
    assert!(matches!(
        Request::from_bytes(b"HEAD /h?k HTTP/1.0\r\n\r\n", 10),
        Err(HTTPStatusCode::ClientError(413))
    ));
}

#[test]
fn the_budget_is_the_callers() {
    let input = b"GET / HTTP/1.1\r\n\r\n";
    assert!(matches!(
        Request::parse_available(input, StreamStatus::Eof, 15),
        Parsed::Failed(HTTPStatusCode::ClientError(413))
    ));
    assert!(matches!(
        Request::parse_available(input, StreamStatus::Eof, 16),
        Parsed::Complete { .. }
    ));
    assert!(matches!(
        Request::parse_available(input, StreamStatus::Open, 0),
        Parsed::Failed(HTTPStatusCode::ClientError(413))
    ));
}
