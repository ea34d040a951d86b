use http_server::reader::StreamStatus;
use http_server::request::Request;
use http_server::response::{refuse, respond, ResponseWriter};
use http_server::status::HTTPStatusCode;

#[test]
fn status_line_is_version_code_and_reason() {
    let mut writer = ResponseWriter::new();
    writer.write_status_line(&HTTPStatusCode::Success(200));
    assert_eq!(writer.into_bytes(), b"HTTP/1.1 200 Success\r\n".to_vec());
    let mut writer = ResponseWriter::new();
    writer.write_status_line(&HTTPStatusCode::ClientError(404));
    assert_eq!(writer.into_bytes(), b"HTTP/1.1 404 Not Found\r\n".to_vec());
    let mut writer = ResponseWriter::new();
    writer.write_status_line(&HTTPStatusCode::Redirect(7));
    assert_eq!(writer.into_bytes(), b"HTTP/1.1 7 Unknown Error\r\n".to_vec());
}

#[test]
fn header_is_name_colon_value() {
    let mut writer = ResponseWriter::new();
    writer.write_header("Connection", "close");
    writer.write_header("X-Größe", "");
    assert_eq!(
        writer.into_bytes(),
        "Connection: close\r\nX-Größe: \r\n".as_bytes().to_vec()
    );
}

#[test]
fn parts_are_written_one_after_another() {
    let mut writer = ResponseWriter::new();
    writer.write_status_line(&HTTPStatusCode::Info(100));
    writer.write_header("A", "1");
    writer.end_headers();
    writer.write_body(&[0, 255, b'\n']);
    writer.write_body(b"");
    let mut expected = b"HTTP/1.1 100 Continue\r\nA: 1\r\n\r\n".to_vec();
    expected.extend_from_slice(&[0, 255, b'\n']);
    assert_eq!(writer.into_bytes(), expected);
}

#[test]
fn an_unused_writer_has_written_nothing() {
    assert_eq!(ResponseWriter::new().into_bytes(), Vec::<u8>::new());
}

#[test]
fn success_echoes_method_and_body() {
    let request = match Request::from_bytes(
        b"POST /p HTTP/1.1\r\nContent-Length: 5\r\n\r\nhello",
        8192,
    ) {
        Ok(request) => request,
        Err(code) => panic!("failed with {}", code.code()),
    };
    assert_eq!(request.echo(), "POST request read.\nBody:\nhello");
    assert_eq!(
        request.handle(),
        b"HTTP/1.1 200 Success\r\nConnection: close\r\nContent-Length: 30\r\n\r\n\
          POST request read.\nBody:\nhello"
            .to_vec()
    );
}

#[test]
fn success_without_body_echoes_the_method() {
    assert_eq!(
        respond(b"GET /a/b?x=1&y=2 HTTP/1.1\r\n\r\n", StreamStatus::Open, 8192),
        Some(
            b"HTTP/1.1 200 Success\r\nConnection: close\r\nContent-Length: 18\r\n\r\n\
              GET request read.\n"
                .to_vec()
        )
    );
}

#[test]
fn content_length_counts_bytes_not_characters() {
    let body = "bär";
    let input = format!("PUT / HTTP/1.1\r\nContent-Length: {}\r\n\r\n{}", body.len(), body);
    let response = respond(input.as_bytes(), StreamStatus::Eof, 8192);
    let expected = format!(
        "HTTP/1.1 200 Success\r\nConnection: close\r\nContent-Length: {}\r\n\r\n{}",
        "PUT request read.\nBody:\nbär".len(),
        "PUT request read.\nBody:\nbär"
    );
    assert_eq!(response, Some(expected.into_bytes()));
}

#[test]
fn empty_body_is_still_echoed_as_a_body() {
    let mut input = b"POST / HTTP/1.1\r\nContent-Length: 1\r\n\r\n".to_vec();
    input.push(0x80);
    assert_eq!(
        respond(&input, StreamStatus::Eof, 8192),
        Some(
            b"HTTP/1.1 200 Success\r\nConnection: close\r\nContent-Length: 25\r\n\r\n\
              POST request read.\nBody:\n"
                .to_vec()
        )
    );
}

#[test]
fn failure_is_answered_with_the_status_line_alone() {
    assert_eq!(
        refuse(&HTTPStatusCode::ServerError(500)),
        b"HTTP/1.1 500 Internal Server Error\r\n".to_vec()
    );
    assert_eq!(
        refuse(&HTTPStatusCode::ClientError(400)),
        b"HTTP/1.1 400 Bad Request\r\n".to_vec()
    );
    assert_eq!(
        refuse(&HTTPStatusCode::ClientError(499)),
        b"HTTP/1.1 499 Unknown Error\r\n".to_vec()
    );
}
