//! The response writer: status line, headers and body, serialised into the
//! bytes to send. Every response says `Connection: close` and carries a
//! `Content-Length` counted from the body as sent.

use crate::number::{decimal_digits, decimal_string};
use crate::reader::StreamStatus;
use crate::request::{lemma_parse_settles, parse, Parsed, ParsedView, Request, RequestView};
use crate::status::HTTPStatusCode;
use crate::verb::HttpVerb;
use vstd::prelude::*;
use vstd::string::*;
use vstd::utf8::*;

verus! {

/// The status line of a response: version, numeric code and reason phrase,
/// ended by carriage return and line feed.
pub open spec fn status_line(code: HTTPStatusCode) -> Seq<char> {
    "HTTP/1.1 "@ + decimal_digits(code.spec_code()) + " "@ + code.reason() + "\r\n"@
}

/// One header line: name, colon, blank, value, ended by carriage return and
/// line feed.
pub open spec fn header_line(name: Seq<char>, value: Seq<char>) -> Seq<char> {
    name + ": "@ + value + "\r\n"@
}

/// The text that answers a request: its method, and its body where it has
/// one.
pub open spec fn echo_text(method: HttpVerb, body: Option<Seq<char>>) -> Seq<char> {
    match body {
        Some(body) => method.spec_name() + " request read.\n"@ + "Body:\n"@ + body,
        None => method.spec_name() + " request read.\n"@,
    }
}

/// The response to a request that was parsed: status 200, `Connection:
/// close`, the length of the body in bytes, an empty line, and the body.
pub open spec fn success_response(request: RequestView) -> Seq<u8> {
    let body = encode_utf8(echo_text(request.method, request.body));
    encode_utf8(status_line(HTTPStatusCode::Success(200))) + encode_utf8(
        header_line("Connection"@, "close"@),
    ) + encode_utf8(header_line("Content-Length"@, decimal_digits(body.len()))) + encode_utf8(
        "\r\n"@,
    ) + body
}

/// The response to input that gave no request: the status line alone.
pub open spec fn failure_response(code: HTTPStatusCode) -> Seq<u8> {
    encode_utf8(status_line(code))
}

/// The bytes to answer the input of a connection with, or `None` while the
/// request is not complete and more may come.
pub open spec fn answer(input: Seq<u8>, status: StreamStatus, budget: nat) -> Option<Seq<u8>> {
    match parse(input, status, budget) {
        ParsedView::Complete { request, .. } => Some(success_response(request)),
        ParsedView::NeedMore => None,
        ParsedView::Failed(code) => Some(failure_response(code)),
    }
}

/// Once the stream has ended or failed there is an answer, and every answer
/// begins with a status line.
pub proof fn lemma_every_connection_is_answered(input: Seq<u8>, status: StreamStatus, budget: nat)
    ensures
        status != StreamStatus::Open ==> answer(input, status, budget) is Some,
        answer(input, status, budget) matches Some(bytes) ==> exists|code: HTTPStatusCode|
            encode_utf8(#[trigger] status_line(code)).is_prefix_of(bytes),
{
    if status != StreamStatus::Open {
        lemma_parse_settles(input, status, budget);
    }
    match parse(input, status, budget) {
        ParsedView::Complete { request, .. } => {
            let code = HTTPStatusCode::Success(200);
            assert(encode_utf8(status_line(code)).is_prefix_of(success_response(request)));
        },
        ParsedView::NeedMore => {},
        ParsedView::Failed(code) => {
            assert(encode_utf8(status_line(code)).is_prefix_of(failure_response(code)));
        },
    }
}

/// Collects the bytes of a response.
pub struct ResponseWriter {
    out: Vec<u8>,
}

impl View for ResponseWriter {
    type V = Seq<u8>;

    /// The bytes written so far.
    closed spec fn view(&self) -> Seq<u8> {
        self.out@
    }
}

impl ResponseWriter {
    /// A writer that has written nothing.
    pub fn new() -> (r: ResponseWriter)
        ensures
            r@ == Seq::<u8>::empty(),
    {
        ResponseWriter { out: Vec::new() }
    }

    /// Writes the status line of `code`.
    pub fn write_status_line(&mut self, code: &HTTPStatusCode)
        ensures
            final(self)@ == old(self)@ + encode_utf8(status_line(*code)),
    {
        let mut line = String::from_str("HTTP/1.1 ");
        line.append(decimal_string(code.code()).as_str());
        line.append(" ");
        line.append(code.message());
        line.append("\r\n");
        self.out.extend_from_slice(line.as_str().as_bytes());
    }

    /// Writes the header `name` with `value`.
    pub fn write_header(&mut self, name: &str, value: &str)
        ensures
            final(self)@ == old(self)@ + encode_utf8(header_line(name@, value@)),
    {
        let mut line = String::from_str(name);
        line.append(": ");
        line.append(value);
        line.append("\r\n");
        self.out.extend_from_slice(line.as_str().as_bytes());
    }

    /// Ends the headers with an empty line.
    pub fn end_headers(&mut self)
        ensures
            final(self)@ == old(self)@ + encode_utf8("\r\n"@),
    {
        self.out.extend_from_slice("\r\n".as_bytes());
    }

    /// Writes `bytes` as they are.
    pub fn write_body(&mut self, bytes: &[u8])
        ensures
            final(self)@ == old(self)@ + bytes@,
    {
        self.out.extend_from_slice(bytes);
    }

    /// The bytes written.
    pub fn into_bytes(self) -> (r: Vec<u8>)
        ensures
            r@ == self@,
    {
        self.out
    }
}

impl Request {
    /// The text that answers this request.
    pub fn echo(&self) -> (r: String)
        ensures
            r@ == echo_text(self.method, self@.body),
    {
        let mut text = String::from_str(self.method.name());
        text.append(" request read.\n");
        match &self.body {
            Some(body) => {
                text.append("Body:\n");
                text.append(body.as_str());
            },
            None => {},
        }
        text
    }

    /// The response to this request, as the bytes to send.
    pub fn handle(&self) -> (r: Vec<u8>)
        ensures
            r@ == success_response(self@),
    {
        let text = self.echo();
        let body = text.as_str().as_bytes();
        let mut writer = ResponseWriter::new();
        writer.write_status_line(&HTTPStatusCode::Success(200));
        writer.write_header("Connection", "close");
        writer.write_header("Content-Length", decimal_string(body.len()).as_str());
        writer.end_headers();
        writer.write_body(body);
        writer.into_bytes()
    }
}

/// The response to input that gave no request, as the bytes to send.
pub fn refuse(code: &HTTPStatusCode) -> (r: Vec<u8>)
    ensures
        r@ == failure_response(*code),
{
    let mut writer = ResponseWriter::new();
    writer.write_status_line(code);
    writer.into_bytes()
}

/// Parses the bytes at hand of a connection and answers them: the bytes to
/// send and then close, or `None` while the request is not complete and more
/// may come.
pub fn respond(input: &[u8], status: StreamStatus, budget: usize) -> (r: Option<Vec<u8>>)
    ensures
        match r {
            Some(bytes) => answer(input@, status, budget as nat) == Some(bytes@),
            None => answer(input@, status, budget as nat).is_none(),
        },
{
    match Request::parse_available(input, status, budget) {
        Parsed::Complete { request, .. } => Some(request.handle()),
        Parsed::NeedMore => None,
        Parsed::Failed(code) => Some(refuse(&code)),
    }
}

} // verus!
