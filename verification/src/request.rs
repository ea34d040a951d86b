//! The request parser: from the bytes of a connection to a `Request`, or to
//! the status that ends the exchange.
//!
//! A request is a request line of bounded length, header lines up to an
//! empty line, and a body of as many bytes as the header `content-length`
//! says. The parser works on the bytes at hand and on what is known of the
//! bytes that follow; it asks for more only while more may come.

use crate::header_map::{headers_of, lookup_folded, HeaderMap};
use crate::number::{lemma_magnitude_bounds, parse_usize, unsigned_of, unsigned_part};
use crate::reader::{
    bounded_line, exact_bytes, lemma_bounded_line_fits, lemma_bounded_line_is_final,
    lemma_next_line_is_final, next_line, BufReaderExt, ByteReader, ReadError, StreamStatus,
    LINE_FEED,
};
use crate::request_params::{items_of_query, keys_of_items, params_of_items, RequestParams};
use crate::status::HTTPStatusCode;
use crate::text::{
    after_first_word, first_word, halves, lemma_position, lossy_text, lowercase_of, next_word,
    split_once, text_of_utf8, text_or_empty, trim, trimmed,
};
use crate::verb::{verb_of_folded, HttpVerb};
use vstd::pervasive::unreached;
use vstd::prelude::*;
use vstd::string::*;
use vstd::utf8::*;

verus! {

/// The number of bytes within which the request line must end, where the
/// caller has no other limit in mind.
pub const REQUEST_LINE_BUDGET: usize = 8192;

/// A parsed request.
pub struct Request {
    pub headers: HeaderMap,
    pub method: HttpVerb,
    /// The request target as it was sent.
    pub full_url: String,
    /// The target up to its first `?`.
    pub url: String,
    pub body: Option<String>,
    pub params: RequestParams,
}

/// What a request holds, as mathematical values.
pub struct RequestView {
    pub headers: Map<Seq<char>, Seq<char>>,
    pub method: HttpVerb,
    pub full_url: Seq<char>,
    pub url: Seq<char>,
    pub body: Option<Seq<char>>,
    pub params: Map<Seq<char>, Seq<char>>,
    pub param_keys: Seq<Seq<char>>,
}

impl View for Request {
    type V = RequestView;

    open spec fn view(&self) -> RequestView {
        RequestView {
            headers: self.headers@,
            method: self.method,
            full_url: self.full_url@,
            url: self.url@,
            body: match self.body {
                Some(body) => Some(body@),
                None => None,
            },
            params: self.params@,
            param_keys: self.params.keys(),
        }
    }
}

/// How far parsing got on the bytes at hand.
pub enum Parsed {
    /// The request is complete; `consumed` bytes of the input belong to it.
    Complete { request: Request, consumed: usize },
    /// The bytes at hand do not hold the whole request, and more may come.
    NeedMore,
    /// No request will come of this input: the status to answer with.
    Failed(HTTPStatusCode),
}

/// `Parsed` as mathematical values.
pub enum ParsedView {
    Complete { request: RequestView, consumed: nat },
    NeedMore,
    Failed(HTTPStatusCode),
}

impl View for Parsed {
    type V = ParsedView;

    open spec fn view(&self) -> ParsedView {
        match self {
            Parsed::Complete { request, consumed } => ParsedView::Complete {
                request: request@,
                consumed: *consumed as nat,
            },
            Parsed::NeedMore => ParsedView::NeedMore,
            Parsed::Failed(code) => ParsedView::Failed(*code),
        }
    }
}

/// The method that a request line names: that of its first word, whatever
/// the word's case. A line without a word names no known method.
pub open spec fn method_of_line(line: Seq<char>) -> HttpVerb {
    if first_word(line).len() == 0 {
        HttpVerb::UNKNOWN
    } else {
        verb_of_folded(lowercase_of(first_word(line)))
    }
}

/// The target of a request line: its second word, or the empty text where
/// it has none.
pub open spec fn target_of_line(line: Seq<char>) -> Seq<char> {
    first_word(after_first_word(line))
}

/// The path of a target: what stands before its first `?`.
pub open spec fn path_of(target: Seq<char>) -> Seq<char> {
    match halves(target, '?') {
        Some((path, _)) => path,
        None => target,
    }
}

/// The query of a target: what follows its first `?`, or the empty text
/// where it holds no `?`.
pub open spec fn query_of(target: Seq<char>) -> Seq<char> {
    match halves(target, '?') {
        Some((_, query)) => query,
        None => Seq::empty(),
    }
}

/// The header lines at the start of some bytes.
pub struct HeaderScan {
    /// The lines, trimmed, in the order in which they stand.
    pub lines: Seq<Seq<char>>,
    /// How many bytes the lines and what ends them take.
    pub taken: nat,
    /// Whether the end of the headers is still to come.
    pub pending: bool,
}

/// Reads header lines off `unread` until the headers end: at a line that is
/// empty once trimmed, at a line that is not UTF-8, at the end of the stream,
/// or where reading fails. The line that ends the headers is taken too.
pub open spec fn scan_headers(unread: Seq<u8>, status: StreamStatus) -> HeaderScan
    decreases unread.len(),
{
    match next_line(unread, status) {
        Err(ReadError::Pending) => HeaderScan { lines: Seq::empty(), taken: 0, pending: true },
        Err(_) => HeaderScan { lines: Seq::empty(), taken: unread.len(), pending: false },
        Ok(n) => {
            let raw = unread.take(n as int);
            if n == 0 || !valid_utf8(raw) || trimmed(decode_utf8(raw)).len() == 0 {
                HeaderScan { lines: Seq::empty(), taken: n, pending: false }
            } else {
                proof {
                    lemma_position(unread, LINE_FEED);
                }
                let rest = scan_headers(unread.skip(n as int), status);
                HeaderScan {
                    lines: seq![trimmed(decode_utf8(raw))] + rest.lines,
                    taken: n + rest.taken,
                    pending: rest.pending,
                }
            }
        },
    }
}

/// The number of body bytes that the headers announce: the value of
/// `content-length` read as a number, or zero where there is no such header
/// or its value is no number that fits.
pub open spec fn announced_length(headers: Map<Seq<char>, Seq<char>>) -> nat {
    match lookup_folded(headers, "content-length"@) {
        Some(value) => match unsigned_of(value, usize::MAX as int) {
            Some(n) => if n >= 0 {
                n as nat
            } else {
                0
            },
            None => 0,
        },
        None => 0,
    }
}

/// The request without its body that the request line `line_bytes` and the
/// header lines `lines` give.
pub open spec fn request_head(line_bytes: Seq<u8>, lines: Seq<Seq<char>>) -> RequestView {
    let line = trimmed(text_or_empty(line_bytes));
    let target = target_of_line(line);
    RequestView {
        headers: headers_of(lines),
        method: method_of_line(line),
        full_url: target,
        url: path_of(target),
        body: None,
        params: params_of_items(items_of_query(query_of(target))),
        param_keys: keys_of_items(items_of_query(query_of(target))),
    }
}

/// What parsing makes of the bytes `input`, where `status` says what is
/// known of the bytes that follow and the request line must end within
/// `budget` bytes.
///
/// - A request line that does not end within the budget fails with client
///   error 413; a read that fails before its end, with server error 500.
/// - The headers are those of the lines that follow, up to the end of the
///   headers.
/// - A body is read where the headers announce a length above zero: just so
///   many bytes. Bytes that are not UTF-8 give the empty body. Where the
///   stream ends or fails before them, the request has no body.
/// - While more may come, input that stops short of any of this asks for
///   more.
pub open spec fn parse(input: Seq<u8>, status: StreamStatus, budget: nat) -> ParsedView {
    match bounded_line(input, status, LINE_FEED, budget) {
        Err(ReadError::Pending) => ParsedView::NeedMore,
        Err(ReadError::TooLong) => ParsedView::Failed(HTTPStatusCode::ClientError(413)),
        Err(_) => ParsedView::Failed(HTTPStatusCode::ServerError(500)),
        Ok(n) => {
            let scan = scan_headers(input.skip(n as int), status);
            let head = request_head(input.take(n as int), scan.lines);
            let rest = input.skip(n as int).skip(scan.taken as int);
            let want = announced_length(head.headers);
            if scan.pending {
                ParsedView::NeedMore
            } else if want == 0 {
                ParsedView::Complete { request: head, consumed: n + scan.taken }
            } else {
                match exact_bytes(rest, status, want) {
                    Ok(_) => ParsedView::Complete {
                        request: RequestView {
                            body: Some(text_or_empty(rest.take(want as int))),
                            ..head
                        },
                        consumed: n + scan.taken + want,
                    },
                    Err(ReadError::Pending) => ParsedView::NeedMore,
                    Err(_) => ParsedView::Complete { request: head, consumed: input.len() },
                }
            }
        },
    }
}

/// The header lines never take more bytes than there are.
pub proof fn lemma_scan_headers_fits(unread: Seq<u8>, status: StreamStatus)
    ensures
        scan_headers(unread, status).taken <= unread.len(),
        status != StreamStatus::Open ==> !scan_headers(unread, status).pending,
    decreases unread.len(),
{
    lemma_position(unread, LINE_FEED);
    if let Ok(n) = next_line(unread, status) {
        let raw = unread.take(n as int);
        if !(n == 0 || !valid_utf8(raw) || trimmed(decode_utf8(raw)).len() == 0) {
            lemma_scan_headers_fits(unread.skip(n as int), status);
        }
    }
}

/// Parsing asks for more only while more may come: once the stream has
/// ended or failed, every input gives a request or a status.
pub proof fn lemma_parse_settles(input: Seq<u8>, status: StreamStatus, budget: nat)
    requires
        status != StreamStatus::Open,
    ensures
        parse(input, status, budget) != ParsedView::NeedMore,
{
    if let Ok(n) = bounded_line(input, status, LINE_FEED, budget) {
        lemma_scan_headers_fits(input.skip(n as int), status);
    }
}

/// Header lines that have ended while more bytes may come stay as they are,
/// whatever comes.
pub proof fn lemma_scan_headers_is_final(unread: Seq<u8>, more: Seq<u8>, status: StreamStatus)
    requires
        !scan_headers(unread, StreamStatus::Open).pending,
    ensures
        scan_headers(unread + more, status) == scan_headers(unread, StreamStatus::Open),
    decreases unread.len(),
{
    lemma_position(unread, LINE_FEED);
    let n = next_line(unread, StreamStatus::Open)->Ok_0;
    lemma_next_line_is_final(unread, more, status);
    let raw = unread.take(n as int);
    assert((unread + more).take(n as int) =~= raw);
    if !(n == 0 || !valid_utf8(raw) || trimmed(decode_utf8(raw)).len() == 0) {
        assert((unread + more).skip(n as int) =~= unread.skip(n as int) + more);
        lemma_scan_headers_is_final(unread.skip(n as int), more, status);
    }
}

/// What parsing has settled while more bytes may come is final: whatever
/// comes after, and however the stream ends, the outcome is the same
/// request, with the same bytes counted as its own, or the same status.
pub proof fn lemma_parse_is_final(
    input: Seq<u8>,
    more: Seq<u8>,
    status: StreamStatus,
    budget: nat,
)
    requires
        parse(input, StreamStatus::Open, budget) != ParsedView::NeedMore,
    ensures
        parse(input + more, status, budget) == parse(input, StreamStatus::Open, budget),
{
    lemma_bounded_line_is_final(input, more, status, LINE_FEED, budget);
    if let Ok(n) = bounded_line(input, StreamStatus::Open, LINE_FEED, budget) {
        lemma_bounded_line_fits(input, StreamStatus::Open, LINE_FEED, budget);
        let after_line = input.skip(n as int);
        assert((input + more).take(n as int) =~= input.take(n as int));
        assert((input + more).skip(n as int) =~= after_line + more);
        lemma_scan_headers_is_final(after_line, more, status);
        lemma_scan_headers_fits(after_line, StreamStatus::Open);
        let scan = scan_headers(after_line, StreamStatus::Open);
        let rest = after_line.skip(scan.taken as int);
        assert((after_line + more).skip(scan.taken as int) =~= rest + more);
        let want = announced_length(headers_of(scan.lines));
        if want > 0 {
            assert((rest + more).take(want as int) =~= rest.take(want as int));
        }
    }
}

/// A request line that does not end within the budget gives client error
/// 413: where the first `budget` bytes are at hand and hold no line feed,
/// and where the stream has ended before one came.
pub proof fn lemma_unterminated_line_is_rejected(
    input: Seq<u8>,
    status: StreamStatus,
    budget: nat,
)
    requires
        forall|i: int| 0 <= i < input.len() && i < budget ==> input[i] != LINE_FEED,
        input.len() >= budget || status == StreamStatus::Eof,
    ensures
        parse(input, status, budget) == ParsedView::Failed(HTTPStatusCode::ClientError(413)),
{
    lemma_position(input, LINE_FEED);
}

/// How many bytes the request line and the headers take, where the request
/// line is there.
pub open spec fn head_len(input: Seq<u8>, status: StreamStatus, budget: nat) -> nat {
    match bounded_line(input, status, LINE_FEED, budget) {
        Ok(n) => n + scan_headers(input.skip(n as int), status).taken,
        Err(_) => 0,
    }
}

/// A complete request has a body just where its headers announce a length
/// above zero and so many bytes follow the headers. The body is then the
/// text of just those bytes, whatever they are, or the empty text where they
/// are not UTF-8, and the request ends with them.
pub proof fn lemma_body_is_read_as_announced(input: Seq<u8>, status: StreamStatus, budget: nat)
    requires
        parse(input, status, budget) is Complete,
    ensures
        ({
            let request = parse(input, status, budget)->request;
            let consumed = parse(input, status, budget)->consumed;
            let head = head_len(input, status, budget);
            let want = announced_length(request.headers);
            &&& head <= input.len()
            &&& request.body is Some <==> want > 0 && head + want <= input.len()
            &&& request.body is Some ==> {
                &&& consumed == head + want
                &&& request.body == Some(
                    text_or_empty(input.subrange(head as int, (head + want) as int)),
                )
            }
            &&& want == 0 ==> consumed == head
        }),
{
    let n = bounded_line(input, status, LINE_FEED, budget)->Ok_0;
    lemma_bounded_line_fits(input, status, LINE_FEED, budget);
    lemma_scan_headers_fits(input.skip(n as int), status);
    let scan = scan_headers(input.skip(n as int), status);
    let rest = input.skip(n as int).skip(scan.taken as int);
    let head = n + scan.taken;
    let want = announced_length(headers_of(scan.lines));
    if head + want <= input.len() {
        assert(rest.take(want as int) =~= input.subrange(head as int, (head + want) as int));
    }
}

/// Reads the header lines off `reader`, up to and including what ends them.
/// `None` where the end of the headers is still to come; nothing counts as
/// read then.
pub fn read_header_lines(reader: &mut ByteReader) -> (r: Option<Vec<String>>)
    ensures
        final(reader).status() == old(reader).status(),
        final(reader).bytes() == old(reader).bytes(),
        match r {
            Some(lines) => {
                let scan = scan_headers(old(reader).unread(), old(reader).status());
                &&& !scan.pending
                &&& lines.deep_view() == scan.lines
                &&& final(reader).unread() == old(reader).unread().skip(scan.taken as int)
            },
            None => scan_headers(old(reader).unread(), old(reader).status()).pending,
        },
{
    let mut lines: Vec<String> = Vec::new();
    let ghost start = reader.unread();
    let ghost status = reader.status();
    let ghost mut before: nat = 0;
    proof {
        assert(start.skip(0) =~= start);
        assert(lines.deep_view() =~= Seq::<Seq<char>>::empty());
    }
    loop
        invariant
            start == old(reader).unread(),
            status == old(reader).status(),
            reader.status() == status,
            reader.bytes() == old(reader).bytes(),
            before <= start.len(),
            reader.unread() == start.skip(before as int),
            scan_headers(start, status).pending == scan_headers(reader.unread(), status).pending,
            scan_headers(start, status).lines == lines.deep_view() + scan_headers(
                reader.unread(),
                status,
            ).lines,
            scan_headers(start, status).taken == before + scan_headers(
                reader.unread(),
                status,
            ).taken,
        decreases start.len() - before,
    {
        let ghost unread = reader.unread();
        let ghost listed = lines.deep_view();
        proof {
            lemma_scan_headers_fits(unread, status);
        }
        match reader.read_line() {
            Err(ReadError::Pending) => {
                return None;
            },
            Err(_) => {
                proof {
                    assert(start.skip(before as int).skip(unread.len() as int) =~= start.skip(
                        (before + unread.len()) as int,
                    ));
                    assert(listed + Seq::<Seq<char>>::empty() =~= listed);
                }
                return Some(lines);
            },
            Ok(raw) => {
                let ghost n = raw@.len();
                proof {
                    assert(start.skip(before as int).skip(n as int) =~= start.skip(
                        (before + n) as int,
                    ));
                }
                let ended = match text_of_utf8(raw.as_slice()) {
                    None => true,
                    Some(text) => {
                        let line = trim(text);
                        if raw.len() == 0 || line.is_empty() {
                            true
                        } else {
                            lines.push(String::from_str(line));
                            proof {
                                assert(lines.deep_view() =~= listed.push(line@));
                                assert(listed.push(line@) + scan_headers(
                                    unread.skip(n as int),
                                    status,
                                ).lines =~= listed + (seq![line@] + scan_headers(
                                    unread.skip(n as int),
                                    status,
                                ).lines));
                            }
                            false
                        }
                    },
                };
                if ended {
                    proof {
                        assert(listed + Seq::<Seq<char>>::empty() =~= listed);
                    }
                    return Some(lines);
                }
                proof {
                    before = before + n;
                }
            },
        }
    }
}

impl Request {
    /// The method and the target of a request line: its first word, read as
    /// a method whatever its case, and its second word. A line without a
    /// first word has the method `UNKNOWN`; one without a second has the
    /// empty target. What follows the second word is not looked at.
    pub fn parse_http_request_line(line: &str) -> (r: (HttpVerb, String))
        ensures
            r.0 == method_of_line(line@),
            r.1@ == target_of_line(line@),
    {
        let (first, rest) = next_word(line);
        let (second, _) = next_word(rest);
        let verb = if first.is_empty() {
            HttpVerb::UNKNOWN
        } else {
            HttpVerb::from(first)
        };
        (verb, String::from_str(second))
    }

    /// Parses the bytes at hand of a connection. `status` says what is
    /// known of the bytes that follow, and the request line must end within
    /// `budget` bytes.
    pub fn parse_available(input: &[u8], status: StreamStatus, budget: usize) -> (r: Parsed)
        ensures
            r@ == parse(input@, status, budget as nat),
    {
        let mut reader = ByteReader::new(input, status);
        let line_bytes = match reader.read_max_until(LINE_FEED, budget) {
            Ok(bytes) => bytes,
            Err(ReadError::Pending) => {
                return Parsed::NeedMore;
            },
            Err(ReadError::TooLong) => {
                return Parsed::Failed(HTTPStatusCode::ClientError(413));
            },
            Err(_) => {
                return Parsed::Failed(HTTPStatusCode::ServerError(500));
            },
        };
        let ghost n = line_bytes@.len();
        let line = lossy_text(line_bytes.as_slice());
        let (method, target) = Request::parse_http_request_line(trim(line));
        let (path, query) = match split_once(target.as_str(), '?') {
            Some((path, query)) => (path, query),
            None => {
                proof {
                    reveal_strlit("");
                }
                (target.as_str(), "")
            },
        };
        assert(query@ =~= query_of(target@));
        let params = RequestParams::from_query(query);
        let url = String::from_str(path);
        let lines = match read_header_lines(&mut reader) {
            Some(lines) => lines,
            None => {
                return Parsed::NeedMore;
            },
        };
        let ghost scan = scan_headers(input@.skip(n as int), status);
        let headers = HeaderMap::builder(&lines);
        let want = match headers.get_folded("content-length") {
            Some(value) => match parse_usize(value.as_str()) {
                Some(want) => want,
                None => 0,
            },
            None => 0,
        };
        assert(want == announced_length(headers@)) by {
            if let Some(value) = lookup_folded(headers@, "content-length"@) {
                lemma_magnitude_bounds(unsigned_part(value, false), usize::MAX as int);
            }
        }
        let head_end = reader.position();
        assert(head_end == n + scan.taken) by {
            lemma_scan_headers_fits(input@.skip(n as int), status);
        }
        let mut request = Request { headers, method, full_url: target, url, body: None, params };
        assert(request@ == request_head(input@.take(n as int), scan.lines));
        if want == 0 {
            return Parsed::Complete { request, consumed: head_end };
        }
        let ghost rest = reader.unread();
        assert(rest == input@.skip(n as int).skip(scan.taken as int));
        assert(rest.len() == input@.len() - head_end);
        match reader.read_exact(want) {
            Ok(bytes) => {
                request.body = Some(String::from_str(lossy_text(bytes.as_slice())));
                let consumed = reader.position();
                assert(reader.unread().len() == rest.len() - want);
                assert(consumed == head_end + want);
                Parsed::Complete { request, consumed }
            },
            Err(ReadError::Pending) => Parsed::NeedMore,
            Err(_) => {
                let consumed = reader.position();
                assert(reader.unread().len() == 0);
                assert(consumed == input@.len());
                Parsed::Complete { request, consumed }
            },
        }
    }

    /// Parses a request that is held in memory whole: no byte follows
    /// `input`.
    pub fn from_bytes(input: &[u8], budget: usize) -> (r: Result<Request, HTTPStatusCode>)
        ensures
            match r {
                Ok(request) => parse(input@, StreamStatus::Eof, budget as nat) matches ParsedView::Complete {
                    request: parsed,
                    ..
                } && parsed == request@,
                Err(code) => parse(input@, StreamStatus::Eof, budget as nat) == ParsedView::Failed(
                    code,
                ),
            },
    {
        proof {
            lemma_parse_settles(input@, StreamStatus::Eof, budget as nat);
        }
        match Request::parse_available(input, StreamStatus::Eof, budget) {
            Parsed::Complete { request, .. } => Ok(request),
            Parsed::Failed(code) => Err(code),
            Parsed::NeedMore => unreached(),
        }
    }
}

} // verus!
