//! The HTTP/1.1 wire codec: the incremental request parser and the response
//! serializer, with the data they exchange.

use vstd::prelude::*;
use vstd::string::*;
use vstd::utf8::valid_utf8;
use crate::error::Error;
use crate::fields::{lookup, upsert, without, Field, FieldMap};
use crate::numeric::{hex_digits, parse_decimal, parse_usize, push_hex};
use crate::text::{
    append, ascii, bytes_eq, cut, find, first_match, lemma_first_match_sound, lit, split_once,
    to_vec, trim, trimmed, is_utf8,
};

verus! {

/// The protocol version that responses announce.
pub open spec fn http_version() -> Seq<u8> {
    ascii("HTTP/1.1"@)
}

/// The line terminator.
pub open spec fn crlf() -> Seq<u8> {
    seq![13u8, 10u8]
}

/// Body length above which a response is sent in chunks, and the size of a
/// full chunk.
pub const CHUNK_LEN: usize = 1024;

/// A request method.
#[derive(Clone, Copy, Debug, PartialEq, Eq, Structural)]
pub enum Method {
    Get,
    Post,
}

impl Method {
    /// The method token.
    pub open spec fn name(self) -> Seq<u8> {
        match self {
            Method::Get => ascii("GET"@),
            Method::Post => ascii("POST"@),
        }
    }

    /// The method token.
    pub fn to_string(&self) -> (r: Vec<u8>)
        ensures
            r@ == self.name(),
    {
        proof {
            reveal_strlit("GET");
            reveal_strlit("POST");
        }
        match self {
            Method::Get => to_vec(lit("GET")),
            Method::Post => to_vec(lit("POST")),
        }
    }
}

/// The method that a token names.
pub open spec fn method_of(w: Seq<u8>) -> Option<Method> {
    if w == ascii("GET"@) {
        Some(Method::Get)
    } else if w == ascii("POST"@) {
        Some(Method::Post)
    } else {
        None
    }
}

/// The request header fields that the server reads. Every other field name
/// falls into `NotSupported`.
#[derive(Clone, Copy, Debug, PartialEq, Eq, Structural)]
pub enum RequestHeaderField {
    ContentLength,
    Host,
    IfModifiedSince,
    UserAgent,
    NotSupported,
}

impl Field for RequestHeaderField {
    fn same(&self, other: &Self) -> (r: bool) {
        *self == *other
    }
}

/// The field that a header name denotes; names are matched exactly.
pub open spec fn request_field_of(name: Seq<u8>) -> RequestHeaderField {
    if name == ascii("Content-Length"@) {
        RequestHeaderField::ContentLength
    } else if name == ascii("If-Modified-Since"@) {
        RequestHeaderField::IfModifiedSince
    } else if name == ascii("Host"@) {
        RequestHeaderField::Host
    } else if name == ascii("User-Agent"@) {
        RequestHeaderField::UserAgent
    } else {
        RequestHeaderField::NotSupported
    }
}

impl RequestHeaderField {
    /// The field that `name` denotes. Never fails: an unknown name is
    /// `NotSupported`.
    pub fn from_str(name: &[u8]) -> (r: Result<RequestHeaderField, ()>)
        ensures
            r == Ok::<RequestHeaderField, ()>(request_field_of(name@)),
    {
        proof {
            reveal_strlit("Content-Length");
            reveal_strlit("If-Modified-Since");
            reveal_strlit("Host");
            reveal_strlit("User-Agent");
        }
        if bytes_eq(name, lit("Content-Length")) {
            Ok(RequestHeaderField::ContentLength)
        } else if bytes_eq(name, lit("If-Modified-Since")) {
            Ok(RequestHeaderField::IfModifiedSince)
        } else if bytes_eq(name, lit("Host")) {
            Ok(RequestHeaderField::Host)
        } else if bytes_eq(name, lit("User-Agent")) {
            Ok(RequestHeaderField::UserAgent)
        } else {
            Ok(RequestHeaderField::NotSupported)
        }
    }
}

/// The response header fields that the server emits.
#[derive(Clone, Copy, Debug, PartialEq, Eq, Structural)]
pub enum ResponseHeaderField {
    ContentLength,
    ContentType,
    Date,
    LastModified,
    Server,
    TransferEncoding,
}

impl Field for ResponseHeaderField {
    fn same(&self, other: &Self) -> (r: bool) {
        *self == *other
    }
}

/// The response field that a header name denotes, if it denotes one.
pub open spec fn response_field_of(name: Seq<u8>) -> Option<ResponseHeaderField> {
    if name == ascii("Content-Length"@) {
        Some(ResponseHeaderField::ContentLength)
    } else if name == ascii("Content-Type"@) {
        Some(ResponseHeaderField::ContentType)
    } else if name == ascii("Date"@) {
        Some(ResponseHeaderField::Date)
    } else if name == ascii("Last-Modified"@) {
        Some(ResponseHeaderField::LastModified)
    } else if name == ascii("Server"@) {
        Some(ResponseHeaderField::Server)
    } else if name == ascii("Transfer-Encoding"@) {
        Some(ResponseHeaderField::TransferEncoding)
    } else {
        None
    }
}

impl ResponseHeaderField {
    /// The header name of the field.
    pub open spec fn name(self) -> Seq<u8> {
        match self {
            ResponseHeaderField::ContentLength => ascii("Content-Length"@),
            ResponseHeaderField::ContentType => ascii("Content-Type"@),
            ResponseHeaderField::Date => ascii("Date"@),
            ResponseHeaderField::LastModified => ascii("Last-Modified"@),
            ResponseHeaderField::Server => ascii("Server"@),
            ResponseHeaderField::TransferEncoding => ascii("Transfer-Encoding"@),
        }
    }

    /// The header name of the field.
    pub fn to_string(&self) -> (r: Vec<u8>)
        ensures
            r@ == self.name(),
    {
        proof {
            reveal_strlit("Content-Length");
            reveal_strlit("Content-Type");
            reveal_strlit("Date");
            reveal_strlit("Last-Modified");
            reveal_strlit("Server");
            reveal_strlit("Transfer-Encoding");
        }
        match self {
            ResponseHeaderField::ContentLength => to_vec(lit("Content-Length")),
            ResponseHeaderField::ContentType => to_vec(lit("Content-Type")),
            ResponseHeaderField::Date => to_vec(lit("Date")),
            ResponseHeaderField::LastModified => to_vec(lit("Last-Modified")),
            ResponseHeaderField::Server => to_vec(lit("Server")),
            ResponseHeaderField::TransferEncoding => to_vec(lit("Transfer-Encoding")),
        }
    }

    /// The field that `name` denotes; fails on any other name.
    pub fn from_str(name: &[u8]) -> (r: Result<ResponseHeaderField, ()>)
        ensures
            r is Ok <==> response_field_of(name@) is Some,
            r matches Ok(f) ==> response_field_of(name@) == Some(f),
    {
        proof {
            reveal_strlit("Content-Length");
            reveal_strlit("Content-Type");
            reveal_strlit("Date");
            reveal_strlit("Last-Modified");
            reveal_strlit("Server");
            reveal_strlit("Transfer-Encoding");
        }
        if bytes_eq(name, lit("Content-Length")) {
            Ok(ResponseHeaderField::ContentLength)
        } else if bytes_eq(name, lit("Content-Type")) {
            Ok(ResponseHeaderField::ContentType)
        } else if bytes_eq(name, lit("Date")) {
            Ok(ResponseHeaderField::Date)
        } else if bytes_eq(name, lit("Last-Modified")) {
            Ok(ResponseHeaderField::LastModified)
        } else if bytes_eq(name, lit("Server")) {
            Ok(ResponseHeaderField::Server)
        } else if bytes_eq(name, lit("Transfer-Encoding")) {
            Ok(ResponseHeaderField::TransferEncoding)
        } else {
            Err(())
        }
    }
}

/// Every response field name denotes the field it was written from.
pub proof fn lemma_response_field_roundtrip(f: ResponseHeaderField)
    ensures
        response_field_of(f.name()) == Some(f),
{
    reveal_strlit("Content-Length");
    reveal_strlit("Content-Type");
    reveal_strlit("Date");
    reveal_strlit("Last-Modified");
    reveal_strlit("Server");
    reveal_strlit("Transfer-Encoding");
    let n = f.name();
    assert(ascii("Content-Length"@).len() == 14);
    assert(ascii("Content-Type"@).len() == 12);
    assert(ascii("Date"@).len() == 4);
    assert(ascii("Last-Modified"@).len() == 13);
    assert(ascii("Server"@).len() == 6);
    assert(ascii("Transfer-Encoding"@).len() == 17);
    assert(ascii("Content-Length"@)[8] != ascii("Content-Type"@)[8]);
}

/// The status codes that the server answers with.
#[derive(Clone, Copy, Debug, PartialEq, Eq, Structural)]
pub enum StatusCode {
    Success,
    NotModified,
    BadRequest,
    Forbidden,
    NotFound,
    InternalServerError,
    ServiceUnavailable,
}

impl StatusCode {
    /// The numeric code.
    pub open spec fn code(self) -> nat {
        match self {
            StatusCode::Success => 200,
            StatusCode::NotModified => 304,
            StatusCode::BadRequest => 400,
            StatusCode::Forbidden => 403,
            StatusCode::NotFound => 404,
            StatusCode::InternalServerError => 500,
            StatusCode::ServiceUnavailable => 503,
        }
    }

    /// The code and reason phrase as they stand in a status line.
    pub open spec fn reason(self) -> &'static str {
        match self {
            StatusCode::Success => "200 OK",
            StatusCode::NotModified => "304 Not Modified",
            StatusCode::BadRequest => "400 Bad Request",
            StatusCode::Forbidden => "403 Forbidden",
            StatusCode::NotFound => "404 Not Found",
            StatusCode::InternalServerError => "500 Internal Server Error",
            StatusCode::ServiceUnavailable => "503 Service Unavailable",
        }
    }

    /// The code and reason phrase as they stand in a status line.
    pub fn reason_phrase(&self) -> (r: &'static str)
        ensures
            r == self.reason(),
            is_ascii(r),
    {
        proof {
            reveal_strlit("200 OK");
            reveal_strlit("304 Not Modified");
            reveal_strlit("400 Bad Request");
            reveal_strlit("403 Forbidden");
            reveal_strlit("404 Not Found");
            reveal_strlit("500 Internal Server Error");
            reveal_strlit("503 Service Unavailable");
        }
        match self {
            StatusCode::Success => "200 OK",
            StatusCode::NotModified => "304 Not Modified",
            StatusCode::BadRequest => "400 Bad Request",
            StatusCode::Forbidden => "403 Forbidden",
            StatusCode::NotFound => "404 Not Found",
            StatusCode::InternalServerError => "500 Internal Server Error",
            StatusCode::ServiceUnavailable => "503 Service Unavailable",
        }
    }

    /// The numeric code.
    pub fn number(&self) -> (r: u16)
        ensures
            r == self.code(),
    {
        match self {
            StatusCode::Success => 200,
            StatusCode::NotModified => 304,
            StatusCode::BadRequest => 400,
            StatusCode::Forbidden => 403,
            StatusCode::NotFound => 404,
            StatusCode::InternalServerError => 500,
            StatusCode::ServiceUnavailable => 503,
        }
    }

    /// The code and reason phrase as octets.
    pub fn to_string(&self) -> (r: Vec<u8>)
        ensures
            r@ == ascii(self.reason()@),
    {
        to_vec(lit(self.reason_phrase()))
    }
}

/// The octet that separates the words of a request line.
pub open spec fn sp() -> Seq<u8> {
    seq![32u8]
}

/// The octet that ends a header name.
pub open spec fn colon() -> Seq<u8> {
    seq![58u8]
}

/// The octet that starts a query string.
pub open spec fn question_mark() -> Seq<u8> {
    seq![63u8]
}

/// Whether an outcome is the expected one: the same value by its view, or
/// the same message.
pub open spec fn agrees<T: View>(r: Result<T, Error>, expected: Result<T::V, Seq<char>>) -> bool {
    match expected {
        Ok(v) => r matches Ok(x) && x@ == v,
        Err(m) => r matches Err(e) && e@ == m,
    }
}

/// What a request line says.
#[derive(Debug)]
pub struct RequestLine {
    pub method: Method,
    pub request_path: Vec<u8>,
    pub query_string: Vec<u8>,
    pub http_version: Vec<u8>,
}

/// A request line as a mathematical value.
pub struct RequestLineView {
    pub method: Method,
    pub request_path: Seq<u8>,
    pub query_string: Seq<u8>,
    pub http_version: Seq<u8>,
}

impl View for RequestLine {
    type V = RequestLineView;

    open spec fn view(&self) -> RequestLineView {
        RequestLineView {
            method: self.method,
            request_path: self.request_path@,
            query_string: self.query_string@,
            http_version: self.http_version@,
        }
    }
}

/// The first word of `s` and, where a space follows it, what stands after
/// that space.
pub open spec fn split_word(s: Seq<u8>) -> (Seq<u8>, Option<Seq<u8>>) {
    match split_once(s, sp()) {
        Some((word, rest)) => (word, Some(rest)),
        None => (s, None),
    }
}

/// A request target cut at its first question mark into path and query
/// string; without one the query string is empty.
pub open spec fn split_target(t: Seq<u8>) -> (Seq<u8>, Seq<u8>) {
    match split_once(t, question_mark()) {
        Some((path, query)) => (path, query),
        None => (t, Seq::empty()),
    }
}

/// What a request line says: `METHOD SP TARGET SP VERSION`. The line must
/// be UTF-8, the method `GET` or `POST`; words after the version are
/// ignored.
pub open spec fn spec_parse_request_line(line: Seq<u8>) -> Result<RequestLineView, Seq<char>> {
    if !valid_utf8(line) {
        Err("Request line is not valid UTF-8"@)
    } else {
        let (first, after_first) = split_word(line);
        match (method_of(first), after_first) {
            (None, _) => Err("Could not get method from request line"@),
            (Some(_), None) => Err("Could not get request target from request line"@),
            (Some(method), Some(rest)) => {
                let (target, after_target) = split_word(rest);
                match after_target {
                    None => Err("Could not get HTTP version from request line"@),
                    Some(rest) => Ok(
                        RequestLineView {
                            method,
                            request_path: split_target(target).0,
                            query_string: split_target(target).1,
                            http_version: split_word(rest).0,
                        },
                    ),
                }
            },
        }
    }
}

fn next_word(s: &[u8]) -> (r: (&[u8], Option<&[u8]>))
    ensures
        r.0@ == split_word(s@).0,
        r.1 is Some <==> split_word(s@).1 is Some,
        r.1 matches Some(rest) ==> split_word(s@).1 == Some(rest@),
{
    let space: [u8; 1] = [32];
    assert(space@ =~= sp());
    match cut(s, space.as_slice()) {
        Some((word, rest)) => (word, Some(rest)),
        None => (s, None),
    }
}

/// Reads a request line (without its line terminator).
pub fn parse_request_line(line: &[u8]) -> (r: Result<RequestLine, Error>)
    ensures
        agrees(r, spec_parse_request_line(line@)),
{
    proof {
        reveal_strlit("GET");
        reveal_strlit("POST");
    }
    if !is_utf8(line) {
        return Err(Error::of("Request line is not valid UTF-8"));
    }
    let (first, after_first) = next_word(line);
    let method = if bytes_eq(first, lit("GET")) {
        Method::Get
    } else if bytes_eq(first, lit("POST")) {
        Method::Post
    } else {
        return Err(Error::of("Could not get method from request line"));
    };
    let rest = match after_first {
        Some(rest) => rest,
        None => {
            return Err(Error::of("Could not get request target from request line"));
        },
    };
    let (target, after_target) = next_word(rest);
    let rest = match after_target {
        Some(rest) => rest,
        None => {
            return Err(Error::of("Could not get HTTP version from request line"));
        },
    };
    let (version, _) = next_word(rest);
    let mark: [u8; 1] = [63];
    assert(mark@ =~= question_mark());
    let (request_path, query_string) = match cut(target, mark.as_slice()) {
        Some((path, query)) => (to_vec(path), to_vec(query)),
        None => (to_vec(target), Vec::new()),
    };
    Ok(RequestLine { method, request_path, query_string, http_version: to_vec(version) })
}

/// What a header line says: a field name, a colon, and a value that is
/// trimmed. The line must be UTF-8 and hold a colon.
pub open spec fn spec_parse_header_line(line: Seq<u8>) -> Result<
    (RequestHeaderField, Seq<u8>),
    Seq<char>,
> {
    if !valid_utf8(line) {
        Err("Header line is not valid UTF-8"@)
    } else {
        match split_once(line, colon()) {
            None => Err("Could not parse header line"@),
            Some((name, value)) => Ok((request_field_of(name), trim(value))),
        }
    }
}

/// Reads a header line (without its line terminator).
pub fn parse_header_line(line: &[u8]) -> (r: Result<(RequestHeaderField, Vec<u8>), Error>)
    ensures
        match spec_parse_header_line(line@) {
            Ok((field, value)) => r matches Ok(x) && x.0 == field && x.1@ == value,
            Err(m) => r matches Err(e) && e@ == m,
        },
{
    if !is_utf8(line) {
        return Err(Error::of("Header line is not valid UTF-8"));
    }
    let sep: [u8; 1] = [58];
    assert(sep@ =~= colon());
    match cut(line, sep.as_slice()) {
        None => Err(Error::of("Could not parse header line")),
        Some((name, value)) => {
            let field = match RequestHeaderField::from_str(name) {
                Ok(field) => field,
                Err(_) => RequestHeaderField::NotSupported,
            };
            Ok((field, to_vec(trimmed(value))))
        },
    }
}

/// The header block of a request in arrival order, one entry per field.
pub type RequestHeaders = FieldMap<RequestHeaderField>;

/// The request line and the header block of a request.
#[derive(Debug)]
pub struct RequestHeader {
    pub request_line: RequestLine,
    pub header_lines: RequestHeaders,
}

/// A request head as a mathematical value.
pub struct RequestHeaderView {
    pub request_line: RequestLineView,
    pub header_lines: Seq<(RequestHeaderField, Seq<u8>)>,
}

impl View for RequestHeader {
    type V = RequestHeaderView;

    open spec fn view(&self) -> RequestHeaderView {
        RequestHeaderView {
            request_line: self.request_line@,
            header_lines: self.header_lines@,
        }
    }
}

/// A complete request as it came off the wire, before the peer is known.
#[derive(Debug)]
pub struct RequestNoRemote {
    pub header: RequestHeader,
    pub body: Vec<u8>,
}

/// A complete request as a mathematical value.
pub struct RequestNoRemoteView {
    pub header: RequestHeaderView,
    pub body: Seq<u8>,
}

impl View for RequestNoRemote {
    type V = RequestNoRemoteView;

    open spec fn view(&self) -> RequestNoRemoteView {
        RequestNoRemoteView { header: self.header@, body: self.body@ }
    }
}

/// The peer of a connection, by its printed address.
#[derive(Debug)]
pub struct Remote {
    pub addr: Vec<u8>,
}

/// A complete request together with the peer that sent it.
#[derive(Debug)]
pub struct Request {
    pub header: RequestHeader,
    pub remote: Remote,
    pub body: Vec<u8>,
}

/// A request with its peer as a mathematical value.
pub struct RequestView {
    pub header: RequestHeaderView,
    pub remote: Seq<u8>,
    pub body: Seq<u8>,
}

impl View for Request {
    type V = RequestView;

    open spec fn view(&self) -> RequestView {
        RequestView { header: self.header@, remote: self.remote.addr@, body: self.body@ }
    }
}

impl Request {
    /// Attaches the peer's printed address to a request.
    pub fn from_no_remote(request: RequestNoRemote, addr: Vec<u8>) -> (r: Request)
        ensures
            r.header@ == request.header@,
            r.body@ == request.body@,
            r.remote.addr@ == addr@,
    {
        Request { header: request.header, remote: Remote { addr }, body: request.body }
    }
}

/// A request in the course of arriving. Each state but the last carries the
/// octets that arrived after the last token that was read.
#[derive(Debug)]
pub enum IncrementalRequest {
    /// Nothing has been read yet.
    Empty(Vec<u8>),
    /// The request line has been read.
    HaveRequestLine(RequestLine, Vec<u8>),
    /// The request line and at least one header line have been read.
    HaveHeaders(RequestLine, RequestHeaders, Vec<u8>),
    /// The head is complete; the body so far, and how many octets of it are
    /// still to come.
    ReadingBody(RequestLine, RequestHeaders, Vec<u8>, usize, Vec<u8>),
    /// The request is complete.
    Complete(RequestNoRemote),
}

/// An arriving request as a mathematical value.
pub enum IncrementalRequestView {
    Empty(Seq<u8>),
    HaveRequestLine(RequestLineView, Seq<u8>),
    HaveHeaders(RequestLineView, Seq<(RequestHeaderField, Seq<u8>)>, Seq<u8>),
    ReadingBody(RequestLineView, Seq<(RequestHeaderField, Seq<u8>)>, Seq<u8>, nat, Seq<u8>),
    Complete(RequestNoRemoteView),
}

impl View for IncrementalRequest {
    type V = IncrementalRequestView;

    open spec fn view(&self) -> IncrementalRequestView {
        match self {
            IncrementalRequest::Empty(p) => IncrementalRequestView::Empty(p@),
            IncrementalRequest::HaveRequestLine(l, p) => IncrementalRequestView::HaveRequestLine(
                l@,
                p@,
            ),
            IncrementalRequest::HaveHeaders(l, h, p) => IncrementalRequestView::HaveHeaders(
                l@,
                h@,
                p@,
            ),
            IncrementalRequest::ReadingBody(l, h, b, n, p) => IncrementalRequestView::ReadingBody(
                l@,
                h@,
                b@,
                *n as nat,
                p@,
            ),
            IncrementalRequest::Complete(r) => IncrementalRequestView::Complete(r@),
        }
    }
}

impl IncrementalRequest {
    /// The state of a connection on which nothing has arrived.
    pub fn new() -> (r: IncrementalRequest)
        ensures
            r@ == IncrementalRequestView::Empty(Seq::empty()),
    {
        IncrementalRequest::Empty(Vec::new())
    }

    /// Whether the request is complete.
    pub fn is_complete(&self) -> (r: bool)
        ensures
            r == (self@ is Complete),
    {
        match self {
            IncrementalRequest::Complete(_) => true,
            _ => false,
        }
    }
}

/// The octets that a state holds unread.
pub open spec fn pending_of(s: IncrementalRequestView) -> Seq<u8> {
    match s {
        IncrementalRequestView::Empty(p) => p,
        IncrementalRequestView::HaveRequestLine(_, p) => p,
        IncrementalRequestView::HaveHeaders(_, _, p) => p,
        IncrementalRequestView::ReadingBody(_, _, _, _, p) => p,
        IncrementalRequestView::Complete(_) => Seq::empty(),
    }
}

/// The state with `more` appended to its unread octets. A complete request
/// takes no more.
pub open spec fn with_more(s: IncrementalRequestView, more: Seq<u8>) -> IncrementalRequestView {
    match s {
        IncrementalRequestView::Empty(p) => IncrementalRequestView::Empty(p + more),
        IncrementalRequestView::HaveRequestLine(l, p) => IncrementalRequestView::HaveRequestLine(
            l,
            p + more,
        ),
        IncrementalRequestView::HaveHeaders(l, h, p) => IncrementalRequestView::HaveHeaders(
            l,
            h,
            p + more,
        ),
        IncrementalRequestView::ReadingBody(l, h, b, n, p) => IncrementalRequestView::ReadingBody(
            l,
            h,
            b,
            n,
            p + more,
        ),
        IncrementalRequestView::Complete(r) => IncrementalRequestView::Complete(r),
    }
}

/// The body length that a header block announces: the value of
/// `Content-Length` as a decimal numeral that fits the machine word, zero
/// where the field is absent.
pub open spec fn body_length(headers: Seq<(RequestHeaderField, Seq<u8>)>) -> Result<
    nat,
    Seq<char>,
> {
    match lookup(headers, RequestHeaderField::ContentLength) {
        None => Ok(0nat),
        Some(v) => match parse_decimal(v) {
            Some(n) => if n <= usize::MAX {
                Ok(n)
            } else {
                Err("Could not parse Content-Length"@)
            },
            None => Err("Could not parse Content-Length"@),
        },
    }
}

/// What reading one token does to a state.
pub enum Progress {
    /// No complete token is at hand: the state waits for more octets.
    Stalled,
    /// The token is malformed.
    Failed(Seq<char>),
    /// The token was read, which leads to this state.
    Advanced(IncrementalRequestView),
}

/// Reads one line of the header section: a header line, or the empty line
/// that ends the section.
pub open spec fn header_step(
    line: RequestLineView,
    headers: Seq<(RequestHeaderField, Seq<u8>)>,
    pending: Seq<u8>,
) -> Progress {
    match first_match(pending, crlf()) {
        None => Progress::Stalled,
        Some(i) => if i == 0 {
            match body_length(headers) {
                Err(m) => Progress::Failed(m),
                Ok(n) => Progress::Advanced(
                    IncrementalRequestView::ReadingBody(
                        line,
                        headers,
                        Seq::empty(),
                        n,
                        pending.skip(2),
                    ),
                ),
            }
        } else {
            match spec_parse_header_line(pending.take(i)) {
                Err(m) => Progress::Failed(m),
                Ok((field, value)) => Progress::Advanced(
                    IncrementalRequestView::HaveHeaders(
                        line,
                        upsert(headers, field, value),
                        pending.skip(i + 2),
                    ),
                ),
            }
        },
    }
}

/// Moves as much of the unread octets into the body as the body still
/// lacks. What arrives beyond the announced length is dropped.
pub open spec fn body_step(
    line: RequestLineView,
    headers: Seq<(RequestHeaderField, Seq<u8>)>,
    body: Seq<u8>,
    remaining: nat,
    pending: Seq<u8>,
) -> IncrementalRequestView {
    if remaining <= pending.len() {
        IncrementalRequestView::Complete(
            RequestNoRemoteView {
                header: RequestHeaderView { request_line: line, header_lines: headers },
                body: body + pending.take(remaining as int),
            },
        )
    } else {
        IncrementalRequestView::ReadingBody(
            line,
            headers,
            body + pending,
            (remaining - pending.len()) as nat,
            Seq::empty(),
        )
    }
}

/// Reads the next token of the head from the unread octets.
pub open spec fn head_step(s: IncrementalRequestView) -> Progress {
    match s {
        IncrementalRequestView::Empty(p) => match first_match(p, crlf()) {
            None => Progress::Stalled,
            Some(i) => match spec_parse_request_line(p.take(i)) {
                Err(m) => Progress::Failed(m),
                Ok(line) => Progress::Advanced(
                    IncrementalRequestView::HaveRequestLine(line, p.skip(i + 2)),
                ),
            },
        },
        IncrementalRequestView::HaveRequestLine(l, p) => header_step(l, Seq::empty(), p),
        IncrementalRequestView::HaveHeaders(l, h, p) => header_step(l, h, p),
        _ => Progress::Stalled,
    }
}

/// Reads tokens from the unread octets of a state until none is complete.
pub open spec fn spec_advance(s: IncrementalRequestView) -> Result<
    IncrementalRequestView,
    Seq<char>,
>
    decreases pending_of(s).len(),
    via spec_advance_decreases
{
    match s {
        IncrementalRequestView::ReadingBody(l, h, b, n, p) => Ok(body_step(l, h, b, n, p)),
        IncrementalRequestView::Complete(_) => Ok(s),
        _ => match head_step(s) {
            Progress::Stalled => Ok(s),
            Progress::Failed(m) => Err(m),
            Progress::Advanced(next) => spec_advance(next),
        },
    }
}

#[via_fn]
proof fn spec_advance_decreases(s: IncrementalRequestView) {
    lemma_head_step_shrinks(s);
}

/// A token that is read leaves fewer octets unread.
pub proof fn lemma_head_step_shrinks(s: IncrementalRequestView)
    ensures
        head_step(s) matches Progress::Advanced(next) ==> pending_of(next).len() < pending_of(
            s,
        ).len(),
{
    lemma_first_match_sound(pending_of(s), crlf());
}

/// The incremental parser: the state that `state` reaches once `latest` has
/// arrived after what it already holds. A complete request accepts nothing
/// further.
pub open spec fn spec_parse(latest: Seq<u8>, state: IncrementalRequestView) -> Result<
    IncrementalRequestView,
    Seq<char>,
> {
    if state is Complete {
        Err("Tried to parse but incremental request was already full"@)
    } else {
        spec_advance(with_more(state, latest))
    }
}

fn feed(state: IncrementalRequest, latest: &[u8]) -> (r: IncrementalRequest)
    ensures
        r@ == with_more(state@, latest@),
{
    match state {
        IncrementalRequest::Empty(p) => {
            let mut p = p;
            append(&mut p, latest);
            IncrementalRequest::Empty(p)
        },
        IncrementalRequest::HaveRequestLine(l, p) => {
            let mut p = p;
            append(&mut p, latest);
            IncrementalRequest::HaveRequestLine(l, p)
        },
        IncrementalRequest::HaveHeaders(l, h, p) => {
            let mut p = p;
            append(&mut p, latest);
            IncrementalRequest::HaveHeaders(l, h, p)
        },
        IncrementalRequest::ReadingBody(l, h, b, n, p) => {
            let mut p = p;
            append(&mut p, latest);
            IncrementalRequest::ReadingBody(l, h, b, n, p)
        },
        IncrementalRequest::Complete(r) => IncrementalRequest::Complete(r),
    }
}

fn find_crlf(pending: &[u8]) -> (r: Option<usize>)
    ensures
        r is Some <==> first_match(pending@, crlf()) is Some,
        r matches Some(i) ==> first_match(pending@, crlf()) == Some(i as int) && i + 2
            <= pending@.len(),
{
    let pat: [u8; 2] = [13, 10];
    assert(pat@ =~= crlf());
    proof {
        lemma_first_match_sound(pending@, crlf());
    }
    find(pending, pat.as_slice())
}

/// What one step of the parser came to.
enum Stepped {
    /// The parser is done with what it holds.
    Done(Result<IncrementalRequest, Error>),
    /// A token of the head was read.
    Advanced(IncrementalRequest),
}

fn read_body(
    line: RequestLine,
    headers: RequestHeaders,
    body: Vec<u8>,
    remaining: usize,
    pending: Vec<u8>,
) -> (r: IncrementalRequest)
    ensures
        r@ == body_step(line@, headers@, body@, remaining as nat, pending@),
{
    let mut body = body;
    if remaining <= pending.len() {
        append(&mut body, vstd::slice::slice_subrange(pending.as_slice(), 0, remaining));
        IncrementalRequest::Complete(
            RequestNoRemote {
                header: RequestHeader { request_line: line, header_lines: headers },
                body,
            },
        )
    } else {
        let left: usize = remaining - pending.len();
        append(&mut body, pending.as_slice());
        IncrementalRequest::ReadingBody(line, headers, body, left, Vec::new())
    }
}

fn announced_length(headers: &RequestHeaders) -> (r: Result<usize, Error>)
    ensures
        match body_length(headers@) {
            Ok(n) => r == Ok::<usize, Error>(n as usize),
            Err(m) => r matches Err(e) && e@ == m,
        },
{
    match headers.get(RequestHeaderField::ContentLength) {
        None => Ok(0),
        Some(v) => match parse_usize(v.as_slice()) {
            Some(n) => Ok(n),
            None => Err(Error::of("Could not parse Content-Length")),
        },
    }
}

fn read_header(line: RequestLine, headers: RequestHeaders, pending: Vec<u8>, fresh: bool) -> (r:
    Stepped)
    requires
        fresh ==> headers@ == Seq::<(RequestHeaderField, Seq<u8>)>::empty(),
    ensures
        match header_step(line@, headers@, pending@) {
            Progress::Stalled => r matches Stepped::Done(Ok(s)) && s@ == (if fresh {
                IncrementalRequestView::HaveRequestLine(line@, pending@)
            } else {
                IncrementalRequestView::HaveHeaders(line@, headers@, pending@)
            }),
            Progress::Failed(m) => r matches Stepped::Done(Err(e)) && e@ == m,
            Progress::Advanced(next) => r matches Stepped::Advanced(s) && s@ == next,
        },
{
    match find_crlf(pending.as_slice()) {
        None => if fresh {
            Stepped::Done(Ok(IncrementalRequest::HaveRequestLine(line, pending)))
        } else {
            Stepped::Done(Ok(IncrementalRequest::HaveHeaders(line, headers, pending)))
        },
        Some(i) => {
            let n: usize = pending.len();
            let rest = to_vec(vstd::slice::slice_subrange(pending.as_slice(), i + 2, n));
            if i == 0 {
                match announced_length(&headers) {
                    Err(e) => Stepped::Done(Err(e)),
                    Ok(n) => Stepped::Advanced(
                        IncrementalRequest::ReadingBody(line, headers, Vec::new(), n, rest),
                    ),
                }
            } else {
                match parse_header_line(vstd::slice::slice_subrange(pending.as_slice(), 0, i)) {
                    Err(e) => Stepped::Done(Err(e)),
                    Ok((field, value)) => {
                        let mut headers = headers;
                        headers.insert(field, value);
                        Stepped::Advanced(IncrementalRequest::HaveHeaders(line, headers, rest))
                    },
                }
            }
        },
    }
}

fn step(state: IncrementalRequest) -> (r: Stepped)
    ensures
        match r {
            Stepped::Done(outcome) => agrees(outcome, spec_advance(state@)),
            Stepped::Advanced(next) => !(state@ is ReadingBody) && !(state@ is Complete)
                && head_step(state@) == Progress::Advanced(next@),
        },
{
    match state {
        IncrementalRequest::Empty(p) => match find_crlf(p.as_slice()) {
            None => Stepped::Done(Ok(IncrementalRequest::Empty(p))),
            Some(i) => {
                match parse_request_line(vstd::slice::slice_subrange(p.as_slice(), 0, i)) {
                    Err(e) => Stepped::Done(Err(e)),
                    Ok(line) => {
                        let n: usize = p.len();
                        let rest = to_vec(vstd::slice::slice_subrange(p.as_slice(), i + 2, n));
                        Stepped::Advanced(IncrementalRequest::HaveRequestLine(line, rest))
                    },
                }
            },
        },
        IncrementalRequest::HaveRequestLine(l, p) => read_header(l, FieldMap::new(), p, true),
        IncrementalRequest::HaveHeaders(l, h, p) => read_header(l, h, p, false),
        IncrementalRequest::ReadingBody(l, h, b, n, p) => Stepped::Done(
            Ok(read_body(l, h, b, n, p)),
        ),
        IncrementalRequest::Complete(r) => Stepped::Done(Ok(IncrementalRequest::Complete(r))),
    }
}

fn advance(state: IncrementalRequest) -> (r: Result<IncrementalRequest, Error>)
    ensures
        agrees(r, spec_advance(state@)),
{
    let ghost target = spec_advance(state@);
    let mut current = state;
    loop
        invariant
            spec_advance(current@) == target,
            target == spec_advance(state@),
        decreases pending_of(current@).len(),
    {
        proof {
            lemma_head_step_shrinks(current@);
        }
        match step(current) {
            Stepped::Done(outcome) => {
                return outcome;
            },
            Stepped::Advanced(next) => {
                current = next;
            },
        }
    }
}

/// The incremental request parser. Appends `latest` to what the state holds
/// unread and reads every token that is complete: the request line, header
/// lines, the empty line, and as much of the body as `Content-Length`
/// announces. It fails on a malformed token, and on a request that is
/// already complete.
pub fn try_parse_request(latest: &[u8], incremental_request: IncrementalRequest) -> (r: Result<
    IncrementalRequest,
    Error,
>)
    ensures
        agrees(r, spec_parse(latest@, incremental_request@)),
{
    if incremental_request.is_complete() {
        return Err(Error::of("Tried to parse but incremental request was already full"));
    }
    advance(feed(incremental_request, latest))
}

/// The header block of a response in insertion order, one entry per field.
pub type ResponseHeaders = FieldMap<ResponseHeaderField>;

/// The first line of a response.
#[derive(Debug)]
pub struct StatusLine {
    pub http_version: Vec<u8>,
    pub status_code: StatusCode,
}

/// A status line as a mathematical value.
pub struct StatusLineView {
    pub http_version: Seq<u8>,
    pub status_code: StatusCode,
}

impl View for StatusLine {
    type V = StatusLineView;

    open spec fn view(&self) -> StatusLineView {
        StatusLineView { http_version: self.http_version@, status_code: self.status_code }
    }
}

/// The status line and the header block of a response.
#[derive(Debug)]
pub struct ResponseHeader {
    pub status_line: StatusLine,
    pub header_lines: ResponseHeaders,
}

/// A response head as a mathematical value.
pub struct ResponseHeaderView {
    pub status_line: StatusLineView,
    pub header_lines: Seq<(ResponseHeaderField, Seq<u8>)>,
}

impl View for ResponseHeader {
    type V = ResponseHeaderView;

    open spec fn view(&self) -> ResponseHeaderView {
        ResponseHeaderView { status_line: self.status_line@, header_lines: self.header_lines@ }
    }
}

/// A response: head and body.
#[derive(Debug)]
pub struct Response {
    pub header: ResponseHeader,
    pub body: Vec<u8>,
}

/// A response as a mathematical value.
pub struct ResponseView {
    pub header: ResponseHeaderView,
    pub body: Seq<u8>,
}

impl View for Response {
    type V = ResponseView;

    open spec fn view(&self) -> ResponseView {
        ResponseView { header: self.header@, body: self.body@ }
    }
}

/// The text of a status line: version, status and line terminator.
pub open spec fn status_line_text(line: StatusLineView) -> Seq<u8> {
    line.http_version + sp() + ascii(line.status_code.reason()@) + crlf()
}

/// The text of one header line; the value is emitted trimmed.
pub open spec fn header_line_text(field: ResponseHeaderField, value: Seq<u8>) -> Seq<u8> {
    field.name() + ascii(": "@) + trim(value) + crlf()
}

/// The text of a header block: its lines in insertion order.
pub open spec fn header_lines_text(lines: Seq<(ResponseHeaderField, Seq<u8>)>) -> Seq<u8>
    decreases lines.len(),
{
    if lines.len() == 0 {
        Seq::empty()
    } else {
        header_lines_text(lines.drop_last()) + header_line_text(lines.last().0, lines.last().1)
    }
}

/// The text of a response head: the status line, then the header block.
pub open spec fn header_text(header: ResponseHeaderView) -> Seq<u8> {
    status_line_text(header.status_line) + header_lines_text(header.header_lines)
}

/// The text of a response that is sent whole: head, empty line, body, and
/// a closing line terminator.
pub open spec fn response_text(response: ResponseView) -> Seq<u8> {
    header_text(response.header) + crlf() + response.body + crlf()
}

/// The frame of one chunk: its length in lower-case hexadecimal, then the
/// octets, each followed by a line terminator.
pub open spec fn chunk_text(chunk: Seq<u8>) -> Seq<u8> {
    hex_digits(chunk.len()) + crlf() + chunk + crlf()
}

/// The frames of a body cut into chunks of `size` octets, the last one
/// being shorter where the length is no multiple of `size`.
pub open spec fn chunks_text(body: Seq<u8>, size: nat) -> Seq<u8>
    decreases body.len(),
{
    if body.len() == 0 || size == 0 {
        Seq::empty()
    } else if body.len() <= size {
        chunk_text(body)
    } else {
        chunk_text(body.take(size as int)) + chunks_text(body.skip(size as int), size)
    }
}

/// The head of a response that is sent in chunks: `Content-Length` leaves,
/// `Transfer-Encoding: chunked` comes in.
pub open spec fn chunked_header(header: ResponseHeaderView) -> ResponseHeaderView {
    ResponseHeaderView {
        status_line: header.status_line,
        header_lines: upsert(
            without(header.header_lines, ResponseHeaderField::ContentLength),
            ResponseHeaderField::TransferEncoding,
            ascii("chunked"@),
        ),
    }
}

/// The text of a response that is sent in chunks: head, empty line, the
/// frames of the body, and the frame of the empty chunk that ends it.
pub open spec fn chunked_text(response: ResponseView) -> Seq<u8> {
    header_text(chunked_header(response.header)) + crlf() + chunks_text(
        response.body,
        CHUNK_LEN as nat,
    ) + chunk_text(Seq::empty())
}

/// Whether a response is sent in chunks: unless its `Content-Length` is a
/// decimal numeral of at most `CHUNK_LEN`.
pub open spec fn sent_in_chunks(lines: Seq<(ResponseHeaderField, Seq<u8>)>) -> bool {
    match lookup(lines, ResponseHeaderField::ContentLength) {
        None => true,
        Some(v) => match parse_decimal(v) {
            None => true,
            Some(n) => n > CHUNK_LEN,
        },
    }
}

/// The octets that a response is put on the wire as.
pub open spec fn wire_text(response: ResponseView) -> Seq<u8> {
    if sent_in_chunks(response.header.header_lines) {
        chunked_text(response)
    } else {
        response_text(response)
    }
}

impl StatusLine {
    /// The text of the status line.
    pub fn to_string(&self) -> (r: Vec<u8>)
        ensures
            r@ == status_line_text(self@),
    {
        let mut out: Vec<u8> = Vec::new();
        append(&mut out, self.http_version.as_slice());
        out.push(32);
        append(&mut out, lit(self.status_code.reason_phrase()));
        out.push(13);
        out.push(10);
        assert(out@ =~= status_line_text(self@));
        out
    }
}

fn push_header_lines(out: &mut Vec<u8>, lines: &ResponseHeaders)
    ensures
        final(out)@ == old(out)@ + header_lines_text(lines@),
{
    proof {
        reveal_strlit(": ");
    }
    let n: usize = lines.len();
    let mut i: usize = 0;
    assert(lines@.take(0) =~= Seq::empty());
    assert(out@ =~= old(out)@ + header_lines_text(lines@.take(0)));
    while i < n
        invariant
            i <= n,
            n == lines@.len(),
            out@ == old(out)@ + header_lines_text(lines@.take(i as int)),
        decreases n - i,
    {
        let (field, value) = lines.entry(i);
        let ghost before = out@;
        let name = field.to_string();
        append(out, name.as_slice());
        out.push(58);
        out.push(32);
        append(out, trimmed(value.as_slice()));
        out.push(13);
        out.push(10);
        proof {
            reveal_strlit(": ");
            assert(ascii(": "@) =~= seq![58u8, 32u8]);
            assert(lines@.take(i + 1).drop_last() =~= lines@.take(i as int));
            assert(lines@.take(i + 1).last() == lines@[i as int]);
            assert(out@ =~= before + header_line_text(field, value@));
            assert(out@ =~= old(out)@ + header_lines_text(lines@.take(i + 1)));
        }
        i += 1;
    }
    assert(lines@.take(n as int) =~= lines@);
}

impl ResponseHeader {
    /// The text of the head: the status line, then one line per header.
    pub fn to_string(&self) -> (r: Vec<u8>)
        ensures
            r@ == header_text(self@),
    {
        let mut out = self.status_line.to_string();
        push_header_lines(&mut out, &self.header_lines);
        out
    }
}

impl Response {
    /// The text of the response when it is sent whole.
    pub fn to_string(&self) -> (r: Vec<u8>)
        ensures
            r@ == response_text(self@),
    {
        let mut out = self.header.to_string();
        out.push(13);
        out.push(10);
        append(&mut out, self.body.as_slice());
        out.push(13);
        out.push(10);
        assert(out@ =~= response_text(self@));
        out
    }
}

fn write_chunk(chunk: &[u8], out: &mut Vec<u8>)
    ensures
        final(out)@ == old(out)@ + chunk_text(chunk@),
{
    push_hex(out, chunk.len());
    out.push(13);
    out.push(10);
    append(out, chunk);
    out.push(13);
    out.push(10);
    assert(out@ =~= old(out)@ + chunk_text(chunk@));
}

fn write_chunked(response: Response) -> (r: Vec<u8>)
    ensures
        r@ == chunked_text(response@),
{
    proof {
        reveal_strlit("chunked");
    }
    let Response { header, body } = response;
    let ResponseHeader { status_line, header_lines } = header;
    let mut header_lines = header_lines;
    header_lines.remove(ResponseHeaderField::ContentLength);
    header_lines.insert(ResponseHeaderField::TransferEncoding, to_vec(lit("chunked")));
    let mut out = status_line.to_string();
    push_header_lines(&mut out, &header_lines);
    out.push(13);
    out.push(10);
    let ghost head = out@;
    assert(head =~= header_text(chunked_header(response@.header)) + crlf());
    let n: usize = body.len();
    let mut k: usize = 0;
    assert(body@.skip(0) =~= body@);
    while n - k > CHUNK_LEN
        invariant
            k <= n,
            n == body@.len(),
            out@ + chunks_text(body@.skip(k as int), CHUNK_LEN as nat) == head + chunks_text(
                body@,
                CHUNK_LEN as nat,
            ),
        decreases n - k,
    {
        let ghost before = out@;
        let ghost rest = body@.skip(k as int);
        write_chunk(vstd::slice::slice_subrange(body.as_slice(), k, k + CHUNK_LEN), &mut out);
        proof {
            assert(rest.take(CHUNK_LEN as int) =~= body@.subrange(k as int, k + CHUNK_LEN));
            assert(rest.skip(CHUNK_LEN as int) =~= body@.skip(k + CHUNK_LEN));
            assert(before + chunks_text(rest, CHUNK_LEN as nat) =~= out@ + chunks_text(
                body@.skip(k + CHUNK_LEN),
                CHUNK_LEN as nat,
            ));
        }
        k += CHUNK_LEN;
    }
    if n - k > 0 {
        let ghost before = out@;
        write_chunk(vstd::slice::slice_subrange(body.as_slice(), k, n), &mut out);
        assert(body@.skip(k as int) =~= body@.subrange(k as int, n as int));
    }
    assert(out@ =~= head + chunks_text(body@, CHUNK_LEN as nat));
    let empty: Vec<u8> = Vec::new();
    write_chunk(empty.as_slice(), &mut out);
    assert(out@ =~= chunked_text(response@));
    out
}

fn chunking_wanted(lines: &ResponseHeaders) -> (r: bool)
    ensures
        r == sent_in_chunks(lines@),
{
    match lines.get(ResponseHeaderField::ContentLength) {
        None => true,
        Some(v) => match parse_usize(v.as_slice()) {
            None => true,
            Some(n) => n > CHUNK_LEN,
        },
    }
}

/// Serializes a response for the wire. A response whose `Content-Length`
/// is a numeral of at most `CHUNK_LEN` is sent whole; any other is sent
/// with chunked transfer encoding.
pub fn write_response(response: Response) -> (r: Vec<u8>)
    ensures
        r@ == wire_text(response@),
{
    if chunking_wanted(&response.header.header_lines) {
        write_chunked(response)
    } else {
        response.to_string()
    }
}

/// A response with the given status, no headers and no body.
pub fn error_response(status_code: StatusCode) -> (r: Response)
    ensures
        r@ == (ResponseView {
            header: ResponseHeaderView {
                status_line: StatusLineView { http_version: http_version(), status_code },
                header_lines: Seq::empty(),
            },
            body: Seq::empty(),
        }),
{
    proof {
        reveal_strlit("HTTP/1.1");
    }
    Response {
        header: ResponseHeader {
            status_line: StatusLine { http_version: to_vec(lit("HTTP/1.1")), status_code },
            header_lines: FieldMap::new(),
        },
        body: Vec::new(),
    }
}

/// A response in the course of being sent.
#[derive(Debug)]
pub enum IncrementalResponse {
    /// The response has not been serialized yet.
    Pending(Response),
    /// The octets that are still to be written.
    Serialized(Vec<u8>),
    /// Everything has been written.
    Done,
}

/// A response in the course of being sent, as a mathematical value.
pub enum IncrementalResponseView {
    Pending(ResponseView),
    Serialized(Seq<u8>),
    Done,
}

impl View for IncrementalResponse {
    type V = IncrementalResponseView;

    open spec fn view(&self) -> IncrementalResponseView {
        match self {
            IncrementalResponse::Pending(r) => IncrementalResponseView::Pending(r@),
            IncrementalResponse::Serialized(b) => IncrementalResponseView::Serialized(b@),
            IncrementalResponse::Done => IncrementalResponseView::Done,
        }
    }
}

} // verus!
