//! The CGI executor's two ends: the environment that a program is started
//! with, and the response that its output becomes. Running the program is
//! the embedding program's part.

use vstd::prelude::*;
use vstd::string::*;
use crate::config::{Directive, ServerConfig, ServerConfigView, VirtualHost};
use crate::error::{Error, HttpError};
use crate::fields::{lookup, upsert, FieldMap};
use crate::http::{
    http_version, response_field_of, Method, Request, Response, ResponseHeader,
    ResponseHeaderField, ResponseHeaderView, ResponseHeaders, ResponseView, StatusCode, StatusLine,
    StatusLineView,
};
use crate::numeric::{decimal_digits, push_decimal};
use crate::text::{ascii, cut, lemma_first_match_sound, lit, split_once, to_vec, trim, trimmed};

verus! {

/// The header block of a CGI response as a mathematical value.
pub type HeaderLinesView = Seq<(ResponseHeaderField, Seq<u8>)>;

/// The separator between the header section and the body of CGI output.
pub open spec fn blank_line() -> Seq<u8> {
    seq![10u8, 10u8]
}

/// The line feed between two header lines of CGI output.
pub open spec fn line_feed() -> Seq<u8> {
    seq![10u8]
}

/// The header section and the body of CGI output: what stands before and
/// after the first blank line. Without one, all of it is header section.
pub open spec fn spec_cgi_sections(s: Seq<u8>) -> (Seq<u8>, Seq<u8>) {
    match split_once(s, blank_line()) {
        Some((head, body)) => (head, body),
        None => (s, Seq::empty()),
    }
}

/// What a header line of CGI output says: a response field name, a colon,
/// and a value that is trimmed.
pub open spec fn spec_cgi_header_line(line: Seq<u8>) -> Option<(ResponseHeaderField, Seq<u8>)> {
    match split_once(line, seq![58u8]) {
        Some((name, value)) => match response_field_of(name) {
            Some(field) => Some((field, trim(value))),
            None => None,
        },
        None => None,
    }
}

/// The header lines of a header section, stored into `table` one after
/// the other. Every line must be a header line.
pub open spec fn spec_cgi_headers(block: Seq<u8>, table: HeaderLinesView) -> Option<
    HeaderLinesView,
>
    decreases block.len(),
    via spec_cgi_headers_decreases
{
    match split_once(block, line_feed()) {
        Some((line, rest)) => match spec_cgi_header_line(line) {
            Some((field, value)) => spec_cgi_headers(rest, upsert(table, field, value)),
            None => None,
        },
        None => match spec_cgi_header_line(block) {
            Some((field, value)) => Some(upsert(table, field, value)),
            None => None,
        },
    }
}

#[via_fn]
proof fn spec_cgi_headers_decreases(block: Seq<u8>, table: HeaderLinesView) {
    lemma_first_match_sound(block, line_feed());
}

/// The header block and the body that CGI output denotes, if its header
/// section is well formed.
pub open spec fn spec_process_cgi_output(s: Seq<u8>) -> Option<(HeaderLinesView, Seq<u8>)> {
    match spec_cgi_headers(spec_cgi_sections(s).0, Seq::empty()) {
        Some(table) => Some((table, spec_cgi_sections(s).1)),
        None => None,
    }
}

fn cgi_header_line(line: &[u8]) -> (r: Option<(ResponseHeaderField, Vec<u8>)>)
    ensures
        r is Some <==> spec_cgi_header_line(line@) is Some,
        r matches Some(x) ==> spec_cgi_header_line(line@) == Some((x.0, x.1@)),
{
    let sep: [u8; 1] = [58];
    assert(sep@ =~= seq![58u8]);
    match cut(line, sep.as_slice()) {
        Some((name, value)) => match ResponseHeaderField::from_str(name) {
            Ok(field) => Some((field, to_vec(trimmed(value)))),
            Err(_) => None,
        },
        None => None,
    }
}

/// Splits the output of a CGI program into its header block and its body.
/// Fails where a line of the header section is no header line of a known
/// response field.
pub fn process_cgi_output(s: &[u8]) -> (r: Result<(ResponseHeaders, Vec<u8>), Error>)
    ensures
        match spec_process_cgi_output(s@) {
            Some((table, body)) => r matches Ok(x) && x.0@ == table && x.1@ == body,
            None => r matches Err(e) && e@ == "Could not parse headers from CGI response"@,
        },
{
    let blank: [u8; 2] = [10, 10];
    assert(blank@ =~= blank_line());
    let feed: [u8; 1] = [10];
    assert(feed@ =~= line_feed());
    let empty: Vec<u8> = Vec::new();
    let (head, body) = match cut(s, blank.as_slice()) {
        Some((head, body)) => (head, to_vec(body)),
        None => (s, empty),
    };
    let mut table: ResponseHeaders = FieldMap::new();
    let mut block: &[u8] = head;
    loop
        invariant
            feed@ == line_feed(),
            head@ == spec_cgi_sections(s@).0,
            body@ == spec_cgi_sections(s@).1,
            spec_cgi_headers(block@, table@) == spec_cgi_headers(head@, Seq::empty()),
        decreases block@.len(),
    {
        proof {
            lemma_first_match_sound(block@, line_feed());
        }
        match cut(block, feed.as_slice()) {
            Some((line, rest)) => match cgi_header_line(line) {
                Some((field, value)) => {
                    table.insert(field, value);
                    block = rest;
                },
                None => {
                    return Err(Error::of("Could not parse headers from CGI response"));
                },
            },
            None => match cgi_header_line(block) {
                Some((field, value)) => {
                    table.insert(field, value);
                    return Ok((table, body));
                },
                None => {
                    return Err(Error::of("Could not parse headers from CGI response"));
                },
            },
        }
    }
}

/// One variable of a CGI program's environment: name and value.
pub type Variable = (Vec<u8>, Vec<u8>);

/// The environment of a CGI program: the request's query string, the
/// peer's address, the request method, the name of the virtual host and
/// the port of the server, then protocol and software, which are empty.
pub open spec fn cgi_environment(
    query: Seq<u8>,
    remote: Seq<u8>,
    method: Method,
    server_name: Seq<u8>,
    server_port: Seq<u8>,
) -> Seq<(Seq<u8>, Seq<u8>)> {
    seq![
        (ascii("QUERY_STRING"@), query),
        (ascii("REMOTE_ADDR"@), remote),
        (ascii("REQUEST_METHOD"@), method.name()),
        (ascii("SERVER_NAME"@), server_name),
        (ascii("SERVER_PORT"@), server_port),
        (ascii("SERVER_PROTOCOL"@), Seq::empty()),
        (ascii("SERVER_SOFTWARE"@), Seq::empty()),
    ]
}

/// The variables of a list, each as a pair of octet strings.
pub open spec fn variables_view(v: Seq<Variable>) -> Seq<(Seq<u8>, Seq<u8>)> {
    Seq::new(v.len(), |i: int| (v[i].0@, v[i].1@))
}

/// The response that the output of a CGI program becomes: status 200, the
/// program's headers with `Content-Length` set to the length of the body
/// plus two, and the body.
pub open spec fn cgi_response(output: Seq<u8>) -> Option<ResponseView> {
    match spec_process_cgi_output(output) {
        Some((table, body)) => Some(
            ResponseView {
                header: ResponseHeaderView {
                    status_line: StatusLineView {
                        http_version: http_version(),
                        status_code: StatusCode::Success,
                    },
                    header_lines: upsert(
                        table,
                        ResponseHeaderField::ContentLength,
                        decimal_digits(body.len() + 2),
                    ),
                },
                body,
            },
        ),
        None => None,
    }
}

/// The CGI executor of a server.
#[derive(Debug)]
pub struct Cgi {
    server_config: ServerConfig,
}

impl Cgi {
    /// The configuration that the executor reads the server's port from.
    pub closed spec fn config(&self) -> ServerConfigView {
        self.server_config@
    }

    /// An executor for the server that `server_config` describes.
    pub fn new(server_config: ServerConfig) -> (r: Cgi)
        ensures
            r.config() == server_config@,
    {
        Cgi { server_config }
    }

    /// The environment to start a CGI program with for `request`. Fails
    /// with status 500 where the server has no `Listen` directive or the
    /// virtual host no `ServerName`.
    pub fn environment(&self, request: &Request, virtual_host: &VirtualHost) -> (r: Result<
        Vec<Variable>,
        HttpError,
    >)
        ensures
            match (
                lookup(self.config().directives, Directive::ListenPort),
                lookup(virtual_host@, Directive::ServerName),
            ) {
                (Some(port), Some(name)) => r matches Ok(v) && variables_view(v@)
                    == cgi_environment(
                    request.header.request_line.query_string@,
                    request.remote.addr@,
                    request.header.request_line.method,
                    name,
                    port,
                ),
                _ => r matches Err(e) && e.status == StatusCode::InternalServerError,
            },
    {
        proof {
            reveal_strlit("QUERY_STRING");
            reveal_strlit("REMOTE_ADDR");
            reveal_strlit("REQUEST_METHOD");
            reveal_strlit("SERVER_NAME");
            reveal_strlit("SERVER_PORT");
            reveal_strlit("SERVER_PROTOCOL");
            reveal_strlit("SERVER_SOFTWARE");
        }
        let port = match self.server_config.directives.get(Directive::ListenPort) {
            Some(port) => port,
            None => {
                return Err(HttpError::bare(StatusCode::InternalServerError));
            },
        };
        let name = match virtual_host.directives.get(Directive::ServerName) {
            Some(name) => name,
            None => {
                return Err(HttpError::bare(StatusCode::InternalServerError));
            },
        };
        let mut v: Vec<Variable> = Vec::new();
        v.push(
            (
                to_vec(lit("QUERY_STRING")),
                to_vec(request.header.request_line.query_string.as_slice()),
            ),
        );
        v.push((to_vec(lit("REMOTE_ADDR")), to_vec(request.remote.addr.as_slice())));
        v.push((to_vec(lit("REQUEST_METHOD")), request.header.request_line.method.to_string()));
        v.push((to_vec(lit("SERVER_NAME")), to_vec(name.as_slice())));
        v.push((to_vec(lit("SERVER_PORT")), to_vec(port.as_slice())));
        v.push((to_vec(lit("SERVER_PROTOCOL")), Vec::new()));
        v.push((to_vec(lit("SERVER_SOFTWARE")), Vec::new()));
        assert(variables_view(v@) =~= cgi_environment(
            request.header.request_line.query_string@,
            request.remote.addr@,
            request.header.request_line.method,
            name@,
            port@,
        ));
        Ok(v)
    }

    /// The response to a request that a CGI program handled, from what
    /// running the program came to: its output, or the reason why there is
    /// none. Output with a malformed header section, and a program that
    /// could not be run, answer 500.
    pub fn handle(&self, output: Result<Vec<u8>, String>) -> (r: Result<Response, HttpError>)
        ensures
            match output {
                Ok(bytes) => match cgi_response(bytes@) {
                    Some(v) => r matches Ok(x) && x@ == v,
                    None => r matches Err(e) && e.status == StatusCode::InternalServerError,
                },
                Err(m) => r matches Err(e) && e.status == StatusCode::InternalServerError
                    && e.message == Some(m),
            },
    {
        proof {
            reveal_strlit("HTTP/1.1");
        }
        let bytes = match output {
            Ok(bytes) => bytes,
            Err(m) => {
                return Err(HttpError { status: StatusCode::InternalServerError, message: Some(m) });
            },
        };
        match process_cgi_output(bytes.as_slice()) {
            Ok((table, body)) => {
                let mut header_lines = table;
                let mut length: Vec<u8> = Vec::new();
                push_decimal(&mut length, body.len() as u128 + 2);
                assert(length@ =~= decimal_digits(body@.len() + 2));
                header_lines.insert(ResponseHeaderField::ContentLength, length);
                Ok(
                    Response {
                        header: ResponseHeader {
                            status_line: StatusLine {
                                http_version: to_vec(lit("HTTP/1.1")),
                                status_code: StatusCode::Success,
                            },
                            header_lines,
                        },
                        body,
                    },
                )
            },
            Err(e) => Err(
                HttpError { status: StatusCode::InternalServerError, message: Some(e.message) },
            ),
        }
    }
}

} // verus!
