//! The host router: which virtual host a request belongs to, which file
//! it names, and how that file is answered. The router asks the embedding
//! program for what only the file system knows, one question at a time.

use vstd::prelude::*;
use vstd::string::*;
use crate::cgi::{cgi_environment, cgi_response, variables_view, Cgi, Variable};
use crate::config::{
    hosts_view, Directive, DirectivesView, ServerConfig, ServerConfigView, VirtualHost,
};
use crate::error::HttpError;
use crate::fields::{lookup, upsert, FieldMap};
use crate::files::{
    cached_in, file_response, refuses, refuses_with, serves, CachedFile, FileRead,
    Files,
};
use crate::http::{
    error_response, http_version, Method, Request, RequestHeaderField, RequestView, Response,
    ResponseHeader, ResponseHeaderField, ResponseHeaderView, ResponseHeaders, ResponseView,
    StatusCode, StatusLine, StatusLineView,
};
use crate::numeric::{parse_decimal, parse_usize};
use crate::text::{append, ascii, bytes_eq, contains, first_match, lit, to_vec};
use crate::time::{now_1123, parse_date_1123, spec_date_1123, spec_parse_date_1123};

verus! {

/// The cache size, in kilobytes, of a server whose configuration names
/// none.
pub const DEFAULT_CACHE_SIZE: u32 = 1024;

/// The product token that every response names as its server.
pub open spec fn product() -> Seq<u8> {
    ascii("Rust/0.1"@)
}

/// The path that answers with the server's load.
pub open spec fn load_path() -> Seq<u8> {
    ascii("/load"@)
}

/// A response without body: the given status and `Content-Length: 0`.
pub open spec fn empty_response(status_code: StatusCode) -> ResponseView {
    ResponseView {
        header: ResponseHeaderView {
            status_line: StatusLineView { http_version: http_version(), status_code },
            header_lines: seq![(ResponseHeaderField::ContentLength, seq![48u8])],
        },
        body: Seq::empty(),
    }
}

fn bodiless(status_code: StatusCode) -> (r: Response)
    ensures
        r@ == empty_response(status_code),
{
    proof {
        reveal_strlit("HTTP/1.1");
    }
    let mut header_lines: ResponseHeaders = FieldMap::new();
    let mut zero: Vec<u8> = Vec::new();
    zero.push(48);
    assert(zero@ =~= seq![48u8]);
    header_lines.insert(ResponseHeaderField::ContentLength, zero);
    assert(header_lines@ =~= seq![(ResponseHeaderField::ContentLength, seq![48u8])]);
    Response {
        header: ResponseHeader {
            status_line: StatusLine { http_version: to_vec(lit("HTTP/1.1")), status_code },
            header_lines,
        },
        body: Vec::new(),
    }
}

/// The status of the heartbeat: 503 for a server that is overloaded, 200
/// for any other.
pub open spec fn heartbeat_status(overloaded: bool) -> StatusCode {
    if overloaded {
        StatusCode::ServiceUnavailable
    } else {
        StatusCode::Success
    }
}

/// The answer to a request for the server's load.
pub fn heartbeat(overloaded: bool) -> (r: Result<Response, HttpError>)
    ensures
        r matches Ok(x) && x@ == empty_response(heartbeat_status(overloaded)),
{
    let status_code = if overloaded {
        StatusCode::ServiceUnavailable
    } else {
        StatusCode::Success
    };
    Ok(bodiless(status_code))
}

/// Whether a virtual host goes by the name `name`.
pub open spec fn is_named(host: DirectivesView, name: Seq<u8>) -> bool {
    lookup(host, Directive::ServerName) == Some(name)
}

/// The first virtual host at or after position `from` that goes by the
/// name `name`.
pub open spec fn first_named(hosts: Seq<DirectivesView>, name: Seq<u8>, from: int) -> Option<int>
    decreases hosts.len() - from,
{
    if from < 0 || from >= hosts.len() {
        None
    } else if is_named(hosts[from], name) {
        Some(from)
    } else {
        first_named(hosts, name, from + 1)
    }
}

/// The virtual host that serves requests for `name`: the first one of that
/// name, or the first one of all where none has it. Without any virtual
/// host there is none.
pub open spec fn select_host(hosts: Seq<DirectivesView>, name: Seq<u8>) -> Option<int> {
    match first_named(hosts, name, 0) {
        Some(i) => Some(i),
        None => if hosts.len() > 0 {
            Some(0int)
        } else {
            None
        },
    }
}

/// The position of the virtual host that serves requests for `host`.
pub fn select_virtual_host(virtual_hosts: &Vec<VirtualHost>, host: &[u8]) -> (r: Option<usize>)
    ensures
        r is Some <==> select_host(hosts_view(virtual_hosts@), host@) is Some,
        r matches Some(i) ==> select_host(hosts_view(virtual_hosts@), host@) == Some(i as int) && i
            < virtual_hosts@.len(),
{
    let ghost hosts = hosts_view(virtual_hosts@);
    let mut i: usize = 0;
    while i < virtual_hosts.len()
        invariant
            i <= virtual_hosts@.len(),
            hosts == hosts_view(virtual_hosts@),
            first_named(hosts, host@, 0) == first_named(hosts, host@, i as int),
        decreases virtual_hosts.len() - i,
    {
        match virtual_hosts[i].directives.get(Directive::ServerName) {
            Some(name) => {
                if bytes_eq(name.as_slice(), host) {
                    return Some(i);
                }
            },
            None => {},
        }
        i += 1;
    }
    if virtual_hosts.len() > 0 {
        Some(0)
    } else {
        None
    }
}

/// The virtual host that serves requests for `host`.
pub fn get_virtual_host<'a>(virtual_hosts: &'a Vec<VirtualHost>, host: &[u8]) -> (r: Option<
    &'a VirtualHost,
>)
    ensures
        r is Some <==> select_host(hosts_view(virtual_hosts@), host@) is Some,
        r matches Some(v) ==> v@ == hosts_view(virtual_hosts@)[select_host(
            hosts_view(virtual_hosts@),
            host@,
        )->0],
{
    match select_virtual_host(virtual_hosts, host) {
        Some(i) => Some(&virtual_hosts[i]),
        None => None,
    }
}

/// A request path without the slashes it begins with.
pub open spec fn strip_root(path: Seq<u8>) -> Seq<u8>
    decreases path.len(),
{
    if path.len() > 0 && path[0] == 47 {
        strip_root(path.skip(1))
    } else {
        path
    }
}

/// The path `relative` below the directory `root`.
pub open spec fn join(root: Seq<u8>, relative: Seq<u8>) -> Seq<u8> {
    if root.len() > 0 && root.last() == 47 {
        root + relative
    } else {
        root + seq![47u8] + relative
    }
}

/// The file that a request path names below the document root `root`,
/// before the file system has resolved it.
pub open spec fn target_path(root: Seq<u8>, request_path: Seq<u8>) -> Seq<u8> {
    join(root, strip_root(request_path))
}

/// Joins `relative` to the directory `root`.
pub fn join_path(root: &[u8], relative: &[u8]) -> (r: Vec<u8>)
    ensures
        r@ == join(root@, relative@),
{
    let mut out = to_vec(root);
    if !(root.len() > 0 && root[root.len() - 1] == 47) {
        out.push(47);
    }
    append(&mut out, relative);
    out
}

/// The path to resolve for a request path below the document root `root`.
pub fn unresolved_target(root: &[u8], request_path: &[u8]) -> (r: Vec<u8>)
    ensures
        r@ == target_path(root@, request_path@),
{
    let n: usize = request_path.len();
    let mut i: usize = 0;
    assert(request_path@.skip(0) =~= request_path@);
    while i < n && request_path[i] == 47
        invariant
            i <= n,
            n == request_path@.len(),
            strip_root(request_path@) == strip_root(request_path@.skip(i as int)),
        decreases n - i,
    {
        assert(request_path@.skip(i as int).skip(1) =~= request_path@.skip(i + 1));
        i += 1;
    }
    join_path(root, vstd::slice::slice_subrange(request_path, i, n))
}

/// Whether the canonical path `path` lies in the directory `root` or is
/// `root` itself: `root` is a prefix of it that ends where a component
/// ends.
pub open spec fn within(root: Seq<u8>, path: Seq<u8>) -> bool {
    root.is_prefix_of(path) && (path.len() == root.len() || path[root.len() as int] == 47 || (
    root.len() > 0 && root.last() == 47))
}

/// Whether the canonical path `path` lies in the directory `root`.
pub fn is_within(root: &[u8], path: &[u8]) -> (r: bool)
    ensures
        r == within(root@, path@),
{
    match crate::parse::discard_string(root, path) {
        Ok(rest) => {
            rest.len() == 0 || rest[0] == 47 || (root.len() > 0 && root[root.len() - 1] == 47)
        },
        Err(_) => false,
    }
}

/// The file that a request names, resolved by the file system, and
/// whether the request asked for a directory.
#[derive(Debug)]
pub struct RequestTarget {
    pub path: Vec<u8>,
    pub is_dir: bool,
}

/// Whether a request path asks for a directory: it ends with a slash.
pub open spec fn asks_directory(request_path: Seq<u8>) -> bool {
    request_path.len() > 0 && request_path.last() == 47
}

/// Judges the file that a request names. `canonical` is what the file
/// system resolved `target_path(root, request_target)` to. A path that
/// does not exist answers 404, one that leaves the document root 403.
pub fn parse_path(root: &[u8], request_target: &[u8], canonical: Option<Vec<u8>>) -> (r: Result<
    RequestTarget,
    HttpError,
>)
    ensures
        match canonical {
            None => refuses(r, StatusCode::NotFound),
            Some(path) => if within(root@, path@) {
                r matches Ok(t) && t.path@ == path@ && t.is_dir == asks_directory(
                    request_target@,
                )
            } else {
                refuses(r, StatusCode::Forbidden)
            },
        },
{
    let is_dir = request_target.len() > 0 && request_target[request_target.len() - 1] == 47;
    let path = match canonical {
        Some(path) => path,
        None => {
            return Err(HttpError::bare(StatusCode::NotFound));
        },
    };
    if !is_within(root, path.as_slice()) {
        return Err(HttpError::bare(StatusCode::Forbidden));
    }
    Ok(RequestTarget { path, is_dir })
}

/// Whether a user agent is a mobile one: its name holds `iPhone` or
/// `Mobile`.
pub open spec fn is_mobile(user_agent: Seq<u8>) -> bool {
    first_match(user_agent, ascii("iPhone"@)) is Some || first_match(
        user_agent,
        ascii("Mobile"@),
    ) is Some
}

/// Whether the header block of a request names a mobile user agent.
pub open spec fn wants_mobile(headers: Seq<(RequestHeaderField, Seq<u8>)>) -> bool {
    match lookup(headers, RequestHeaderField::UserAgent) {
        Some(agent) => is_mobile(agent),
        None => false,
    }
}

/// The index file of a directory for mobile user agents.
pub open spec fn mobile_index(directory: Seq<u8>) -> Seq<u8> {
    join(directory, ascii("index_m.html"@))
}

/// The index file of a directory.
pub open spec fn index(directory: Seq<u8>) -> Seq<u8> {
    join(directory, ascii("index.html"@))
}

/// What the file system says of a path that exists.
#[derive(Clone, Copy, Debug)]
pub struct Metadata {
    /// Whether the path is a directory.
    pub is_dir: bool,
    /// The permission bits.
    pub mode: u32,
    /// The time of the last modification, in seconds since the Unix epoch.
    pub modified: i64,
}

/// Whether a file is a CGI program: anyone may execute it.
pub open spec fn is_program(mode: u32) -> bool {
    mode & 1 == 1
}

/// Where the router stands with a request: what it has asked for and not
/// yet been told. `host` is the position of the request's virtual host.
#[derive(Debug)]
pub enum Routing {
    /// The canonical form of the document root.
    Root { host: usize },
    /// The canonical form of the request's target below the document root.
    Target { host: usize, root: Vec<u8> },
    /// The metadata of a directory's index for mobile user agents.
    MobileIndex { host: usize, directory: Vec<u8> },
    /// The metadata of the file to answer with.
    Metadata { host: usize, path: Vec<u8> },
    /// The content of the file to serve.
    Content { path: Vec<u8> },
    /// The output of the CGI program.
    Program,
}

/// A question of the router to the embedding program.
#[derive(Debug)]
pub enum Lookup {
    /// Resolve this path to its canonical, absolute form.
    Canonicalize(Vec<u8>),
    /// Report the metadata of this path.
    Metadata(Vec<u8>),
    /// Read this file, and report when it was last modified.
    Read(Vec<u8>),
    /// Run this program with this environment and standard input, and
    /// report what it writes to standard output.
    Run { program: Vec<u8>, environment: Vec<Variable>, input: Vec<u8> },
}

/// The embedding program's answer to a question of the router.
#[derive(Debug)]
pub enum Found {
    /// The canonical form of the path; `None` where it cannot be resolved.
    Canonical(Option<Vec<u8>>),
    /// The metadata of the path; `None` where there is none to be had.
    Metadata(Option<Metadata>),
    /// What reading the file came to.
    Read(FileRead),
    /// What the program wrote, or why it could not be run.
    Output(Result<Vec<u8>, String>),
}

/// What the router does next.
#[derive(Debug)]
pub enum Step {
    /// It asks a question, and stands in the given state until the answer.
    Ask(Routing, Lookup),
    /// It is done: with a response, or a status to answer with.
    Done(Result<Response, HttpError>),
}

/// The router's state as a mathematical value.
pub enum RoutingView {
    Root { host: int },
    Target { host: int, root: Seq<u8> },
    MobileIndex { host: int, directory: Seq<u8> },
    Metadata { host: int, path: Seq<u8> },
    Content { path: Seq<u8> },
    Program,
}

/// A question of the router as a mathematical value.
pub enum LookupView {
    Canonicalize(Seq<u8>),
    Metadata(Seq<u8>),
    Read(Seq<u8>),
    Run { program: Seq<u8>, environment: Seq<(Seq<u8>, Seq<u8>)>, input: Seq<u8> },
}

/// What reading a file came to, as a mathematical value.
pub enum FileReadView {
    Content(Seq<u8>, i64),
    NotFound,
    Failed,
}

/// An answer to the router as a mathematical value.
pub enum FoundView {
    Canonical(Option<Seq<u8>>),
    Metadata(Option<Metadata>),
    Read(FileReadView),
    Output(Option<Seq<u8>>),
}

/// The router's next step as a mathematical value: a question, a response,
/// or a status to answer with.
pub enum StepView {
    Ask(RoutingView, LookupView),
    Answer(ResponseView),
    Refuse(StatusCode),
}

impl View for Routing {
    type V = RoutingView;

    open spec fn view(&self) -> RoutingView {
        match self {
            Routing::Root { host } => RoutingView::Root { host: *host as int },
            Routing::Target { host, root } => RoutingView::Target {
                host: *host as int,
                root: root@,
            },
            Routing::MobileIndex { host, directory } => RoutingView::MobileIndex {
                host: *host as int,
                directory: directory@,
            },
            Routing::Metadata { host, path } => RoutingView::Metadata {
                host: *host as int,
                path: path@,
            },
            Routing::Content { path } => RoutingView::Content { path: path@ },
            Routing::Program => RoutingView::Program,
        }
    }
}

impl View for Lookup {
    type V = LookupView;

    open spec fn view(&self) -> LookupView {
        match self {
            Lookup::Canonicalize(p) => LookupView::Canonicalize(p@),
            Lookup::Metadata(p) => LookupView::Metadata(p@),
            Lookup::Read(p) => LookupView::Read(p@),
            Lookup::Run { program, environment, input } => LookupView::Run {
                program: program@,
                environment: variables_view(environment@),
                input: input@,
            },
        }
    }
}

impl View for FileRead {
    type V = FileReadView;

    open spec fn view(&self) -> FileReadView {
        match self {
            FileRead::Content(file) => FileReadView::Content(file.content@, file.modified),
            FileRead::NotFound(_) => FileReadView::NotFound,
            FileRead::Failed(_) => FileReadView::Failed,
        }
    }
}

impl View for Found {
    type V = FoundView;

    open spec fn view(&self) -> FoundView {
        match self {
            Found::Canonical(Some(p)) => FoundView::Canonical(Some(p@)),
            Found::Canonical(None) => FoundView::Canonical(None),
            Found::Metadata(m) => FoundView::Metadata(*m),
            Found::Read(r) => FoundView::Read(r@),
            Found::Output(Ok(bytes)) => FoundView::Output(Some(bytes@)),
            Found::Output(Err(_)) => FoundView::Output(None),
        }
    }
}

impl View for Step {
    type V = StepView;

    open spec fn view(&self) -> StepView {
        match self {
            Step::Ask(state, lookup) => StepView::Ask(state@, lookup@),
            Step::Done(Ok(response)) => StepView::Answer(response@),
            Step::Done(Err(e)) => StepView::Refuse(e.status),
        }
    }
}

/// The cache size, in kilobytes, that a configuration asks for: the value
/// of `CacheSize` where it is a numeral of 32 bits, else the default.
pub open spec fn cache_kilobytes(directives: DirectivesView) -> u32 {
    match lookup(directives, Directive::CacheSize) {
        Some(v) => match parse_decimal(v) {
            Some(n) => if n <= u32::MAX {
                n as u32
            } else {
                DEFAULT_CACHE_SIZE
            },
            None => DEFAULT_CACHE_SIZE,
        },
        None => DEFAULT_CACHE_SIZE,
    }
}

/// Whether a request asks for the server's load.
pub open spec fn asks_load(request: RequestView) -> bool {
    request.header.request_line.method == Method::Get && request.header.request_line.request_path
        == load_path()
}

/// The first step of the router: a request without `Host` is refused with
/// 400; a request for the server's load is answered at once; any other
/// needs the document root of its virtual host resolved.
pub open spec fn spec_handle_result(config: ServerConfigView, request: RequestView, overloaded: bool)
    -> StepView {
    match lookup(request.header.header_lines, RequestHeaderField::Host) {
        None => StepView::Refuse(StatusCode::BadRequest),
        Some(name) => match select_host(config.virtual_hosts, name) {
            None => StepView::Refuse(StatusCode::InternalServerError),
            Some(i) => if asks_load(request) {
                StepView::Answer(empty_response(heartbeat_status(overloaded)))
            } else {
                match lookup(config.virtual_hosts[i], Directive::DocumentRoot) {
                    None => StepView::Refuse(StatusCode::InternalServerError),
                    Some(root) => StepView::Ask(
                        RoutingView::Root { host: i },
                        LookupView::Canonicalize(root),
                    ),
                }
            },
        },
    }
}

/// The step that hands a request to the CGI program at `path`: it asks for
/// the program to be run with the request's environment and body. Where
/// the server has no port or the virtual host no name to put into the
/// environment, the request is refused with 500.
pub open spec fn spec_run_program(
    config: ServerConfigView,
    request: RequestView,
    host: int,
    path: Seq<u8>,
) -> StepView {
    match (
        lookup(config.directives, Directive::ListenPort),
        if 0 <= host < config.virtual_hosts.len() {
            lookup(config.virtual_hosts[host], Directive::ServerName)
        } else {
            None
        },
    ) {
        (Some(port), Some(name)) => StepView::Ask(
            RoutingView::Program,
            LookupView::Run {
                program: path,
                environment: cgi_environment(
                    request.header.request_line.query_string,
                    request.remote,
                    request.header.request_line.method,
                    name,
                    port,
                ),
                input: request.body,
            },
        ),
        _ => StepView::Refuse(StatusCode::InternalServerError),
    }
}

/// The step that asks for the metadata of the file to answer with.
pub open spec fn spec_probe(host: int, path: Seq<u8>) -> StepView {
    StepView::Ask(RoutingView::Metadata { host, path }, LookupView::Metadata(path))
}

/// The step after the target was resolved. A target that does not exist
/// is refused with 404, one outside the document root with 403. A `POST`
/// goes to the target as a CGI program. A `GET` for a directory looks for
/// its index, the mobile one first for a mobile user agent; any other
/// `GET` looks for the target itself.
pub open spec fn spec_after_target(
    config: ServerConfigView,
    request: RequestView,
    host: int,
    root: Seq<u8>,
    canonical: Option<Seq<u8>>,
) -> StepView {
    match canonical {
        None => StepView::Refuse(StatusCode::NotFound),
        Some(path) => if !within(root, path) {
            StepView::Refuse(StatusCode::Forbidden)
        } else {
            match request.header.request_line.method {
                Method::Post => spec_run_program(config, request, host, path),
                Method::Get => if asks_directory(request.header.request_line.request_path) {
                    if wants_mobile(request.header.header_lines) {
                        StepView::Ask(
                            RoutingView::MobileIndex { host, directory: path },
                            LookupView::Metadata(mobile_index(path)),
                        )
                    } else {
                        spec_probe(host, index(path))
                    }
                } else {
                    spec_probe(host, path)
                },
            }
        },
    }
}

/// The step that serves a static file: from the cache where it holds the
/// file, else by asking for the file's content.
pub open spec fn spec_serve(cache: Seq<CachedFile>, path: Seq<u8>) -> StepView {
    match cached_in(cache, path) {
        Some((content, modified)) => match file_response(path, content, modified) {
            Some(v) => StepView::Answer(v),
            None => StepView::Refuse(StatusCode::InternalServerError),
        },
        None => StepView::Ask(RoutingView::Content { path }, LookupView::Read(path)),
    }
}

/// The step after the metadata of the file to answer with is known. A
/// directory is refused with 404. A file that anyone may execute is run as
/// a CGI program. Any other file is answered with 304 where the request
/// names a date in `If-Modified-Since` that is not before the file's last
/// modification (400 where it names no date at all), and is served
/// otherwise.
pub open spec fn spec_handle_get(
    config: ServerConfigView,
    cache: Seq<CachedFile>,
    request: RequestView,
    host: int,
    path: Seq<u8>,
    metadata: Metadata,
) -> StepView {
    if metadata.is_dir {
        StepView::Refuse(StatusCode::NotFound)
    } else if is_program(metadata.mode) {
        spec_run_program(config, request, host, path)
    } else {
        match lookup(request.header.header_lines, RequestHeaderField::IfModifiedSince) {
            Some(since) => match spec_parse_date_1123(since) {
                Err(_) => StepView::Refuse(StatusCode::BadRequest),
                Ok(t) => if t.spec_timestamp() is Some && metadata.modified
                    <= t.spec_timestamp()->0 {
                    StepView::Answer(empty_response(StatusCode::NotModified))
                } else {
                    spec_serve(cache, path)
                },
            },
            None => spec_serve(cache, path),
        }
    }
}

/// The step after a file was read: served from the cache where it holds
/// the file, else from what was read. A file that is missing is refused
/// with 404, one that could not be read with 500.
pub open spec fn spec_get_content(cache: Seq<CachedFile>, path: Seq<u8>, read: FileReadView)
    -> StepView {
    match cached_in(cache, path) {
        Some((content, modified)) => match file_response(path, content, modified) {
            Some(v) => StepView::Answer(v),
            None => StepView::Refuse(StatusCode::InternalServerError),
        },
        None => match read {
            FileReadView::Content(content, modified) => match file_response(
                path,
                content,
                modified,
            ) {
                Some(v) => StepView::Answer(v),
                None => StepView::Refuse(StatusCode::InternalServerError),
            },
            FileReadView::NotFound => StepView::Refuse(StatusCode::NotFound),
            FileReadView::Failed => StepView::Refuse(StatusCode::InternalServerError),
        },
    }
}

/// The step that follows an answer. An answer that is none to the
/// question that was asked ends in 500.
pub open spec fn spec_resume(
    config: ServerConfigView,
    cache: Seq<CachedFile>,
    request: RequestView,
    state: RoutingView,
    found: FoundView,
) -> StepView {
    match (state, found) {
        (RoutingView::Root { host }, FoundView::Canonical(Some(root))) => StepView::Ask(
            RoutingView::Target { host, root },
            LookupView::Canonicalize(target_path(root, request.header.request_line.request_path)),
        ),
        (RoutingView::Target { host, root }, FoundView::Canonical(canonical)) => spec_after_target(
            config,
            request,
            host,
            root,
            canonical,
        ),
        (
            RoutingView::MobileIndex { host, directory },
            FoundView::Metadata(Some(m)),
        ) => spec_handle_get(config, cache, request, host, mobile_index(directory), m),
        (RoutingView::MobileIndex { host, directory }, FoundView::Metadata(None)) => spec_probe(
            host,
            index(directory),
        ),
        (RoutingView::Metadata { host, path }, FoundView::Metadata(Some(m))) => spec_handle_get(
            config,
            cache,
            request,
            host,
            path,
            m,
        ),
        (RoutingView::Metadata { host, path }, FoundView::Metadata(None)) => StepView::Refuse(
            StatusCode::NotFound,
        ),
        (RoutingView::Content { path }, FoundView::Read(read)) => spec_get_content(
            cache,
            path,
            read,
        ),
        (RoutingView::Program, FoundView::Output(Some(bytes))) => match cgi_response(bytes) {
            Some(v) => StepView::Answer(v),
            None => StepView::Refuse(StatusCode::InternalServerError),
        },
        _ => StepView::Refuse(StatusCode::InternalServerError),
    }
}

/// The cache after an answer: a file that was read, and that the cache
/// did not hold, has entered it.
pub open spec fn spec_cache_after(cache: Seq<CachedFile>, state: RoutingView, found: FoundView)
    -> Seq<CachedFile> {
    match (state, found) {
        (
            RoutingView::Content { path },
            FoundView::Read(FileReadView::Content(content, modified)),
        ) => if cached_in(cache, path) is None {
            cache.push((path, content, modified))
        } else {
            cache
        },
        _ => cache,
    }
}

/// The host router of a server, with the file cache and the CGI executor
/// that it answers from.
#[derive(Debug)]
pub struct Host {
    server_config: ServerConfig,
    cgi: Cgi,
    files: Files,
}

fn refuse(status: StatusCode) -> (r: Step)
    ensures
        r@ == StepView::Refuse(status),
{
    Step::Done(Err(HttpError::bare(status)))
}

fn probe(host: usize, path: Vec<u8>) -> (r: Step)
    ensures
        r@ == spec_probe(host as int, path@),
{
    let asked = to_vec(path.as_slice());
    Step::Ask(Routing::Metadata { host, path }, Lookup::Metadata(asked))
}

impl Host {
    /// The configuration that the router serves.
    pub closed spec fn config(&self) -> ServerConfigView {
        self.server_config@
    }

    /// The files that the router's cache holds, oldest first.
    pub closed spec fn cache(&self) -> Seq<CachedFile> {
        self.files.entries()
    }

    /// The number of octets that the router's cache was laid out for.
    pub closed spec fn cache_capacity(&self) -> usize {
        self.files.capacity()
    }

    spec fn well_formed(&self) -> bool {
        self.cgi.config() == self.server_config@
    }

    #[verifier::type_invariant]
    spec fn type_invariant(&self) -> bool {
        self.well_formed()
    }

    /// A router for the server that `server_config` describes, with an
    /// empty cache of the size that the configuration asks for.
    pub fn new(server_config: ServerConfig) -> (r: Host)
        ensures
            r.config() == server_config@,
            r.cache() == Seq::<CachedFile>::empty(),
            r.cache_capacity() == crate::files::capacity_for(
                cache_kilobytes(server_config@.directives),
            ),
    {
        let cache_size: u32 = match server_config.directives.get(Directive::CacheSize) {
            Some(v) => match parse_usize(v.as_slice()) {
                Some(n) => if n <= 0xffff_ffff {
                    n as u32
                } else {
                    DEFAULT_CACHE_SIZE
                },
                None => DEFAULT_CACHE_SIZE,
            },
            None => DEFAULT_CACHE_SIZE,
        };
        let files = Files::new(cache_size);
        let cgi = Cgi::new(server_config.clone());
        Host { server_config, cgi, files }
    }

    fn run_program(&self, request: &Request, host: usize, path: Vec<u8>) -> (r: Step)
        ensures
            r@ == spec_run_program(self.config(), request@, host as int, path@),
    {
        proof {
            use_type_invariant(self);
        }
        if host >= self.server_config.virtual_hosts.len() {
            return refuse(StatusCode::InternalServerError);
        }
        match self.cgi.environment(request, &self.server_config.virtual_hosts[host]) {
            Ok(environment) => Step::Ask(
                Routing::Program,
                Lookup::Run { program: path, environment, input: to_vec(request.body.as_slice()) },
            ),
            Err(e) => Step::Done(Err(e)),
        }
    }

    fn get_content(&mut self, path: Vec<u8>, read: Option<FileRead>) -> (r: Result<
        Response,
        HttpError,
    >)
        ensures
            final(self).config() == old(self).config(),
            final(self).cache_capacity() == old(self).cache_capacity(),
            match cached_in(old(self).cache(), path@) {
                Some((content, modified)) => final(self).cache() == old(self).cache() && serves(
                    r,
                    file_response(path@, content, modified),
                ),
                None => match read {
                    Some(FileRead::Content(file)) => final(self).cache() == old(self).cache().push(
                        (path@, file.content@, file.modified),
                    ) && serves(r, file_response(path@, file.content@, file.modified)),
                    Some(FileRead::NotFound(m)) => final(self).cache() == old(self).cache()
                        && refuses_with(r, StatusCode::NotFound, m),
                    Some(FileRead::Failed(m)) => final(self).cache() == old(self).cache()
                        && refuses_with(r, StatusCode::InternalServerError, m),
                    None => final(self).cache() == old(self).cache() && refuses(
                        r,
                        StatusCode::InternalServerError,
                    ),
                },
            },
    {
        proof {
            use_type_invariant(&*self);
        }
        let mut files = Files::new(0);
        std::mem::swap(&mut self.files, &mut files);
        let r = files.get_content(path, read);
        std::mem::swap(&mut self.files, &mut files);
        r
    }

    fn serve(&mut self, path: Vec<u8>) -> (r: Step)
        ensures
            r@ == spec_serve(old(self).cache(), path@),
            final(self).cache() == old(self).cache(),
            final(self).config() == old(self).config(),
            final(self).cache_capacity() == old(self).cache_capacity(),
    {
        proof {
            use_type_invariant(&*self);
        }
        if self.files.is_cached(path.as_slice()) {
            Step::Done(self.get_content(path, None))
        } else {
            let asked = to_vec(path.as_slice());
            Step::Ask(Routing::Content { path }, Lookup::Read(asked))
        }
    }

    /// The first step of routing `request`: refuses a request without
    /// `Host`, answers a request for the server's load, and asks for the
    /// document root of any other request's virtual host.
    pub fn handle_result(&self, request: &Request, overloaded: bool) -> (r: Step)
        ensures
            r@ == spec_handle_result(self.config(), request@, overloaded),
    {
        proof {
            reveal_strlit("/load");
        }
        let name = match request.header.header_lines.get(RequestHeaderField::Host) {
            Some(name) => name,
            None => {
                return refuse(StatusCode::BadRequest);
            },
        };
        let host = match select_virtual_host(&self.server_config.virtual_hosts, name.as_slice()) {
            Some(host) => host,
            None => {
                return refuse(StatusCode::InternalServerError);
            },
        };
        let is_get = match request.header.request_line.method {
            Method::Get => true,
            Method::Post => false,
        };
        if is_get && bytes_eq(request.header.request_line.request_path.as_slice(), lit("/load")) {
            return Step::Done(heartbeat(overloaded));
        }
        match self.server_config.virtual_hosts[host].directives.get(Directive::DocumentRoot) {
            Some(root) => Step::Ask(
                Routing::Root { host },
                Lookup::Canonicalize(to_vec(root.as_slice())),
            ),
            None => Step::Done(
                Err(
                    HttpError {
                        status: StatusCode::InternalServerError,
                        message: Some(
                            String::from_str("Could not determine document root for virtual host"),
                        ),
                    },
                ),
            ),
        }
    }

    /// The step after the file to answer a `GET` with was found.
    pub fn handle_get(&mut self, request: &Request, host: usize, path: Vec<u8>, metadata: Metadata)
        -> (r: Step)
        ensures
            r@ == spec_handle_get(
                old(self).config(),
                old(self).cache(),
                request@,
                host as int,
                path@,
                metadata,
            ),
            final(self).cache() == old(self).cache(),
            final(self).config() == old(self).config(),
            final(self).cache_capacity() == old(self).cache_capacity(),
    {
        if metadata.is_dir {
            return refuse(StatusCode::NotFound);
        }
        if metadata.mode & 1 == 1 {
            return self.run_program(request, host, path);
        }
        match request.header.header_lines.get(RequestHeaderField::IfModifiedSince) {
            Some(since) => match parse_date_1123(since.as_slice()) {
                Err(e) => Step::Done(
                    Err(HttpError { status: StatusCode::BadRequest, message: Some(e.message) }),
                ),
                Ok(t) => {
                    let unchanged = match t.timestamp() {
                        Some(since) => !Files::modified_since(metadata.modified, since),
                        None => false,
                    };
                    if unchanged {
                        Step::Done(Ok(bodiless(StatusCode::NotModified)))
                    } else {
                        self.serve(path)
                    }
                },
            },
            None => self.serve(path),
        }
    }

    /// The step after the target of a `POST` was resolved: the target is
    /// run as a CGI program.
    pub fn handle_post(&self, request: &Request, host: usize, path: Vec<u8>) -> (r: Step)
        ensures
            r@ == spec_run_program(self.config(), request@, host as int, path@),
    {
        self.run_program(request, host, path)
    }

    /// The step after the request's target was resolved: which file to
    /// look at for a `GET`, and the program to run for a `POST`.
    pub fn content_negotiation(
        &self,
        request: &Request,
        host: usize,
        root: &[u8],
        canonical: Option<Vec<u8>>,
    ) -> (r: Step)
        ensures
            r@ == spec_after_target(
                self.config(),
                request@,
                host as int,
                root@,
                match canonical {
                    Some(p) => Some(p@),
                    None => None,
                },
            ),
    {
        proof {
            reveal_strlit("iPhone");
            reveal_strlit("Mobile");
            reveal_strlit("index_m.html");
            reveal_strlit("index.html");
        }
        let target = match parse_path(
            root,
            request.header.request_line.request_path.as_slice(),
            canonical,
        ) {
            Ok(target) => target,
            Err(e) => {
                return Step::Done(Err(e));
            },
        };
        match request.header.request_line.method {
            Method::Post => self.handle_post(request, host, target.path),
            Method::Get => {
                if target.is_dir {
                    let mobile = match request.header.header_lines.get(
                        RequestHeaderField::UserAgent,
                    ) {
                        Some(agent) => contains(agent.as_slice(), lit("iPhone")) || contains(
                            agent.as_slice(),
                            lit("Mobile"),
                        ),
                        None => false,
                    };
                    if mobile {
                        let asked = join_path(target.path.as_slice(), lit("index_m.html"));
                        Step::Ask(
                            Routing::MobileIndex { host, directory: target.path },
                            Lookup::Metadata(asked),
                        )
                    } else {
                        probe(host, join_path(target.path.as_slice(), lit("index.html")))
                    }
                } else {
                    probe(host, target.path)
                }
            },
        }
    }

    /// The step that follows the answer `found` to the question that led
    /// to `state`.
    pub fn resume(&mut self, request: &Request, state: Routing, found: Found) -> (r: Step)
        ensures
            r@ == spec_resume(old(self).config(), old(self).cache(), request@, state@, found@),
            final(self).cache() == spec_cache_after(old(self).cache(), state@, found@),
            final(self).config() == old(self).config(),
            final(self).cache_capacity() == old(self).cache_capacity(),
    {
        proof {
            reveal_strlit("index_m.html");
            reveal_strlit("index.html");
            use_type_invariant(&*self);
        }
        match (state, found) {
            (Routing::Root { host }, Found::Canonical(Some(root))) => {
                let asked = unresolved_target(
                    root.as_slice(),
                    request.header.request_line.request_path.as_slice(),
                );
                Step::Ask(Routing::Target { host, root }, Lookup::Canonicalize(asked))
            },
            (Routing::Root { host: _ }, Found::Canonical(None)) => Step::Done(
                Err(
                    HttpError {
                        status: StatusCode::InternalServerError,
                        message: Some(
                            String::from_str("Could not determine document root for virtual host"),
                        ),
                    },
                ),
            ),
            (Routing::Target { host, root }, Found::Canonical(canonical)) => {
                self.content_negotiation(request, host, root.as_slice(), canonical)
            },
            (Routing::MobileIndex { host, directory }, Found::Metadata(Some(m))) => {
                let path = join_path(directory.as_slice(), lit("index_m.html"));
                self.handle_get(request, host, path, m)
            },
            (Routing::MobileIndex { host, directory }, Found::Metadata(None)) => probe(
                host,
                join_path(directory.as_slice(), lit("index.html")),
            ),
            (Routing::Metadata { host, path }, Found::Metadata(Some(m))) => {
                self.handle_get(request, host, path, m)
            },
            (Routing::Metadata { host: _, path: _ }, Found::Metadata(None)) => refuse(
                StatusCode::NotFound,
            ),
            (Routing::Content { path }, Found::Read(read)) => Step::Done(
                self.get_content(path, Some(read)),
            ),
            (Routing::Program, Found::Output(Ok(bytes))) => Step::Done(self.cgi.handle(Ok(bytes))),
            (Routing::Program, Found::Output(Err(m))) => Step::Done(self.cgi.handle(Err(m))),
            _ => refuse(StatusCode::InternalServerError),
        }
    }

    /// The response that goes out for what routing came to: the response
    /// itself, or an empty one with the status of the failure; with the
    /// server's product token, and with the date of `now` (in seconds
    /// since the Unix epoch) where it has an RFC 1123 form.
    pub fn handle(&self, outcome: Result<Response, HttpError>, now: i64) -> (r: Response)
        ensures
            r@ == finished(
                match outcome {
                    Ok(response) => response@,
                    Err(e) => failure_response(e.status),
                },
                now,
            ),
    {
        proof {
            reveal_strlit("Rust/0.1");
        }
        let mut response = match outcome {
            Ok(response) => response,
            Err(e) => error_response(e.status),
        };
        response.header.header_lines.insert(ResponseHeaderField::Server, to_vec(lit("Rust/0.1")));
        match now_1123(now) {
            Some(date) => {
                response.header.header_lines.insert(ResponseHeaderField::Date, date);
            },
            None => {},
        }
        response
    }
}

/// The response to a request that failed with `status_code`: that status,
/// no headers and no body.
pub open spec fn failure_response(status_code: StatusCode) -> ResponseView {
    ResponseView {
        header: ResponseHeaderView {
            status_line: StatusLineView { http_version: http_version(), status_code },
            header_lines: Seq::empty(),
        },
        body: Seq::empty(),
    }
}

/// A response as it goes out: with the `Server` header, and with the
/// `Date` header of `now` where that instant has an RFC 1123 form.
pub open spec fn finished(response: ResponseView, now: i64) -> ResponseView {
    let with_server = upsert(response.header.header_lines, ResponseHeaderField::Server, product());
    ResponseView {
        header: ResponseHeaderView {
            status_line: response.header.status_line,
            header_lines: match spec_date_1123(now) {
                Some(text) => upsert(with_server, ResponseHeaderField::Date, text),
                None => with_server,
            },
        },
        body: response.body,
    }
}

} // verus!
