use httpd::config::parse_server_config;
use httpd::files::{serve_file, File, FileRead, Files};
use httpd::host::{
    get_virtual_host, heartbeat, is_within, join_path, parse_path, select_virtual_host,
    unresolved_target, Found, Host, Lookup, Metadata, Routing, Step,
};
use httpd::http::{
    try_parse_request, write_response, IncrementalRequest, Request, Response, ResponseHeaderField,
    StatusCode,
};

const CONFIG: &[u8] = b"Listen 8080\n<VirtualHost>\nServerName example.local\nDocumentRoot /www\n</VirtualHost>\n<VirtualHost>\nServerName other.local\nDocumentRoot /srv/other/\n</VirtualHost>\n";

const MTIME: i64 = 1672531200;

struct Entry {
    path: &'static str,
    is_dir: bool,
    mode: u32,
    content: &'static [u8],
}

const DISK: [Entry; 12] = [
    Entry { path: "/", is_dir: true, mode: 0o755, content: b"" },
    Entry { path: "/etc", is_dir: true, mode: 0o755, content: b"" },
    Entry { path: "/etc/passwd", is_dir: false, mode: 0o644, content: b"root" },
    Entry { path: "/var", is_dir: true, mode: 0o755, content: b"" },
    Entry { path: "/www", is_dir: true, mode: 0o755, content: b"" },
    Entry { path: "/www/hello.txt", is_dir: false, mode: 0o644, content: b"hello\n" },
    Entry { path: "/www/index.html", is_dir: false, mode: 0o644, content: b"<p>hi</p>" },
    Entry { path: "/www/index_m.html", is_dir: false, mode: 0o644, content: b"<p>m</p>" },
    Entry { path: "/www/run.cgi", is_dir: false, mode: 0o755, content: b"" },
    Entry { path: "/www/docs", is_dir: true, mode: 0o755, content: b"" },
    Entry { path: "/www/docs/index.html", is_dir: false, mode: 0o644, content: b"docs" },
    Entry { path: "/www2", is_dir: true, mode: 0o755, content: b"" },
];

fn entry(path: &[u8]) -> Option<&'static Entry> {
    DISK.iter().find(|e| e.path.as_bytes() == path)
}

fn canonical(path: &[u8]) -> Option<Vec<u8>> {
    let mut parts: Vec<&[u8]> = Vec::new();
    for part in path.split(|b| *b == b'/') {
        if part.is_empty() || part == b"." {
            continue;
        }
        if part == b".." {
            parts.pop();
        } else {
            parts.push(part);
        }
    }
    let mut out = Vec::new();
    for part in &parts {
        out.push(b'/');
        out.extend_from_slice(part);
    }
    if out.is_empty() {
        out.push(b'/');
    }
    entry(&out).map(|_| out)
}

fn answer(lookup: &Lookup) -> Found {
    match lookup {
        Lookup::Canonicalize(path) => Found::Canonical(canonical(path)),
        Lookup::Metadata(path) => Found::Metadata(
            entry(path).map(|e| Metadata { is_dir: e.is_dir, mode: e.mode, modified: MTIME }),
        ),
        Lookup::Read(path) => Found::Read(match entry(path) {
            Some(e) => FileRead::Content(File { content: e.content.to_vec(), modified: MTIME }),
            None => FileRead::NotFound("no such file".to_string()),
        }),
        Lookup::Run { program, environment, input } => {
            let mut out = b"Content-Type: text/plain\n\n".to_vec();
            out.extend_from_slice(program);
            out.push(b' ');
            out.extend_from_slice(&environment[0].1);
            out.push(b' ');
            out.extend_from_slice(input);
            Found::Output(Ok(out))
        }
    }
}

fn request(text: &[u8]) -> Request {
    match try_parse_request(text, IncrementalRequest::new()).unwrap() {
        IncrementalRequest::Complete(r) => Request::from_no_remote(r, b"127.0.0.1:5000".to_vec()),
        _ => panic!("the request is complete"),
    }
}

fn route_with(host: &mut Host, text: &[u8], overloaded: bool) -> (Result<Response, StatusCode>, Vec<String>) {
    let request = request(text);
    let mut asked = Vec::new();
    let mut step = host.handle_result(&request, overloaded);
    loop {
        match step {
            Step::Done(outcome) => return (outcome.map_err(|e| e.status), asked),
            Step::Ask(state, lookup) => {
                asked.push(match &lookup {
                    Lookup::Canonicalize(p) => format!("canonicalize {}", String::from_utf8_lossy(p)),
                    Lookup::Metadata(p) => format!("metadata {}", String::from_utf8_lossy(p)),
                    Lookup::Read(p) => format!("read {}", String::from_utf8_lossy(p)),
                    Lookup::Run { program, .. } => format!("run {}", String::from_utf8_lossy(program)),
                });
                let found = answer(&lookup);
                step = host.resume(&request, state, found);
            }
        }
    }
}

fn route(text: &[u8]) -> Result<Response, StatusCode> {
    let mut host = Host::new(parse_server_config(CONFIG).unwrap());
    route_with(&mut host, text, false).0
}

fn header<'a>(response: &'a Response, field: ResponseHeaderField) -> Option<&'a [u8]> {
    response.header.header_lines.get(field).map(|v| v.as_slice())
}

#[test]
fn static_file_small() {
    let response = route(b"GET / HTTP/1.1\r\nHost: example.local\r\n\r\n").unwrap();
    assert_eq!(response.header.status_line.status_code, StatusCode::Success);
    assert_eq!(header(&response, ResponseHeaderField::ContentLength), Some(&b"11"[..]));
    assert_eq!(header(&response, ResponseHeaderField::ContentType), Some(&b"text/html"[..]));
    assert_eq!(
        header(&response, ResponseHeaderField::LastModified),
        Some(&b"Sun, 01 Jan 2023 00:00:00 GMT"[..])
    );
    assert_eq!(response.body, b"<p>hi</p>".to_vec());
}

#[test]
fn static_text_file() {
    let response = route(b"GET /hello.txt HTTP/1.1\r\nHost: example.local\r\n\r\n").unwrap();
    assert_eq!(header(&response, ResponseHeaderField::ContentLength), Some(&b"8"[..]));
    assert_eq!(header(&response, ResponseHeaderField::ContentType), Some(&b"text/plain"[..]));
    assert_eq!(response.body, b"hello\n".to_vec());
}

#[test]
fn path_traversal() {
    let outcome = route(b"GET /../etc/passwd HTTP/1.1\r\nHost: example.local\r\n\r\n");
    assert_eq!(outcome.unwrap_err(), StatusCode::Forbidden);
    let outcome = route(b"GET /../www2 HTTP/1.1\r\nHost: example.local\r\n\r\n");
    assert_eq!(outcome.unwrap_err(), StatusCode::Forbidden);
}

#[test]
fn if_modified_since_hit() {
    let response = route(
        b"GET /hello.txt HTTP/1.1\r\nHost: example.local\r\nIf-Modified-Since: Sun, 01 Jan 2023 00:00:00 GMT\r\n\r\n",
    )
    .unwrap();
    assert_eq!(response.header.status_line.status_code, StatusCode::NotModified);
    assert_eq!(header(&response, ResponseHeaderField::ContentLength), Some(&b"0"[..]));
    assert_eq!(response.header.header_lines.len(), 1);
    assert_eq!(response.body, Vec::<u8>::new());
}

#[test]
fn if_modified_since_before_the_modification_serves_the_file() {
    let response = route(
        b"GET /hello.txt HTTP/1.1\r\nHost: example.local\r\nIf-Modified-Since: Sat, 31 Dec 2022 23:59:59 GMT\r\n\r\n",
    )
    .unwrap();
    assert_eq!(response.header.status_line.status_code, StatusCode::Success);
    assert_eq!(response.body, b"hello\n".to_vec());
    let response = route(
        b"GET /hello.txt HTTP/1.1\r\nHost: example.local\r\nIf-Modified-Since: Mon, 02 Jan 2023 00:00:00 GMT\r\n\r\n",
    )
    .unwrap();
    assert_eq!(response.header.status_line.status_code, StatusCode::NotModified);
}

#[test]
fn if_modified_since_that_is_no_date_answers_400() {
    let outcome = route(b"GET /hello.txt HTTP/1.1\r\nHost: example.local\r\nIf-Modified-Since: yesterday\r\n\r\n");
    assert_eq!(outcome.unwrap_err(), StatusCode::BadRequest);
}

#[test]
fn heartbeat_answers_by_the_load() {
    let mut host = Host::new(parse_server_config(CONFIG).unwrap());
    let text = b"GET /load HTTP/1.1\r\nHost: any\r\n\r\n";
    let (outcome, asked) = route_with(&mut host, text, false);
    let response = outcome.unwrap();
    assert_eq!(response.header.status_line.status_code, StatusCode::Success);
    assert_eq!(header(&response, ResponseHeaderField::ContentLength), Some(&b"0"[..]));
    assert_eq!(response.body, Vec::<u8>::new());
    assert_eq!(asked.len(), 0);
    let (outcome, _) = route_with(&mut host, text, true);
    let response = outcome.unwrap();
    assert_eq!(response.header.status_line.status_code, StatusCode::ServiceUnavailable);
    assert_eq!(header(&response, ResponseHeaderField::ContentLength), Some(&b"0"[..]));
    let response = heartbeat(true).unwrap();
    assert_eq!(response.header.status_line.status_code, StatusCode::ServiceUnavailable);
}

#[test]
fn post_to_load_is_no_heartbeat() {
    let mut host = Host::new(parse_server_config(CONFIG).unwrap());
    let (outcome, asked) = route_with(&mut host, b"POST /load HTTP/1.1\r\nHost: example.local\r\n\r\n", false);
    assert_eq!(outcome.unwrap_err(), StatusCode::NotFound);
    assert_eq!(asked, vec!["canonicalize /www".to_string(), "canonicalize /www/load".to_string()]);
}

#[test]
fn request_without_host_answers_400() {
    assert_eq!(route(b"GET / HTTP/1.1\r\nUser-Agent: x\r\n\r\n").unwrap_err(), StatusCode::BadRequest);
    assert_eq!(route(b"GET /load HTTP/1.1\r\n\r\n").unwrap_err(), StatusCode::BadRequest);
}

#[test]
fn missing_file_answers_404() {
    assert_eq!(
        route(b"GET /nothing.txt HTTP/1.1\r\nHost: example.local\r\n\r\n").unwrap_err(),
        StatusCode::NotFound
    );
    assert_eq!(
        route(b"GET /docs HTTP/1.1\r\nHost: example.local\r\n\r\n").unwrap_err(),
        StatusCode::NotFound
    );
}

#[test]
fn unknown_host_is_served_by_the_first_virtual_host() {
    let response = route(b"GET /hello.txt HTTP/1.1\r\nHost: nobody\r\n\r\n").unwrap();
    assert_eq!(response.body, b"hello\n".to_vec());
    let mut host = Host::new(parse_server_config(CONFIG).unwrap());
    let (outcome, asked) = route_with(&mut host, b"GET /x HTTP/1.1\r\nHost: other.local\r\n\r\n", false);
    assert_eq!(outcome.unwrap_err(), StatusCode::InternalServerError);
    assert_eq!(asked, vec!["canonicalize /srv/other/".to_string()]);
}

#[test]
fn server_without_virtual_hosts_answers_500() {
    let mut host = Host::new(parse_server_config(b"Listen 80\n").unwrap());
    let (outcome, asked) = route_with(&mut host, b"GET / HTTP/1.1\r\nHost: a\r\n\r\n", false);
    assert_eq!(outcome.unwrap_err(), StatusCode::InternalServerError);
    assert_eq!(asked.len(), 0);
    let mut host = Host::new(parse_server_config(b"<VirtualHost>\nServerName a\n</VirtualHost>\n").unwrap());
    let (outcome, _) = route_with(&mut host, b"GET / HTTP/1.1\r\nHost: a\r\n\r\n", false);
    assert_eq!(outcome.unwrap_err(), StatusCode::InternalServerError);
}

#[test]
fn mobile_user_agent_gets_the_mobile_index() {
    let mut host = Host::new(parse_server_config(CONFIG).unwrap());
    let (outcome, asked) = route_with(
        &mut host,
        b"GET / HTTP/1.1\r\nHost: example.local\r\nUser-Agent: Mozilla/5.0 (iPhone)\r\n\r\n",
        false,
    );
    assert_eq!(outcome.unwrap().body, b"<p>m</p>".to_vec());
    assert_eq!(
        asked,
        vec![
            "canonicalize /www".to_string(),
            "canonicalize /www/".to_string(),
            "metadata /www/index_m.html".to_string(),
            "read /www/index_m.html".to_string(),
        ]
    );
    let (outcome, asked) = route_with(
        &mut host,
        b"GET /docs/ HTTP/1.1\r\nHost: example.local\r\nUser-Agent: Opera Mobile\r\n\r\n",
        false,
    );
    assert_eq!(outcome.unwrap().body, b"docs".to_vec());
    assert_eq!(asked[2], "metadata /www/docs/index_m.html");
    assert_eq!(asked[3], "metadata /www/docs/index.html");
    let (outcome, asked) = route_with(
        &mut host,
        b"GET / HTTP/1.1\r\nHost: example.local\r\nUser-Agent: Desktop\r\n\r\n",
        false,
    );
    assert_eq!(outcome.unwrap().body, b"<p>hi</p>".to_vec());
    assert_eq!(asked[2], "metadata /www/index.html");
}

#[test]
fn second_request_is_served_from_the_cache() {
    let mut host = Host::new(parse_server_config(CONFIG).unwrap());
    let text = b"GET /hello.txt HTTP/1.1\r\nHost: example.local\r\n\r\n";
    let (first, asked) = route_with(&mut host, text, false);
    assert_eq!(asked.last().unwrap(), "read /www/hello.txt");
    let (second, asked) = route_with(&mut host, text, false);
    assert_eq!(asked.last().unwrap(), "metadata /www/hello.txt");
    assert_eq!(write_response(first.unwrap()), write_response(second.unwrap()));
}

#[test]
fn executable_file_and_post_run_as_cgi() {
    let mut host = Host::new(parse_server_config(CONFIG).unwrap());
    let (outcome, asked) =
        route_with(&mut host, b"GET /run.cgi?x=1 HTTP/1.1\r\nHost: example.local\r\n\r\n", false);
    let response = outcome.unwrap();
    assert_eq!(asked.last().unwrap(), "run /www/run.cgi");
    assert_eq!(response.body, b"/www/run.cgi x=1 ".to_vec());
    assert_eq!(header(&response, ResponseHeaderField::ContentLength), Some(&b"19"[..]));
    let (outcome, asked) = route_with(
        &mut host,
        b"POST /hello.txt?q HTTP/1.1\r\nHost: example.local\r\nContent-Length: 4\r\n\r\nbody",
        false,
    );
    assert_eq!(asked.last().unwrap(), "run /www/hello.txt");
    assert_eq!(outcome.unwrap().body, b"/www/hello.txt q body".to_vec());
}

#[test]
fn answers_that_fit_no_question_end_in_500() {
    let mut host = Host::new(parse_server_config(CONFIG).unwrap());
    let r = request(b"GET / HTTP/1.1\r\nHost: example.local\r\n\r\n");
    let step = host.resume(&r, Routing::Program, Found::Canonical(None));
    assert!(matches!(step, Step::Done(Err(e)) if e.status == StatusCode::InternalServerError));
    let step = host.resume(&r, Routing::Root { host: 0 }, Found::Canonical(None));
    assert!(matches!(step, Step::Done(Err(e)) if e.status == StatusCode::InternalServerError));
    let step = host.resume(
        &r,
        Routing::Content { path: b"/www/gone".to_vec() },
        Found::Read(FileRead::NotFound("gone".to_string())),
    );
    assert!(matches!(step, Step::Done(Err(e)) if e.status == StatusCode::NotFound));
    let step = host.resume(
        &r,
        Routing::Content { path: b"/www/locked".to_vec() },
        Found::Read(FileRead::Failed("denied".to_string())),
    );
    assert!(matches!(step, Step::Done(Err(e)) if e.status == StatusCode::InternalServerError));
    let step = host.handle_post(&r, 7, b"/www/run.cgi".to_vec());
    assert!(matches!(step, Step::Done(Err(e)) if e.status == StatusCode::InternalServerError));
}

#[test]
fn finished_response_names_server_and_date() {
    let host = Host::new(parse_server_config(CONFIG).unwrap());
    let response = host.handle(heartbeat(false), 784111777);
    assert_eq!(
        write_response(response),
        b"HTTP/1.1 200 OK\r\nContent-Length: 0\r\nServer: Rust/0.1\r\nDate: Sun, 06 Nov 1994 08:49:37 GMT\r\n\r\n\r\n"
            .to_vec()
    );
    let response = host.handle(Err(httpd::error::HttpError::bare(StatusCode::Forbidden)), i64::MAX);
    assert_eq!(
        write_response(response),
        b"HTTP/1.1 403 Forbidden\r\nServer: Rust/0.1\r\nTransfer-Encoding: chunked\r\n\r\n0\r\n\r\n".to_vec()
    );
}

#[test]
fn virtual_host_selection() {
    let config = parse_server_config(CONFIG).unwrap();
    assert_eq!(select_virtual_host(&config.virtual_hosts, b"example.local"), Some(0));
    assert_eq!(select_virtual_host(&config.virtual_hosts, b"other.local"), Some(1));
    assert_eq!(select_virtual_host(&config.virtual_hosts, b"Other.local"), Some(0));
    assert_eq!(select_virtual_host(&Vec::new(), b"example.local"), None);
    assert!(get_virtual_host(&Vec::new(), b"a").is_none());
    let chosen = get_virtual_host(&config.virtual_hosts, b"other.local").unwrap();
    assert_eq!(
        chosen.directives.get(httpd::config::Directive::DocumentRoot),
        Some(&b"/srv/other/".to_vec())
    );
}

#[test]
fn paths_are_joined_and_held_to_the_root() {
    assert_eq!(join_path(b"/www", b"a.txt"), b"/www/a.txt".to_vec());
    assert_eq!(join_path(b"/www/", b"a.txt"), b"/www/a.txt".to_vec());
    assert_eq!(join_path(b"/", b""), b"/".to_vec());
    assert_eq!(unresolved_target(b"/www", b"/a/b"), b"/www/a/b".to_vec());
    assert_eq!(unresolved_target(b"/www", b"///a"), b"/www/a".to_vec());
    assert_eq!(unresolved_target(b"/www", b"/"), b"/www/".to_vec());
    assert_eq!(unresolved_target(b"/www", b"a"), b"/www/a".to_vec());
    assert!(is_within(b"/www", b"/www"));
    assert!(is_within(b"/www", b"/www/a"));
    assert!(!is_within(b"/www", b"/www2"));
    assert!(!is_within(b"/www", b"/srv"));
    assert!(is_within(b"/", b"/etc"));
    let target = parse_path(b"/www", b"/docs/", Some(b"/www/docs".to_vec())).unwrap();
    assert_eq!(target.path, b"/www/docs".to_vec());
    assert!(target.is_dir);
    let target = parse_path(b"/www", b"/hello.txt", Some(b"/www/hello.txt".to_vec())).unwrap();
    assert!(!target.is_dir);
    assert_eq!(parse_path(b"/www", b"/x", None).unwrap_err().status, StatusCode::NotFound);
    assert_eq!(
        parse_path(b"/www", b"/x", Some(b"/etc/x".to_vec())).unwrap_err().status,
        StatusCode::Forbidden
    );
}

#[test]
fn file_cache_holds_what_was_read() {
    let mut files = Files::new(4);
    assert_eq!(files.capacity_hint(), 4096);
    assert!(!files.is_cached(b"/a.jpg"));
    let e = files.get_content(b"/a.jpg".to_vec(), None).unwrap_err();
    assert_eq!(e.status, StatusCode::InternalServerError);
    let read = FileRead::Content(File { content: b"JPG".to_vec(), modified: 0 });
    let response = files.get_content(b"/a.jpg".to_vec(), Some(read)).unwrap();
    assert_eq!(
        write_response(response),
        b"HTTP/1.1 200 OK\r\nContent-Length: 5\r\nLast-Modified: Thu, 01 Jan 1970 00:00:00 GMT\r\nContent-Type: image/jpeg\r\n\r\nJPG\r\n"
            .to_vec()
    );
    assert!(files.is_cached(b"/a.jpg"));
    let stale = FileRead::Content(File { content: b"NEW".to_vec(), modified: 9 });
    let response = files.get_content(b"/a.jpg".to_vec(), Some(stale)).unwrap();
    assert_eq!(response.body, b"JPG".to_vec());
    let e = files.get_content(b"/b".to_vec(), Some(FileRead::NotFound("gone".to_string()))).unwrap_err();
    assert_eq!((e.status, e.message), (StatusCode::NotFound, Some("gone".to_string())));
    assert!(!files.is_cached(b"/b"));
    assert_eq!(Files::new(u32::MAX).capacity_hint(), (u32::MAX as usize) * 1024);
}

#[test]
fn content_type_goes_by_the_extension() {
    let file = File { content: Vec::new(), modified: 0 };
    let kinds: [(&[u8], Option<&[u8]>); 8] = [
        (b"/a/b.txt", Some(b"text/plain")),
        (b"/a/b.html", Some(b"text/html")),
        (b"/a/b.jpg", Some(b"image/jpeg")),
        (b"/a/b.tar.txt", Some(b"text/plain")),
        (b"/a/b.TXT", None),
        (b"/a.txt/b", None),
        (b"/a/.txt", None),
        (b"/a/b", None),
    ];
    for (path, kind) in kinds {
        let response = serve_file(path, &file).unwrap();
        assert_eq!(header(&response, ResponseHeaderField::ContentType), kind);
        assert_eq!(header(&response, ResponseHeaderField::ContentLength), Some(&b"2"[..]));
    }
    let unwritable = File { content: Vec::new(), modified: i64::MAX };
    assert_eq!(serve_file(b"/a", &unwritable).unwrap_err().status, StatusCode::InternalServerError);
}

#[test]
fn modified_since_compares_instants() {
    assert!(Files::modified_since(2, 1));
    assert!(!Files::modified_since(1, 1));
    assert!(!Files::modified_since(1, 2));
    assert!(Files::modified_since(0, -1));
}
