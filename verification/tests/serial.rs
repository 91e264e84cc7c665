use httpd::config::parse_server_config;
use httpd::host::{Found, Host, Lookup};
use httpd::http::IncrementalRequest;
use httpd::seq::{answer, process, Served};

fn host() -> Host {
    Host::new(
        parse_server_config(b"Listen 80\n<VirtualHost>\nServerName a\nDocumentRoot /www\n</VirtualHost>\n").unwrap(),
    )
}

#[test]
fn request_is_read_on_until_it_is_complete() {
    let host = host();
    let served = process(&host, b"peer", IncrementalRequest::new(), b"GET /load HT", false, 0).unwrap();
    let state = match served {
        Served::More(state) => state,
        _ => panic!("the request is not complete"),
    };
    let served = process(&host, b"peer", state, b"TP/1.1\r\nHost: a\r\n\r\n", false, 0).unwrap();
    match served {
        Served::Send(bytes) => assert_eq!(
            bytes,
            b"HTTP/1.1 200 OK\r\nContent-Length: 0\r\nServer: Rust/0.1\r\nDate: Thu, 01 Jan 1970 00:00:00 GMT\r\n\r\n\r\n"
                .to_vec()
        ),
        _ => panic!("the heartbeat is sent at once"),
    }
}

#[test]
fn overloaded_server_answers_503() {
    let served =
        process(&host(), b"peer", IncrementalRequest::new(), b"GET /load HTTP/1.1\r\nHost: a\r\n\r\n", true, 0)
            .unwrap();
    assert!(matches!(served, Served::Send(bytes) if bytes.starts_with(b"HTTP/1.1 503 Service Unavailable\r\n")));
}

#[test]
fn end_of_stream_before_the_end_of_the_request_fails() {
    let e = process(&host(), b"peer", IncrementalRequest::Empty(b"GET / HT".to_vec()), b"", false, 0).unwrap_err();
    assert_eq!(e.message, "Could not parse a full request using all available data");
}

#[test]
fn request_that_cannot_be_parsed_fails() {
    let e = process(&host(), b"peer", IncrementalRequest::new(), b"GET\r\n", false, 0).unwrap_err();
    assert_eq!(e.message, "Could not get request target from request line");
}

#[test]
fn router_questions_are_passed_on_and_answered() {
    let mut host = host();
    let served =
        process(&host, b"peer", IncrementalRequest::new(), b"GET /a.txt HTTP/1.1\r\nHost: a\r\n\r\n", false, 0)
            .unwrap();
    let (request, state, lookup) = match served {
        Served::Ask(request, state, lookup) => (request, state, lookup),
        _ => panic!("the router asks for the document root"),
    };
    assert_eq!(request.remote.addr, b"peer".to_vec());
    assert!(matches!(lookup, Lookup::Canonicalize(p) if p == b"/www"));
    let served = answer(&mut host, request, state, Found::Canonical(None), 0);
    assert!(matches!(served, Served::Send(bytes) if bytes.starts_with(b"HTTP/1.1 500 Internal Server Error\r\n")));
}
