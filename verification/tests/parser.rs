use httpd::http::{
    parse_header_line, parse_request_line, try_parse_request, IncrementalRequest, Method,
    RequestHeaderField,
};

fn feed(chunks: &[&[u8]]) -> Result<IncrementalRequest, String> {
    let mut state = IncrementalRequest::new();
    for chunk in chunks {
        state = try_parse_request(chunk, state).map_err(|e| e.message)?;
    }
    Ok(state)
}

#[test]
fn request_line_is_split_into_its_parts() {
    let line = parse_request_line(b"GET /a/b?x=1&y=2 HTTP/1.1").unwrap();
    assert_eq!(line.method, Method::Get);
    assert_eq!(line.request_path, b"/a/b".to_vec());
    assert_eq!(line.query_string, b"x=1&y=2".to_vec());
    assert_eq!(line.http_version, b"HTTP/1.1".to_vec());
}

#[test]
fn request_line_without_query_has_empty_query_string() {
    let line = parse_request_line(b"POST /cgi HTTP/1.1").unwrap();
    assert_eq!(line.method, Method::Post);
    assert_eq!(line.request_path, b"/cgi".to_vec());
    assert_eq!(line.query_string, Vec::<u8>::new());
}

#[test]
fn request_line_errors_name_the_missing_part() {
    assert_eq!(
        parse_request_line(b"PUT / HTTP/1.1").unwrap_err().message,
        "Could not get method from request line"
    );
    assert_eq!(
        parse_request_line(b"GET").unwrap_err().message,
        "Could not get request target from request line"
    );
    assert_eq!(
        parse_request_line(b"GET /").unwrap_err().message,
        "Could not get HTTP version from request line"
    );
    assert_eq!(
        parse_request_line(b"GET /\xff HTTP/1.1").unwrap_err().message,
        "Request line is not valid UTF-8"
    );
}

#[test]
fn header_line_value_is_trimmed() {
    let (field, value) = parse_header_line(b"Host:   example.local \t").unwrap();
    assert_eq!(field, RequestHeaderField::Host);
    assert_eq!(value, b"example.local".to_vec());
}

#[test]
fn header_names_are_matched_exactly() {
    let (field, _) = parse_header_line(b"host: example.local").unwrap();
    assert_eq!(field, RequestHeaderField::NotSupported);
    let (field, _) = parse_header_line(b"X-Anything: 1").unwrap();
    assert_eq!(field, RequestHeaderField::NotSupported);
    let (field, value) = parse_header_line(b"If-Modified-Since: Sun, 01 Jan 2023 00:00:00 GMT").unwrap();
    assert_eq!(field, RequestHeaderField::IfModifiedSince);
    assert_eq!(value, b"Sun, 01 Jan 2023 00:00:00 GMT".to_vec());
}

#[test]
fn header_line_without_colon_fails() {
    assert_eq!(parse_header_line(b"Host").unwrap_err().message, "Could not parse header line");
    assert_eq!(
        parse_header_line(b"Host: \xc3").unwrap_err().message,
        "Header line is not valid UTF-8"
    );
}

#[test]
fn request_arriving_in_a_single_read() {
    let state = feed(&[b"GET / HTTP/1.1\r\nHost: example.local\r\n\r\n"]).unwrap();
    match state {
        IncrementalRequest::Complete(request) => {
            assert_eq!(request.header.request_line.method, Method::Get);
            assert_eq!(request.header.request_line.request_path, b"/".to_vec());
            assert_eq!(
                request.header.header_lines.get(RequestHeaderField::Host),
                Some(&b"example.local".to_vec())
            );
            assert_eq!(request.body, Vec::<u8>::new());
        }
        _ => panic!("the request is complete"),
    }
}

#[test]
fn header_arriving_one_byte_at_a_time() {
    let text = b"POST /form HTTP/1.1\r\nHost: h\r\nContent-Length: 5\r\n\r\nhello";
    let mut state = IncrementalRequest::new();
    for i in 0..text.len() {
        assert!(!state.is_complete());
        state = try_parse_request(&text[i..i + 1], state).unwrap();
    }
    match state {
        IncrementalRequest::Complete(request) => {
            assert_eq!(request.header.request_line.method, Method::Post);
            assert_eq!(request.body, b"hello".to_vec());
            assert_eq!(request.header.header_lines.len(), 2);
        }
        _ => panic!("the request is complete"),
    }
}

#[test]
fn split_reads_give_the_state_of_a_single_read() {
    let text: &[u8] = b"POST /p?q HTTP/1.1\r\nHost: h\r\nUser-Agent: t\r\nContent-Length: 3\r\n\r\nab";
    let whole = feed(&[text]).unwrap();
    for cut in 0..=text.len() {
        let parts = feed(&[&text[..cut], &text[cut..]]).unwrap();
        match (&whole, &parts) {
            (
                IncrementalRequest::ReadingBody(line_a, headers_a, body_a, left_a, pending_a),
                IncrementalRequest::ReadingBody(line_b, headers_b, body_b, left_b, pending_b),
            ) => {
                assert_eq!(line_a.request_path, line_b.request_path);
                assert_eq!(line_a.query_string, line_b.query_string);
                assert_eq!(headers_a.len(), headers_b.len());
                assert_eq!(body_a, body_b);
                assert_eq!(left_a, left_b);
                assert_eq!(pending_a, pending_b);
                assert_eq!(*left_a, 1);
                assert_eq!(body_a, &b"ab".to_vec());
            }
            _ => panic!("both wait for the last octet of the body"),
        }
    }
}

#[test]
fn body_is_not_taken_from_beyond_the_announced_length() {
    let state = feed(&[b"POST / HTTP/1.1\r\nContent-Length: 2\r\n\r\nabcdef"]).unwrap();
    match state {
        IncrementalRequest::Complete(request) => assert_eq!(request.body, b"ab".to_vec()),
        _ => panic!("the request is complete"),
    }
}

#[test]
fn request_without_headers_is_complete_at_the_empty_line() {
    let state = feed(&[b"GET / HTTP/1.1\r\n\r\n"]).unwrap();
    match state {
        IncrementalRequest::Complete(request) => {
            assert_eq!(request.header.header_lines.len(), 0);
            assert_eq!(request.body, Vec::<u8>::new());
        }
        _ => panic!("the request is complete"),
    }
}

#[test]
fn text_beyond_ascii_is_taken_where_it_is_utf8() {
    let line = parse_request_line("GET /caf\u{e9}?q=\u{4e16}\u{754c} HTTP/1.1".as_bytes()).unwrap();
    assert_eq!(line.request_path, "/caf\u{e9}".as_bytes().to_vec());
    assert_eq!(line.query_string, "q=\u{4e16}\u{754c}".as_bytes().to_vec());
    let (_, value) = parse_header_line("User-Agent: na\u{ef}ve".as_bytes()).unwrap();
    assert_eq!(value, "na\u{ef}ve".as_bytes().to_vec());
    assert!(parse_request_line(b"GET /\xc3 HTTP/1.1").is_err());
    assert!(parse_request_line(b"GET /\xed\xa0\x80 HTTP/1.1").is_err());
    assert!(parse_request_line(b"GET /\xc0\xaf HTTP/1.1").is_err());
    let state = feed(&[b"POST / HTTP/1.1\r\nContent-Length: 2\r\n\r\n\xff\xfe"]).unwrap();
    assert!(matches!(state, IncrementalRequest::Complete(r) if r.body == vec![0xff, 0xfe]));
}

#[test]
fn incomplete_request_line_stays_pending() {
    let state = feed(&[b"GET / HT"]).unwrap();
    match state {
        IncrementalRequest::Empty(pending) => assert_eq!(pending, b"GET / HT".to_vec()),
        _ => panic!("no line is complete"),
    }
}

#[test]
fn line_terminator_cut_in_two_is_found() {
    let state = feed(&[b"GET / HTTP/1.1\r", b"\nHost: a\r", b"\n"]).unwrap();
    match state {
        IncrementalRequest::HaveHeaders(_, headers, pending) => {
            assert_eq!(headers.get(RequestHeaderField::Host), Some(&b"a".to_vec()));
            assert_eq!(pending, Vec::<u8>::new());
        }
        _ => panic!("one header has been read"),
    }
}

#[test]
fn parsing_a_complete_request_fails() {
    let state = feed(&[b"GET / HTTP/1.1\r\nHost: a\r\n\r\n"]).unwrap();
    let error = try_parse_request(b"", state).unwrap_err();
    assert_eq!(error.message, "Tried to parse but incremental request was already full");
}

#[test]
fn malformed_tokens_fail() {
    assert_eq!(
        feed(&[b"BREW / HTTP/1.1\r\n"]).unwrap_err(),
        "Could not get method from request line"
    );
    assert_eq!(
        feed(&[b"GET / HTTP/1.1\r\nno colon here\r\n"]).unwrap_err(),
        "Could not parse header line"
    );
    assert_eq!(
        feed(&[b"GET / HTTP/1.1\r\nContent-Length: many\r\n\r\n"]).unwrap_err(),
        "Could not parse Content-Length"
    );
}

#[test]
fn later_header_replaces_earlier_one_of_the_same_field() {
    let state = feed(&[b"GET / HTTP/1.1\r\nHost: a\r\nX-One: 1\r\nHost: b\r\nX-Two: 2\r\n"]).unwrap();
    match state {
        IncrementalRequest::HaveHeaders(_, headers, _) => {
            assert_eq!(headers.len(), 2);
            assert_eq!(headers.get(RequestHeaderField::Host), Some(&b"b".to_vec()));
            assert_eq!(headers.get(RequestHeaderField::NotSupported), Some(&b"2".to_vec()));
            assert_eq!(headers.entry(0).0, RequestHeaderField::Host);
        }
        _ => panic!("headers have been read"),
    }
}
