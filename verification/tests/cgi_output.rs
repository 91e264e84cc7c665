use httpd::cgi::{process_cgi_output, Cgi};
use httpd::config::parse_server_config;
use httpd::http::{
    try_parse_request, write_response, IncrementalRequest, Request, ResponseHeaderField, StatusCode,
};

fn request(text: &[u8], peer: &[u8]) -> Request {
    match try_parse_request(text, IncrementalRequest::new()).unwrap() {
        IncrementalRequest::Complete(r) => Request::from_no_remote(r, peer.to_vec()),
        _ => panic!("the request is complete"),
    }
}

#[test]
fn output_is_split_at_the_first_blank_line() {
    let (headers, body) =
        process_cgi_output(b"Content-Type: text/plain\nServer:  cgi \n\nline one\n\nline two\n").unwrap();
    assert_eq!(headers.len(), 2);
    assert_eq!(headers.get(ResponseHeaderField::ContentType), Some(&b"text/plain".to_vec()));
    assert_eq!(headers.get(ResponseHeaderField::Server), Some(&b"cgi".to_vec()));
    assert_eq!(body, b"line one\n\nline two\n".to_vec());
}

#[test]
fn output_without_blank_line_is_all_headers() {
    let (headers, body) = process_cgi_output(b"Content-Type: text/html").unwrap();
    assert_eq!(headers.len(), 1);
    assert_eq!(body, Vec::<u8>::new());
}

#[test]
fn malformed_header_section_fails() {
    let message = "Could not parse headers from CGI response";
    assert_eq!(process_cgi_output(b"").unwrap_err().message, message);
    assert_eq!(process_cgi_output(b"\n\nbody").unwrap_err().message, message);
    assert_eq!(process_cgi_output(b"no colon\n\nbody").unwrap_err().message, message);
    assert_eq!(process_cgi_output(b"X-Unknown: 1\n\nbody").unwrap_err().message, message);
    assert_eq!(process_cgi_output(b"Content-Type: a\n").unwrap_err().message, message);
}

#[test]
fn response_carries_the_programs_headers_and_the_length_plus_two() {
    let cgi = Cgi::new(parse_server_config(b"Listen 80\n").unwrap());
    let response = cgi.handle(Ok(b"Content-Type: text/plain\n\nhello".to_vec())).unwrap();
    assert_eq!(response.header.status_line.status_code, StatusCode::Success);
    assert_eq!(response.body, b"hello".to_vec());
    assert_eq!(
        write_response(response),
        b"HTTP/1.1 200 OK\r\nContent-Type: text/plain\r\nContent-Length: 7\r\n\r\nhello\r\n".to_vec()
    );
}

#[test]
fn length_that_the_program_announced_is_replaced() {
    let cgi = Cgi::new(parse_server_config(b"").unwrap());
    let response = cgi.handle(Ok(b"Content-Length: 999\nDate: x\n\nab".to_vec())).unwrap();
    assert_eq!(response.header.header_lines.len(), 2);
    assert_eq!(response.header.header_lines.entry(0), (ResponseHeaderField::ContentLength, &b"4".to_vec()));
}

#[test]
fn failures_of_the_program_answer_500() {
    let cgi = Cgi::new(parse_server_config(b"").unwrap());
    let e = cgi.handle(Err("No such file or directory".to_string())).unwrap_err();
    assert_eq!(e.status, StatusCode::InternalServerError);
    assert_eq!(e.message, Some("No such file or directory".to_string()));
    assert_eq!(e.to_string(), "500 Internal Server Error: No such file or directory");
    let e = cgi.handle(Ok(b"garbage".to_vec())).unwrap_err();
    assert_eq!(e.status, StatusCode::InternalServerError);
    assert_eq!(e.message, Some("Could not parse headers from CGI response".to_string()));
}

#[test]
fn environment_names_the_request_and_the_server() {
    let config =
        parse_server_config(b"Listen 8080\n<VirtualHost>\nServerName example.local\n</VirtualHost>\n").unwrap();
    let cgi = Cgi::new(config.clone());
    let r = request(b"POST /cgi/run?a=1&b=2 HTTP/1.1\r\nHost: example.local\r\n\r\n", b"10.0.0.7:4711");
    let env = cgi.environment(&r, &config.virtual_hosts[0]).unwrap();
    let expected: [(&[u8], &[u8]); 7] = [
        (b"QUERY_STRING", b"a=1&b=2"),
        (b"REMOTE_ADDR", b"10.0.0.7:4711"),
        (b"REQUEST_METHOD", b"POST"),
        (b"SERVER_NAME", b"example.local"),
        (b"SERVER_PORT", b"8080"),
        (b"SERVER_PROTOCOL", b""),
        (b"SERVER_SOFTWARE", b""),
    ];
    assert_eq!(env.len(), expected.len());
    for (i, (name, value)) in expected.iter().enumerate() {
        assert_eq!(env[i].0, name.to_vec());
        assert_eq!(env[i].1, value.to_vec());
    }
}

#[test]
fn environment_needs_port_and_server_name() {
    let r = request(b"GET / HTTP/1.1\r\nHost: a\r\n\r\n", b"peer");
    let with_port = parse_server_config(b"Listen 80\n<VirtualHost>\n</VirtualHost>\n").unwrap();
    let e = Cgi::new(with_port.clone()).environment(&r, &with_port.virtual_hosts[0]).unwrap_err();
    assert_eq!(e.status, StatusCode::InternalServerError);
    let with_name = parse_server_config(b"<VirtualHost>\nServerName a\n</VirtualHost>\n").unwrap();
    let e = Cgi::new(with_name.clone()).environment(&r, &with_name.virtual_hosts[0]).unwrap_err();
    assert_eq!(e.status, StatusCode::InternalServerError);
    assert_eq!(e.to_string(), "500 Internal Server Error");
}
