use httpd::config::{parse_server_config, ServerConfig};
use httpd::error::Error;
use httpd::host::Host;
use httpd::http::{IncrementalRequest, IncrementalResponse};
use httpd::select::{
    check_stream_timeout, handle_listener_event, handle_stdin_event, handle_stream_event, Clock,
    Command, CommandQueue, CommandResponse, ConnectionState, Event, EventLoop, EventSource,
    timeout_notice, HandleEventResponse, Handled, Interest, Listener, Next, Notice, Readiness,
    Registration, Stdin, Stream, Token, POLL_TIMEOUT, READ_LEN, STREAM_TIMEOUT,
};
use std::collections::HashMap;

const STDIN: Token = Token(0);
const LISTENER: Token = Token(1);

const READABLE: Readiness = Readiness { readable: true, writable: false };
const WRITABLE: Readiness = Readiness { readable: false, writable: true };

fn config() -> ServerConfig {
    parse_server_config(b"Listen 8080\n<VirtualHost>\nServerName example.local\nDocumentRoot /www\n</VirtualHost>\n")
        .unwrap()
}

fn clock(monotonic: u64) -> Clock {
    Clock { monotonic, wall: 784111777 }
}

fn respond(response: CommandResponse) -> Command {
    Command::Respond(Box::new(response))
}

fn started() -> EventLoop {
    let mut event_loop = EventLoop::new(CommandQueue::new());
    event_loop.submit(respond(CommandResponse::NewSource(
        LISTENER,
        EventSource::TcpListener(Listener {}, 1, config()),
        Interest::Readable,
    )));
    event_loop.submit(respond(CommandResponse::NewSource(
        STDIN,
        EventSource::Stdin(Stdin::new(), LISTENER),
        Interest::Readable,
    )));
    let drained = event_loop.next(0);
    assert_eq!(
        drained.registrations,
        vec![
            Registration::Register(LISTENER, Interest::Readable),
            Registration::Register(STDIN, Interest::Readable),
        ]
    );
    assert_eq!(drained.failures.len(), 0);
    event_loop
}

fn accept(event_loop: &mut EventLoop, now: u64) -> Vec<Registration> {
    let r = event_loop.dispatch(LISTENER, Event::Ready(READABLE), clock(now));
    assert!(matches!(r.next, Next::Accept));
    let r = event_loop.dispatch(LISTENER, Event::Accepted(b"10.0.0.1:999".to_vec()), clock(now));
    assert!(matches!(r.next, Next::Accept));
    let r = event_loop.dispatch(LISTENER, Event::WouldBlock, clock(now));
    assert!(matches!(r.next, Next::Done));
    event_loop.next(now).registrations
}

fn in_step(event_loop: &EventLoop) {
    let mut held = 0;
    for t in 0..16 {
        let source = event_loop.source(Token(t)).is_some();
        let registration = event_loop.interest(Token(t)).is_some();
        assert_eq!(source, registration);
        if source {
            held += 1;
        }
    }
    assert_eq!(event_loop.len(), held);
}

fn state_of(event_loop: &EventLoop, token: Token) -> &ConnectionState {
    match event_loop.source(token) {
        Some(EventSource::TcpStream(_, state, _, _)) => state,
        _ => panic!("the token names a connection"),
    }
}

#[test]
fn sources_enter_the_loop_through_commands_only() {
    let event_loop = started();
    assert_eq!(event_loop.len(), 2);
    assert_eq!(event_loop.pending(), 0);
    assert_eq!(event_loop.interest(LISTENER), Some(Interest::Readable));
    assert!(matches!(event_loop.source(STDIN), Some(EventSource::Stdin(_, t)) if *t == LISTENER));
    assert!(matches!(event_loop.source(LISTENER), Some(EventSource::TcpListener(_, 1, _))));
    in_step(&event_loop);
}

#[test]
fn token_that_is_taken_fails_the_command_and_changes_nothing() {
    let mut event_loop = started();
    let r = event_loop.execute_command(
        respond(CommandResponse::NewSource(
            LISTENER,
            EventSource::Stdin(Stdin::new(), STDIN),
            Interest::Writable,
        )),
        0,
    );
    assert_eq!(r.unwrap_err().message, "A source is already registered under the token");
    assert!(matches!(event_loop.source(LISTENER), Some(EventSource::TcpListener(_, _, _))));
    assert_eq!(event_loop.interest(LISTENER), Some(Interest::Readable));
    event_loop.submit(respond(CommandResponse::NewSource(
        STDIN,
        EventSource::Stdin(Stdin::new(), STDIN),
        Interest::Writable,
    )));
    let drained = event_loop.next(0);
    assert_eq!(drained.registrations.len(), 0);
    assert_eq!(drained.failures.len(), 1);
    assert_eq!(drained.failures[0].message, "A source is already registered under the token");
    assert!(matches!(event_loop.source(STDIN), Some(EventSource::Stdin(_, t)) if *t == LISTENER));
    in_step(&event_loop);
}

#[test]
fn changes_for_tokens_that_are_not_there_do_nothing() {
    let mut event_loop = started();
    let r = event_loop.execute_command(respond(CommandResponse::CloseSource(Token(9))), 0).unwrap();
    assert_eq!(r.registration, None);
    assert!(r.resubmit.is_none());
    assert_eq!(r.notice, Some(Notice::AlreadyClosed(Token(9))));
    let r = event_loop
        .execute_command(respond(CommandResponse::ModifyInterests(Token(9), Interest::Writable)), 0)
        .unwrap();
    assert_eq!(r.registration, None);
    assert_eq!(r.notice, Some(Notice::SourceMissing(Token(9))));
    let r = event_loop.execute_command(Command::CheckStreamTimeout(LISTENER), 0).unwrap();
    assert_eq!(r.notice, Some(Notice::NotAConnection(LISTENER)));
    assert!(r.resubmit.is_none());
    let r = event_loop.execute_command(Command::CheckStreamTimeout(Token(9)), 0).unwrap();
    assert_eq!(r.notice, None);
    assert_eq!(event_loop.len(), 2);
    assert_eq!(event_loop.interest(Token(9)), None);
    in_step(&event_loop);
}

#[test]
fn close_is_idempotent() {
    let mut event_loop = started();
    event_loop.submit(respond(CommandResponse::CloseSource(STDIN)));
    event_loop.submit(respond(CommandResponse::CloseSource(STDIN)));
    let drained = event_loop.next(5);
    assert_eq!(drained.registrations, vec![Registration::Deregister(STDIN)]);
    assert_eq!(drained.notices, vec![Notice::AlreadyClosed(STDIN)]);
    assert_eq!(drained.failures.len(), 0);
    assert!(event_loop.source(STDIN).is_none());
    assert_eq!(event_loop.len(), 1);
    in_step(&event_loop);
}

#[test]
fn modify_interests_registers_anew() {
    let mut event_loop = started();
    let r = event_loop
        .execute_command(respond(CommandResponse::ModifyInterests(LISTENER, Interest::Writable)), 0)
        .unwrap();
    assert_eq!(r.registration, Some(Registration::Reregister(LISTENER, Interest::Writable)));
    assert_eq!(event_loop.interest(LISTENER), Some(Interest::Writable));
    in_step(&event_loop);
}

#[test]
fn submitted_command_runs_on_a_later_tick() {
    let mut event_loop = started();
    event_loop.submit(respond(CommandResponse::SubmitCommand(respond(CommandResponse::CloseSource(STDIN)))));
    let drained = event_loop.next(0);
    assert_eq!(drained.registrations.len(), 0);
    assert_eq!(event_loop.pending(), 1);
    assert!(event_loop.source(STDIN).is_some());
    let drained = event_loop.next(0);
    assert_eq!(drained.registrations, vec![Registration::Deregister(STDIN)]);
    assert_eq!(event_loop.pending(), 0);
}

#[test]
fn accepted_connections_get_strictly_increasing_tokens() {
    let mut event_loop = started();
    let mut last = 1;
    for round in 0..4u64 {
        let registrations = accept(&mut event_loop, round);
        assert_eq!(registrations.len(), 1);
        match registrations[0] {
            Registration::Register(Token(t), Interest::Readable) => {
                assert!(t > last);
                assert_eq!(t, last + 1);
                last = t;
            }
            _ => panic!("the connection is registered for reading"),
        }
        in_step(&event_loop);
    }
    assert!(matches!(event_loop.source(LISTENER), Some(EventSource::TcpListener(_, 5, _))));
    assert_eq!(event_loop.len(), 6);
    assert_eq!(event_loop.pending(), 4);
}

#[test]
fn new_source_is_queued_before_its_timeout_supervisor() {
    let handled = handle_listener_event(Event::Accepted(b"peer".to_vec()), Listener {}, 41, config(), 7);
    assert!(matches!(handled.source, EventSource::TcpListener(_, 42, _)));
    assert!(matches!(handled.next, Next::Accept));
    assert!(handled.failure.is_none());
    assert_eq!(handled.responses.len(), 2);
    match &handled.responses[0] {
        HandleEventResponse::EmptyCommand(CommandResponse::NewSource(
            Token(42),
            EventSource::TcpStream(stream, ConnectionState::Read(IncrementalRequest::Empty(pending)), _, 7),
            Interest::Readable,
        )) => {
            assert_eq!(stream.peer, b"peer".to_vec());
            assert_eq!(pending.len(), 0);
        }
        _ => panic!("the first request is the new source"),
    }
    assert!(matches!(
        handled.responses[1],
        HandleEventResponse::Command(Command::CheckStreamTimeout(Token(42)))
    ));
}

#[test]
fn listener_without_a_token_left_refuses_the_connection() {
    let handled =
        handle_listener_event(Event::Accepted(b"peer".to_vec()), Listener {}, usize::MAX, config(), 0);
    assert!(matches!(handled.source, EventSource::TcpListener(_, usize::MAX, _)));
    assert_eq!(handled.responses.len(), 0);
    assert_eq!(handled.failure.unwrap().message, "No token is left for the connection");
    let handled = handle_listener_event(Event::WouldBlock, Listener {}, 3, config(), 0);
    assert!(matches!(handled.source, EventSource::TcpListener(_, 3, _)));
    assert!(matches!(handled.next, Next::Done));
    let handled = handle_listener_event(
        Event::Failed(Error::new("accept failed".to_string())),
        Listener {},
        3,
        config(),
        0,
    );
    assert_eq!(handled.failure.unwrap().message, "accept failed");
    assert_eq!(handled.responses.len(), 0);
}

#[test]
fn read_timeout() {
    let mut event_loop = started();
    accept(&mut event_loop, 1000);
    let token = Token(2);
    let r = event_loop.dispatch(token, Event::Ready(READABLE), clock(1500));
    assert!(matches!(r.next, Next::Read));
    let r = event_loop.dispatch(token, Event::Read(b"GET / HT".to_vec()), clock(1500));
    assert!(matches!(r.next, Next::Read));
    let r = event_loop.dispatch(token, Event::WouldBlock, clock(1500));
    assert!(matches!(r.next, Next::Done));
    for now in [2000, 30000, 60999] {
        let drained = event_loop.next(now);
        assert_eq!(drained.registrations.len(), 0);
        assert_eq!(event_loop.pending(), 1);
        assert!(event_loop.source(token).is_some());
    }
    let drained = event_loop.next(61000);
    assert_eq!(drained.registrations, vec![Registration::Deregister(token)]);
    assert!(event_loop.source(token).is_none());
    assert_eq!(event_loop.interest(token), None);
    assert_eq!(event_loop.pending(), 0);
    let drained = event_loop.next(70000);
    assert_eq!(drained.registrations.len(), 0);
    in_step(&event_loop);
}

#[test]
fn timeout_supervisor_decides_by_state_and_age() {
    let host = || Host::new(config());
    let mut sources: HashMap<usize, EventSource> = HashMap::new();
    let reading = ConnectionState::Read(IncrementalRequest::Empty(b"GET".to_vec()));
    sources.insert(2, EventSource::TcpStream(Stream { peer: Vec::new() }, reading, host(), 100));
    let writing = ConnectionState::Write(IncrementalResponse::Done);
    sources.insert(3, EventSource::TcpStream(Stream { peer: Vec::new() }, writing, host(), 100));
    sources.insert(4, EventSource::Stdin(Stdin::new(), Token(1)));
    sources.insert(5, EventSource::TcpStream(Stream { peer: Vec::new() }, ConnectionState::Close, host(), 0));
    assert!(matches!(
        check_stream_timeout(Token(2), &sources, 100 + STREAM_TIMEOUT - 1),
        Some(CommandResponse::SubmitCommand(Command::CheckStreamTimeout(Token(2))))
    ));
    assert!(matches!(
        check_stream_timeout(Token(2), &sources, 100 + STREAM_TIMEOUT),
        Some(CommandResponse::CloseSource(Token(2)))
    ));
    assert!(matches!(
        check_stream_timeout(Token(2), &sources, u64::MAX),
        Some(CommandResponse::CloseSource(Token(2)))
    ));
    assert!(matches!(
        check_stream_timeout(Token(2), &sources, 99),
        Some(CommandResponse::SubmitCommand(Command::CheckStreamTimeout(Token(2))))
    ));
    assert_eq!(timeout_notice(Token(2), &sources), None);
    assert_eq!(timeout_notice(Token(4), &sources), Some(Notice::NotAConnection(Token(4))));
    assert_eq!(timeout_notice(Token(6), &sources), None);
    assert!(check_stream_timeout(Token(3), &sources, u64::MAX).is_none());
    assert!(check_stream_timeout(Token(4), &sources, u64::MAX).is_none());
    assert!(check_stream_timeout(Token(5), &sources, u64::MAX).is_none());
    assert!(check_stream_timeout(Token(6), &sources, u64::MAX).is_none());
    assert_eq!(STREAM_TIMEOUT, 60000);
    assert_eq!(POLL_TIMEOUT, 1000);
    assert_eq!(READ_LEN, 32);
}

fn serve_load(event_loop: &mut EventLoop, token: Token) -> Vec<u8> {
    let r = event_loop.dispatch(token, Event::Ready(READABLE), clock(10));
    assert!(matches!(r.next, Next::Read));
    let r = event_loop.dispatch(token, Event::Read(b"GET /load HTTP/1.1\r\nHo".to_vec()), clock(10));
    assert!(matches!(r.next, Next::Read));
    assert!(matches!(state_of(event_loop, token), ConnectionState::Read(_)));
    let r = event_loop.dispatch(token, Event::Read(b"st: any\r\n\r\n".to_vec()), clock(10));
    assert!(matches!(r.next, Next::Done));
    assert!(matches!(state_of(event_loop, token), ConnectionState::Write(IncrementalResponse::Pending(_))));
    assert_eq!(event_loop.interest(token), Some(Interest::Readable));
    let drained = event_loop.next(20);
    assert_eq!(drained.registrations, vec![Registration::Reregister(token, Interest::Writable)]);
    assert_eq!(event_loop.interest(token), Some(Interest::Writable));
    let r = event_loop.dispatch(token, Event::Ready(WRITABLE), clock(30));
    match r.next {
        Next::Write(bytes) => bytes,
        _ => panic!("the response is to be written"),
    }
}

#[test]
fn connection_reads_then_writes_then_closes() {
    let mut event_loop = started();
    accept(&mut event_loop, 0);
    let token = Token(2);
    let bytes = serve_load(&mut event_loop, token);
    assert_eq!(
        bytes,
        b"HTTP/1.1 200 OK\r\nContent-Length: 0\r\nServer: Rust/0.1\r\nDate: Sun, 06 Nov 1994 08:49:37 GMT\r\n\r\n\r\n"
            .to_vec()
    );
    let r = event_loop.dispatch(token, Event::Written(10), clock(30));
    let rest = match r.next {
        Next::Write(rest) => rest,
        _ => panic!("the rest is to be written"),
    };
    assert_eq!(rest, bytes[10..].to_vec());
    let r = event_loop.dispatch(token, Event::WouldBlock, clock(30));
    assert!(matches!(r.next, Next::Done));
    assert!(matches!(
        state_of(&event_loop, token),
        ConnectionState::Write(IncrementalResponse::Serialized(left)) if *left == rest
    ));
    let r = event_loop.dispatch(token, Event::Ready(WRITABLE), clock(40));
    assert!(matches!(r.next, Next::Write(again) if again == rest));
    let r = event_loop.dispatch(token, Event::Written(rest.len()), clock(40));
    assert!(matches!(r.next, Next::Write(nothing) if nothing.is_empty()));
    let r = event_loop.dispatch(token, Event::Written(0), clock(40));
    assert!(matches!(r.next, Next::Done));
    assert!(matches!(state_of(&event_loop, token), ConnectionState::Close));
    assert!(event_loop.source(token).is_some());
    in_step(&event_loop);
    let drained = event_loop.next(50);
    assert_eq!(drained.registrations, vec![Registration::Deregister(token)]);
    assert!(event_loop.source(token).is_none());
    in_step(&event_loop);
}

#[test]
fn shutdown_while_a_connection_is_mid_write() {
    let mut event_loop = started();
    accept(&mut event_loop, 0);
    let token = Token(2);
    let bytes = serve_load(&mut event_loop, token);
    let r = event_loop.dispatch(token, Event::Written(5), clock(30));
    assert!(matches!(r.next, Next::Write(_)));
    let r = event_loop.dispatch(token, Event::WouldBlock, clock(30));
    assert!(matches!(r.next, Next::Done));
    let r = event_loop.dispatch(STDIN, Event::Ready(READABLE), clock(31));
    assert!(matches!(r.next, Next::ReadLine));
    let r = event_loop.dispatch(STDIN, Event::Line(b"shutdown\n".to_vec()), clock(31));
    assert!(matches!(r.next, Next::Done));
    let drained = event_loop.next(32);
    assert_eq!(drained.registrations, vec![Registration::Deregister(LISTENER)]);
    assert!(event_loop.source(LISTENER).is_none());
    assert!(event_loop.source(token).is_some());
    let r = event_loop.dispatch(token, Event::Ready(WRITABLE), clock(33));
    assert!(matches!(r.next, Next::Write(rest) if rest == bytes[5..].to_vec()));
    let r = event_loop.dispatch(token, Event::Written(bytes.len() - 5), clock(33));
    assert!(matches!(r.next, Next::Write(_)));
    let r = event_loop.dispatch(token, Event::Written(0), clock(33));
    assert!(matches!(r.next, Next::Done));
    let drained = event_loop.next(34);
    assert_eq!(drained.registrations, vec![Registration::Deregister(token)]);
    assert_eq!(event_loop.len(), 1);
    in_step(&event_loop);
}

#[test]
fn control_input_other_than_shutdown_asks_for_nothing() {
    let handled = handle_stdin_event(Event::Line(b"  shutdown \r\n".to_vec()), Stdin::new(), Token(1));
    assert!(matches!(
        handled.responses.as_slice(),
        [HandleEventResponse::EmptyCommand(CommandResponse::CloseSource(Token(1)))]
    ));
    assert_eq!(handled.notice, None);
    for line in [&b"Shutdown"[..], b"shut down", b"", b"shutdown now"] {
        let handled = handle_stdin_event(Event::Line(line.to_vec()), Stdin::new(), Token(1));
        assert_eq!(handled.notice, Some(Notice::UnknownCommand));
        assert_eq!(handled.responses.len(), 0);
        assert!(matches!(handled.next, Next::Done));
        assert!(matches!(handled.source, EventSource::Stdin(_, Token(1))));
    }
    let handled = handle_stdin_event(Event::Ready(WRITABLE), Stdin::new(), Token(1));
    assert!(matches!(handled.next, Next::Done));
}

fn stream_step(state: ConnectionState, event: Event) -> Handled {
    handle_stream_event(event, Token(7), Stream { peer: b"peer".to_vec() }, state, Host::new(config()), 3, 0)
}

fn state(handled: &Handled) -> &ConnectionState {
    match &handled.source {
        EventSource::TcpStream(_, state, _, 3) => state,
        _ => panic!("a connection stays a connection"),
    }
}

#[test]
fn would_block_on_first_read_keeps_the_state() {
    let handled = stream_step(ConnectionState::Read(IncrementalRequest::new()), Event::WouldBlock);
    assert!(matches!(state(&handled), ConnectionState::Read(IncrementalRequest::Empty(p)) if p.is_empty()));
    assert!(matches!(handled.next, Next::Done));
    assert_eq!(handled.responses.len(), 0);
    assert!(handled.failure.is_none());
}

#[test]
fn would_block_mid_body_keeps_what_was_read() {
    let handled = stream_step(
        ConnectionState::Read(IncrementalRequest::new()),
        Event::Read(b"POST /x HTTP/1.1\r\nContent-Length: 10\r\n\r\nabc".to_vec()),
    );
    assert!(matches!(handled.next, Next::Read));
    let reading = match handled.source {
        EventSource::TcpStream(_, state, _, _) => state,
        _ => panic!("a connection stays a connection"),
    };
    let handled = stream_step(reading, Event::WouldBlock);
    assert!(matches!(
        state(&handled),
        ConnectionState::Read(IncrementalRequest::ReadingBody(_, _, body, 7, pending))
            if body == b"abc" && pending.is_empty()
    ));
    assert!(matches!(handled.next, Next::Done));
}

#[test]
fn request_that_cannot_be_parsed_closes_the_connection() {
    let handled = stream_step(
        ConnectionState::Read(IncrementalRequest::new()),
        Event::Read(b"BREW /pot HTTP/1.1\r\n".to_vec()),
    );
    assert!(matches!(state(&handled), ConnectionState::Close));
    assert!(matches!(
        handled.responses.as_slice(),
        [HandleEventResponse::EmptyCommand(CommandResponse::CloseSource(Token(7)))]
    ));
    assert!(matches!(handled.next, Next::Done));
    assert!(handled.failure.is_none());
}

#[test]
fn failure_of_the_socket_closes_the_connection() {
    for make in [
        || ConnectionState::Read(IncrementalRequest::new()),
        || ConnectionState::Write(IncrementalResponse::Serialized(b"abc".to_vec())),
    ] {
        let handled = stream_step(make(), Event::Failed(Error::new("reset".to_string())));
        assert!(matches!(state(&handled), ConnectionState::Close));
        assert!(matches!(
            handled.responses.as_slice(),
            [HandleEventResponse::EmptyCommand(CommandResponse::CloseSource(Token(7)))]
        ));
        assert_eq!(handled.failure.unwrap().message, "reset");
    }
}

#[test]
fn connection_never_goes_back() {
    let events = || {
        vec![
            Event::Ready(READABLE),
            Event::Ready(WRITABLE),
            Event::Read(b"GET / HTTP/1.1\r\n\r\n".to_vec()),
            Event::Read(Vec::new()),
            Event::Written(0),
            Event::Written(2),
            Event::WouldBlock,
            Event::Accepted(Vec::new()),
            Event::Line(b"shutdown".to_vec()),
        ]
    };
    for event in events() {
        let handled = stream_step(ConnectionState::Close, event);
        assert!(matches!(state(&handled), ConnectionState::Close));
        assert_eq!(handled.responses.len(), 0);
    }
    for event in events() {
        let handled = stream_step(ConnectionState::Write(IncrementalResponse::Serialized(b"abc".to_vec())), event);
        assert!(!matches!(state(&handled), ConnectionState::Read(_)));
    }
    for event in events() {
        let completes = matches!(&event, Event::Read(bytes) if !bytes.is_empty());
        let handled = stream_step(ConnectionState::Read(IncrementalRequest::Empty(b"GET / HT".to_vec())), event);
        assert_eq!(matches!(state(&handled), ConnectionState::Write(_)), completes);
    }
}

#[test]
fn end_of_stream_and_spurious_readiness_change_nothing() {
    let handled = stream_step(ConnectionState::Read(IncrementalRequest::Empty(b"GE".to_vec())), Event::Read(Vec::new()));
    assert!(matches!(state(&handled), ConnectionState::Read(IncrementalRequest::Empty(p)) if p == b"GE"));
    assert!(matches!(handled.next, Next::Done));
    let handled = stream_step(ConnectionState::Read(IncrementalRequest::new()), Event::Ready(WRITABLE));
    assert!(matches!(handled.next, Next::Done));
    let handled = stream_step(ConnectionState::Write(IncrementalResponse::Done), Event::Ready(READABLE));
    assert!(matches!(state(&handled), ConnectionState::Write(IncrementalResponse::Done)));
    let handled = stream_step(ConnectionState::Write(IncrementalResponse::Done), Event::Ready(WRITABLE));
    assert!(matches!(state(&handled), ConnectionState::Close));
    assert_eq!(handled.responses.len(), 1);
    let handled =
        stream_step(ConnectionState::Write(IncrementalResponse::Serialized(b"abc".to_vec())), Event::Written(99));
    assert!(matches!(handled.next, Next::Write(rest) if rest.is_empty()));
}

#[test]
fn report_on_a_token_without_source_is_a_failure() {
    let mut event_loop = started();
    let r = event_loop.dispatch(Token(9), Event::Ready(READABLE), clock(0));
    assert!(matches!(r.next, Next::Done));
    assert_eq!(r.failure.unwrap().message, "Could not find handler for token");
    assert_eq!(event_loop.len(), 2);
    assert_eq!(event_loop.pending(), 0);
    in_step(&event_loop);
}

#[test]
fn static_file_is_routed_through_questions() {
    let mut event_loop = started();
    accept(&mut event_loop, 0);
    let token = Token(2);
    let r = event_loop.dispatch(
        token,
        Event::Read(b"GET /hello.txt HTTP/1.1\r\nHost: example.local\r\n\r\n".to_vec()),
        clock(1),
    );
    let (state, lookup) = match r.next {
        Next::Ask(state, lookup) => (state, lookup),
        _ => panic!("the router asks for the document root"),
    };
    assert!(matches!(&lookup, httpd::host::Lookup::Canonicalize(p) if p == b"/www"));
    assert!(matches!(state_of(&event_loop, token), ConnectionState::Read(IncrementalRequest::Complete(_))));
    let drained = event_loop.next(2);
    assert_eq!(drained.registrations.len(), 0);
    assert_eq!(event_loop.pending(), 0);
    let r = event_loop.dispatch(
        token,
        Event::Found(state, httpd::host::Found::Canonical(Some(b"/www".to_vec()))),
        clock(3),
    );
    let (state, lookup) = match r.next {
        Next::Ask(state, lookup) => (state, lookup),
        _ => panic!("the router asks for the target"),
    };
    assert!(matches!(&lookup, httpd::host::Lookup::Canonicalize(p) if p == b"/www/hello.txt"));
    let r = event_loop.dispatch(token, Event::Found(state, httpd::host::Found::Canonical(None)), clock(4));
    assert!(matches!(r.next, Next::Done));
    assert!(matches!(state_of(&event_loop, token), ConnectionState::Write(IncrementalResponse::Pending(_))));
    event_loop.next(5);
    let r = event_loop.dispatch(token, Event::Ready(WRITABLE), clock(6));
    assert!(matches!(
        r.next,
        Next::Write(bytes) if bytes.starts_with(b"HTTP/1.1 404 Not Found\r\nServer: Rust/0.1\r\nDate: ")
    ));
}

#[test]
fn command_queue_is_first_in_first_out() {
    let mut queue = CommandQueue::new();
    assert!(queue.try_recv().is_none());
    queue.send(Command::CheckStreamTimeout(Token(1)));
    queue.send(Command::CheckStreamTimeout(Token(2)));
    assert!(matches!(queue.try_recv(), Some(Command::CheckStreamTimeout(Token(1)))));
    queue.send(Command::CheckStreamTimeout(Token(3)));
    assert!(matches!(queue.try_recv(), Some(Command::CheckStreamTimeout(Token(2)))));
    assert!(matches!(queue.try_recv(), Some(Command::CheckStreamTimeout(Token(3)))));
    assert!(queue.try_recv().is_none());
    let mut queue = CommandQueue::new();
    queue.send(Command::CheckStreamTimeout(Token(5)));
    let event_loop = EventLoop::new(queue);
    assert_eq!(event_loop.pending(), 1);
    assert_eq!(event_loop.len(), 0);
}
