//! The readiness-multiplexed event loop as a state machine: the sources it
//! holds, the commands that alone change what is registered, and the
//! handlers that turn what the sockets report into commands.

use std::collections::HashMap;
use std::collections::VecDeque;
use vstd::prelude::*;
use vstd::string::*;
use crate::config::{ServerConfig, ServerConfigView};
use crate::error::Error;
use crate::files::{capacity_for, CachedFile};
use crate::host::{
    cache_kilobytes, failure_response, finished, spec_cache_after, spec_handle_result, spec_resume, Found,
    FoundView, Host, Lookup, LookupView, Routing, RoutingView, Step, StepView,
};
use crate::http::{
    spec_parse, try_parse_request, wire_text, write_response, IncrementalRequest,
    IncrementalRequestView, IncrementalResponse, IncrementalResponseView, Request, RequestNoRemote,
    RequestNoRemoteView, RequestView,
};
use crate::text::{ascii, bytes_eq, lit, to_vec, trim, trimmed};

verus! {

broadcast use vstd::std_specs::hash::group_hash_axioms;

/// How long the poller may wait for readiness, in milliseconds.
pub const POLL_TIMEOUT: u64 = 1000;

/// How long a connection may take to send its request, in milliseconds.
pub const STREAM_TIMEOUT: u64 = 60000;

/// How many octets a single read asks for.
pub const READ_LEN: usize = 32;

/// The name of an event source, for as long as the source lives.
#[derive(Clone, Copy, Debug, PartialEq, Eq, Structural, Hash)]
pub struct Token(pub usize);

/// The readiness that a source is registered for.
#[derive(Clone, Copy, Debug, PartialEq, Eq, Structural)]
pub enum Interest {
    Readable,
    Writable,
}

/// The readiness that the poller reports of a source.
#[derive(Clone, Copy, Debug, PartialEq, Eq, Structural)]
pub struct Readiness {
    pub readable: bool,
    pub writable: bool,
}

/// The listening socket, as the loop knows it.
#[derive(Debug)]
pub struct Listener {}

/// An accepted connection, as the loop knows it: by its peer's printed
/// address.
#[derive(Debug)]
pub struct Stream {
    pub peer: Vec<u8>,
}

/// The operator's input, as the loop knows it.
#[derive(Debug)]
pub struct Stdin {}

impl Stdin {
    /// The operator's input.
    pub fn new() -> Stdin {
        Stdin {}
    }
}

/// How far a connection has come. A connection only moves forward: from
/// `Read` to `Write` to `Close`.
#[derive(Debug)]
pub enum ConnectionState {
    /// The request is arriving, or is being routed.
    Read(IncrementalRequest),
    /// The response is going out.
    Write(IncrementalResponse),
    /// The connection is done and waits to be closed.
    Close,
}

/// Something that the poller watches.
#[derive(Debug)]
pub enum EventSource {
    /// The listening socket, the last token it gave out, and the
    /// configuration that its connections are served by.
    TcpListener(Listener, usize, ServerConfig),
    /// A connection, how far it has come, the router that answers it, and
    /// the instant at which it was accepted, in milliseconds of the
    /// loop's clock.
    TcpStream(Stream, ConnectionState, Host, u64),
    /// The operator's input, and the token of the listener that it can
    /// shut down.
    Stdin(Stdin, Token),
}

/// What a command asks of the loop.
#[derive(Debug)]
pub enum CommandResponse {
    /// Watch a new source under this token for this readiness.
    NewSource(Token, EventSource, Interest),
    /// Watch the source of this token for this readiness from now on.
    ModifyInterests(Token, Interest),
    /// Stop watching the source of this token, and drop it.
    CloseSource(Token),
    /// Run this command on a later tick.
    SubmitCommand(Command),
}

/// A command: it looks at the sources of the loop and asks for at most
/// one change.
#[derive(Debug)]
pub enum Command {
    /// Ask for this change, whatever the sources are.
    Respond(Box<CommandResponse>),
    /// The timeout supervisor of the connection of this token.
    CheckStreamTimeout(Token),
}

/// What a handler asks of the loop: a change, or a command to run.
#[derive(Debug)]
pub enum HandleEventResponse {
    EmptyCommand(CommandResponse),
    Command(Command),
}

/// A change to make to the poller's registrations.
#[derive(Clone, Copy, Debug, PartialEq, Eq, Structural)]
pub enum Registration {
    /// Register the source of this token for this readiness.
    Register(Token, Interest),
    /// Register the source of this token anew, for this readiness.
    Reregister(Token, Interest),
    /// Take the source of this token out of the poller, and drop it.
    Deregister(Token),
}

/// Something for the operator's log that is no failure.
#[derive(Clone, Copy, Debug, PartialEq, Eq, Structural)]
pub enum Notice {
    /// A change of interest named a token under which there is no source.
    SourceMissing(Token),
    /// A close named a token under which there is no source any more.
    AlreadyClosed(Token),
    /// A timeout supervisor found its token to name something other than
    /// a connection.
    NotAConnection(Token),
    /// The operator entered a line that is no command.
    UnknownCommand,
}

/// Whether a connection is still waiting for its request.
pub open spec fn awaits_request(source: EventSource) -> bool {
    source matches EventSource::TcpStream(_, ConnectionState::Read(request), _, _) && !(request@
        is Complete)
}

/// What the timeout supervisor of the connection `token` asks for at the
/// instant `now`: nothing once the connection is gone or has its request;
/// to close the connection that has waited for `STREAM_TIMEOUT` or longer;
/// to be run again otherwise.
pub open spec fn spec_check_stream_timeout(
    token: Token,
    sources: Map<usize, EventSource>,
    now: u64,
) -> Option<CommandResponse> {
    if sources.contains_key(token.0) && awaits_request(sources[token.0]) {
        if now >= sources[token.0]->TcpStream_3 && now - sources[token.0]->TcpStream_3
            >= STREAM_TIMEOUT {
            Some(CommandResponse::CloseSource(token))
        } else {
            Some(CommandResponse::SubmitCommand(Command::CheckStreamTimeout(token)))
        }
    } else {
        None
    }
}

/// The timeout supervisor: what it asks for at the instant `now`, given
/// the sources of the loop.
pub fn check_stream_timeout(token: Token, event_sources: &HashMap<usize, EventSource>, now: u64)
    -> (r: Option<CommandResponse>)
    ensures
        r == spec_check_stream_timeout(token, event_sources@, now),
{
    match event_sources.get(&token.0) {
        Some(EventSource::TcpStream(_, ConnectionState::Read(request), _, accepted)) => {
            if request.is_complete() {
                None
            } else if now >= *accepted && now - *accepted >= STREAM_TIMEOUT {
                Some(CommandResponse::CloseSource(token))
            } else {
                Some(CommandResponse::SubmitCommand(Command::CheckStreamTimeout(token)))
            }
        },
        _ => None,
    }
}

/// What the timeout supervisor of `token` notes for the operator: that its
/// token names a source which is no connection.
pub open spec fn spec_timeout_notice(token: Token, sources: Map<usize, EventSource>) -> Option<
    Notice,
> {
    if sources.contains_key(token.0) && !(sources[token.0] is TcpStream) {
        Some(Notice::NotAConnection(token))
    } else {
        None
    }
}

/// What the timeout supervisor of `token` notes for the operator.
pub fn timeout_notice(token: Token, event_sources: &HashMap<usize, EventSource>) -> (r: Option<
    Notice,
>)
    ensures
        r == spec_timeout_notice(token, event_sources@),
{
    match event_sources.get(&token.0) {
        Some(EventSource::TcpStream(_, _, _, _)) => None,
        Some(_) => Some(Notice::NotAConnection(token)),
        None => None,
    }
}

/// The sources and the registrations of a loop after a command, with what
/// the command asked of the poller and of a later tick, and what there is
/// to note for the operator.
pub struct Applied {
    pub sources: Map<usize, EventSource>,
    pub registrations: Map<usize, Interest>,
    pub registration: Option<Registration>,
    pub resubmit: Option<Command>,
    pub notice: Option<Notice>,
    pub failed: bool,
}

/// What a change does to the sources and registrations of a loop. A new
/// source under a token that is taken fails, and changes nothing. A change
/// of interest or a close for a token that is not there does nothing but
/// leave a notice.
pub open spec fn spec_apply(
    sources: Map<usize, EventSource>,
    registrations: Map<usize, Interest>,
    response: Option<CommandResponse>,
) -> Applied {
    let unchanged = Applied {
        sources,
        registrations,
        registration: None,
        resubmit: None,
        notice: None,
        failed: false,
    };
    match response {
        Some(CommandResponse::NewSource(token, source, interest)) => if sources.contains_key(
            token.0,
        ) {
            Applied { failed: true, ..unchanged }
        } else {
            Applied {
                sources: sources.insert(token.0, source),
                registrations: registrations.insert(token.0, interest),
                registration: Some(Registration::Register(token, interest)),
                resubmit: None,
                notice: None,
                failed: false,
            }
        },
        Some(CommandResponse::ModifyInterests(token, interest)) => if sources.contains_key(
            token.0,
        ) {
            Applied {
                registrations: registrations.insert(token.0, interest),
                registration: Some(Registration::Reregister(token, interest)),
                ..unchanged
            }
        } else {
            Applied { notice: Some(Notice::SourceMissing(token)), ..unchanged }
        },
        Some(CommandResponse::CloseSource(token)) => if sources.contains_key(token.0) {
            Applied {
                sources: sources.remove(token.0),
                registrations: registrations.remove(token.0),
                registration: Some(Registration::Deregister(token)),
                resubmit: None,
                notice: None,
                failed: false,
            }
        } else {
            Applied { notice: Some(Notice::AlreadyClosed(token)), ..unchanged }
        },
        Some(CommandResponse::SubmitCommand(command)) => Applied {
            resubmit: Some(command),
            ..unchanged
        },
        None => unchanged,
    }
}

/// What a command asks for at the instant `now`, given the sources of the
/// loop.
pub open spec fn spec_command_response(
    sources: Map<usize, EventSource>,
    command: Command,
    now: u64,
) -> Option<CommandResponse> {
    match command {
        Command::Respond(response) => Some(*response),
        Command::CheckStreamTimeout(token) => spec_check_stream_timeout(token, sources, now),
    }
}

/// What running a command at the instant `now` does to the sources and
/// registrations of a loop.
pub open spec fn spec_execute(
    sources: Map<usize, EventSource>,
    registrations: Map<usize, Interest>,
    command: Command,
    now: u64,
) -> Applied {
    let applied = spec_apply(
        sources,
        registrations,
        spec_command_response(sources, command, now),
    );
    match command {
        Command::CheckStreamTimeout(token) => Applied {
            notice: spec_timeout_notice(token, sources),
            ..applied
        },
        Command::Respond(_) => applied,
    }
}

/// A change keeps the registrations in step with the sources.
pub proof fn lemma_apply_keeps_step(
    sources: Map<usize, EventSource>,
    registrations: Map<usize, Interest>,
    response: Option<CommandResponse>,
)
    requires
        sources.dom() == registrations.dom(),
    ensures
        spec_apply(sources, registrations, response).sources.dom() == spec_apply(
            sources,
            registrations,
            response,
        ).registrations.dom(),
{
    let after = spec_apply(sources, registrations, response);
    assert(after.sources.dom() =~= after.registrations.dom());
}

/// The commands that wait to be run, in the order in which they were
/// submitted.
#[derive(Debug)]
pub struct CommandQueue {
    commands: VecDeque<Command>,
}

impl View for CommandQueue {
    type V = Seq<Command>;

    closed spec fn view(&self) -> Seq<Command> {
        self.commands@
    }
}

impl CommandQueue {
    /// An empty queue.
    pub fn new() -> (r: CommandQueue)
        ensures
            r@ == Seq::<Command>::empty(),
    {
        CommandQueue { commands: VecDeque::new() }
    }

    /// Puts `command` at the end of the queue.
    pub fn send(&mut self, command: Command)
        ensures
            final(self)@ == old(self)@.push(command),
    {
        self.commands.push_back(command);
    }

    /// Takes the command at the front of the queue, if there is one.
    pub fn try_recv(&mut self) -> (r: Option<Command>)
        ensures
            match r {
                Some(command) => old(self)@.len() > 0 && command == old(self)@[0] && final(self)@
                    == old(self)@.skip(1),
                None => old(self)@.len() == 0 && final(self)@ == old(self)@,
            },
    {
        let r = self.commands.pop_front();
        assert(old(self)@.len() > 0 ==> old(self)@.skip(1) =~= old(self)@.subrange(
            1,
            old(self)@.len() as int,
        ));
        r
    }
}

/// What running a command came to: what it asks of the poller, the
/// command to run on a later tick, and what there is to note for the
/// operator.
#[derive(Debug)]
pub struct Executed {
    pub registration: Option<Registration>,
    pub resubmit: Option<Command>,
    pub notice: Option<Notice>,
}

#[derive(Debug)]
struct Core {
    event_sources: HashMap<usize, EventSource>,
    registered: HashMap<usize, Interest>,
    command_queue: CommandQueue,
}

impl Core {
    fn empty() -> (r: Core)
        ensures
            r.event_sources@ == Map::<usize, EventSource>::empty(),
            r.registered@ == Map::<usize, Interest>::empty(),
            r.command_queue@ == Seq::<Command>::empty(),
    {
        Core {
            event_sources: HashMap::new(),
            registered: HashMap::new(),
            command_queue: CommandQueue::new(),
        }
    }

    fn apply(&mut self, response: Option<CommandResponse>) -> (r: Result<Executed, Error>)
        ensures
            final(self).event_sources@ == spec_apply(
                old(self).event_sources@,
                old(self).registered@,
                response,
            ).sources,
            final(self).registered@ == spec_apply(
                old(self).event_sources@,
                old(self).registered@,
                response,
            ).registrations,
            final(self).command_queue@ == old(self).command_queue@,
            r matches Err(e) ==> e@ == "A source is already registered under the token"@,
            r is Err <==> spec_apply(old(self).event_sources@, old(self).registered@, response).failed,
            r matches Ok(x) ==> x.registration == spec_apply(
                old(self).event_sources@,
                old(self).registered@,
                response,
            ).registration && x.resubmit == spec_apply(
                old(self).event_sources@,
                old(self).registered@,
                response,
            ).resubmit && x.notice == spec_apply(
                old(self).event_sources@,
                old(self).registered@,
                response,
            ).notice,
    {
        match response {
            Some(CommandResponse::NewSource(token, source, interest)) => {
                if self.event_sources.contains_key(&token.0) {
                    Err(Error::of("A source is already registered under the token"))
                } else {
                    self.event_sources.insert(token.0, source);
                    self.registered.insert(token.0, interest);
                    Ok(
                        Executed {
                            registration: Some(Registration::Register(token, interest)),
                            resubmit: None,
                            notice: None,
                        },
                    )
                }
            },
            Some(CommandResponse::ModifyInterests(token, interest)) => {
                if self.event_sources.contains_key(&token.0) {
                    self.registered.insert(token.0, interest);
                    Ok(
                        Executed {
                            registration: Some(Registration::Reregister(token, interest)),
                            resubmit: None,
                            notice: None,
                        },
                    )
                } else {
                    Ok(
                        Executed {
                            registration: None,
                            resubmit: None,
                            notice: Some(Notice::SourceMissing(token)),
                        },
                    )
                }
            },
            Some(CommandResponse::CloseSource(token)) => {
                if self.event_sources.contains_key(&token.0) {
                    self.event_sources.remove(&token.0);
                    self.registered.remove(&token.0);
                    Ok(
                        Executed {
                            registration: Some(Registration::Deregister(token)),
                            resubmit: None,
                            notice: None,
                        },
                    )
                } else {
                    Ok(
                        Executed {
                            registration: None,
                            resubmit: None,
                            notice: Some(Notice::AlreadyClosed(token)),
                        },
                    )
                }
            },
            Some(CommandResponse::SubmitCommand(command)) => Ok(
                Executed { registration: None, resubmit: Some(command), notice: None },
            ),
            None => Ok(Executed { registration: None, resubmit: None, notice: None }),
        }
    }

    fn execute(&mut self, command: Command, now: u64) -> (r: Result<Executed, Error>)
        ensures
            final(self).event_sources@ == spec_execute(
                old(self).event_sources@,
                old(self).registered@,
                command,
                now,
            ).sources,
            final(self).registered@ == spec_execute(
                old(self).event_sources@,
                old(self).registered@,
                command,
                now,
            ).registrations,
            final(self).command_queue@ == old(self).command_queue@,
            r matches Err(e) ==> e@ == "A source is already registered under the token"@,
            r is Err <==> spec_execute(
                old(self).event_sources@,
                old(self).registered@,
                command,
                now,
            ).failed,
            r matches Ok(x) ==> x.registration == spec_execute(
                old(self).event_sources@,
                old(self).registered@,
                command,
                now,
            ).registration && x.resubmit == spec_execute(
                old(self).event_sources@,
                old(self).registered@,
                command,
                now,
            ).resubmit && x.notice == spec_execute(
                old(self).event_sources@,
                old(self).registered@,
                command,
                now,
            ).notice,
    {
        match command {
            Command::Respond(response) => self.apply(Some(*response)),
            Command::CheckStreamTimeout(token) => {
                let notice = timeout_notice(token, &self.event_sources);
                let response = check_stream_timeout(token, &self.event_sources, now);
                match self.apply(response) {
                    Ok(executed) => Ok(
                        Executed {
                            registration: executed.registration,
                            resubmit: executed.resubmit,
                            notice,
                        },
                    ),
                    Err(e) => Err(e),
                }
            },
        }
    }
}

/// The event loop: the sources it watches, what the poller has them
/// registered for, and the commands that wait to be run. A source is
/// registered exactly as long as the loop holds it, and only running a
/// command changes either.
#[derive(Debug)]
pub struct EventLoop {
    core: Core,
}

impl EventLoop {
    /// The sources that the loop holds, by token.
    pub closed spec fn sources(&self) -> Map<usize, EventSource> {
        self.core.event_sources@
    }

    /// The readiness that each source is registered for with the poller,
    /// by token.
    pub closed spec fn registrations(&self) -> Map<usize, Interest> {
        self.core.registered@
    }

    /// The commands that wait to be run, oldest first.
    pub closed spec fn queued(&self) -> Seq<Command> {
        self.core.command_queue@
    }

    /// The tokens of the sources are the tokens that are registered.
    pub open spec fn in_step(&self) -> bool {
        self.sources().dom() == self.registrations().dom()
    }

    #[verifier::type_invariant]
    spec fn type_invariant(&self) -> bool {
        self.in_step()
    }

    /// A loop without sources, with the commands of `command_queue` to
    /// run.
    pub fn new(command_queue: CommandQueue) -> (r: EventLoop)
        ensures
            r.sources() == Map::<usize, EventSource>::empty(),
            r.registrations() == Map::<usize, Interest>::empty(),
            r.queued() == command_queue@,
            r.in_step(),
    {
        EventLoop {
            core: Core {
                event_sources: HashMap::new(),
                registered: HashMap::new(),
                command_queue,
            },
        }
    }

    /// Queues `command` to be run on the next tick.
    pub fn submit(&mut self, command: Command)
        ensures
            final(self).queued() == old(self).queued().push(command),
            final(self).sources() == old(self).sources(),
            final(self).registrations() == old(self).registrations(),
            final(self).in_step(),
    {
        proof {
            use_type_invariant(&*self);
        }
        let mut core = Core::empty();
        std::mem::swap(&mut self.core, &mut core);
        core.command_queue.send(command);
        std::mem::swap(&mut self.core, &mut core);
    }

    /// The source that the loop holds under `token`.
    pub fn source(&self, token: Token) -> (r: Option<&EventSource>)
        ensures
            self.in_step(),
            match r {
                Some(source) => self.sources().contains_key(token.0) && *source
                    == self.sources()[token.0],
                None => !self.sources().contains_key(token.0),
            },
    {
        proof {
            use_type_invariant(self);
        }
        self.core.event_sources.get(&token.0)
    }

    /// The readiness that the source of `token` is registered for.
    pub fn interest(&self, token: Token) -> (r: Option<Interest>)
        ensures
            self.in_step(),
            match r {
                Some(interest) => self.registrations().contains_key(token.0) && interest
                    == self.registrations()[token.0],
                None => !self.registrations().contains_key(token.0),
            },
    {
        proof {
            use_type_invariant(self);
        }
        match self.core.registered.get(&token.0) {
            Some(interest) => Some(*interest),
            None => None,
        }
    }

    /// The number of sources that the loop holds.
    pub fn len(&self) -> (r: usize)
        ensures
            r == self.sources().len(),
            self.in_step(),
    {
        proof {
            use_type_invariant(self);
        }
        self.core.event_sources.len()
    }

    /// The number of commands that wait to be run.
    pub fn pending(&self) -> (r: usize)
        ensures
            r == self.queued().len(),
    {
        self.core.command_queue.commands.len()
    }

    /// Runs `command` at the instant `now`: the only way in which sources
    /// enter and leave the loop and registrations change. Fails, and
    /// changes nothing, where the command asks for a new source under a
    /// token that is taken.
    pub fn execute_command(&mut self, command: Command, now: u64) -> (r: Result<Executed, Error>)
        ensures
            final(self).sources() == spec_execute(
                old(self).sources(),
                old(self).registrations(),
                command,
                now,
            ).sources,
            final(self).registrations() == spec_execute(
                old(self).sources(),
                old(self).registrations(),
                command,
                now,
            ).registrations,
            final(self).queued() == old(self).queued(),
            final(self).in_step(),
            r is Err <==> spec_execute(
                old(self).sources(),
                old(self).registrations(),
                command,
                now,
            ).failed,
            r matches Ok(x) ==> x.registration == spec_execute(
                old(self).sources(),
                old(self).registrations(),
                command,
                now,
            ).registration && x.resubmit == spec_execute(
                old(self).sources(),
                old(self).registrations(),
                command,
                now,
            ).resubmit && x.notice == spec_execute(
                old(self).sources(),
                old(self).registrations(),
                command,
                now,
            ).notice,
            r matches Err(e) ==> e@ == "A source is already registered under the token"@,
    {
        proof {
            use_type_invariant(&*self);
            lemma_apply_keeps_step(
                self.sources(),
                self.registrations(),
                spec_command_response(self.sources(), command, now),
            );
        }
        let mut core = Core::empty();
        std::mem::swap(&mut self.core, &mut core);
        let r = core.execute(command, now);
        std::mem::swap(&mut self.core, &mut core);
        r
    }
}

/// The two clocks that the embedding program reads for the loop.
#[derive(Clone, Copy, Debug)]
pub struct Clock {
    /// A clock that never goes back, in milliseconds.
    pub monotonic: u64,
    /// The time of day, in seconds since the Unix epoch.
    pub wall: i64,
}

/// What the embedding program reports of a source.
#[derive(Debug)]
pub enum Event {
    /// The poller found the source ready.
    Ready(Readiness),
    /// The listener accepted a connection from the peer of this address.
    Accepted(Vec<u8>),
    /// The operator entered this line.
    Line(Vec<u8>),
    /// The connection delivered these octets; none at the end of the
    /// stream.
    Read(Vec<u8>),
    /// The answer to the question that the router asked in this state.
    Found(Routing, Found),
    /// The connection took this many of the octets it was given.
    Written(usize),
    /// What was attempted would have blocked.
    WouldBlock,
    /// What was attempted failed.
    Failed(Error),
}

/// What the embedding program is to do next with a source.
#[derive(Debug)]
pub enum Next {
    /// Try to accept a connection, and report `Accepted` or `WouldBlock`.
    Accept,
    /// Read a line of the operator's input, and report `Line`.
    ReadLine,
    /// Try to read up to `READ_LEN` octets, and report `Read` or
    /// `WouldBlock`.
    Read,
    /// Answer the router's question, and report `Found` with this state.
    Ask(Routing, Lookup),
    /// Try to write these octets, and report `Written` or `WouldBlock`.
    Write(Vec<u8>),
    /// Nothing: the source waits for the poller.
    Done,
}

/// How far a connection has come, as a mathematical value.
pub enum ConnectionStateView {
    Read(IncrementalRequestView),
    Write(IncrementalResponseView),
    Close,
}

impl View for ConnectionState {
    type V = ConnectionStateView;

    open spec fn view(&self) -> ConnectionStateView {
        match self {
            ConnectionState::Read(r) => ConnectionStateView::Read(r@),
            ConnectionState::Write(r) => ConnectionStateView::Write(r@),
            ConnectionState::Close => ConnectionStateView::Close,
        }
    }
}

/// A report on a connection as a mathematical value.
pub enum StreamEvent {
    Ready(Readiness),
    Read(Seq<u8>),
    Found(RoutingView, FoundView),
    Written(nat),
    WouldBlock,
    Failed,
    Other,
}

impl View for Event {
    type V = StreamEvent;

    open spec fn view(&self) -> StreamEvent {
        match self {
            Event::Ready(r) => StreamEvent::Ready(*r),
            Event::Read(bytes) => StreamEvent::Read(bytes@),
            Event::Found(state, found) => StreamEvent::Found(state@, found@),
            Event::Written(n) => StreamEvent::Written(*n as nat),
            Event::WouldBlock => StreamEvent::WouldBlock,
            Event::Failed(_) => StreamEvent::Failed,
            _ => StreamEvent::Other,
        }
    }
}

/// What a connection asks of the loop.
pub enum Asked {
    /// Nothing.
    Nothing,
    /// To be watched for writability from now on.
    Writable,
    /// To be closed.
    Close,
}

/// What is next for a connection, as a mathematical value.
pub enum NextView {
    Read,
    Ask(RoutingView, LookupView),
    Write(Seq<u8>),
    Done,
    Other,
}

impl View for Next {
    type V = NextView;

    open spec fn view(&self) -> NextView {
        match self {
            Next::Read => NextView::Read,
            Next::Ask(state, lookup) => NextView::Ask(state@, lookup@),
            Next::Write(bytes) => NextView::Write(bytes@),
            Next::Done => NextView::Done,
            _ => NextView::Other,
        }
    }
}

/// What a report makes of a connection: its new state, the router's
/// cache, what it asks of the loop, what is next, and whether the report
/// was one of failure.
pub struct StreamStep {
    pub state: ConnectionStateView,
    pub cache: Seq<CachedFile>,
    pub asked: Asked,
    pub next: NextView,
    pub failed: bool,
}

/// A request with the peer that sent it.
pub open spec fn with_peer(request: RequestNoRemoteView, peer: Seq<u8>) -> RequestView {
    RequestView { header: request.header, remote: peer, body: request.body }
}

/// What a step of the router makes of a connection whose request is
/// `request`: a question keeps it reading, an answer turns it to writing
/// the finished response.
pub open spec fn spec_routed(
    request: RequestNoRemoteView,
    cache: Seq<CachedFile>,
    step: StepView,
    wall: i64,
) -> StreamStep {
    match step {
        StepView::Ask(state, lookup) => StreamStep {
            state: ConnectionStateView::Read(IncrementalRequestView::Complete(request)),
            cache,
            asked: Asked::Nothing,
            next: NextView::Ask(state, lookup),
            failed: false,
        },
        StepView::Answer(response) => StreamStep {
            state: ConnectionStateView::Write(
                IncrementalResponseView::Pending(finished(response, wall)),
            ),
            cache,
            asked: Asked::Writable,
            next: NextView::Done,
            failed: false,
        },
        StepView::Refuse(status) => StreamStep {
            state: ConnectionStateView::Write(
                IncrementalResponseView::Pending(finished(failure_response(status), wall)),
            ),
            cache,
            asked: Asked::Writable,
            next: NextView::Done,
            failed: false,
        },
    }
}

/// What a failure of its socket makes of a connection: it is done, asks to
/// be closed, and the failure is reported.
pub open spec fn spec_broken(cache: Seq<CachedFile>) -> StreamStep {
    StreamStep {
        state: ConnectionStateView::Close,
        cache,
        asked: Asked::Close,
        next: NextView::Done,
        failed: true,
    }
}

/// What a report makes of a connection that is reading its request. A
/// request that cannot be parsed ends the connection. A request that is
/// complete goes to the router at once, as one of a server that is not
/// overloaded.
pub open spec fn spec_read_step(
    request: IncrementalRequestView,
    peer: Seq<u8>,
    config: ServerConfigView,
    cache: Seq<CachedFile>,
    event: StreamEvent,
    wall: i64,
) -> StreamStep {
    let waiting = StreamStep {
        state: ConnectionStateView::Read(request),
        cache,
        asked: Asked::Nothing,
        next: NextView::Done,
        failed: false,
    };
    match (request, event) {
        (_, StreamEvent::Failed) => spec_broken(cache),
        (IncrementalRequestView::Complete(r), StreamEvent::Found(state, found)) => spec_routed(
            r,
            spec_cache_after(cache, state, found),
            spec_resume(config, cache, with_peer(r, peer), state, found),
            wall,
        ),
        (IncrementalRequestView::Complete(_), _) => waiting,
        (_, StreamEvent::Ready(readiness)) => if readiness.readable {
            StreamStep { next: NextView::Read, ..waiting }
        } else {
            waiting
        },
        (_, StreamEvent::Read(bytes)) => if bytes.len() == 0 {
            waiting
        } else {
            match spec_parse(bytes, request) {
                Err(_) => StreamStep {
                    state: ConnectionStateView::Close,
                    cache,
                    asked: Asked::Close,
                    next: NextView::Done,
                    failed: false,
                },
                Ok(IncrementalRequestView::Complete(r)) => spec_routed(
                    r,
                    cache,
                    spec_handle_result(config, with_peer(r, peer), false),
                    wall,
                ),
                Ok(more) => StreamStep {
                    state: ConnectionStateView::Read(more),
                    cache,
                    asked: Asked::Nothing,
                    next: NextView::Read,
                    failed: false,
                },
            }
        },
        _ => waiting,
    }
}

/// What a report makes of a connection that is writing its response. The
/// response is serialized when the connection is first found writable;
/// every write that makes progress shortens what is left; a write that
/// takes nothing ends the response, and the connection asks to be closed.
pub open spec fn spec_write_step(
    response: IncrementalResponseView,
    cache: Seq<CachedFile>,
    event: StreamEvent,
) -> StreamStep {
    let waiting = StreamStep {
        state: ConnectionStateView::Write(response),
        cache,
        asked: Asked::Nothing,
        next: NextView::Done,
        failed: false,
    };
    let closing = StreamStep {
        state: ConnectionStateView::Close,
        cache,
        asked: Asked::Close,
        next: NextView::Done,
        failed: false,
    };
    match (response, event) {
        (_, StreamEvent::Failed) => spec_broken(cache),
        (_, StreamEvent::Ready(readiness)) => if !readiness.writable {
            waiting
        } else {
            match response {
                IncrementalResponseView::Pending(r) => StreamStep {
                    state: ConnectionStateView::Write(
                        IncrementalResponseView::Serialized(wire_text(r)),
                    ),
                    next: NextView::Write(wire_text(r)),
                    ..waiting
                },
                IncrementalResponseView::Serialized(bytes) => StreamStep {
                    next: NextView::Write(bytes),
                    ..waiting
                },
                IncrementalResponseView::Done => closing,
            }
        },
        (IncrementalResponseView::Serialized(bytes), StreamEvent::Written(n)) => if n == 0 {
            closing
        } else {
            let rest = if n <= bytes.len() {
                bytes.skip(n as int)
            } else {
                Seq::empty()
            };
            StreamStep {
                state: ConnectionStateView::Write(IncrementalResponseView::Serialized(rest)),
                next: NextView::Write(rest),
                ..waiting
            }
        },
        _ => waiting,
    }
}

/// What a report makes of a connection.
pub open spec fn spec_stream_step(
    state: ConnectionStateView,
    peer: Seq<u8>,
    config: ServerConfigView,
    cache: Seq<CachedFile>,
    event: StreamEvent,
    wall: i64,
) -> StreamStep {
    match state {
        ConnectionStateView::Read(request) => spec_read_step(
            request,
            peer,
            config,
            cache,
            event,
            wall,
        ),
        ConnectionStateView::Write(response) => spec_write_step(response, cache, event),
        ConnectionStateView::Close => StreamStep {
            state,
            cache,
            asked: Asked::Nothing,
            next: NextView::Done,
            failed: event is Failed,
        },
    }
}

/// The requests of a connection to the loop, for the connection `token`.
pub open spec fn asks(responses: Seq<HandleEventResponse>, token: Token, asked: Asked) -> bool {
    match asked {
        Asked::Nothing => responses.len() == 0,
        Asked::Writable => responses == seq![
            HandleEventResponse::EmptyCommand(
                CommandResponse::ModifyInterests(token, Interest::Writable),
            ),
        ],
        Asked::Close => responses == seq![
            HandleEventResponse::EmptyCommand(CommandResponse::CloseSource(token)),
        ],
    }
}

/// A connection only moves forward: once it writes it never reads again,
/// once it is done it stays done; and it comes to write only from a
/// request that is complete, or that the octets just read complete.
pub proof fn lemma_stream_moves_forward(
    state: ConnectionStateView,
    peer: Seq<u8>,
    config: ServerConfigView,
    cache: Seq<CachedFile>,
    event: StreamEvent,
    wall: i64,
)
    ensures
        state is Write ==> !(spec_stream_step(state, peer, config, cache, event, wall).state
            is Read),
        state is Close ==> spec_stream_step(state, peer, config, cache, event, wall).state is Close,
        (state is Read && spec_stream_step(state, peer, config, cache, event, wall).state
            is Write) ==> (state->Read_0 is Complete || (event is Read && spec_parse(
            event->Read_0,
            state->Read_0,
        ) is Ok && spec_parse(event->Read_0, state->Read_0)->Ok_0 is Complete)),
{
}

/// What handling a report came to: the source as it is now, what it asks
/// of the loop, what the embedding program is to do next, and the notice
/// and the failure that there are for the operator.
#[derive(Debug)]
pub struct Handled {
    pub source: EventSource,
    pub responses: Vec<HandleEventResponse>,
    pub next: Next,
    pub notice: Option<Notice>,
    pub failure: Option<Error>,
}

/// Whether what handling a report on a connection came to is what the
/// report makes of the connection.
pub open spec fn stream_handled(
    handled: Handled,
    token: Token,
    peer: Seq<u8>,
    config: ServerConfigView,
    capacity: usize,
    accept_time: u64,
    step: StreamStep,
) -> bool {
    &&& handled.source matches EventSource::TcpStream(stream, state, host, at)
    &&& stream.peer@ == peer
    &&& state@ == step.state
    &&& host.config() == config
    &&& host.cache() == step.cache
    &&& host.cache_capacity() == capacity
    &&& at == accept_time
    &&& asks(handled.responses@, token, step.asked)
    &&& handled.next@ == step.next
    &&& handled.notice is None
    &&& handled.failure is Some <==> step.failed
}

/// Whether the failure that handling a report came to is the failure that
/// was reported.
pub open spec fn passes_failure(handled: Handled, event: Event) -> bool {
    event matches Event::Failed(e) ==> handled.failure == Some(e)
}

fn settled(
    token: Token,
    stream: Stream,
    state: ConnectionState,
    request_handler: Host,
    accept_time: u64,
    asked_close: bool,
    failure: Option<Error>,
) -> (r: Handled)
    ensures
        r.failure == failure,
        stream_handled(
            r,
            token,
            stream.peer@,
            request_handler.config(),
            request_handler.cache_capacity(),
            accept_time,
            StreamStep {
                state: state@,
                cache: request_handler.cache(),
                asked: if asked_close {
                    Asked::Close
                } else {
                    Asked::Nothing
                },
                next: NextView::Done,
                failed: failure is Some,
            },
        ),
{
    let mut responses: Vec<HandleEventResponse> = Vec::new();
    if asked_close {
        responses.push(HandleEventResponse::EmptyCommand(CommandResponse::CloseSource(token)));
        assert(responses@ =~= seq![
            HandleEventResponse::EmptyCommand(CommandResponse::CloseSource(token)),
        ]);
    }
    Handled {
        source: EventSource::TcpStream(stream, state, request_handler, accept_time),
        responses,
        next: Next::Done,
        notice: None,
        failure,
    }
}

fn routed(
    token: Token,
    stream: Stream,
    request: Request,
    request_handler: Host,
    accept_time: u64,
    step: Step,
    wall: i64,
) -> (r: Handled)
    ensures
        stream_handled(
            r,
            token,
            stream.peer@,
            request_handler.config(),
            request_handler.cache_capacity(),
            accept_time,
            spec_routed(
                RequestNoRemoteView { header: request@.header, body: request@.body },
                request_handler.cache(),
                step@,
                wall,
            ),
        ),
{
    match step {
        Step::Ask(state, lookup) => {
            let held = RequestNoRemote { header: request.header, body: request.body };
            Handled {
                source: EventSource::TcpStream(
                    stream,
                    ConnectionState::Read(IncrementalRequest::Complete(held)),
                    request_handler,
                    accept_time,
                ),
                responses: Vec::new(),
                next: Next::Ask(state, lookup),
                notice: None,
                failure: None,
            }
        },
        Step::Done(outcome) => {
            let response = request_handler.handle(outcome, wall);
            let mut responses: Vec<HandleEventResponse> = Vec::new();
            responses.push(
                HandleEventResponse::EmptyCommand(
                    CommandResponse::ModifyInterests(token, Interest::Writable),
                ),
            );
            assert(responses@ =~= seq![
                HandleEventResponse::EmptyCommand(
                    CommandResponse::ModifyInterests(token, Interest::Writable),
                ),
            ]);
            Handled {
                source: EventSource::TcpStream(
                    stream,
                    ConnectionState::Write(IncrementalResponse::Pending(response)),
                    request_handler,
                    accept_time,
                ),
                responses,
                next: Next::Done,
                notice: None,
                failure: None,
            }
        },
    }
}

fn handle_read(
    event: Event,
    token: Token,
    stream: Stream,
    request: IncrementalRequest,
    request_handler: Host,
    accept_time: u64,
    wall: i64,
) -> (r: Handled)
    ensures
        passes_failure(r, event),
        stream_handled(
            r,
            token,
            stream.peer@,
            request_handler.config(),
            request_handler.cache_capacity(),
            accept_time,
            spec_read_step(
                request@,
                stream.peer@,
                request_handler.config(),
                request_handler.cache(),
                event@,
                wall,
            ),
        ),
{
    match (request, event) {
        (_, Event::Failed(e)) => settled(
            token,
            stream,
            ConnectionState::Close,
            request_handler,
            accept_time,
            true,
            Some(e),
        ),
        (IncrementalRequest::Complete(held), Event::Found(state, found)) => {
            let mut request_handler = request_handler;
            let peer = to_vec(stream.peer.as_slice());
            let request = Request::from_no_remote(held, peer);
            let step = request_handler.resume(&request, state, found);
            routed(token, stream, request, request_handler, accept_time, step, wall)
        },
        (IncrementalRequest::Complete(held), _) => settled(
            token,
            stream,
            ConnectionState::Read(IncrementalRequest::Complete(held)),
            request_handler,
            accept_time,
            false,
            None,
        ),
        (request, Event::Ready(readiness)) => {
            let mut handled = settled(
                token,
                stream,
                ConnectionState::Read(request),
                request_handler,
                accept_time,
                false,
                None,
            );
            if readiness.readable {
                handled.next = Next::Read;
            }
            handled
        },
        (request, Event::Read(bytes)) => {
            if bytes.len() == 0 {
                return settled(
                    token,
                    stream,
                    ConnectionState::Read(request),
                    request_handler,
                    accept_time,
                    false,
                    None,
                );
            }
            match try_parse_request(bytes.as_slice(), request) {
                Err(_) => settled(
                    token,
                    stream,
                    ConnectionState::Close,
                    request_handler,
                    accept_time,
                    true,
                    None,
                ),
                Ok(IncrementalRequest::Complete(held)) => {
                    let peer = to_vec(stream.peer.as_slice());
                    let request = Request::from_no_remote(held, peer);
                    let step = request_handler.handle_result(&request, false);
                    routed(token, stream, request, request_handler, accept_time, step, wall)
                },
                Ok(more) => {
                    let mut handled = settled(
                        token,
                        stream,
                        ConnectionState::Read(more),
                        request_handler,
                        accept_time,
                        false,
                        None,
                    );
                    handled.next = Next::Read;
                    handled
                },
            }
        },
        (request, _) => settled(
            token,
            stream,
            ConnectionState::Read(request),
            request_handler,
            accept_time,
            false,
            None,
        ),
    }
}

fn handle_write(
    event: Event,
    token: Token,
    stream: Stream,
    response: IncrementalResponse,
    request_handler: Host,
    accept_time: u64,
) -> (r: Handled)
    ensures
        passes_failure(r, event),
        stream_handled(
            r,
            token,
            stream.peer@,
            request_handler.config(),
            request_handler.cache_capacity(),
            accept_time,
            spec_write_step(response@, request_handler.cache(), event@),
        ),
{
    match (response, event) {
        (_, Event::Failed(e)) => settled(
            token,
            stream,
            ConnectionState::Close,
            request_handler,
            accept_time,
            true,
            Some(e),
        ),
        (response, Event::Ready(readiness)) => {
            if !readiness.writable {
                return settled(
                    token,
                    stream,
                    ConnectionState::Write(response),
                    request_handler,
                    accept_time,
                    false,
                    None,
                );
            }
            match response {
                IncrementalResponse::Pending(r) => {
                    let bytes = write_response(r);
                    let copy = to_vec(bytes.as_slice());
                    let mut handled = settled(
                        token,
                        stream,
                        ConnectionState::Write(IncrementalResponse::Serialized(bytes)),
                        request_handler,
                        accept_time,
                        false,
                        None,
                    );
                    handled.next = Next::Write(copy);
                    handled
                },
                IncrementalResponse::Serialized(bytes) => {
                    let copy = to_vec(bytes.as_slice());
                    let mut handled = settled(
                        token,
                        stream,
                        ConnectionState::Write(IncrementalResponse::Serialized(bytes)),
                        request_handler,
                        accept_time,
                        false,
                        None,
                    );
                    handled.next = Next::Write(copy);
                    handled
                },
                IncrementalResponse::Done => settled(
                    token,
                    stream,
                    ConnectionState::Close,
                    request_handler,
                    accept_time,
                    true,
                    None,
                ),
            }
        },
        (IncrementalResponse::Serialized(bytes), Event::Written(n)) => {
            if n == 0 {
                return settled(
                    token,
                    stream,
                    ConnectionState::Close,
                    request_handler,
                    accept_time,
                    true,
                    None,
                );
            }
            let rest = if n <= bytes.len() {
                to_vec(vstd::slice::slice_subrange(bytes.as_slice(), n, bytes.len()))
            } else {
                Vec::new()
            };
            let copy = to_vec(rest.as_slice());
            let mut handled = settled(
                token,
                stream,
                ConnectionState::Write(IncrementalResponse::Serialized(rest)),
                request_handler,
                accept_time,
                false,
                None,
            );
            handled.next = Next::Write(copy);
            handled
        },
        (response, _) => settled(
            token,
            stream,
            ConnectionState::Write(response),
            request_handler,
            accept_time,
            false,
            None,
        ),
    }
}

/// Handles a report on a connection: reads the request as its octets
/// arrive, has the router answer it once it is complete, and writes the
/// response out. `wall` is the time of day, in seconds since the Unix
/// epoch.
pub fn handle_stream_event(
    event: Event,
    token: Token,
    stream: Stream,
    connection_state: ConnectionState,
    request_handler: Host,
    accept_time: u64,
    wall: i64,
) -> (r: Handled)
    ensures
        passes_failure(r, event),
        stream_handled(
            r,
            token,
            stream.peer@,
            request_handler.config(),
            request_handler.cache_capacity(),
            accept_time,
            spec_stream_step(
                connection_state@,
                stream.peer@,
                request_handler.config(),
                request_handler.cache(),
                event@,
                wall,
            ),
        ),
{
    match connection_state {
        ConnectionState::Read(request) => handle_read(
            event,
            token,
            stream,
            request,
            request_handler,
            accept_time,
            wall,
        ),
        ConnectionState::Write(response) => handle_write(
            event,
            token,
            stream,
            response,
            request_handler,
            accept_time,
        ),
        ConnectionState::Close => {
            let failure = match event {
                Event::Failed(e) => Some(e),
                _ => None,
            };
            settled(
                token,
                stream,
                ConnectionState::Close,
                request_handler,
                accept_time,
                false,
                failure,
            )
        },
    }
}

/// Whether a source is the listener with this counter and configuration.
pub open spec fn is_listener(source: EventSource, token_counter: usize, config: ServerConfigView)
    -> bool {
    source matches EventSource::TcpListener(_, counter, c) && counter == token_counter && c@
        == config
}

/// Whether a source is a connection from `peer` that was accepted at the
/// instant `now` and has read nothing yet, with a router for `config`
/// whose cache is empty.
pub open spec fn is_fresh_stream(
    source: EventSource,
    peer: Seq<u8>,
    config: ServerConfigView,
    now: u64,
) -> bool {
    &&& source matches EventSource::TcpStream(stream, state, host, at)
    &&& stream.peer@ == peer
    &&& state@ == ConnectionStateView::Read(IncrementalRequestView::Empty(Seq::empty()))
    &&& host.config() == config
    &&& host.cache() == Seq::<CachedFile>::empty()
    &&& host.cache_capacity() == capacity_for(cache_kilobytes(config.directives))
    &&& at == now
}

/// Whether the requests are those of a listener that accepted a
/// connection from `peer` and named it `token`: first the new source, to
/// be watched for readability, then its timeout supervisor.
pub open spec fn announces(
    responses: Seq<HandleEventResponse>,
    token: Token,
    peer: Seq<u8>,
    config: ServerConfigView,
    now: u64,
) -> bool {
    &&& responses.len() == 2
    &&& responses[0] matches HandleEventResponse::EmptyCommand(
        CommandResponse::NewSource(t, source, interest),
    )
    &&& t == token
    &&& interest == Interest::Readable
    &&& is_fresh_stream(source, peer, config, now)
    &&& responses[1] == HandleEventResponse::Command(Command::CheckStreamTimeout(token))
}

/// Whether what handling a report on the listener came to is what the
/// report calls for. Readiness calls for an attempt to accept. A
/// connection that was accepted gets the next token, strictly greater
/// than any token given out before, is announced to the loop, and calls
/// for another attempt. Nothing else changes the listener.
pub open spec fn listener_handled(
    handled: Handled,
    event: Event,
    token_counter: usize,
    config: ServerConfigView,
    now: u64,
) -> bool {
    handled.notice is None && match event {
        Event::Ready(_) => is_listener(handled.source, token_counter, config)
            && handled.responses@.len() == 0 && handled.next is Accept && handled.failure is None,
        Event::Accepted(peer) => if token_counter < usize::MAX {
            is_listener(handled.source, (token_counter + 1) as usize, config) && announces(
                handled.responses@,
                Token((token_counter + 1) as usize),
                peer@,
                config,
                now,
            ) && handled.next is Accept && handled.failure is None
        } else {
            is_listener(handled.source, token_counter, config) && handled.responses@.len() == 0
                && handled.next is Done && handled.failure is Some
        },
        Event::Failed(e) => is_listener(handled.source, token_counter, config)
            && handled.responses@.len() == 0 && handled.next is Done && handled.failure == Some(e),
        _ => is_listener(handled.source, token_counter, config) && handled.responses@.len() == 0
            && handled.next is Done && handled.failure is None,
    }
}

/// The tokens that a listener gives out grow strictly: a connection that
/// is accepted is named by a token greater than the last one, and that
/// token is the last one from then on.
pub proof fn lemma_tokens_grow(
    handled: Handled,
    event: Event,
    token_counter: usize,
    config: ServerConfigView,
    now: u64,
)
    requires
        listener_handled(handled, event, token_counter, config, now),
    ensures
        handled.source is TcpListener,
        handled.source->TcpListener_1 >= token_counter,
        handled.responses@.len() > 0 ==> {
            &&& handled.responses@[0] matches HandleEventResponse::EmptyCommand(
                CommandResponse::NewSource(token, _, _),
            )
            &&& token.0 > token_counter
            &&& token.0 == handled.source->TcpListener_1
        },
{
}

/// Handles a report on the listener. `now` is the instant of the report,
/// in milliseconds of the loop's clock.
pub fn handle_listener_event(
    event: Event,
    listener: Listener,
    token_counter: usize,
    server_config: ServerConfig,
    now: u64,
) -> (r: Handled)
    ensures
        listener_handled(r, event, token_counter, server_config@, now),
{
    match event {
        Event::Ready(_) => Handled {
            source: EventSource::TcpListener(listener, token_counter, server_config),
            responses: Vec::new(),
            next: Next::Accept,
            notice: None,
            failure: None,
        },
        Event::Accepted(peer) => {
            if token_counter == usize::MAX {
                return Handled {
                    source: EventSource::TcpListener(listener, token_counter, server_config),
                    responses: Vec::new(),
                    next: Next::Done,
                    notice: None,
                    failure: Some(Error::of("No token is left for the connection")),
                };
            }
            let token_counter: usize = token_counter + 1;
            let token = Token(token_counter);
            let stream_source = EventSource::TcpStream(
                Stream { peer },
                ConnectionState::Read(IncrementalRequest::new()),
                Host::new(server_config.clone()),
                now,
            );
            let mut responses: Vec<HandleEventResponse> = Vec::new();
            responses.push(
                HandleEventResponse::EmptyCommand(
                    CommandResponse::NewSource(token, stream_source, Interest::Readable),
                ),
            );
            responses.push(HandleEventResponse::Command(Command::CheckStreamTimeout(token)));
            Handled {
                source: EventSource::TcpListener(listener, token_counter, server_config),
                responses,
                next: Next::Accept,
                notice: None,
                failure: None,
            }
        },
        Event::Failed(e) => Handled {
            source: EventSource::TcpListener(listener, token_counter, server_config),
            responses: Vec::new(),
            next: Next::Done,
            notice: None,
            failure: Some(e),
        },
        _ => Handled {
            source: EventSource::TcpListener(listener, token_counter, server_config),
            responses: Vec::new(),
            next: Next::Done,
            notice: None,
            failure: None,
        },
    }
}

/// The line that shuts the listener down.
pub open spec fn shutdown() -> Seq<u8> {
    ascii("shutdown"@)
}

/// Whether what handling a report on the operator's input came to is what
/// the report calls for. Readability calls for a line to be read. The
/// line `shutdown`, trimmed, asks for the listener to be closed; any
/// other line asks for nothing, and is noted as no command.
pub open spec fn stdin_handled(handled: Handled, event: Event, listener_token: Token) -> bool {
    &&& handled.source matches EventSource::Stdin(_, t)
    &&& t == listener_token
    &&& match event {
        Event::Ready(readiness) => handled.responses@.len() == 0 && handled.failure is None
            && handled.notice is None && (if readiness.readable {
            handled.next is ReadLine
        } else {
            handled.next is Done
        }),
        Event::Line(line) => handled.next is Done && handled.failure is None && (if trim(line@)
            == shutdown() {
            handled.notice is None && handled.responses@ == seq![
                HandleEventResponse::EmptyCommand(CommandResponse::CloseSource(listener_token)),
            ]
        } else {
            handled.notice == Some(Notice::UnknownCommand) && handled.responses@.len() == 0
        }),
        Event::Failed(e) => handled.responses@.len() == 0 && handled.next is Done
            && handled.notice is None && handled.failure == Some(e),
        _ => handled.responses@.len() == 0 && handled.next is Done && handled.notice is None
            && handled.failure is None,
    }
}

/// Handles a report on the operator's input.
pub fn handle_stdin_event(event: Event, stdin: Stdin, listener_token: Token) -> (r: Handled)
    ensures
        stdin_handled(r, event, listener_token),
{
    proof {
        reveal_strlit("shutdown");
    }
    let mut responses: Vec<HandleEventResponse> = Vec::new();
    let mut next = Next::Done;
    let mut notice: Option<Notice> = None;
    let mut failure: Option<Error> = None;
    match event {
        Event::Ready(readiness) => {
            if readiness.readable {
                next = Next::ReadLine;
            }
        },
        Event::Line(line) => {
            if bytes_eq(trimmed(line.as_slice()), lit("shutdown")) {
                responses.push(
                    HandleEventResponse::EmptyCommand(CommandResponse::CloseSource(listener_token)),
                );
                assert(responses@ =~= seq![
                    HandleEventResponse::EmptyCommand(CommandResponse::CloseSource(listener_token)),
                ]);
            } else {
                notice = Some(Notice::UnknownCommand);
            }
        },
        Event::Failed(e) => {
            failure = Some(e);
        },
        _ => {},
    }
    Handled { source: EventSource::Stdin(stdin, listener_token), responses, next, notice, failure }
}

/// Whether what handling a report on a source came to is what the report
/// calls for, by the kind of the source.
pub open spec fn source_handled(
    handled: Handled,
    source: EventSource,
    event: Event,
    token: Token,
    clock: Clock,
) -> bool {
    match source {
        EventSource::TcpListener(_, token_counter, config) => listener_handled(
            handled,
            event,
            token_counter,
            config@,
            clock.monotonic,
        ),
        EventSource::TcpStream(stream, state, host, accept_time) => stream_handled(
            handled,
            token,
            stream.peer@,
            host.config(),
            host.cache_capacity(),
            accept_time,
            spec_stream_step(state@, stream.peer@, host.config(), host.cache(), event@, clock.wall),
        ) && passes_failure(handled, event),
        EventSource::Stdin(_, listener_token) => stdin_handled(handled, event, listener_token),
    }
}

impl EventSource {
    /// Handles a report on this source, by its kind.
    pub fn handle_event(self, event: Event, token: Token, clock: Clock) -> (r: Handled)
        ensures
            source_handled(r, self, event, token, clock),
    {
        match self {
            EventSource::TcpListener(listener, token_counter, server_config) => {
                handle_listener_event(event, listener, token_counter, server_config, clock.monotonic)
            },
            EventSource::TcpStream(stream, connection_state, request_handler, accept_time) => {
                handle_stream_event(
                    event,
                    token,
                    stream,
                    connection_state,
                    request_handler,
                    accept_time,
                    clock.wall,
                )
            },
            EventSource::Stdin(stdin, listener_token) => handle_stdin_event(
                event,
                stdin,
                listener_token,
            ),
        }
    }
}

/// The command that a handler's request is queued as.
pub open spec fn command_of(response: HandleEventResponse) -> Command {
    match response {
        HandleEventResponse::EmptyCommand(r) => Command::Respond(Box::new(r)),
        HandleEventResponse::Command(c) => c,
    }
}

/// The commands that a handler's requests are queued as, in their order.
pub open spec fn commands_of(responses: Seq<HandleEventResponse>) -> Seq<Command> {
    Seq::new(responses.len(), |i: int| command_of(responses[i]))
}

/// What one report to the loop came to: what the embedding program is to
/// do next with the source, and the notice and the failure to tell the
/// operator of.
#[derive(Debug)]
pub struct Dispatched {
    pub next: Next,
    pub notice: Option<Notice>,
    pub failure: Option<Error>,
}

/// The sequence of what an option holds.
pub open spec fn opt_seq<T>(o: Option<T>) -> Seq<T> {
    match o {
        Some(x) => seq![x],
        None => Seq::empty(),
    }
}

/// The sources and registrations of a loop after a tick, with the changes
/// that the tick asks of the poller, the commands that it leaves for the
/// next tick, what there is to note for the operator, and the number of
/// commands that failed.
pub struct Drain {
    pub sources: Map<usize, EventSource>,
    pub registrations: Map<usize, Interest>,
    pub changes: Seq<Registration>,
    pub resubmitted: Seq<Command>,
    pub notices: Seq<Notice>,
    pub failures: nat,
}

/// What running the commands of `queue`, oldest first, at the instant
/// `now` does to the sources and registrations of a loop.
pub open spec fn spec_drain(
    sources: Map<usize, EventSource>,
    registrations: Map<usize, Interest>,
    queue: Seq<Command>,
    now: u64,
) -> Drain
    decreases queue.len(),
{
    if queue.len() == 0 {
        Drain {
            sources,
            registrations,
            changes: Seq::empty(),
            resubmitted: Seq::empty(),
            notices: Seq::empty(),
            failures: 0,
        }
    } else {
        let first = spec_execute(sources, registrations, queue[0], now);
        let rest = spec_drain(first.sources, first.registrations, queue.skip(1), now);
        Drain {
            sources: rest.sources,
            registrations: rest.registrations,
            changes: opt_seq(first.registration) + rest.changes,
            resubmitted: opt_seq(first.resubmit) + rest.resubmitted,
            notices: opt_seq(first.notice) + rest.notices,
            failures: if first.failed {
                rest.failures + 1
            } else {
                rest.failures
            },
        }
    }
}

/// A tick keeps the registrations in step with the sources.
pub proof fn lemma_drain_keeps_step(
    sources: Map<usize, EventSource>,
    registrations: Map<usize, Interest>,
    queue: Seq<Command>,
    now: u64,
)
    requires
        sources.dom() == registrations.dom(),
    ensures
        spec_drain(sources, registrations, queue, now).sources.dom() == spec_drain(
            sources,
            registrations,
            queue,
            now,
        ).registrations.dom(),
    decreases queue.len(),
{
    if queue.len() > 0 {
        let first = spec_execute(sources, registrations, queue[0], now);
        lemma_apply_keeps_step(
            sources,
            registrations,
            spec_command_response(sources, queue[0], now),
        );
        lemma_drain_keeps_step(first.sources, first.registrations, queue.skip(1), now);
    }
}

/// The changes that a tick asks of the poller, and the notices and the
/// failures of its commands, for the operator.
#[derive(Debug)]
pub struct Drained {
    pub registrations: Vec<Registration>,
    pub notices: Vec<Notice>,
    pub failures: Vec<Error>,
}

impl EventLoop {
    /// Hands a report on the source of `token` to the source's handler,
    /// and queues what the handler asks for. The handler changes the
    /// source only: no source enters or leaves, and no registration
    /// changes. A report on a token that names no source is a failure.
    pub fn dispatch(&mut self, token: Token, event: Event, clock: Clock) -> (r: Dispatched)
        ensures
            final(self).in_step(),
            final(self).registrations() == old(self).registrations(),
            final(self).sources().dom() == old(self).sources().dom(),
            !old(self).sources().contains_key(token.0) ==> final(self).sources() == old(
                self,
            ).sources() && final(self).queued() == old(self).queued() && r.next is Done
                && r.failure is Some,
            old(self).sources().contains_key(token.0) ==> exists|h: Handled|
                #![trigger source_handled(h, old(self).sources()[token.0], event, token, clock)]
                {
                    &&& source_handled(h, old(self).sources()[token.0], event, token, clock)
                    &&& final(self).sources() == old(self).sources().insert(token.0, h.source)
                    &&& final(self).queued() == old(self).queued() + commands_of(h.responses@)
                    &&& r.next == h.next
                    &&& r.notice == h.notice
                    &&& r.failure == h.failure
                },
    {
        proof {
            use_type_invariant(&*self);
        }
        let mut core = Core::empty();
        std::mem::swap(&mut self.core, &mut core);
        let source = match core.event_sources.remove(&token.0) {
            Some(source) => source,
            None => {
                assert(core.event_sources@ =~= old(self).sources());
                std::mem::swap(&mut self.core, &mut core);
                return Dispatched {
                    next: Next::Done,
                    notice: None,
                    failure: Some(Error::of("Could not find handler for token")),
                };
            },
        };
        let handled = source.handle_event(event, token, clock);
        let ghost h = handled;
        let Handled { source, responses, next, notice, failure } = handled;
        core.event_sources.insert(token.0, source);
        assert(core.event_sources@ =~= old(self).sources().insert(token.0, h.source));
        assert(core.event_sources@.dom() =~= old(self).sources().dom());
        let mut responses = responses;
        let ghost queue = core.command_queue@;
        let ghost done: int = 0;
        assert(commands_of(h.responses@.take(0)) =~= Seq::<Command>::empty());
        assert(h.responses@.skip(0) =~= h.responses@);
        while responses.len() > 0
            invariant
                0 <= done <= h.responses@.len(),
                responses@ == h.responses@.skip(done),
                core.command_queue@ == queue + commands_of(h.responses@.take(done)),
                core.event_sources@ == old(self).sources().insert(token.0, h.source),
                core.registered@ == old(self).registrations(),
            decreases responses.len(),
        {
            let response = responses.remove(0);
            let command = match response {
                HandleEventResponse::EmptyCommand(r) => Command::Respond(Box::new(r)),
                HandleEventResponse::Command(c) => c,
            };
            core.command_queue.send(command);
            proof {
                assert(response == h.responses@[done]);
                assert(responses@ =~= h.responses@.skip(done + 1));
                assert(commands_of(h.responses@.take(done + 1)) =~= commands_of(
                    h.responses@.take(done),
                ).push(command_of(h.responses@[done])));
                done = done + 1;
            }
        }
        assert(h.responses@.take(done) =~= h.responses@);
        std::mem::swap(&mut self.core, &mut core);
        Dispatched { next, notice, failure }
    }

    /// One tick's worth of commands: runs every queued command at the
    /// instant `now`, oldest first, and leaves the commands that asked to
    /// be run again for the next tick. A command that fails is dropped,
    /// and its failure reported.
    pub fn next(&mut self, now: u64) -> (r: Drained)
        ensures
            final(self).in_step(),
            final(self).sources() == spec_drain(
                old(self).sources(),
                old(self).registrations(),
                old(self).queued(),
                now,
            ).sources,
            final(self).registrations() == spec_drain(
                old(self).sources(),
                old(self).registrations(),
                old(self).queued(),
                now,
            ).registrations,
            final(self).queued() == spec_drain(
                old(self).sources(),
                old(self).registrations(),
                old(self).queued(),
                now,
            ).resubmitted,
            r.registrations@ == spec_drain(
                old(self).sources(),
                old(self).registrations(),
                old(self).queued(),
                now,
            ).changes,
            r.notices@ == spec_drain(
                old(self).sources(),
                old(self).registrations(),
                old(self).queued(),
                now,
            ).notices,
            r.failures@.len() == spec_drain(
                old(self).sources(),
                old(self).registrations(),
                old(self).queued(),
                now,
            ).failures,
            forall|i: int|
                0 <= i < r.failures@.len() ==> (#[trigger] r.failures@[i])@
                    == "A source is already registered under the token"@,
    {
        proof {
            use_type_invariant(&*self);
        }
        let ghost total = spec_drain(self.sources(), self.registrations(), self.queued(), now);
        let mut core = Core::empty();
        std::mem::swap(&mut self.core, &mut core);
        let mut registrations: Vec<Registration> = Vec::new();
        let mut notices: Vec<Notice> = Vec::new();
        let mut failures: Vec<Error> = Vec::new();
        let mut new_commands: Vec<Command> = Vec::new();
        loop
            invariant
                core.event_sources@.dom() == core.registered@.dom(),
                forall|i: int|
                    0 <= i < failures@.len() ==> (#[trigger] failures@[i])@
                        == "A source is already registered under the token"@,
                total.sources == spec_drain(
                    core.event_sources@,
                    core.registered@,
                    core.command_queue@,
                    now,
                ).sources,
                total.registrations == spec_drain(
                    core.event_sources@,
                    core.registered@,
                    core.command_queue@,
                    now,
                ).registrations,
                total.changes == registrations@ + spec_drain(
                    core.event_sources@,
                    core.registered@,
                    core.command_queue@,
                    now,
                ).changes,
                total.resubmitted == new_commands@ + spec_drain(
                    core.event_sources@,
                    core.registered@,
                    core.command_queue@,
                    now,
                ).resubmitted,
                total.notices == notices@ + spec_drain(
                    core.event_sources@,
                    core.registered@,
                    core.command_queue@,
                    now,
                ).notices,
                total.failures == failures@.len() + spec_drain(
                    core.event_sources@,
                    core.registered@,
                    core.command_queue@,
                    now,
                ).failures,
            ensures
                core.event_sources@.dom() == core.registered@.dom(),
                core.command_queue@.len() == 0,
                forall|i: int|
                    0 <= i < failures@.len() ==> (#[trigger] failures@[i])@
                        == "A source is already registered under the token"@,
                total.sources == core.event_sources@,
                total.registrations == core.registered@,
                total.changes == registrations@,
                total.resubmitted == new_commands@,
                total.notices == notices@,
                total.failures == failures@.len(),
            decreases core.command_queue@.len(),
        {
            let ghost sources = core.event_sources@;
            let ghost registered = core.registered@;
            let ghost queue = core.command_queue@;
            let ghost changes_before = registrations@;
            let ghost commands_before = new_commands@;
            let ghost notices_before = notices@;
            match core.command_queue.try_recv() {
                Some(command) => {
                    proof {
                        lemma_apply_keeps_step(
                            sources,
                            registered,
                            spec_command_response(sources, command, now),
                        );
                    }
                    let ghost first = spec_execute(sources, registered, command, now);
                    let ghost rest = spec_drain(
                        first.sources,
                        first.registrations,
                        queue.skip(1),
                        now,
                    );
                    match core.execute(command, now) {
                        Ok(executed) => {
                            match executed.registration {
                                Some(registration) => {
                                    registrations.push(registration);
                                },
                                None => {},
                            }
                            match executed.resubmit {
                                Some(again) => {
                                    new_commands.push(again);
                                },
                                None => {},
                            }
                            match executed.notice {
                                Some(notice) => {
                                    notices.push(notice);
                                },
                                None => {},
                            }
                        },
                        Err(e) => {
                            failures.push(e);
                        },
                    }
                    proof {
                        assert(registrations@ =~= changes_before + opt_seq(first.registration));
                        assert(new_commands@ =~= commands_before + opt_seq(first.resubmit));
                        assert(notices@ =~= notices_before + opt_seq(first.notice));
                        assert(notices_before + (opt_seq(first.notice) + rest.notices)
                            =~= notices@ + rest.notices);
                        assert(changes_before + (opt_seq(first.registration) + rest.changes)
                            =~= registrations@ + rest.changes);
                        assert(commands_before + (opt_seq(first.resubmit) + rest.resubmitted)
                            =~= new_commands@ + rest.resubmitted);
                    }
                },
                None => {
                    proof {
                        assert(registrations@ + Seq::<Registration>::empty() =~= registrations@);
                        assert(new_commands@ + Seq::<Command>::empty() =~= new_commands@);
                        assert(notices@ + Seq::<Notice>::empty() =~= notices@);
                    }
                    break ;
                },
            }
        }
        let ghost kept = new_commands@;
        let ghost done: int = 0;
        assert(kept.take(0) =~= Seq::<Command>::empty());
        assert(core.command_queue@ =~= kept.take(0));
        assert(kept.skip(0) =~= kept);
        while new_commands.len() > 0
            invariant
                0 <= done <= kept.len(),
                new_commands@ == kept.skip(done),
                core.command_queue@ == kept.take(done),
                core.event_sources@ == total.sources,
                core.registered@ == total.registrations,
                core.event_sources@.dom() == core.registered@.dom(),
            decreases new_commands.len(),
        {
            let command = new_commands.remove(0);
            core.command_queue.send(command);
            proof {
                assert(new_commands@ =~= kept.skip(done + 1));
                assert(core.command_queue@ =~= kept.take(done + 1));
                done = done + 1;
            }
        }
        assert(kept.take(done) =~= kept);
        std::mem::swap(&mut self.core, &mut core);
        Drained { registrations, notices, failures }
    }
}

/// A source is registered with the poller exactly when the loop holds it:
/// in a loop whose registrations are in step with its sources, a token
/// names a source if and only if it names a registration.
pub proof fn lemma_registered_iff_held(event_loop: EventLoop, token: Token)
    requires
        event_loop.in_step(),
    ensures
        event_loop.sources().contains_key(token.0) <==> event_loop.registrations().contains_key(
            token.0,
        ),
{
    assert(event_loop.sources().dom().contains(token.0)
        <==> event_loop.registrations().dom().contains(token.0));
}

/// No connection dangles: in a loop whose registrations are in step with
/// its sources, every connection that the loop holds is registered.
pub proof fn lemma_no_dangling_connection(event_loop: EventLoop, token: Token)
    requires
        event_loop.in_step(),
        event_loop.sources().contains_key(token.0),
        event_loop.sources()[token.0] is TcpStream,
    ensures
        event_loop.registrations().contains_key(token.0),
{
    lemma_registered_iff_held(event_loop, token);
}

} // verus!
