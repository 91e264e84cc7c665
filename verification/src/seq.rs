//! Serving one connection at a time: the decisions of the blocking
//! variants, which read a request to its end, have it answered, and send
//! the response in one piece.

use vstd::prelude::*;
use vstd::string::*;
use crate::config::ServerConfigView;
use crate::error::Error;
use crate::files::CachedFile;
use crate::host::{
    failure_response, finished, spec_cache_after, spec_handle_result, spec_resume, Found, Host,
    Lookup, LookupView, Routing, RoutingView, Step, StepView,
};
use crate::http::{
    spec_parse, try_parse_request, wire_text, write_response, IncrementalRequest,
    IncrementalRequestView, Request, RequestView,
};
use crate::select::with_peer;
use crate::text::to_vec;

verus! {

/// What is next for a connection that is served on its own.
#[derive(Debug)]
pub enum Served {
    /// Read on: the request is not complete.
    More(IncrementalRequest),
    /// Answer the router's question about this request, and go on with
    /// `answer`.
    Ask(Request, Routing, Lookup),
    /// Send these octets, and close the connection.
    Send(Vec<u8>),
}

/// What is next for a connection, as a mathematical value.
pub enum ServedView {
    More(IncrementalRequestView),
    Ask(RequestView, RoutingView, LookupView),
    Send(Seq<u8>),
}

impl View for Served {
    type V = ServedView;

    open spec fn view(&self) -> ServedView {
        match self {
            Served::More(request) => ServedView::More(request@),
            Served::Ask(request, state, lookup) => ServedView::Ask(request@, state@, lookup@),
            Served::Send(bytes) => ServedView::Send(bytes@),
        }
    }
}

/// What a step of the router makes of a connection: a question is passed
/// on; an answer, finished with the server's headers, is sent.
pub open spec fn spec_finish(request: RequestView, step: StepView, wall: i64) -> ServedView {
    match step {
        StepView::Ask(state, lookup) => ServedView::Ask(request, state, lookup),
        StepView::Answer(response) => ServedView::Send(wire_text(finished(response, wall))),
        StepView::Refuse(status) => ServedView::Send(
            wire_text(finished(failure_response(status), wall)),
        ),
    }
}

/// What the octets `read` make of a connection in the state `request`. The
/// end of the stream before the end of the request is a failure, and so is
/// a request that cannot be parsed. A request that is complete goes to the
/// router.
pub open spec fn spec_process(
    config: ServerConfigView,
    peer: Seq<u8>,
    request: IncrementalRequestView,
    read: Seq<u8>,
    overloaded: bool,
    wall: i64,
) -> Result<ServedView, Seq<char>> {
    if read.len() == 0 {
        Err("Could not parse a full request using all available data"@)
    } else {
        match spec_parse(read, request) {
            Err(m) => Err(m),
            Ok(IncrementalRequestView::Complete(r)) => Ok(
                spec_finish(
                    with_peer(r, peer),
                    spec_handle_result(config, with_peer(r, peer), overloaded),
                    wall,
                ),
            ),
            Ok(more) => Ok(ServedView::More(more)),
        }
    }
}

fn finish(request_handler: &Host, request: Request, step: Step, wall: i64) -> (r: Served)
    ensures
        r@ == spec_finish(request@, step@, wall),
{
    match step {
        Step::Ask(state, lookup) => Served::Ask(request, state, lookup),
        Step::Done(outcome) => Served::Send(write_response(request_handler.handle(outcome, wall))),
    }
}

/// Takes the octets `read` from the connection of `peer` whose request has
/// come as far as `request`; none stand for the end of the stream. `wall`
/// is the time of day, in seconds since the Unix epoch.
pub fn process(
    request_handler: &Host,
    peer: &[u8],
    request: IncrementalRequest,
    read: &[u8],
    overloaded: bool,
    wall: i64,
) -> (r: Result<Served, Error>)
    ensures
        match spec_process(request_handler.config(), peer@, request@, read@, overloaded, wall) {
            Ok(v) => r matches Ok(x) && x@ == v,
            Err(m) => r matches Err(e) && e@ == m,
        },
{
    if read.len() == 0 {
        return Err(Error::of("Could not parse a full request using all available data"));
    }
    match try_parse_request(read, request) {
        Err(e) => Err(e),
        Ok(IncrementalRequest::Complete(held)) => {
            let request = Request::from_no_remote(held, to_vec(peer));
            let step = request_handler.handle_result(&request, overloaded);
            Ok(finish(request_handler, request, step, wall))
        },
        Ok(more) => Ok(Served::More(more)),
    }
}

/// Takes the answer `found` to the question that the router asked about
/// `request` in the state `state`.
pub fn answer(request_handler: &mut Host, request: Request, state: Routing, found: Found, wall: i64)
    -> (r: Served)
    ensures
        r@ == spec_finish(
            request@,
            spec_resume(
                old(request_handler).config(),
                old(request_handler).cache(),
                request@,
                state@,
                found@,
            ),
            wall,
        ),
        final(request_handler).cache() == spec_cache_after(
            old(request_handler).cache(),
            state@,
            found@,
        ),
        final(request_handler).config() == old(request_handler).config(),
{
    let step = request_handler.resume(&request, state, found);
    finish(request_handler, request, step, wall)
}

} // verus!
