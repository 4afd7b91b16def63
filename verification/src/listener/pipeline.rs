//! The two pipelines of a connection: the reader, which turns what was read
//! into work, and the writer, which turns finished responses into bytes.

use crate::listener::request::{HttpRequest, HttpRequestError, RequestModel};
use crate::listener::response::{wire, HttpResponse, ResponseModel};
use vstd::prelude::*;

verus! {

/// How many finished responses may wait for the writer before the units that
/// produce them are held back.
pub const RESPONSE_QUEUE_CAPACITY: usize = 5;

/// Where the reader of a connection stands.
#[derive(Debug, Clone, Copy, PartialEq, Eq)]
pub enum ReaderState {
    /// The next request is awaited.
    AwaitingRequest,
    /// The stream has ended; nothing more is read.
    Terminated,
}

/// What the reader does with what it has read.
#[derive(Debug)]
pub enum ReaderAction {
    /// Hand the request to a handling unit of its own, which queues its
    /// response when it is done.
    Dispatch(HttpRequest),
    /// Queue this response at once.
    Reply(HttpResponse),
    /// Stop reading and let go of the queue.
    Close,
}

/// What the reader does, as plain values.
pub ghost enum ReaderActionModel {
    Dispatch(RequestModel),
    Reply(ResponseModel),
    Close,
}

impl View for ReaderAction {
    type V = ReaderActionModel;

    open spec fn view(&self) -> ReaderActionModel {
        match self {
            ReaderAction::Dispatch(request) => ReaderActionModel::Dispatch(request@),
            ReaderAction::Reply(response) => ReaderActionModel::Reply(response@),
            ReaderAction::Close => ReaderActionModel::Close,
        }
    }
}

/// The response to a request that could not be read.
pub open spec fn bad_request(reason: Option<Seq<char>>) -> ResponseModel {
    ResponseModel {
        status_code: 400,
        status_line: HttpRequestError::text(reason),
        headers: Seq::empty(),
        content: Seq::empty(),
    }
}

/// One step of the reader: a request is dispatched and the next one awaited;
/// a request that could not be read is answered with `400` and the next one
/// awaited all the same; the end of the stream ends the reader.
pub fn read_step(outcome: Result<Option<HttpRequest>, HttpRequestError>) -> (r: (
    ReaderState,
    ReaderAction,
))
    ensures
        match outcome {
            Ok(Some(request)) => r.0 == ReaderState::AwaitingRequest && r.1@
                == ReaderActionModel::Dispatch(request@),
            Ok(None) => r.0 == ReaderState::Terminated && r.1@ == ReaderActionModel::Close,
            Err(e) => r.0 == ReaderState::AwaitingRequest && r.1@ == ReaderActionModel::Reply(
                bad_request(e@),
            ),
        },
{
    match outcome {
        Ok(Some(request)) => (ReaderState::AwaitingRequest, ReaderAction::Dispatch(request)),
        Ok(None) => (ReaderState::Terminated, ReaderAction::Close),
        Err(e) => {
            let reason = e.to_string();
            (
                ReaderState::AwaitingRequest,
                ReaderAction::Reply(HttpResponse::status(400, reason.as_str())),
            )
        },
    }
}

/// What the writer does with what the queue gave.
#[derive(Debug)]
pub enum WriterAction {
    /// Write these bytes and flush.
    Write(Vec<u8>),
    /// The queue is closed and empty: stop.
    Stop,
}

/// One step of the writer: a response is written as it stands on the wire;
/// the closed queue ends the writer.
pub fn write_step(item: Option<HttpResponse>) -> (action: WriterAction)
    ensures
        match item {
            Some(response) => action matches WriterAction::Write(bytes) && bytes@ == wire(
                response@,
            ),
            None => action is Stop,
        },
{
    match item {
        Some(response) => WriterAction::Write(response.serialize()),
        None => WriterAction::Stop,
    }
}

/// What the writer has put on the wire once it has taken these responses from
/// the queue, in this order.
pub open spec fn emitted(completed: Seq<ResponseModel>) -> Seq<u8>
    decreases completed.len(),
{
    if completed.len() == 0 {
        Seq::empty()
    } else {
        emitted(completed.drop_last()) + wire(completed.last())
    }
}

/// Whether `output` is what a connection may put on the wire for requests
/// whose responses are `responses`, in the order of the requests: the
/// responses are written in the order in which their handling ends, and that
/// may be any order.
pub open spec fn may_emit(responses: Seq<ResponseModel>, output: Seq<u8>) -> bool {
    exists|completed: Seq<ResponseModel>| #[trigger]
        completed.to_multiset() == responses.to_multiset() && output == emitted(completed)
}

/// The writer keeps the order of completion, not that of the requests: of two
/// requests on one connection, the response to the second may stand first on
/// the wire, and so may the response to the first.
pub proof fn lemma_responses_may_overtake(first: ResponseModel, second: ResponseModel)
    ensures
        may_emit(seq![first, second], wire(second) + wire(first)),
        may_emit(seq![first, second], wire(first) + wire(second)),
{
    let swapped = seq![second, first];
    let kept = seq![first, second];
    assert(emitted(swapped) =~= wire(second) + wire(first)) by {
        assert(swapped.drop_last() =~= seq![second]);
        assert(seq![second].drop_last() =~= Seq::<ResponseModel>::empty());
        reveal_with_fuel(emitted, 3);
    }
    assert(emitted(kept) =~= wire(first) + wire(second)) by {
        assert(kept.drop_last() =~= seq![first]);
        assert(seq![first].drop_last() =~= Seq::<ResponseModel>::empty());
        reveal_with_fuel(emitted, 3);
    }
    assert(swapped.to_multiset() =~= kept.to_multiset()) by {
        assert(swapped =~= kept.reverse());
        kept.lemma_reverse_to_multiset();
    }
}

} // verus!
