//! The client: what is sent, and what is done with each response.

use bytes::Bytes;
use vstd::prelude::*;

use crate::buffer::contents;
use crate::command::parser::{command_of, law_command_round_trip, Command, CommandView};
use crate::error::ProtocolError;
use crate::protocol::codec::{first_frame, law_frame_round_trip};
use crate::protocol::frame::{encode_error, Frame, FrameView, ProtocolLimits};
use crate::protocol::response::{law_response_round_trip, response_of, Response, ResponseView};
use crate::server::connection::reply_of;
use crate::text::same_text;

verus! {

/// The most redirects that a client follows for one command.
pub const MAX_REDIRECTS: usize = 5;

/// The most commands of one pipeline.
pub const MAX_PIPELINE_COMMANDS: usize = 1_024;

/// A command as it is sent.
pub open spec fn request_bytes(command: CommandView, limits: ProtocolLimits) -> Result<
    Seq<u8>,
    ProtocolError,
> {
    if !command.encodable() {
        Err(ProtocolError::IntegerOverflow)
    } else {
        match encode_error(command.frame().body().len(), limits) {
            Some(error) => Err(error),
            None => Ok(command.frame().encoded()),
        }
    }
}

/// Writes a command.
pub fn encode_request(command: Command, limits: ProtocolLimits) -> (encoded: Result<
    Bytes,
    ProtocolError,
>)
    ensures
        match encoded {
            Ok(encoded) => request_bytes(command@, limits) == Ok::<Seq<u8>, ProtocolError>(
                contents(encoded),
            ),
            Err(error) => request_bytes(command@, limits) == Err::<Seq<u8>, ProtocolError>(error),
        },
{
    match command.into_frame() {
        Ok(frame) => frame.encode(limits),
        Err(error) => Err(error),
    }
}

/// Accepts a pipeline of this many commands, or not.
pub fn check_pipeline(count: usize) -> (checked: Result<(), ProtocolError>)
    ensures
        checked == (if count > 1_024 {
            Err(ProtocolError::InvalidPayload("pipeline exceeds 1024 commands"))
        } else {
            Ok(())
        }),
{
    if count > MAX_PIPELINE_COMMANDS {
        Err(ProtocolError::InvalidPayload("pipeline exceeds 1024 commands"))
    } else {
        Ok(())
    }
}

/// The response in what was read, where `closed` says what it means that the server closed the
/// connection instead.
pub open spec fn response_in(read: Option<FrameView>, closed: &'static str) -> Result<
    ResponseView,
    ProtocolError,
> {
    match read {
        Some(frame) => response_of(frame),
        None => Err(ProtocolError::InvalidPayload(closed)),
    }
}

/// What was read, as a view.
pub open spec fn read_view(read: Option<Frame>) -> Option<FrameView> {
    match read {
        Some(frame) => Some(frame@),
        None => None,
    }
}

/// Reads the response to a command.
pub fn read_response(read: Option<Frame>) -> (response: Result<Response, ProtocolError>)
    ensures
        match response_in(read_view(read), "server closed the connection before responding") {
            Ok(expected) => response is Ok && response->Ok_0@ == expected,
            Err(error) => response == Err::<Response, ProtocolError>(error),
        },
{
    match read {
        Some(frame) => Response::from_frame(frame),
        None => Err(
            ProtocolError::InvalidPayload("server closed the connection before responding"),
        ),
    }
}

/// Reads the response to one command of a pipeline.
pub fn read_pipeline_response(read: Option<Frame>) -> (response: Result<Response, ProtocolError>)
    ensures
        match response_in(read_view(read), "server closed during pipeline response") {
            Ok(expected) => response is Ok && response->Ok_0@ == expected,
            Err(error) => response == Err::<Response, ProtocolError>(error),
        },
{
    match read {
        Some(frame) => Response::from_frame(frame),
        None => Err(ProtocolError::InvalidPayload("server closed during pipeline response")),
    }
}

/// A command on its way through a cluster: the addresses that it was sent to, in order.
#[derive(Debug)]
pub struct Exchange {
    visited: Vec<String>,
}

/// The texts of strings.
pub open spec fn texts(strings: Seq<String>) -> Seq<Seq<char>> {
    strings.map_values(|text: String| text@)
}

impl View for Exchange {
    type V = Seq<Seq<char>>;

    closed spec fn view(&self) -> Seq<Seq<char>> {
        texts(self.visited@)
    }
}

/// What a client does with a response.
#[derive(Debug)]
pub enum Step {
    /// The command was answered.
    Done(Response),
    /// The same command has to be sent to this address.
    Resend(String),
}

/// What a client does with a response, as a mathematical value.
#[verifier::ext_equal]
pub enum StepView {
    Done(ResponseView),
    Resend(Seq<char>),
}

impl View for Step {
    type V = StepView;

    open spec fn view(&self) -> StepView {
        match *self {
            Step::Done(response) => StepView::Done(response@),
            Step::Resend(address) => StepView::Resend(address@),
        }
    }
}

/// What a client does with a response, where the command was sent to the `visited` addresses so
/// far.
pub open spec fn step_of(visited: Seq<Seq<char>>, response: ResponseView) -> Result<
    StepView,
    StepFault,
> {
    match response {
        ResponseView::Redirect(address) => if visited.contains(address) {
            Err(StepFault::Loop(address))
        } else if visited.len() > MAX_REDIRECTS {
            Err(StepFault::TooMany)
        } else {
            Ok(StepView::Resend(address))
        },
        _ => Ok(StepView::Done(response)),
    }
}

/// The addresses that a command was sent to, after a response.
pub open spec fn visited_after(visited: Seq<Seq<char>>, response: ResponseView) -> Seq<Seq<char>> {
    match step_of(visited, response) {
        Ok(StepView::Resend(address)) => visited.push(address),
        _ => visited,
    }
}

/// Why a client does not follow a redirect.
pub enum StepFault {
    /// It leads back to this address.
    Loop(Seq<char>),
    /// Too many were followed before it.
    TooMany,
}

/// Whether an error reports this fault.
pub open spec fn reports(error: ProtocolError, fault: StepFault) -> bool {
    match fault {
        StepFault::Loop(address) => error is RedirectLoop && error->RedirectLoop_0@ == address,
        StepFault::TooMany => error == ProtocolError::TooManyRedirects { maximum: MAX_REDIRECTS },
    }
}

/// Whether these can be the addresses that a command was sent to: all different, and no more than
/// the redirects that are followed.
pub open spec fn possible_route(visited: Seq<Seq<char>>) -> bool {
    1 <= visited.len() <= MAX_REDIRECTS + 1 && visited.no_duplicates()
}

impl Exchange {
    /// A command that is sent to `seed` first.
    pub fn new(seed: String) -> (exchange: Self)
        ensures
            exchange@ == seq![seed@],
    {
        let mut visited: Vec<String> = Vec::new();
        visited.push(seed);
        assert(texts(visited@) =~= seq![seed@]);
        Self { visited }
    }

    /// Whether the command was sent to this address.
    fn has_visited(&self, address: &str) -> (visited: bool)
        ensures
            visited == self@.contains(address@),
    {
        let mut index: usize = 0;
        while index < self.visited.len()
            invariant
                index <= self.visited@.len(),
                forall|i: int| 0 <= i < index ==> #[trigger] self.visited@[i]@ != address@,
            decreases self.visited@.len() - index,
        {
            if same_text(self.visited[index].as_str(), address) {
                assert(self@[index as int] == address@);
                return true;
            }
            index += 1;
        }
        assert(!self@.contains(address@)) by {
            if self@.contains(address@) {
                let i = choose|i: int| 0 <= i < self@.len() && self@[i] == address@;
                assert(self.visited@[i]@ == address@);
            }
        }
        false
    }

    /// Decides what to do with a response. A redirect is followed unless it leads back to an
    /// address that the command was sent to, or too many were followed already.
    pub fn on_response(&mut self, response: Response) -> (step: Result<Step, ProtocolError>)
        ensures
            final(self)@ == visited_after(old(self)@, response@),
            match step_of(old(self)@, response@) {
                Ok(expected) => step is Ok && step->Ok_0@ == expected,
                Err(fault) => step is Err && reports(step->Err_0, fault),
            },
    {
        match response {
            Response::Redirect(address) => {
                if self.has_visited(address.as_str()) {
                    return Err(ProtocolError::RedirectLoop(address));
                }
                if self.visited.len() > MAX_REDIRECTS {
                    return Err(ProtocolError::TooManyRedirects { maximum: MAX_REDIRECTS });
                }
                let ghost before = self@;
                self.visited.push(address.clone());
                assert(self@ =~= before.push(address@));
                Ok(Step::Resend(address))
            },
            other => Ok(Step::Done(other)),
        }
    }
}

/// A client sends a command to no address twice, and follows no more redirects than are allowed,
/// whatever the servers answer.
pub proof fn law_redirects_are_bounded(visited: Seq<Seq<char>>, response: ResponseView)
    requires
        possible_route(visited),
    ensures
        possible_route(visited_after(visited, response)),
        visited.is_prefix_of(visited_after(visited, response)),
        step_of(visited, response) matches Ok(StepView::Resend(_)) ==> visited_after(
            visited,
            response,
        ).len() == visited.len() + 1,
{
}

/// A response that is no redirect ends the exchange.
pub proof fn law_answers_end_the_exchange(visited: Seq<Seq<char>>, response: ResponseView)
    requires
        !(response is Redirect),
    ensures
        step_of(visited, response) == Ok::<StepView, StepFault>(StepView::Done(response)),
{
}

/// What a client sends is what the server carries out: a request that the server accepts is read
/// from the stream as it was meant, with its time to live in whole milliseconds, whatever follows.
pub proof fn law_requests_reach_the_server(
    command: CommandView,
    limits: ProtocolLimits,
    rest: Seq<u8>,
)
    requires
        request_bytes(command, limits) is Ok,
        command.accepted(limits),
    ensures
        ({
            let encoded = request_bytes(command, limits)->Ok_0;
            &&& first_frame(encoded + rest, limits) == Ok::<
                Option<(FrameView, nat)>,
                ProtocolError,
            >(Some((command.frame(), encoded.len())))
            &&& command_of(command.frame(), limits) == Ok::<CommandView, ProtocolError>(
                command.whole(),
            )
        }),
{
    law_frame_round_trip(command.frame(), limits, rest);
    law_command_round_trip(command, limits);
}

/// What the server answers is what the client reads, whatever follows.
pub proof fn law_replies_reach_the_client(
    response: ResponseView,
    limits: ProtocolLimits,
    rest: Seq<u8>,
)
    requires
        reply_of(response, limits) is Ok,
    ensures
        ({
            let encoded = reply_of(response, limits)->Ok_0;
            &&& first_frame(encoded + rest, limits) == Ok::<
                Option<(FrameView, nat)>,
                ProtocolError,
            >(Some((response.frame(), encoded.len())))
            &&& response_of(response.frame()) == Ok::<ResponseView, ProtocolError>(response)
        }),
{
    law_frame_round_trip(response.frame(), limits, rest);
    law_response_round_trip(response);
}

/// A redirect is followed to the address that it names, unless the command was sent there before
/// or five redirects were followed already. A way that leads back is reported as one, also where
/// too many were followed.
pub proof fn law_redirects_are_followed(visited: Seq<Seq<char>>, address: Seq<char>)
    requires
        visited.len() > 0,
    ensures
        ({
            let response = ResponseView::Redirect(address);
            let followed = visited.len() - 1;
            &&& !visited.contains(address) && followed < 5 ==> step_of(visited, response) == Ok::<
                StepView,
                StepFault,
            >(StepView::Resend(address)) && visited_after(visited, response) == visited.push(
                address,
            )
            &&& visited.contains(address) ==> step_of(visited, response) == Err::<
                StepView,
                StepFault,
            >(StepFault::Loop(address))
            &&& !visited.contains(address) && followed >= 5 ==> step_of(visited, response) == Err::<
                StepView,
                StepFault,
            >(StepFault::TooMany)
        }),
        forall|error: ProtocolError|
            #[trigger] reports(error, StepFault::TooMany) <==> error == (
            ProtocolError::TooManyRedirects { maximum: 5 }),
        MAX_PIPELINE_COMMANDS == 1024,
{
}

/// A command that fits in a frame is written, and read from the stream as the frame that carries
/// it. What is read from a frame is the response in it, and a closed connection is an error.
pub proof fn law_requests_that_fit_are_written(
    command: CommandView,
    limits: ProtocolLimits,
    frame: FrameView,
    closed: &'static str,
)
    requires
        command.encodable(),
        command.payload().len() + 2 <= limits.max_frame_size,
        command.payload().len() + 2 <= u32::MAX,
        command.payload().len() + 6 <= usize::MAX,
    ensures
        request_bytes(command, limits) == Ok::<Seq<u8>, ProtocolError>(command.frame().encoded()),
        response_in(Some(frame), closed) == response_of(frame),
        response_in(None, closed) == Err::<ResponseView, ProtocolError>(
            ProtocolError::InvalidPayload(closed),
        ),
{
    assert(command.frame().body().len() == command.payload().len() + 2);
}

} // verus!
