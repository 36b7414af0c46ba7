//! The request gateway's decisions. The gateway hands each request to the
//! exchange over a bounded channel, with a bounded wait, and then waits, also
//! bounded, for the one reply. Waiting is done by the caller; this module says
//! what each outcome becomes.

use vstd::prelude::*;

use crate::exchange::{self, ExchangeResp};
use crate::wire;

verus! {

/// Why a request could not be handed to the exchange.
#[derive(Debug, Clone, Copy, PartialEq, Eq, Structural)]
pub enum SendFailure {
    /// The channel stayed full for the whole wait.
    EnqueueTimeout,
    /// The exchange no longer runs.
    ChannelClosed,
}

/// Why no reply came back.
#[derive(Debug, Clone, PartialEq, Eq)]
pub enum ReplyFailure {
    /// The exchange did not reply within the wait.
    ResponseTimeout,
    /// The exchange dropped the request without replying.
    ChannelClosed,
    /// The exchange replied with the failure of the command.
    Command(exchange::ExchangeError),
}

/// What the gateway reports to its caller.
#[derive(Debug, Clone, PartialEq, Eq)]
pub enum ExchangeError {
    RequestMissingEventMessage,
    UnableToSendRequestToInternalExchange(SendFailure),
    ExchangeResponseError(ReplyFailure),
    RequestMissingCommand,
}

/// The kind of RPC status an error travels as.
#[derive(Debug, Clone, Copy, PartialEq, Eq, Structural)]
pub enum StatusCode {
    InvalidArgument,
    Internal,
}

/// A malformed request is the caller's fault; anything else is internal.
pub open spec fn code_of(e: ExchangeError) -> StatusCode {
    match e {
        ExchangeError::RequestMissingCommand | ExchangeError::RequestMissingEventMessage => {
            StatusCode::InvalidArgument
        },
        _ => StatusCode::Internal,
    }
}

impl ExchangeError {
    pub fn code(&self) -> (r: StatusCode)
        ensures
            r == code_of(*self),
    {
        match self {
            ExchangeError::RequestMissingCommand | ExchangeError::RequestMissingEventMessage => {
                StatusCode::InvalidArgument
            },
            _ => StatusCode::Internal,
        }
    }
}

/// How handing a request to the exchange went.
#[derive(Debug, Clone, Copy, PartialEq, Eq, Structural)]
pub enum SendOutcome {
    Sent,
    TimedOut,
    Closed,
}

/// How waiting for the reply went.
pub enum ReplyOutcome {
    Received(ExchangeResp),
    TimedOut,
    Closed,
}

/// The command a request carries; a request without one is refused.
pub fn request_command(req: wire::ExecCommandReq) -> (r: Result<wire::Command, ExchangeError>)
    ensures
        r is Ok <==> req.command is Some,
        r is Ok ==> r->Ok_0 == req.command->Some_0,
        r is Err ==> r->Err_0 == ExchangeError::RequestMissingCommand,
{
    match req.command {
        Some(c) => Ok(c),
        None => Err(ExchangeError::RequestMissingCommand),
    }
}

/// Whether the request reached the exchange; a full channel after the wait
/// and a closed one are errors, never a hang.
pub fn check_sent(outcome: SendOutcome) -> (r: Result<(), ExchangeError>)
    ensures
        outcome == SendOutcome::Sent <==> r is Ok,
        outcome == SendOutcome::TimedOut ==> r == Err::<(), ExchangeError>(
            ExchangeError::UnableToSendRequestToInternalExchange(SendFailure::EnqueueTimeout),
        ),
        outcome == SendOutcome::Closed ==> r == Err::<(), ExchangeError>(
            ExchangeError::UnableToSendRequestToInternalExchange(SendFailure::ChannelClosed),
        ),
{
    match outcome {
        SendOutcome::Sent => Ok(()),
        SendOutcome::TimedOut => Err(
            ExchangeError::UnableToSendRequestToInternalExchange(SendFailure::EnqueueTimeout),
        ),
        SendOutcome::Closed => Err(
            ExchangeError::UnableToSendRequestToInternalExchange(SendFailure::ChannelClosed),
        ),
    }
}

/// The response to give once waiting for the reply is over.
pub fn reply_response(outcome: ReplyOutcome) -> (r: Result<wire::ExecCommandResp, ExchangeError>)
    ensures
        match outcome {
            ReplyOutcome::Received(resp) => match resp.command_resp {
                Ok(c) => r == Ok::<wire::ExecCommandResp, ExchangeError>(
                    wire::ExecCommandResp { command_resp: Some(c) },
                ),
                Err(e) => r == Err::<wire::ExecCommandResp, ExchangeError>(
                    ExchangeError::ExchangeResponseError(ReplyFailure::Command(e)),
                ),
            },
            ReplyOutcome::TimedOut => r == Err::<wire::ExecCommandResp, ExchangeError>(
                ExchangeError::ExchangeResponseError(ReplyFailure::ResponseTimeout),
            ),
            ReplyOutcome::Closed => r == Err::<wire::ExecCommandResp, ExchangeError>(
                ExchangeError::ExchangeResponseError(ReplyFailure::ChannelClosed),
            ),
        },
{
    match outcome {
        ReplyOutcome::Received(resp) => match resp.command_resp {
            Ok(c) => Ok(wire::ExecCommandResp { command_resp: Some(c) }),
            Err(e) => Err(ExchangeError::ExchangeResponseError(ReplyFailure::Command(e))),
        },
        ReplyOutcome::TimedOut => Err(
            ExchangeError::ExchangeResponseError(ReplyFailure::ResponseTimeout),
        ),
        ReplyOutcome::Closed => Err(ExchangeError::ExchangeResponseError(ReplyFailure::ChannelClosed)),
    }
}

} // verus!
