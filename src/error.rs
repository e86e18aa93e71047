//! Error kinds of the library, and the message-and-code error that the
//! programs around it report.
use vstd::prelude::*;

verus! {

/// The states a queue pair passes through.
#[derive(Clone, Copy, Debug, PartialEq, Eq, Structural)]
pub enum QpState {
    Reset,
    Init,
    Rtr,
    Rts,
    Error,
}

/// What went wrong, by cause.
#[derive(Clone, Copy, Debug, PartialEq, Eq, Structural)]
pub enum ErrorKind {
    /// No route applies to the destination address.
    RouteMissing,
    /// No RoCEv2 GID encodes the source address.
    NoRoceEndpoint,
    /// A PD, CQ, QP, MR or completion channel could not be allocated.
    VerbsAllocation,
    /// Moving a queue pair to the given state failed.
    QpTransition(QpState),
    /// `post_send` refused a chain.
    PostSend,
    /// A completion came back with a bad status or an unexpected opcode.
    CompletionFailure { status: u32, opcode: u32 },
    /// Polling the completion queue failed with this return value.
    PollError(i32),
    /// Arming the completion notification failed with this return value.
    NotifyError(i32),
    /// Waiting for a completion event failed with this return value.
    EventError(i32),
    /// The control plane did not answer as expected.
    ControlRpc,
    /// A configuration value could not be read.
    ConfigParse,
}

/// An error message with a numeric code.
#[derive(Clone, Debug)]
pub struct CustomError {
    pub message: String,
    pub code: i32,
}

impl CustomError {
    pub fn new(message: String, code: i32) -> (r: CustomError)
        ensures
            r.message@ == message@,
            r.code == code,
    {
        CustomError { message, code }
    }

    pub fn code(&self) -> (r: i32)
        ensures
            r == self.code,
    {
        self.code
    }

    pub fn message(&self) -> (r: &str)
        ensures
            r@ == self.message@,
    {
        self.message.as_str()
    }
}

} // verus!
