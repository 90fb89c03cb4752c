use vstd::prelude::*;

use crate::executable::ExecutableJson;
use crate::session::Session;

verus! {

/// A message a client sends over its live connection.
#[derive(Debug, Clone, Copy, PartialEq, Eq)]
pub enum IncomingMessage {
    /// Forget the download with this token.
    DeleteDownloadToken { id: u32 },
}

/// A message pushed to a client over its live connection.
#[derive(Debug)]
pub enum OutgoingMessage {
    /// A download of this session phoned home with this token.
    TokenAlert { token: u32 },
    /// The full current state of the session.
    State { session: Session },
    /// The templates on offer, and where the build log can be read, if anywhere.
    Executables { build_log: Option<String>, executables: Vec<ExecutableJson> },
}

/// An outgoing message addressed to one live connection.
#[derive(Debug)]
pub struct Delivery {
    /// The number of the connection that is to receive the message.
    pub channel: u64,
    pub message: OutgoingMessage,
}

} // verus!
