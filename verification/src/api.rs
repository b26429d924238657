//! Decisions of the reporting interface: which command a client sent, what a
//! websocket message calls for, and when a silent client is dropped.

use vstd::prelude::*;
use vstd::string::StringSliceAdditionalSpecFns;
use vstd::string::StringExecFns;
use crate::normalize::same_bytes;

verus! {

/// How often heartbeat pings are sent, in nanoseconds: every five seconds.
pub const HEARTBEAT_INTERVAL: u64 = 5_000_000_000;

/// How long before lack of client response causes a timeout, in nanoseconds:
/// ten seconds.
pub const CLIENT_TIMEOUT: u64 = 10_000_000_000;

/// An error as it is reported to a client.
#[derive(Debug)]
pub struct ApiError {
    pub error: String,
}

/// A command of the websocket interface.
#[derive(Clone, Copy, Debug, PartialEq, Eq, Structural)]
pub enum ApiCommand {
    /// `teams`: list all teams.
    Teams,
    /// `get_team`: look one team up by its id.
    GetTeam,
    /// Anything else.
    Unknown,
}

/// The command that a name stands for.
pub open spec fn command_of(name: &str) -> ApiCommand {
    if name.spec_bytes() == "teams".spec_bytes() {
        ApiCommand::Teams
    } else if name.spec_bytes() == "get_team".spec_bytes() {
        ApiCommand::GetTeam
    } else {
        ApiCommand::Unknown
    }
}

/// Tells which command a client sent.
pub fn parse_command(name: &str) -> (command: ApiCommand)
    ensures
        command == command_of(name),
{
    if same_bytes(name.as_bytes(), "teams".as_bytes()) {
        ApiCommand::Teams
    } else if same_bytes(name.as_bytes(), "get_team".as_bytes()) {
        ApiCommand::GetTeam
    } else {
        ApiCommand::Unknown
    }
}

impl ApiError {
    /// The error reported for a command that does not exist.
    pub fn unknown_command(name: &str) -> (e: ApiError)
        ensures
            e.error@ == "Unknown command: "@ + name@,
    {
        let mut error = String::from_str("Unknown command: ");
        error.append(name);
        ApiError { error }
    }
}

/// A message that arrived on a websocket.
#[derive(Clone, Copy, Debug, PartialEq, Eq, Structural)]
pub enum Incoming {
    Ping,
    Pong,
    Text,
    Binary,
    Close,
    Other,
    /// The stream broke the protocol.
    Broken,
}

/// What a session does about a message.
#[derive(Clone, Copy, Debug, PartialEq, Eq, Structural)]
pub enum Reaction {
    /// Answer the ping.
    SendPong,
    /// Nothing to send.
    Nothing,
    /// Run the text as a command.
    RunCommand,
    /// Note that binary messages are not expected.
    ReportBinary,
    /// Close as the client asked, then stop.
    CloseAndStop,
    /// Stop at once.
    Stop,
}

/// The reaction that a message calls for.
pub open spec fn reaction_to(message: Incoming) -> Reaction {
    match message {
        Incoming::Ping => Reaction::SendPong,
        Incoming::Pong => Reaction::Nothing,
        Incoming::Text => Reaction::RunCommand,
        Incoming::Binary => Reaction::ReportBinary,
        Incoming::Close => Reaction::CloseAndStop,
        Incoming::Other => Reaction::Nothing,
        Incoming::Broken => Reaction::Stop,
    }
}

/// One websocket session, as far as its heartbeat goes.
#[derive(Clone, Copy, Debug, PartialEq, Eq, Structural)]
pub struct WsApiSession {
    /// When the client was last heard of, in nanoseconds.
    pub hb: u64,
}

impl WsApiSession {
    /// A session that starts at `now`.
    pub fn new(now: u64) -> (session: WsApiSession)
        ensures
            session.hb == now,
    {
        WsApiSession { hb: now }
    }

    /// Handles a message that arrived at `now`: a ping or a pong shows that
    /// the client is alive, and every message gets its reaction.
    pub fn handle(&mut self, message: Incoming, now: u64) -> (reaction: Reaction)
        ensures
            reaction == reaction_to(message),
            final(self).hb == if message == Incoming::Ping || message == Incoming::Pong {
                now
            } else {
                old(self).hb
            },
    {
        match message {
            Incoming::Ping => {
                self.hb = now;
                Reaction::SendPong
            },
            Incoming::Pong => {
                self.hb = now;
                Reaction::Nothing
            },
            Incoming::Text => Reaction::RunCommand,
            Incoming::Binary => Reaction::ReportBinary,
            Incoming::Close => Reaction::CloseAndStop,
            Incoming::Other => Reaction::Nothing,
            Incoming::Broken => Reaction::Stop,
        }
    }

    /// Has the client been silent for longer than the timeout at `now`?
    pub fn timed_out(&self, now: u64) -> (r: bool)
        ensures
            r == (now - self.hb > CLIENT_TIMEOUT),
    {
        now > self.hb && now - self.hb > CLIENT_TIMEOUT
    }
}

} // verus!
