//! The decisions of the photo-manager servers' accept loops: what follows a
//! failed or successful attempt to open, connect or accept a client, and how
//! long they wait. The waiting and the I/O are the caller's.

use vstd::prelude::*;

verus! {

/// How long the named-pipe server waits for a client before it opens the
/// pipe anew.
pub const CONNECT_TIMEOUT_SECS: u64 = 5;

/// How long the socket server pauses after a failed accept.
pub const ACCEPT_RETRY_PAUSE_MILLIS: u64 = 100;

/// How many clients are served at once.
pub const MAX_CONCURRENT_CONNECTIONS: usize = 10;

/// What happened to the named-pipe server's last attempt.
#[derive(Debug)]
pub enum PipeEvent {
    /// The pipe instance could not be created.
    CreateFailed,
    /// Waiting for a client failed.
    ConnectFailed,
    /// No client came within `CONNECT_TIMEOUT_SECS`.
    ConnectTimedOut,
    /// A client connected.
    Connected,
    /// No serving slot could be taken for the client.
    PermitRefused,
}

/// What the named-pipe server does next.
#[derive(Debug, PartialEq, Eq, Structural)]
pub enum PipeAction {
    /// End the server with the error.
    Stop,
    /// Open a new pipe instance and wait for a client on it.
    CreateNext,
    /// Take a serving slot, hand the client to a task of its own, then wait
    /// until a slot is free before opening the next pipe instance.
    ServeAndAwaitSlot,
}

/// The named-pipe server's decision after `event`.
pub fn pipe_step(event: PipeEvent) -> (action: PipeAction)
    ensures
        action == match event {
            PipeEvent::CreateFailed | PipeEvent::ConnectFailed | PipeEvent::PermitRefused => PipeAction::Stop,
            PipeEvent::ConnectTimedOut => PipeAction::CreateNext,
            PipeEvent::Connected => PipeAction::ServeAndAwaitSlot,
        },
{
    match event {
        PipeEvent::CreateFailed => PipeAction::Stop,
        PipeEvent::ConnectFailed => PipeAction::Stop,
        PipeEvent::PermitRefused => PipeAction::Stop,
        PipeEvent::ConnectTimedOut => PipeAction::CreateNext,
        PipeEvent::Connected => PipeAction::ServeAndAwaitSlot,
    }
}

/// What happened to the socket server's last attempt.
#[derive(Debug)]
pub enum ListenEvent {
    /// The socket could not be bound.
    BindFailed,
    /// A client was accepted.
    Accepted,
    /// Accepting a client failed.
    AcceptFailed,
    /// No serving slot could be taken for the client.
    PermitRefused,
}

/// What the socket server does next.
#[derive(Debug, PartialEq, Eq, Structural)]
pub enum ListenAction {
    /// End the server with the error.
    Stop,
    /// Take a serving slot, hand the client to a task of its own, then wait
    /// until a slot is free before accepting again.
    ServeAndAwaitSlot,
    /// Pause for the given number of milliseconds, then wait until a slot is
    /// free before accepting again.
    PauseThenAwaitSlot(u64),
}

/// The socket server's decision after `event`.
pub fn listen_step(event: ListenEvent) -> (action: ListenAction)
    ensures
        action == match event {
            ListenEvent::BindFailed | ListenEvent::PermitRefused => ListenAction::Stop,
            ListenEvent::Accepted => ListenAction::ServeAndAwaitSlot,
            ListenEvent::AcceptFailed => ListenAction::PauseThenAwaitSlot(ACCEPT_RETRY_PAUSE_MILLIS),
        },
{
    match event {
        ListenEvent::BindFailed => ListenAction::Stop,
        ListenEvent::PermitRefused => ListenAction::Stop,
        ListenEvent::Accepted => ListenAction::ServeAndAwaitSlot,
        ListenEvent::AcceptFailed => ListenAction::PauseThenAwaitSlot(ACCEPT_RETRY_PAUSE_MILLIS),
    }
}

/// Which pipe instances a pipe server has opened: the first one is opened
/// as the first instance of its name, every later one is not.
pub struct PipeInstances {
    opened: bool,
}

impl PipeInstances {
    /// Whether a pipe instance has been opened yet.
    pub closed spec fn any_opened(&self) -> bool {
        self.opened
    }

    /// A server that has opened no pipe instance.
    pub fn new() -> (instances: PipeInstances)
        ensures
            !instances.any_opened(),
    {
        PipeInstances { opened: false }
    }

    /// Records that the next pipe instance is opened, and says whether it is
    /// the first one.
    pub fn open_next(&mut self) -> (first: bool)
        ensures
            first == !old(self).any_opened(),
            final(self).any_opened(),
    {
        let first = !self.opened;
        self.opened = true;
        first
    }
}

} // verus!
