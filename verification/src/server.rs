//! The five servers and what tells them apart.
use vstd::prelude::*;

verus! {

/// Which of the five servers is running.
#[derive(Clone, Copy, Debug, PartialEq, Eq, Structural)]
pub enum Server {
    /// Blocking I/O, one connection at a time.
    Simple,
    /// Non-blocking I/O, all connections tried in turn.
    NonBlocking,
    /// Non-blocking I/O on the connections that epoll reports.
    Multiplexed,
    /// Tasks put together from chained closures.
    Functional,
    /// Tasks written out as state machines.
    Asynchronous,
}

impl Server {
    /// The server runs its connections as tasks, woken by the reactor.
    #[verifier::allow_in_spec]
    pub fn runs_tasks(self) -> bool
        returns
            self is Functional || self is Asynchronous,
    {
        match self {
            Server::Functional | Server::Asynchronous => true,
            _ => false,
        }
    }

    /// The server's sockets are in blocking mode, so that every error ends the
    /// connection.
    #[verifier::allow_in_spec]
    pub fn blocks(self) -> bool
        returns
            self is Simple,
    {
        match self {
            Server::Simple => true,
            _ => false,
        }
    }
}

/// Two servers run a task for each connection, and one blocks.
pub proof fn servers_are_told_apart(server: Server)
    ensures
        server.runs_tasks() <==> {
            &&& !(server is Simple)
            &&& !(server is NonBlocking)
            &&& !(server is Multiplexed)
        },
        server.blocks() <==> server == Server::Simple,
        !(server.runs_tasks() && server.blocks()),
{
}

} // verus!
