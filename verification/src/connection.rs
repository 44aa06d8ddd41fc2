//! One connection of a server: read a request, write the response, flush.
//!
//! A [`ConnectionState`] never touches a socket. It names the [`Action`] to
//! perform next, and [`ConnectionState::step`] takes the [`Outcome`] of that
//! action.
use crate::http::{end_of_request, ends_request, response, response_bytes, CAPACITY};
use crate::http::{from_utf8_lossy, lossy_text, response_is_whole};
use crate::server::Server;
use vstd::prelude::*;
use vstd::utf8::{decode_utf8, valid_utf8};

verus! {

/// States for places where we might encounter `WouldBlock`.
pub enum ConnectionState {
    /// The descriptor is not registered with the reactor yet.
    Start,
    /// Reading the request: `read` bytes so far.
    Read { request: [u8; CAPACITY], read: usize },
    /// Writing the response: `written` bytes so far.
    Write { response: &'static [u8], written: usize },
    /// The response is written out.
    Flush,
}

/// What a [`ConnectionState`] stands for.
#[verifier::ext_equal]
pub ghost enum Phase {
    Start,
    Read { request: Seq<u8>, read: nat },
    Write { response: Seq<u8>, written: nat },
    Flush,
}

/// What an [`Action`] came to.
pub enum Outcome<'a, E> {
    /// The descriptor is registered.
    Registered,
    /// A read brought these bytes; none at all means that the peer is gone.
    Received(&'a [u8]),
    /// A write took this many bytes; zero means that the peer is gone.
    Sent(usize),
    /// The flush went through.
    Flushed,
    /// The operation is not ready yet, with the error that says so.
    WouldBlock(E),
    /// The operation failed for another reason, with this error.
    Failed(E),
}

/// What an [`Outcome`] stands for.
#[verifier::ext_equal]
pub ghost enum Happening<E> {
    Registered,
    Received(Seq<u8>),
    Sent(nat),
    Flushed,
    WouldBlock(E),
    Failed(E),
}

/// An operation to perform for the connection.
#[derive(Clone, Copy, Debug, PartialEq, Eq, Structural)]
pub enum Action {
    /// Register the descriptor with the reactor.
    Register,
    /// Read up to `room` bytes.
    Read { room: usize },
    /// Write the response from this offset on.
    Write { from: usize },
    /// Flush the connection.
    Flush,
}

/// How the connection goes on after an outcome.
#[derive(Debug, PartialEq, Eq)]
pub enum Followup<E> {
    /// Perform this action.
    Perform(Action),
    /// Not ready yet: leave the connection for later.
    Suspend,
    /// The connection is done with. `unregister` tells whether its descriptor
    /// is to be taken out of the reactor.
    Complete { unregister: bool },
    /// Give up on the error that the operation ended with.
    Fail(E),
}

/// What to print to the console.
#[derive(Debug, PartialEq, Eq)]
pub enum Notice {
    /// The request, complete.
    Request(Vec<u8>),
    /// The peer is gone. The servers word it in two ways.
    Disconnected { unexpectedly: bool },
}

/// What a [`Notice`] stands for.
#[verifier::ext_equal]
pub ghost enum Message {
    Request(Seq<u8>),
    Disconnected { unexpectedly: bool },
}

/// What follows from an outcome.
#[derive(Debug, PartialEq, Eq)]
pub struct Reply<E> {
    pub followup: Followup<E>,
    pub notice: Option<Notice>,
}

/// Where an outcome leads: the phase after it and what follows from it.
#[verifier::ext_equal]
pub ghost struct Transition<E> {
    pub phase: Phase,
    pub followup: Followup<E>,
    pub notice: Option<Message>,
}

impl View for ConnectionState {
    type V = Phase;

    open spec fn view(&self) -> Phase {
        match *self {
            ConnectionState::Start => Phase::Start,
            ConnectionState::Read { request, read } => Phase::Read {
                request: request@,
                read: read as nat,
            },
            ConnectionState::Write { response, written } => Phase::Write {
                response: response@,
                written: written as nat,
            },
            ConnectionState::Flush => Phase::Flush,
        }
    }
}

impl<'a, E> View for Outcome<'a, E> {
    type V = Happening<E>;

    open spec fn view(&self) -> Happening<E> {
        match *self {
            Outcome::Registered => Happening::Registered,
            Outcome::Received(chunk) => Happening::Received(chunk@),
            Outcome::Sent(n) => Happening::Sent(n as nat),
            Outcome::Flushed => Happening::Flushed,
            Outcome::WouldBlock(error) => Happening::WouldBlock(error),
            Outcome::Failed(error) => Happening::Failed(error),
        }
    }
}

impl View for Notice {
    type V = Message;

    open spec fn view(&self) -> Message {
        match *self {
            Notice::Request(bytes) => Message::Request(bytes@),
            Notice::Disconnected { unexpectedly } => Message::Disconnected { unexpectedly },
        }
    }
}

/// The notice of a reply, if there is one.
pub open spec fn message(notice: Option<Notice>) -> Option<Message> {
    match notice {
        Some(n) => Some(n@),
        None => None,
    }
}

/// The buffer with the chunk laid over it from offset `at` on.
pub open spec fn overlay(buffer: Seq<u8>, at: int, chunk: Seq<u8>) -> Seq<u8> {
    buffer.take(at) + chunk + buffer.skip(at + chunk.len())
}

impl Phase {
    /// A connection that has just been accepted.
    pub open spec fn initial(server: Server) -> Phase {
        if server.runs_tasks() {
            Phase::Start
        } else {
            Phase::reading()
        }
    }

    /// An empty buffer and zero bytes read.
    pub open spec fn reading() -> Phase {
        Phase::Read { request: Seq::new(CAPACITY as nat, |i: int| 0u8), read: 0 }
    }

    /// The response, none of it written.
    pub open spec fn writing() -> Phase {
        Phase::Write { response: response_bytes(), written: 0 }
    }

    /// What holds of every phase that a connection gets into: what is read fits
    /// into the buffer, and while the response is written there is some of it
    /// left.
    pub open spec fn wf(self) -> bool {
        match self {
            Phase::Start => true,
            Phase::Read { request, read } => request.len() == CAPACITY && read <= CAPACITY,
            Phase::Write { response, written } => {
                &&& response == response_bytes()
                &&& written < response.len()
            },
            Phase::Flush => true,
        }
    }

    /// The action that the connection waits on in this phase. A read goes to the
    /// part of the buffer that is still unfilled.
    pub open spec fn awaits(self) -> Action {
        match self {
            Phase::Start => Action::Register,
            Phase::Read { request, read } => Action::Read { room: (CAPACITY - read) as usize },
            Phase::Write { response, written } => Action::Write { from: written as usize },
            Phase::Flush => Action::Flush,
        }
    }

    /// The outcome is one that the awaited action can have.
    pub open spec fn admits<E>(self, outcome: Happening<E>) -> bool {
        match (self, outcome) {
            (Phase::Start, Happening::Registered) => true,
            (Phase::Read { request, read }, Happening::Received(chunk)) => read + chunk.len()
                <= CAPACITY,
            (Phase::Write { response, written }, Happening::Sent(n)) => written + n
                <= response.len(),
            (Phase::Flush, Happening::Flushed) => true,
            (Phase::Start, _) => false,
            (_, Happening::WouldBlock(_)) => true,
            (_, Happening::Failed(_)) => true,
            (_, _) => false,
        }
    }

    /// What an outcome of the awaited action leads to.
    pub open spec fn step<E>(self, server: Server, outcome: Happening<E>) -> Transition<E> {
        match outcome {
            Happening::Registered => Phase::reading().proceed(None),
            Happening::Received(chunk) => if chunk.len() == 0 {
                self.disconnect(server)
            } else {
                self.receive(chunk)
            },
            Happening::Sent(n) => if n == 0 {
                self.disconnect(server)
            } else {
                self.send(n)
            },
            Happening::Flushed => Transition {
                phase: self,
                followup: Followup::Complete { unregister: server.runs_tasks() },
                notice: None,
            },
            Happening::WouldBlock(error) => Transition {
                phase: self,
                followup: if server.blocks() {
                    Followup::Fail(error)
                } else {
                    Followup::Suspend
                },
                notice: None,
            },
            Happening::Failed(error) => Transition {
                phase: self,
                followup: Followup::Fail(error),
                notice: None,
            },
        }
    }

    /// Go on in this phase.
    pub open spec fn proceed<E>(self, notice: Option<Message>) -> Transition<E> {
        Transition { phase: self, followup: Followup::Perform(self.awaits()), notice }
    }

    /// Bytes have come in: the request is complete, or the rest of it is to be
    /// read.
    pub open spec fn receive<E>(self, chunk: Seq<u8>) -> Transition<E> {
        let request = self->request;
        let read = self->read + chunk.len();
        let filled = overlay(request, self->read as int, chunk);
        if ends_request(filled, read) {
            Phase::writing().proceed(Some(Message::Request(filled.take(read as int))))
        } else {
            Phase::Read { request: filled, read }.proceed(None)
        }
    }

    /// Bytes have gone out: the response is through, or the rest of it is to be
    /// written.
    pub open spec fn send<E>(self, n: nat) -> Transition<E> {
        let response = self->response;
        let written = self->written + n;
        if written == response.len() {
            Phase::Flush.proceed(None)
        } else {
            Phase::Write { response, written }.proceed(None)
        }
    }

    /// The peer is gone. The chained task goes on to its next link; every other
    /// server is done with the connection.
    pub open spec fn disconnect<E>(self, server: Server) -> Transition<E> {
        let notice = self.farewell(server);
        if server is Functional {
            match self {
                Phase::Read { .. } => Phase::writing().proceed(notice),
                _ => Phase::Flush.proceed(notice),
            }
        } else {
            Transition { phase: self, followup: Followup::Complete { unregister: false }, notice }
        }
    }

    /// What is printed when the peer is gone. The multiplexed server says
    /// nothing of a peer that leaves during the response.
    pub open spec fn farewell(self, server: Server) -> Option<Message> {
        match server {
            Server::Simple | Server::NonBlocking => Some(
                Message::Disconnected { unexpectedly: false },
            ),
            Server::Multiplexed => if self is Read {
                Some(Message::Disconnected { unexpectedly: true })
            } else {
                None
            },
            Server::Functional | Server::Asynchronous => Some(
                Message::Disconnected { unexpectedly: true },
            ),
        }
    }
}

impl ConnectionState {
    /// The state of a connection that has just been accepted.
    pub fn new(server: Server) -> (state: ConnectionState)
        ensures
            state@ == Phase::initial(server),
            state@.wf(),
    {
        if server.runs_tasks() {
            ConnectionState::Start
        } else {
            ConnectionState::reading()
        }
    }

    /// The Read state with an empty buffer and zero bytes read.
    fn reading() -> (state: ConnectionState)
        ensures
            state@ == Phase::reading(),
    {
        let request = [0u8; CAPACITY];
        assert(request@ =~= Seq::new(CAPACITY as nat, |i: int| 0u8));
        ConnectionState::Read { request, read: 0 }
    }

    /// The Write state with the whole response still to write.
    fn writing() -> (state: ConnectionState)
        ensures
            state@ == Phase::writing(),
            state@.wf(),
    {
        proof {
            response_is_whole();
        }
        ConnectionState::Write { response: response(), written: 0 }
    }

    /// The action with which the connection goes on from where it stands.
    pub fn resume(&self) -> (action: Action)
        requires
            self@.wf(),
        ensures
            action == self@.awaits(),
            action matches Action::Write { from } ==> from < response_bytes().len(),
    {
        match self {
            ConnectionState::Start => Action::Register,
            ConnectionState::Read { request, read } => Action::Read { room: CAPACITY - *read },
            ConnectionState::Write { response, written } => Action::Write { from: *written },
            ConnectionState::Flush => Action::Flush,
        }
    }

    /// Tells whether the outcome is one that the awaited action can have.
    pub fn admits<E>(&self, outcome: &Outcome<E>) -> (fits: bool)
        ensures
            fits == self@.admits(outcome@),
    {
        match (self, outcome) {
            (ConnectionState::Start, Outcome::Registered) => true,
            (ConnectionState::Read { request, read }, Outcome::Received(chunk)) => {
                let n: usize = chunk.len();
                *read <= CAPACITY && n <= CAPACITY - *read
            },
            (ConnectionState::Write { response, written }, Outcome::Sent(n)) => {
                let length: usize = response.len();
                *written <= length && *n <= length - *written
            },
            (ConnectionState::Flush, Outcome::Flushed) => true,
            (ConnectionState::Start, _) => false,
            (_, Outcome::WouldBlock(_)) => true,
            (_, Outcome::Failed(_)) => true,
            (_, _) => false,
        }
    }

    /// Takes the outcome of the awaited action, moves on to the next state and
    /// says what follows.
    pub fn step<E>(&mut self, server: Server, outcome: Outcome<E>) -> (reply: Reply<E>)
        requires
            old(self)@.wf(),
            old(self)@.admits(outcome@),
        ensures
            final(self)@.wf(),
            final(self)@ == old(self)@.step(server, outcome@).phase,
            reply.followup == old(self)@.step(server, outcome@).followup,
            message(reply.notice) == old(self)@.step(server, outcome@).notice,
            reply.followup matches Followup::Perform(Action::Write { from }) ==> from
                < response_bytes().len(),
    {
        match outcome {
            Outcome::Registered => {
                *self = ConnectionState::reading();
                Reply { followup: Followup::Perform(self.resume()), notice: None }
            },
            Outcome::Received(chunk) => if chunk.len() == 0 {
                self.disconnect(server)
            } else {
                self.receive(chunk)
            },
            Outcome::Sent(n) => if n == 0 {
                self.disconnect(server)
            } else {
                self.send(n)
            },
            Outcome::Flushed => Reply {
                followup: Followup::Complete { unregister: server.runs_tasks() },
                notice: None,
            },
            Outcome::WouldBlock(error) => {
                let followup = if server.blocks() {
                    Followup::Fail(error)
                } else {
                    Followup::Suspend
                };
                Reply { followup, notice: None }
            },
            Outcome::Failed(error) => Reply { followup: Followup::Fail(error), notice: None },
        }
    }

    fn receive<E>(&mut self, chunk: &[u8]) -> (reply: Reply<E>)
        requires
            old(self)@ is Read,
            old(self)@.wf(),
            old(self)@.admits(Happening::<E>::Received(chunk@)),
            chunk@.len() > 0,
        ensures
            final(self)@.wf(),
            final(self)@ == old(self)@.receive::<E>(chunk@).phase,
            reply.followup == old(self)@.receive::<E>(chunk@).followup,
            message(reply.notice) == old(self)@.receive::<E>(chunk@).notice,
    {
        let mut notice = None;
        if let ConnectionState::Read { request, read } = self {
            lay_over(request, *read, chunk);
            *read = *read + chunk.len();
            if end_of_request(request, *read) {
                notice = Some(Notice::Request(first_bytes(request, *read)));
            }
        }
        if notice.is_some() {
            *self = ConnectionState::writing();
        }
        Reply { followup: Followup::Perform(self.resume()), notice }
    }

    fn send<E>(&mut self, n: usize) -> (reply: Reply<E>)
        requires
            old(self)@ is Write,
            old(self)@.wf(),
            old(self)@.admits(Happening::<E>::Sent(n as nat)),
        ensures
            final(self)@.wf(),
            final(self)@ == old(self)@.send::<E>(n as nat).phase,
            reply.followup == old(self)@.send::<E>(n as nat).followup,
            message(reply.notice) == old(self)@.send::<E>(n as nat).notice,
    {
        let mut through = false;
        if let ConnectionState::Write { response, written } = self {
            let length: usize = response.len();
            *written = *written + n;
            through = *written == length;
        }
        if through {
            *self = ConnectionState::Flush;
        }
        Reply { followup: Followup::Perform(self.resume()), notice: None }
    }

    fn disconnect<E>(&mut self, server: Server) -> (reply: Reply<E>)
        requires
            old(self)@ is Read || old(self)@ is Write,
            old(self)@.wf(),
        ensures
            final(self)@.wf(),
            final(self)@ == old(self)@.disconnect::<E>(server).phase,
            reply.followup == old(self)@.disconnect::<E>(server).followup,
            message(reply.notice) == old(self)@.disconnect::<E>(server).notice,
    {
        let reading = match self {
            ConnectionState::Read { .. } => true,
            _ => false,
        };
        let notice = match server {
            Server::Simple | Server::NonBlocking => Some(
                Notice::Disconnected { unexpectedly: false },
            ),
            Server::Multiplexed => if reading {
                Some(Notice::Disconnected { unexpectedly: true })
            } else {
                None
            },
            Server::Functional | Server::Asynchronous => Some(
                Notice::Disconnected { unexpectedly: true },
            ),
        };
        match server {
            Server::Functional => {
                *self = if reading {
                    ConnectionState::writing()
                } else {
                    ConnectionState::Flush
                };
                Reply { followup: Followup::Perform(self.resume()), notice }
            },
            _ => Reply { followup: Followup::Complete { unregister: false }, notice },
        }
    }
}

/// What a call that serves a whole connection returns, once it does: nothing but
/// success, or the error that it gave up on.
pub open spec fn returned<E>(followup: Followup<E>) -> Option<Result<(), E>> {
    match followup {
        Followup::Complete { .. } => Some(Ok(())),
        Followup::Fail(error) => Some(Err(error)),
        _ => None,
    }
}

impl<E> Followup<E> {
    /// What a call that serves a whole connection returns, or nothing if it is to
    /// go on.
    pub fn result(self) -> (result: Option<Result<(), E>>)
        ensures
            result == returned(self),
    {
        match self {
            Followup::Complete { .. } => Some(Ok(())),
            Followup::Fail(error) => Some(Err(error)),
            _ => None,
        }
    }
}

impl Notice {
    /// The line to print.
    pub fn text(&self) -> (text: String)
        ensures
            match self@ {
                Message::Request(bytes) => {
                    &&& text@ == lossy_text(bytes)
                    &&& valid_utf8(bytes) ==> text@ == decode_utf8(bytes)
                },
                Message::Disconnected { unexpectedly } => text@ == if unexpectedly {
                    "client disconnected unexpectedly"@
                } else {
                    "client disconnected"@
                },
            },
    {
        match self {
            Notice::Request(bytes) => from_utf8_lossy(bytes.as_slice()),
            Notice::Disconnected { unexpectedly } => if *unexpectedly {
                "client disconnected unexpectedly".to_owned()
            } else {
                "client disconnected".to_owned()
            },
        }
    }
}

/// Copies the chunk into the buffer, from offset `at` on.
fn lay_over(buffer: &mut [u8; CAPACITY], at: usize, chunk: &[u8])
    requires
        at + chunk@.len() <= CAPACITY,
    ensures
        final(buffer)@ == overlay(old(buffer)@, at as int, chunk@),
{
    let mut i: usize = 0;
    while i < chunk.len()
        invariant
            i <= chunk@.len(),
            at + chunk@.len() <= CAPACITY,
            buffer@ =~= overlay(old(buffer)@, at as int, chunk@.take(i as int)),
        decreases chunk@.len() - i,
    {
        buffer[at + i] = chunk[i];
        assert(chunk@.take(i + 1) =~= chunk@.take(i as int).push(chunk@[i as int]));
        i = i + 1;
    }
    assert(chunk@.take(i as int) =~= chunk@);
}

/// A copy of the first `n` bytes of the buffer.
fn first_bytes(buffer: &[u8; CAPACITY], n: usize) -> (bytes: Vec<u8>)
    requires
        n <= CAPACITY,
    ensures
        bytes@ == buffer@.take(n as int),
{
    let mut bytes: Vec<u8> = Vec::new();
    let mut i: usize = 0;
    while i < n
        invariant
            i <= n <= CAPACITY,
            bytes@ =~= buffer@.take(i as int),
        decreases n - i,
    {
        bytes.push(buffer[i]);
        i = i + 1;
    }
    bytes
}

} // verus!
