//! How an event on a connection is gone through from its beginning to its end, and in which
//! order the handlers are called on the way.
use crate::client::{ClientState, ClientView, DataStep, Expect};
use crate::event::{ReadResult, Readiness, Task, WriteResult};
use crate::http::ContentType;
use crate::server::{ResourceView, Served, ServedView, Server, ServerView};
use vstd::prelude::*;

verus! {

/// What a turn waits for.
#[derive(Clone, Copy, Debug, PartialEq, Eq, Structural)]
pub enum TurnStage {
    /// Bytes from the socket.
    Reading,
    /// That the reply to a handshake has been written.
    Replying,
    /// The connect handler.
    Connecting,
    /// That the response to a request has been written.
    Responding,
    /// The message handler.
    Messaging,
    /// That what waits to leave has been written.
    Writing,
    /// Nothing more.
    Over,
}

/// An event on a connection that is being gone through.
#[derive(Clone, Copy, Debug, PartialEq, Eq, Structural)]
pub struct Turn {
    /// The connection's slot.
    pub id: usize,
    /// What the event says of the socket.
    pub ready: Readiness,
    /// What the turn waits for.
    pub stage: TurnStage,
}

/// What has been done for a turn.
pub enum TurnEvent {
    /// The socket has been read from.
    Read(ReadResult),
    /// The reply to the handshake has been written.
    Replied,
    /// The connect handler has been called, and it went well or did not.
    Connected(bool),
    /// The response has been written, which went well or did not.
    Responded(bool),
    /// The message handler has been called, and it went well or did not.
    Messaged(bool),
    /// What waits to leave has been written to the socket.
    Written(WriteResult),
}

/// Why the server cannot go on.
#[derive(Clone, Copy, Debug, PartialEq, Eq, Structural)]
pub enum Fault {
    /// A request for an upgrade brings no key.
    NoKey,
    /// A request asks for nothing.
    NoPath,
    /// A frame is not the last of its message.
    Continuation,
    /// A frame is of a sort that the server cannot take.
    UnknownOpcode,
    /// A payload has 126 bytes or more.
    LongPayload,
}

/// What is to be done for a turn.
pub enum TurnAction {
    /// Read from the socket, at most as many bytes as the connection has room for.
    Read,
    /// Write this reply to a handshake to the socket.
    Reply(String),
    /// Call the connect handler.
    Connect,
    /// Write this response to the socket.
    Respond(String),
    /// Write the file at `path` to the socket, as a response.
    HandOut {
        /// Where the file is.
        path: String,
        /// What it holds.
        content_type: ContentType,
    },
    /// Call the message handler with the message at the front of what has arrived.
    Message,
    /// Write to the socket what waits to leave.
    Write,
    /// The connection is gone: watch its socket no longer, and close it.
    Deregister,
    /// The connection is gone: close its socket.
    Drop,
    /// Nothing.
    Done,
    /// Nothing can be done.
    Stop(Fault),
}

/// What a [`TurnAction`] is, in mathematical terms.
pub enum TurnActionView {
    /// See [`TurnAction::Read`].
    Read,
    /// See [`TurnAction::Reply`].
    Reply(Seq<char>),
    /// See [`TurnAction::Connect`].
    Connect,
    /// See [`TurnAction::Respond`].
    Respond(Seq<char>),
    /// See [`TurnAction::HandOut`].
    HandOut {
        /// Where the file is.
        path: Seq<char>,
        /// What it holds.
        content_type: ContentType,
    },
    /// See [`TurnAction::Message`].
    Message,
    /// See [`TurnAction::Write`].
    Write,
    /// See [`TurnAction::Deregister`].
    Deregister,
    /// See [`TurnAction::Drop`].
    Drop,
    /// See [`TurnAction::Done`].
    Done,
    /// See [`TurnAction::Stop`].
    Stop(Fault),
}

impl View for TurnAction {
    type V = TurnActionView;

    open spec fn view(&self) -> TurnActionView {
        match self {
            TurnAction::Read => TurnActionView::Read,
            TurnAction::Reply(reply) => TurnActionView::Reply(reply@),
            TurnAction::Connect => TurnActionView::Connect,
            TurnAction::Respond(response) => TurnActionView::Respond(response@),
            TurnAction::HandOut { path, content_type } => TurnActionView::HandOut {
                path: path@,
                content_type: *content_type,
            },
            TurnAction::Message => TurnActionView::Message,
            TurnAction::Write => TurnActionView::Write,
            TurnAction::Deregister => TurnActionView::Deregister,
            TurnAction::Drop => TurnActionView::Drop,
            TurnAction::Done => TurnActionView::Done,
            TurnAction::Stop(fault) => TurnActionView::Stop(*fault),
        }
    }
}

/// Where a turn leads to: the server, what the turn then waits for, and what is to be done.
pub type Outcome = (ServerView, TurnStage, TurnActionView);

impl ServerView {
    /// What a task leads to that is not about what has arrived.
    pub open spec fn tasked(self, task: Task) -> Outcome {
        match task {
            Task::Read => (self, TurnStage::Reading, TurnActionView::Read),
            Task::Write => (self, TurnStage::Writing, TurnActionView::Write),
            Task::Deregister => (self, TurnStage::Over, TurnActionView::Deregister),
            Task::Drop => (self, TurnStage::Over, TurnActionView::Drop),
            _ => (self, TurnStage::Over, TurnActionView::Done),
        }
    }

    /// What follows once what has arrived has been looked at, which went well or did not.
    pub open spec fn settled(self, id: int, ready: Readiness, ok: bool) -> Outcome {
        let (next, task) = self.after_handling(id, ready, ok);
        next.tasked(task)
    }

    /// What follows where what has arrived is a request.
    pub open spec fn requested(self, id: int, ready: Readiness) -> Outcome {
        let client = self.slots[id]->0;
        let next = self.with_slot(id, Some(client.consumed(client.rx.len() as int)));
        match crate::server::serve(client.rx, self.resources) {
            ServedView::Ignored => next.settled(id, ready, true),
            ServedView::Upgrade(reply) => (
                next,
                TurnStage::Replying,
                TurnActionView::Reply(reply),
            ),
            ServedView::NoKey => (next, TurnStage::Over, TurnActionView::Stop(Fault::NoKey)),
            ServedView::NotFound(response) => (
                next,
                TurnStage::Responding,
                TurnActionView::Respond(response),
            ),
            ServedView::File { path, content_type } => (
                next,
                TurnStage::Responding,
                TurnActionView::HandOut { path, content_type },
            ),
            ServedView::NoPath => (next, TurnStage::Over, TurnActionView::Stop(Fault::NoPath)),
        }
    }

    /// What follows where what has arrived are frames.
    pub open spec fn framed(self, id: int, ready: Readiness) -> Outcome {
        let (client, step) = self.slots[id]->0.data_step();
        let next = self.with_slot(id, Some(client));
        match step {
            DataStep::Wait => next.settled(id, ready, true),
            DataStep::Message => (next, TurnStage::Messaging, TurnActionView::Message),
            DataStep::Close => next.settled(id, ready, false),
            DataStep::Continuation => (
                next,
                TurnStage::Over,
                TurnActionView::Stop(Fault::Continuation),
            ),
            DataStep::UnknownOpcode => (
                next,
                TurnStage::Over,
                TurnActionView::Stop(Fault::UnknownOpcode),
            ),
            DataStep::LongPayload => (
                next,
                TurnStage::Over,
                TurnActionView::Stop(Fault::LongPayload),
            ),
        }
    }

    /// What follows once a message has been handled: a frame comes next, and where more bytes
    /// are at hand they are looked at.
    pub open spec fn messaged(self, id: int, ready: Readiness, ok: bool) -> Outcome {
        let client = self.slots[id]->0;
        let next = self.with_slot(id, Some(ClientView { expect: Expect::Frame, ..client }));
        if !ok {
            self.settled(id, ready, false)
        } else if client.rx.len() > 0 {
            next.framed(id, ready)
        } else {
            next.settled(id, ready, true)
        }
    }

    /// What a task leads to.
    pub open spec fn enacted(self, id: int, ready: Readiness, task: Task) -> Outcome {
        match task {
            Task::Serve => self.requested(id, ready),
            Task::Handle => self.framed(id, ready),
            _ => self.tasked(task),
        }
    }

    /// Where a turn begins.
    pub open spec fn turn_begun(self, id: int, ready: Readiness) -> Outcome {
        let (next, task) = self.begun(id, ready);
        next.enacted(id, ready, task)
    }

    /// Whether `event` is what `turn` waits for, and a read has brought no more than there was
    /// room for.
    pub open spec fn turn_accepts(self, turn: Turn, event: TurnEvent) -> bool {
        &&& self.has(turn.id as int)
        &&& match event {
            TurnEvent::Read(result) => {
                &&& turn.stage == TurnStage::Reading
                &&& result matches ReadResult::Bytes(bytes) ==> bytes@.len()
                    <= crate::ring::CAPACITY - self.slots[turn.id as int]->0.rx.len()
            },
            TurnEvent::Replied => turn.stage == TurnStage::Replying,
            TurnEvent::Connected(_) => turn.stage == TurnStage::Connecting,
            TurnEvent::Responded(_) => turn.stage == TurnStage::Responding,
            TurnEvent::Messaged(_) => turn.stage == TurnStage::Messaging,
            TurnEvent::Written(_) => turn.stage == TurnStage::Writing,
        }
    }

    /// Where `turn` leads to after `event`.
    pub open spec fn turned(self, turn: Turn, event: TurnEvent) -> Outcome {
        let id = turn.id as int;
        match event {
            TurnEvent::Read(result) => {
                let (next, task) = self.after_read(id, result);
                next.enacted(id, turn.ready, task)
            },
            TurnEvent::Replied => (self, TurnStage::Connecting, TurnActionView::Connect),
            TurnEvent::Connected(ok) => self.connected(id, ok).settled(id, turn.ready, ok),
            TurnEvent::Responded(ok) => self.settled(id, turn.ready, ok),
            TurnEvent::Messaged(ok) => self.messaged(id, turn.ready, ok),
            TurnEvent::Written(result) => {
                let (next, task) = self.after_write(id, turn.ready, result);
                next.tasked(task)
            },
        }
    }
}

impl Turn {
    /// Notes what a task that is not about what has arrived leads to.
    fn follow(&mut self, task: Task) -> (action: TurnAction)
        ensures
            forall|server: ServerView|
                #![trigger server.tasked(task)]
                server.tasked(task) == (server, final(self).stage, action@),
            *final(self) == (Turn { stage: final(self).stage, ..*old(self) }),
    {
        match task {
            Task::Read => {
                self.stage = TurnStage::Reading;
                TurnAction::Read
            },
            Task::Write => {
                self.stage = TurnStage::Writing;
                TurnAction::Write
            },
            Task::Deregister => {
                self.stage = TurnStage::Over;
                TurnAction::Deregister
            },
            Task::Drop => {
                self.stage = TurnStage::Over;
                TurnAction::Drop
            },
            _ => {
                self.stage = TurnStage::Over;
                TurnAction::Done
            },
        }
    }

    /// Notes that the server cannot go on.
    fn stop(&mut self, fault: Fault) -> (action: TurnAction)
        ensures
            action@ == TurnActionView::Stop(fault),
            *final(self) == (Turn { stage: TurnStage::Over, ..*old(self) }),
    {
        self.stage = TurnStage::Over;
        TurnAction::Stop(fault)
    }
}

impl Server {
    /// Goes on once what has arrived has been looked at.
    fn settle(&mut self, turn: &mut Turn, ok: bool) -> (action: TurnAction)
        requires
            old(self)@.wf(),
            old(self)@.has(old(turn).id as int),
        ensures
            (final(self)@, final(turn).stage, action@) == old(self)@.settled(
                old(turn).id as int,
                old(turn).ready,
                ok,
            ),
            *final(turn) == (Turn { stage: final(turn).stage, ..*old(turn) }),
            final(self)@.wf(),
    {
        let task = self.on_handled(turn.id, turn.ready, ok);
        let ghost next = self@;
        let action = turn.follow(task);
        assert(next.tasked(task) == (next, turn.stage, action@));
        action
    }

    /// Takes what has arrived as a request.
    fn take_request(&mut self, turn: &mut Turn) -> (action: TurnAction)
        requires
            old(self)@.wf(),
            old(self)@.has(old(turn).id as int),
        ensures
            (final(self)@, final(turn).stage, action@) == old(self)@.requested(
                old(turn).id as int,
                old(turn).ready,
            ),
            *final(turn) == (Turn { stage: final(turn).stage, ..*old(turn) }),
            final(self)@.wf(),
    {
        match self.serve_content(turn.id) {
            Served::Ignored => self.settle(turn, true),
            Served::Upgrade(reply) => {
                turn.stage = TurnStage::Replying;
                TurnAction::Reply(reply)
            },
            Served::NoKey => turn.stop(Fault::NoKey),
            Served::NotFound(response) => {
                turn.stage = TurnStage::Responding;
                TurnAction::Respond(response)
            },
            Served::File { path, content_type } => {
                turn.stage = TurnStage::Responding;
                TurnAction::HandOut { path, content_type }
            },
            Served::NoPath => turn.stop(Fault::NoPath),
        }
    }

    /// Takes what has arrived as frames.
    fn take_frames(&mut self, turn: &mut Turn) -> (action: TurnAction)
        requires
            old(self)@.wf(),
            old(self)@.has(old(turn).id as int),
        ensures
            (final(self)@, final(turn).stage, action@) == old(self)@.framed(
                old(turn).id as int,
                old(turn).ready,
            ),
            *final(turn) == (Turn { stage: final(turn).stage, ..*old(turn) }),
            final(self)@.wf(),
    {
        let client = self.client_mut(turn.id);
        let ghost before = client@;
        let step = client.handle_data();
        proof {
            lemma_step_keeps(before);
        }
        match step {
            DataStep::Wait => self.settle(turn, true),
            DataStep::Message => {
                turn.stage = TurnStage::Messaging;
                TurnAction::Message
            },
            DataStep::Close => self.settle(turn, false),
            DataStep::Continuation => turn.stop(Fault::Continuation),
            DataStep::UnknownOpcode => turn.stop(Fault::UnknownOpcode),
            DataStep::LongPayload => turn.stop(Fault::LongPayload),
        }
    }

    /// Goes on once a message has been handled.
    fn end_message(&mut self, turn: &mut Turn, ok: bool) -> (action: TurnAction)
        requires
            old(self)@.wf(),
            old(self)@.has(old(turn).id as int),
        ensures
            (final(self)@, final(turn).stage, action@) == old(self)@.messaged(
                old(turn).id as int,
                old(turn).ready,
                ok,
            ),
            *final(turn) == (Turn { stage: final(turn).stage, ..*old(turn) }),
            final(self)@.wf(),
    {
        if !ok {
            return self.settle(turn, false);
        }
        let client = self.client_mut(turn.id);
        if client.message_done() {
            self.take_frames(turn)
        } else {
            self.settle(turn, true)
        }
    }

    /// Does what a task asks for, as far as nothing outside is needed.
    fn enact(&mut self, turn: &mut Turn, task: Task) -> (action: TurnAction)
        requires
            old(self)@.wf(),
            task == Task::Serve || task == Task::Handle ==> old(self)@.has(
                old(turn).id as int,
            ),
        ensures
            (final(self)@, final(turn).stage, action@) == old(self)@.enacted(
                old(turn).id as int,
                old(turn).ready,
                task,
            ),
            *final(turn) == (Turn { stage: final(turn).stage, ..*old(turn) }),
            final(self)@.wf(),
    {
        match task {
            Task::Serve => self.take_request(turn),
            Task::Handle => self.take_frames(turn),
            _ => {
                let action = turn.follow(task);
                assert(self@.tasked(task) == (self@, turn.stage, action@));
                action
            },
        }
    }

    /// Begins to go through an event on the connection of slot `id`; says what to do first.
    pub fn begin_turn(&mut self, id: usize, ready: Readiness) -> (begun: (Turn, TurnAction))
        requires
            old(self)@.wf(),
            old(self)@.has(id as int),
        ensures
            (final(self)@, begun.0.stage, begun.1@) == old(self)@.turn_begun(id as int, ready),
            begun.0.id == id,
            begun.0.ready == ready,
            final(self)@.wf(),
    {
        let mut turn = Turn { id, ready, stage: TurnStage::Over };
        let task = self.on_event(id, ready);
        let action = self.enact(&mut turn, task);
        (turn, action)
    }

    /// Takes `turn` on from where it stands, now that `event` has happened, and says what to
    /// do next.
    pub fn take_turn(&mut self, turn: &mut Turn, event: TurnEvent) -> (action: TurnAction)
        requires
            old(self)@.wf(),
            old(self)@.turn_accepts(*old(turn), event),
        ensures
            (final(self)@, final(turn).stage, action@) == old(self)@.turned(*old(turn), event),
            *final(turn) == (Turn { stage: final(turn).stage, ..*old(turn) }),
            final(self)@.wf(),
    {
        match event {
            TurnEvent::Read(result) => {
                let task = self.on_read(turn.id, result);
                self.enact(turn, task)
            },
            TurnEvent::Replied => {
                turn.stage = TurnStage::Connecting;
                TurnAction::Connect
            },
            TurnEvent::Connected(ok) => {
                self.on_connected(turn.id, ok);
                self.settle(turn, ok)
            },
            TurnEvent::Responded(ok) => self.settle(turn, ok),
            TurnEvent::Messaged(ok) => self.end_message(turn, ok),
            TurnEvent::Written(result) => {
                let task = self.on_written(turn.id, turn.ready, result);
                let action = turn.follow(task);
                assert(self@.tasked(task) == (self@, turn.stage, action@));
                action
            },
        }
    }
}

/// Reading frames leaves a connection's slot and its upgrade as they are.
proof fn lemma_step_keeps(client: ClientView)
    ensures
        client.data_step().0.id == client.id,
        client.data_step().0.state == client.state,
{
}

/// What happens while a connection is there.
pub enum Happening {
    /// An event on it begins to be gone through.
    Begun(Readiness),
    /// Something has been done for the event that is being gone through.
    Turned(TurnEvent),
    /// Something else has changed the server to this: a handler, or an event on another
    /// connection.
    Elsewhere(ServerView),
}

/// What has become of the connection of a slot since it was accepted.
pub struct Life {
    /// The server as it stands.
    pub server: ServerView,
    /// The event that is being gone through, if any.
    pub turn: Option<Turn>,
    /// What the last happening asked for.
    pub action: TurnActionView,
    /// Whether the reply to the handshake has been written.
    pub replied: bool,
    /// How often the connect handler has been called.
    pub connects: nat,
    /// Whether the connect handler went well.
    pub joined: bool,
    /// Whether the connect handler did not go well.
    pub refused: bool,
}

impl Life {
    /// A connection that has just been accepted.
    pub open spec fn accepted(server: ServerView) -> Life {
        Life {
            server,
            turn: None,
            action: TurnActionView::Done,
            replied: false,
            connects: 0,
            joined: false,
            refused: false,
        }
    }

    /// Whether `happening` can come next on the connection of slot `id`: one event is gone
    /// through at a time, and nothing else ends the connection or upgrades it.
    pub open spec fn can(self, id: usize, happening: Happening) -> bool {
        match happening {
            Happening::Begun(_) => self.turn is None && self.server.has(id as int),
            Happening::Turned(event) => self.turn is Some && self.server.turn_accepts(
                self.turn->0,
                event,
            ),
            Happening::Elsewhere(server) => {
                &&& server.slots.len() == self.server.slots.len()
                &&& server.has(id as int) == self.server.has(id as int)
                &&& server.has(id as int) ==> server.slots[id as int]->0.state
                    == self.server.slots[id as int]->0.state
            },
        }
    }

    /// The life with what a turn leads to.
    pub open spec fn led(self, turn: Turn, outcome: Outcome) -> Life {
        Life {
            server: outcome.0,
            turn: if outcome.1 == TurnStage::Over {
                None
            } else {
                Some(Turn { stage: outcome.1, ..turn })
            },
            action: outcome.2,
            connects: if outcome.2 is Connect {
                self.connects + 1
            } else {
                self.connects
            },
            ..self
        }
    }

    /// The life after `happening`.
    pub open spec fn after(self, id: usize, happening: Happening) -> Life {
        match happening {
            Happening::Begun(ready) => self.led(
                Turn { id, ready, stage: TurnStage::Over },
                self.server.turn_begun(id as int, ready),
            ),
            Happening::Turned(event) => {
                let noted = Life {
                    replied: self.replied || event is Replied,
                    joined: self.joined || event == TurnEvent::Connected(true),
                    refused: self.refused || event == TurnEvent::Connected(false),
                    ..self
                };
                noted.led(self.turn->0, self.server.turned(self.turn->0, event))
            },
            Happening::Elsewhere(server) => Life {
                server,
                action: TurnActionView::Done,
                ..self
            },
        }
    }

    /// The life after all of `happenings`, the earliest first.
    pub open spec fn after_all(self, id: usize, happenings: Seq<Happening>) -> Life
        decreases happenings.len(),
    {
        if happenings.len() == 0 {
            self
        } else {
            self.after_all(id, happenings.drop_last()).after(id, happenings.last())
        }
    }

    /// Whether all of `happenings` can come, one after the other.
    pub open spec fn can_all(self, id: usize, happenings: Seq<Happening>) -> bool
        decreases happenings.len(),
    {
        happenings.len() > 0 ==> {
            &&& self.can_all(id, happenings.drop_last())
            &&& self.after_all(id, happenings.drop_last()).can(id, happenings.last())
        }
    }

    /// What holds of every life.
    spec fn wf(self, id: usize) -> bool {
        let there = self.server.has(id as int);
        let upgraded = self.server.slots[id as int]->0.state == ClientState::PostHandshake;
        &&& self.joined || self.refused ==> self.replied && self.connects == 1
        &&& !(self.joined && self.refused)
        &&& self.refused ==> !there
        &&& there ==> (upgraded <==> self.joined)
        &&& self.turn is Some ==> there && self.turn->0.id == id && match self.turn->0.stage {
            TurnStage::Replying => !upgraded,
            TurnStage::Connecting => !upgraded && self.replied && self.connects == 1,
            TurnStage::Responding => !upgraded,
            TurnStage::Messaging => upgraded,
            _ => true,
        }
        &&& there && !upgraded && !(self.turn is Some && self.turn->0.stage
            == TurnStage::Connecting) ==> self.connects == 0
        &&& self.connects <= 1
        &&& self.action is Message ==> there && upgraded
        &&& self.action is Connect ==> self.replied && !self.joined && !self.refused
    }
}

/// Settling calls no handler, ends the connection where things did not go well, and leaves its
/// upgrade as it is where it stays.
proof fn lemma_settled(server: ServerView, id: int, ready: Readiness, ok: bool)
    requires
        server.has(id),
    ensures
        ({
            let (next, stage, action) = server.settled(id, ready, ok);
            &&& next.has(id) ==> next.slots[id] == server.slots[id]
            &&& !ok ==> !next.has(id)
            &&& stage == TurnStage::Over || stage == TurnStage::Writing && next.has(id)
            &&& !(action is Message) && !(action is Connect)
        }),
{
}

/// Frames lead to the message handler, or to what settling leads to, or nowhere.
proof fn lemma_framed(server: ServerView, id: int, ready: Readiness)
    requires
        server.has(id),
    ensures
        ({
            let (next, stage, action) = server.framed(id, ready);
            &&& next.has(id) ==> next.slots[id]->0.state == server.slots[id]->0.state
            &&& stage == TurnStage::Over || next.has(id) && (stage == TurnStage::Writing || stage
                == TurnStage::Messaging)
            &&& action is Message <==> stage == TurnStage::Messaging
            &&& !(action is Connect)
        }),
{
    let (client, step) = server.slots[id]->0.data_step();
    let next = server.with_slot(id, Some(client));
    lemma_step_keeps(server.slots[id]->0);
    lemma_settled(next, id, ready, true);
    lemma_settled(next, id, ready, false);
}

/// A request leads to no handler at once.
proof fn lemma_requested(server: ServerView, id: int, ready: Readiness)
    requires
        server.has(id),
    ensures
        ({
            let (next, stage, action) = server.requested(id, ready);
            &&& next.has(id) ==> next.slots[id]->0.state == server.slots[id]->0.state
            &&& stage == TurnStage::Over || next.has(id) && (stage == TurnStage::Writing || stage
                == TurnStage::Replying || stage == TurnStage::Responding)
            &&& !(action is Message) && !(action is Connect)
        }),
{
    let client = server.slots[id]->0;
    let next = server.with_slot(id, Some(client.consumed(client.rx.len() as int)));
    lemma_settled(next, id, ready, true);
}

/// The beginning of an event calls no handler.
proof fn lemma_begun(life: Life, id: usize, ready: Readiness)
    requires
        life.wf(id),
        life.can(id, Happening::Begun(ready)),
    ensures
        life.after(id, Happening::Begun(ready)).wf(id),
{
}

/// What has been read leads to what it should.
proof fn lemma_read(life: Life, id: usize, result: ReadResult)
    requires
        life.wf(id),
        life.can(id, Happening::Turned(TurnEvent::Read(result))),
    ensures
        life.after(id, Happening::Turned(TurnEvent::Read(result))).wf(id),
{
    let server = life.server;
    let ready = life.turn->0.ready;
    let next = server.after_read(id as int, result).0;
    if next.has(id as int) {
        lemma_framed(next, id as int, ready);
        lemma_requested(next, id as int, ready);
    }
}

/// Whatever is done for an event, what holds of every life goes on to hold.
proof fn lemma_turned(life: Life, id: usize, event: TurnEvent)
    requires
        life.wf(id),
        life.can(id, Happening::Turned(event)),
    ensures
        life.after(id, Happening::Turned(event)).wf(id),
{
    let server = life.server;
    let ready = life.turn->0.ready;
    let slot = id as int;
    match event {
        TurnEvent::Read(result) => {
            lemma_read(life, id, result);
        },
        TurnEvent::Replied => {},
        TurnEvent::Connected(ok) => {
            lemma_settled(server.connected(slot, ok), slot, ready, ok);
        },
        TurnEvent::Responded(ok) => {
            lemma_settled(server, slot, ready, ok);
        },
        TurnEvent::Messaged(ok) => {
            let client = server.slots[slot]->0;
            let next = server.with_slot(
                slot,
                Some(ClientView { expect: Expect::Frame, ..client }),
            );
            lemma_settled(server, slot, ready, false);
            lemma_settled(next, slot, ready, true);
            lemma_framed(next, slot, ready);
        },
        TurnEvent::Written(_) => {},
    }
}

/// What holds of every life holds from the beginning on.
proof fn lemma_life(server: ServerView, id: usize, happenings: Seq<Happening>)
    requires
        server.has(id as int),
        server.slots[id as int]->0.state == ClientState::PreHandshake,
        Life::accepted(server).can_all(id, happenings),
    ensures
        Life::accepted(server).after_all(id, happenings).wf(id),
    decreases happenings.len(),
{
    if happenings.len() > 0 {
        let before = happenings.drop_last();
        lemma_life(server, id, before);
        let life = Life::accepted(server).after_all(id, before);
        match happenings.last() {
            Happening::Begun(ready) => {
                lemma_begun(life, id, ready);
            },
            Happening::Turned(event) => {
                lemma_turned(life, id, event);
            },
            Happening::Elsewhere(_) => {},
        }
    }
}

/// Whatever happens to a connection that was accepted, the connect handler is called for it at
/// most once, and only once the reply to its handshake has been written; the message handler is
/// called with it only once that reply has been written and the connect handler has been called
/// and went well; and a connection that the connect handler refused is gone, so that neither
/// handler is called for it again.
pub proof fn law_messages_after_connect(
    server: ServerView,
    id: usize,
    happenings: Seq<Happening>,
)
    requires
        server.has(id as int),
        server.slots[id as int] == Some(crate::client::fresh(id as int)),
        Life::accepted(server).can_all(id, happenings),
    ensures
        ({
            let life = Life::accepted(server).after_all(id, happenings);
            &&& life.connects <= 1
            &&& life.action is Connect ==> life.replied && !life.joined && !life.refused
            &&& life.action is Message ==> life.replied && life.connects == 1 && life.joined
                && !life.refused
            &&& life.refused ==> !life.server.has(id as int) && !(life.action is Message)
                && !(life.action is Connect)
        }),
{
    lemma_life(server, id, happenings);
}

/// A connection counts as upgraded exactly from the moment on at which the connect handler went
/// well, and what arrives on it is taken as frames from then on, and not before.
pub proof fn law_upgraded_by_connect(
    server: ServerView,
    id: usize,
    happenings: Seq<Happening>,
    result: ReadResult,
)
    requires
        server.has(id as int),
        server.slots[id as int] == Some(crate::client::fresh(id as int)),
        Life::accepted(server).can_all(id, happenings),
        Life::accepted(server).after_all(id, happenings).server.has(id as int),
    ensures
        ({
            let life = Life::accepted(server).after_all(id, happenings);
            let task = life.server.after_read(id as int, result).1;
            &&& life.server.slots[id as int]->0.state == ClientState::PostHandshake
                <==> life.joined
            &&& task == Task::Handle ==> life.joined
            &&& task == Task::Serve ==> !life.joined
        }),
{
    lemma_life(server, id, happenings);
}

/// What a turn asks for follows from the task: a socket is read, written, given up or closed.
pub proof fn law_task_asked(server: ServerView)
    ensures
        server.tasked(Task::Read) == (server, TurnStage::Reading, TurnActionView::Read),
        server.tasked(Task::Write) == (server, TurnStage::Writing, TurnActionView::Write),
        server.tasked(Task::Deregister) == (server, TurnStage::Over, TurnActionView::Deregister),
        server.tasked(Task::Drop) == (server, TurnStage::Over, TurnActionView::Drop),
        server.tasked(Task::Done) == (server, TurnStage::Over, TurnActionView::Done),
{
}

/// What a turn asks for once what has arrived has been looked at: where that went well and the
/// socket has room, an upgraded connection is written to; else the connection goes where its socket
/// is closed or at fault. Where it did not go well, the socket is given up.
pub proof fn law_settled(server: ServerView, id: int, ready: Readiness)
    requires
        server.has(id),
    ensures
        ({
            let good = server.settled(id, ready, true);
            let bad = server.settled(id, ready, false);
            let upgraded = server.slots[id]->0.state == ClientState::PostHandshake;
            let closed = ready.read_closed || ready.write_closed || ready.error;
            let writes = ready.writable && upgraded;
            &&& writes ==> good == (server, TurnStage::Writing, TurnActionView::Write)
            &&& !writes && !closed ==> good == (server, TurnStage::Over, TurnActionView::Done)
            &&& !writes && closed ==> good.1 == TurnStage::Over && good.2
                == TurnActionView::Drop && good.0.slots == server.slots.update(id, None)
            &&& bad.1 == TurnStage::Over
            &&& bad.2 == TurnActionView::Deregister
            &&& bad.0.slots == server.slots.update(id, None)
        }),
{
}

/// What is done about a request is what was decided about it: the reply is written that was made, the
/// response that was made, or the file that was found, as what it holds; and the server stops where
/// nothing could be decided. The request is gone from what has arrived, and nothing else changes.
pub proof fn law_request_turn(server: ServerView, id: int, ready: Readiness)
    requires
        server.has(id),
        0 <= server.slots[id]->0.rx_start < 1024,
    ensures
        ({
            let client = server.slots[id]->0;
            let read = ClientView {
                rx: Seq::empty(),
                rx_start: (client.rx_start + client.rx.len()) % 1024,
                ..client
            };
            let next = ServerView { slots: server.slots.update(id, Some(read)), ..server };
            let outcome = server.requested(id, ready);
            match crate::server::serve(client.rx, server.resources) {
                ServedView::Ignored => outcome == next.settled(id, ready, true),
                ServedView::Upgrade(reply) => outcome == (
                    next,
                    TurnStage::Replying,
                    TurnActionView::Reply(reply),
                ),
                ServedView::NoKey => outcome == (
                    next,
                    TurnStage::Over,
                    TurnActionView::Stop(Fault::NoKey),
                ),
                ServedView::NotFound(response) => outcome == (
                    next,
                    TurnStage::Responding,
                    TurnActionView::Respond(response),
                ),
                ServedView::File { path, content_type } => outcome == (
                    next,
                    TurnStage::Responding,
                    TurnActionView::HandOut { path, content_type },
                ),
                ServedView::NoPath => outcome == (
                    next,
                    TurnStage::Over,
                    TurnActionView::Stop(Fault::NoPath),
                ),
            }
        }),
{
    let client = server.slots[id]->0;
    assert(client.rx.skip(client.rx.len() as int) =~= Seq::<u8>::empty());
    let read = ClientView {
        rx: Seq::empty(),
        rx_start: (client.rx_start + client.rx.len()) % 1024,
        ..client
    };
    assert(client.consumed(client.rx.len() as int) =~= read);
}

/// What is done about frames is what they say: a message goes to the message handler, a close gives
/// up the socket, part of a frame is left to wait, and the server stops at a frame that it cannot
/// take.
pub proof fn law_frame_turn(server: ServerView, id: int, ready: Readiness)
    requires
        server.has(id),
    ensures
        ({
            let (client, step) = server.slots[id]->0.data_step();
            let next = ServerView { slots: server.slots.update(id, Some(client)), ..server };
            let outcome = server.framed(id, ready);
            match step {
                DataStep::Wait => outcome == next.settled(id, ready, true),
                DataStep::Message => outcome == (
                    next,
                    TurnStage::Messaging,
                    TurnActionView::Message,
                ),
                DataStep::Close => {
                    &&& outcome.0.slots == server.slots.update(id, None)
                    &&& outcome.1 == TurnStage::Over
                    &&& outcome.2 == TurnActionView::Deregister
                },
                DataStep::Continuation => outcome == (
                    next,
                    TurnStage::Over,
                    TurnActionView::Stop(Fault::Continuation),
                ),
                DataStep::UnknownOpcode => outcome == (
                    next,
                    TurnStage::Over,
                    TurnActionView::Stop(Fault::UnknownOpcode),
                ),
                DataStep::LongPayload => outcome == (
                    next,
                    TurnStage::Over,
                    TurnActionView::Stop(Fault::LongPayload),
                ),
            }
        }),
{
    let client = server.slots[id]->0.data_step().0;
    assert(server.slots.update(id, Some(client)).update(id, None) =~= server.slots.update(
        id,
        None,
    ));
}

/// After a message a frame comes next, and is looked for at once where bytes are left; a message
/// that was not handled well gives up the socket.
pub proof fn law_message_turn(server: ServerView, id: int, ready: Readiness)
    requires
        server.has(id),
    ensures
        ({
            let client = server.slots[id]->0;
            let done = ClientView { expect: Expect::Frame, ..client };
            let next = ServerView { slots: server.slots.update(id, Some(done)), ..server };
            &&& client.rx.len() > 0 ==> server.messaged(id, ready, true) == next.framed(id, ready)
            &&& client.rx.len() == 0 ==> server.messaged(id, ready, true) == next.settled(
                id,
                ready,
                true,
            )
            &&& server.messaged(id, ready, false).1 == TurnStage::Over
            &&& server.messaged(id, ready, false).2 == TurnActionView::Deregister
            &&& server.messaged(id, ready, false).0.slots == server.slots.update(id, None)
        }),
{
}

/// A turn accepts what it waits for, whatever came of it, as long as the connection is there and
/// what was read has room among the 1024 bytes; and it accepts nothing else.
pub proof fn law_turn_accepts(server: ServerView, turn: Turn, bytes: Vec<u8>, ok: bool)
    requires
        server.has(turn.id as int),
    ensures
        server.turn_accepts(turn, TurnEvent::Read(ReadResult::Bytes(bytes))) <==> turn.stage
            == TurnStage::Reading && server.slots[turn.id as int]->0.rx.len() + bytes@.len()
            <= 1024,
        server.turn_accepts(turn, TurnEvent::Read(ReadResult::WouldBlock)) <==> turn.stage
            == TurnStage::Reading,
        server.turn_accepts(turn, TurnEvent::Read(ReadResult::Failed)) <==> turn.stage
            == TurnStage::Reading,
        server.turn_accepts(turn, TurnEvent::Replied) <==> turn.stage == TurnStage::Replying,
        server.turn_accepts(turn, TurnEvent::Connected(ok)) <==> turn.stage
            == TurnStage::Connecting,
        server.turn_accepts(turn, TurnEvent::Responded(ok)) <==> turn.stage
            == TurnStage::Responding,
        server.turn_accepts(turn, TurnEvent::Messaged(ok)) <==> turn.stage
            == TurnStage::Messaging,
        forall|result: WriteResult|
            #[trigger] server.turn_accepts(turn, TurnEvent::Written(result)) <==> turn.stage
                == TurnStage::Writing,
{
}

/// How a turn begins: with reading where there is something to read, else as one goes on once what
/// has arrived has been looked at.
pub proof fn law_turn_begins(server: ServerView, id: int, ready: Readiness)
    requires
        server.has(id),
    ensures
        ready.readable ==> server.turn_begun(id, ready) == (
            server,
            TurnStage::Reading,
            TurnActionView::Read,
        ),
        !ready.readable ==> server.turn_begun(id, ready) == server.settled(id, ready, true),
{
}

/// Where reading takes a turn: on with reading, with the bytes at the end of what has arrived; to
/// the request or to the frames once there are none for now; or to the end of the connection.
pub proof fn law_turn_reads(server: ServerView, turn: Turn, bytes: Vec<u8>)
    requires
        server.has(turn.id as int),
    ensures
        ({
            let id = turn.id as int;
            let client = server.slots[id]->0;
            let more = ClientView { rx: client.rx + bytes@, ..client };
            let read = server.turned(turn, TurnEvent::Read(ReadResult::Bytes(bytes)));
            let drained = server.turned(turn, TurnEvent::Read(ReadResult::WouldBlock));
            let failed = server.turned(turn, TurnEvent::Read(ReadResult::Failed));
            &&& bytes@.len() > 0 ==> read == (
                ServerView { slots: server.slots.update(id, Some(more)), ..server },
                TurnStage::Reading,
                TurnActionView::Read,
            )
            &&& bytes@.len() == 0 ==> read == failed
            &&& failed == (
                ServerView { slots: server.slots.update(id, None), ..server },
                TurnStage::Over,
                TurnActionView::Deregister,
            )
            &&& client.state == ClientState::PreHandshake ==> drained == server.requested(
                id,
                turn.ready,
            )
            &&& client.state == ClientState::PostHandshake ==> drained == server.framed(
                id,
                turn.ready,
            )
        }),
{
}

/// Where the other things that are done for a turn take it: a reply that has been written to the
/// connect handler; a connect handler that went well to the upgrade, and one that did not to the end
/// of the connection; a response and a message on, or to the end of the connection; and writing on,
/// or, where the socket failed, to the end of the connection.
pub proof fn law_turn_goes_on(server: ServerView, turn: Turn, ok: bool)
    requires
        server.has(turn.id as int),
    ensures
        ({
            let id = turn.id as int;
            let client = server.slots[id]->0;
            let upgraded = ServerView {
                slots: server.slots.update(
                    id,
                    Some(ClientView { state: ClientState::PostHandshake, ..client }),
                ),
                ..server
            };
            let gone = ServerView { slots: server.slots.update(id, None), ..server };
            let lost = (gone, TurnStage::Over, TurnActionView::Deregister);
            let quiet = Readiness { writable: false, ..turn.ready };
            &&& server.turned(turn, TurnEvent::Replied) == (
                server,
                TurnStage::Connecting,
                TurnActionView::Connect,
            )
            &&& server.turned(turn, TurnEvent::Connected(true)) == upgraded.settled(
                id,
                turn.ready,
                true,
            )
            &&& server.turned(turn, TurnEvent::Connected(false)) == lost
            &&& server.turned(turn, TurnEvent::Responded(true)) == server.settled(
                id,
                turn.ready,
                true,
            )
            &&& server.turned(turn, TurnEvent::Responded(false)) == lost
            &&& server.turned(turn, TurnEvent::Messaged(ok)) == server.messaged(
                id,
                turn.ready,
                ok,
            )
            &&& server.turned(turn, TurnEvent::Written(WriteResult::Failed)) == (
                gone,
                TurnStage::Over,
                TurnActionView::Drop,
            )
            &&& forall|result: WriteResult|
                result != WriteResult::Failed ==> #[trigger] server.turned(
                    turn,
                    TurnEvent::Written(result),
                ) == server.settled(id, quiet, true)
        }),
{
}

/// A page or script is handed out: where a request that is none for an upgrade has arrived on a plain
/// connection and asks for a URL that was given to a path ending in `.html` or `.js`, the turn asks to
/// hand out the file at that path, as a page or as a script.
pub proof fn law_file_handed_out(
    server: ServerView,
    turn: Turn,
    method: Seq<char>,
    url: Seq<char>,
    rest: Seq<char>,
    stem: Seq<char>,
    script: bool,
)
    requires
        server.wf(),
        server.has(turn.id as int),
        server.slots[turn.id as int]->0.state == ClientState::PreHandshake,
        method.len() > 0,
        url.len() > 0,
        forall|i: int|
            0 <= i < method.len() ==> !crate::text::white_space(#[trigger] method[i]),
        forall|i: int| 0 <= i < url.len() ==> !crate::text::white_space(#[trigger] url[i]),
        ({
            let request = method + seq![' '] + url + seq![' '] + rest;
            let path = stem + if script {
                ".js"@
            } else {
                ".html"@
            };
            &&& server.slots[turn.id as int]->0.rx == vstd::utf8::encode_utf8(request)
            &&& server.resources.contains_key(url)
            &&& server.resources[url] == ResourceView {
                content_type: crate::server::type_of(path)->0,
                path,
            }
            &&& forall|i: int|
                0 <= i < crate::text::lines(request).len()
                    ==> !"Connection: Upgrade"@.is_prefix_of(
                    #[trigger] crate::text::lines(request)[i],
                )
        }),
    ensures
        ({
            let (_, stage, action) = server.turned(turn, TurnEvent::Read(ReadResult::WouldBlock));
            &&& stage == TurnStage::Responding
            &&& action == TurnActionView::HandOut {
                path: stem + if script {
                    ".js"@
                } else {
                    ".html"@
                },
                content_type: if script {
                    ContentType::Js
                } else {
                    ContentType::Html
                },
            }
        }),
{
    let path = stem + if script {
        ".js"@
    } else {
        ".html"@
    };
    crate::server::law_page_and_script(server.resources, method, url, rest, stem, script);
    assert(server.resources.insert(
        url,
        ResourceView { content_type: crate::server::type_of(path)->0, path },
    ) =~= server.resources);
    law_request_turn(server, turn.id as int, turn.ready);
}

/// A message is delivered: where a masked binary frame of fewer than 126 bytes has arrived whole on
/// an upgraded connection that waits for one, and does not lie around the end of the array, the turn
/// asks for the message handler, with the payload at the front of what has arrived.
pub proof fn law_message_delivered(
    server: ServerView,
    turn: Turn,
    key: Seq<u8>,
    payload: Seq<u8>,
)
    requires
        server.wf(),
        server.has(turn.id as int),
        payload.len() < 126,
        key.len() == 4,
        ({
            let client = server.slots[turn.id as int]->0;
            &&& client.state == ClientState::PostHandshake
            &&& client.expect == Expect::Frame
            &&& client.rx.len() >= 6 + payload.len()
            &&& (client.rx_start + 6) % 1024 + payload.len() <= 1024
            &&& client.rx[0] == 0x82
            &&& client.rx[1] == 128 + payload.len()
            &&& forall|i: int| 0 <= i < 4 ==> #[trigger] client.rx[2 + i] == key[i]
            &&& forall|i: int|
                0 <= i < payload.len() ==> #[trigger] client.rx[6 + i] == payload[i] ^ key[i % 4]
        }),
    ensures
        ({
            let id = turn.id as int;
            let (next, stage, action) = server.turned(
                turn,
                TurnEvent::Read(ReadResult::WouldBlock),
            );
            &&& stage == TurnStage::Messaging
            &&& action == TurnActionView::Message
            &&& next.has(id)
            &&& next.slots[id]->0.rx.take(payload.len() as int) == payload
            &&& next.slots[id]->0.tx == server.slots[id]->0.tx
        }),
{
    let id = turn.id as int;
    crate::client::law_binary_frame_delivered(server.slots[id]->0, 0, true, key, payload);
    law_frame_turn(server, id, turn.ready);
}

} // verus!
