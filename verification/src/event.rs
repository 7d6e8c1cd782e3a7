//! What an event on a connection leads to.
use crate::client::{ClientState, ClientView};
use crate::server::{Server, ServerView, MAX_CLIENTS};
use vstd::prelude::*;

verus! {

/// What an event says of a socket.
#[derive(Clone, Copy, Debug, PartialEq, Eq, Structural)]
pub struct Readiness {
    /// There may be bytes to read.
    pub readable: bool,
    /// There may be room to write.
    pub writable: bool,
    /// The peer will send no more.
    pub read_closed: bool,
    /// The peer will take no more.
    pub write_closed: bool,
    /// Something is wrong.
    pub error: bool,
}

/// What came of reading from a socket.
pub enum ReadResult {
    /// These bytes; none at the end of the stream.
    Bytes(Vec<u8>),
    /// There is nothing to read now.
    WouldBlock,
    /// The socket failed.
    Failed,
}

/// What came of writing to a socket what waits to leave.
#[derive(Clone, Copy, Debug, PartialEq, Eq, Structural)]
pub enum WriteResult {
    /// The socket took what it could.
    Written,
    /// There is no room to write now.
    WouldBlock,
    /// A signal came between.
    Interrupted,
    /// The socket failed.
    Failed,
}

/// What to do next about an event.
#[derive(Clone, Copy, Debug, PartialEq, Eq, Structural)]
pub enum Task {
    /// Read from the socket.
    Read,
    /// Take what has arrived as a request.
    Serve,
    /// Take what has arrived as frames.
    Handle,
    /// Write to the socket what waits to leave.
    Write,
    /// The connection is gone: watch its socket no longer, and close it.
    Deregister,
    /// The connection is gone: close its socket.
    Drop,
    /// Nothing.
    Done,
}

impl ServerView {
    /// The server without the connection of slot `id`.
    pub open spec fn without(self, id: int) -> ServerView {
        self.with_slot(id, None)
    }

    /// The end of an event: the connection goes where its socket is closed or at fault.
    pub open spec fn finished(self, id: int, ready: Readiness) -> (ServerView, Task) {
        if ready.write_closed || ready.read_closed || ready.error {
            (self.without(id), Task::Drop)
        } else {
            (self, Task::Done)
        }
    }

    /// An event once there is nothing more to read: what waits leaves, on an upgraded
    /// connection, where there is room to write.
    pub open spec fn drained(self, id: int, ready: Readiness) -> (ServerView, Task) {
        if ready.writable && self.slots[id]->0.state == ClientState::PostHandshake {
            (self, Task::Write)
        } else {
            self.finished(id, ready)
        }
    }

    /// The beginning of an event.
    pub open spec fn begun(self, id: int, ready: Readiness) -> (ServerView, Task) {
        if ready.readable {
            (self, Task::Read)
        } else {
            self.drained(id, ready)
        }
    }

    /// What reading leads to: bytes are kept and reading goes on; once there are none for
    /// now, what has arrived is looked at; the end of the stream and a failure end the
    /// connection.
    pub open spec fn after_read(self, id: int, result: ReadResult) -> (ServerView, Task) {
        match result {
            ReadResult::Bytes(bytes) => if bytes@.len() == 0 {
                (self.without(id), Task::Deregister)
            } else {
                (self.with_slot(id, Some(self.slots[id]->0.received(bytes@))), Task::Read)
            },
            ReadResult::WouldBlock => match self.slots[id]->0.state {
                ClientState::PreHandshake => (self, Task::Serve),
                ClientState::PostHandshake => (self, Task::Handle),
            },
            ReadResult::Failed => (self.without(id), Task::Deregister),
        }
    }

    /// The server once the connect handler has been called on the connection of slot `id`: that
    /// counts as upgraded where the handler went well.
    pub open spec fn connected(self, id: int, ok: bool) -> ServerView {
        if ok {
            self.with_slot(
                id,
                Some(ClientView { state: ClientState::PostHandshake, ..self.slots[id]->0 }),
            )
        } else {
            self
        }
    }

    /// What looking at what has arrived leads to.
    pub open spec fn after_handling(self, id: int, ready: Readiness, ok: bool) -> (
        ServerView,
        Task,
    ) {
        if ok {
            self.drained(id, ready)
        } else {
            (self.without(id), Task::Deregister)
        }
    }

    /// What writing leads to.
    pub open spec fn after_write(self, id: int, ready: Readiness, result: WriteResult) -> (
        ServerView,
        Task,
    ) {
        match result {
            WriteResult::Failed => (self.without(id), Task::Drop),
            _ => self.finished(id, ready),
        }
    }
}

impl Server {
    /// Ends an event.
    fn finish(&mut self, id: usize, ready: Readiness) -> (task: Task)
        requires
            old(self)@.wf(),
            old(self)@.has(id as int),
        ensures
            (final(self)@, task) == old(self)@.finished(id as int, ready),
            final(self)@.wf(),
    {
        if ready.write_closed || ready.read_closed || ready.error {
            self.remove(id);
            Task::Drop
        } else {
            Task::Done
        }
    }

    /// Goes on with an event once there is nothing more to read.
    fn drain(&mut self, id: usize, ready: Readiness) -> (task: Task)
        requires
            old(self)@.wf(),
            old(self)@.has(id as int),
        ensures
            (final(self)@, task) == old(self)@.drained(id as int, ready),
            final(self)@.wf(),
    {
        if ready.writable {
            match self.state_of(id) {
                ClientState::PostHandshake => {
                    return Task::Write;
                },
                ClientState::PreHandshake => {},
            }
        }
        self.finish(id, ready)
    }

    /// Begins with an event on the connection of slot `id`.
    pub fn on_event(&mut self, id: usize, ready: Readiness) -> (task: Task)
        requires
            old(self)@.wf(),
            old(self)@.has(id as int),
        ensures
            (final(self)@, task) == old(self)@.begun(id as int, ready),
            final(self)@.wf(),
    {
        if ready.readable {
            Task::Read
        } else {
            self.drain(id, ready)
        }
    }

    /// Goes on after [`Task::Read`].
    pub fn on_read(&mut self, id: usize, result: ReadResult) -> (task: Task)
        requires
            old(self)@.wf(),
            old(self)@.has(id as int),
            result matches ReadResult::Bytes(bytes) ==> bytes@.len()
                <= crate::ring::CAPACITY - old(self)@.slots[id as int]->0.rx.len(),
        ensures
            (final(self)@, task) == old(self)@.after_read(id as int, result),
            final(self)@.wf(),
    {
        match result {
            ReadResult::Bytes(bytes) => {
                if bytes.len() == 0 {
                    self.remove(id);
                    Task::Deregister
                } else {
                    let client = self.client_mut(id);
                    client.receive(bytes.as_slice());
                    Task::Read
                }
            },
            ReadResult::WouldBlock => match self.state_of(id) {
                ClientState::PreHandshake => Task::Serve,
                ClientState::PostHandshake => Task::Handle,
            },
            ReadResult::Failed => {
                self.remove(id);
                Task::Deregister
            },
        }
    }

    /// Notes that the connect handler has been called on the connection of slot `id`, and went
    /// well or did not.
    pub fn on_connected(&mut self, id: usize, ok: bool)
        requires
            old(self)@.wf(),
            old(self)@.has(id as int),
        ensures
            final(self)@ == old(self)@.connected(id as int, ok),
            final(self)@.wf(),
    {
        if ok {
            let client = self.client_mut(id);
            client.complete_handshake();
        }
    }

    /// Goes on after [`Task::Serve`] and [`Task::Handle`], which went well or did not.
    pub fn on_handled(&mut self, id: usize, ready: Readiness, ok: bool) -> (task: Task)
        requires
            old(self)@.wf(),
            old(self)@.has(id as int),
        ensures
            (final(self)@, task) == old(self)@.after_handling(id as int, ready, ok),
            final(self)@.wf(),
    {
        if ok {
            self.drain(id, ready)
        } else {
            self.remove(id);
            Task::Deregister
        }
    }

    /// Goes on after [`Task::Write`].
    pub fn on_written(&mut self, id: usize, ready: Readiness, result: WriteResult) -> (task: Task)
        requires
            old(self)@.wf(),
            old(self)@.has(id as int),
        ensures
            (final(self)@, task) == old(self)@.after_write(id as int, ready, result),
            final(self)@.wf(),
    {
        match result {
            WriteResult::Failed => {
                self.remove(id);
                Task::Drop
            },
            _ => self.finish(id, ready),
        }
    }
}

/// A connection goes whenever its socket is to be closed, and only then.
pub proof fn law_slot_freed_with_socket(
    server: ServerView,
    id: int,
    ready: Readiness,
    read: ReadResult,
    ok: bool,
    write: WriteResult,
)
    requires
        server.wf(),
        server.has(id),
    ensures
        ({
            let gone = |next: (ServerView, Task)|
                next.0.has(id) == !(next.1 == Task::Deregister || next.1 == Task::Drop);
            &&& gone(server.begun(id, ready))
            &&& gone(server.after_read(id, read))
            &&& gone(server.after_handling(id, ready, ok))
            &&& gone(server.after_write(id, ready, write))
        }),
{
}

/// An event on one connection leaves every other as it is, and the resources too.
pub proof fn law_other_connections_unchanged(
    server: ServerView,
    id: int,
    other: int,
    ready: Readiness,
    read: ReadResult,
    ok: bool,
    write: WriteResult,
)
    requires
        server.wf(),
        server.has(id),
        0 <= other < MAX_CLIENTS,
        other != id,
    ensures
        ({
            let kept = |next: (ServerView, Task)|
                next.0.slots[other] == server.slots[other] && next.0.resources
                    == server.resources;
            &&& kept(server.begun(id, ready))
            &&& kept(server.after_read(id, read))
            &&& kept(server.after_handling(id, ready, ok))
            &&& kept(server.after_write(id, ready, write))
        }),
{
}

/// What has arrived is taken as frames on an upgraded connection only, and as a request on the
/// others only.
pub proof fn law_frames_after_upgrade(server: ServerView, id: int, result: ReadResult)
    requires
        server.wf(),
        server.has(id),
    ensures
        server.after_read(id, result).1 == Task::Handle ==> server.slots[id]->0.state
            == ClientState::PostHandshake,
        server.after_read(id, result).1 == Task::Serve ==> server.slots[id]->0.state
            == ClientState::PreHandshake,
{
}

/// Nothing leaves a connection by an event until it has been upgraded.
pub proof fn law_no_write_before_upgrade(server: ServerView, id: int, ready: Readiness)
    requires
        server.wf(),
        server.has(id),
        server.slots[id]->0.state == ClientState::PreHandshake,
    ensures
        server.begun(id, ready).1 != Task::Write,
        server.after_handling(id, ready, true).1 != Task::Write,
{
}

/// How an event begins, by what it says of the socket. Where there is something to read, it is read
/// first; else what waits leaves, on an upgraded connection, where there is room to write; else the
/// connection goes where its socket is closed or at fault, and stays where it is not.
pub proof fn law_event_begins(server: ServerView, id: int, ready: Readiness)
    requires
        server.has(id),
    ensures
        ({
            let begun = server.begun(id, ready);
            let upgraded = server.slots[id]->0.state == ClientState::PostHandshake;
            let closed = ready.read_closed || ready.write_closed || ready.error;
            &&& ready.readable ==> begun == (server, Task::Read)
            &&& !ready.readable && ready.writable && upgraded ==> begun == (server, Task::Write)
            &&& !ready.readable && !(ready.writable && upgraded) && !closed ==> begun == (
                server,
                Task::Done,
            )
            &&& !ready.readable && !(ready.writable && upgraded) && closed ==> begun.1
                == Task::Drop && begun.0.slots == server.slots.update(id, None) && begun.0.resources
                == server.resources && begun.0.run == server.run
        }),
{
}

/// What reading leads to: bytes join what has arrived and more are read; where there are none for
/// now, a plain connection is served and an upgraded one handled; the end of the stream and a
/// failure free the slot.
pub proof fn law_read_leads(server: ServerView, id: int, result: ReadResult)
    requires
        server.has(id),
    ensures
        ({
            let (after, task) = server.after_read(id, result);
            let client = server.slots[id]->0;
            &&& after.resources == server.resources && after.run == server.run
            &&& match result {
                ReadResult::Bytes(bytes) => {
                    &&& bytes@.len() > 0 ==> task == Task::Read && after.slots
                        == server.slots.update(
                        id,
                        Some(ClientView { rx: client.rx + bytes@, ..client }),
                    )
                    &&& bytes@.len() == 0 ==> task == Task::Deregister && after.slots
                        == server.slots.update(id, None)
                },
                ReadResult::WouldBlock => {
                    &&& after == server
                    &&& client.state == ClientState::PreHandshake ==> task == Task::Serve
                    &&& client.state == ClientState::PostHandshake ==> task == Task::Handle
                },
                ReadResult::Failed => task == Task::Deregister && after.slots
                    == server.slots.update(id, None),
            }
        }),
{
}

/// Once what has arrived has been looked at, an event goes on as one does that began with nothing to
/// read; where that did not go well, the slot is freed.
pub proof fn law_handled_leads(server: ServerView, id: int, ready: Readiness)
    requires
        server.has(id),
    ensures
        server.after_handling(id, ready, true) == server.begun(
            id,
            (Readiness { readable: false, ..ready }),
        ),
        server.after_handling(id, ready, false).1 == Task::Deregister,
        server.after_handling(id, ready, false).0.slots == server.slots.update(id, None),
        server.after_handling(id, ready, false).0.resources == server.resources,
        server.after_handling(id, ready, false).0.run == server.run,
{
}

/// After writing, an event goes on as one does that began with nothing to read and no room to write,
/// unless the socket failed, which frees the slot.
pub proof fn law_write_leads(
    server: ServerView,
    id: int,
    ready: Readiness,
    result: WriteResult,
)
    requires
        server.has(id),
    ensures
        result != WriteResult::Failed ==> server.after_write(id, ready, result) == server.begun(
            id,
            (Readiness { readable: false, writable: false, ..ready }),
        ),
        result == WriteResult::Failed ==> {
            let (after, task) = server.after_write(id, ready, result);
            &&& task == Task::Drop
            &&& after.slots == server.slots.update(id, None)
            &&& after.resources == server.resources
            &&& after.run == server.run
        },
{
}

/// Where the connect handler went well the connection has been upgraded and is otherwise as it was;
/// where it did not, nothing has changed. No other connection changes either way.
pub proof fn law_connected(server: ServerView, id: int)
    requires
        server.has(id),
    ensures
        server.connected(id, false) == server,
        server.connected(id, true).slots == server.slots.update(
            id,
            Some(ClientView { state: ClientState::PostHandshake, ..server.slots[id]->0 }),
        ),
        server.connected(id, true).resources == server.resources,
        server.connected(id, true).run == server.run,
{
}

} // verus!
